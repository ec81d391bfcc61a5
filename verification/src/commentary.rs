//! Commentary is inert: a byte that denotes no operation can be put
//! anywhere into a program without changing what the scanner yields, what
//! a run reads, writes or leaves on the tape, or what is emitted, but for
//! the loop labels that are made from the shifted indices.
//!
//! The proof for runs is a simulation. Positions of the plain program are
//! carried over to the program with the extra byte, and every transition
//! of one machine is matched by the same transition of the other.

use vstd::prelude::*;

use crate::brackets::{
    balanced, depth, lemma_close_unique, lemma_open_unique, lemma_partner, matched, partner,
};
use crate::instruction::{decode, is_bracket, LSQUARE};
use crate::interpreter::{awaits_input, rendered, run_spec, supply};
use crate::machine::{fetch, lemma_next_op, next_op, step_spec, Action, Event, State};
use crate::parser::operations;
use crate::transpiler::{body, emitted, fragment, EPILOGUE, PROLOGUE};

verus! {

/// Where the byte at `index` of the plain program stands once a byte has
/// been put in at `at`.
pub open spec fn shifted(at: int, index: int) -> int {
    if index < at {
        index
    } else {
        index + 1
    }
}

/// `noisy` is `plain` with one byte of commentary put in at `at`.
spec fn widened(plain: Seq<u8>, noisy: Seq<u8>, at: int) -> bool {
    &&& 0 <= at <= plain.len()
    &&& noisy.len() == plain.len() + 1
    &&& decode(noisy[at]).is_none()
    &&& forall|k: int| 0 <= k < plain.len() ==> noisy[shifted(at, k)] == #[trigger] plain[k]
}

/// The extra byte leaves the nesting depth at every carried-over position
/// as it was.
proof fn lemma_depth_widened(plain: Seq<u8>, noisy: Seq<u8>, at: int, k: int)
    requires
        widened(plain, noisy, at),
        0 <= k <= plain.len(),
    ensures
        depth(noisy, shifted(at, k)) == depth(plain, k),
        k == at ==> depth(noisy, at) == depth(plain, at),
    decreases k,
{
    if k > 0 {
        lemma_depth_widened(plain, noisy, at, k - 1);
        assert(noisy[shifted(at, k - 1)] == plain[k - 1]);
        if k == at {
            assert(depth(noisy, at) == depth(plain, at));
            assert(depth(noisy, at + 1) == depth(noisy, at));
        }
    } else if at == 0 {
        assert(depth(noisy, 1) == depth(noisy, 0));
    }
}

/// The nesting depth at any position of the wider program is the depth at
/// some position of the plain one.
proof fn lemma_depth_narrowed(plain: Seq<u8>, noisy: Seq<u8>, at: int, k: int)
    requires
        widened(plain, noisy, at),
        0 <= k <= noisy.len(),
    ensures
        depth(noisy, k) == depth(
            plain,
            if k <= at {
                k
            } else {
                k - 1
            },
        ),
{
    if k <= at {
        lemma_depth_widened(plain, noisy, at, k);
    } else {
        lemma_depth_widened(plain, noisy, at, k - 1);
    }
}

/// The wider program is balanced if the plain one is.
proof fn lemma_balanced_widened(plain: Seq<u8>, noisy: Seq<u8>, at: int)
    requires
        widened(plain, noisy, at),
        balanced(plain),
    ensures
        balanced(noisy),
{
    assert forall|k: int| 0 <= k <= noisy.len() implies #[trigger] depth(noisy, k) >= 0 by {
        lemma_depth_narrowed(plain, noisy, at, k);
        let j = if k <= at {
            k
        } else {
            k - 1
        };
        assert(depth(plain, j) >= 0);
    }
    lemma_depth_narrowed(plain, noisy, at, noisy.len() as int);
}

/// A matched pair of the plain program is a matched pair of the wider one.
proof fn lemma_matched_widened(plain: Seq<u8>, noisy: Seq<u8>, at: int, open: int, close: int)
    requires
        widened(plain, noisy, at),
        matched(plain, open, close),
    ensures
        matched(noisy, shifted(at, open), shifted(at, close)),
{
    lemma_depth_widened(plain, noisy, at, open);
    lemma_depth_narrowed(plain, noisy, at, shifted(at, close) + 1);
    assert(noisy[shifted(at, open)] == plain[open]);
    assert(noisy[shifted(at, close)] == plain[close]);
    assert forall|k: int| shifted(at, open) < k <= shifted(at, close) implies #[trigger] depth(
        noisy,
        k,
    ) > depth(noisy, shifted(at, open)) by {
        lemma_depth_narrowed(plain, noisy, at, k);
        let j = if k <= at {
            k
        } else {
            k - 1
        };
        assert(open < j <= close);
        assert(depth(plain, j) > depth(plain, open));
    }
}

/// The partner of a carried-over bracket is the carried-over partner.
proof fn lemma_partner_widened(plain: Seq<u8>, noisy: Seq<u8>, at: int, index: int)
    requires
        widened(plain, noisy, at),
        balanced(plain),
        0 <= index < plain.len(),
        is_bracket(plain[index]),
    ensures
        partner(noisy, shifted(at, index)) == shifted(at, partner(plain, index)),
{
    lemma_balanced_widened(plain, noisy, at);
    lemma_partner(plain, index);
    assert(noisy[shifted(at, index)] == plain[index]);
    lemma_partner(noisy, shifted(at, index));
    let other = partner(plain, index);
    if plain[index] == LSQUARE {
        lemma_matched_widened(plain, noisy, at, index, other);
        lemma_close_unique(
            noisy,
            shifted(at, index),
            shifted(at, other),
            partner(noisy, shifted(at, index)),
        );
    } else {
        lemma_matched_widened(plain, noisy, at, other, index);
        lemma_open_unique(
            noisy,
            shifted(at, other),
            partner(noisy, shifted(at, index)),
            shifted(at, index),
        );
    }
}

/// The scanner stops at carried-over positions: from the carried-over
/// place, and from the extra byte itself.
proof fn lemma_next_op_widened(plain: Seq<u8>, noisy: Seq<u8>, at: int, k: int)
    requires
        widened(plain, noisy, at),
        0 <= k,
    ensures
        next_op(noisy, shifted(at, k)) == shifted(at, next_op(plain, k)),
        k == at ==> next_op(noisy, at) == shifted(at, next_op(plain, at)),
    decreases plain.len() - k,
{
    if k < plain.len() {
        assert(noisy[shifted(at, k)] == plain[k]);
        if decode(plain[k]).is_none() {
            lemma_next_op_widened(plain, noisy, at, k + 1);
        }
    }
    if k == at {
        assert(next_op(noisy, at) == next_op(noisy, at + 1));
    }
}

/// From carried-over positions on, and from the extra byte itself, the
/// wider program holds the same operations as the plain one.
proof fn lemma_operations_widened(plain: Seq<u8>, noisy: Seq<u8>, at: int, k: int)
    requires
        widened(plain, noisy, at),
        0 <= k,
    ensures
        operations(noisy, shifted(at, k)) == operations(plain, k),
        k == at ==> operations(noisy, at) == operations(plain, at),
    decreases plain.len() - k,
{
    if k < plain.len() {
        assert(noisy[shifted(at, k)] == plain[k]);
        lemma_operations_widened(plain, noisy, at, k + 1);
    }
    if k == at {
        assert(operations(noisy, at) == operations(noisy, at + 1));
    }
}

/// The fragments of the operations of `code` from index `pc` on, with
/// every loop labelled by where its `]` stands once a byte has been put
/// in at `at`.
pub open spec fn body_relabelled(code: Seq<u8>, pc: int, at: int) -> Seq<char>
    decreases code.len() - pc,
{
    if pc < 0 || pc >= code.len() {
        Seq::empty()
    } else {
        match decode(code[pc]) {
            Some(instruction) => fragment(instruction, shifted(at, partner(code, pc)))
                + body_relabelled(code, pc + 1, at),
            None => body_relabelled(code, pc + 1, at),
        }
    }
}

/// From carried-over positions on, and from the extra byte itself, the
/// wider program emits what the plain one emits under the shifted labels.
proof fn lemma_body_widened(plain: Seq<u8>, noisy: Seq<u8>, at: int, k: int)
    requires
        widened(plain, noisy, at),
        balanced(plain),
        0 <= k,
    ensures
        body(noisy, shifted(at, k)) == body_relabelled(plain, k, at),
        k == at ==> body(noisy, at) == body_relabelled(plain, at, at),
    decreases plain.len() - k,
{
    if k < plain.len() {
        assert(noisy[shifted(at, k)] == plain[k]);
        lemma_body_widened(plain, noisy, at, k + 1);
        if is_bracket(plain[k]) {
            lemma_partner_widened(plain, noisy, at, k);
        }
    }
    if k == at {
        assert(body(noisy, at) == body(noisy, at + 1));
    }
}

/// Without loops there are no labels to shift.
proof fn lemma_relabelled_without_loops(code: Seq<u8>, pc: int, at: int)
    requires
        forall|i: int| 0 <= i < code.len() ==> #[trigger] code[i] != LSQUARE,
    ensures
        body_relabelled(code, pc, at) == body(code, pc),
    decreases code.len() - pc,
{
    if 0 <= pc < code.len() {
        assert(code[pc] != LSQUARE);
        lemma_relabelled_without_loops(code, pc + 1, at);
    }
}

/// Two machines are in step: same tape, and the scanner of the wider
/// program will stop where the scanner of the plain one does.
spec fn in_step(plain: State, noisy: State, at: int) -> bool {
    &&& widened(plain.code, noisy.code, at)
    &&& balanced(plain.code)
    &&& 0 <= plain.pc
    &&& 0 <= noisy.pc
    &&& noisy.tape == plain.tape
    &&& next_op(noisy.code, noisy.pc) == shifted(at, next_op(plain.code, plain.pc))
}

/// The place after a carried-over position scans like the carried-over
/// place after it.
proof fn lemma_after_widened(plain: Seq<u8>, noisy: Seq<u8>, at: int, k: int)
    requires
        widened(plain, noisy, at),
        0 <= k,
    ensures
        next_op(noisy, shifted(at, k) + 1) == shifted(at, next_op(plain, k + 1)),
{
    lemma_next_op_widened(plain, noisy, at, k + 1);
}

/// Machines that are in step make the same transition and stay in step.
proof fn lemma_step_widened(plain: State, noisy: State, at: int, event: Event)
    requires
        in_step(plain, noisy, at),
    ensures
        step_spec(noisy, event).action == step_spec(plain, event).action,
        in_step(step_spec(plain, event).state, step_spec(noisy, event).state, at),
        awaits_input(noisy) == awaits_input(plain),
{
    let a = next_op(plain.code, plain.pc);
    lemma_next_op(plain.code, plain.pc);
    lemma_next_op(noisy.code, noisy.pc);
    lemma_next_op_widened(plain.code, noisy.code, at, a);
    lemma_after_widened(plain.code, noisy.code, at, a);
    if a < plain.code.len() {
        assert(noisy.code[shifted(at, a)] == plain.code[a]);
        if is_bracket(plain.code[a]) {
            lemma_partner(plain.code, a);
            lemma_partner_widened(plain.code, noisy.code, at, a);
            let other = partner(plain.code, a);
            lemma_next_op_widened(plain.code, noisy.code, at, other);
            lemma_after_widened(plain.code, noisy.code, at, other);
        }
    }
    assert(fetch(noisy.code, noisy.pc) == fetch(plain.code, plain.pc));
}

/// Runs of machines that are in step agree in everything but the program
/// counter.
proof fn lemma_run_widened(
    plain: State,
    noisy: State,
    at: int,
    input: Seq<u8>,
    consumed: int,
    output: Seq<u8>,
    fuel: nat,
)
    requires
        in_step(plain, noisy, at),
    ensures
        ({
            let p = run_spec(plain, input, consumed, output, fuel);
            let n = run_spec(noisy, input, consumed, output, fuel);
            &&& n.state.tape == p.state.tape
            &&& n.status == p.status
            &&& n.consumed == p.consumed
            &&& n.output == p.output
        }),
    decreases fuel,
{
    if fuel > 0 {
        let event = supply(input, consumed);
        lemma_step_widened(plain, noisy, at, event);
        let p = step_spec(plain, event);
        let n = step_spec(noisy, event);
        let rest = (fuel - 1) as nat;
        match p.action {
            Action::Halt => {},
            Action::Abort(_) => {},
            Action::Print(value) => {
                lemma_run_widened(
                    p.state,
                    n.state,
                    at,
                    input,
                    consumed,
                    output + rendered(value),
                    rest,
                );
            },
            _ => {
                let used = if awaits_input(plain) {
                    consumed + 1
                } else {
                    consumed
                };
                lemma_run_widened(p.state, n.state, at, input, used, output, rest);
            },
        }
    }
}

/// Putting one byte of commentary into a program, at any place, changes
/// nothing in the sequence of operations that scanning it yields.
pub proof fn lemma_inserted_byte_keeps_operations(code: Seq<u8>, at: int, byte: u8)
    requires
        0 <= at <= code.len(),
        decode(byte).is_none(),
    ensures
        operations(code.insert(at, byte), 0) == operations(code, 0),
{
    let wider = code.insert(at, byte);
    code.insert_ensures(at, byte);
    assert(widened(code, wider, at));
    lemma_operations_widened(code, wider, at, 0);
}

/// Putting one byte of commentary into a balanced program, at any place,
/// carries every bracket pair over: the partner of a bracket in its new
/// place is the partner it had, in its new place.
pub proof fn lemma_inserted_byte_keeps_pairs(code: Seq<u8>, at: int, byte: u8, index: int)
    requires
        balanced(code),
        0 <= at <= code.len(),
        decode(byte).is_none(),
        0 <= index < code.len(),
        is_bracket(code[index]),
    ensures
        partner(code.insert(at, byte), shifted(at, index)) == shifted(at, partner(code, index)),
{
    let wider = code.insert(at, byte);
    code.insert_ensures(at, byte);
    assert(widened(code, wider, at));
    lemma_partner_widened(code, wider, at, index);
}

/// Putting one byte of commentary into a balanced program, at any place,
/// changes the emitted text in the loop labels only: each loop is now
/// labelled by the shifted index of its `]`. A program without loops is
/// emitted as before, character for character.
pub proof fn lemma_inserted_byte_relabels(code: Seq<u8>, at: int, byte: u8)
    requires
        balanced(code),
        0 <= at <= code.len(),
        decode(byte).is_none(),
    ensures
        emitted(code.insert(at, byte), 0) == PROLOGUE@ + body_relabelled(code, 0, at)
            + EPILOGUE@,
        (forall|i: int| 0 <= i < code.len() ==> #[trigger] code[i] != LSQUARE) ==> emitted(
            code.insert(at, byte),
            0,
        ) == emitted(code, 0),
{
    let wider = code.insert(at, byte);
    code.insert_ensures(at, byte);
    assert(widened(code, wider, at));
    lemma_body_widened(code, wider, at, 0);
    if forall|i: int| 0 <= i < code.len() ==> #[trigger] code[i] != LSQUARE {
        lemma_relabelled_without_loops(code, 0, at);
    }
}

/// Putting one byte of commentary into a balanced program, at any place,
/// leaves it balanced and changes nothing that a run of any length from
/// the fresh state reads, writes, or leaves on the tape, nor how the run
/// ends.
pub proof fn lemma_inserted_byte_is_inert(
    code: Seq<u8>,
    at: int,
    byte: u8,
    input: Seq<u8>,
    fuel: nat,
)
    requires
        balanced(code),
        0 <= at <= code.len(),
        decode(byte).is_none(),
    ensures
        balanced(code.insert(at, byte)),
        ({
            let plain = run_spec(State::initial(code), input, 0, Seq::empty(), fuel);
            let noisy = run_spec(
                State::initial(code.insert(at, byte)),
                input,
                0,
                Seq::empty(),
                fuel,
            );
            &&& noisy.output == plain.output
            &&& noisy.state.tape == plain.state.tape
            &&& noisy.status == plain.status
            &&& noisy.consumed == plain.consumed
        }),
{
    let wider = code.insert(at, byte);
    code.insert_ensures(at, byte);
    assert(widened(code, wider, at));
    lemma_balanced_widened(code, wider, at);
    lemma_next_op_widened(code, wider, at, 0);
    lemma_run_widened(
        State::initial(code),
        State::initial(wider),
        at,
        input,
        0,
        Seq::empty(),
        fuel,
    );
}

/// `code` with the bytes of `comment` put in before index `at`.
pub open spec fn annotated(code: Seq<u8>, at: int, comment: Seq<u8>) -> Seq<u8> {
    code.subrange(0, at) + comment + code.subrange(at, code.len() as int)
}

/// Putting any run of commentary into a balanced program, at any place,
/// leaves it balanced and changes nothing that a run of any length from
/// the fresh state reads, writes, or leaves on the tape, nor how the run
/// ends.
pub proof fn lemma_inserted_comment_is_inert(
    code: Seq<u8>,
    at: int,
    comment: Seq<u8>,
    input: Seq<u8>,
    fuel: nat,
)
    requires
        balanced(code),
        0 <= at <= code.len(),
        forall|i: int| 0 <= i < comment.len() ==> decode(#[trigger] comment[i]).is_none(),
    ensures
        balanced(annotated(code, at, comment)),
        ({
            let plain = run_spec(State::initial(code), input, 0, Seq::empty(), fuel);
            let noisy = run_spec(
                State::initial(annotated(code, at, comment)),
                input,
                0,
                Seq::empty(),
                fuel,
            );
            &&& noisy.output == plain.output
            &&& noisy.state.tape == plain.state.tape
            &&& noisy.status == plain.status
            &&& noisy.consumed == plain.consumed
        }),
    decreases comment.len(),
{
    if comment.len() == 0 {
        assert(annotated(code, at, comment) =~= code);
    } else {
        let shorter = comment.drop_last();
        let partly = annotated(code, at, shorter);
        lemma_inserted_comment_is_inert(code, at, shorter, input, fuel);
        lemma_inserted_byte_is_inert(partly, at + shorter.len(), comment.last(), input, fuel);
        assert(partly.insert(at + shorter.len(), comment.last()) =~= annotated(
            code,
            at,
            comment,
        ));
    }
}

/// Putting any run of commentary into a program, at any place, changes
/// nothing in the sequence of operations that scanning it yields.
pub proof fn lemma_inserted_comment_keeps_operations(code: Seq<u8>, at: int, comment: Seq<u8>)
    requires
        0 <= at <= code.len(),
        forall|i: int| 0 <= i < comment.len() ==> decode(#[trigger] comment[i]).is_none(),
    ensures
        operations(annotated(code, at, comment), 0) == operations(code, 0),
    decreases comment.len(),
{
    if comment.len() == 0 {
        assert(annotated(code, at, comment) =~= code);
    } else {
        let shorter = comment.drop_last();
        let partly = annotated(code, at, shorter);
        lemma_inserted_comment_keeps_operations(code, at, shorter);
        lemma_inserted_byte_keeps_operations(partly, at + shorter.len(), comment.last());
        assert(partly.insert(at + shorter.len(), comment.last()) =~= annotated(
            code,
            at,
            comment,
        ));
    }
}

} // verus!
