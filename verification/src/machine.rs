//! The abstract machine: what a program means, as mathematics.
//!
//! A state is the program text, the tape and the program counter. One
//! transition skips commentary up to the next operation and performs it.
//! The machine does no input or output itself: it asks for them through the
//! action of a transition and is told the answer through the event of the
//! next one.

use vstd::prelude::*;

use crate::brackets::{balanced, lemma_partner, partner};
use crate::instruction::{decode, is_bracket, Instruction};
use crate::tape::{decremented, incremented, TapeView, TAPE_LEN};

verus! {

/// What the caller reports to the machine when it asks for a transition.
#[derive(Clone, Copy, Debug, PartialEq, Eq, Structural)]
pub enum Event {
    /// Nothing to report.
    Resume,
    /// The byte that was read in answer to `Action::Read`.
    Byte(u8),
    /// The input ended before a byte could be read.
    EndOfInput,
}

/// Why a run was abandoned.
#[derive(Clone, Copy, Debug, PartialEq, Eq, Structural)]
pub enum Fault {
    /// The program tried to move the cursor off either end of the tape.
    CursorOutOfBounds,
    /// The program asked for input and there was none left.
    EndOfInput,
}

impl Fault {
    /// The diagnostic for this fault.
    pub open spec fn message_spec(self) -> Seq<char> {
        match self {
            Fault::CursorOutOfBounds => "cursor moved off the tape"@,
            Fault::EndOfInput => "end of input while reading a byte"@,
        }
    }

    /// A short text that names the fault, for a diagnostic.
    pub fn message(self) -> (text: &'static str)
        ensures
            text@ == self.message_spec(),
    {
        match self {
            Fault::CursorOutOfBounds => "cursor moved off the tape",
            Fault::EndOfInput => "end of input while reading a byte",
        }
    }
}

/// What the machine asks of its caller after a transition.
#[derive(Clone, Copy, Debug, PartialEq, Eq, Structural)]
pub enum Action {
    /// Nothing; ask for the next transition.
    Continue,
    /// Write this cell value to the output, then go on.
    Print(u8),
    /// Read one byte of input and report it with the next event. The
    /// machine has not moved past the `,` yet.
    Read,
    /// The program counter is past the last operation: the run is over.
    Halt,
    /// The run cannot go on.
    Abort(Fault),
}

/// The state of a run.
pub struct State {
    /// The bytes of the program, commentary included.
    pub code: Seq<u8>,
    /// The tape.
    pub tape: TapeView,
    /// The index of the next byte of `code` to look at.
    pub pc: int,
}

/// A state together with the action of the transition that led to it.
pub struct Step {
    pub state: State,
    pub action: Action,
}

impl State {
    /// The state a run of `code` starts in.
    pub open spec fn initial(code: Seq<u8>) -> State {
        State { code, tape: TapeView::blank(), pc: 0 }
    }

    /// The program is balanced, the tape is a tape, and the program counter
    /// is not negative.
    pub open spec fn valid(self) -> bool {
        &&& balanced(self.code)
        &&& self.tape.valid()
        &&& 0 <= self.pc
    }
}

/// The index of the first operation at or after `pc`; the length of `code`
/// if only commentary is left, and `pc` itself if it is already past the
/// end.
pub open spec fn next_op(code: Seq<u8>, pc: int) -> int
    decreases code.len() - pc,
{
    if pc < 0 || pc >= code.len() {
        pc
    } else if decode(code[pc]).is_some() {
        pc
    } else {
        next_op(code, pc + 1)
    }
}

/// The first operation at or after `pc`, or `None` if only commentary is
/// left.
pub open spec fn fetch(code: Seq<u8>, pc: int) -> Option<Instruction> {
    let at = next_op(code, pc);
    if 0 <= at < code.len() {
        decode(code[at])
    } else {
        None
    }
}

/// One transition of the machine.
///
/// Commentary is skipped first. With nothing left the machine halts. A
/// move off the tape, or `,` with the input at its end, abandons the run
/// with the program counter on the failing operation. `,` without a byte
/// to store asks for one and waits on the `,`; the event is looked at for
/// this operation only. `[` on a zero cell continues after its `]`; `]`
/// goes back to its `[`, which tests the cell again.
pub open spec fn step_spec(s: State, event: Event) -> Step {
    let at = next_op(s.code, s.pc);
    let here = State { pc: at, ..s };
    let next = State { pc: at + 1, ..s };
    match fetch(s.code, s.pc) {
        None => Step { state: here, action: Action::Halt },
        Some(Instruction::Plus) => Step {
            state: State { tape: s.tape.store(incremented(s.tape.current())), ..next },
            action: Action::Continue,
        },
        Some(Instruction::Minus) => Step {
            state: State { tape: s.tape.store(decremented(s.tape.current())), ..next },
            action: Action::Continue,
        },
        Some(Instruction::RArrow) => if s.tape.cursor + 1 < TAPE_LEN {
            Step {
                state: State { tape: TapeView { cursor: s.tape.cursor + 1, ..s.tape }, ..next },
                action: Action::Continue,
            }
        } else {
            Step { state: here, action: Action::Abort(Fault::CursorOutOfBounds) }
        },
        Some(Instruction::LArrow) => if s.tape.cursor > 0 {
            Step {
                state: State { tape: TapeView { cursor: s.tape.cursor - 1, ..s.tape }, ..next },
                action: Action::Continue,
            }
        } else {
            Step { state: here, action: Action::Abort(Fault::CursorOutOfBounds) }
        },
        Some(Instruction::Dot) => Step { state: next, action: Action::Print(s.tape.current()) },
        Some(Instruction::Comma) => match event {
            Event::Resume => Step { state: here, action: Action::Read },
            Event::Byte(byte) => Step {
                state: State { tape: s.tape.store(byte), ..next },
                action: Action::Continue,
            },
            Event::EndOfInput => Step { state: here, action: Action::Abort(Fault::EndOfInput) },
        },
        Some(Instruction::LSquare) => Step {
            state: if s.tape.current() == 0 {
                State { pc: partner(s.code, at) + 1, ..s }
            } else {
                next
            },
            action: Action::Continue,
        },
        Some(Instruction::RSquare) => Step {
            state: State { pc: partner(s.code, at), ..s },
            action: Action::Continue,
        },
    }
}

/// Where scanning stops: not before `pc`, not past the end unless `pc`
/// already was, with only commentary skipped and on an operation unless
/// the text ran out.
pub proof fn lemma_next_op(code: Seq<u8>, pc: int)
    requires
        0 <= pc,
    ensures
        pc <= next_op(code, pc),
        pc <= code.len() ==> next_op(code, pc) <= code.len(),
        forall|k: int| pc <= k < next_op(code, pc) ==> decode(#[trigger] code[k]).is_none(),
        next_op(code, pc) < code.len() ==> decode(code[next_op(code, pc)]).is_some(),
        next_op(code, next_op(code, pc)) == next_op(code, pc),
    decreases code.len() - pc,
{
    if pc < code.len() && decode(code[pc]).is_none() {
        lemma_next_op(code, pc + 1);
    }
}

/// A transition never changes the program, leaves a valid state valid,
/// and keeps the program counter within the program if it was.
pub proof fn lemma_step_keeps_valid(s: State, event: Event)
    requires
        s.valid(),
    ensures
        step_spec(s, event).state.code == s.code,
        step_spec(s, event).state.valid(),
        s.pc <= s.code.len() ==> step_spec(s, event).state.pc <= s.code.len(),
{
    lemma_next_op(s.code, s.pc);
    let at = next_op(s.code, s.pc);
    if at < s.code.len() && is_bracket(s.code[at]) {
        lemma_partner(s.code, at);
    }
}

/// Halting is final: once a transition has halted, every further
/// transition halts too and changes nothing.
pub proof fn lemma_halt_is_final(s: State, event: Event, later: Event)
    requires
        0 <= s.pc,
        step_spec(s, event).action == Action::Halt,
    ensures
        step_spec(step_spec(s, event).state, later) == step_spec(s, event),
{
    lemma_next_op(s.code, s.pc);
}

} // verus!
