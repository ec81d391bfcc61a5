//! Code emission: the same program as Rust source text.
//!
//! The emitted program declares a tape and a cursor of its own and holds
//! one fragment per operation, in program order. A bracket pair becomes a
//! labelled `loop` that is left when the current cell is zero; the label
//! is made from the index of the pair's `]`, so that no two loops share
//! one.
//!
//! The emitted program keeps the cursor on the tape as direct execution
//! does: a move off either end stops it at the move. It differs from
//! direct execution in one place: the emitted `.` always writes the cell
//! as a character, where direct execution writes a cell that is not
//! printable ASCII as decimal digits.

use vstd::prelude::*;
use vstd::string::StringExecFns;

use crate::brackets::{balanced, lemma_partner, partner};
use crate::context::Context;
use crate::decimal::{
    append_decimal, ascii_text, decimal, lemma_ascii_text_injective, lemma_decimal_injective,
};
use crate::instruction::{decode, Instruction, LSQUARE};
use crate::machine::{lemma_next_op, next_op};
use crate::parser::Parser;

verus! {

/// What every emitted program starts with.
pub const PROLOGUE: &'static str =
    "use std::io::Write;\nfn main() {\n    let mut memory = [0u8; 30000];\n    let mut ptr = 0;\n";

/// What every emitted program ends with.
pub const EPILOGUE: &'static str = "}";

/// What stands before every loop label.
pub const LABEL_PREFIX: &'static str = "'L_";

/// The head of a loop, after its label.
pub const LOOP_HEAD: &'static str = ": loop {\n    if memory[ptr] == 0 {\n        break ";

/// The head of a loop, after the label of its `break`.
pub const LOOP_GUARD_END: &'static str = ";\n    }\n";

/// The fragment for `]`.
pub const LOOP_END: &'static str = "}\n";

/// The fragment for `>`.
pub const MOVE_RIGHT: &'static str =
    "ptr = if ptr + 1 < 30000 { ptr + 1 } else { panic!(\"cursor moved off the tape\") };\n";

/// The fragment for `<`.
pub const MOVE_LEFT: &'static str =
    "ptr = if ptr > 0 { ptr - 1 } else { panic!(\"cursor moved off the tape\") };\n";

/// The fragment for `.`.
pub const WRITE_CELL: &'static str =
    "{\n    let c = memory[ptr] as char;\n    std::io::stdout().lock().write_fmt(format_args!(\"{}\", c)).unwrap();\n}\n";

/// The fragment for `,`.
pub const READ_CELL: &'static str =
    "{\n    let mut buffer = [0u8; 1];\n    std::io::Read::read_exact(&mut std::io::stdin(), &mut buffer).unwrap();\n    memory[ptr] = buffer[0];\n}\n";

/// The fragment for `+`.
pub const INCREMENT: &'static str = "memory[ptr] = memory[ptr].wrapping_add(1);\n";

/// The fragment for `-`.
pub const DECREMENT: &'static str = "memory[ptr] = memory[ptr].wrapping_sub(1);\n";

/// The label of the loop whose `]` is at index `close`.
pub open spec fn loop_label(close: int) -> Seq<char> {
    LABEL_PREFIX@ + ascii_text(decimal(close as nat))
}

/// The text emitted for the operation `instruction`. For `[`, `close` is
/// the index of the `]` that ends the loop; no other operation looks at
/// it.
pub open spec fn fragment(instruction: Instruction, close: int) -> Seq<char> {
    match instruction {
        Instruction::LSquare => loop_label(close) + LOOP_HEAD@ + loop_label(close)
            + LOOP_GUARD_END@,
        Instruction::RSquare => LOOP_END@,
        Instruction::RArrow => MOVE_RIGHT@,
        Instruction::LArrow => MOVE_LEFT@,
        Instruction::Dot => WRITE_CELL@,
        Instruction::Comma => READ_CELL@,
        Instruction::Plus => INCREMENT@,
        Instruction::Minus => DECREMENT@,
    }
}

/// The fragments of the operations from index `pc` on, in order.
/// Commentary contributes nothing.
pub open spec fn body(code: Seq<u8>, pc: int) -> Seq<char>
    decreases code.len() - pc,
{
    if pc < 0 || pc >= code.len() {
        Seq::empty()
    } else {
        match decode(code[pc]) {
            Some(instruction) => fragment(instruction, partner(code, pc)) + body(code, pc + 1),
            None => body(code, pc + 1),
        }
    }
}

/// The whole emitted program for the operations of `code` from `pc` on.
pub open spec fn emitted(code: Seq<u8>, pc: int) -> Seq<char> {
    PROLOGUE@ + body(code, pc) + EPILOGUE@
}

/// No two loops of a balanced program share a label.
pub proof fn lemma_labels_distinct(code: Seq<u8>, first: int, second: int)
    requires
        balanced(code),
        0 <= first < code.len(),
        0 <= second < code.len(),
        code[first] == LSQUARE,
        code[second] == LSQUARE,
        first != second,
    ensures
        loop_label(partner(code, first)) != loop_label(partner(code, second)),
{
    let a = partner(code, first);
    let b = partner(code, second);
    lemma_partner(code, first);
    lemma_partner(code, second);
    if loop_label(a) == loop_label(b) {
        let prefix = LABEL_PREFIX@;
        let digits_a = ascii_text(decimal(a as nat));
        let digits_b = ascii_text(decimal(b as nat));
        assert(digits_a =~= (prefix + digits_a).subrange(
            prefix.len() as int,
            (prefix + digits_a).len() as int,
        ));
        assert(digits_b =~= (prefix + digits_b).subrange(
            prefix.len() as int,
            (prefix + digits_b).len() as int,
        ));
        lemma_ascii_text_injective(decimal(a as nat), decimal(b as nat));
        lemma_decimal_injective(a as nat, b as nat);
        assert(a == b);
        assert(partner(code, a) == first);
        assert(partner(code, b) == second);
    }
}

/// Skipping commentary does not change what is left to emit.
proof fn lemma_body_skips_commentary(code: Seq<u8>, pc: int)
    requires
        0 <= pc,
    ensures
        body(code, pc) == body(code, next_op(code, pc)),
    decreases code.len() - pc,
{
    if pc < code.len() && decode(code[pc]).is_none() {
        lemma_body_skips_commentary(code, pc + 1);
    }
}

/// Appends the label of the loop whose `]` is at `close`.
fn append_label(text: &mut String, close: usize)
    ensures
        final(text)@ == old(text)@ + loop_label(close as int),
{
    text.append(LABEL_PREFIX);
    append_decimal(text, close);
    assert(text@ =~= old(text)@ + loop_label(close as int));
}

/// Appends the fragment for `instruction`, which the program counter of
/// `context` is on.
fn append_fragment(text: &mut String, context: &Context, instruction: Instruction)
    requires
        context.wf(),
        context.program_counter < context@.code.len(),
        decode(context@.code[context@.pc]) == Some(instruction),
    ensures
        final(text)@ == old(text)@ + fragment(instruction, partner(context@.code, context@.pc)),
{
    match instruction {
        Instruction::LSquare => {
            match context.program.jump_target(context.program_counter) {
                Some(close) => {
                    append_label(text, close);
                    text.append(LOOP_HEAD);
                    append_label(text, close);
                    text.append(LOOP_GUARD_END);
                    assert(text@ =~= old(text)@ + fragment(instruction, close as int));
                },
                None => {
                    assert(false);
                },
            }
        },
        Instruction::RSquare => text.append(LOOP_END),
        Instruction::RArrow => text.append(MOVE_RIGHT),
        Instruction::LArrow => text.append(MOVE_LEFT),
        Instruction::Dot => text.append(WRITE_CELL),
        Instruction::Comma => text.append(READ_CELL),
        Instruction::Plus => text.append(INCREMENT),
        Instruction::Minus => text.append(DECREMENT),
    }
}

/// Emits the program of `context`, from its program counter on, as Rust
/// source text.
///
/// The operations are taken in the order the scanner yields them, one
/// fragment each, between a fixed prologue and epilogue. The program
/// counter ends at the end of the program; nothing else changes.
pub fn transpile(context: &mut Context) -> (text: String)
    requires
        old(context).wf(),
    ensures
        text@ == emitted(old(context)@.code, old(context)@.pc),
        final(context).wf(),
        final(context).program == old(context).program,
        final(context).tape == old(context).tape,
        final(context)@.pc == if old(context)@.pc <= old(context)@.code.len() {
            old(context)@.code.len() as int
        } else {
            old(context)@.pc
        },
{
    let mut parser = Parser::new();
    let mut text = String::new();
    text.append(PROLOGUE);
    assert(text@ =~= PROLOGUE@);
    loop
        invariant
            context.wf(),
            context.program == old(context).program,
            context.tape == old(context).tape,
            old(context).program_counter <= context.program_counter,
            old(context)@.pc <= context@.code.len() ==> context@.pc <= context@.code.len(),
            old(context)@.pc > context@.code.len() ==> context@.pc == old(context)@.pc,
            text@ + body(context@.code, context@.pc) == PROLOGUE@ + body(
                old(context)@.code,
                old(context)@.pc,
            ),
        decreases context@.code.len() - context@.pc,
    {
        let ghost from = context@.pc;
        let ghost so_far = text@;
        proof {
            lemma_next_op(context@.code, from);
            lemma_body_skips_commentary(context@.code, from);
        }
        match parser.read_next(context) {
            Some(instruction) => {
                append_fragment(&mut text, context, instruction);
                proof {
                    let at = context@.pc;
                    let piece = fragment(instruction, partner(context@.code, at));
                    assert(body(context@.code, at) == piece + body(context@.code, at + 1));
                    assert((so_far + piece) + body(context@.code, at + 1) =~= so_far + (piece
                        + body(context@.code, at + 1)));
                }
                context.program_counter += 1;
            },
            None => {
                text.append(EPILOGUE);
                proof {
                    assert(body(context@.code, context@.pc) =~= Seq::<char>::empty());
                    assert(text@ =~= emitted(old(context)@.code, old(context)@.pc));
                }
                return text;
            },
        }
    }
}

} // verus!
