//! The scanner: finds the next operation in the program text.

use vstd::prelude::*;

use crate::context::Context;
use crate::instruction::{decode, Instruction};
use crate::machine::{fetch, next_op};

verus! {

/// The operations of `code` from index `pc` on, in source order: what a
/// caller collects who scans, notes the operation, steps past it, and
/// scans again until nothing is left.
pub open spec fn operations(code: Seq<u8>, pc: int) -> Seq<Instruction>
    decreases code.len() - pc,
{
    if pc < 0 || pc >= code.len() {
        Seq::empty()
    } else {
        match decode(code[pc]) {
            Some(instruction) => seq![instruction] + operations(code, pc + 1),
            None => operations(code, pc + 1),
        }
    }
}

/// One scan takes the first of the operations that are left, and the scan
/// from just after it finds the rest.
pub proof fn lemma_operations_by_scanning(code: Seq<u8>, pc: int)
    requires
        0 <= pc,
    ensures
        operations(code, pc) == match fetch(code, pc) {
            Some(instruction) => seq![instruction] + operations(code, next_op(code, pc) + 1),
            None => Seq::empty(),
        },
    decreases code.len() - pc,
{
    if pc < code.len() && decode(code[pc]).is_none() {
        lemma_operations_by_scanning(code, pc + 1);
    }
}

/// Scans a program for its operations, skipping every byte that is not one
/// of the eight symbols.
pub struct Parser {}

impl Parser {
    /// A scanner. It keeps no state of its own: the position is the
    /// program counter of the context it is applied to.
    pub fn new() -> (parser: Parser) {
        Parser {  }
    }

    /// Moves the program counter of `context` forward to the next operation
    /// and returns that operation; the counter is left on the operation,
    /// not after it. Returns `None` when only commentary is left, with the
    /// counter at the end of the program. Nothing but the program counter
    /// changes.
    pub fn read_next(&mut self, context: &mut Context) -> (instruction: Option<Instruction>)
        ensures
            instruction == fetch(old(context)@.code, old(context)@.pc),
            final(context).program_counter == next_op(old(context)@.code, old(context)@.pc),
            final(context).program == old(context).program,
            final(context).tape == old(context).tape,
    {
        loop
            invariant
                context.program == old(context).program,
                context.tape == old(context).tape,
                old(context).program_counter <= context.program_counter,
                next_op(context@.code, context@.pc) == next_op(old(context)@.code, old(context)@.pc),
            decreases context.program@.len() - context.program_counter,
        {
            match context.program.byte(context.program_counter) {
                Some(byte) => {
                    match Instruction::from_byte(byte) {
                        Some(instruction) => {
                            return Some(instruction);
                        },
                        None => {
                            context.program_counter += 1;
                        },
                    }
                },
                None => {
                    return None;
                },
            }
        }
    }
}

} // verus!
