//! A program: its bytes as written, and the jump table that pairs its
//! brackets. Built once from source text and never changed afterwards.

use std::collections::HashMap;
use vstd::prelude::*;
use vstd::string::StrSliceExecFns;
use vstd::string::StringSliceAdditionalSpecFns;

use crate::brackets::{
    balanced, closes_unopened, is_jump_table, leaves_open, lemma_jump_table, partner, resolve,
    ProgramError,
};
use crate::instruction::is_bracket;

verus! {

/// The instruction bytes of a program together with its jump table.
pub struct Program {
    instructions: Vec<u8>,
    jump_table: HashMap<usize, usize>,
}

impl View for Program {
    type V = Seq<u8>;

    /// The bytes of the program, commentary included.
    closed spec fn view(&self) -> Seq<u8> {
        self.instructions@
    }
}

impl Program {
    /// The jump table as a map from bracket index to bracket index.
    pub closed spec fn jumps(&self) -> Map<usize, usize> {
        self.jump_table@
    }

    /// The brackets are balanced and the jump table pairs them.
    pub open spec fn wf(&self) -> bool {
        &&& balanced(self@)
        &&& is_jump_table(self@, self.jumps())
    }

    /// Builds a program from its bytes. Fails exactly when the brackets do
    /// not nest properly, and says which way they fail.
    pub fn from_bytes(instructions: Vec<u8>) -> (result: Result<Program, ProgramError>)
        ensures
            match result {
                Ok(program) => program.wf() && program@ == instructions@,
                Err(ProgramError::UnmatchedClosing) => closes_unopened(instructions@),
                Err(ProgramError::UnmatchedOpening) => leaves_open(instructions@),
            },
    {
        match resolve(&instructions) {
            Ok(jump_table) => Ok(Program { instructions, jump_table }),
            Err(error) => Err(error),
        }
    }

    /// Builds a program from source text, taken as its UTF-8 bytes.
    pub fn new(code: &str) -> (result: Result<Program, ProgramError>)
        ensures
            match result {
                Ok(program) => program.wf() && program@ == code.spec_bytes(),
                Err(ProgramError::UnmatchedClosing) => closes_unopened(code.spec_bytes()),
                Err(ProgramError::UnmatchedOpening) => leaves_open(code.spec_bytes()),
            },
    {
        Program::from_bytes(code.as_bytes_vec())
    }

    /// The number of bytes in the program.
    pub fn len(&self) -> (len: usize)
        ensures
            len == self@.len(),
    {
        self.instructions.len()
    }

    /// The byte at `index`, or `None` past the end of the program.
    pub fn byte(&self, index: usize) -> (byte: Option<u8>)
        ensures
            byte == if index < self@.len() {
                Some(self@[index as int])
            } else {
                None
            },
            self@.len() <= usize::MAX,
    {
        if index < self.instructions.len() {
            Some(self.instructions[index])
        } else {
            None
        }
    }

    /// Where the bracket at `index` jumps to: the index of its partner.
    /// `None` if `index` does not hold a bracket.
    pub fn jump_target(&self, index: usize) -> (target: Option<usize>)
        requires
            self.wf(),
        ensures
            target.is_some() <==> (index < self@.len() && is_bracket(self@[index as int])),
            target matches Some(other) ==> {
                &&& other == partner(self@, index as int)
                &&& other < self@.len()
                &&& is_bracket(self@[other as int])
            },
    {
        match self.jump_table.get(&index) {
            Some(other) => {
                proof {
                    lemma_jump_table(self@, self.jumps(), index);
                    assert(self.jumps().dom().contains(*other));
                    assert(is_bracket(self@[*other as int]));
                }
                Some(*other)
            },
            None => None,
        }
    }
}

} // verus!
