//! The state of one run as the engine holds it.

use vstd::prelude::*;
use vstd::string::StringSliceAdditionalSpecFns;

use crate::brackets::{closes_unopened, leaves_open, ProgramError};
use crate::machine::State;
use crate::program::Program;
use crate::tape::Tape;

verus! {

/// A program, the tape it works on, and how far it has come. One run owns
/// one context.
pub struct Context {
    /// The program being run.
    pub program: Program,
    /// The memory of the run.
    pub tape: Tape,
    /// The index of the next byte of the program to look at.
    pub program_counter: usize,
}

impl View for Context {
    type V = State;

    open spec fn view(&self) -> State {
        State { code: self.program@, tape: self.tape@, pc: self.program_counter as int }
    }
}

impl Context {
    /// The program's brackets are resolved and the cursor is on the tape.
    pub open spec fn wf(&self) -> bool {
        &&& self.program.wf()
        &&& self.tape.wf()
    }

    /// Prepares a run of `code`: resolves its brackets and starts with a
    /// blank tape at the first byte. Fails, before anything can run, exactly
    /// when the brackets do not nest properly.
    pub fn new(code: &str) -> (result: Result<Context, ProgramError>)
        ensures
            match result {
                Ok(context) => context.wf() && context@ == State::initial(code.spec_bytes()),
                Err(ProgramError::UnmatchedClosing) => closes_unopened(code.spec_bytes()),
                Err(ProgramError::UnmatchedOpening) => leaves_open(code.spec_bytes()),
            },
    {
        match Program::new(code) {
            Ok(program) => Ok(Context { program, tape: Tape::new(), program_counter: 0 }),
            Err(error) => Err(error),
        }
    }
}

} // verus!
