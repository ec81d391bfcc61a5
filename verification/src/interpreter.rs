//! Direct execution: single transitions for a caller that does the input
//! and output itself, and whole runs over input and output held in memory.

use vstd::prelude::*;

use crate::context::Context;
use crate::decimal::{decimal, push_decimal};
use crate::instruction::{decode, Instruction, COMMA};
use crate::machine::{fetch, lemma_next_op, next_op, step_spec, Action, Event, Fault, State};
use crate::parser::Parser;

verus! {

/// How a run ended.
#[derive(Clone, Copy, Debug, PartialEq, Eq, Structural)]
pub enum Status {
    /// The program ran to its end.
    Halted,
    /// The run was abandoned.
    Aborted(Fault),
    /// The limit on the number of transitions was reached first; the run
    /// can be taken up again from the context.
    Suspended,
}

/// The result of a run over input held in memory.
pub struct Run {
    /// How the run ended.
    pub status: Status,
    /// How many bytes of the input the program read.
    pub consumed: usize,
    /// Everything the program wrote.
    pub output: Vec<u8>,
}

/// What a run amounts to: where it left the machine, how it ended, how
/// much input it read and what it wrote.
pub struct Trace {
    pub state: State,
    pub status: Status,
    pub consumed: int,
    pub output: Seq<u8>,
}

/// The bytes written for a cell value: the byte itself if it is a
/// printable ASCII character, space to tilde, else its value in decimal
/// digits.
pub open spec fn rendered(value: u8) -> Seq<u8> {
    if 0x20 <= value <= 0x7e {
        seq![value]
    } else {
        decimal(value as nat)
    }
}

/// The next operation of `s` is `,`.
pub open spec fn awaits_input(s: State) -> bool {
    fetch(s.code, s.pc) == Some(Instruction::Comma)
}

/// What a read finds after `consumed` bytes of `input` have been used.
pub open spec fn supply(input: Seq<u8>, consumed: int) -> Event {
    if 0 <= consumed < input.len() {
        Event::Byte(input[consumed])
    } else {
        Event::EndOfInput
    }
}

/// A run of at most `fuel` transitions from `s`, continuing a run that has
/// already read `consumed` bytes of `input` and written `output`.
///
/// Each transition is told beforehand what a read would find: the next
/// unread byte of `input`, or its end. Only `,` looks at that, so no
/// transition here asks to read. A transition that prints adds the
/// rendered cell to the output, one that stores a byte uses it up. The run
/// ends when the machine halts or aborts, and is suspended when the fuel
/// runs out.
pub open spec fn run_spec(
    s: State,
    input: Seq<u8>,
    consumed: int,
    output: Seq<u8>,
    fuel: nat,
) -> Trace
    decreases fuel,
{
    if fuel == 0 {
        Trace { state: s, status: Status::Suspended, consumed, output }
    } else {
        let step = step_spec(s, supply(input, consumed));
        match step.action {
            Action::Halt => Trace { state: step.state, status: Status::Halted, consumed, output },
            Action::Abort(fault) => Trace {
                state: step.state,
                status: Status::Aborted(fault),
                consumed,
                output,
            },
            Action::Print(value) => run_spec(
                step.state,
                input,
                consumed,
                output + rendered(value),
                (fuel - 1) as nat,
            ),
            _ => run_spec(
                step.state,
                input,
                if awaits_input(s) {
                    consumed + 1
                } else {
                    consumed
                },
                output,
                (fuel - 1) as nat,
            ),
        }
    }
}

/// Appends to `out` what is written for the cell value `value`.
pub fn render(out: &mut Vec<u8>, value: u8)
    ensures
        final(out)@ == old(out)@ + rendered(value),
{
    if 0x20 <= value && value <= 0x7e {
        out.push(value);
    } else {
        push_decimal(out, value as usize);
    }
}

/// Performs `instruction`, which the program counter is on.
fn execute(context: &mut Context, instruction: Instruction, event: Event) -> (action: Action)
    requires
        old(context).wf(),
        old(context).program_counter < old(context)@.code.len(),
        decode(old(context)@.code[old(context)@.pc]) == Some(instruction),
    ensures
        final(context).wf(),
        final(context).program == old(context).program,
        final(context)@ == step_spec(old(context)@, event).state,
        action == step_spec(old(context)@, event).action,
{
    let at = context.program_counter;
    match instruction {
        Instruction::Plus => {
            context.tape.increment();
            context.program_counter = at + 1;
            Action::Continue
        },
        Instruction::Minus => {
            context.tape.decrement();
            context.program_counter = at + 1;
            Action::Continue
        },
        Instruction::RArrow => {
            if context.tape.move_right() {
                context.program_counter = at + 1;
                Action::Continue
            } else {
                Action::Abort(Fault::CursorOutOfBounds)
            }
        },
        Instruction::LArrow => {
            if context.tape.move_left() {
                context.program_counter = at + 1;
                Action::Continue
            } else {
                Action::Abort(Fault::CursorOutOfBounds)
            }
        },
        Instruction::Dot => {
            let value = context.tape.get();
            context.program_counter = at + 1;
            Action::Print(value)
        },
        Instruction::Comma => {
            match event {
                Event::Resume => Action::Read,
                Event::Byte(byte) => {
                    context.tape.set(byte);
                    context.program_counter = at + 1;
                    Action::Continue
                },
                Event::EndOfInput => Action::Abort(Fault::EndOfInput),
            }
        },
        Instruction::LSquare => {
            if context.tape.get() == 0 {
                match context.program.jump_target(at) {
                    Some(close) => {
                        context.program_counter = close + 1;
                    },
                    None => {
                        assert(false);
                    },
                }
            } else {
                context.program_counter = at + 1;
            }
            Action::Continue
        },
        Instruction::RSquare => {
            match context.program.jump_target(at) {
                Some(open) => {
                    context.program_counter = open;
                },
                None => {
                    assert(false);
                },
            }
            Action::Continue
        },
    }
}

/// One transition: skips commentary, performs the next operation and says
/// what the caller has to do.
///
/// `Action::Read` asks for a byte of input; the caller answers with
/// `Event::Byte` or `Event::EndOfInput` in the next call. Any other call
/// passes `Event::Resume`. After `Action::Abort` the program counter is on
/// the operation that failed; after `Action::Halt` it is at the end of the
/// program, and further calls halt again.
pub fn step(context: &mut Context, event: Event) -> (action: Action)
    requires
        old(context).wf(),
    ensures
        final(context).wf(),
        final(context).program == old(context).program,
        final(context)@ == step_spec(old(context)@, event).state,
        action == step_spec(old(context)@, event).action,
{
    let mut parser = Parser::new();
    proof {
        lemma_next_op(context@.code, context@.pc);
    }
    match parser.read_next(context) {
        Some(instruction) => execute(context, instruction, event),
        None => Action::Halt,
    }
}

/// Skipping commentary does not change what the next transition does.
pub proof fn lemma_step_from_operation(s: State, event: Event)
    requires
        0 <= s.pc,
    ensures
        step_spec(State { pc: next_op(s.code, s.pc), ..s }, event) == step_spec(s, event),
{
    lemma_next_op(s.code, s.pc);
}

/// A program that holds no `,` never looks at its input: whatever the
/// input is and however much of it has been used, a run of the same length
/// from the same state leaves the same state and the same output, and ends
/// the same way. In particular two runs of such a program from the fresh
/// state leave the same tape.
pub proof fn lemma_run_ignores_input(
    s: State,
    input_a: Seq<u8>,
    consumed_a: int,
    input_b: Seq<u8>,
    consumed_b: int,
    output: Seq<u8>,
    fuel: nat,
)
    requires
        forall|i: int| 0 <= i < s.code.len() ==> #[trigger] s.code[i] != COMMA,
    ensures
        ({
            let a = run_spec(s, input_a, consumed_a, output, fuel);
            let b = run_spec(s, input_b, consumed_b, output, fuel);
            &&& a.state == b.state
            &&& a.status == b.status
            &&& a.output == b.output
            &&& a.consumed == consumed_a
            &&& b.consumed == consumed_b
        }),
    decreases fuel,
{
    if fuel > 0 {
        let at = next_op(s.code, s.pc);
        if 0 <= at < s.code.len() {
            assert(s.code[at] != COMMA);
        }
        assert(!awaits_input(s));
        let step = step_spec(s, supply(input_a, consumed_a));
        assert(step == step_spec(s, supply(input_b, consumed_b)));
        let rest = (fuel - 1) as nat;
        match step.action {
            Action::Halt => {},
            Action::Abort(_) => {},
            Action::Print(value) => {
                lemma_run_ignores_input(
                    step.state,
                    input_a,
                    consumed_a,
                    input_b,
                    consumed_b,
                    output + rendered(value),
                    rest,
                );
            },
            _ => {
                lemma_run_ignores_input(
                    step.state,
                    input_a,
                    consumed_a,
                    input_b,
                    consumed_b,
                    output,
                    rest,
                );
            },
        }
    }
}

/// A suspended run can be taken up again: running for `first` transitions
/// and then, if the run was suspended, for `second` more from where it
/// stopped, is the same as running for `first + second` at once.
pub proof fn lemma_run_resumes(
    s: State,
    input: Seq<u8>,
    consumed: int,
    output: Seq<u8>,
    first: nat,
    second: nat,
)
    ensures
        ({
            let part = run_spec(s, input, consumed, output, first);
            run_spec(s, input, consumed, output, first + second) == if part.status
                == Status::Suspended {
                run_spec(part.state, input, part.consumed, part.output, second)
            } else {
                part
            }
        }),
    decreases first,
{
    if first == 0 {
        assert(run_spec(s, input, consumed, output, 0).status == Status::Suspended);
    } else {
        let step = step_spec(s, supply(input, consumed));
        let rest = (first - 1) as nat;
        assert((first + second - 1) as nat == rest + second);
        match step.action {
            Action::Halt => {},
            Action::Abort(_) => {},
            Action::Print(value) => {
                lemma_run_resumes(
                    step.state,
                    input,
                    consumed,
                    output + rendered(value),
                    rest,
                    second,
                );
            },
            _ => {
                let used = if awaits_input(s) {
                    consumed + 1
                } else {
                    consumed
                };
                lemma_run_resumes(step.state, input, used, output, rest, second);
            },
        }
    }
}

/// What a run has read and written before does not bear on how it goes
/// on: a run that continues after `consumed` bytes of input and with
/// `output` already written is the run from scratch over the rest of the
/// input, with its reads counted from `consumed` and its output added to
/// `output`.
pub proof fn lemma_run_continues(
    s: State,
    input: Seq<u8>,
    consumed: int,
    output: Seq<u8>,
    fuel: nat,
)
    requires
        0 <= consumed <= input.len(),
    ensures
        ({
            let fresh = run_spec(s, input.skip(consumed), 0, Seq::empty(), fuel);
            let going = run_spec(s, input, consumed, output, fuel);
            &&& going.state == fresh.state
            &&& going.status == fresh.status
            &&& going.consumed == consumed + fresh.consumed
            &&& going.output == output + fresh.output
            &&& 0 <= fresh.consumed <= input.len() - consumed
        }),
    decreases fuel,
{
    let left = input.skip(consumed);
    if fuel == 0 {
        assert(output + Seq::<u8>::empty() =~= output);
    } else {
        assert(supply(left, 0) == supply(input, consumed));
        let step = step_spec(s, supply(input, consumed));
        let rest = (fuel - 1) as nat;
        match step.action {
            Action::Halt => {
                assert(output + Seq::<u8>::empty() =~= output);
            },
            Action::Abort(_) => {
                assert(output + Seq::<u8>::empty() =~= output);
            },
            Action::Print(value) => {
                let piece = rendered(value);
                lemma_run_continues(step.state, input, consumed, output + piece, rest);
                lemma_run_continues(step.state, left, 0, Seq::empty() + piece, rest);
                assert(left.skip(0) =~= left);
                let tail = run_spec(step.state, left, 0, Seq::empty(), rest).output;
                assert((output + piece) + tail =~= output + ((Seq::empty() + piece) + tail));
            },
            _ => {
                if awaits_input(s) && consumed < input.len() {
                    lemma_run_continues(step.state, input, consumed + 1, output, rest);
                    lemma_run_continues(step.state, left, 1, Seq::empty(), rest);
                    assert(left.skip(1) =~= input.skip(consumed + 1));
                    let tail = run_spec(step.state, left.skip(1), 0, Seq::empty(), rest).output;
                    assert(Seq::<u8>::empty() + tail =~= tail);
                } else {
                    assert(!awaits_input(s));
                    lemma_run_continues(step.state, input, consumed, output, rest);
                }
            },
        }
    }
}

/// Runs the program of `context` from where it stands, for at most `limit`
/// transitions, reading from `input` and collecting what is written.
///
/// The run follows the same exchange as a caller of `step` that does real
/// input and output: each transition is asked for without an event, and
/// only when it answers `Action::Read` is the next unread byte of `input`
/// handed over, or the end of the input reported.
pub fn interpret(context: &mut Context, input: &[u8], limit: u64) -> (run: Run)
    requires
        old(context).wf(),
    ensures
        final(context).wf(),
        final(context).program == old(context).program,
        ({
            let trace = run_spec(old(context)@, input@, 0, Seq::empty(), limit as nat);
            &&& final(context)@ == trace.state
            &&& run.status == trace.status
            &&& run.consumed == trace.consumed
            &&& run.output@ == trace.output
        }),
{
    let mut consumed: usize = 0;
    let mut output: Vec<u8> = Vec::new();
    let mut remaining = limit;
    while remaining > 0
        invariant
            context.wf(),
            context.program == old(context).program,
            consumed <= input@.len(),
            run_spec(context@, input@, consumed as int, output@, remaining as nat) == run_spec(
                old(context)@,
                input@,
                0,
                Seq::empty(),
                limit as nat,
            ),
        decreases remaining,
    {
        let ghost before = context@;
        let mut action = step(context, Event::Resume);
        let mut read = false;
        if action == Action::Read {
            proof {
                lemma_step_from_operation(before, supply(input@, consumed as int));
            }
            if consumed < input.len() {
                action = step(context, Event::Byte(input[consumed]));
                read = true;
            } else {
                action = step(context, Event::EndOfInput);
            }
        }
        match action {
            Action::Halt => {
                return Run { status: Status::Halted, consumed, output };
            },
            Action::Abort(fault) => {
                return Run { status: Status::Aborted(fault), consumed, output };
            },
            Action::Print(value) => {
                render(&mut output, value);
            },
            _ => {
                if read {
                    consumed += 1;
                }
            },
        }
        remaining -= 1;
    }
    Run { status: Status::Suspended, consumed, output }
}

} // verus!
