use tape_machine::context::Context;
use tape_machine::interpreter::{interpret, render, step, Status};
use tape_machine::machine::{Action, Event, Fault};
use tape_machine::tape::TAPE_LEN;

fn run(source: &str, input: &[u8]) -> (Context, Status, usize, Vec<u8>) {
    let mut context = Context::new(source).expect("balanced");
    let run = interpret(&mut context, input, 10_000_000);
    (context, run.status, run.consumed, run.output)
}

#[test]
fn empty_program_does_nothing() {
    let (context, status, consumed, output) = run("", b"abc");
    assert_eq!(status, Status::Halted);
    assert_eq!(consumed, 0);
    assert!(output.is_empty());
    assert_eq!(context.program_counter, 0);
    assert_eq!(context.tape.cursor(), 0);
    assert_eq!(context.tape.get(), 0);
}

#[test]
fn multiplication_loop_leaves_nine_in_cell_one() {
    let (context, status, _, output) = run("+++[>+++<-]", b"");
    assert_eq!(status, Status::Halted);
    assert_eq!(context.tape.cell(0), Some(0));
    assert_eq!(context.tape.cell(1), Some(9));
    assert_eq!(context.tape.cell(2), Some(0));
    assert_eq!(context.tape.cursor(), 0);
    assert_eq!(context.program_counter, 11);
    assert!(output.is_empty());
}

#[test]
fn single_pass_loop_moves_one() {
    let (context, status, _, _) = run("+[>+<-]", b"");
    assert_eq!(status, Status::Halted);
    assert_eq!(context.tape.cell(0), Some(0));
    assert_eq!(context.tape.cell(1), Some(1));
}

#[test]
fn nine_pluses_and_a_dot_print_byte_nine_once() {
    let (context, status, _, output) = run("+++++++++.", b"");
    assert_eq!(status, Status::Halted);
    assert_eq!(output, b"9".to_vec());
    assert_eq!(context.tape.get(), 9);
}

#[test]
fn cell_arithmetic_wraps_in_programs() {
    let (context, _, _, _) = run("-", b"");
    assert_eq!(context.tape.get(), 255);
    let (context, _, _, _) = run("-+", b"");
    assert_eq!(context.tape.get(), 0);
    let source = "+".repeat(256);
    let (context, _, _, _) = run(&source, b"");
    assert_eq!(context.tape.get(), 0);
    let source = "+".repeat(255);
    let (context, _, _, _) = run(&source, b"");
    assert_eq!(context.tape.get(), 255);
}

#[test]
fn loop_on_zero_cell_is_skipped() {
    let (context, status, _, output) = run("[+.]>+", b"");
    assert_eq!(status, Status::Halted);
    assert!(output.is_empty());
    assert_eq!(context.tape.cell(0), Some(0));
    assert_eq!(context.tape.cell(1), Some(1));
}

#[test]
fn nested_loops_run() {
    let (context, status, _, _) = run("++[>++[>++<-]<-]", b"");
    assert_eq!(status, Status::Halted);
    assert_eq!(context.tape.cell(0), Some(0));
    assert_eq!(context.tape.cell(1), Some(0));
    assert_eq!(context.tape.cell(2), Some(8));
}

#[test]
fn hello_world() {
    let source = "++++++++[>++++[>++>+++>+++>+<<<<-]>+>+>->>+[<]<-]>>.>---.+++++++..+++.>>.<-.<.+++.------.--------.>>+.>++.";
    let (_, status, consumed, output) = run(source, b"");
    assert_eq!(status, Status::Halted);
    assert_eq!(consumed, 0);
    // the last cell printed holds 10, a line feed, which is not printable
    assert_eq!(output, b"Hello World!10".to_vec());
}

#[test]
fn input_is_copied_to_output() {
    let (context, status, consumed, output) = run(",.,.,.", b"abcd");
    assert_eq!(status, Status::Halted);
    assert_eq!(consumed, 3);
    assert_eq!(output, b"abc".to_vec());
    assert_eq!(context.tape.get(), b'c');
}

#[test]
fn end_of_input_aborts_at_the_comma() {
    let (context, status, consumed, output) = run("+.,.", b"");
    assert_eq!(status, Status::Aborted(Fault::EndOfInput));
    assert_eq!(consumed, 0);
    assert_eq!(output, b"1".to_vec());
    assert_eq!(context.program_counter, 2);
    assert_eq!(context.tape.get(), 1);
}

#[test]
fn end_of_input_after_some_input() {
    let (context, status, consumed, output) = run(",.,.", b"x");
    assert_eq!(status, Status::Aborted(Fault::EndOfInput));
    assert_eq!(consumed, 1);
    assert_eq!(output, b"x".to_vec());
    assert_eq!(context.program_counter, 2);
}

#[test]
fn moving_left_of_the_tape_aborts() {
    let (context, status, _, _) = run("+<+", b"");
    assert_eq!(status, Status::Aborted(Fault::CursorOutOfBounds));
    assert_eq!(context.program_counter, 1);
    assert_eq!(context.tape.cursor(), 0);
    assert_eq!(context.tape.get(), 1);
}

#[test]
fn moving_right_of_the_tape_aborts() {
    let source = ">".repeat(TAPE_LEN - 1);
    let (context, status, _, _) = run(&source, b"");
    assert_eq!(status, Status::Halted);
    assert_eq!(context.tape.cursor(), TAPE_LEN - 1);
    let source = ">".repeat(TAPE_LEN);
    let (context, status, _, _) = run(&source, b"");
    assert_eq!(status, Status::Aborted(Fault::CursorOutOfBounds));
    assert_eq!(context.tape.cursor(), TAPE_LEN - 1);
    assert_eq!(context.program_counter, TAPE_LEN - 1);
}

#[test]
fn endless_loop_is_suspended_at_the_limit() {
    let mut context = Context::new("+[]").expect("balanced");
    let run = interpret(&mut context, b"", 1001);
    assert_eq!(run.status, Status::Suspended);
    assert_eq!(run.consumed, 0);
    assert!(run.output.is_empty());
    assert_eq!(context.tape.get(), 1);
    assert_eq!(context.program_counter, 1);
}

#[test]
fn limit_counts_operations_not_bytes() {
    let mut context = Context::new("  +  +  +  ").expect("balanced");
    let run = interpret(&mut context, b"", 2);
    assert_eq!(run.status, Status::Suspended);
    assert_eq!(context.tape.get(), 2);
    assert_eq!(context.program_counter, 6);
    let run = interpret(&mut context, b"", 1);
    assert_eq!(run.status, Status::Suspended);
    assert_eq!(context.tape.get(), 3);
    let run = interpret(&mut context, b"", 1);
    assert_eq!(run.status, Status::Halted);
    assert_eq!(context.program_counter, 11);
}

#[test]
fn zero_limit_changes_nothing() {
    let mut context = Context::new("+").expect("balanced");
    let run = interpret(&mut context, b"", 0);
    assert_eq!(run.status, Status::Suspended);
    assert_eq!(context.program_counter, 0);
    assert_eq!(context.tape.get(), 0);
}

#[test]
fn suspended_run_can_be_taken_up_again() {
    let source = "+++[>+++<-]";
    let (whole, _, _, _) = run(source, b"");
    let mut context = Context::new(source).expect("balanced");
    let mut status = Status::Suspended;
    let mut rounds = 0;
    while status == Status::Suspended {
        status = interpret(&mut context, b"", 1).status;
        rounds += 1;
    }
    assert_eq!(status, Status::Halted);
    assert_eq!(context.tape.cell(0), whole.tape.cell(0));
    assert_eq!(context.tape.cell(1), whole.tape.cell(1));
    // 3 + 3 * (1 + 6 + 1) + 1 operations, and one more transition to halt
    assert_eq!(rounds, 3 + 3 * 8 + 1 + 1);
}

#[test]
fn output_outside_printable_ascii_is_written_in_decimal() {
    let source = format!("{}.", "+".repeat(200));
    let (_, _, _, output) = run(&source, b"");
    assert_eq!(output, b"200".to_vec());
    let (_, _, _, output) = run("-.", b"");
    assert_eq!(output, b"255".to_vec());
    let (_, _, _, output) = run(".", b"");
    assert_eq!(output, b"0".to_vec());
    let (_, _, _, output) = run(",.", b"\n");
    assert_eq!(output, b"10".to_vec());
    let (_, _, _, output) = run(",.", b"\x7f");
    assert_eq!(output, b"127".to_vec());
}

#[test]
fn printable_output_is_written_as_is() {
    let (_, _, _, output) = run(",.,.,.", b" A~");
    assert_eq!(output, b" A~".to_vec());
}

#[test]
fn render_writes_printable_ascii_as_is() {
    for value in 0x20..=0x7eu8 {
        let mut out = vec![b'>'];
        render(&mut out, value);
        assert_eq!(out, vec![b'>', value]);
    }
}

#[test]
fn render_writes_the_rest_in_decimal() {
    for value in (0..0x20u8).chain(0x7f..=0xff) {
        let mut out = vec![b'>'];
        render(&mut out, value);
        assert_eq!(out, format!(">{}", value).into_bytes());
    }
}

#[test]
fn step_performs_one_operation() {
    let mut context = Context::new("a+b>.").expect("balanced");
    assert_eq!(step(&mut context, Event::Resume), Action::Continue);
    assert_eq!(context.program_counter, 2);
    assert_eq!(context.tape.get(), 1);
    assert_eq!(step(&mut context, Event::Resume), Action::Continue);
    assert_eq!(context.program_counter, 4);
    assert_eq!(context.tape.cursor(), 1);
    assert_eq!(step(&mut context, Event::Resume), Action::Print(0));
    assert_eq!(context.program_counter, 5);
    assert_eq!(step(&mut context, Event::Resume), Action::Halt);
    assert_eq!(context.program_counter, 5);
    assert_eq!(step(&mut context, Event::Resume), Action::Halt);
}

#[test]
fn step_asks_for_input_and_waits_on_the_comma() {
    let mut context = Context::new(" ,+").expect("balanced");
    assert_eq!(step(&mut context, Event::Resume), Action::Read);
    assert_eq!(context.program_counter, 1);
    assert_eq!(step(&mut context, Event::Resume), Action::Read);
    assert_eq!(context.program_counter, 1);
    assert_eq!(step(&mut context, Event::Byte(b'q')), Action::Continue);
    assert_eq!(context.program_counter, 2);
    assert_eq!(context.tape.get(), b'q');
    assert_eq!(step(&mut context, Event::Resume), Action::Continue);
    assert_eq!(context.tape.get(), b'r');
}

#[test]
fn step_reports_end_of_input() {
    let mut context = Context::new(",").expect("balanced");
    assert_eq!(step(&mut context, Event::Resume), Action::Read);
    assert_eq!(step(&mut context, Event::EndOfInput), Action::Abort(Fault::EndOfInput));
    assert_eq!(context.program_counter, 0);
    assert_eq!(context.tape.get(), 0);
}

#[test]
fn step_ignores_events_that_no_comma_asked_for() {
    let mut context = Context::new("+").expect("balanced");
    assert_eq!(step(&mut context, Event::Byte(77)), Action::Continue);
    assert_eq!(context.tape.get(), 1);
    let mut context = Context::new("+").expect("balanced");
    assert_eq!(step(&mut context, Event::EndOfInput), Action::Continue);
    assert_eq!(context.tape.get(), 1);
}

#[test]
fn closing_bracket_goes_back_to_its_opener() {
    let mut context = Context::new("+[-]").expect("balanced");
    assert_eq!(step(&mut context, Event::Resume), Action::Continue);
    assert_eq!(step(&mut context, Event::Resume), Action::Continue);
    assert_eq!(context.program_counter, 2);
    assert_eq!(step(&mut context, Event::Resume), Action::Continue);
    assert_eq!(context.program_counter, 3);
    assert_eq!(step(&mut context, Event::Resume), Action::Continue);
    assert_eq!(context.program_counter, 1);
    assert_eq!(step(&mut context, Event::Resume), Action::Continue);
    assert_eq!(context.program_counter, 4);
    assert_eq!(step(&mut context, Event::Resume), Action::Halt);
}

#[test]
fn faults_have_diagnostics() {
    assert_eq!(Fault::CursorOutOfBounds.message(), "cursor moved off the tape");
    assert_eq!(Fault::EndOfInput.message(), "end of input while reading a byte");
}

#[test]
fn step_aborts_on_a_move_off_the_tape() {
    let mut context = Context::new("<").expect("balanced");
    assert_eq!(step(&mut context, Event::Resume), Action::Abort(Fault::CursorOutOfBounds));
    assert_eq!(context.program_counter, 0);
    assert_eq!(step(&mut context, Event::Resume), Action::Abort(Fault::CursorOutOfBounds));
}

#[test]
fn two_runs_from_fresh_state_agree() {
    let source = "++++[>++++[>+<-]<-]>>[<+>-]<-";
    let (first, status_a, _, _) = run(source, b"");
    let (second, status_b, _, _) = run(source, b"other input");
    assert_eq!(status_a, status_b);
    assert_eq!(first.tape.cursor(), second.tape.cursor());
    for index in 0..TAPE_LEN {
        assert_eq!(first.tape.cell(index), second.tape.cell(index));
    }
    assert_eq!(first.tape.cell(1), Some(15));
}

#[test]
fn commentary_changes_nothing() {
    let plain = ",[>+++<-]>.";
    let noisy = "read: , loop: [ > +\n+ + < - ] \t print: > . done";
    let (a, status_a, consumed_a, output_a) = run(plain, b"\x05");
    let (b, status_b, consumed_b, output_b) = run(noisy, b"\x05");
    assert_eq!(status_a, status_b);
    assert_eq!(consumed_a, consumed_b);
    assert_eq!(output_a, output_b);
    assert_eq!(output_a, b"15".to_vec());
    assert_eq!(a.tape.cursor(), b.tape.cursor());
    for index in 0..TAPE_LEN {
        assert_eq!(a.tape.cell(index), b.tape.cell(index));
    }
}

#[test]
fn one_inserted_byte_changes_nothing_at_any_place() {
    let plain = "++[>+[>+<-]<-]>>.";
    let (a, status_a, _, output_a) = run(plain, b"");
    for at in 0..=plain.len() {
        let mut noisy = String::from(&plain[..at]);
        noisy.push('#');
        noisy.push_str(&plain[at..]);
        let (b, status_b, _, output_b) = run(&noisy, b"");
        assert_eq!(status_a, status_b);
        assert_eq!(output_a, output_b);
        assert_eq!(a.tape.cursor(), b.tape.cursor());
        for index in 0..8 {
            assert_eq!(a.tape.cell(index), b.tape.cell(index));
        }
    }
}
