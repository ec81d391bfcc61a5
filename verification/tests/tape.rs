use tape_machine::tape::{Tape, TAPE_LEN};

#[test]
fn new_tape_is_blank() {
    let tape = Tape::new();
    assert_eq!(tape.cursor(), 0);
    assert_eq!(tape.get(), 0);
    for index in 0..TAPE_LEN {
        assert_eq!(tape.cell(index), Some(0));
    }
    assert_eq!(tape.cell(TAPE_LEN), None);
}

#[test]
fn tape_has_thirty_thousand_cells() {
    assert_eq!(TAPE_LEN, 30000);
}

#[test]
fn increment_wraps_from_255_to_0() {
    let mut tape = Tape::new();
    tape.set(255);
    tape.increment();
    assert_eq!(tape.get(), 0);
}

#[test]
fn decrement_wraps_from_0_to_255() {
    let mut tape = Tape::new();
    tape.decrement();
    assert_eq!(tape.get(), 255);
}

#[test]
fn increment_and_decrement_change_the_current_cell_only() {
    let mut tape = Tape::new();
    tape.increment();
    tape.increment();
    assert!(tape.move_right());
    tape.decrement();
    assert_eq!(tape.cell(0), Some(2));
    assert_eq!(tape.cell(1), Some(255));
    assert_eq!(tape.cell(2), Some(0));
    assert_eq!(tape.cursor(), 1);
}

#[test]
fn move_left_is_refused_at_the_first_cell() {
    let mut tape = Tape::new();
    assert!(!tape.move_left());
    assert_eq!(tape.cursor(), 0);
}

#[test]
fn move_right_is_refused_at_the_last_cell() {
    let mut tape = Tape::new();
    for _ in 0..TAPE_LEN - 1 {
        assert!(tape.move_right());
    }
    assert_eq!(tape.cursor(), TAPE_LEN - 1);
    assert!(!tape.move_right());
    assert_eq!(tape.cursor(), TAPE_LEN - 1);
    tape.set(7);
    assert_eq!(tape.cell(TAPE_LEN - 1), Some(7));
    assert!(tape.move_left());
    assert_eq!(tape.cursor(), TAPE_LEN - 2);
}
