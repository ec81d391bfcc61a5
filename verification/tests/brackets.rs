use tape_machine::brackets::{resolve, ProgramError};
use tape_machine::context::Context;
use tape_machine::program::Program;

#[test]
fn lone_closing_bracket_is_rejected() {
    assert_eq!(Context::new("]").err(), Some(ProgramError::UnmatchedClosing));
}

#[test]
fn lone_opening_bracket_is_rejected() {
    assert_eq!(Context::new("[").err(), Some(ProgramError::UnmatchedOpening));
}

#[test]
fn nested_but_unbalanced_is_rejected() {
    assert_eq!(Context::new("[[]").err(), Some(ProgramError::UnmatchedOpening));
}

#[test]
fn closing_before_opening_is_rejected_as_closing() {
    assert_eq!(Context::new("][").err(), Some(ProgramError::UnmatchedClosing));
    assert_eq!(Context::new("[]]").err(), Some(ProgramError::UnmatchedClosing));
    assert_eq!(Context::new("+]+[").err(), Some(ProgramError::UnmatchedClosing));
}

#[test]
fn rejection_ignores_commentary() {
    assert_eq!(Program::new("a [ b").err(), Some(ProgramError::UnmatchedOpening));
    assert_eq!(Program::new("a ] b").err(), Some(ProgramError::UnmatchedClosing));
}

#[test]
fn empty_source_is_a_program() {
    let program = Program::new("").expect("the empty program is balanced");
    assert_eq!(program.len(), 0);
    assert_eq!(program.byte(0), None);
    assert_eq!(program.jump_target(0), None);
}

#[test]
fn source_without_brackets_has_an_empty_table() {
    let table = resolve(&b"+-<>.,hello".to_vec()).expect("no brackets, nothing to match");
    assert!(table.is_empty());
}

#[test]
fn table_pairs_nested_brackets_both_ways() {
    let table = resolve(&b"[[]]".to_vec()).expect("balanced");
    assert_eq!(table.len(), 4);
    assert_eq!(table[&0], 3);
    assert_eq!(table[&3], 0);
    assert_eq!(table[&1], 2);
    assert_eq!(table[&2], 1);
}

#[test]
fn table_pairs_sibling_brackets() {
    let program = Program::new("[][]").expect("balanced");
    assert_eq!(program.jump_target(0), Some(1));
    assert_eq!(program.jump_target(1), Some(0));
    assert_eq!(program.jump_target(2), Some(3));
    assert_eq!(program.jump_target(3), Some(2));
}

#[test]
fn table_is_defined_on_brackets_only() {
    let program = Program::new("+[>+<-]x").expect("balanced");
    assert_eq!(program.len(), 8);
    assert_eq!(program.jump_target(1), Some(6));
    assert_eq!(program.jump_target(6), Some(1));
    for index in [0usize, 2, 3, 4, 5, 7, 8, 100] {
        assert_eq!(program.jump_target(index), None);
    }
}

#[test]
fn table_is_symmetric() {
    let source = "+[[-]>[>[+]<-]<]++[.]";
    let program = Program::new(source).expect("balanced");
    let bytes = source.as_bytes();
    for index in 0..bytes.len() {
        match program.jump_target(index) {
            Some(other) => {
                assert!(bytes[index] == b'[' || bytes[index] == b']');
                assert_ne!(bytes[index], bytes[other]);
                assert_eq!(program.jump_target(other), Some(index));
                if bytes[index] == b'[' {
                    assert!(index < other);
                }
            }
            None => assert!(bytes[index] != b'[' && bytes[index] != b']'),
        }
    }
}

#[test]
fn program_keeps_its_bytes() {
    let program = Program::from_bytes(vec![b'+', 0xff, b'-']).expect("balanced");
    assert_eq!(program.len(), 3);
    assert_eq!(program.byte(0), Some(b'+'));
    assert_eq!(program.byte(1), Some(0xff));
    assert_eq!(program.byte(2), Some(b'-'));
    assert_eq!(program.byte(3), None);
}

#[test]
fn source_text_is_taken_as_utf8_bytes() {
    let program = Program::new("é+").expect("balanced");
    assert_eq!(program.len(), 3);
    assert_eq!(program.byte(0), Some(0xc3));
    assert_eq!(program.byte(1), Some(0xa9));
    assert_eq!(program.byte(2), Some(b'+'));
}

#[test]
fn errors_have_diagnostics() {
    assert_eq!(ProgramError::UnmatchedClosing.message(), "unmatched closing square bracket");
    assert_eq!(ProgramError::UnmatchedOpening.message(), "Unmatched opening square bracket");
}
