use ropey::Rope;
use veridian::position::Position;
use veridian::tokens::{get_completion_token, prev_char};

#[test]
fn completion_token_before_the_cursor() {
    let text = Rope::from_str("module test;\n  a.b[3].c\nendmodule");
    let line = text.line(1);
    assert_eq!(get_completion_token(&text, line, Position::new(1, 10)), "a.b");
    assert_eq!(get_completion_token(&text, line, Position::new(1, 3)), "a");
    assert_eq!(get_completion_token(&text, line, Position::new(1, 0)), "");
}

#[test]
fn completion_token_of_a_lone_dot_is_the_instantiated_name() {
    let text = Rope::from_str("module m;\n  logic a;\n  adder u1 (\n    .");
    let line = text.line(3);
    assert_eq!(get_completion_token(&text, line, Position::new(3, 5)), "adder");
    let text = Rope::from_str(" .");
    assert_eq!(get_completion_token(&text, text.line(0), Position::new(0, 2)), "");
}

#[test]
fn previous_char_skips_whitespace() {
    let text = Rope::from_str("a.  \n  b");
    assert_eq!(prev_char(&text, &Position::new(1, 2)), '.');
    assert_eq!(prev_char(&text, &Position::new(0, 1)), 'a');
    assert_eq!(prev_char(&text, &Position::new(0, 0)), ' ');
    let blank = Rope::from_str("   ");
    assert_eq!(prev_char(&blank, &Position::new(0, 3)), ' ');
}
