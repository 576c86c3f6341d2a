use ropey::Rope;
use veridian::hover::get_hover;
use veridian::position::Position;
use veridian::tokens::get_definition_token;

#[test]
fn test_definition_token() {
    let line = Rope::from_str("assign ab_c[2:0] = 3'b000;");
    let token = get_definition_token(line.line(0), Position::new(0, 10));
    assert_eq!(token, "ab_c".to_owned());
}

#[test]
fn test_hover() {
    let text = r#"
// module test
// test module
module test;
  /* a */
  logic a;
  /**
    * b
  */
  logic b;
  endmodule"#;
    let doc = Rope::from_str(text);
    assert_eq!(
        get_hover(&doc, 3),
        r#"// module test
// test module
module test;"#
            .to_owned()
    );
    assert_eq!(
        get_hover(&doc, 9),
        r#"/**
  * b
*/
logic b;"#
            .to_owned()
    );
}

#[test]
fn hover_of_first_line_is_the_line() {
    let doc = Rope::from_str("module m;\nendmodule\n");
    assert_eq!(get_hover(&doc, 0), "module m;\n".to_owned());
}

#[test]
fn hover_single_block_comment_and_indent() {
    let doc = Rope::from_str("\n  /* the count */\n  logic [3:0] count;\n");
    assert_eq!(get_hover(&doc, 2), "/* the count */\nlogic [3:0] count;".to_owned());
}

#[test]
fn hover_stops_at_code_line() {
    let doc = Rope::from_str("\nlogic x;\n// y\nlogic y;\n");
    assert_eq!(get_hover(&doc, 3), "// y\nlogic y;".to_owned());
}

#[test]
fn hover_indent_counts_bytes_and_keeps_other_lines() {
    // the indentation is taken as one space per byte: a tab is not stripped
    let doc = Rope::from_str("\n// c\n\tlogic z;\n");
    assert_eq!(get_hover(&doc, 2), "// c\n\tlogic z;".to_owned());
    let doc = Rope::from_str("\n  // c\n  logic z;\n");
    assert_eq!(get_hover(&doc, 2), "// c\nlogic z;".to_owned());
}

#[test]
fn definition_token_around_cursor_and_edges() {
    let line = Rope::from_str("  foo_bar1 + baz");
    assert_eq!(get_definition_token(line.line(0), Position::new(0, 2)), "foo_bar1");
    assert_eq!(get_definition_token(line.line(0), Position::new(0, 10)), "foo_bar1");
    assert_eq!(get_definition_token(line.line(0), Position::new(0, 11)), "");
    assert_eq!(get_definition_token(line.line(0), Position::new(0, 16)), "baz");
}
