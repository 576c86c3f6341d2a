use ropey::Rope;
use veridian::edits::apply_changes;
use veridian::position::{ContentChange, LSPSupport, Position, Range};
use veridian::symbol::ByteRange;

#[test]
fn positions_and_offsets_of_ascii_text() {
    let text = Rope::from_str("module test;\n  logic abc;\nendmodule");
    assert_eq!(text.pos_to_char(&Position::new(1, 8)), 21);
    assert_eq!(text.pos_to_byte(&Position::new(1, 8)), 21);
    assert_eq!(text.char_to_pos(21), Position::new(1, 8));
    assert_eq!(text.byte_to_pos(21), Position::new(1, 8));
    assert_eq!(text.char_to_pos(0), Position::new(0, 0));
}

#[test]
fn positions_count_utf16_units_and_bytes() {
    // 'é' is one UTF-16 unit and two bytes; '𝄞' is two UTF-16 units and four bytes
    let text = Rope::from_str("é𝄞x\ny");
    assert_eq!(text.pos_to_char(&Position::new(0, 3)), 2);
    assert_eq!(text.pos_to_byte(&Position::new(0, 3)), 6);
    assert_eq!(text.byte_to_pos(6), Position::new(0, 3));
    assert_eq!(text.char_to_pos(4), Position::new(1, 0));
    assert_eq!(text.pos_to_byte(&Position::new(1, 1)), 9);
}

#[test]
fn byte_to_pos_clamps_to_the_last_byte() {
    let text = Rope::from_str("ab\ncd");
    assert_eq!(text.byte_to_pos(100), Position::new(1, 1));
}

#[test]
fn ranges_convert_both_ways() {
    let text = Rope::from_str("module test;\n  logic abc;\nendmodule");
    let r = Range::new(Position::new(1, 8), Position::new(1, 11));
    let br = text.range_to_byte_range(r);
    assert_eq!(br, ByteRange { start: 21, end: 24 });
    assert_eq!(text.byte_range_to_range(br), r);
    let cr = text.range_to_char_range(&r);
    assert_eq!(cr, 21..24);
    assert_eq!(text.char_range_to_range(cr), r);
}

#[test]
fn crlf_counts_as_one_line_break() {
    let text = Rope::from_str("ab\r\ncd");
    assert_eq!(text.pos_to_char(&Position::new(1, 0)), 4);
    assert_eq!(text.char_to_pos(3), Position::new(0, 3));
}

#[test]
fn test_open_and_change() {
    let text = "module test;\n  logic abc;\nendmodule";
    let mut text = Rope::from_str(text);
    assert_eq!(text.to_string(), "module test;\n  logic abc;\nendmodule".to_owned());
    let changes = vec![ContentChange {
        range: Some(Range::new(Position::new(1, 8), Position::new(1, 11))),
        range_length: None,
        text: "var1".to_owned(),
    }];
    let edits = apply_changes(&mut text, &changes);
    assert_eq!(text.to_string(), "module test;\n  logic var1;\nendmodule");
    assert_eq!(edits.len(), 1);
    let e = edits[0];
    assert_eq!((e.start_byte, e.old_end_byte, e.new_end_byte), (21, 24, 25));
    assert_eq!((e.start_position.row, e.start_position.column), (1, 8));
    assert_eq!((e.old_end_position.row, e.old_end_position.column), (1, 11));
    assert_eq!((e.new_end_position.row, e.new_end_position.column), (1, 12));
}

#[test]
fn change_without_range_replaces_everything() {
    let mut text = Rope::from_str("module a;\nendmodule");
    let changes = vec![
        ContentChange { range: None, range_length: None, text: "x\ny".to_owned() },
        ContentChange {
            range: Some(Range::new(Position::new(1, 0), Position::new(1, 1))),
            range_length: None,
            text: String::new(),
        },
    ];
    let edits = apply_changes(&mut text, &changes);
    assert_eq!(text.to_string(), "x\n");
    assert_eq!(edits.len(), 1);
    assert_eq!((edits[0].start_byte, edits[0].old_end_byte, edits[0].new_end_byte), (2, 3, 2));
    assert_eq!((edits[0].new_end_position.row, edits[0].new_end_position.column), (0, 1));
}

#[test]
fn apply_change_inserts_multibyte_text() {
    let mut text = Rope::from_str("ab");
    text.apply_change(&ContentChange {
        range: Some(Range::new(Position::new(0, 1), Position::new(0, 1))),
        range_length: None,
        text: "é".to_owned(),
    });
    assert_eq!(text.to_string(), "aéb");
    let changes = vec![ContentChange {
        range: Some(Range::new(Position::new(0, 2), Position::new(0, 2))),
        range_length: None,
        text: "𝄞".to_owned(),
    }];
    let edits = apply_changes(&mut text, &changes);
    assert_eq!(text.to_string(), "aé𝄞b");
    assert_eq!((edits[0].start_byte, edits[0].new_end_byte), (3, 7));
    assert_eq!((edits[0].new_end_position.row, edits[0].new_end_position.column), (0, 4));
}

#[test]
fn position_bounds_and_change_checks() {
    let text = Rope::from_str("ab\ncd");
    assert!(veridian::position::pos_in_bounds(&text, Position::new(1, 2)));
    assert!(!veridian::position::pos_in_bounds(&text, Position::new(1, 3)));
    assert!(!veridian::position::pos_in_bounds(&text, Position::new(2, 0)));
    let c = |s: (u32, u32), e: (u32, u32), t: &str| ContentChange {
        range: Some(Range::new(Position::new(s.0, s.1), Position::new(e.0, e.1))),
        range_length: None,
        text: t.to_owned(),
    };
    assert!(veridian::edits::change_fits(&text, &c((0, 0), (1, 1), "")));
    assert!(!veridian::edits::change_fits(&text, &c((0, 0), (1, 2), "")));
    assert!(veridian::edits::change_fits(&text, &c((0, 0), (1, 2), "x")));
    assert!(!veridian::edits::change_fits(&text, &c((1, 1), (0, 1), "")));
    assert!(!veridian::edits::change_fits(&text, &c((0, 0), (3, 0), "x")));
    let mut t = text.clone();
    assert!(veridian::edits::try_apply_changes(&mut t, &vec![c((0, 0), (1, 2), "")]).is_none());
    assert_eq!(t.to_string(), "ab\ncd");
}

#[test]
fn positions_convert_to_bytes_and_back() {
    let text = Rope::from_str("a\u{e9}\u{1F600}b\r\nxy\n");
    for pos in [
        Position::new(0, 0),
        Position::new(0, 1),
        Position::new(0, 2),
        Position::new(0, 4),
        Position::new(0, 5),
        Position::new(1, 0),
        Position::new(1, 1),
        Position::new(1, 2),
    ] {
        assert_eq!(text.byte_to_pos(text.pos_to_byte(&pos)), pos);
    }
    assert_eq!(text.pos_to_byte(&Position::new(0, 4)), 7);
}
