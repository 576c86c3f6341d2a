use veridian::diagnostics::{
    parse_report, parse_u32, report_fits, slang_severity, split_colons, split_lines,
    try_parse_report, verible_diagnostic, verible_syntax_report, Diagnostic, DiagnosticSeverity,
};
use veridian::position::{Position, Range};

fn at(line: u32, start: u32, end: u32) -> Range {
    Range::new(Position::new(line, start), Position::new(line, end))
}

fn check(d: &Diagnostic, range: Range, message: &str) {
    assert_eq!(d.range, range);
    assert_eq!(d.severity, Some(DiagnosticSeverity::Error));
    assert_eq!(d.source, "verible");
    assert_eq!(d.message, message);
}

#[test]
fn verible_error_lines_become_diagnostics() {
    let out = "-:5:3: syntax error, rejected \"a\" (syntax-error).\n-:2:1-4: bad thing here\n";
    let diags = verible_syntax_report(false, out).expect("diagnostics");
    assert_eq!(diags.len(), 2);
    check(&diags[0], at(4, 2, 2), "syntax error, rejected \"a\"");
    check(&diags[1], at(1, 0, 3), "bad thing");
}

#[test]
fn verible_success_gives_nothing() {
    assert!(verible_syntax_report(true, "-:5:3: syntax error here\n").is_none());
}

#[test]
fn verible_output_without_errors_gives_no_diagnostics() {
    assert_eq!(verible_syntax_report(false, "").map(|d| d.len()), Some(0));
}

#[test]
fn verible_output_with_an_unreadable_line_gives_none() {
    assert!(verible_syntax_report(false, "-:5:3: syntax error here\ngarbage\n").is_none());
    assert!(verible_syntax_report(false, "-:99999999999:3: too far out\n").is_none());
}

#[test]
fn verible_lines_may_end_in_crlf_or_nothing() {
    let diags = verible_syntax_report(false, "-:1:2: first one\r\n-:3:4: second one").expect("diagnostics");
    assert_eq!(diags.len(), 2);
    check(&diags[0], at(0, 1, 1), "first");
    check(&diags[1], at(2, 3, 3), "second");
}

#[test]
fn verible_zero_line_wraps_around() {
    let groups = Some(vec![
        Some("-:0:0: m x".to_owned()),
        Some("0".to_owned()),
        Some("0".to_owned()),
        None,
        Some("m".to_owned()),
    ]);
    let d = verible_diagnostic(&groups).expect("diagnostic");
    check(&d, at(u32::MAX, u32::MAX, u32::MAX), "m");
    assert!(verible_diagnostic(&None).is_none());
    let missing = Some(vec![Some("x".to_owned()), Some("1".to_owned()), None, None, Some("m".to_owned())]);
    assert!(verible_diagnostic(&missing).is_none());
    let bad_end = Some(vec![
        Some("x".to_owned()),
        Some("1".to_owned()),
        Some("2".to_owned()),
        Some("".to_owned()),
        Some("m".to_owned()),
    ]);
    assert!(verible_diagnostic(&bad_end).is_none());
}

#[test]
fn u32_parsing_follows_decimal_rules() {
    assert_eq!(parse_u32("42"), Some(42));
    assert_eq!(parse_u32("+7"), Some(7));
    assert_eq!(parse_u32("007"), Some(7));
    assert_eq!(parse_u32("4294967295"), Some(u32::MAX));
    assert_eq!(parse_u32("4294967296"), None);
    assert_eq!(parse_u32(""), None);
    assert_eq!(parse_u32("+"), None);
    assert_eq!(parse_u32("-1"), None);
    assert_eq!(parse_u32("1a"), None);
    assert_eq!(parse_u32("٣"), None);
}

#[test]
fn slang_report_lines_for_the_file_become_diagnostics() {
    let report = "test.sv:1:43: warning: cannot refer to element 2\nother.sv:2:1: error: x\n./sub/../test.sv:3:2: note: n\n";
    let diags = parse_report("/work/test.sv", "/work", report);
    assert_eq!(diags.len(), 2);
    assert_eq!(diags[0].range, at(0, 42, 42));
    assert_eq!(diags[0].severity, Some(DiagnosticSeverity::Warning));
    assert_eq!(diags[0].source, "slang");
    assert_eq!(diags[0].message, " cannot refer to element 2");
    assert_eq!(diags[1].range, at(2, 1, 1));
    assert_eq!(diags[1].severity, Some(DiagnosticSeverity::Information));
    assert_eq!(diags[1].message, " n");
}

#[test]
fn slang_report_with_an_unreadable_line_for_the_file_is_refused() {
    let bad = "test.sv:x:1: error: m\n";
    assert!(!report_fits("/work/test.sv", "/work", bad));
    assert!(try_parse_report("/work/test.sv", "/work", bad).is_none());
    let short = "test.sv:1\n";
    assert!(try_parse_report("/work/test.sv", "/work", short).is_none());
    // lines about other files are not read
    let other = "other.sv:x\n/work/test.sv:5:6: error: e\n";
    let diags = try_parse_report("/work/test.sv", "/work", other).expect("readable");
    assert_eq!(diags.len(), 1);
    assert_eq!(diags[0].range, at(4, 5, 5));
    assert_eq!(diags[0].severity, Some(DiagnosticSeverity::Error));
}

#[test]
fn slang_severities() {
    assert_eq!(slang_severity(" error"), Some(DiagnosticSeverity::Error));
    assert_eq!(slang_severity(" warning"), Some(DiagnosticSeverity::Warning));
    assert_eq!(slang_severity(" note"), Some(DiagnosticSeverity::Information));
    assert_eq!(slang_severity("error"), None);
    assert_eq!(slang_severity(" fatal"), None);
}

#[test]
fn splitting_lines_and_fields() {
    assert_eq!(split_lines("a\r\nb\n\nc"), vec!["a", "b", "", "c"]);
    assert_eq!(split_lines("a\n"), vec!["a"]);
    assert_eq!(split_lines("a\rb"), vec!["a\rb"]);
    assert!(split_lines("").is_empty());
    assert_eq!(split_colons("a:b:c", 2), vec!["a", "b:c"]);
    assert_eq!(split_colons("a:b:c", 5), vec!["a", "b", "c"]);
    assert_eq!(split_colons("abc", 3), vec!["abc"]);
    assert_eq!(split_colons(":", 5), vec!["", ""]);
}

#[test]
fn verible_report_of_a_stray_identifier() {
    // what verible-verilog-syntax reports for "module test;\n    logic abc;\n    logic abcd;\n\n  a\nendmodule\n"
    let out = "-:6:1-9: syntax error at token \"endmodule\"\n";
    let diags = verible_syntax_report(false, out).expect("diagnostics");
    assert_eq!(diags.len(), 1);
    check(&diags[0], at(5, 0, 8), "syntax error at token");
}
