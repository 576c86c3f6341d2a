use ropey::Rope;
use veridian::completion::{
    completion, matching_keywords, trim_trailing_dots, CompletionAnswer, CompletionTrigger,
};
use veridian::lookup::{get_completions, get_definition, get_dot_completions, Index};
use veridian::navigation::{goto_definition, hover};
use veridian::position::{LSPSupport, Position, Range};
use veridian::symbol::{
    index, try_index, ByteRange, Capture, CompletionItemKind, PortDirection, QueryMatch, Symbol,
    SymbolKind,
};

const TEXT: &str = "module test;\n  logic a;\n  logic ab;\nendmodule\nmodule top;\n  test inst;\nendmodule\n";

fn cap(name: &str, start: usize, end: usize) -> Capture {
    Capture { name: name.to_owned(), range: ByteRange { start, end } }
}

fn matches() -> Vec<QueryMatch> {
    vec![
        QueryMatch {
            pattern_index: 0,
            captures: vec![cap("keyword", 0, 6), cap("ident", 7, 11), cap("scope", 0, 45)],
        },
        QueryMatch { pattern_index: 6, captures: vec![cap("type", 15, 20), cap("ident", 21, 22)] },
        QueryMatch { pattern_index: 6, captures: vec![cap("type", 26, 31), cap("ident", 32, 34)] },
        QueryMatch {
            pattern_index: 0,
            captures: vec![cap("keyword", 46, 52), cap("ident", 53, 56), cap("scope", 46, 80)],
        },
        QueryMatch { pattern_index: 5, captures: vec![cap("type", 60, 64), cap("ident", 65, 69)] },
    ]
}

fn document(text: Rope, syms: Vec<Symbol>) -> Index {
    Index { text, syms }
}

fn files() -> Vec<Index> {
    let text = Rope::from_str(TEXT);
    let syms = index(&text, &matches());
    vec![document(text, syms)]
}

fn idents(text: &str, cand: &[(usize, Symbol)]) -> Vec<String> {
    cand.iter().map(|(_, s)| text[s.ident_node.start..s.ident_node.end].to_owned()).collect()
}

#[test]
fn index_builds_symbols_with_parents_and_kinds() {
    let text = Rope::from_str(TEXT);
    let syms = index(&text, &matches());
    assert_eq!(syms.len(), 5);
    assert_eq!(syms[0].ident_node, ByteRange { start: 7, end: 11 });
    assert_eq!(syms[0].ckind, CompletionItemKind::Module);
    assert_eq!(syms[0].skind, SymbolKind::Module);
    assert_eq!(syms[0].scope_node, Some(ByteRange { start: 0, end: 45 }));
    assert_eq!(syms[0].parent, None);
    assert_eq!(syms[1].skind, SymbolKind::Variable);
    assert_eq!(syms[1].parent, Some(ByteRange { start: 7, end: 11 }));
    assert_eq!(syms[1].type_node, Some(ByteRange { start: 15, end: 20 }));
    assert_eq!(syms[4].skind, SymbolKind::Module);
    assert_eq!(syms[4].parent, Some(ByteRange { start: 53, end: 56 }));
}

#[test]
fn struct_members_take_the_struct_as_parent() {
    let text = Rope::from_str("struct { bit x; } s;");
    let ms = vec![
        QueryMatch { pattern_index: 4, captures: vec![cap("type", 9, 12), cap("ident", 13, 14)] },
        QueryMatch {
            pattern_index: 0,
            captures: vec![cap("keyword", 0, 6), cap("scope", 0, 17), cap("ident", 18, 19)],
        },
    ];
    let syms = index(&text, &ms);
    assert_eq!(syms.len(), 2);
    assert_eq!(syms[0].ident_node, ByteRange { start: 18, end: 19 });
    assert_eq!(syms[0].skind, SymbolKind::Struct);
    assert_eq!(syms[1].ident_node, ByteRange { start: 13, end: 14 });
    assert_eq!(syms[1].skind, SymbolKind::Field);
    assert_eq!(syms[1].parent, Some(ByteRange { start: 18, end: 19 }));
}

#[test]
fn try_index_refuses_what_index_cannot_take() {
    let text = Rope::from_str("module m; endmodule");
    // a keyword capture past the end of the text
    let bad = vec![QueryMatch { pattern_index: 0, captures: vec![cap("keyword", 0, 99)] }];
    assert!(try_index(&text, &bad).is_none());
    // a struct member outside the scope that follows it
    let stray = vec![
        QueryMatch { pattern_index: 4, captures: vec![cap("ident", 15, 16)] },
        QueryMatch {
            pattern_index: 0,
            captures: vec![cap("keyword", 0, 6), cap("ident", 7, 8), cap("scope", 0, 9)],
        },
    ];
    assert!(try_index(&text, &stray).is_none());
    let good = vec![QueryMatch {
        pattern_index: 0,
        captures: vec![cap("keyword", 0, 6), cap("ident", 7, 8), cap("scope", 0, 19)],
    }];
    assert_eq!(try_index(&text, &good).map(|s| s.len()), Some(1));
}

#[test]
fn port_matches_read_their_direction() {
    let text = Rope::from_str("input logic clk");
    let ms = vec![QueryMatch {
        pattern_index: 1,
        captures: vec![cap("direction", 0, 5), cap("type", 6, 11), cap("ident", 12, 15)],
    }];
    let syms = index(&text, &ms);
    assert_eq!(syms.len(), 1);
    assert_eq!(syms[0].direction, PortDirection::Input);
    assert!(syms[0].is_port());
    let ms = vec![QueryMatch { pattern_index: 1, captures: vec![cap("ident", 12, 15)] }];
    assert_eq!(index(&text, &ms)[0].direction, PortDirection::InOut);
}

#[test]
fn completions_hide_members_of_scopes_away_from_the_cursor() {
    let files = files();
    // inside `top`: the members of `test` are hidden
    let cand = get_completions(&files, Some(0), "", Position::new(5, 11));
    assert_eq!(idents(TEXT, &cand), vec!["test", "top", "inst"]);
    // inside `test`
    let cand = get_completions(&files, Some(0), "a", Position::new(1, 4));
    assert_eq!(idents(TEXT, &cand), vec!["a", "ab"]);
    // from another document every member is hidden
    let cand = get_completions(&files, None, "", Position::new(0, 0));
    assert_eq!(idents(TEXT, &cand), vec!["test", "top"]);
}

#[test]
fn definitions_are_found_by_exact_name() {
    let files = files();
    let defs = get_definition(&files, 0, "ab", Position::new(2, 9), false);
    assert_eq!(defs, vec![(0, Range::new(Position::new(2, 8), Position::new(2, 10)))]);
    let defs = get_definition(&files, 0, "a", Position::new(5, 3), false);
    assert!(defs.is_empty());
    let defs = get_definition(&files, 0, "test", Position::new(5, 3), false);
    assert_eq!(defs, vec![(0, Range::new(Position::new(0, 7), Position::new(0, 11)))]);
}

#[test]
fn dot_completions_list_members_of_the_name_and_of_its_type() {
    let files = files();
    let cand = get_dot_completions(&files, Some(0), "inst", Position::new(5, 11));
    assert_eq!(idents(TEXT, &cand), vec!["a", "ab"]);
    let cand = get_dot_completions(&files, Some(0), "test", Position::new(5, 11));
    assert_eq!(idents(TEXT, &cand), vec!["a", "ab"]);
    let cand = get_dot_completions(&files, Some(0), "nothing", Position::new(5, 11));
    assert!(cand.is_empty());
}

#[test]
fn completion_follows_the_trigger() {
    let files = files();
    let keywords = vec!["module".to_owned(), "instance".to_owned(), "logic".to_owned()];
    let pos = Position::new(5, 11);
    let dot = CompletionTrigger::Character(Some(".".to_owned()));
    match completion(&files, 0, pos, &dot, &keywords) {
        Some(CompletionAnswer::Members(c)) => assert_eq!(idents(TEXT, &c), vec!["a", "ab"]),
        _ => panic!("expected members"),
    }
    match completion(&files, 0, pos, &CompletionTrigger::Invoked, &keywords) {
        Some(CompletionAnswer::Identifiers(c, k)) => {
            assert_eq!(idents(TEXT, &c), vec!["inst"]);
            assert_eq!(k, vec!["instance".to_owned()]);
        }
        _ => panic!("expected identifiers"),
    }
    match completion(&files, 0, Position::new(5, 4), &CompletionTrigger::Absent, &keywords) {
        Some(CompletionAnswer::Identifiers(c, k)) => {
            assert_eq!(idents(TEXT, &c), vec!["test"]);
            assert!(k.is_empty());
        }
        _ => panic!("expected identifiers"),
    }
    let dollar = CompletionTrigger::Character(Some("$".to_owned()));
    assert!(matches!(completion(&files, 0, pos, &dollar, &keywords), Some(CompletionAnswer::SystemTasks)));
    let tick = CompletionTrigger::Character(Some("`".to_owned()));
    assert!(matches!(completion(&files, 0, pos, &tick, &keywords), Some(CompletionAnswer::Directives)));
    let other = CompletionTrigger::Character(Some("x".to_owned()));
    assert!(completion(&files, 0, pos, &other, &keywords).is_none());
    assert!(completion(&files, 0, pos, &CompletionTrigger::Character(None), &keywords).is_none());
    assert!(completion(&files, 0, pos, &CompletionTrigger::Incomplete, &keywords).is_none());
    assert!(completion(&files, 0, pos, &CompletionTrigger::Other, &keywords).is_none());
    assert!(completion(&files, 1, pos, &CompletionTrigger::Invoked, &keywords).is_none());
}

#[test]
fn completion_without_context_looks_at_the_previous_char() {
    let text = Rope::from_str("module m;\n  x. \n  $\n  `\nendmodule\n");
    let files = vec![document(text, Vec::new())];
    let kw: Vec<String> = Vec::new();
    assert!(matches!(
        completion(&files, 0, Position::new(1, 5), &CompletionTrigger::Absent, &kw),
        Some(CompletionAnswer::Members(_))
    ));
    assert!(matches!(
        completion(&files, 0, Position::new(2, 3), &CompletionTrigger::Absent, &kw),
        Some(CompletionAnswer::SystemTasks)
    ));
    assert!(matches!(
        completion(&files, 0, Position::new(3, 3), &CompletionTrigger::Absent, &kw),
        Some(CompletionAnswer::Directives)
    ));
}

#[test]
fn trailing_dots_and_keyword_filter() {
    assert_eq!(trim_trailing_dots("a.b.."), "a.b");
    assert_eq!(trim_trailing_dots("..."), "");
    assert_eq!(trim_trailing_dots("abc"), "abc");
    let kw = vec!["module".to_owned(), "modport".to_owned(), "logic".to_owned()];
    assert_eq!(matching_keywords(&kw, "mod"), vec!["module".to_owned(), "modport".to_owned()]);
    assert_eq!(matching_keywords(&kw, ""), kw);
    assert!(matching_keywords(&kw, "x").is_empty());
}

#[test]
fn goto_definition_and_hover_answer_for_the_cursor() {
    let files = files();
    let defs = goto_definition(&files, 0, Position::new(5, 3), false);
    assert_eq!(defs, Some(vec![(0, Range::new(Position::new(0, 7), Position::new(0, 11)))]));
    assert_eq!(goto_definition(&files, 3, Position::new(0, 0), false), None);
    assert_eq!(hover(&files, 0, Position::new(5, 3), false), Some("module test;\n".to_owned()));
    assert_eq!(hover(&files, 0, Position::new(1, 4), false), None);
}

#[test]
fn definitions_are_the_completions_named_exactly_the_token() {
    let files = files();
    for (token, pos) in [("a", Position::new(1, 4)), ("test", Position::new(5, 3)), ("inst", Position::new(5, 8))] {
        let defs = get_definition(&files, 0, token, pos, false);
        let exact: Vec<(usize, Range)> = get_completions(&files, Some(0), token, pos)
            .into_iter()
            .filter(|(i, s)| idents(TEXT, &[(*i, *s)])[0] == token)
            .map(|(i, s)| (i, files[i].text.byte_range_to_range(s.ident_node)))
            .collect();
        assert_eq!(defs, exact);
        assert!(!defs.is_empty());
    }
}

#[test]
fn hover_reads_the_document_the_definition_is_in() {
    let lib = Rope::from_str("\n// an adder\nmodule adder;\nendmodule\n");
    let lib_syms = index(
        &lib,
        &vec![QueryMatch {
            pattern_index: 0,
            captures: vec![cap("keyword", 13, 19), cap("ident", 20, 25), cap("scope", 13, 36)],
        }],
    );
    let top = Rope::from_str("module top;\n  adder u1 ();\nendmodule\n");
    let files = vec![document(lib, lib_syms), document(top, Vec::new())];
    assert_eq!(hover(&files, 1, Position::new(1, 4), false), Some("// an adder\nmodule adder;".to_owned()));
}

#[test]
fn every_parent_is_an_earlier_scope_holding_the_child() {
    let text = Rope::from_str(TEXT);
    let syms = index(&text, &matches());
    let mut with_parent = 0;
    for (i, s) in syms.iter().enumerate() {
        if let Some(p) = s.parent {
            with_parent += 1;
            assert!(syms[..i]
                .iter()
                .any(|o| o.ident_node == p && o.scope_node.map_or(false, |sc| sc.contains(s.ident_node.start))));
        }
    }
    assert_eq!(with_parent, 3);
}

#[test]
fn a_second_identifier_capture_keeps_the_first_parent() {
    let text = Rope::from_str(TEXT);
    let ms = vec![
        QueryMatch {
            pattern_index: 0,
            captures: vec![cap("keyword", 0, 6), cap("ident", 7, 11), cap("scope", 0, 45)],
        },
        QueryMatch { pattern_index: 6, captures: vec![cap("ident", 21, 22), cap("ident", 53, 56)] },
    ];
    let syms = index(&text, &ms);
    assert_eq!(syms[1].ident_node, ByteRange { start: 53, end: 56 });
    assert_eq!(syms[1].parent, Some(ByteRange { start: 7, end: 11 }));
}

#[test]
fn symbols_built_from_captures_in_the_text_stay_in_the_text() {
    let text = Rope::from_str(TEXT);
    let syms = index(&text, &matches());
    let doc = document(text, syms);
    assert!(doc.is_wf());
}

#[test]
fn keyword_captures_are_read_as_char_ranges() {
    // "é" takes two bytes: the keyword's bytes are 3..9, its chars 2..8
    let text = Rope::from_str("\u{e9}\nmodule x;\nendmodule\n");
    let by_bytes = vec![QueryMatch {
        pattern_index: 0,
        captures: vec![cap("keyword", 3, 9), cap("ident", 10, 11), cap("scope", 3, 29)],
    }];
    assert!(index(&text, &by_bytes).is_empty());
    let by_chars = vec![QueryMatch {
        pattern_index: 0,
        captures: vec![cap("keyword", 2, 8), cap("ident", 10, 11), cap("scope", 3, 29)],
    }];
    let syms = index(&text, &by_chars);
    assert_eq!(syms.len(), 1);
    assert_eq!(syms[0].skind, SymbolKind::Module);
    let beyond = vec![QueryMatch { pattern_index: 0, captures: vec![cap("keyword", 20, 30)] }];
    assert!(try_index(&text, &beyond).is_none());
}

#[test]
fn top_level_symbols_starting_with_the_token_are_always_offered() {
    let files = files();
    for pos in [Position::new(0, 0), Position::new(2, 3), Position::new(5, 3)] {
        let top: Vec<String> = idents(
            TEXT,
            &get_completions(&files, Some(0), "t", pos)
                .into_iter()
                .filter(|(_, s)| s.parent.is_none())
                .collect::<Vec<_>>(),
        );
        assert_eq!(top, vec!["test".to_owned(), "top".to_owned()]);
    }
    assert!(get_completions(&files, None, "zz", Position::new(0, 0)).is_empty());
}
