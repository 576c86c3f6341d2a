use ropey::Rope;
use veridian::lookup::Index;
use veridian::position::{Position, Range};
use veridian::symbol::{ByteRange, CompletionItemKind, PortDirection, Symbol, SymbolKind};
use veridian::syntax::{definitions_in, highlights_at, hover_in, index_text};

fn sym(ident: (usize, usize), scope: Option<(usize, usize)>, parent: Option<(usize, usize)>, port: bool) -> Symbol {
    Symbol {
        ident_node: ByteRange { start: ident.0, end: ident.1 },
        type_node: None,
        scope_node: scope.map(|(s, e)| ByteRange { start: s, end: e }),
        parent: parent.map(|(s, e)| ByteRange { start: s, end: e }),
        file: 0,
        ckind: CompletionItemKind::Variable,
        skind: SymbolKind::Variable,
        signed: false,
        direction: if port { PortDirection::Input } else { PortDirection::NotPort },
    }
}

#[test]
fn test_highlight() {
    let text = "\nmodule test;\n  logic clk;\n  assign clk = 1'b1;\nendmodule";
    let rope = Rope::from_str(text);
    let hl = highlights_at(&rope, Position::new(2, 8)).expect("highlights");
    assert_eq!(
        hl,
        vec![
            Range::new(Position::new(3, 9), Position::new(3, 12)),
            Range::new(Position::new(2, 8), Position::new(2, 11)),
        ]
    );
}

#[test]
fn an_empty_document_has_no_highlights() {
    assert_eq!(highlights_at(&Rope::from_str(""), Position::new(0, 0)), Some(Vec::new()));
}

#[test]
fn queries_that_find_nothing_or_do_not_compile() {
    let text = Rope::from_str("module test;\nendmodule\n");
    assert_eq!(index_text(&text, "").map(|s| s.len()), Some(0));
    assert!(index_text(&text, "(").is_none());
}

#[test]
fn a_query_finds_module_names() {
    let text = Rope::from_str("module test;\nendmodule\nmodule other;\nendmodule\n");
    let query = "(module_declaration [(module_ansi_header (module_keyword) @keyword name: (simple_identifier) @ident) \
                 (module_nonansi_header (module_keyword) @keyword name: (simple_identifier) @ident)]) @scope";
    let syms = index_text(&text, query).expect("symbols");
    let names: Vec<(usize, usize)> = syms.iter().map(|s| (s.ident_node.start, s.ident_node.end)).collect();
    assert_eq!(names, vec![(7, 11), (30, 35)]);
    assert!(syms.iter().all(|s| s.skind == SymbolKind::Module && s.ckind == CompletionItemKind::Module));
    assert_eq!(syms[0].scope_node, Some(ByteRange { start: 0, end: 22 }));
    assert_eq!(syms[0].parent, None);
}

#[test]
fn test_definition_instance_port() {
    let text = "\ninterface a (\n    input logic b\n);\nendinterface\nmodule test;\n    logic c;\n    a intf (\n        .b(c)\n    );\nendmodule";
    let syms = vec![
        sym((11, 12), Some((1, 48)), None, false),
        sym((31, 32), None, Some((11, 12)), true),
        sym((56, 60), Some((49, 118)), None, false),
        sym((72, 73), None, Some((56, 60)), false),
        sym((81, 85), None, Some((56, 60)), false),
    ];
    let files = vec![Index { text: Rope::from_str(text), syms }];
    let defs = definitions_in(&files, 0, Position::new(8, 9)).expect("definitions");
    assert_eq!(defs.len(), 1);
    assert_eq!(defs[0].1.start, Position::new(2, 16));
    // away from the port connection, the port is hidden
    let defs = definitions_in(&files, 0, Position::new(6, 10)).expect("definitions");
    assert!(defs.iter().all(|d| d.1.start != Position::new(2, 16)));
}

#[test]
fn definitions_and_hover_without_symbols_are_empty() {
    let text = "module test;\nendmodule\n";
    let files = vec![Index { text: Rope::from_str(text), syms: Vec::new() }];
    assert_eq!(definitions_in(&files, 0, Position::new(0, 8)), Some(Vec::new()));
    assert_eq!(definitions_in(&files, 1, Position::new(0, 8)), None);
    assert_eq!(hover_in(&files, 0, Position::new(0, 8)), None);
}
