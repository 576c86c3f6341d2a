use ropey::Rope;
use veridian::outline::{document_highlight, document_symbol, SyntaxNode};
use veridian::position::{Position, Range};
use veridian::symbol::{ByteRange, CompletionItemKind, PortDirection, Symbol, SymbolKind};

fn sym(start: usize, end: usize, scope: Option<(usize, usize)>) -> Symbol {
    Symbol {
        ident_node: ByteRange { start, end },
        type_node: None,
        scope_node: scope.map(|(s, e)| ByteRange { start: s, end: e }),
        parent: None,
        file: 0,
        ckind: CompletionItemKind::Module,
        skind: SymbolKind::Module,
        signed: false,
        direction: PortDirection::NotPort,
    }
}

#[test]
fn outline_nests_symbols_by_scope() {
    // module a (scope 0..50) holds x and module-like b (scope 20..40) holding y; c is top level
    let syms = vec![
        sym(7, 8, Some((0, 50))),
        sym(10, 11, None),
        sym(21, 22, Some((20, 40))),
        sym(30, 31, None),
        sym(60, 61, None),
    ];
    let events = document_symbol(&syms);
    assert_eq!(
        events,
        vec![(1, Some(0)), (3, Some(2)), (2, Some(0)), (0, None), (4, None)]
    );
}

#[test]
fn outline_of_nothing_is_empty() {
    assert!(document_symbol(&Vec::new()).is_empty());
}

#[test]
fn outline_lists_every_symbol_once() {
    let syms = vec![sym(1, 2, None), sym(3, 4, Some((3, 9))), sym(5, 6, None), sym(10, 11, None)];
    let events = document_symbol(&syms);
    let mut seen: Vec<usize> = events.iter().map(|e| e.0).collect();
    seen.sort();
    assert_eq!(seen, vec![0, 1, 2, 3]);
}

#[test]
fn siblings_keep_document_order() {
    let syms = vec![
        sym(1, 2, Some((0, 100))),
        sym(10, 11, Some((10, 30))),
        sym(12, 13, None),
        sym(40, 41, None),
        sym(50, 51, Some((50, 60))),
        sym(70, 71, None),
        sym(120, 121, None),
    ];
    let events = document_symbol(&syms);
    for (a, ea) in events.iter().enumerate() {
        for eb in &events[a + 1..] {
            if ea.1 == eb.1 {
                assert!(ea.0 < eb.0);
            }
        }
    }
    let under_first: Vec<usize> = events.iter().filter(|e| e.1 == Some(0)).map(|e| e.0).collect();
    assert_eq!(under_first, vec![1, 3, 4, 5]);
}

#[test]
fn highlights_are_identifier_nodes_with_the_token() {
    let text = Rope::from_str("module test;\n  logic clk;\n  assign clk = 1'b1;\nendmodule");
    let node = |kind: &str, start: usize, end: usize| SyntaxNode {
        kind: kind.to_owned(),
        range: ByteRange { start, end },
    };
    let nodes = vec![
        node("simple_identifier", 7, 11),
        node("simple_identifier", 21, 24),
        node("net_lvalue", 35, 38),
        node("simple_identifier", 35, 38),
    ];
    let hl = document_highlight(&text, &nodes, "clk");
    assert_eq!(
        hl,
        vec![
            Range::new(Position::new(1, 8), Position::new(1, 11)),
            Range::new(Position::new(2, 9), Position::new(2, 12)),
        ]
    );
    assert!(document_highlight(&text, &nodes, "nothing").is_empty());
}
