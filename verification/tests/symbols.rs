use veridian::symbol::{
    keyword_kinds, ByteRange, CompletionItemKind, PortDirection, SymbolBuilder, SymbolKind,
};

#[test]
fn byte_ranges_contain_their_start_but_not_their_end() {
    let r = ByteRange::from_range(3..7);
    assert_eq!(r, ByteRange { start: 3, end: 7 });
    assert!(r.contains(3));
    assert!(r.contains(6));
    assert!(!r.contains(7));
    assert!(!r.contains(2));
    assert!(r.contains_range(ByteRange { start: 5, end: 100 }));
    assert!(!r.contains_range(ByteRange { start: 7, end: 8 }));
    assert!(!ByteRange::from_range(4..4).contains(4));
}

#[test]
fn port_directions_from_keywords() {
    assert_eq!(PortDirection::from_keyword("input"), PortDirection::Input);
    assert_eq!(PortDirection::from_keyword("output"), PortDirection::Output);
    assert_eq!(PortDirection::from_keyword("inout"), PortDirection::InOut);
    assert_eq!(PortDirection::from_keyword("ref"), PortDirection::Ref);
    assert_eq!(PortDirection::from_keyword("wire"), PortDirection::NotPort);
    assert_eq!(PortDirection::from_keyword("Input"), PortDirection::NotPort);
}

#[test]
fn builder_needs_identifier_and_kinds() {
    let mut b = SymbolBuilder::new(3);
    assert!(b.build().is_none());
    b.ident_node(ByteRange { start: 1, end: 2 });
    assert!(b.build().is_none());
    b.kind(Some((CompletionItemKind::Variable, SymbolKind::Variable)));
    let s = b.build().expect("symbol");
    assert_eq!(s.file, 3);
    assert_eq!(s.ident_node, ByteRange { start: 1, end: 2 });
    assert_eq!(s.direction, PortDirection::NotPort);
    assert!(!s.signed);
    assert!(!s.is_port());
    b.kind(None);
    assert!(b.build().is_none());
}

#[test]
fn builder_sets_each_part() {
    let mut b = SymbolBuilder::new(0);
    b.ident_node(ByteRange { start: 10, end: 12 });
    b.type_node(ByteRange { start: 0, end: 5 });
    b.scope_node(ByteRange { start: 0, end: 40 });
    b.parent(ByteRange { start: 20, end: 25 });
    b.signed();
    b.direction("output");
    b.kind(Some((CompletionItemKind::Property, SymbolKind::Property)));
    let s = b.build().expect("symbol");
    assert_eq!(s.type_node, Some(ByteRange { start: 0, end: 5 }));
    assert_eq!(s.scope_node, Some(ByteRange { start: 0, end: 40 }));
    assert_eq!(s.parent, Some(ByteRange { start: 20, end: 25 }));
    assert!(s.signed);
    assert_eq!(s.direction, PortDirection::Output);
    assert!(s.is_port());
    assert_eq!(s.ckind, CompletionItemKind::Property);
}

#[test]
fn interface_ports_take_a_modport() {
    let mut b = SymbolBuilder::new(0);
    // a modport before any interface is ignored
    b.direction_modport(ByteRange { start: 8, end: 9 });
    assert_eq!(b.direction, PortDirection::NotPort);
    b.direction_interface(ByteRange { start: 1, end: 4 });
    assert_eq!(b.direction, PortDirection::Interface((ByteRange { start: 1, end: 4 }, None)));
    b.direction_modport(ByteRange { start: 5, end: 7 });
    assert_eq!(
        b.direction,
        PortDirection::Interface((ByteRange { start: 1, end: 4 }, Some(ByteRange { start: 5, end: 7 })))
    );
}

#[test]
fn declaration_keywords_give_kinds() {
    assert_eq!(keyword_kinds("module"), Some((CompletionItemKind::Module, SymbolKind::Module)));
    assert_eq!(keyword_kinds("checker"), Some((CompletionItemKind::Module, SymbolKind::Module)));
    assert_eq!(keyword_kinds("interface"), Some((CompletionItemKind::Interface, SymbolKind::Interface)));
    assert_eq!(keyword_kinds("task"), Some((CompletionItemKind::Function, SymbolKind::Function)));
    assert_eq!(keyword_kinds("package"), Some((CompletionItemKind::Module, SymbolKind::Package)));
    assert_eq!(keyword_kinds("class"), Some((CompletionItemKind::Class, SymbolKind::Class)));
    assert_eq!(keyword_kinds("struct"), Some((CompletionItemKind::Struct, SymbolKind::Struct)));
    assert_eq!(keyword_kinds("enum"), Some((CompletionItemKind::Enum, SymbolKind::Enum)));
    assert_eq!(keyword_kinds("union"), Some((CompletionItemKind::Enum, SymbolKind::Enum)));
    assert_eq!(keyword_kinds("logic"), None);
}
