//! Symbols found in a document, and how they are built from syntax-query matches.
use crate::lookup::{range_ok, sym_ok};
use crate::rope::{rope_chars, rope_len_chars, rope_slice, slice_to_string};
use crate::strings::str_eq;
use ropey::Rope;
use vstd::prelude::*;

verus! {

/// A half-open range of byte offsets into a document.
#[derive(Clone, Copy, Debug, PartialEq, Eq, Structural)]
pub struct ByteRange {
    pub start: usize,
    pub end: usize,
}

impl ByteRange {
    /// `idx` lies in the range.
    pub open spec fn spec_contains(self, idx: int) -> bool {
        self.start <= idx < self.end
    }

    /// Whether `idx` lies in the range.
    pub fn contains(&self, idx: usize) -> (b: bool)
        ensures
            b == self.spec_contains(idx as int),
    {
        idx >= self.start && idx < self.end
    }

    /// Whether `range` starts inside this range.
    pub fn contains_range(&self, range: Self) -> (b: bool)
        ensures
            b == self.spec_contains(range.start as int),
    {
        range.start >= self.start && range.start < self.end
    }

    /// The byte range `start..end`.
    pub fn from_range(range: core::ops::Range<usize>) -> (r: Self)
        ensures
            r.start == range.start,
            r.end == range.end,
    {
        ByteRange { start: range.start, end: range.end }
    }
}

/// The kind of completion item a symbol offers.
#[derive(Clone, Copy, Debug, PartialEq, Eq, Structural)]
pub enum CompletionItemKind {
    Module,
    Interface,
    Function,
    Class,
    Struct,
    Enum,
    Property,
    Field,
    Variable,
}

/// The kind of document symbol a symbol shows as.
#[derive(Clone, Copy, Debug, PartialEq, Eq, Structural)]
pub enum SymbolKind {
    Module,
    Interface,
    Function,
    Package,
    Class,
    Struct,
    Enum,
    Property,
    Field,
    Variable,
}

/// The direction of a port; an interface port names its interface and modport.
#[derive(Clone, Copy, Debug, PartialEq, Eq)]
pub enum PortDirection {
    NotPort,
    Input,
    Output,
    InOut,
    Ref,
    Interface((ByteRange, Option<ByteRange>)),
}

/// The direction a port direction keyword stands for.
pub open spec fn direction_of(t: Seq<char>) -> PortDirection {
    if t == "input"@ {
        PortDirection::Input
    } else if t == "output"@ {
        PortDirection::Output
    } else if t == "inout"@ {
        PortDirection::InOut
    } else if t == "ref"@ {
        PortDirection::Ref
    } else {
        PortDirection::NotPort
    }
}

impl PortDirection {
    /// The direction a port direction keyword stands for (`None` for any other text).
    pub fn from_keyword(direction: &str) -> (d: Self)
        ensures
            d == direction_of(direction@),
    {
        if str_eq(direction, "input") {
            PortDirection::Input
        } else if str_eq(direction, "output") {
            PortDirection::Output
        } else if str_eq(direction, "inout") {
            PortDirection::InOut
        } else if str_eq(direction, "ref") {
            PortDirection::Ref
        } else {
            PortDirection::NotPort
        }
    }
}

/// A declaration found in a document, by the byte ranges of its parts.
#[derive(Clone, Copy, Debug)]
pub struct Symbol {
    pub ident_node: ByteRange,
    pub type_node: Option<ByteRange>,
    pub scope_node: Option<ByteRange>,
    pub parent: Option<ByteRange>,
    pub file: usize,
    pub ckind: CompletionItemKind,
    pub skind: SymbolKind,
    pub signed: bool,
    pub direction: PortDirection,
}

impl Symbol {
    /// Whether the symbol is a port.
    pub fn is_port(&self) -> (b: bool)
        ensures
            b == !(self.direction is NotPort),
    {
        !matches!(self.direction, PortDirection::NotPort)
    }
}

/// A symbol under construction.
#[derive(Clone, Copy, Debug)]
pub struct SymbolBuilder {
    pub ident_node: Option<ByteRange>,
    pub type_node: Option<ByteRange>,
    pub scope_node: Option<ByteRange>,
    pub parent: Option<ByteRange>,
    pub file: usize,
    pub ckind: Option<CompletionItemKind>,
    pub skind: Option<SymbolKind>,
    pub signed: bool,
    pub direction: PortDirection,
}

/// The builder with nothing set yet.
pub open spec fn empty_builder(file: usize) -> SymbolBuilder {
    SymbolBuilder {
        ident_node: None,
        type_node: None,
        scope_node: None,
        parent: None,
        file: file,
        ckind: None,
        skind: None,
        signed: false,
        direction: PortDirection::NotPort,
    }
}

/// The builder with its two kinds set (or cleared).
pub open spec fn with_kind(
    b: SymbolBuilder,
    kind: Option<(CompletionItemKind, SymbolKind)>,
) -> SymbolBuilder {
    match kind {
        Some(k) => SymbolBuilder { ckind: Some(k.0), skind: Some(k.1), ..b },
        None => SymbolBuilder { ckind: None, skind: None, ..b },
    }
}

/// The symbol a builder yields: present once identifier and kinds are set.
pub open spec fn spec_build(b: SymbolBuilder) -> Option<Symbol> {
    if b.ident_node is Some && b.ckind is Some && b.skind is Some {
        Some(
            Symbol {
                ident_node: b.ident_node.unwrap(),
                type_node: b.type_node,
                scope_node: b.scope_node,
                parent: b.parent,
                file: b.file,
                ckind: b.ckind.unwrap(),
                skind: b.skind.unwrap(),
                signed: b.signed,
                direction: b.direction,
            },
        )
    } else {
        None
    }
}

impl SymbolBuilder {
    pub fn new(file: usize) -> (b: Self)
        ensures
            b == empty_builder(file),
    {
        Self {
            ident_node: None,
            type_node: None,
            scope_node: None,
            parent: None,
            file,
            ckind: None,
            skind: None,
            signed: false,
            direction: PortDirection::NotPort,
        }
    }

    /// Set the symbol builder's ident node.
    pub fn ident_node(&mut self, ident_node: ByteRange)
        ensures
            *final(self) == (SymbolBuilder { ident_node: Some(ident_node), ..*old(self) }),
    {
        self.ident_node = Some(ident_node);
    }

    /// Set the symbol builder's type node.
    pub fn type_node(&mut self, type_node: ByteRange)
        ensures
            *final(self) == (SymbolBuilder { type_node: Some(type_node), ..*old(self) }),
    {
        self.type_node = Some(type_node);
    }

    /// Set the symbol builder's scope node.
    pub fn scope_node(&mut self, scope_node: ByteRange)
        ensures
            *final(self) == (SymbolBuilder { scope_node: Some(scope_node), ..*old(self) }),
    {
        self.scope_node = Some(scope_node);
    }

    /// Set the symbol builder's parent.
    pub fn parent(&mut self, parent: ByteRange)
        ensures
            *final(self) == (SymbolBuilder { parent: Some(parent), ..*old(self) }),
    {
        self.parent = Some(parent);
    }

    /// Set the symbol builder's completion and symbol kinds.
    pub fn kind(&mut self, kind: Option<(CompletionItemKind, SymbolKind)>)
        ensures
            *final(self) == with_kind(*old(self), kind),
    {
        self.ckind = match kind {
            Some(k) => Some(k.0),
            None => None,
        };
        self.skind = match kind {
            Some(k) => Some(k.1),
            None => None,
        };
    }

    /// The symbol, once identifier and kinds are set.
    pub fn build(self) -> (s: Option<Symbol>)
        ensures
            s == spec_build(self),
    {
        match (self.ident_node, self.ckind, self.skind) {
            (Some(ident_node), Some(ckind), Some(skind)) => Some(
                Symbol {
                    ident_node,
                    type_node: self.type_node,
                    scope_node: self.scope_node,
                    parent: self.parent,
                    file: self.file,
                    ckind,
                    skind,
                    signed: self.signed,
                    direction: self.direction,
                },
            ),
            _ => None,
        }
    }

    /// Mark the symbol as signed.
    pub fn signed(&mut self)
        ensures
            *final(self) == (SymbolBuilder { signed: true, ..*old(self) }),
    {
        self.signed = true;
    }

    /// Set the port direction from its keyword.
    pub fn direction(&mut self, direction: &str)
        ensures
            *final(self) == (SymbolBuilder { direction: direction_of(direction@), ..*old(self) }),
    {
        self.direction = PortDirection::from_keyword(direction);
    }

    /// Make the symbol an interface port of the given interface.
    pub fn direction_interface(&mut self, interface: ByteRange)
        ensures
            *final(self) == (SymbolBuilder {
                direction: PortDirection::Interface((interface, None)),
                ..*old(self)
            }),
    {
        self.direction = PortDirection::Interface((interface, None));
    }

    /// Give an interface port its modport; other ports are left as they are.
    pub fn direction_modport(&mut self, modport: ByteRange)
        ensures
            *final(self) == (match old(self).direction {
                PortDirection::Interface((i, _)) => SymbolBuilder {
                    direction: PortDirection::Interface((i, Some(modport))),
                    ..*old(self)
                },
                _ => *old(self),
            }),
    {
        if let PortDirection::Interface((i, _)) = &self.direction {
            self.direction = PortDirection::Interface((*i, Some(modport)))
        }
    }
}


/// One capture of a syntax-query match: the capture's name and the byte range
/// of the captured node.
#[derive(Clone, Debug)]
pub struct Capture {
    pub name: String,
    pub range: ByteRange,
}

/// One match of the symbol query: which pattern matched, and its captures.
#[derive(Clone, Debug)]
pub struct QueryMatch {
    pub pattern_index: usize,
    pub captures: Vec<Capture>,
}

/// A capture with its name taken as chars.
pub struct CaptureView {
    pub name: Seq<char>,
    pub range: ByteRange,
}

/// A match with its captures taken as views.
pub struct MatchView {
    pub pattern_index: usize,
    pub captures: Seq<CaptureView>,
}

impl View for Capture {
    type V = CaptureView;

    open spec fn view(&self) -> CaptureView {
        CaptureView { name: self.name@, range: self.range }
    }
}

impl View for QueryMatch {
    type V = MatchView;

    open spec fn view(&self) -> MatchView {
        MatchView {
            pattern_index: self.pattern_index,
            captures: self.captures@.map_values(|c: Capture| c@),
        }
    }
}

/// The views of a list of matches.
pub open spec fn match_views(ms: Seq<QueryMatch>) -> Seq<MatchView> {
    ms.map_values(|m: QueryMatch| m@)
}

/// The completion and symbol kinds a declaration keyword stands for.
pub open spec fn keyword_kind(t: Seq<char>) -> Option<(CompletionItemKind, SymbolKind)> {
    if t == "module"@ || t == "macromodule"@ || t == "primitive"@ || t == "program"@ || t
        == "checker"@ {
        Some((CompletionItemKind::Module, SymbolKind::Module))
    } else if t == "interface"@ {
        Some((CompletionItemKind::Interface, SymbolKind::Interface))
    } else if t == "task"@ || t == "function"@ {
        Some((CompletionItemKind::Function, SymbolKind::Function))
    } else if t == "package"@ {
        Some((CompletionItemKind::Module, SymbolKind::Package))
    } else if t == "class"@ {
        Some((CompletionItemKind::Class, SymbolKind::Class))
    } else if t == "struct"@ {
        Some((CompletionItemKind::Struct, SymbolKind::Struct))
    } else if t == "union"@ || t == "enum"@ {
        Some((CompletionItemKind::Enum, SymbolKind::Enum))
    } else {
        None
    }
}

/// The text of a keyword or direction capture: the capture's offsets are
/// taken as char indexes of the text, as the indexer slices the rope by them.
pub open spec fn capture_text(s: Seq<char>, r: ByteRange) -> Seq<char> {
    s.subrange(r.start as int, r.end as int)
}

/// The builder with its identifier set, and its parent set to the innermost
/// scope when that scope holds the identifier.
pub open spec fn with_ident(
    b: SymbolBuilder,
    r: ByteRange,
    parent: Option<(ByteRange, ByteRange)>,
) -> SymbolBuilder {
    let b1 = SymbolBuilder { ident_node: Some(r), ..b };
    match parent {
        Some(p) => if p.1.spec_contains(r.start as int) {
            SymbolBuilder { parent: Some(p.0), ..b1 }
        } else {
            b1
        },
        None => b1,
    }
}

/// What one capture of a match of pattern `p` does to the builder.
pub open spec fn capture_step(
    s: Seq<char>,
    p: usize,
    b: SymbolBuilder,
    cap: CaptureView,
    parent: Option<(ByteRange, ByteRange)>,
) -> SymbolBuilder {
    let n = cap.name;
    let r = cap.range;
    if p == 0 {
        if n == "ident"@ {
            SymbolBuilder { ident_node: Some(r), ..b }
        } else if n == "keyword"@ {
            with_kind(SymbolBuilder { type_node: Some(r), ..b }, keyword_kind(capture_text(s, r)))
        } else if n == "scope"@ {
            SymbolBuilder { scope_node: Some(r), ..b }
        } else {
            b
        }
    } else if p == 1 {
        if n == "ident"@ {
            with_ident(b, r, parent)
        } else if n == "port"@ {
            SymbolBuilder { scope_node: Some(r), ..b }
        } else if n == "type"@ {
            SymbolBuilder { type_node: Some(r), ..b }
        } else if n == "direction"@ {
            SymbolBuilder { direction: direction_of(capture_text(s, r)), ..b }
        } else if n == "signed"@ {
            SymbolBuilder { signed: true, ..b }
        } else if n == "interface"@ {
            SymbolBuilder { direction: PortDirection::Interface((r, None)), ..b }
        } else if n == "modport"@ {
            match b.direction {
                PortDirection::Interface((i, _)) => SymbolBuilder {
                    direction: PortDirection::Interface((i, Some(r))),
                    ..b
                },
                _ => b,
            }
        } else {
            b
        }
    } else if p == 2 || p == 4 {
        if n == "ident"@ {
            with_ident(b, r, parent)
        } else if n == "type"@ {
            SymbolBuilder { type_node: Some(r), ..b }
        } else if n == "signed"@ {
            SymbolBuilder { signed: true, ..b }
        } else {
            b
        }
    } else if p == 3 {
        if n == "ident"@ {
            with_ident(b, r, parent)
        } else if n == "package"@ {
            SymbolBuilder { type_node: Some(r), ..b }
        } else {
            b
        }
    } else if p == 5 || p == 6 {
        if n == "ident"@ {
            with_ident(b, r, parent)
        } else if n == "type"@ {
            SymbolBuilder { type_node: Some(r), ..b }
        } else {
            b
        }
    } else {
        b
    }
}

/// The builder after the first `k` captures.
pub open spec fn captures_fold(
    s: Seq<char>,
    p: usize,
    b: SymbolBuilder,
    caps: Seq<CaptureView>,
    k: int,
    parent: Option<(ByteRange, ByteRange)>,
) -> SymbolBuilder
    decreases k,
{
    if k <= 0 {
        b
    } else {
        capture_step(s, p, captures_fold(s, p, b, caps, k - 1, parent), caps[k - 1], parent)
    }
}

/// The builder a match of pattern `p` starts from: ports start as `inout`.
pub open spec fn pattern_builder(p: usize) -> SymbolBuilder {
    if p == 1 {
        SymbolBuilder { direction: PortDirection::InOut, ..empty_builder(0) }
    } else {
        empty_builder(0)
    }
}

/// The kinds a match of pattern `p` gives its symbol once its captures are read.
pub open spec fn pattern_kind(p: usize) -> (CompletionItemKind, SymbolKind) {
    if p == 4 {
        (CompletionItemKind::Field, SymbolKind::Field)
    } else if p == 5 {
        (CompletionItemKind::Module, SymbolKind::Module)
    } else if p == 6 {
        (CompletionItemKind::Variable, SymbolKind::Variable)
    } else {
        (CompletionItemKind::Property, SymbolKind::Property)
    }
}

/// The builder a match yields once all its captures are read.
pub open spec fn match_builder(
    s: Seq<char>,
    m: MatchView,
    parent: Option<(ByteRange, ByteRange)>,
) -> SymbolBuilder {
    let p = m.pattern_index;
    let b = captures_fold(s, p, pattern_builder(p), m.captures, m.captures.len() as int, parent);
    if p == 0 {
        b
    } else {
        with_kind(b, Some(pattern_kind(p)))
    }
}

/// State of the indexer between matches.
pub struct IndexState {
    pub symbols: Seq<Symbol>,
    pub members: Seq<SymbolBuilder>,
    pub parent: Option<(ByteRange, ByteRange)>,
}

/// `syms` with `o` appended when present.
pub open spec fn push_opt(syms: Seq<Symbol>, o: Option<Symbol>) -> Seq<Symbol> {
    match o {
        Some(x) => syms.push(x),
        None => syms,
    }
}

/// Pending struct members, taken from the last, given `parent` and appended.
pub open spec fn flush_members(
    syms: Seq<Symbol>,
    members: Seq<SymbolBuilder>,
    parent: ByteRange,
) -> Seq<Symbol>
    decreases members.len(),
{
    if members.len() == 0 {
        syms
    } else {
        flush_members(
            push_opt(syms, spec_build(SymbolBuilder { parent: Some(parent), ..members.last() })),
            members.drop_last(),
            parent,
        )
    }
}

/// A pending struct member that the new scope symbol `sym` claims.
pub open spec fn member_claimed(m: SymbolBuilder, sym: Option<Symbol>) -> bool {
    &&& m.ident_node is Some
    &&& sym is Some
    &&& sym.unwrap().scope_node is Some
    &&& sym.unwrap().scope_node.unwrap().spec_contains(m.ident_node.unwrap().start as int)
}

/// The indexer state after one match.
pub open spec fn index_step(s: Seq<char>, st: IndexState, m: MatchView) -> IndexState {
    let p = m.pattern_index;
    let b = match_builder(s, m, st.parent);
    let sym = spec_build(b);
    if p == 0 {
        let parent = match sym {
            Some(x) => match x.scope_node {
                Some(sc) => Some((x.ident_node, sc)),
                None => st.parent,
            },
            None => st.parent,
        };
        let syms = push_opt(st.symbols, sym);
        IndexState {
            symbols: if st.members.len() == 0 {
                syms
            } else {
                flush_members(syms, st.members, sym.unwrap().ident_node)
            },
            members: Seq::empty(),
            parent: parent,
        }
    } else if p == 4 {
        IndexState { members: st.members.push(b), ..st }
    } else if p <= 6 {
        IndexState { symbols: push_opt(st.symbols, sym), ..st }
    } else {
        st
    }
}

/// The indexer state after the first `i` matches.
pub open spec fn index_state(s: Seq<char>, ms: Seq<MatchView>, i: int) -> IndexState
    decreases i,
{
    if i <= 0 {
        IndexState { symbols: Seq::empty(), members: Seq::empty(), parent: None }
    } else {
        index_step(s, index_state(s, ms, i - 1), ms[i - 1])
    }
}

/// A capture that is read as text can slice the rope: its offsets, taken as
/// char indexes, are in order and within the text.
pub open spec fn capture_text_ok(s: Seq<char>, p: usize, c: CaptureView) -> bool {
    ((p == 0 && c.name == "keyword"@) || (p == 1 && c.name == "direction"@)) ==> c.range.start
        <= c.range.end <= s.len()
}

/// The captures of a match that are read as text lie within the text.
pub open spec fn match_texts_ok(s: Seq<char>, m: MatchView) -> bool {
    forall|j: int|
        0 <= j < m.captures.len() ==> capture_text_ok(s, m.pattern_index, #[trigger] m.captures[j])
}

/// Match `i` can be indexed: its text captures lie within the text, and when
/// it is a scope match every pending struct member lies in its scope (the
/// indexer loops forever otherwise).
pub open spec fn index_step_ok(s: Seq<char>, ms: Seq<MatchView>, i: int) -> bool {
    let st = index_state(s, ms, i);
    let m = ms[i];
    &&& match_texts_ok(s, m)
    &&& m.pattern_index == 0 ==> forall|j: int|
        0 <= j < st.members.len() ==> member_claimed(
            #[trigger] st.members[j],
            spec_build(match_builder(s, m, st.parent)),
        )
}

/// Every match of `ms` can be indexed.
pub open spec fn index_ok(s: Seq<char>, ms: Seq<MatchView>) -> bool {
    forall|i: int| 0 <= i < ms.len() ==> index_step_ok(s, ms, i)
}

/// Reads one capture of a match of pattern `p` into the builder.
fn apply_capture(
    text: &Rope,
    p: usize,
    builder: &mut SymbolBuilder,
    cap: &Capture,
    parent: Option<(ByteRange, ByteRange)>,
)
    requires
        capture_text_ok(rope_chars(*text), p, cap@),
    ensures
        *final(builder) == capture_step(rope_chars(*text), p, *old(builder), cap@, parent),
{
    let name = cap.name.as_str();
    let r = cap.range;
    if p == 0 {
        if str_eq(name, "ident") {
            builder.ident_node(r);
        } else if str_eq(name, "keyword") {
            builder.type_node(r);
            let word = slice_to_string(&rope_slice(text, r.start, r.end));
            builder.kind(keyword_kinds(word.as_str()));
        } else if str_eq(name, "scope") {
            builder.scope_node(r);
        }
    } else if p == 1 {
        if str_eq(name, "ident") {
            set_ident(builder, r, parent);
        } else if str_eq(name, "port") {
            builder.scope_node(r);
        } else if str_eq(name, "type") {
            builder.type_node(r);
        } else if str_eq(name, "direction") {
            let word = slice_to_string(&rope_slice(text, r.start, r.end));
            builder.direction(word.as_str());
        } else if str_eq(name, "signed") {
            builder.signed();
        } else if str_eq(name, "interface") {
            builder.direction_interface(r);
        } else if str_eq(name, "modport") {
            builder.direction_modport(r);
        }
    } else if p == 2 || p == 4 {
        if str_eq(name, "ident") {
            set_ident(builder, r, parent);
        } else if str_eq(name, "type") {
            builder.type_node(r);
        } else if str_eq(name, "signed") {
            builder.signed();
        }
    } else if p == 3 {
        if str_eq(name, "ident") {
            set_ident(builder, r, parent);
        } else if str_eq(name, "package") {
            builder.type_node(r);
        }
    } else if p == 5 || p == 6 {
        if str_eq(name, "ident") {
            set_ident(builder, r, parent);
        } else if str_eq(name, "type") {
            builder.type_node(r);
        }
    }
}

/// Sets the identifier, and the parent when the innermost scope holds it.
fn set_ident(builder: &mut SymbolBuilder, r: ByteRange, parent: Option<(ByteRange, ByteRange)>)
    ensures
        *final(builder) == with_ident(*old(builder), r, parent),
{
    builder.ident_node(r);
    if let Some((pi, pr)) = parent {
        if pr.contains(r.start) {
            builder.parent(pi);
        }
    }
}

/// The completion and symbol kinds of a declaration keyword.
pub fn keyword_kinds(word: &str) -> (k: Option<(CompletionItemKind, SymbolKind)>)
    ensures
        k == keyword_kind(word@),
{
    if str_eq(word, "module") || str_eq(word, "macromodule") || str_eq(word, "primitive")
        || str_eq(word, "program") || str_eq(word, "checker") {
        Some((CompletionItemKind::Module, SymbolKind::Module))
    } else if str_eq(word, "interface") {
        Some((CompletionItemKind::Interface, SymbolKind::Interface))
    } else if str_eq(word, "task") {
        Some((CompletionItemKind::Function, SymbolKind::Function))
    } else if str_eq(word, "function") {
        Some((CompletionItemKind::Function, SymbolKind::Function))
    } else if str_eq(word, "package") {
        Some((CompletionItemKind::Module, SymbolKind::Package))
    } else if str_eq(word, "class") {
        Some((CompletionItemKind::Class, SymbolKind::Class))
    } else if str_eq(word, "struct") {
        Some((CompletionItemKind::Struct, SymbolKind::Struct))
    } else if str_eq(word, "union") {
        Some((CompletionItemKind::Enum, SymbolKind::Enum))
    } else if str_eq(word, "enum") {
        Some((CompletionItemKind::Enum, SymbolKind::Enum))
    } else {
        None
    }
}

/// Reads all captures of a match into a builder.
fn read_match(text: &Rope, m: &QueryMatch, parent: Option<(ByteRange, ByteRange)>) -> (b:
    SymbolBuilder)
    requires
        match_texts_ok(rope_chars(*text), m@),
    ensures
        b == match_builder(rope_chars(*text), m@, parent),
{
    let p = m.pattern_index;
    let mut builder = SymbolBuilder::new(0);
    if p == 1 {
        proof {
            reveal_strlit("inout");
            reveal_strlit("input");
            reveal_strlit("output");
        }
        builder.direction("inout");
        assert("inout"@[2] != "input"@[2]);
        assert(direction_of("inout"@) == PortDirection::InOut);
    }
    assert(builder == pattern_builder(p));
    let n = m.captures.len();
    let mut k: usize = 0;
    while k < n
        invariant
            n == m.captures@.len(),
            p == m.pattern_index,
            0 <= k <= n,
            match_texts_ok(rope_chars(*text), m@),
            builder == captures_fold(
                rope_chars(*text),
                p,
                pattern_builder(p),
                m@.captures,
                k as int,
                parent,
            ),
        decreases n - k,
    {
        let cap = &m.captures[k];
        assert(cap@ == m@.captures[k as int]);
        assert(capture_text_ok(rope_chars(*text), p, m@.captures[k as int]));
        apply_capture(text, p, &mut builder, cap, parent);
        k = k + 1;
    }
    if p == 1 || p == 2 || p == 3 {
        builder.kind(Some((CompletionItemKind::Property, SymbolKind::Property)));
    } else if p == 4 {
        builder.kind(Some((CompletionItemKind::Field, SymbolKind::Field)));
    } else if p == 5 {
        builder.kind(Some((CompletionItemKind::Module, SymbolKind::Module)));
    } else if p == 6 {
        builder.kind(Some((CompletionItemKind::Variable, SymbolKind::Variable)));
    } else if p != 0 {
        builder.kind(Some((CompletionItemKind::Property, SymbolKind::Property)));
    }
    builder
}

/// Whether the captures of `m` that are read as text lie within the text.
fn texts_in_bounds(text: &Rope, m: &QueryMatch) -> (b: bool)
    ensures
        b == match_texts_ok(rope_chars(*text), m@),
{
    let p = m.pattern_index;
    let n = m.captures.len();
    let mut k: usize = 0;
    while k < n
        invariant
            n == m.captures@.len(),
            p == m.pattern_index,
            0 <= k <= n,
            forall|j: int|
                0 <= j < k ==> capture_text_ok(rope_chars(*text), p, #[trigger] m@.captures[j]),
        decreases n - k,
    {
        let cap = &m.captures[k];
        let name = cap.name.as_str();
        if (p == 0 && str_eq(name, "keyword")) || (p == 1 && str_eq(name, "direction")) {
            if !(cap.range.start <= cap.range.end && cap.range.end <= rope_len_chars(text)) {
                assert(cap@ == m@.captures[k as int]);
                assert(!capture_text_ok(rope_chars(*text), p, m@.captures[k as int]));
                return false;
            }
        }
        assert(cap@ == m@.captures[k as int]);
        k = k + 1;
    }
    true
}

/// Whether the scope symbol `sym` claims every pending struct member.
fn all_claimed(members: &Vec<SymbolBuilder>, sym: Option<Symbol>) -> (b: bool)
    ensures
        b == forall|j: int| 0 <= j < members@.len() ==> member_claimed(#[trigger] members@[j], sym),
{
    let n = members.len();
    let mut k: usize = 0;
    while k < n
        invariant
            n == members@.len(),
            0 <= k <= n,
            forall|j: int| 0 <= j < k ==> member_claimed(#[trigger] members@[j], sym),
        decreases n - k,
    {
        let claimed = match (members[k].ident_node, sym) {
            (Some(ident), Some(sy)) => match sy.scope_node {
                Some(scope) => scope.contains(ident.start),
                None => false,
            },
            _ => false,
        };
        if !claimed {
            assert(!member_claimed(members@[k as int], sym));
            return false;
        }
        k = k + 1;
    }
    true
}

/// Builds the symbols of a document from the matches of the symbol query, as
/// `index` does, where every match can be indexed; `None` where one cannot
/// (a text capture out of the text, or a scope match that leaves a pending
/// struct member outside its scope).
#[verifier::spinoff_prover]
pub fn try_index(text: &Rope, matches: &Vec<QueryMatch>) -> (r: Option<Vec<Symbol>>)
    ensures
        r is Some <==> index_ok(rope_chars(*text), match_views(matches@)),
        r matches Some(symbols) ==> symbols@ == index_state(
            rope_chars(*text),
            match_views(matches@),
            matches@.len() as int,
        ).symbols,
{
    let ghost s = rope_chars(*text);
    let mut symbols: Vec<Symbol> = Vec::new();
    let mut struct_members: Vec<SymbolBuilder> = Vec::new();
    let mut parent: Option<(ByteRange, ByteRange)> = None;
    let n = matches.len();
    let mut i: usize = 0;
    while i < n
        invariant
            s == rope_chars(*text),
            n == matches@.len(),
            0 <= i <= n,
            forall|k: int| 0 <= k < i ==> index_step_ok(s, match_views(matches@), k),
            symbols@ == index_state(s, match_views(matches@), i as int).symbols,
            struct_members@ == index_state(s, match_views(matches@), i as int).members,
            parent == index_state(s, match_views(matches@), i as int).parent,
        decreases n - i,
    {
        let m = &matches[i];
        let p = m.pattern_index;
        if !texts_in_bounds(text, m) {
            assert(!index_step_ok(s, match_views(matches@), i as int));
            return None;
        }
        let builder = read_match(text, m, parent);
        // scopes
        if p == 0 {
            let symbol = builder.build();
            if !all_claimed(&struct_members, symbol) {
                assert(!index_step_ok(s, match_views(matches@), i as int));
                return None;
            }
            proof {
                assert(index_step_ok(s, match_views(matches@), i as int));
            }
            if let Some(sy) = symbol {
                if let Some(scope) = sy.scope_node {
                    parent = Some((sy.ident_node, scope));
                }
            }
            if let Some(sy) = symbol {
                symbols.push(sy);
            }
            let ghost syms1 = symbols@;
            let ghost members0 = struct_members@;
            proof {
                if members0.len() > 0 {
                    assert(member_claimed(members0[0], symbol));
                }
            }
            // set struct member parent to struct
            while struct_members.len() > 0
                invariant
                    forall|j: int|
                        0 <= j < struct_members@.len() ==> member_claimed(
                            #[trigger] struct_members@[j],
                            symbol,
                        ),
                    members0.len() > 0 ==> symbol is Some,
                    members0.len() > 0 ==> flush_members(
                        symbols@,
                        struct_members@,
                        symbol.unwrap().ident_node,
                    ) == flush_members(syms1, members0, symbol.unwrap().ident_node),
                    members0.len() == 0 ==> struct_members@.len() == 0 && symbols@ == syms1,
                decreases struct_members.len(),
            {
                let ghost before = struct_members@;
                let mut sm = struct_members.pop().unwrap();
                proof {
                    assert(member_claimed(before[before.len() - 1], symbol));
                    assert(struct_members@ == before.drop_last());
                }
                if let (Some(ident), Some(sy)) = (sm.ident_node, symbol) {
                    if let Some(scope) = sy.scope_node {
                        if scope.contains_range(ident) {
                            sm.parent(sy.ident_node);
                            let built = sm.build();
                            if let Some(b) = built {
                                symbols.push(b);
                            }
                            continue;
                        }
                    }
                }
                struct_members.push(sm);
            }
        }
        // struct_union member
        else if p == 4 {
            proof {
                assert(index_step_ok(s, match_views(matches@), i as int));
            }
            struct_members.push(builder);
        }
        // ports, params, package imports, instantiations, variables
        else {
            proof {
                assert(index_step_ok(s, match_views(matches@), i as int));
            }
            if p <= 6 {
                if let Some(sy) = builder.build() {
                    symbols.push(sy);
                }
            }
        }
        i = i + 1;
    }
    Some(symbols)
}

/// Builds the symbols of a document from the matches of the symbol query, in
/// match order: scope matches open a scope that later matches take their
/// parent from, struct members wait for the scope match that encloses them.
pub fn index(text: &Rope, matches: &Vec<QueryMatch>) -> (symbols: Vec<Symbol>)
    requires
        index_ok(rope_chars(*text), match_views(matches@)),
    ensures
        symbols@ == index_state(rope_chars(*text), match_views(matches@), matches@.len() as int).symbols,
{
    match try_index(text, matches) {
        Some(symbols) => symbols,
        None => {
            proof {
                assert(false);
            }
            Vec::new()
        },
    }
}


/// A match of a pattern other than the scope pattern captures at most one
/// identifier.
pub open spec fn one_ident(m: MatchView) -> bool {
    m.pattern_index != 0 ==> forall|a: int, b: int|
        0 <= a < m.captures.len() && 0 <= b < m.captures.len() && #[trigger] m.captures[a].name
            == "ident"@ && #[trigger] m.captures[b].name == "ident"@ ==> a == b
}

/// The parent of symbol `i`, if it has one, is the identifier of an earlier
/// symbol whose scope holds the start of symbol `i`'s identifier.
pub open spec fn parent_encloses(syms: Seq<Symbol>, i: int) -> bool {
    syms[i].parent matches Some(pr) ==> exists|j: int|
        0 <= j < i && #[trigger] syms[j].ident_node == pr && syms[j].scope_node is Some
            && syms[j].scope_node.unwrap().spec_contains(syms[i].ident_node.start as int)
}

/// The scope the indexer holds open belongs to a symbol it has already built.
spec fn parent_recorded(st: IndexState) -> bool {
    st.parent matches Some(pa) ==> exists|j: int|
        0 <= j < st.symbols.len() && #[trigger] st.symbols[j].ident_node == pa.0
            && st.symbols[j].scope_node == Some(pa.1)
}

proof fn lemma_fold_parent(
    s: Seq<char>,
    p: usize,
    caps: Seq<CaptureView>,
    k: int,
    parent: Option<(ByteRange, ByteRange)>,
)
    requires
        0 <= k <= caps.len(),
        p != 0 ==> forall|a: int, b: int|
            0 <= a < caps.len() && 0 <= b < caps.len() && #[trigger] caps[a].name == "ident"@
                && #[trigger] caps[b].name == "ident"@ ==> a == b,
    ensures
        ({
            let b = captures_fold(s, p, pattern_builder(p), caps, k, parent);
            &&& p == 0 ==> b.parent is None
            &&& b.parent is Some ==> {
                &&& parent is Some
                &&& b.parent == Some(parent.unwrap().0)
                &&& b.ident_node is Some
                &&& parent.unwrap().1.spec_contains(b.ident_node.unwrap().start as int)
                &&& exists|t: int| 0 <= t < k && #[trigger] caps[t].name == "ident"@
            }
        }),
    decreases k,
{
    if k > 0 {
        lemma_fold_parent(s, p, caps, k - 1, parent);
        let b0 = captures_fold(s, p, pattern_builder(p), caps, k - 1, parent);
        let c = caps[k - 1];
        if b0.parent is Some {
            let t = choose|t: int| 0 <= t < k - 1 && #[trigger] caps[t].name == "ident"@;
            assert(caps[t].name == "ident"@);
            if c.name == "ident"@ && p != 0 {
                assert(t == k - 1);
            }
        }
        if c.name == "ident"@ && 1 <= p <= 6 {
            assert(caps[k - 1].name == "ident"@);
        }
    }
}

proof fn lemma_flush_parents(
    syms: Seq<Symbol>,
    members: Seq<SymbolBuilder>,
    pr: ByteRange,
    sc: ByteRange,
)
    requires
        forall|j: int|
            0 <= j < members.len() ==> (#[trigger] members[j]).ident_node is Some
                && sc.spec_contains(members[j].ident_node.unwrap().start as int),
    ensures
        ({
            let r = flush_members(syms, members, pr);
            &&& syms.len() <= r.len()
            &&& forall|k: int| 0 <= k < syms.len() ==> r[k] == syms[k]
            &&& forall|k: int|
                syms.len() <= k < r.len() ==> (#[trigger] r[k]).parent == Some(pr)
                    && sc.spec_contains(r[k].ident_node.start as int)
        }),
    decreases members.len(),
{
    if members.len() > 0 {
        let last = members.last();
        assert(last == members[members.len() - 1]);
        let next = push_opt(syms, spec_build(SymbolBuilder { parent: Some(pr), ..last }));
        let rest = members.drop_last();
        assert forall|j: int| 0 <= j < rest.len() implies (#[trigger] rest[j]).ident_node is Some
            && sc.spec_contains(rest[j].ident_node.unwrap().start as int) by {
            assert(rest[j] == members[j]);
        }
        lemma_flush_parents(next, rest, pr, sc);
    }
}

proof fn lemma_index_parents(s: Seq<char>, ms: Seq<MatchView>, i: int)
    requires
        0 <= i <= ms.len(),
        forall|k: int| 0 <= k < i ==> index_step_ok(s, ms, k),
        forall|k: int| 0 <= k < ms.len() ==> one_ident(#[trigger] ms[k]),
    ensures
        parent_recorded(index_state(s, ms, i)),
        forall|k: int|
            0 <= k < index_state(s, ms, i).symbols.len() ==> parent_encloses(
                index_state(s, ms, i).symbols,
                k,
            ),
    decreases i,
{
    if i > 0 {
        lemma_index_parents(s, ms, i - 1);
        let st0 = index_state(s, ms, i - 1);
        let m = ms[i - 1];
        let st = index_state(s, ms, i);
        assert(st == index_step(s, st0, m));
        let p = m.pattern_index;
        assert(one_ident(ms[i - 1]));
        lemma_fold_parent(s, p, m.captures, m.captures.len() as int, st0.parent);
        let b = match_builder(s, m, st0.parent);
        let sym = spec_build(b);
        let n = st0.symbols.len() as int;
        assert(index_step_ok(s, ms, i - 1));
        if p == 0 && st0.members.len() > 0 {
            let sc = sym.unwrap().scope_node.unwrap();
            assert(member_claimed(st0.members[0], sym));
            assert forall|j: int| 0 <= j < st0.members.len() implies (
            #[trigger] st0.members[j]).ident_node is Some && sc.spec_contains(
                st0.members[j].ident_node.unwrap().start as int,
            ) by {
                assert(member_claimed(st0.members[j], sym));
            }
            lemma_flush_parents(push_opt(st0.symbols, sym), st0.members, sym.unwrap().ident_node, sc);
        }
        assert(n <= st.symbols.len());
        assert forall|k: int| 0 <= k < n implies st.symbols[k] == st0.symbols[k] by {}
        if p == 0 {
            if sym is Some {
                assert(st.symbols[n] == sym.unwrap());
            }
            assert forall|k: int| 0 <= k < st.symbols.len() implies parent_encloses(
                st.symbols,
                k,
            ) by {
                if k < n {
                    assert(parent_encloses(st0.symbols, k));
                    if st.symbols[k].parent is Some {
                        let j = choose|j: int|
                            0 <= j < k && #[trigger] st0.symbols[j].ident_node
                                == st0.symbols[k].parent.unwrap()
                                && st0.symbols[j].scope_node is Some
                                && st0.symbols[j].scope_node.unwrap().spec_contains(st0.symbols[k].ident_node.start as int);
                        assert(st.symbols[j] == st0.symbols[j]);
                    }
                } else if k > n {
                    assert(st.symbols[n].ident_node == sym.unwrap().ident_node);
                }
            }
            if st0.parent is Some && !(sym is Some && sym.unwrap().scope_node is Some) {
                let pa = st0.parent.unwrap();
                let j = choose|j: int|
                    0 <= j < st0.symbols.len() && #[trigger] st0.symbols[j].ident_node == pa.0
                        && st0.symbols[j].scope_node == Some(pa.1);
                assert(st.symbols[j] == st0.symbols[j]);
            }
        } else if 1 <= p <= 6 && p != 4 {
            if sym is Some {
                assert(st.symbols[n] == sym.unwrap());
            }
            assert forall|k: int| 0 <= k < st.symbols.len() implies parent_encloses(
                st.symbols,
                k,
            ) by {
                if k < n {
                    assert(parent_encloses(st0.symbols, k));
                    if st.symbols[k].parent is Some {
                        let j = choose|j: int|
                            0 <= j < k && #[trigger] st0.symbols[j].ident_node
                                == st0.symbols[k].parent.unwrap()
                                && st0.symbols[j].scope_node is Some
                                && st0.symbols[j].scope_node.unwrap().spec_contains(st0.symbols[k].ident_node.start as int);
                        assert(st.symbols[j] == st0.symbols[j]);
                    }
                } else if st.symbols[k].parent is Some {
                    let pa = st0.parent.unwrap();
                    let j = choose|j: int|
                        0 <= j < st0.symbols.len() && #[trigger] st0.symbols[j].ident_node == pa.0
                            && st0.symbols[j].scope_node == Some(pa.1);
                    assert(st.symbols[j] == st0.symbols[j]);
                }
            }
            if st0.parent is Some {
                let pa = st0.parent.unwrap();
                let j = choose|j: int|
                    0 <= j < st0.symbols.len() && #[trigger] st0.symbols[j].ident_node == pa.0
                        && st0.symbols[j].scope_node == Some(pa.1);
                assert(st.symbols[j] == st0.symbols[j]);
            }
        }
    }
}

/// Every parent the indexer records is the identifier of a symbol built
/// before the child, whose scope holds the start of the child's identifier;
/// this holds of every match list that can be indexed and in which no match
/// outside the scope pattern captures two identifiers.
pub proof fn law_parent_encloses_child(s: Seq<char>, ms: Seq<MatchView>)
    requires
        index_ok(s, ms),
        forall|k: int| 0 <= k < ms.len() ==> one_ident(#[trigger] ms[k]),
    ensures
        forall|k: int|
            0 <= k < index_state(s, ms, ms.len() as int).symbols.len() ==> parent_encloses(
                index_state(s, ms, ms.len() as int).symbols,
                k,
            ),
{
    assert forall|k: int| 0 <= k < ms.len() implies index_step_ok(s, ms, k) by {}
    lemma_index_parents(s, ms, ms.len() as int);
}


/// The ranges a builder holds that a symbol keeps are valid ranges of `s`.
spec fn builder_ok(s: Seq<char>, b: SymbolBuilder) -> bool {
    &&& b.ident_node matches Some(r) ==> range_ok(s, r)
    &&& b.type_node matches Some(r) ==> range_ok(s, r)
    &&& b.parent matches Some(r) ==> range_ok(s, r)
}

/// Every capture of every match is a valid range of `s`.
pub open spec fn captures_in_text(s: Seq<char>, ms: Seq<MatchView>) -> bool {
    forall|i: int, j: int|
        0 <= i < ms.len() && 0 <= j < ms[i].captures.len() ==> range_ok(
            s,
            (#[trigger] ms[i].captures[j]).range,
        )
}

proof fn lemma_fold_in_text(
    s: Seq<char>,
    p: usize,
    caps: Seq<CaptureView>,
    k: int,
    parent: Option<(ByteRange, ByteRange)>,
)
    requires
        0 <= k <= caps.len(),
        forall|j: int| 0 <= j < caps.len() ==> range_ok(s, (#[trigger] caps[j]).range),
        parent matches Some(pa) ==> range_ok(s, pa.0),
    ensures
        builder_ok(s, captures_fold(s, p, pattern_builder(p), caps, k, parent)),
    decreases k,
{
    if k > 0 {
        lemma_fold_in_text(s, p, caps, k - 1, parent);
        assert(range_ok(s, caps[k - 1].range));
    }
}

proof fn lemma_flush_in_text(s: Seq<char>, syms: Seq<Symbol>, members: Seq<SymbolBuilder>, pr: ByteRange)
    requires
        forall|k: int| 0 <= k < syms.len() ==> sym_ok(s, #[trigger] syms[k]),
        forall|j: int| 0 <= j < members.len() ==> builder_ok(s, #[trigger] members[j]),
        range_ok(s, pr),
    ensures
        forall|k: int|
            0 <= k < flush_members(syms, members, pr).len() ==> sym_ok(
                s,
                #[trigger] flush_members(syms, members, pr)[k],
            ),
    decreases members.len(),
{
    if members.len() > 0 {
        let last = members.last();
        assert(builder_ok(s, members[members.len() - 1]));
        let next = push_opt(syms, spec_build(SymbolBuilder { parent: Some(pr), ..last }));
        let rest = members.drop_last();
        assert forall|j: int| 0 <= j < rest.len() implies builder_ok(s, #[trigger] rest[j]) by {
            assert(rest[j] == members[j]);
        }
        assert forall|k: int| 0 <= k < next.len() implies sym_ok(s, #[trigger] next[k]) by {
            if k < syms.len() {
                assert(next[k] == syms[k]);
            }
        }
        lemma_flush_in_text(s, next, rest, pr);
        assert(flush_members(syms, members, pr) == flush_members(next, rest, pr));
    } else {
        assert(flush_members(syms, members, pr) == syms);
    }
}

proof fn lemma_index_in_text(s: Seq<char>, ms: Seq<MatchView>, i: int)
    requires
        0 <= i <= ms.len(),
        forall|k: int| 0 <= k < i ==> index_step_ok(s, ms, k),
        captures_in_text(s, ms),
    ensures
        forall|k: int|
            0 <= k < index_state(s, ms, i).symbols.len() ==> sym_ok(
                s,
                #[trigger] index_state(s, ms, i).symbols[k],
            ),
        index_state(s, ms, i).parent matches Some(pa) ==> range_ok(s, pa.0),
        forall|j: int|
            0 <= j < index_state(s, ms, i).members.len() ==> builder_ok(
                s,
                #[trigger] index_state(s, ms, i).members[j],
            ),
    decreases i,
{
    if i > 0 {
        lemma_index_in_text(s, ms, i - 1);
        let st0 = index_state(s, ms, i - 1);
        let m = ms[i - 1];
        let st = index_state(s, ms, i);
        assert(st == index_step(s, st0, m));
        assert forall|j: int| 0 <= j < m.captures.len() implies range_ok(s, (#[trigger] m.captures[j]).range) by {
            assert(range_ok(s, ms[i - 1].captures[j].range));
        }
        lemma_fold_in_text(s, m.pattern_index, m.captures, m.captures.len() as int, st0.parent);
        let b = match_builder(s, m, st0.parent);
        let sym = spec_build(b);
        let syms = push_opt(st0.symbols, sym);
        assert forall|k: int| 0 <= k < syms.len() implies sym_ok(s, #[trigger] syms[k]) by {
            if k < st0.symbols.len() {
                assert(syms[k] == st0.symbols[k]);
            }
        }
        let p = m.pattern_index;
        if p == 0 && st0.members.len() > 0 {
            assert(index_step_ok(s, ms, i - 1));
            assert(member_claimed(st0.members[0], sym));
            lemma_flush_in_text(s, syms, st0.members, sym.unwrap().ident_node);
        }
        if p == 4 {
            assert forall|j: int| 0 <= j < st.members.len() implies builder_ok(s, #[trigger] st.members[j]) by {
                if j < st0.members.len() {
                    assert(st.members[j] == st0.members[j]);
                }
            }
        }
    }
}

/// The symbols the indexer builds only hold ranges of the text: where every
/// capture of the matches is a valid range of the text, every symbol's
/// identifier, type and parent ranges are valid ranges of it too.
pub proof fn law_index_symbols_in_text(s: Seq<char>, ms: Seq<MatchView>)
    requires
        index_ok(s, ms),
        captures_in_text(s, ms),
    ensures
        forall|k: int|
            0 <= k < index_state(s, ms, ms.len() as int).symbols.len() ==> sym_ok(
                s,
                #[trigger] index_state(s, ms, ms.len() as int).symbols[k],
            ),
{
    assert forall|k: int| 0 <= k < ms.len() implies index_step_ok(s, ms, k) by {}
    lemma_index_in_text(s, ms, ms.len() as int);
}


/// A scope match of the symbol query: a keyword, an identifier and a scope.
pub open spec fn scope_match(kw: ByteRange, id: ByteRange, sc: ByteRange) -> MatchView {
    MatchView {
        pattern_index: 0,
        captures: seq![
            CaptureView { name: "keyword"@, range: kw },
            CaptureView { name: "ident"@, range: id },
            CaptureView { name: "scope"@, range: sc },
        ],
    }
}

/// The symbol a scope match appends has the match's identifier, keyword and
/// scope, no parent, and the two kinds given; its scope is the one open next.
pub open spec fn declared_as(
    next: IndexState,
    k: int,
    kw: ByteRange,
    id: ByteRange,
    sc: ByteRange,
    c: CompletionItemKind,
    sk: SymbolKind,
) -> bool {
    let syms = next.symbols;
    &&& 0 <= k < syms.len()
    &&& next.parent == Some((id, sc))
    &&& syms[k].ident_node == id
    &&& syms[k].type_node == Some(kw)
    &&& syms[k].scope_node == Some(sc)
    &&& syms[k].parent is None
    &&& syms[k].ckind == c
    &&& syms[k].skind == sk
}

/// A scope match whose keyword reads a declaration keyword adds, right after
/// the symbols built so far, the symbol it declares, with the kinds of that
/// keyword: modules, macromodules, primitives, programs and checkers are
/// modules; interfaces are interfaces; tasks and functions are functions;
/// packages are packages shown as modules; classes are classes; structs are
/// structs; unions and enums are enums. The scope it declares becomes the
/// scope later symbols take their parent from.
pub proof fn law_scope_match_declares_by_keyword(
    s: Seq<char>,
    st: IndexState,
    kw: ByteRange,
    id: ByteRange,
    sc: ByteRange,
)
    requires
        kw.start <= kw.end <= s.len(),
    ensures
        ({
            let t = s.subrange(kw.start as int, kw.end as int);
            let next = index_step(s, st, scope_match(kw, id, sc));
            let k = st.symbols.len() as int;
            &&& (t == "module"@ || t == "macromodule"@ || t == "primitive"@ || t == "program"@
                || t == "checker"@) ==> declared_as(
                next,
                k,
                kw,
                id,
                sc,
                CompletionItemKind::Module,
                SymbolKind::Module,
            )
            &&& t == "interface"@ ==> declared_as(
                next,
                k,
                kw,
                id,
                sc,
                CompletionItemKind::Interface,
                SymbolKind::Interface,
            )
            &&& (t == "task"@ || t == "function"@) ==> declared_as(
                next,
                k,
                kw,
                id,
                sc,
                CompletionItemKind::Function,
                SymbolKind::Function,
            )
            &&& t == "package"@ ==> declared_as(
                next,
                k,
                kw,
                id,
                sc,
                CompletionItemKind::Module,
                SymbolKind::Package,
            )
            &&& t == "class"@ ==> declared_as(
                next,
                k,
                kw,
                id,
                sc,
                CompletionItemKind::Class,
                SymbolKind::Class,
            )
            &&& t == "struct"@ ==> declared_as(
                next,
                k,
                kw,
                id,
                sc,
                CompletionItemKind::Struct,
                SymbolKind::Struct,
            )
            &&& (t == "union"@ || t == "enum"@) ==> declared_as(
                next,
                k,
                kw,
                id,
                sc,
                CompletionItemKind::Enum,
                SymbolKind::Enum,
            )
            &&& next.symbols.take(k) == st.symbols
            &&& (st.members.len() == 0 && !(t == "module"@ || t == "macromodule"@ || t == "primitive"@
                || t == "program"@ || t == "checker"@ || t == "interface"@ || t == "task"@ || t
                == "function"@ || t == "package"@ || t == "class"@ || t == "struct"@ || t == "union"@
                || t == "enum"@)) ==> next.symbols == st.symbols && next.parent == st.parent
        }),
{
    reveal_strlit("keyword");
    reveal_strlit("ident");
    reveal_strlit("scope");
    reveal_strlit("module");
    reveal_strlit("macromodule");
    reveal_strlit("primitive");
    reveal_strlit("program");
    reveal_strlit("checker");
    reveal_strlit("interface");
    reveal_strlit("task");
    reveal_strlit("function");
    reveal_strlit("package");
    reveal_strlit("class");
    reveal_strlit("struct");
    reveal_strlit("union");
    reveal_strlit("enum");
    let m = scope_match(kw, id, sc);
    let t = s.subrange(kw.start as int, kw.end as int);
    let b0 = pattern_builder(0);
    let b1 = captures_fold(s, 0, b0, m.captures, 1, st.parent);
    let b2 = captures_fold(s, 0, b0, m.captures, 2, st.parent);
    let b3 = captures_fold(s, 0, b0, m.captures, 3, st.parent);
    assert(captures_fold(s, 0, b0, m.captures, 0, st.parent) == b0);
    assert(m.captures[0] == CaptureView { name: "keyword"@, range: kw });
    assert(m.captures[1] == CaptureView { name: "ident"@, range: id });
    assert(m.captures[2] == CaptureView { name: "scope"@, range: sc });
    assert("keyword"@ != "ident"@) by {
        assert("keyword"@.len() != "ident"@.len());
    }
    assert("scope"@ != "ident"@) by {
        assert("scope"@[0] != "ident"@[0]);
    }
    assert("scope"@ != "keyword"@) by {
        assert("scope"@.len() != "keyword"@.len());
    }
    assert(capture_text(s, kw) == t);
    assert(b1 == with_kind(SymbolBuilder { type_node: Some(kw), ..b0 }, keyword_kind(t)));
    assert(b2 == SymbolBuilder { ident_node: Some(id), ..b1 });
    assert(b3 == SymbolBuilder { scope_node: Some(sc), ..b2 });
    assert(match_builder(s, m, st.parent) == b3);
    let sym = spec_build(b3);
    let k = st.symbols.len() as int;
    let syms = push_opt(st.symbols, sym);
    let next = index_step(s, st, m);
    lemma_flush_prefix(syms, st.members, sym.unwrap().ident_node);
    assert(k <= syms.len());
    assert forall|j: int| 0 <= j < syms.len() implies next.symbols[j] == syms[j] by {}
    if sym is Some {
        assert(syms[k] == sym.unwrap());
        assert(next.symbols[k] == sym.unwrap());
    }
    assert forall|j: int| 0 <= j < k implies next.symbols[j] == st.symbols[j] by {
        assert(syms[j] == st.symbols[j]);
    }
    assert(next.symbols.take(k) =~= st.symbols);
    assert("module"@.len() == 6 && "macromodule"@.len() == 11 && "primitive"@.len() == 9);
    assert("program"@.len() == 7 && "checker"@.len() == 7 && "interface"@.len() == 9);
    assert("task"@.len() == 4 && "function"@.len() == 8 && "package"@.len() == 7);
    assert("class"@.len() == 5 && "struct"@.len() == 6 && "union"@.len() == 5 && "enum"@.len() == 4);
    assert("module"@[0] != "struct"@[0] && "primitive"@[0] != "interface"@[0]);
    assert("program"@[0] != "checker"@[0] && "package"@[0] != "checker"@[0] && "program"@[1] != "package"@[1]);
    assert("task"@[0] != "enum"@[0] && "class"@[0] != "union"@[0]);
}

/// Flushing pending members keeps the symbols already there.
proof fn lemma_flush_prefix(syms: Seq<Symbol>, members: Seq<SymbolBuilder>, pr: ByteRange)
    ensures
        syms.len() <= flush_members(syms, members, pr).len(),
        forall|k: int| 0 <= k < syms.len() ==> flush_members(syms, members, pr)[k] == syms[k],
    decreases members.len(),
{
    if members.len() > 0 {
        let next = push_opt(syms, spec_build(SymbolBuilder { parent: Some(pr), ..members.last() }));
        lemma_flush_prefix(next, members.drop_last(), pr);
        assert forall|k: int| 0 <= k < syms.len() implies next[k] == syms[k] by {}
    }
}

} // verus!
