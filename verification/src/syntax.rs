//! What the library reads from the syntax tree of a document's text, parsed
//! with the SystemVerilog grammar: the matches of the symbol query, the nodes
//! in walk order, and the kind of the node around a byte's named node.
use crate::hover::{get_hover, hover_text, views};
use crate::lookup::{files_nonempty, files_wf, get_definition, range_eq, range_in_bounds, range_ok, Index};
use crate::navigation::{cursor_token, definitions_at};
use crate::outline::{document_highlight, highlight_ranges, is_highlight, node_views, NodeView, SyntaxNode};
use crate::position::{pos_byte, pos_valid, LSPSupport, Position, Range};
use crate::rope::{
    rope_chars, rope_len_bytes, rope_len_chars, rope_len_lines, rope_line, rope_slice, slice_to_string,
};
use crate::strings::str_eq;
use crate::symbol::{
    index_ok, index_state, match_views, try_index, ByteRange, Capture, CaptureView, MatchView,
    QueryMatch, Symbol,
};
use crate::text::{line_count, utf8_len};
use crate::tokens::get_definition_token;
use ropey::Rope;
use tree_sitter::{Parser, Query, QueryCursor, StreamingIterator};
use tree_sitter_systemverilog::LANGUAGE;
use vstd::prelude::*;

verus! {

/// Running the query with source `query` over the syntax tree of `text`:
/// the query's capture names, and its matches in the order the query cursor
/// finds them, each with its pattern index and its captures (capture index,
/// byte range); `None` where the query does not compile.
pub uninterp spec fn query_run(query: Seq<char>, text: Seq<char>) -> Option<
    (Seq<Seq<char>>, Seq<(usize, Seq<(u32, core::ops::Range<usize>)>)>),
>;

/// The nodes of the syntax tree of `text`, from the root, each node's
/// children pushed in order and the last pushed node taken first: each
/// node's kind and byte range.
pub uninterp spec fn syntax_nodes(text: Seq<char>) -> Seq<NodeView>;

/// The kind of the parent of the smallest named node of the syntax tree of
/// `text` at byte `b`; `None` where there is no such node or it has no parent.
pub uninterp spec fn parent_kind_at(text: Seq<char>, b: usize) -> Option<Seq<char>>;

/// A list of matches, if any, as views.
pub open spec fn matches_view(r: Option<Vec<QueryMatch>>) -> Option<Seq<MatchView>> {
    match r {
        Some(v) => Some(match_views(v@)),
        None => None,
    }
}

/// A string, if any, as chars.
pub open spec fn string_view(r: Option<String>) -> Option<Seq<char>> {
    match r {
        Some(t) => Some(t@),
        None => None,
    }
}

/// Raw matches with their capture lists as sequences.
pub open spec fn raw_views(raw: Seq<(usize, Vec<(u32, core::ops::Range<usize>)>)>) -> Seq<
    (usize, Seq<(u32, core::ops::Range<usize>)>),
> {
    raw.map_values(|m: (usize, Vec<(u32, core::ops::Range<usize>)>)| (m.0, m.1@))
}

/// A query run's result as plain values.
pub open spec fn run_view(r: Option<(Vec<String>, Vec<(usize, Vec<(u32, core::ops::Range<usize>)>)>)>) -> Option<
    (Seq<Seq<char>>, Seq<(usize, Seq<(u32, core::ops::Range<usize>)>)>),
> {
    match r {
        Some((names, raw)) => Some((views(names@), raw_views(raw@))),
        None => None,
    }
}

/// A raw capture named by the query's capture names.
pub open spec fn name_capture(names: Seq<Seq<char>>, c: (u32, core::ops::Range<usize>)) -> CaptureView {
    CaptureView { name: names[c.0 as int], range: ByteRange { start: c.1.start, end: c.1.end } }
}

/// A raw match with its captures named.
pub open spec fn named_match(names: Seq<Seq<char>>, m: (usize, Seq<(u32, core::ops::Range<usize>)>)) -> MatchView {
    MatchView {
        pattern_index: m.0,
        captures: m.1.map_values(|c: (u32, core::ops::Range<usize>)| name_capture(names, c)),
    }
}

/// Every capture of a raw match has a name.
pub open spec fn match_named_ok(names: Seq<Seq<char>>, m: (usize, Seq<(u32, core::ops::Range<usize>)>)) -> bool {
    forall|j: int| 0 <= j < m.1.len() ==> ((#[trigger] m.1[j]).0 as int) < names.len()
}

/// The raw matches with their captures named; `None` where a capture index
/// has no name.
pub open spec fn named_matches(
    names: Seq<Seq<char>>,
    raw: Seq<(usize, Seq<(u32, core::ops::Range<usize>)>)>,
) -> Option<Seq<MatchView>> {
    if forall|i: int| 0 <= i < raw.len() ==> match_named_ok(names, #[trigger] raw[i]) {
        Some(raw.map_values(|m: (usize, Seq<(u32, core::ops::Range<usize>)>)| named_match(names, m)))
    } else {
        None
    }
}

/// The matches of the query with source `query` over the syntax tree of
/// `text`, in the order the query cursor finds them, their captures named;
/// `None` where the query does not compile.
pub open spec fn symbol_matches(query: Seq<char>, text: Seq<char>) -> Option<Seq<MatchView>> {
    match query_run(query, text) {
        Some((names, raw)) => named_matches(names, raw),
        None => None,
    }
}

/// `tree_sitter::QueryCursor::matches` over the tree `tree_sitter::Parser::parse`
/// gives of the text with the SystemVerilog grammar, the query compiled by
/// `tree_sitter::Query::new` from `query`: the query's capture names, and each
/// match with its pattern index and its captures' indexes and byte ranges.
/// Assumed: the result is a function of the two strings alone.
#[verifier::external_body]
fn run_query(query: &str, source: &str) -> (r: Option<(Vec<String>, Vec<(usize, Vec<(u32, core::ops::Range<usize>)>)>)>)
    ensures
        run_view(r) == query_run(query@, source@),
{
    let lang = LANGUAGE.into();
    let mut parser = Parser::new();
    parser.set_language(&lang).ok()?;
    let tree = parser.parse(source, None)?;
    let q = Query::new(&lang, query).ok()?;
    let mut cursor = QueryCursor::new();
    let mut it = cursor.matches(&q, tree.root_node(), source.as_bytes());
    let mut out = Vec::new();
    while let Some(m) = it.next() {
        out.push((m.pattern_index, m.captures().iter().map(|c| (c.index, c.node.byte_range())).collect()));
    }
    Some((q.capture_names().iter().map(ToString::to_string).collect(), out))
}

/// Names the captures of raw matches by the query's capture names: `None`
/// where a capture index has no name.
pub fn name_captures(names: &Vec<String>, raw: &Vec<(usize, Vec<(u32, core::ops::Range<usize>)>)>) -> (r: Option<
    Vec<QueryMatch>,
>)
    ensures
        matches_view(r) == named_matches(views(names@), raw_views(raw@)),
{
    let ghost nv = views(names@);
    let ghost rv = raw_views(raw@);
    let mut out: Vec<QueryMatch> = Vec::new();
    let n = raw.len();
    let mut i: usize = 0;
    while i < n
        invariant
            n == raw@.len(),
            nv == views(names@),
            rv == raw_views(raw@),
            0 <= i <= n,
            forall|i2: int| 0 <= i2 < i ==> match_named_ok(nv, #[trigger] rv[i2]),
            match_views(out@) == rv.take(i as int).map_values(
                |m: (usize, Seq<(u32, core::ops::Range<usize>)>)| named_match(nv, m),
            ),
        decreases n - i,
    {
        let (p, caps) = &raw[i];
        assert(rv[i as int] == (*p, caps@));
        let mut named: Vec<Capture> = Vec::new();
        let m = caps.len();
        let mut j: usize = 0;
        while j < m
            invariant
                m == caps@.len(),
                nv == views(names@),
                n == raw@.len(),
                i < n,
                rv == raw_views(raw@),
                rv[i as int] == (*p, caps@),
                forall|i2: int| 0 <= i2 < i ==> match_named_ok(nv, #[trigger] rv[i2]),
                match_views(out@) == rv.take(i as int).map_values(
                    |x: (usize, Seq<(u32, core::ops::Range<usize>)>)| named_match(nv, x),
                ),
                0 <= j <= m,
                forall|j2: int| 0 <= j2 < j ==> ((#[trigger] caps@[j2]).0 as int) < nv.len(),
                named@.map_values(|c: Capture| c@) == caps@.take(j as int).map_values(
                    |c: (u32, core::ops::Range<usize>)| name_capture(nv, c),
                ),
            decreases m - j,
        {
            let k = caps[j].0;
            let start = caps[j].1.start;
            let end = caps[j].1.end;
            if k as usize >= names.len() {
                proof {
                    assert(rv[i as int].1[j as int] == caps@[j as int]);
                    assert(!match_named_ok(nv, rv[i as int]));
                }
                return None;
            }
            let cap = Capture {
                name: names[k as usize].clone(),
                range: ByteRange { start, end },
            };
            let ghost before = named@.map_values(|c: Capture| c@);
            named.push(cap);
            proof {
                assert(cap@ == name_capture(nv, caps@[j as int]));
                assert(named@.map_values(|c: Capture| c@) =~= before.push(cap@));
                assert(caps@.take(j + 1).map_values(|c: (u32, core::ops::Range<usize>)| name_capture(nv, c))
                    =~= caps@.take(j as int).map_values(|c: (u32, core::ops::Range<usize>)| name_capture(nv, c)).push(
                    name_capture(nv, caps@[j as int]),
                ));
            }
            j = j + 1;
        }
        let qm = QueryMatch { pattern_index: *p, captures: named };
        let ghost before = match_views(out@);
        out.push(qm);
        proof {
            assert(caps@.take(m as int) =~= caps@);
            assert(qm@ == named_match(nv, rv[i as int]));
            assert(match_views(out@) =~= before.push(qm@));
            assert(rv.take(i + 1).map_values(|x: (usize, Seq<(u32, core::ops::Range<usize>)>)| named_match(nv, x))
                =~= rv.take(i as int).map_values(
                |x: (usize, Seq<(u32, core::ops::Range<usize>)>)| named_match(nv, x),
            ).push(named_match(nv, rv[i as int])));
            assert(match_named_ok(nv, rv[i as int]));
        }
        i = i + 1;
    }
    proof {
        assert(rv.take(n as int) =~= rv);
    }
    Some(out)
}

/// The matches of the symbol query with source `query` over the syntax tree
/// of the text, their captures named; `None` where the query does not compile.
fn matches_of(query: &str, text: &Rope) -> (r: Option<Vec<QueryMatch>>)
    ensures
        matches_view(r) == symbol_matches(query@, rope_chars(*text)),
{
    match run_query(query, whole_text(text).as_str()) {
        Some((names, raw)) => name_captures(&names, &raw),
        None => None,
    }
}

/// The nodes of the tree `tree_sitter::Parser::parse` gives of the text with
/// the SystemVerilog grammar, as `tree_sitter::Node::child` reaches them from
/// the root, the last pushed node taken first. Assumed: the result is a
/// function of the text alone.
#[verifier::external_body]
fn nodes_of(source: &str) -> (r: Vec<SyntaxNode>)
    ensures
        node_views(r@) == syntax_nodes(source@),
{
    let mut parser = Parser::new();
    let mut out = Vec::new();
    let tree = match parser.set_language(&LANGUAGE.into()) {
        Ok(()) => parser.parse(source, None),
        Err(_) => None,
    };
    let mut stack: Vec<tree_sitter::Node> = tree.iter().map(|t| t.root_node()).collect();
    while let Some(node) = stack.pop() {
        out.push(SyntaxNode { kind: node.kind().to_string(), range: ByteRange { start: node.start_byte(), end: node.end_byte() } });
        stack.extend((0..node.child_count()).filter_map(|i| node.child(i as u32)));
    }
    out
}

/// `tree_sitter::Node::named_descendant_for_byte_range` at byte `b` of the
/// tree `tree_sitter::Parser::parse` gives of the text with the SystemVerilog
/// grammar: the kind of that node's parent. Assumed: the result is a function
/// of the text and the byte alone.
#[verifier::external_body]
fn parent_kind(source: &str, b: usize) -> (r: Option<String>)
    ensures
        string_view(r) == parent_kind_at(source@, b),
{
    let mut parser = Parser::new();
    parser.set_language(&LANGUAGE.into()).ok()?;
    let tree = parser.parse(source, None)?;
    let node = tree.root_node().named_descendant_for_byte_range(b, b)?;
    Some(node.parent()?.kind().to_string())
}

/// The whole text of a rope as a string.
fn whole_text(text: &Rope) -> (t: String)
    ensures
        t@ == rope_chars(*text),
{
    let t = slice_to_string(&rope_slice(text, 0, rope_len_chars(text)));
    proof {
        assert(rope_chars(*text).subrange(0, rope_chars(*text).len() as int) =~= rope_chars(*text));
    }
    t
}

/// The symbols the matches `ms` give a text, `None` where they cannot be
/// indexed.
pub open spec fn index_outcome(s: Seq<char>, ms: Seq<MatchView>) -> Option<Seq<Symbol>> {
    if index_ok(s, ms) {
        Some(index_state(s, ms, ms.len() as int).symbols)
    } else {
        None
    }
}

/// A list of symbols, if any, as a sequence.
pub open spec fn symbols_view(r: Option<Vec<Symbol>>) -> Option<Seq<Symbol>> {
    match r {
        Some(v) => Some(v@),
        None => None,
    }
}

/// The symbols of a text found with the symbol query `query`: `None` where
/// the query does not compile or its matches cannot be indexed.
pub open spec fn text_symbols(query: Seq<char>, s: Seq<char>) -> Option<Seq<Symbol>> {
    match symbol_matches(query, s) {
        Some(ms) => index_outcome(s, ms),
        None => None,
    }
}

/// The symbols of a document: the symbols `index` builds from the matches of
/// the symbol query with source `query` over the document's syntax tree;
/// `None` where the query does not compile or its matches cannot be indexed.
pub fn index_text(text: &Rope, query: &str) -> (r: Option<Vec<Symbol>>)
    ensures
        symbols_view(r) == text_symbols(query@, rope_chars(*text)),
{
    let matches = match matches_of(query, text) {
        Some(m) => m,
        None => {
            return None;
        },
    };
    try_index(text, &matches)
}

/// Every node's range is a valid range of the text.
pub open spec fn nodes_in_text(s: Seq<char>, nodes: Seq<NodeView>) -> bool {
    forall|j: int| 0 <= j < nodes.len() ==> range_ok(s, (#[trigger] nodes[j]).range)
}

/// Some node is an identifier node with the text `token`.
pub open spec fn any_highlight(s: Seq<char>, nodes: Seq<NodeView>, token: Seq<char>) -> bool {
    exists|j: int| 0 <= j < nodes.len() && is_highlight(s, #[trigger] nodes[j], token)
}

/// The highlights of the identifier under the cursor at `pos` among the
/// nodes: the ranges of the identifier nodes with its text, in their order;
/// `None` where a node's range does not lie in the text, or where the text is
/// empty and yet such a node exists (an empty text has no position to give
/// it).
pub open spec fn highlight_outcome(s: Seq<char>, pos: Position, nodes: Seq<NodeView>) -> Option<
    Seq<Range>,
> {
    if nodes_in_text(s, nodes) && (utf8_len(s) > 0 || !any_highlight(s, nodes, cursor_token(s, pos))) {
        Some(highlight_ranges(s, nodes, cursor_token(s, pos), nodes.len() as int))
    } else {
        None
    }
}

/// A list of ranges, if any, as a sequence.
pub open spec fn ranges_view(r: Option<Vec<Range>>) -> Option<Seq<Range>> {
    match r {
        Some(v) => Some(v@),
        None => None,
    }
}

/// Whether every node's range is a valid range of the text.
fn nodes_in_bounds(text: &Rope, nodes: &Vec<SyntaxNode>) -> (b: bool)
    ensures
        b == nodes_in_text(rope_chars(*text), node_views(nodes@)),
{
    let n = nodes.len();
    let mut k: usize = 0;
    while k < n
        invariant
            n == nodes@.len(),
            0 <= k <= n,
            forall|j: int|
                0 <= j < k ==> range_ok(rope_chars(*text), (#[trigger] node_views(nodes@)[j]).range),
        decreases n - k,
    {
        assert(node_views(nodes@)[k as int] == nodes@[k as int]@);
        if !range_in_bounds(text, nodes[k].range) {
            assert(!range_ok(rope_chars(*text), node_views(nodes@)[k as int].range));
            return false;
        }
        k = k + 1;
    }
    true
}

/// Whether some node is an identifier node with the text `token`.
fn has_highlight(text: &Rope, nodes: &Vec<SyntaxNode>, token: &str) -> (b: bool)
    requires
        nodes_in_text(rope_chars(*text), node_views(nodes@)),
    ensures
        b == any_highlight(rope_chars(*text), node_views(nodes@), token@),
{
    let n = nodes.len();
    let mut k: usize = 0;
    while k < n
        invariant
            n == nodes@.len(),
            0 <= k <= n,
            nodes_in_text(rope_chars(*text), node_views(nodes@)),
            forall|j: int|
                0 <= j < k ==> !is_highlight(rope_chars(*text), #[trigger] node_views(nodes@)[j], token@),
        decreases n - k,
    {
        assert(node_views(nodes@)[k as int] == nodes@[k as int]@);
        assert(range_ok(rope_chars(*text), node_views(nodes@)[k as int].range));
        if str_eq(nodes[k].kind.as_str(), "simple_identifier") && range_eq(text, nodes[k].range, token) {
            proof {
                assert(is_highlight(rope_chars(*text), node_views(nodes@)[k as int], token@));
            }
            return true;
        }
        k = k + 1;
    }
    false
}

/// The highlights of the identifier under the cursor at `pos`: the ranges of
/// the identifier nodes of the document's syntax tree with its text, in walk
/// order (none in an empty text without such nodes); `None` where a node's
/// range does not lie in the text, or where an empty text has such a node.
pub fn highlights_at(text: &Rope, pos: Position) -> (r: Option<Vec<Range>>)
    requires
        pos_valid(rope_chars(*text), pos),
    ensures
        ranges_view(r) == highlight_outcome(rope_chars(*text), pos, syntax_nodes(rope_chars(*text))),
{
    let token = get_definition_token(rope_line(text, pos.line as usize), pos);
    let nodes = nodes_of(whole_text(text).as_str());
    if !nodes_in_bounds(text, &nodes) {
        return None;
    }
    if rope_len_bytes(text) == 0 && has_highlight(text, &nodes, token.as_str()) {
        return None;
    }
    proof {
        assert forall|j: int|
            0 <= j < nodes@.len() implies range_ok(rope_chars(*text), (#[trigger] nodes@[j]).range) by {
            assert(node_views(nodes@)[j] == nodes@[j]@);
        }
    }
    let h = document_highlight(text, &nodes, token.as_str());
    Some(h)
}

/// The cursor at `pos` is on the port name of a named port connection: the
/// smallest named node there is a child of a `named_port_connection` node.
pub open spec fn named_port_at(s: Seq<char>, pos: Position) -> bool {
    parent_kind_at(s, pos_byte(s, pos) as usize) == Some("named_port_connection"@)
}

/// Whether the cursor at `pos` is on the port name of a named port connection.
fn on_named_port(text: &Rope, pos: Position) -> (b: bool)
    requires
        pos_valid(rope_chars(*text), pos),
    ensures
        b == named_port_at(rope_chars(*text), pos),
{
    let byte = text.pos_to_byte(&pos);
    match parent_kind(whole_text(text).as_str(), byte) {
        Some(kind) => {
            proof {
                reveal_strlit("named_port_connection");
            }
            str_eq(kind.as_str(), "named_port_connection")
        },
        None => false,
    }
}

/// Answers a go-to-definition request at `pos` of document `uri`: `None`
/// where the document is not open, otherwise the definitions of the
/// identifier under the cursor, judged as on a named port connection or not
/// as the document's syntax tree says.
pub fn definitions_in(files: &Vec<Index>, uri: usize, pos: Position) -> (r: Option<
    Vec<(usize, Range)>,
>)
    requires
        files_wf(files@),
        files_nonempty(files@),
        uri < files@.len() ==> pos_valid(rope_chars(files@[uri as int].text), pos),
    ensures
        uri >= files@.len() ==> r is None,
        uri < files@.len() ==> (r matches Some(defs) && defs@ == definitions_at(
            files@,
            uri,
            pos,
            named_port_at(rope_chars(files@[uri as int].text), pos),
        )),
{
    if uri >= files.len() {
        return None;
    }
    let named_port = on_named_port(&files[uri].text, pos);
    crate::navigation::goto_definition(files, uri, pos, named_port)
}

/// The hover text for the identifier under the cursor: the hover text of the
/// first definition's line, read from the document the definition is in;
/// `None` where there is no definition or that line is not in that document.
pub open spec fn hover_answer(files: Seq<Index>, uri: usize, pos: Position) -> Option<Seq<char>> {
    let named_port = named_port_at(rope_chars(files[uri as int].text), pos);
    let defs = definitions_at(files, uri, pos, named_port);
    if defs.len() == 0 {
        None
    } else {
        let s = rope_chars(files[defs[0].0 as int].text);
        if defs[0].1.start.line >= line_count(s) {
            None
        } else {
            Some(hover_text(s, defs[0].1.start.line as int))
        }
    }
}

/// Answers a hover request at `pos` of document `uri`: `None` where the
/// document is not open, the identifier under the cursor has no definition,
/// or the first definition's line is not in the document it is in;
/// otherwise the hover text of that line of that document.
pub fn hover_in(files: &Vec<Index>, uri: usize, pos: Position) -> (r: Option<String>)
    requires
        files_wf(files@),
        files_nonempty(files@),
        uri < files@.len() ==> pos_valid(rope_chars(files@[uri as int].text), pos),
    ensures
        uri >= files@.len() ==> r is None,
        uri < files@.len() ==> string_view(r) == hover_answer(files@, uri, pos),
{
    if uri >= files.len() {
        return None;
    }
    let text = &files[uri].text;
    let named_port = on_named_port(text, pos);
    let token = get_definition_token(rope_line(text, pos.line as usize), pos);
    let defs = get_definition(files, uri, token.as_str(), pos, named_port);
    if defs.len() == 0 {
        return None;
    }
    let (def_file, def_range) = defs[0];
    proof {
        assert(defs@[0] == (def_file, def_range));
    }
    let def_text = &files[def_file].text;
    if def_range.start.line as usize >= rope_len_lines(def_text) {
        return None;
    }
    Some(get_hover(def_text, def_range.start.line as usize))
}

} // verus!
