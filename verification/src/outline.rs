//! The document outline (symbols nested by scope) and the highlights of an identifier.
use crate::lookup::{range_chars, range_eq, range_ok, spec_byte_range_to_range};
use crate::position::{LSPSupport, Range};
use crate::rope::rope_chars;
use crate::strings::str_eq;
use crate::symbol::{ByteRange, Symbol};
use crate::text::utf8_len;
use ropey::Rope;
use vstd::prelude::*;

verus! {

/// One step of nesting: symbol `.0` is complete and becomes a child of symbol
/// `.1`, or a top-level symbol when `.1` is `None`.
pub type Attach = (usize, Option<usize>);

/// The entry below the top of the stack, once the top is removed.
pub open spec fn below(stack: Seq<usize>) -> Option<usize> {
    if stack.len() > 0 {
        Some(stack.last())
    } else {
        None
    }
}

/// `syms[t]` has a scope that holds byte `start`.
pub open spec fn holds(syms: Seq<Symbol>, t: int, start: int) -> bool {
    syms[t].scope_node is Some && syms[t].scope_node.unwrap().spec_contains(start)
}

/// Closes every open symbol whose scope does not hold byte `start`.
pub open spec fn close_until(
    syms: Seq<Symbol>,
    stack: Seq<usize>,
    ev: Seq<Attach>,
    start: int,
) -> (Seq<usize>, Seq<Attach>)
    decreases stack.len(),
{
    if stack.len() == 0 || holds(syms, stack.last() as int, start) {
        (stack, ev)
    } else {
        let rest = stack.drop_last();
        close_until(syms, rest, ev.push((stack.last(), below(rest))), start)
    }
}

/// Closes every open symbol.
pub open spec fn close_all(stack: Seq<usize>, ev: Seq<Attach>) -> Seq<Attach>
    decreases stack.len(),
{
    if stack.len() == 0 {
        ev
    } else {
        let rest = stack.drop_last();
        close_all(rest, ev.push((stack.last(), below(rest))))
    }
}

/// The open symbols and nesting steps after the first `i` symbols.
pub open spec fn outline_state(syms: Seq<Symbol>, i: int) -> (Seq<usize>, Seq<Attach>)
    decreases i,
{
    if i <= 0 {
        (Seq::empty(), Seq::empty())
    } else {
        let prev = outline_state(syms, i - 1);
        let closed = close_until(syms, prev.0, prev.1, syms[i - 1].ident_node.start as int);
        (closed.0.push((i - 1) as usize), closed.1)
    }
}

/// The nesting steps of the whole outline.
pub open spec fn outline(syms: Seq<Symbol>) -> Seq<Attach> {
    let st = outline_state(syms, syms.len() as int);
    close_all(st.0, st.1)
}

/// Open symbols are listed in increasing order, each below `bound`, and each
/// one's scope holds the start of the one above it.
pub open spec fn stack_nested(syms: Seq<Symbol>, stack: Seq<usize>, bound: int) -> bool {
    &&& forall|j: int| 0 <= j < stack.len() ==> #[trigger] stack[j] < bound
    &&& forall|j: int|
        0 < j < stack.len() ==> stack[j - 1] < stack[j] && holds(
            syms,
            stack[j - 1] as int,
            syms[#[trigger] stack[j] as int].ident_node.start as int,
        )
}

/// A nesting step puts a symbol under an earlier symbol whose scope holds it.
pub open spec fn attach_ok(syms: Seq<Symbol>, a: Attach) -> bool {
    &&& a.0 < syms.len()
    &&& a.1 matches Some(p) ==> p < a.0 && holds(syms, p as int, syms[a.0 as int].ident_node.start as int)
}

/// Every nesting step is sound.
pub open spec fn attaches_ok(syms: Seq<Symbol>, ev: Seq<Attach>) -> bool {
    forall|j: int| 0 <= j < ev.len() ==> attach_ok(syms, #[trigger] ev[j])
}

/// Every index below `i` is open or completed exactly once: the open ones and
/// the completed ones are `i` in number, all below `i`, and none repeats.
pub open spec fn each_once(st: Seq<usize>, ev: Seq<Attach>, i: int) -> bool {
    &&& st.len() + ev.len() == i
    &&& forall|a: int| 0 <= a < st.len() ==> #[trigger] st[a] < i
    &&& forall|b: int| 0 <= b < ev.len() ==> (#[trigger] ev[b]).0 < i
    &&& forall|a1: int, a2: int| 0 <= a1 < a2 < st.len() ==> #[trigger] st[a1] != #[trigger] st[a2]
    &&& forall|b1: int, b2: int|
        0 <= b1 < b2 < ev.len() ==> (#[trigger] ev[b1]).0 != (#[trigger] ev[b2]).0
    &&& forall|a: int, b: int|
        0 <= a < st.len() && 0 <= b < ev.len() ==> #[trigger] st[a] != (#[trigger] ev[b]).0
}

/// Completing the top open symbol keeps every index once.
proof fn lemma_close_top_once(st: Seq<usize>, ev: Seq<Attach>, i: int)
    requires
        each_once(st, ev, i),
        st.len() > 0,
    ensures
        each_once(st.drop_last(), ev.push((st.last(), below(st.drop_last()))), i),
{
    let st2 = st.drop_last();
    let ev2 = ev.push((st.last(), below(st2)));
    let m = st.len() - 1;
    assert forall|a: int, b: int| 0 <= a < st2.len() && 0 <= b < ev2.len() implies #[trigger] st2[a]
        != (#[trigger] ev2[b]).0 by {
        assert(st2[a] == st[a]);
        if b < ev.len() {
            assert(ev2[b] == ev[b]);
        } else {
            assert(st[a] != st[m]);
        }
    }
    assert forall|b1: int, b2: int| 0 <= b1 < b2 < ev2.len() implies (#[trigger] ev2[b1]).0 != (
    #[trigger] ev2[b2]).0 by {
        assert(ev2[b1] == ev[b1]);
        if b2 < ev.len() {
            assert(ev2[b2] == ev[b2]);
        } else {
            assert(st[m] != ev[b1].0);
        }
    }
    assert forall|a1: int, a2: int| 0 <= a1 < a2 < st2.len() implies #[trigger] st2[a1]
        != #[trigger] st2[a2] by {
        assert(st2[a1] == st[a1] && st2[a2] == st[a2]);
    }
    assert forall|a: int| 0 <= a < st2.len() implies #[trigger] st2[a] < i by {
        assert(st2[a] == st[a]);
    }
    assert forall|b: int| 0 <= b < ev2.len() implies (#[trigger] ev2[b]).0 < i by {
        if b < ev.len() {
            assert(ev2[b] == ev[b]);
        }
    }
}

/// Closing symbols until one holds `start` keeps every index once.
proof fn lemma_close_until_once(syms: Seq<Symbol>, st: Seq<usize>, ev: Seq<Attach>, start: int, i: int)
    requires
        each_once(st, ev, i),
    ensures
        each_once(close_until(syms, st, ev, start).0, close_until(syms, st, ev, start).1, i),
    decreases st.len(),
{
    if !(st.len() == 0 || holds(syms, st.last() as int, start)) {
        lemma_close_top_once(st, ev, i);
        lemma_close_until_once(syms, st.drop_last(), ev.push((st.last(), below(st.drop_last()))), start, i);
    }
}

/// Closing every symbol keeps every index once.
proof fn lemma_close_all_once(st: Seq<usize>, ev: Seq<Attach>, i: int)
    requires
        each_once(st, ev, i),
    ensures
        each_once(Seq::empty(), close_all(st, ev), i),
    decreases st.len(),
{
    if st.len() > 0 {
        lemma_close_top_once(st, ev, i);
        lemma_close_all_once(st.drop_last(), ev.push((st.last(), below(st.drop_last()))), i);
    } else {
        assert(st =~= Seq::<usize>::empty());
    }
}

/// After the first `i` symbols, every index below `i` is open or completed once.
proof fn lemma_outline_state_once(syms: Seq<Symbol>, i: int)
    requires
        0 <= i <= syms.len(),
        syms.len() <= usize::MAX,
    ensures
        each_once(outline_state(syms, i).0, outline_state(syms, i).1, i),
    decreases i,
{
    if i > 0 {
        lemma_outline_state_once(syms, i - 1);
        let prev = outline_state(syms, i - 1);
        let start = syms[i - 1].ident_node.start as int;
        lemma_close_until_once(syms, prev.0, prev.1, start, i - 1);
        let c = close_until(syms, prev.0, prev.1, start);
        let st = c.0.push((i - 1) as usize);
        assert(st[st.len() - 1] == i - 1);
        assert forall|a: int| 0 <= a < st.len() implies #[trigger] st[a] < i by {
            if a < c.0.len() {
                assert(st[a] == c.0[a]);
            }
        }
        assert forall|a1: int, a2: int| 0 <= a1 < a2 < st.len() implies #[trigger] st[a1]
            != #[trigger] st[a2] by {
            assert(st[a1] == c.0[a1]);
            if a2 < c.0.len() {
                assert(st[a2] == c.0[a2]);
            }
        }
        assert forall|a: int, b: int| 0 <= a < st.len() && 0 <= b < c.1.len() implies #[trigger] st[a]
            != (#[trigger] c.1[b]).0 by {
            if a < c.0.len() {
                assert(st[a] == c.0[a]);
            }
        }
    }
}

/// The outline completes and nests every symbol exactly once: it has one
/// step per symbol, and no symbol is completed twice.
pub proof fn law_outline_each_symbol_once(syms: Seq<Symbol>)
    requires
        syms.len() <= usize::MAX,
    ensures
        outline(syms).len() == syms.len(),
        forall|a: int| 0 <= a < outline(syms).len() ==> (#[trigger] outline(syms)[a]).0 < syms.len(),
        forall|a: int, b: int|
            0 <= a < b < outline(syms).len() ==> (#[trigger] outline(syms)[a]).0 != (
            #[trigger] outline(syms)[b]).0,
{
    let n = syms.len() as int;
    lemma_outline_state_once(syms, n);
    let st = outline_state(syms, n);
    lemma_close_all_once(st.0, st.1, n);
}

/// Steps that nest symbols under the same symbol, or at the top level, come
/// in symbol order.
pub open spec fn siblings_ordered(ev: Seq<Attach>) -> bool {
    forall|a: int, b: int|
        0 <= a < b < ev.len() && (#[trigger] ev[a]).1 == (#[trigger] ev[b]).1 ==> ev[a].0 < ev[b].0
}

/// Open symbols are listed in increasing order.
spec fn increasing(st: Seq<usize>) -> bool {
    forall|a: int, b: int| 0 <= a < b < st.len() ==> #[trigger] st[a] < #[trigger] st[b]
}

/// Every symbol already nested under an open symbol precedes the open symbol
/// above it, and every top-level symbol precedes the lowest open symbol.
spec fn nested_before_open(st: Seq<usize>, ev: Seq<Attach>) -> bool {
    &&& forall|b: int, k: int|
        0 <= b < ev.len() && 0 <= k && k + 1 < st.len() && (#[trigger] ev[b]).1 == Some(
            #[trigger] st[k],
        ) ==> ev[b].0 < st[k + 1]
    &&& forall|b: int| 0 <= b < ev.len() && (#[trigger] ev[b]).1 is None && st.len() > 0 ==> ev[b].0 < st[0]
}

proof fn lemma_close_top_ordered(st: Seq<usize>, ev: Seq<Attach>)
    requires
        st.len() > 0,
        increasing(st),
        siblings_ordered(ev),
        nested_before_open(st, ev),
    ensures
        increasing(st.drop_last()),
        siblings_ordered(ev.push((st.last(), below(st.drop_last())))),
        nested_before_open(st.drop_last(), ev.push((st.last(), below(st.drop_last())))),
{
    let st2 = st.drop_last();
    let e = (st.last(), below(st2));
    let ev2 = ev.push(e);
    let m = st.len() - 1;
    assert(st.last() == st[m]);
    assert forall|a: int, b: int| 0 <= a < b < st2.len() implies #[trigger] st2[a] < #[trigger] st2[b] by {
        assert(st2[a] == st[a] && st2[b] == st[b]);
    }
    assert forall|a: int, b: int|
        0 <= a < b < ev2.len() && (#[trigger] ev2[a]).1 == (#[trigger] ev2[b]).1 implies ev2[a].0
        < ev2[b].0 by {
        assert(ev2[a] == ev[a]);
        if b < ev.len() {
            assert(ev2[b] == ev[b]);
        } else {
            assert(ev2[b] == e);
            if st2.len() > 0 {
                assert(st2.last() == st[m - 1]);
                assert(ev[a].1 == Some(st[m - 1]));
            } else {
                assert(ev[a].1 is None);
            }
        }
    }
    assert forall|b: int, k: int|
        0 <= b < ev2.len() && 0 <= k && k + 1 < st2.len() && (#[trigger] ev2[b]).1 == Some(
            #[trigger] st2[k],
        ) implies ev2[b].0 < st2[k + 1] by {
        assert(st2[k] == st[k] && st2[k + 1] == st[k + 1]);
        if b < ev.len() {
            assert(ev2[b] == ev[b]);
        } else {
            assert(ev2[b] == e);
            assert(st2.last() == st[m - 1]);
            assert(st[k] < st[m - 1]);
        }
    }
    assert forall|b: int| 0 <= b < ev2.len() && (#[trigger] ev2[b]).1 is None && st2.len() > 0 implies ev2[b].0
        < st2[0] by {
        assert(st2[0] == st[0]);
        if b < ev.len() {
            assert(ev2[b] == ev[b]);
        } else {
            assert(ev2[b] == e);
        }
    }
}

proof fn lemma_close_until_ordered(syms: Seq<Symbol>, st: Seq<usize>, ev: Seq<Attach>, start: int)
    requires
        increasing(st),
        siblings_ordered(ev),
        nested_before_open(st, ev),
    ensures
        increasing(close_until(syms, st, ev, start).0),
        siblings_ordered(close_until(syms, st, ev, start).1),
        nested_before_open(close_until(syms, st, ev, start).0, close_until(syms, st, ev, start).1),
    decreases st.len(),
{
    if !(st.len() == 0 || holds(syms, st.last() as int, start)) {
        lemma_close_top_ordered(st, ev);
        lemma_close_until_ordered(syms, st.drop_last(), ev.push((st.last(), below(st.drop_last()))), start);
    }
}

proof fn lemma_close_all_ordered(st: Seq<usize>, ev: Seq<Attach>)
    requires
        increasing(st),
        siblings_ordered(ev),
        nested_before_open(st, ev),
    ensures
        siblings_ordered(close_all(st, ev)),
    decreases st.len(),
{
    if st.len() > 0 {
        lemma_close_top_ordered(st, ev);
        lemma_close_all_ordered(st.drop_last(), ev.push((st.last(), below(st.drop_last()))));
    }
}

proof fn lemma_outline_state_ordered(syms: Seq<Symbol>, i: int)
    requires
        0 <= i <= syms.len(),
        syms.len() <= usize::MAX,
    ensures
        increasing(outline_state(syms, i).0),
        siblings_ordered(outline_state(syms, i).1),
        nested_before_open(outline_state(syms, i).0, outline_state(syms, i).1),
    decreases i,
{
    if i > 0 {
        lemma_outline_state_ordered(syms, i - 1);
        lemma_outline_state_once(syms, i - 1);
        let prev = outline_state(syms, i - 1);
        let start = syms[i - 1].ident_node.start as int;
        lemma_close_until_once(syms, prev.0, prev.1, start, i - 1);
        lemma_close_until_ordered(syms, prev.0, prev.1, start);
        let c = close_until(syms, prev.0, prev.1, start);
        let st = c.0.push((i - 1) as usize);
        assert forall|a: int, b: int| 0 <= a < b < st.len() implies #[trigger] st[a] < #[trigger] st[b] by {
            assert(st[a] == c.0[a]);
            if b < c.0.len() {
                assert(st[b] == c.0[b]);
            }
        }
        assert forall|b: int, k: int|
            0 <= b < c.1.len() && 0 <= k && k + 1 < st.len() && (#[trigger] c.1[b]).1 == Some(
                #[trigger] st[k],
            ) implies c.1[b].0 < st[k + 1] by {
            assert(st[k] == c.0[k]);
            if k + 1 < c.0.len() {
                assert(st[k + 1] == c.0[k + 1]);
            }
        }
        assert forall|b: int| 0 <= b < c.1.len() && (#[trigger] c.1[b]).1 is None && st.len() > 0 implies c.1[b].0
            < st[0] by {
            if c.0.len() > 0 {
                assert(st[0] == c.0[0]);
            }
        }
    }
}

/// The outline keeps document order among siblings: symbols nested under the
/// same symbol, and the top-level symbols, are completed in symbol order.
pub proof fn law_outline_keeps_sibling_order(syms: Seq<Symbol>)
    requires
        syms.len() <= usize::MAX,
    ensures
        forall|a: int, b: int|
            0 <= a < b < outline(syms).len() && (#[trigger] outline(syms)[a]).1 == (
            #[trigger] outline(syms)[b]).1 ==> outline(syms)[a].0 < outline(syms)[b].0,
{
    let n = syms.len() as int;
    lemma_outline_state_ordered(syms, n);
    let st = outline_state(syms, n);
    lemma_close_all_ordered(st.0, st.1);
}

/// Closes the top open symbol, recording where it nests.
fn close_top(stack: &mut Vec<usize>, events: &mut Vec<Attach>)
    requires
        old(stack)@.len() > 0,
    ensures
        final(stack)@ == old(stack)@.drop_last(),
        final(events)@ == old(events)@.push((old(stack)@.last(), below(old(stack)@.drop_last()))),
{
    let t = stack.pop().unwrap();
    let n = stack.len();
    let parent = if n > 0 {
        Some(stack[n - 1])
    } else {
        None
    };
    events.push((t, parent));
}

/// The outline of a document's symbols, as the order in which each symbol is
/// completed and nested: a symbol nests under the nearest open symbol whose
/// scope holds its identifier, and top-level symbols nest under none.
#[verifier::spinoff_prover]
pub fn document_symbol(syms: &Vec<Symbol>) -> (events: Vec<Attach>)
    ensures
        events@ == outline(syms@),
        attaches_ok(syms@, events@),
{
    let mut stack: Vec<usize> = Vec::new();
    let mut events: Vec<Attach> = Vec::new();
    let n = syms.len();
    let mut i: usize = 0;
    while i < n
        invariant
            n == syms@.len(),
            0 <= i <= n,
            (stack@, events@) == outline_state(syms@, i as int),
            stack_nested(syms@, stack@, i as int),
            attaches_ok(syms@, events@),
        decreases n - i,
    {
        let start = syms[i].ident_node.start;
        let ghost st0 = (stack@, events@);
        // Clean up the stack: pop until current symbol fits in the scope
        let mut fits = false;
        while !fits && stack.len() > 0
            invariant
                n == syms@.len(),
                0 <= i < n,
                start == syms@[i as int].ident_node.start,
                close_until(syms@, stack@, events@, start as int) == close_until(
                    syms@,
                    st0.0,
                    st0.1,
                    start as int,
                ),
                fits ==> stack@.len() > 0 && holds(syms@, stack@.last() as int, start as int),
                stack_nested(syms@, stack@, i as int),
                attaches_ok(syms@, events@),
            decreases stack@.len(), if fits { 0int } else { 1int },
        {
            let t = stack[stack.len() - 1];
            if let Some(scope) = syms[t].scope_node {
                if scope.contains(start) {
                    fits = true;
                }
            }
            if !fits {
                let ghost before = stack@;
                close_top(&mut stack, &mut events);
                proof {
                    let m = before.len() as int;
                    if m > 1 {
                        assert(before[m - 1] == before.last());
                        assert(holds(syms@, before[m - 2] as int, syms@[before[m - 1] as int].ident_node.start as int));
                    }
                }
            }
        }
        proof {
            if stack@.len() > 0 {
                assert(holds(syms@, stack@.last() as int, start as int));
            }
        }
        stack.push(i);
        i = i + 1;
    }
    // Flush remaining stack
    let ghost st = (stack@, events@);
    while stack.len() > 0
        invariant
            n == syms@.len(),
            close_all(stack@, events@) == close_all(st.0, st.1),
            stack_nested(syms@, stack@, n as int),
            attaches_ok(syms@, events@),
        decreases stack@.len(),
    {
        let ghost before = stack@;
        close_top(&mut stack, &mut events);
        proof {
            let m = before.len() as int;
            if m > 1 {
                assert(before[m - 1] == before.last());
                assert(holds(syms@, before[m - 2] as int, syms@[before[m - 1] as int].ident_node.start as int));
            }
        }
    }
    events
}

/// A node of the syntax tree: its kind and byte range.
#[derive(Clone, Debug)]
pub struct SyntaxNode {
    pub kind: String,
    pub range: ByteRange,
}

/// A node with its kind taken as chars.
pub struct NodeView {
    pub kind: Seq<char>,
    pub range: ByteRange,
}

impl View for SyntaxNode {
    type V = NodeView;

    open spec fn view(&self) -> NodeView {
        NodeView { kind: self.kind@, range: self.range }
    }
}

/// The views of a list of nodes.
pub open spec fn node_views(nodes: Seq<SyntaxNode>) -> Seq<NodeView> {
    nodes.map_values(|n: SyntaxNode| n@)
}

/// The node is an identifier whose text is `token`.
pub open spec fn is_highlight(s: Seq<char>, node: NodeView, token: Seq<char>) -> bool {
    node.kind == "simple_identifier"@ && range_chars(s, node.range) == token
}

/// The ranges of the identifier nodes among `nodes` whose text is `token`.
pub open spec fn highlight_ranges(s: Seq<char>, nodes: Seq<NodeView>, token: Seq<char>, k: int) -> Seq<
    Range,
>
    decreases k,
{
    if k <= 0 {
        Seq::empty()
    } else {
        let prev = highlight_ranges(s, nodes, token, k - 1);
        if is_highlight(s, nodes[k - 1], token) {
            prev.push(spec_byte_range_to_range(s, nodes[k - 1].range))
        } else {
            prev
        }
    }
}

/// The highlights of `token`: the range of every identifier node, in the order
/// the nodes are given, whose text is `token`.
pub fn document_highlight(text: &Rope, nodes: &Vec<SyntaxNode>, token: &str) -> (highlights: Vec<
    Range,
>)
    requires
        forall|j: int|
            0 <= j < nodes@.len() ==> range_ok(rope_chars(*text), (#[trigger] nodes@[j]).range),
        forall|j: int|
            0 <= j < nodes@.len() && is_highlight(rope_chars(*text), #[trigger] node_views(nodes@)[j], token@)
                ==> utf8_len(rope_chars(*text)) > 0,
    ensures
        highlights@ == highlight_ranges(
            rope_chars(*text),
            node_views(nodes@),
            token@,
            nodes@.len() as int,
        ),
{
    let mut highlights: Vec<Range> = Vec::new();
    let n = nodes.len();
    let mut k: usize = 0;
    while k < n
        invariant
            n == nodes@.len(),
            0 <= k <= n,
            forall|j: int|
                0 <= j < nodes@.len() ==> range_ok(rope_chars(*text), (#[trigger] nodes@[j]).range),
            forall|j: int|
                0 <= j < nodes@.len() && is_highlight(
                    rope_chars(*text),
                    #[trigger] node_views(nodes@)[j],
                    token@,
                ) ==> utf8_len(rope_chars(*text)) > 0,
            highlights@ == highlight_ranges(rope_chars(*text), node_views(nodes@), token@, k as int),
        decreases n - k,
    {
        let node = &nodes[k];
        proof {
            assert(range_ok(rope_chars(*text), nodes@[k as int].range));
            assert(node_views(nodes@)[k as int] == node@);
        }
        if str_eq(node.kind.as_str(), "simple_identifier") && range_eq(text, node.range, token) {
            proof {
                assert(is_highlight(rope_chars(*text), node_views(nodes@)[k as int], token@));
            }
            highlights.push(text.byte_range_to_range(node.range));
        }
        k = k + 1;
    }
    highlights
}


/// `r` is the range of one of the first `k` nodes that is an identifier whose
/// text is exactly `token`.
pub open spec fn range_of_exact_identifier(
    s: Seq<char>,
    nodes: Seq<NodeView>,
    token: Seq<char>,
    k: int,
    r: Range,
) -> bool {
    exists|n: int|
        0 <= n < k && (#[trigger] nodes[n]).kind == "simple_identifier"@ && range_chars(s, nodes[n].range)
            == token && r == spec_byte_range_to_range(s, nodes[n].range)
}

/// `r` is one of the ranges in `rs`.
pub open spec fn listed(rs: Seq<Range>, r: Range) -> bool {
    exists|j: int| 0 <= j < rs.len() && #[trigger] rs[j] == r
}

proof fn lemma_highlights_exact(s: Seq<char>, nodes: Seq<NodeView>, token: Seq<char>, k: int)
    requires
        0 <= k <= nodes.len(),
    ensures
        forall|j: int|
            0 <= j < highlight_ranges(s, nodes, token, k).len() ==> range_of_exact_identifier(
                s,
                nodes,
                token,
                k,
                #[trigger] highlight_ranges(s, nodes, token, k)[j],
            ),
        forall|n: int|
            0 <= n < k && (#[trigger] nodes[n]).kind == "simple_identifier"@ && range_chars(
                s,
                nodes[n].range,
            ) == token ==> listed(highlight_ranges(s, nodes, token, k), spec_byte_range_to_range(s, nodes[n].range)),
    decreases k,
{
    if k > 0 {
        lemma_highlights_exact(s, nodes, token, k - 1);
        let prev = highlight_ranges(s, nodes, token, k - 1);
        let cur = highlight_ranges(s, nodes, token, k);
        assert forall|j: int| 0 <= j < cur.len() implies range_of_exact_identifier(
            s,
            nodes,
            token,
            k,
            #[trigger] cur[j],
        ) by {
            if j < prev.len() {
                assert(cur[j] == prev[j]);
                assert(range_of_exact_identifier(s, nodes, token, k - 1, prev[j]));
                let n = choose|n: int|
                    0 <= n < k - 1 && (#[trigger] nodes[n]).kind == "simple_identifier"@ && range_chars(
                        s,
                        nodes[n].range,
                    ) == token && prev[j] == spec_byte_range_to_range(s, nodes[n].range);
                assert(nodes[n].kind == "simple_identifier"@);
            } else {
                assert(is_highlight(s, nodes[k - 1], token));
                assert(cur[j] == spec_byte_range_to_range(s, nodes[k - 1].range));
                assert(nodes[k - 1].kind == "simple_identifier"@);
            }
        }
        assert forall|n: int|
            0 <= n < k && (#[trigger] nodes[n]).kind == "simple_identifier"@ && range_chars(
                s,
                nodes[n].range,
            ) == token implies listed(cur, spec_byte_range_to_range(s, nodes[n].range)) by {
            if n < k - 1 {
                assert(listed(prev, spec_byte_range_to_range(s, nodes[n].range)));
                let j = choose|j: int| 0 <= j < prev.len() && #[trigger] prev[j] == spec_byte_range_to_range(
                    s,
                    nodes[n].range,
                );
                assert(cur[j] == prev[j]);
            } else {
                assert(cur[prev.len() as int] == spec_byte_range_to_range(s, nodes[n].range));
            }
        }
    }
}

/// The highlights are exactly the identifiers whose text is the token: every
/// highlight is the range of an identifier node whose text equals the token
/// (not merely starts with it), and every such node is highlighted.
pub proof fn law_highlights_are_exact_identifiers(s: Seq<char>, nodes: Seq<NodeView>, token: Seq<char>)
    ensures
        forall|j: int|
            0 <= j < highlight_ranges(s, nodes, token, nodes.len() as int).len() ==> range_of_exact_identifier(
                s,
                nodes,
                token,
                nodes.len() as int,
                #[trigger] highlight_ranges(s, nodes, token, nodes.len() as int)[j],
            ),
        forall|n: int|
            0 <= n < nodes.len() && (#[trigger] nodes[n]).kind == "simple_identifier"@ && range_chars(
                s,
                nodes[n].range,
            ) == token ==> listed(
                highlight_ranges(s, nodes, token, nodes.len() as int),
                spec_byte_range_to_range(s, nodes[n].range),
            ),
{
    lemma_highlights_exact(s, nodes, token, nodes.len() as int);
}

} // verus!
