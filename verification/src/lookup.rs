//! Name resolution over the indexed documents: identifier completion, dot
//! completion and go-to-definition, each a walk over every document's symbols
//! that keeps a stack of the scopes it is in.
use crate::position::{pos_byte, pos_valid, LSPSupport, Position, Range, byte_pos};
use crate::rope::{
    rope_byte_slice, rope_byte_to_char, rope_char_to_byte, rope_chars, rope_len_bytes, slice_char,
    slice_chars, slice_eq_str, slice_len_chars, slice_to_string,
};
use crate::symbol::{ByteRange, Symbol};
use crate::text::{
    byte_to_char_idx, is_boundary, lemma_byte_to_char, lemma_byte_to_char_of_prefix, utf8_len,
    utf8_prefix,
};
use ropey::Rope;
use vstd::prelude::*;
use vstd::string::StrSliceExecFns;

verus! {

/// The text and symbols of one indexed document.
pub struct Index {
    pub text: Rope,
    pub syms: Vec<Symbol>,
}

/// `r` is a byte range of `s` whose ends fall on char boundaries.
pub open spec fn range_ok(s: Seq<char>, r: ByteRange) -> bool {
    &&& r.start <= r.end <= utf8_len(s)
    &&& is_boundary(s, r.start as int)
    &&& is_boundary(s, r.end as int)
}

/// The ranges of `sym` that are read as text are valid ranges of `s`.
pub open spec fn sym_ok(s: Seq<char>, sym: Symbol) -> bool {
    &&& range_ok(s, sym.ident_node)
    &&& sym.type_node matches Some(t) ==> range_ok(s, t)
    &&& sym.parent matches Some(p) ==> range_ok(s, p)
}

/// The chars of `s` in byte range `r`.
pub open spec fn range_chars(s: Seq<char>, r: ByteRange) -> Seq<char> {
    s.subrange(byte_to_char_idx(s, r.start as int), byte_to_char_idx(s, r.end as int))
}

/// `t` is a prefix of `s`.
pub open spec fn starts_with(s: Seq<char>, t: Seq<char>) -> bool {
    t.len() <= s.len() && s.take(t.len() as int) == t
}

impl Index {
    /// Every symbol's ranges are valid ranges of the text.
    pub open spec fn wf(&self) -> bool {
        forall|k: int| 0 <= k < self.syms@.len() ==> sym_ok(rope_chars(self.text), #[trigger] self.syms@[k])
    }
}

/// Every document is well formed.
pub open spec fn files_wf(files: Seq<Index>) -> bool {
    forall|i: int| 0 <= i < files.len() ==> (#[trigger] files[i]).wf()
}

/// Whether byte offset `b` (at most the text's length) starts a char.
pub fn is_char_boundary(text: &Rope, b: usize) -> (r: bool)
    requires
        b <= utf8_len(rope_chars(*text)),
    ensures
        r == is_boundary(rope_chars(*text), b as int),
{
    let ghost s = rope_chars(*text);
    let c = rope_byte_to_char(text, b);
    proof {
        lemma_byte_to_char(s, b as int);
    }
    let back = rope_char_to_byte(text, c);
    proof {
        if back != b && is_boundary(s, b as int) {
            let k = choose|k: int| 0 <= k <= s.len() && #[trigger] utf8_prefix(s, k) == b;
            lemma_byte_to_char_of_prefix(s, k);
        }
    }
    back == b
}

/// Whether `r` is a byte range of the text whose ends start chars.
pub fn range_in_bounds(text: &Rope, r: ByteRange) -> (b: bool)
    ensures
        b == range_ok(rope_chars(*text), r),
{
    let len = rope_len_bytes(text);
    r.start <= r.end && r.end <= len && is_char_boundary(text, r.start) && is_char_boundary(
        text,
        r.end,
    )
}

impl Index {
    /// Whether every symbol's ranges are valid ranges of the text.
    pub fn is_wf(&self) -> (b: bool)
        ensures
            b == self.wf(),
    {
        let n = self.syms.len();
        let mut k: usize = 0;
        while k < n
            invariant
                n == self.syms@.len(),
                0 <= k <= n,
                forall|j: int| 0 <= j < k ==> sym_ok(rope_chars(self.text), #[trigger] self.syms@[j]),
            decreases n - k,
        {
            let sym = self.syms[k];
            let ok = range_in_bounds(&self.text, sym.ident_node) && match sym.type_node {
                Some(t) => range_in_bounds(&self.text, t),
                None => true,
            } && match sym.parent {
                Some(p) => range_in_bounds(&self.text, p),
                None => true,
            };
            if !ok {
                assert(!sym_ok(rope_chars(self.text), self.syms@[k as int]));
                return false;
            }
            k = k + 1;
        }
        true
    }
}

/// Whether every document is well formed, and every document with symbols
/// has text.
pub fn files_ready(files: &Vec<Index>) -> (b: bool)
    ensures
        b == (files_wf(files@) && files_nonempty(files@)),
{
    let n = files.len();
    let mut i: usize = 0;
    while i < n
        invariant
            n == files@.len(),
            0 <= i <= n,
            forall|j: int| 0 <= j < i ==> (#[trigger] files@[j]).wf(),
            forall|j: int|
                0 <= j < i ==> (#[trigger] files@[j]).syms@.len() > 0 ==> utf8_len(
                    rope_chars(files@[j].text),
                ) > 0,
        decreases n - i,
    {
        let f = &files[i];
        if !f.is_wf() {
            assert(!files@[i as int].wf());
            return false;
        }
        if f.syms.len() > 0 && rope_len_bytes(&f.text) == 0 {
            assert(!files_nonempty(files@)) by {
                assert(files@[i as int].syms@.len() > 0);
            }
            return false;
        }
        i = i + 1;
    }
    true
}

/// The scope of the innermost entry of the scope stack.
pub open spec fn last_scope(stack: Seq<Symbol>) -> Option<ByteRange> {
    if stack.len() == 0 {
        None
    } else {
        stack.last().scope_node
    }
}

/// The scope stack after meeting `sym`: the innermost scope is left when it
/// does not hold `sym`, and `sym` is entered when it opens a new scope.
pub open spec fn stack_step(stack: Seq<Symbol>, sym: Symbol) -> Seq<Symbol> {
    let st1 = match last_scope(stack) {
        Some(sc) => if !sc.spec_contains(sym.ident_node.start as int) {
            stack.drop_last()
        } else {
            stack
        },
        None => stack,
    };
    match sym.scope_node {
        Some(sc) => match last_scope(st1) {
            Some(l) => if sc != l {
                st1.push(sym)
            } else {
                st1
            },
            None => st1.push(sym),
        },
        None => st1,
    }
}

/// Updates the scope stack for the next symbol.
fn step_stack(stack: &mut Vec<Symbol>, sym: &Symbol)
    ensures
        final(stack)@ == stack_step(old(stack)@, *sym),
{
    // pop scope from stack if it doesn't contain sym
    let n = stack.len();
    if n > 0 {
        if let Some(scope) = stack[n - 1].scope_node {
            if !scope.contains(sym.ident_node.start) {
                stack.pop();
            }
        }
    }
    // push scope to stack
    if let Some(scope) = sym.scope_node {
        let n = stack.len();
        // multiple definitions can create equivalent scopes
        let last = if n > 0 {
            stack[n - 1].scope_node
        } else {
            None
        };
        if let Some(last) = last {
            if scope != last {
                stack.push(*sym);
            }
        } else {
            stack.push(*sym);
        }
    }
}

/// The scope of the innermost stack entry, if any.
fn top_scope(stack: &Vec<Symbol>) -> (r: Option<ByteRange>)
    ensures
        r == last_scope(stack@),
{
    let n = stack.len();
    if n > 0 {
        stack[n - 1].scope_node
    } else {
        None
    }
}

/// Whether the text of byte range `r` equals `token`.
pub fn range_eq(text: &Rope, r: ByteRange, token: &str) -> (b: bool)
    requires
        range_ok(rope_chars(*text), r),
    ensures
        b == (range_chars(rope_chars(*text), r) == token@),
{
    slice_eq_str(&rope_byte_slice(text, r.start, r.end), token)
}

/// Whether the text of byte range `r` starts with `token`.
pub fn range_starts_with(text: &Rope, r: ByteRange, token: &str) -> (b: bool)
    requires
        range_ok(rope_chars(*text), r),
    ensures
        b == starts_with(range_chars(rope_chars(*text), r), token@),
{
    let slice = rope_byte_slice(text, r.start, r.end);
    let ident_len = slice_len_chars(&slice);
    let token_len = token.unicode_len();
    let mut starts_with = true;
    let mut i: usize = 0;
    assert(slice_chars(slice).take(0) =~= token@.take(0));
    while i < token_len
        invariant
            token_len == token@.len(),
            ident_len == slice_chars(slice).len(),
            0 <= i <= token_len,
            starts_with == (i <= ident_len && slice_chars(slice).take(i as int) == token@.take(
                i as int,
            )),
        decreases token_len - i,
    {
        let ch = token.get_char(i);
        if i < ident_len {
            if slice_char(&slice, i) != ch {
                starts_with = false;
            }
        } else {
            starts_with = false;
        }
        proof {
            if i < ident_len {
                assert(slice_chars(slice).take(i + 1) =~= slice_chars(slice).take(i as int).push(
                    slice_chars(slice)[i as int],
                ));
                assert(token@.take(i + 1) =~= token@.take(i as int).push(token@[i as int]));
                if slice_chars(slice).take(i + 1) == token@.take(i + 1) {
                    assert(slice_chars(slice).take(i as int) =~= slice_chars(slice).take(
                        i + 1,
                    ).take(i as int));
                    assert(token@.take(i as int) =~= token@.take(i + 1).take(i as int));
                    assert(slice_chars(slice).take(i + 1)[i as int] == slice_chars(slice)[i as int]);
                }
            }
        }
        i = i + 1;
    }
    proof {
        assert(token@.take(token_len as int) =~= token@);
    }
    starts_with
}

/// The byte offset the cursor is at in document `i`: its position in the
/// document it was given for, 0 in any other.
pub open spec fn cursor_byte(files: Seq<Index>, uri: Option<usize>, pos: Position, i: int) -> int {
    if uri == Some(i as usize) {
        pos_byte(rope_chars(files[i].text), pos)
    } else {
        0
    }
}

/// Identifier completion after meeting one symbol of document `i`.
pub open spec fn completion_step(
    s: Seq<char>,
    i: int,
    is_cur: bool,
    byte_idx: int,
    token: Seq<char>,
    st: (Seq<Symbol>, Seq<(usize, Symbol)>),
    sym: Symbol,
) -> (Seq<Symbol>, Seq<(usize, Symbol)>) {
    let stack = stack_step(st.0, sym);
    let hidden = sym.parent is Some && last_scope(stack) is Some && (!is_cur || !last_scope(
        stack,
    ).unwrap().spec_contains(byte_idx));
    if !hidden && starts_with(range_chars(s, sym.ident_node), token) {
        (stack, st.1.push((i as usize, sym)))
    } else {
        (stack, st.1)
    }
}

/// Identifier completion after the first `k` symbols of document `i`.
pub open spec fn completion_file(
    files: Seq<Index>,
    uri: Option<usize>,
    token: Seq<char>,
    pos: Position,
    i: int,
    k: int,
    st: (Seq<Symbol>, Seq<(usize, Symbol)>),
) -> (Seq<Symbol>, Seq<(usize, Symbol)>)
    decreases k,
{
    if k <= 0 {
        st
    } else {
        completion_step(
            rope_chars(files[i].text),
            i,
            uri == Some(i as usize),
            cursor_byte(files, uri, pos, i),
            token,
            completion_file(files, uri, token, pos, i, k - 1, st),
            files[i].syms@[k - 1],
        )
    }
}

/// Identifier completion after the first `i` documents.
pub open spec fn completion_walk(
    files: Seq<Index>,
    uri: Option<usize>,
    token: Seq<char>,
    pos: Position,
    i: int,
) -> (Seq<Symbol>, Seq<(usize, Symbol)>)
    decreases i,
{
    if i <= 0 {
        (Seq::empty(), Seq::empty())
    } else {
        completion_file(
            files,
            uri,
            token,
            pos,
            i - 1,
            files[i - 1].syms@.len() as int,
            completion_walk(files, uri, token, pos, i - 1),
        )
    }
}

/// The cursor position is valid in the document it was given for.
pub open spec fn cursor_ok(files: Seq<Index>, uri: Option<usize>, pos: Position) -> bool {
    uri matches Some(u) ==> u < files.len() && pos_valid(rope_chars(files[u as int].text), pos)
}

/// Identifier completions for `token` at `pos` of document `uri`: every symbol,
/// in document order, whose identifier starts with `token`, leaving out members
/// of a scope that does not hold the cursor. Each candidate comes with the
/// index of its document.
#[verifier::spinoff_prover]
pub fn get_completions(files: &Vec<Index>, uri: Option<usize>, token: &str, pos: Position) -> (cand:
    Vec<(usize, Symbol)>)
    requires
        files_wf(files@),
        cursor_ok(files@, uri, pos),
    ensures
        cand@ == completion_walk(files@, uri, token@, pos, files@.len() as int).1,
        forall|j: int|
            0 <= j < cand@.len() ==> {
                let (i, sym) = #[trigger] cand@[j];
                &&& i < files@.len()
                &&& starts_with(range_chars(rope_chars(files@[i as int].text), sym.ident_node), token@)
            },
{
    let mut cand: Vec<(usize, Symbol)> = Vec::new();
    let mut stack: Vec<Symbol> = Vec::new();
    let nfiles = files.len();
    let mut i: usize = 0;
    while i < nfiles
        invariant
            nfiles == files@.len(),
            0 <= i <= nfiles,
            files_wf(files@),
            cursor_ok(files@, uri, pos),
            (stack@, cand@) == completion_walk(files@, uri, token@, pos, i as int),
            forall|j: int|
                0 <= j < cand@.len() ==> {
                    let (fi, sym) = #[trigger] cand@[j];
                    &&& fi < i
                    &&& starts_with(
                        range_chars(rope_chars(files@[fi as int].text), sym.ident_node),
                        token@,
                    )
                },
        decreases nfiles - i,
    {
        let file = &files[i];
        let is_cur = uri == Some(i);
        let byte_idx = if is_cur {
            file.text.pos_to_byte(&pos)
        } else {
            0
        };
        proof {
            assert(files@[i as int].wf());
        }
        let ghost st0 = (stack@, cand@);
        let nsyms = file.syms.len();
        let mut k: usize = 0;
        while k < nsyms
            invariant
                nfiles == files@.len(),
                0 <= i < nfiles,
                file == files@[i as int],
                file.wf(),
                nsyms == file.syms@.len(),
                0 <= k <= nsyms,
                is_cur == (uri == Some(i)),
                byte_idx == cursor_byte(files@, uri, pos, i as int),
                (stack@, cand@) == completion_file(files@, uri, token@, pos, i as int, k as int, st0),
                forall|j: int|
                    0 <= j < cand@.len() ==> {
                        let (fi, sym) = #[trigger] cand@[j];
                        &&& fi <= i
                        &&& starts_with(
                            range_chars(rope_chars(files@[fi as int].text), sym.ident_node),
                            token@,
                        )
                    },
            decreases nsyms - k,
        {
            let sym = &file.syms[k];
            proof {
                assert(sym_ok(rope_chars(file.text), file.syms@[k as int]));
            }
            step_stack(&mut stack, sym);
            // check if parent of sym contains pos
            let mut hidden = false;
            if sym.parent.is_some() {
                if let Some(scope) = top_scope(&stack) {
                    if !is_cur || !scope.contains(byte_idx) {
                        hidden = true;
                    }
                }
            }
            // check if symbol identifier starts with token
            if !hidden {
                if range_starts_with(&file.text, sym.ident_node, token) {
                    cand.push((i, *sym));
                }
            }
            k = k + 1;
        }
        i = i + 1;
    }
    cand
}


/// The stack entry a symbol's visibility is judged by: for a port named in a
/// named port connection, the entry below the innermost; for another member of
/// a scope, the innermost; none for a top-level symbol.
pub open spec fn definition_scope(stack: Seq<Symbol>, sym: Symbol, named_port: bool) -> Option<
    ByteRange,
> {
    if sym.parent is Some && named_port && !(sym.direction is NotPort) {
        if stack.len() > 1 {
            stack[stack.len() - 2].scope_node
        } else {
            None
        }
    } else if sym.parent is Some {
        last_scope(stack)
    } else {
        None
    }
}

/// The range of positions a byte range of `s` covers.
pub open spec fn spec_byte_range_to_range(s: Seq<char>, r: ByteRange) -> Range {
    Range { start: byte_pos(s, r.start as int), end: byte_pos(s, r.end as int) }
}

/// Go-to-definition after meeting one symbol of document `i`.
pub open spec fn definition_step(
    s: Seq<char>,
    i: int,
    is_cur: bool,
    byte_idx: int,
    token: Seq<char>,
    named_port: bool,
    st: (Seq<Symbol>, Seq<(usize, Range)>),
    sym: Symbol,
) -> (Seq<Symbol>, Seq<(usize, Range)>) {
    let stack = stack_step(st.0, sym);
    let scope = definition_scope(stack, sym, named_port);
    let hidden = scope is Some && (!is_cur || !scope.unwrap().spec_contains(byte_idx));
    if !hidden && range_chars(s, sym.ident_node) == token {
        (stack, st.1.push((i as usize, spec_byte_range_to_range(s, sym.ident_node))))
    } else {
        (stack, st.1)
    }
}

/// Go-to-definition after the first `k` symbols of document `i`.
pub open spec fn definition_file(
    files: Seq<Index>,
    uri: usize,
    token: Seq<char>,
    pos: Position,
    named_port: bool,
    i: int,
    k: int,
    st: (Seq<Symbol>, Seq<(usize, Range)>),
) -> (Seq<Symbol>, Seq<(usize, Range)>)
    decreases k,
{
    if k <= 0 {
        st
    } else {
        definition_step(
            rope_chars(files[i].text),
            i,
            uri == i,
            cursor_byte(files, Some(uri), pos, i),
            token,
            named_port,
            definition_file(files, uri, token, pos, named_port, i, k - 1, st),
            files[i].syms@[k - 1],
        )
    }
}

/// Go-to-definition after the first `i` documents.
pub open spec fn definition_walk(
    files: Seq<Index>,
    uri: usize,
    token: Seq<char>,
    pos: Position,
    named_port: bool,
    i: int,
) -> (Seq<Symbol>, Seq<(usize, Range)>)
    decreases i,
{
    if i <= 0 {
        (Seq::empty(), Seq::empty())
    } else {
        definition_file(
            files,
            uri,
            token,
            pos,
            named_port,
            i - 1,
            files[i - 1].syms@.len() as int,
            definition_walk(files, uri, token, pos, named_port, i - 1),
        )
    }
}

/// A document that has symbols has text (positions of an empty text cannot be computed).
pub open spec fn files_nonempty(files: Seq<Index>) -> bool {
    forall|i: int|
        0 <= i < files.len() ==> (#[trigger] files[i]).syms@.len() > 0 ==> utf8_len(
            rope_chars(files[i].text),
        ) > 0
}

/// Definition `d` is the identifier range of symbol `k` of its document,
/// which is named `token`.
pub open spec fn named_at(files: Seq<Index>, d: (usize, Range), token: Seq<char>, k: int) -> bool {
    let s = rope_chars(files[d.0 as int].text);
    let sym = files[d.0 as int].syms@[k];
    &&& range_chars(s, sym.ident_node) == token
    &&& d.1 == spec_byte_range_to_range(s, sym.ident_node)
}

/// Definition `d` lies in a document before `bound`, on a symbol named `token`.
pub open spec fn def_named(files: Seq<Index>, d: (usize, Range), token: Seq<char>, bound: int) -> bool {
    &&& d.0 < bound
    &&& exists|k: int| 0 <= k < files[d.0 as int].syms@.len() && #[trigger] named_at(files, d, token, k)
}

/// Every definition found lies in a document before `bound`, on a symbol named `token`.
pub open spec fn defs_named(files: Seq<Index>, cand: Seq<(usize, Range)>, token: Seq<char>, bound: int) -> bool {
    forall|j: int| 0 <= j < cand.len() ==> def_named(files, #[trigger] cand[j], token, bound)
}

proof fn lemma_defs_named_wider(files: Seq<Index>, cand: Seq<(usize, Range)>, token: Seq<char>, b1: int, b2: int)
    requires
        defs_named(files, cand, token, b1),
        b1 <= b2,
    ensures
        defs_named(files, cand, token, b2),
{
    assert forall|j: int| 0 <= j < cand.len() implies def_named(files, #[trigger] cand[j], token, b2) by {
        assert(def_named(files, cand[j], token, b1));
    }
}

proof fn lemma_defs_named_push(
    files: Seq<Index>,
    cand: Seq<(usize, Range)>,
    d: (usize, Range),
    token: Seq<char>,
    bound: int,
)
    requires
        defs_named(files, cand, token, bound),
        def_named(files, d, token, bound),
    ensures
        defs_named(files, cand.push(d), token, bound),
{
    assert forall|j: int| 0 <= j < cand.push(d).len() implies def_named(
        files,
        #[trigger] cand.push(d)[j],
        token,
        bound,
    ) by {
        if j < cand.len() {
            assert(cand.push(d)[j] == cand[j]);
        }
    }
}

/// Definitions of `token` seen from `pos` of document `uri`: the range of every
/// symbol, in document order, whose identifier is `token`, leaving out members
/// of a scope that does not hold the cursor. `named_port` says whether the
/// cursor is on the port name of a named port connection, where ports are
/// judged by the scope around their own. Each range comes with the index of its
/// document.
#[verifier::spinoff_prover]
pub fn get_definition(
    files: &Vec<Index>,
    uri: usize,
    token: &str,
    pos: Position,
    named_port: bool,
) -> (cand: Vec<(usize, Range)>)
    requires
        files_wf(files@),
        files_nonempty(files@),
        uri < files@.len(),
        pos_valid(rope_chars(files@[uri as int].text), pos),
    ensures
        cand@ == definition_walk(files@, uri, token@, pos, named_port, files@.len() as int).1,
        forall|j: int|
            0 <= j < cand@.len() ==> {
                let (i, r) = #[trigger] cand@[j];
                &&& i < files@.len()
                &&& exists|k: int|
                    0 <= k < files@[i as int].syms@.len() && {
                        let sym = #[trigger] files@[i as int].syms@[k];
                        &&& range_chars(rope_chars(files@[i as int].text), sym.ident_node)
                            == token@
                        &&& r == spec_byte_range_to_range(
                            rope_chars(files@[i as int].text),
                            sym.ident_node,
                        )
                    }
            },
{
    let mut cand: Vec<(usize, Range)> = Vec::new();
    let mut stack: Vec<Symbol> = Vec::new();
    let nfiles = files.len();
    let mut i: usize = 0;
    while i < nfiles
        invariant
            nfiles == files@.len(),
            0 <= i <= nfiles,
            uri < nfiles,
            files_wf(files@),
            files_nonempty(files@),
            pos_valid(rope_chars(files@[uri as int].text), pos),
            (stack@, cand@) == definition_walk(files@, uri, token@, pos, named_port, i as int),
            defs_named(files@, cand@, token@, i as int),
        decreases nfiles - i,
    {
        let file = &files[i];
        let is_cur = uri == i;
        let byte_idx = if is_cur {
            file.text.pos_to_byte(&pos)
        } else {
            0
        };
        proof {
            assert(files@[i as int].wf());
            assert(files_nonempty(files@));
        }
        let ghost st0 = (stack@, cand@);
        proof {
            lemma_defs_named_wider(files@, cand@, token@, i as int, i + 1);
        }
        let nsyms = file.syms.len();
        let mut k: usize = 0;
        while k < nsyms
            invariant
                nfiles == files@.len(),
                0 <= i < nfiles,
                file == files@[i as int],
                file.wf(),
                nsyms > 0 ==> utf8_len(rope_chars(file.text)) > 0,
                nsyms == file.syms@.len(),
                0 <= k <= nsyms,
                is_cur == (uri == i),
                byte_idx == cursor_byte(files@, Some(uri), pos, i as int),
                (stack@, cand@) == definition_file(
                    files@,
                    uri,
                    token@,
                    pos,
                    named_port,
                    i as int,
                    k as int,
                    st0,
                ),
                defs_named(files@, cand@, token@, i + 1),
            decreases nsyms - k,
        {
            let sym = &file.syms[k];
            proof {
                assert(sym_ok(rope_chars(file.text), file.syms@[k as int]));
            }
            step_stack(&mut stack, sym);
            let n = stack.len();
            let scope = if sym.parent.is_some() && named_port && sym.is_port() {
                if n > 1 {
                    stack[n - 2].scope_node
                } else {
                    None
                }
            } else if sym.parent.is_some() {
                top_scope(&stack)
            } else {
                None
            };
            // check if parent of sym contains pos
            let mut hidden = false;
            if let Some(scope) = scope {
                if !is_cur || !scope.contains(byte_idx) {
                    hidden = true;
                }
            }
            // check if symbol identifier equals token
            if !hidden {
                if range_eq(&file.text, sym.ident_node, token) {
                    let r = file.text.byte_range_to_range(sym.ident_node);
                    let ghost before = cand@;
                    cand.push((i, r));
                    proof {
                        assert(files@[i as int].syms@[k as int] == *sym);
                        assert(named_at(files@, (i, r), token@, k as int));
                        lemma_defs_named_push(files@, before, (i, r), token@, i + 1);
                    }
                }
            }
            k = k + 1;
        }
        i = i + 1;
    }
    proof {
        assert forall|j: int| 0 <= j < cand@.len() implies {
            let (fi, r) = #[trigger] cand@[j];
            &&& fi < files@.len()
            &&& exists|k: int|
                0 <= k < files@[fi as int].syms@.len() && {
                    let sym = #[trigger] files@[fi as int].syms@[k];
                    &&& range_chars(rope_chars(files@[fi as int].text), sym.ident_node) == token@
                    &&& r == spec_byte_range_to_range(rope_chars(files@[fi as int].text), sym.ident_node)
                }
        } by {
            assert(def_named(files@, cand@[j], token@, nfiles as int));
            let k = choose|k: int|
                0 <= k < files@[cand@[j].0 as int].syms@.len() && #[trigger] named_at(
                    files@,
                    cand@[j],
                    token@,
                    k,
                );
            assert(files@[cand@[j].0 as int].syms@[k] == files@[cand@[j].0 as int].syms@[k]);
        }
    }
    cand
}


/// Dot completion state: scope stack, the type of the token found so far, candidates.
pub type DotState = (Seq<Symbol>, Seq<char>, Seq<(usize, Symbol)>);

/// First pass over a symbol: a visible symbol named `token` that has a type
/// makes that type the token's type.
pub open spec fn dot_find_step(
    s: Seq<char>,
    byte_idx: int,
    token: Seq<char>,
    st: DotState,
    sym: Symbol,
) -> DotState {
    let stack = stack_step(st.0, sym);
    let hidden = sym.parent is Some && last_scope(stack) is Some && !last_scope(
        stack,
    ).unwrap().spec_contains(byte_idx);
    if !hidden && sym.type_node is Some && range_chars(s, sym.ident_node) == token {
        (stack, range_chars(s, sym.type_node.unwrap()), st.2)
    } else {
        (stack, st.1, st.2)
    }
}

/// Second pass over a symbol: members of the token itself, and members of the
/// token's type (at top level, or when the enclosing scope holds the cursor in
/// the cursor's document), are candidates.
pub open spec fn dot_collect_step(
    s: Seq<char>,
    i: int,
    is_cur: bool,
    byte_idx: int,
    token: Seq<char>,
    st: DotState,
    sym: Symbol,
) -> DotState {
    let stack = stack_step(st.0, sym);
    let add = match sym.parent {
        Some(p) => {
            let pt = range_chars(s, p);
            ||| pt == token
            ||| stack.len() == 1 && pt == st.1
            ||| stack.len() > 1 && stack[stack.len() - 2].scope_node is Some && is_cur
                && stack[stack.len() - 2].scope_node.unwrap().spec_contains(byte_idx) && pt == st.1
        },
        None => false,
    };
    if add {
        (stack, st.1, st.2.push((i as usize, sym)))
    } else {
        (stack, st.1, st.2)
    }
}

/// Either pass of dot completion after the first `k` symbols of document `i`.
pub open spec fn dot_file(
    files: Seq<Index>,
    uri: Option<usize>,
    token: Seq<char>,
    pos: Position,
    collect: bool,
    i: int,
    k: int,
    st: DotState,
) -> DotState
    decreases k,
{
    if k <= 0 {
        st
    } else {
        let prev = dot_file(files, uri, token, pos, collect, i, k - 1, st);
        let s = rope_chars(files[i].text);
        let sym = files[i].syms@[k - 1];
        let b = cursor_byte(files, uri, pos, i);
        if collect {
            dot_collect_step(s, i, uri == Some(i as usize), b, token, prev, sym)
        } else {
            dot_find_step(s, b, token, prev, sym)
        }
    }
}

/// Dot completion after the first `i` documents (both passes over each).
pub open spec fn dot_walk(
    files: Seq<Index>,
    uri: Option<usize>,
    token: Seq<char>,
    pos: Position,
    i: int,
) -> DotState
    decreases i,
{
    if i <= 0 {
        (Seq::empty(), Seq::empty(), Seq::empty())
    } else {
        let n = files[i - 1].syms@.len() as int;
        let found = dot_file(
            files,
            uri,
            token,
            pos,
            false,
            i - 1,
            n,
            dot_walk(files, uri, token, pos, i - 1),
        );
        dot_file(files, uri, token, pos, true, i - 1, n, found)
    }
}

/// `t` is the type text of some symbol named `token`.
pub open spec fn is_type_of(files: Seq<Index>, token: Seq<char>, t: Seq<char>) -> bool {
    exists|i: int, k: int|
        0 <= i < files.len() && 0 <= k < files[i].syms@.len() && {
            let sym = #[trigger] files[i].syms@[k];
            let s = rope_chars(files[i].text);
            &&& sym.type_node is Some
            &&& range_chars(s, sym.ident_node) == token
            &&& range_chars(s, sym.type_node.unwrap()) == t
        }
}

/// A dot-completion candidate: a member whose parent is the token, or the type
/// of a symbol named by the token, or empty (no type found yet).
pub open spec fn dot_candidate_ok(
    files: Seq<Index>,
    token: Seq<char>,
    c: (usize, Symbol),
) -> bool {
    &&& c.0 < files.len()
    &&& c.1.parent is Some
    &&& {
        let pt = range_chars(rope_chars(files[c.0 as int].text), c.1.parent.unwrap());
        ||| pt == token
        ||| pt.len() == 0
        ||| is_type_of(files, token, pt)
    }
}

/// Dot completions for `token` at `pos` of document `uri`: the members of the
/// symbol named `token`, and the members of its type. Each candidate comes with
/// the index of its document.
#[verifier::spinoff_prover]
pub fn get_dot_completions(
    files: &Vec<Index>,
    uri: Option<usize>,
    token: &str,
    pos: Position,
) -> (cand: Vec<(usize, Symbol)>)
    requires
        files_wf(files@),
        cursor_ok(files@, uri, pos),
    ensures
        cand@ == dot_walk(files@, uri, token@, pos, files@.len() as int).2,
        forall|j: int| 0 <= j < cand@.len() ==> dot_candidate_ok(files@, token@, #[trigger] cand@[j]),
{
    let mut cand: Vec<(usize, Symbol)> = Vec::new();
    let mut stack: Vec<Symbol> = Vec::new();
    let mut type_token = String::new();
    let nfiles = files.len();
    let mut i: usize = 0;
    while i < nfiles
        invariant
            nfiles == files@.len(),
            0 <= i <= nfiles,
            files_wf(files@),
            cursor_ok(files@, uri, pos),
            (stack@, type_token@, cand@) == dot_walk(files@, uri, token@, pos, i as int),
            type_token@.len() == 0 || is_type_of(files@, token@, type_token@),
            forall|j: int|
                0 <= j < cand@.len() ==> dot_candidate_ok(files@, token@, #[trigger] cand@[j])
                    && cand@[j].0 < i,
        decreases nfiles - i,
    {
        let file = &files[i];
        let is_cur = uri == Some(i);
        let byte_idx = if is_cur {
            file.text.pos_to_byte(&pos)
        } else {
            0
        };
        proof {
            assert(files@[i as int].wf());
        }
        let ghost st0 = (stack@, type_token@, cand@);
        let nsyms = file.syms.len();
        // find symbol that matches token
        let mut k: usize = 0;
        while k < nsyms
            invariant
                nfiles == files@.len(),
                0 <= i < nfiles,
                file == files@[i as int],
                file.wf(),
                nsyms == file.syms@.len(),
                0 <= k <= nsyms,
                byte_idx == cursor_byte(files@, uri, pos, i as int),
                (stack@, type_token@, cand@) == dot_file(
                    files@,
                    uri,
                    token@,
                    pos,
                    false,
                    i as int,
                    k as int,
                    st0,
                ),
                cand@ == st0.2,
                forall|j: int|
                    0 <= j < cand@.len() ==> dot_candidate_ok(files@, token@, #[trigger] cand@[j])
                        && cand@[j].0 < i,
                type_token@.len() == 0 || is_type_of(files@, token@, type_token@),
            decreases nsyms - k,
        {
            let sym = &file.syms[k];
            proof {
                assert(sym_ok(rope_chars(file.text), file.syms@[k as int]));
            }
            step_stack(&mut stack, sym);
            // check if parent scope of sym contains pos
            let mut hidden = false;
            if sym.parent.is_some() {
                if let Some(scope) = top_scope(&stack) {
                    if !scope.contains(byte_idx) {
                        hidden = true;
                    }
                }
            }
            // check if symbol identifier equals token
            if !hidden {
                if let Some(type_node) = sym.type_node {
                    if range_eq(&file.text, sym.ident_node, token) {
                        type_token = slice_to_string(
                            &rope_byte_slice(&file.text, type_node.start, type_node.end),
                        );
                        proof {
                            let fi = i as int;
                            let kk = k as int;
                            assert(files@[fi].syms@[kk] == *sym);
                            assert(is_type_of(files@, token@, type_token@));
                        }
                    }
                }
            }
            k = k + 1;
        }
        let ghost st1 = (stack@, type_token@, cand@);
        let mut k: usize = 0;
        while k < nsyms
            invariant
                nfiles == files@.len(),
                0 <= i < nfiles,
                file == files@[i as int],
                file.wf(),
                nsyms == file.syms@.len(),
                0 <= k <= nsyms,
                is_cur == (uri == Some(i)),
                byte_idx == cursor_byte(files@, uri, pos, i as int),
                (stack@, type_token@, cand@) == dot_file(
                    files@,
                    uri,
                    token@,
                    pos,
                    true,
                    i as int,
                    k as int,
                    st1,
                ),
                type_token@.len() == 0 || is_type_of(files@, token@, type_token@),
                forall|j: int|
                    0 <= j < cand@.len() ==> dot_candidate_ok(files@, token@, #[trigger] cand@[j])
                        && cand@[j].0 <= i,
            decreases nsyms - k,
        {
            let sym = &file.syms[k];
            proof {
                assert(sym_ok(rope_chars(file.text), file.syms@[k as int]));
            }
            step_stack(&mut stack, sym);
            // check if scope in scope stack contains bidx
            if let Some(parent) = sym.parent {
                let n = stack.len();
                let mut add = false;
                // add children of token
                if range_eq(&file.text, parent, token) {
                    add = true;
                } else if n == 1 && range_eq(&file.text, parent, type_token.as_str()) {
                    // add sym if parent == type token and in global scope
                    add = true;
                } else if n > 1 {
                    // add sym if parent == type token and grand parent contains byte_idx
                    if let Some(scope_node) = stack[n - 2].scope_node {
                        if is_cur && scope_node.contains(byte_idx) {
                            if range_eq(&file.text, parent, type_token.as_str()) {
                                add = true;
                            }
                        }
                    }
                }
                if add {
                    cand.push((i, *sym));
                    proof {
                        assert(dot_candidate_ok(files@, token@, (i, *sym)));
                    }
                }
            }
            k = k + 1;
        }
        i = i + 1;
    }
    cand
}

/// The definitions a list of completion candidates holds: the candidates
/// named exactly `token`, each as its document index and identifier range.
pub open spec fn exact_candidates(files: Seq<Index>, cands: Seq<(usize, Symbol)>, token: Seq<char>) -> Seq<
    (usize, Range),
>
    decreases cands.len(),
{
    if cands.len() == 0 {
        Seq::empty()
    } else {
        let prev = exact_candidates(files, cands.drop_last(), token);
        let (i, sym) = cands.last();
        let s = rope_chars(files[i as int].text);
        if range_chars(s, sym.ident_node) == token {
            prev.push((i, spec_byte_range_to_range(s, sym.ident_node)))
        } else {
            prev
        }
    }
}

/// Definition and completion walk one document's symbols alike.
proof fn lemma_definitions_in_file(
    files: Seq<Index>,
    uri: usize,
    token: Seq<char>,
    pos: Position,
    i: int,
    k: int,
    c: (Seq<Symbol>, Seq<(usize, Symbol)>),
    d: (Seq<Symbol>, Seq<(usize, Range)>),
)
    requires
        0 <= i < files.len(),
        i <= usize::MAX,
        0 <= k <= files[i].syms@.len(),
        d.0 == c.0,
        d.1 == exact_candidates(files, c.1, token),
    ensures
        ({
            let c2 = completion_file(files, Some(uri), token, pos, i, k, c);
            let d2 = definition_file(files, uri, token, pos, false, i, k, d);
            d2.0 == c2.0 && d2.1 == exact_candidates(files, c2.1, token)
        }),
    decreases k,
{
    if k > 0 {
        lemma_definitions_in_file(files, uri, token, pos, i, k - 1, c, d);
        let c1 = completion_file(files, Some(uri), token, pos, i, k - 1, c);
        let d1 = definition_file(files, uri, token, pos, false, i, k - 1, d);
        let sym = files[i].syms@[k - 1];
        let s = rope_chars(files[i].text);
        let c2 = completion_file(files, Some(uri), token, pos, i, k, c);
        assert((Some(uri) == Some(i as usize)) == (uri == i));
        if range_chars(s, sym.ident_node) == token {
            assert(range_chars(s, sym.ident_node).take(token.len() as int) =~= token);
        }
        if c2.1.len() > c1.1.len() {
            assert(c2.1.drop_last() =~= c1.1);
            assert(c2.1.last() == (i as usize, sym));
        } else {
            assert(c2.1 =~= c1.1);
        }
    }
}

/// Definition and completion walk the first `i` documents alike.
proof fn lemma_definitions_in_walk(files: Seq<Index>, uri: usize, token: Seq<char>, pos: Position, i: int)
    requires
        0 <= i <= files.len(),
        files.len() <= usize::MAX + 1,
    ensures
        ({
            let c = completion_walk(files, Some(uri), token, pos, i);
            let d = definition_walk(files, uri, token, pos, false, i);
            d.0 == c.0 && d.1 == exact_candidates(files, c.1, token)
        }),
    decreases i,
{
    if i > 0 {
        lemma_definitions_in_walk(files, uri, token, pos, i - 1);
        lemma_definitions_in_file(
            files,
            uri,
            token,
            pos,
            i - 1,
            files[i - 1].syms@.len() as int,
            completion_walk(files, Some(uri), token, pos, i - 1),
            definition_walk(files, uri, token, pos, false, i - 1),
        );
    }
}

/// Away from named port connections, go-to-definition finds exactly the
/// identifier completions of the token that are named the token itself: the
/// same symbols, in the same order, as ranges.
pub proof fn law_definitions_are_exact_completions(
    files: Seq<Index>,
    uri: usize,
    token: Seq<char>,
    pos: Position,
)
    requires
        files.len() <= usize::MAX + 1,
    ensures
        definition_walk(files, uri, token, pos, false, files.len() as int).1 == exact_candidates(
            files,
            completion_walk(files, Some(uri), token, pos, files.len() as int).1,
            token,
        ),
{
    lemma_definitions_in_walk(files, uri, token, pos, files.len() as int);
}


/// The candidates for symbols at the top level (with no parent).
pub open spec fn top_level(cands: Seq<(usize, Symbol)>) -> Seq<(usize, Symbol)> {
    cands.filter(|c: (usize, Symbol)| c.1.parent is None)
}

/// `acc` followed by the top-level symbols among the first `k` of document `i`
/// whose identifier starts with `token`, in order.
pub open spec fn top_matches_file(
    files: Seq<Index>,
    token: Seq<char>,
    i: int,
    k: int,
    acc: Seq<(usize, Symbol)>,
) -> Seq<(usize, Symbol)>
    decreases k,
{
    if k <= 0 {
        acc
    } else {
        let prev = top_matches_file(files, token, i, k - 1, acc);
        let sym = files[i].syms@[k - 1];
        if sym.parent is None && starts_with(range_chars(rope_chars(files[i].text), sym.ident_node), token) {
            prev.push((i as usize, sym))
        } else {
            prev
        }
    }
}

/// The top-level symbols of the first `i` documents whose identifier starts
/// with `token`, in document order.
pub open spec fn top_matches(files: Seq<Index>, token: Seq<char>, i: int) -> Seq<(usize, Symbol)>
    decreases i,
{
    if i <= 0 {
        Seq::empty()
    } else {
        top_matches_file(files, token, i - 1, files[i - 1].syms@.len() as int, top_matches(files, token, i - 1))
    }
}

proof fn lemma_top_level_push(cands: Seq<(usize, Symbol)>, c: (usize, Symbol))
    ensures
        top_level(cands.push(c)) == if c.1.parent is None {
            top_level(cands).push(c)
        } else {
            top_level(cands)
        },
{
    reveal(Seq::filter);
    assert(cands.push(c).drop_last() =~= cands);
}

proof fn lemma_completion_file_top(
    files: Seq<Index>,
    uri: Option<usize>,
    token: Seq<char>,
    pos: Position,
    i: int,
    k: int,
    st: (Seq<Symbol>, Seq<(usize, Symbol)>),
    acc: Seq<(usize, Symbol)>,
)
    requires
        top_level(st.1) == acc,
    ensures
        top_level(completion_file(files, uri, token, pos, i, k, st).1) == top_matches_file(
            files,
            token,
            i,
            k,
            acc,
        ),
    decreases k,
{
    if k > 0 {
        lemma_completion_file_top(files, uri, token, pos, i, k - 1, st, acc);
        let prev = completion_file(files, uri, token, pos, i, k - 1, st);
        let sym = files[i].syms@[k - 1];
        lemma_top_level_push(prev.1, (i as usize, sym));
    }
}

proof fn lemma_completion_walk_top(files: Seq<Index>, uri: Option<usize>, token: Seq<char>, pos: Position, i: int)
    requires
        0 <= i <= files.len(),
    ensures
        top_level(completion_walk(files, uri, token, pos, i).1) == top_matches(files, token, i),
    decreases i,
{
    if i > 0 {
        lemma_completion_walk_top(files, uri, token, pos, i - 1);
        lemma_completion_file_top(
            files,
            uri,
            token,
            pos,
            i - 1,
            files[i - 1].syms@.len() as int,
            completion_walk(files, uri, token, pos, i - 1),
            top_matches(files, token, i - 1),
        );
    } else {
        reveal(Seq::filter);
    }
}

/// Identifier completion offers every top-level symbol of every document
/// whose identifier starts with the token, wherever the cursor is, and among
/// the top-level symbols nothing else: the top-level candidates are exactly
/// those symbols, in document order.
pub proof fn law_completion_offers_top_level_matches(
    files: Seq<Index>,
    uri: Option<usize>,
    token: Seq<char>,
    pos: Position,
)
    ensures
        top_level(completion_walk(files, uri, token, pos, files.len() as int).1) == top_matches(
            files,
            token,
            files.len() as int,
        ),
{
    lemma_completion_walk_top(files, uri, token, pos, files.len() as int);
}


/// Meeting a symbol whose identifier lies outside the innermost open scope
/// leaves that scope: the stack below it is kept, and the symbol itself is
/// the only entry that can take the place of the scope left.
pub proof fn law_stack_leaves_scope_not_holding(stack: Seq<Symbol>, sym: Symbol)
    requires
        last_scope(stack) matches Some(sc) && !sc.spec_contains(sym.ident_node.start as int),
    ensures
        stack_step(stack, sym).len() <= stack.len(),
        stack_step(stack, sym).take(stack.len() - 1) == stack.drop_last(),
        stack_step(stack, sym).len() == stack.len() ==> stack_step(stack, sym).last() == sym,
{
    let st1 = stack.drop_last();
    assert(st1.take(stack.len() - 1) =~= st1);
    assert(st1.push(sym).take(stack.len() - 1) =~= st1);
}

/// Meeting a symbol whose identifier lies inside the innermost open scope
/// keeps every open scope, and a symbol without a scope never enters the
/// stack.
pub proof fn law_stack_keeps_scope_holding(stack: Seq<Symbol>, sym: Symbol)
    ensures
        (last_scope(stack) matches Some(sc) && sc.spec_contains(sym.ident_node.start as int)) ==> (
        stack_step(stack, sym).take(stack.len() as int) == stack && stack.len() <= stack_step(
            stack,
            sym,
        ).len()),
        sym.scope_node is None ==> stack_step(stack, sym).len() <= stack.len(),
        (sym.scope_node is Some && last_scope(stack) is None) ==> stack_step(stack, sym) == stack.push(sym),
        (sym.scope_node is Some && last_scope(stack) is Some && last_scope(stack).unwrap().spec_contains(
            sym.ident_node.start as int,
        ) && sym.scope_node != last_scope(stack)) ==> stack_step(stack, sym) == stack.push(sym),
{
    assert(stack.take(stack.len() as int) =~= stack);
    assert(stack.push(sym).take(stack.len() as int) =~= stack);
}

/// On a named port connection only ports are judged by another scope: a
/// symbol that is not a port is found or not exactly as away from named port
/// connections.
pub proof fn law_named_port_affects_only_ports(
    s: Seq<char>,
    i: int,
    is_cur: bool,
    byte_idx: int,
    token: Seq<char>,
    st: (Seq<Symbol>, Seq<(usize, Range)>),
    sym: Symbol,
)
    requires
        sym.direction is NotPort,
    ensures
        definition_step(s, i, is_cur, byte_idx, token, true, st, sym) == definition_step(
            s,
            i,
            is_cur,
            byte_idx,
            token,
            false,
            st,
            sym,
        ),
{
}

proof fn lemma_no_ports_file(
    files: Seq<Index>,
    uri: usize,
    token: Seq<char>,
    pos: Position,
    i: int,
    k: int,
    st: (Seq<Symbol>, Seq<(usize, Range)>),
)
    requires
        0 <= i < files.len(),
        k <= files[i].syms@.len(),
        forall|j: int| 0 <= j < files[i].syms@.len() ==> (#[trigger] files[i].syms@[j]).direction is NotPort,
    ensures
        definition_file(files, uri, token, pos, true, i, k, st) == definition_file(
            files,
            uri,
            token,
            pos,
            false,
            i,
            k,
            st,
        ),
    decreases k,
{
    if k > 0 {
        lemma_no_ports_file(files, uri, token, pos, i, k - 1, st);
        assert(files[i].syms@[k - 1].direction is NotPort);
    }
}

/// Where no document has a port, whether the cursor is on a named port
/// connection changes nothing: go-to-definition finds the same definitions
/// either way.
pub proof fn law_named_port_without_ports(files: Seq<Index>, uri: usize, token: Seq<char>, pos: Position, i: int)
    requires
        0 <= i <= files.len(),
        forall|f: int, j: int|
            0 <= f < files.len() && 0 <= j < files[f].syms@.len() ==> (
            #[trigger] files[f].syms@[j]).direction is NotPort,
    ensures
        definition_walk(files, uri, token, pos, true, i) == definition_walk(files, uri, token, pos, false, i),
    decreases i,
{
    if i > 0 {
        law_named_port_without_ports(files, uri, token, pos, i - 1);
        assert forall|j: int| 0 <= j < files[i - 1].syms@.len() implies (
        #[trigger] files[i - 1].syms@[j]).direction is NotPort by {}
        lemma_no_ports_file(
            files,
            uri,
            token,
            pos,
            i - 1,
            files[i - 1].syms@.len() as int,
            definition_walk(files, uri, token, pos, false, i - 1),
        );
    }
}

/// Dot completion offers a member of the token's type when it is declared at
/// the top level of the scope stack, or when the scope enclosing the one it
/// is declared in holds the cursor in the cursor's document; it offers every
/// member of the token itself; it offers nothing without a parent, and adds
/// at most the symbol met.
pub proof fn law_dot_offers_members(
    s: Seq<char>,
    i: int,
    is_cur: bool,
    byte_idx: int,
    token: Seq<char>,
    st: DotState,
    sym: Symbol,
)
    ensures
        ({
            let stack = stack_step(st.0, sym);
            let next = dot_collect_step(s, i, is_cur, byte_idx, token, st, sym);
            &&& next.0 == stack
            &&& next.1 == st.1
            &&& next.2 == st.2 || next.2 == st.2.push((i as usize, sym))
            &&& sym.parent is None ==> next.2 == st.2
            &&& (sym.parent matches Some(p) && range_chars(s, p) == token) ==> next.2 == st.2.push(
                (i as usize, sym),
            )
            &&& (sym.parent matches Some(p) && range_chars(s, p) == st.1 && stack.len() == 1) ==> next.2
                == st.2.push((i as usize, sym))
            &&& (sym.parent matches Some(p) && range_chars(s, p) == st.1 && stack.len() > 1 && is_cur
                && stack[stack.len() - 2].scope_node is Some && stack[stack.len()
                - 2].scope_node.unwrap().spec_contains(byte_idx))
                ==> next.2 == st.2.push((i as usize, sym))
            &&& next.2 != st.2 ==> sym.parent is Some && (range_chars(s, sym.parent.unwrap()) == token || (
            range_chars(s, sym.parent.unwrap()) == st.1 && (stack.len() == 1 || (stack.len() > 1
                && is_cur && stack[stack.len() - 2].scope_node is Some && stack[stack.len()
                - 2].scope_node.unwrap().spec_contains(byte_idx)))))
        }),
{
}


/// On a named port connection a port is judged by the scope enclosing the
/// innermost one: it is found when its name is the token and that enclosing
/// scope holds the cursor in the cursor's document, and not found when that
/// scope does not hold the cursor.
pub proof fn law_named_port_judges_ports_by_enclosing_scope(
    s: Seq<char>,
    i: int,
    is_cur: bool,
    byte_idx: int,
    token: Seq<char>,
    st: (Seq<Symbol>, Seq<(usize, Range)>),
    sym: Symbol,
)
    requires
        sym.parent is Some,
        !(sym.direction is NotPort),
        stack_step(st.0, sym).len() > 1,
        stack_step(st.0, sym)[stack_step(st.0, sym).len() - 2].scope_node is Some,
    ensures
        ({
            let stack = stack_step(st.0, sym);
            let enclosing = stack[stack.len() - 2].scope_node.unwrap();
            let next = definition_step(s, i, is_cur, byte_idx, token, true, st, sym);
            &&& (is_cur && enclosing.spec_contains(byte_idx) && range_chars(s, sym.ident_node) == token)
                ==> next.1 == st.1.push((i as usize, spec_byte_range_to_range(s, sym.ident_node)))
            &&& !(is_cur && enclosing.spec_contains(byte_idx)) ==> next.1 == st.1
        }),
{
}

/// The first pass of dot completion takes as the token's type the type of a
/// symbol named the token that is visible at the cursor, and keeps the type
/// found so far otherwise; it collects nothing.
pub proof fn law_dot_finds_type_of_token(
    s: Seq<char>,
    byte_idx: int,
    token: Seq<char>,
    st: DotState,
    sym: Symbol,
)
    ensures
        ({
            let stack = stack_step(st.0, sym);
            let next = dot_find_step(s, byte_idx, token, st, sym);
            let visible = sym.parent is None || last_scope(stack) is None || last_scope(
                stack,
            ).unwrap().spec_contains(byte_idx);
            &&& next.0 == stack
            &&& next.2 == st.2
            &&& (visible && sym.type_node is Some && range_chars(s, sym.ident_node) == token) ==> next.1
                == range_chars(s, sym.type_node.unwrap())
            &&& !(sym.type_node is Some && range_chars(s, sym.ident_node) == token) ==> next.1 == st.1
            &&& !visible ==> next.1 == st.1
        }),
{
}


/// Identifier completion offers a symbol whose identifier starts with the
/// token when it is top-level, or when it is a member and the innermost open
/// scope (if any) holds the cursor in the cursor's document; a member under an
/// open scope that does not hold the cursor, or one in another document, is
/// left out; nothing else is added.
pub proof fn law_completion_members_follow_innermost_scope(
    s: Seq<char>,
    i: int,
    is_cur: bool,
    byte_idx: int,
    token: Seq<char>,
    st: (Seq<Symbol>, Seq<(usize, Symbol)>),
    sym: Symbol,
)
    ensures
        ({
            let stack = stack_step(st.0, sym);
            let next = completion_step(s, i, is_cur, byte_idx, token, st, sym);
            let matches_token = starts_with(range_chars(s, sym.ident_node), token);
            let pushed = st.1.push((i as usize, sym));
            &&& next.0 == stack
            &&& next.1 == st.1 || next.1 == pushed
            &&& !matches_token ==> next.1 == st.1
            &&& (matches_token && (sym.parent is None || last_scope(stack) is None)) ==> next.1 == pushed
            &&& (matches_token && sym.parent is Some && last_scope(stack) is Some) ==> (next.1 == pushed
                <==> (is_cur && last_scope(stack).unwrap().spec_contains(byte_idx)))
        }),
{
    let pushed = st.1.push((i as usize, sym));
    assert(pushed.len() == st.1.len() + 1);
    assert(pushed != st.1);
}

} // verus!
