//! Hover text: a definition's line together with the comment lines above it.
use crate::lookup::starts_with;
use crate::rope::{
    rope_char_to_byte, rope_chars, rope_len_chars, rope_line, rope_line_to_char, slice_to_string,
};
use crate::strings::{char_is_whitespace, is_whitespace, string_of, string_push};
use crate::text::{
    lemma_line_start, lemma_line_start_mono, lemma_utf8_prefix_mono, lemma_utf8_prefix_split,
    line_chars, line_count, line_start, utf8_prefix,
};
use ropey::Rope;
use vstd::prelude::*;
use vstd::string::StrSliceExecFns;

verus! {

/// Index of the first char at or after `i` that is not whitespace, or the length.
pub open spec fn non_ws_from(s: Seq<char>, i: int) -> int
    decreases s.len() - i,
{
    if 0 <= i < s.len() && is_whitespace(s[i]) {
        non_ws_from(s, i + 1)
    } else {
        i
    }
}

/// Index just after the last char before `j` that is not whitespace, or 0.
pub open spec fn non_ws_to(s: Seq<char>, j: int) -> int
    decreases j,
{
    if 0 < j <= s.len() && is_whitespace(s[j - 1]) {
        non_ws_to(s, j - 1)
    } else {
        j
    }
}

/// The first non-whitespace index lies between `i` and the length.
pub proof fn lemma_non_ws_from_bounds(s: Seq<char>, i: int)
    requires
        0 <= i <= s.len(),
    ensures
        i <= non_ws_from(s, i) <= s.len(),
    decreases s.len() - i,
{
    if i < s.len() && is_whitespace(s[i]) {
        lemma_non_ws_from_bounds(s, i + 1);
    }
}

/// `s` without leading whitespace.
pub open spec fn trim_start(s: Seq<char>) -> Seq<char> {
    s.skip(non_ws_from(s, 0))
}

/// `s` without trailing whitespace.
pub open spec fn trim_end(s: Seq<char>) -> Seq<char> {
    s.take(non_ws_to(s, s.len() as int))
}

/// `t` is a suffix of `s`.
pub open spec fn ends_with(s: Seq<char>, t: Seq<char>) -> bool {
    t.len() <= s.len() && s.skip(s.len() - t.len()) == t
}

/// `s` without the prefix `p`, when it has it.
pub open spec fn strip_prefix(s: Seq<char>, p: Seq<char>) -> Seq<char> {
    if starts_with(s, p) {
        s.skip(p.len() as int)
    } else {
        s
    }
}

/// A string of `n` spaces.
pub open spec fn spaces(n: nat) -> Seq<char> {
    Seq::new(n, |i: int| ' ')
}

/// The hover state after looking at the line above: whether it is still part
/// of the comment, and whether a block comment is open.
pub open spec fn classify(cur: Seq<char>, multiline: bool) -> (bool, bool) {
    let l = trim_start(cur);
    let r = trim_end(cur);
    let opens = starts_with(l, "/*"@);
    let closes = ends_with(r, "*/"@);
    if opens && closes {
        (true, multiline)
    } else if closes {
        (true, true)
    } else if opens {
        (true, false)
    } else {
        (starts_with(l, "//"@) || multiline, multiline)
    }
}

/// The comment lines directly above line `idx`, nearest first (line 0 never
/// counts); `multiline` says whether a block comment is open below them.
pub open spec fn comments_above(s: Seq<char>, idx: int, multiline: bool) -> Seq<Seq<char>>
    decreases idx,
{
    if idx - 1 <= 0 {
        Seq::empty()
    } else {
        let cur = line_chars(s, idx - 1);
        let c = classify(cur, multiline);
        if c.0 {
            seq![cur] + comments_above(s, idx - 1, c.1)
        } else {
            Seq::empty()
        }
    }
}

/// The concatenation of `lines`, each stripped of prefix `p`.
pub open spec fn join_stripped(lines: Seq<Seq<char>>, p: Seq<char>) -> Seq<char>
    decreases lines.len(),
{
    if lines.len() == 0 {
        Seq::empty()
    } else {
        join_stripped(lines.drop_last(), p) + strip_prefix(lines.last(), p)
    }
}

/// The hover text of line `line`: the line itself for line 0; otherwise the
/// comment lines above it and the line, top-down, each stripped of the line's
/// indentation (one space per byte of leading whitespace), joined, with
/// trailing whitespace removed.
pub open spec fn hover_text(s: Seq<char>, line: int) -> Seq<char> {
    if line == 0 {
        line_chars(s, 0)
    } else {
        let cur = line_chars(s, line);
        let indent = spaces(utf8_prefix(cur, non_ws_from(cur, 0)));
        trim_end(join_stripped((seq![cur] + comments_above(s, line, false)).reverse(), indent))
    }
}

/// Index of the first char that is not whitespace.
fn leading_ws(s: &str) -> (i: usize)
    ensures
        i == non_ws_from(s@, 0),
        i <= s@.len(),
{
    let n = s.unicode_len();
    let mut i: usize = 0;
    while i < n && char_is_whitespace(s.get_char(i))
        invariant
            n == s@.len(),
            i <= n,
            non_ws_from(s@, 0) == non_ws_from(s@, i as int),
        decreases n - i,
    {
        i = i + 1;
    }
    i
}

/// Index just after the last char that is not whitespace.
fn trailing_ws(s: &str) -> (j: usize)
    ensures
        j == non_ws_to(s@, s@.len() as int),
        j <= s@.len(),
{
    let n = s.unicode_len();
    let mut j: usize = n;
    while j > 0 && char_is_whitespace(s.get_char(j - 1))
        invariant
            n == s@.len(),
            j <= n,
            non_ws_to(s@, n as int) == non_ws_to(s@, j as int),
        decreases j,
    {
        j = j - 1;
    }
    j
}

/// `s` without leading whitespace.
pub fn str_trim_start(s: &str) -> (r: String)
    ensures
        r@ == trim_start(s@),
{
    let i = leading_ws(s);
    let r = string_of(s, i, s.unicode_len());
    proof {
        assert(s@.subrange(i as int, s@.len() as int) =~= s@.skip(i as int));
    }
    r
}

/// `s` without trailing whitespace.
pub fn str_trim_end(s: &str) -> (r: String)
    ensures
        r@ == trim_end(s@),
{
    let j = trailing_ws(s);
    let r = string_of(s, 0, j);
    proof {
        assert(s@.subrange(0, j as int) =~= s@.take(j as int));
    }
    r
}

/// Whether `s` starts with `p`.
pub fn str_starts_with(s: &str, p: &str) -> (b: bool)
    ensures
        b == starts_with(s@, p@),
{
    let n = s.unicode_len();
    let m = p.unicode_len();
    if m > n {
        return false;
    }
    let mut i: usize = 0;
    while i < m
        invariant
            n == s@.len(),
            m == p@.len(),
            m <= n,
            i <= m,
            s@.take(i as int) == p@.take(i as int),
        decreases m - i,
    {
        if s.get_char(i) != p.get_char(i) {
            proof {
                if s@.take(m as int) == p@ {
                    assert(s@.take(m as int)[i as int] == s@[i as int]);
                }
            }
            return false;
        }
        proof {
            assert(s@.take(i + 1) =~= s@.take(i as int).push(s@[i as int]));
            assert(p@.take(i + 1) =~= p@.take(i as int).push(p@[i as int]));
        }
        i = i + 1;
    }
    proof {
        assert(p@.take(m as int) =~= p@);
    }
    true
}

/// Whether `s` ends with `p`.
pub fn str_ends_with(s: &str, p: &str) -> (b: bool)
    ensures
        b == ends_with(s@, p@),
{
    let n = s.unicode_len();
    let m = p.unicode_len();
    if m > n {
        return false;
    }
    let d = n - m;
    let mut i: usize = 0;
    while i < m
        invariant
            n == s@.len(),
            m == p@.len(),
            d == n - m,
            i <= m,
            s@.skip(d as int).take(i as int) == p@.take(i as int),
        decreases m - i,
    {
        if s.get_char(d + i) != p.get_char(i) {
            proof {
                if s@.skip(d as int) == p@ {
                    assert(s@.skip(d as int)[i as int] == s@[d + i]);
                }
            }
            return false;
        }
        proof {
            assert(s@.skip(d as int).take(i + 1) =~= s@.skip(d as int).take(i as int).push(
                s@[d + i],
            ));
            assert(p@.take(i + 1) =~= p@.take(i as int).push(p@[i as int]));
        }
        i = i + 1;
    }
    proof {
        assert(p@.take(m as int) =~= p@);
        assert(s@.skip(d as int).take(m as int) =~= s@.skip(d as int));
    }
    true
}

/// Appends the chars of `t` to `s`.
fn push_str(s: &mut String, t: &str)
    ensures
        final(s)@ == old(s)@ + t@,
{
    let n = t.unicode_len();
    let mut i: usize = 0;
    while i < n
        invariant
            n == t@.len(),
            i <= n,
            s@ == old(s)@ + t@.take(i as int),
        decreases n - i,
    {
        string_push(s, t.get_char(i));
        proof {
            assert(t@.take(i + 1) =~= t@.take(i as int).push(t@[i as int]));
            assert(old(s)@ + t@.take(i + 1) =~= (old(s)@ + t@.take(i as int)).push(t@[i as int]));
        }
        i = i + 1;
    }
    proof {
        assert(t@.take(n as int) =~= t@);
    }
}

/// `s` without the prefix `p`, when it has it.
fn str_strip_prefix(s: &str, p: &str) -> (r: String)
    ensures
        r@ == strip_prefix(s@, p@),
{
    if str_starts_with(s, p) {
        let r = string_of(s, p.unicode_len(), s.unicode_len());
        proof {
            assert(s@.subrange(p@.len() as int, s@.len() as int) =~= s@.skip(p@.len() as int));
        }
        r
    } else {
        let r = string_of(s, 0, s.unicode_len());
        proof {
            assert(s@.subrange(0, s@.len() as int) =~= s@);
        }
        r
    }
}

/// The views of a list of strings.
pub open spec fn views(v: Seq<String>) -> Seq<Seq<char>> {
    v.map_values(|x: String| x@)
}

/// Get the hover information: the line, preceded by the comment lines above it.
#[verifier::spinoff_prover]
pub fn get_hover(doc: &Rope, line: usize) -> (r: String)
    requires
        line < line_count(rope_chars(*doc)),
    ensures
        r@ == hover_text(rope_chars(*doc), line as int),
{
    let ghost s = rope_chars(*doc);
    if line == 0 {
        return slice_to_string(&rope_line(doc, line));
    }
    let mut hover: Vec<String> = Vec::new();
    let mut multiline: bool = false;
    let mut valid: bool = true;
    let mut current: String = slice_to_string(&rope_line(doc, line));
    let ghost cur0 = current@;
    let ghost full = seq![cur0] + comments_above(s, line as int, false);
    // the byte width of the definition line's indentation
    let k = leading_ws(current.as_str());
    let total = rope_len_chars(doc);
    let ls = rope_line_to_char(doc, line);
    proof {
        lemma_line_start(s, line as int);
        lemma_line_start(s, line + 1);
        lemma_line_start_mono(s, line as int, line + 1);
        lemma_utf8_prefix_split(s, ls as int, line_start(s, line + 1), k as int);
        lemma_utf8_prefix_mono(s, ls as int, ls + k);
    }
    let width = rope_char_to_byte(doc, ls + k) - rope_char_to_byte(doc, ls);
    let mut ltrim = String::new();
    let mut w: usize = 0;
    while w < width
        invariant
            w <= width,
            ltrim@ == spaces(w as nat),
        decreases width - w,
    {
        string_push(&mut ltrim, ' ');
        proof {
            assert(ltrim@ =~= spaces((w + 1) as nat));
        }
        w = w + 1;
    }
    let mut line_idx = line;
    proof {
        assert(full =~= views(hover@) + seq![current@] + comments_above(s, line_idx as int, multiline));
    }
    // iterate upwards from the definition, and grab the comments
    while valid
        invariant
            s == rope_chars(*doc),
            line_idx <= line < line_count(s),
            valid ==> 0 < line_idx,
            valid ==> current@ == line_chars(s, line_idx as int),
            valid ==> full == views(hover@) + seq![current@] + comments_above(
                s,
                line_idx as int,
                multiline,
            ),
            !valid ==> full == views(hover@),
        decreases line_idx,
    {
        let ghost hv = views(hover@);
        let ghost m = multiline;
        let ghost idx = line_idx as int;
        hover.push(current.clone());
        proof {
            assert(views(hover@) =~= hv.push(current@));
        }
        line_idx = line_idx - 1;
        valid = false;
        if line_idx > 0 {
            current = slice_to_string(&rope_line(doc, line_idx));
            let currentl = str_trim_start(current.as_str());
            let currentr = str_trim_end(current.as_str());
            if str_starts_with(currentl.as_str(), "/*") && str_ends_with(currentr.as_str(), "*/") {
                valid = true;
            } else if str_ends_with(currentr.as_str(), "*/") {
                multiline = true;
                valid = true;
            } else if str_starts_with(currentl.as_str(), "/*") {
                multiline = false;
                valid = true;
            } else {
                valid = str_starts_with(currentl.as_str(), "//") || multiline;
            }
            proof {
                let c = classify(current@, m);
                assert(valid == c.0 && multiline == c.1);
                if valid {
                    assert(comments_above(s, idx, m) == seq![current@] + comments_above(
                        s,
                        line_idx as int,
                        multiline,
                    ));
                    assert(full =~= views(hover@) + seq![current@] + comments_above(
                        s,
                        line_idx as int,
                        multiline,
                    ));
                } else {
                    assert(comments_above(s, idx, m) == Seq::<Seq<char>>::empty());
                    assert(full =~= views(hover@));
                }
            }
        } else {
            proof {
                assert(comments_above(s, idx, m) == Seq::<Seq<char>>::empty());
                assert(full =~= views(hover@));
            }
        }
    }
    // join the lines top-down, each without the definition's indentation
    let n = hover.len();
    let ghost top = full.reverse();
    let mut result = String::new();
    let mut k: usize = 0;
    while k < n
        invariant
            n == hover@.len(),
            full == views(hover@),
            top == full.reverse(),
            k <= n,
            ltrim@ == spaces(width as nat),
            result@ == join_stripped(top.take(k as int), ltrim@),
        decreases n - k,
    {
        let stripped = str_strip_prefix(hover[n - 1 - k].as_str(), ltrim.as_str());
        proof {
            assert(top.take(k + 1).drop_last() =~= top.take(k as int));
            assert(top[k as int] == full[n - 1 - k]);
        }
        push_str(&mut result, stripped.as_str());
        k = k + 1;
    }
    proof {
        assert(top.take(n as int) =~= top);
    }
    str_trim_end(result.as_str())
}

} // verus!
