//! Finding the token under the cursor, for definitions and for completions.
use crate::position::{pos_char, pos_valid, LSPSupport, Position};
use crate::rope::{rope_char, rope_chars, slice_char, slice_chars, slice_len_chars, slice_utf16_cu_to_char};
use crate::strings::{
    char_is_alphanumeric, char_is_whitespace, is_alphanumeric, is_whitespace, str_eq, string_push,
};
use crate::text::{lemma_utf16_to_char, utf16_len, utf16_to_char_idx};
use ropey::{Rope, RopeSlice};
use vstd::prelude::*;

verus! {

/// A char that can be part of an identifier.
pub open spec fn is_word(c: char) -> bool {
    is_alphanumeric(c) || c == '_'
}

/// A char kept when reading the token to complete: identifier chars, dots and brackets.
pub open spec fn is_comp(c: char) -> bool {
    is_word(c) || c == '.' || c == '[' || c == ']'
}

/// Start of the run of identifier chars that ends at `k`.
pub open spec fn word_back(s: Seq<char>, k: int) -> int
    decreases k,
{
    if 0 < k <= s.len() && is_word(s[k - 1]) {
        word_back(s, k - 1)
    } else {
        k
    }
}

/// End of the run of identifier chars that starts at `k`.
pub open spec fn word_fwd(s: Seq<char>, k: int) -> int
    decreases s.len() - k,
{
    if 0 <= k < s.len() && is_word(s[k]) {
        word_fwd(s, k + 1)
    } else {
        k
    }
}

/// Start of the run of completion chars that ends at `k`.
pub open spec fn comp_back(s: Seq<char>, k: int) -> int
    decreases k,
{
    if 0 < k <= s.len() && is_comp(s[k - 1]) {
        comp_back(s, k - 1)
    } else {
        k
    }
}

/// The identifier around char index `k`: the run of identifier chars that
/// ends at `k`, followed by the one that starts at `k`.
pub open spec fn definition_token(s: Seq<char>, k: int) -> Seq<char> {
    s.subrange(word_back(s, k), word_fwd(s, k))
}

/// Index of the first `[` at or after `i`, or the length.
pub open spec fn first_bracket(t: Seq<char>, i: int) -> int
    decreases t.len() - i,
{
    if i < 0 || i >= t.len() {
        t.len() as int
    } else if t[i] == '[' {
        i
    } else {
        first_bracket(t, i + 1)
    }
}

/// Index of the last `;` before `p`, or -1.
pub open spec fn last_semicolon(s: Seq<char>, p: int) -> int
    decreases p,
{
    if p <= 0 || p > s.len() {
        -1
    } else if s[p - 1] == ';' {
        p - 1
    } else {
        last_semicolon(s, p - 1)
    }
}

/// Index of the first identifier char at or after `i`, or the length.
pub open spec fn word_from(s: Seq<char>, i: int) -> int
    decreases s.len() - i,
{
    if i < 0 || i >= s.len() {
        s.len() as int
    } else if is_word(s[i]) {
        i
    } else {
        word_from(s, i + 1)
    }
}

/// The completion chars before char `k` of the line, cut at the first `[`.
pub open spec fn completion_prefix(line: Seq<char>, k: int) -> Seq<char> {
    let t = line.subrange(comp_back(line, k), k);
    t.take(first_bracket(t, 0))
}

/// The token to complete at char `k` of the line (char `p` of the text): the
/// completion prefix, or, when that is a lone `.`, the first identifier after
/// the last `;` before the cursor (the module being instantiated).
pub open spec fn completion_token(text: Seq<char>, line: Seq<char>, k: int, p: int) -> Seq<char> {
    let r = completion_prefix(line, k);
    if r == "."@ {
        let q = last_semicolon(text, p);
        if q < 0 {
            Seq::empty()
        } else {
            let w = word_from(text, q);
            text.subrange(w, word_fwd(text, w))
        }
    } else {
        r
    }
}

/// The last char before `k` that is not whitespace, or a space.
pub open spec fn last_non_whitespace(s: Seq<char>, k: int) -> char
    decreases k,
{
    if k <= 0 || k > s.len() {
        ' '
    } else if !is_whitespace(s[k - 1]) {
        s[k - 1]
    } else {
        last_non_whitespace(s, k - 1)
    }
}

/// Whether `c` can be part of an identifier.
fn word_char(c: char) -> (b: bool)
    ensures
        b == is_word(c),
{
    char_is_alphanumeric(c) || c == '_'
}

/// Whether `c` is kept when reading the token to complete.
fn comp_char(c: char) -> (b: bool)
    ensures
        b == is_comp(c),
{
    char_is_alphanumeric(c) || c == '_' || c == '.' || c == '[' || c == ']'
}

/// A string of the chars `k..e` of a slice.
fn slice_string(line: &RopeSlice, k: usize, e: usize) -> (r: String)
    requires
        k <= e <= slice_chars(*line).len(),
    ensures
        r@ == slice_chars(*line).subrange(k as int, e as int),
{
    let mut r = String::new();
    let mut i = k;
    while i < e
        invariant
            k <= i <= e <= slice_chars(*line).len(),
            r@ == slice_chars(*line).subrange(k as int, i as int),
        decreases e - i,
    {
        string_push(&mut r, slice_char(line, i));
        proof {
            assert(slice_chars(*line).subrange(k as int, i + 1) =~= slice_chars(*line).subrange(
                k as int,
                i as int,
            ).push(slice_chars(*line)[i as int]));
        }
        i = i + 1;
    }
    r
}

/// The char index of a UTF-16 column of a line.
fn column_char(line: &RopeSlice, character: u32) -> (k: usize)
    requires
        character <= utf16_len(slice_chars(*line)),
    ensures
        k == utf16_to_char_idx(slice_chars(*line), character as int),
        k <= slice_chars(*line).len(),
{
    proof {
        lemma_utf16_to_char(slice_chars(*line), character as int);
    }
    slice_utf16_cu_to_char(line, character as usize)
}

/// Retrieve the token the user invoked goto definition or hover on: the
/// identifier chars around the cursor's column on its line.
pub fn get_definition_token(line: RopeSlice, pos: Position) -> (token: String)
    requires
        pos.character <= utf16_len(slice_chars(line)),
    ensures
        token@ == definition_token(
            slice_chars(line),
            utf16_to_char_idx(slice_chars(line), pos.character as int),
        ),
{
    let ghost s = slice_chars(line);
    let k = column_char(&line, pos.character);
    let len = slice_len_chars(&line);
    let mut start = k;
    while start > 0 && word_char(slice_char(&line, start - 1))
        invariant
            s == slice_chars(line),
            len == s.len(),
            start <= k <= len,
            word_back(s, k as int) == word_back(s, start as int),
        decreases start,
    {
        start = start - 1;
    }
    let mut end = k;
    while end < len && word_char(slice_char(&line, end))
        invariant
            s == slice_chars(line),
            len == s.len(),
            k <= end <= len,
            word_fwd(s, k as int) == word_fwd(s, end as int),
        decreases len - end,
    {
        end = end + 1;
    }
    slice_string(&line, start, end)
}

/// Attempt to get the token the user was trying to complete, by filtering out
/// characters unneeded for name resolution.
#[verifier::spinoff_prover]
pub fn get_completion_token(text: &Rope, line: RopeSlice, pos: Position) -> (token: String)
    requires
        pos.character <= utf16_len(slice_chars(line)),
        completion_prefix(
            slice_chars(line),
            utf16_to_char_idx(slice_chars(line), pos.character as int),
        ) == "."@ ==> pos_valid(rope_chars(*text), pos),
    ensures
        token@ == completion_token(
            rope_chars(*text),
            slice_chars(line),
            utf16_to_char_idx(slice_chars(line), pos.character as int),
            pos_char(rope_chars(*text), pos),
        ),
{
    let ghost s = slice_chars(line);
    let k = column_char(&line, pos.character);
    let mut start = k;
    while start > 0 && comp_char(slice_char(&line, start - 1))
        invariant
            s == slice_chars(line),
            start <= k <= s.len(),
            comp_back(s, k as int) == comp_back(s, start as int),
        decreases start,
    {
        start = start - 1;
    }
    // cut the token at its first bracket
    let ghost t = s.subrange(start as int, k as int);
    let mut cut = start;
    while cut < k && slice_char(&line, cut) != '['
        invariant
            s == slice_chars(line),
            t == s.subrange(start as int, k as int),
            start <= cut <= k <= s.len(),
            first_bracket(t, 0) == first_bracket(t, cut - start),
        decreases k - cut,
    {
        cut = cut + 1;
    }
    proof {
        assert(t.take(first_bracket(t, 0)) =~= s.subrange(start as int, cut as int));
    }
    let result = slice_string(&line, start, cut);
    if str_eq(result.as_str(), ".") {
        // probably a instantiation, the token should be what we're instatiating
        let ghost tc = rope_chars(*text);
        let p = text.pos_to_char(&pos);
        proof {
            crate::position::lemma_pos_char_le_len(tc, pos);
        }
        // go to the last semicolon
        let mut q = p;
        while q > 0 && rope_char(text, q - 1) != ';'
            invariant
                tc == rope_chars(*text),
                q <= p <= tc.len(),
                last_semicolon(tc, p as int) == last_semicolon(tc, q as int),
            decreases q,
        {
            q = q - 1;
        }
        if q == 0 {
            return String::new();
        }
        // go the the start of the next symbol
        let n = crate::rope::rope_len_chars(text);
        let mut w = q - 1;
        while w < n && !word_char(rope_char(text, w))
            invariant
                tc == rope_chars(*text),
                n == tc.len(),
                w <= n,
                word_from(tc, (q - 1) as int) == word_from(tc, w as int),
            decreases n - w,
        {
            w = w + 1;
        }
        // then extract the next symbol
        let mut e = w;
        while e < n && word_char(rope_char(text, e))
            invariant
                tc == rope_chars(*text),
                n == tc.len(),
                w <= e <= n,
                word_fwd(tc, w as int) == word_fwd(tc, e as int),
            decreases n - e,
        {
            e = e + 1;
        }
        let mut token = String::new();
        let mut i = w;
        while i < e
            invariant
                tc == rope_chars(*text),
                w <= i <= e <= tc.len(),
                token@ == tc.subrange(w as int, i as int),
            decreases e - i,
        {
            string_push(&mut token, rope_char(text, i));
            proof {
                assert(tc.subrange(w as int, i + 1) =~= tc.subrange(w as int, i as int).push(
                    tc[i as int],
                ));
            }
            i = i + 1;
        }
        token
    } else {
        result
    }
}

/// Get the previous non-whitespace character before a position, or a space.
pub fn prev_char(text: &Rope, pos: &Position) -> (c: char)
    requires
        pos_valid(rope_chars(*text), *pos),
    ensures
        c == last_non_whitespace(rope_chars(*text), pos_char(rope_chars(*text), *pos)),
{
    let ghost s = rope_chars(*text);
    let char_idx = text.pos_to_char(pos);
    proof {
        crate::position::lemma_pos_char_le_len(s, *pos);
    }
    let mut i = char_idx;
    while i > 0
        invariant
            s == rope_chars(*text),
            i <= char_idx <= s.len(),
            char_idx == pos_char(s, *pos),
            last_non_whitespace(s, char_idx as int) == last_non_whitespace(s, i as int),
        decreases i,
    {
        let res = rope_char(text, i - 1);
        if !char_is_whitespace(res) {
            return res;
        }
        i = i - 1;
    }
    ' '
}

} // verus!
