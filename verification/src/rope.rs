//! The text store: `ropey::Rope`, used through trusted wrappers whose
//! contracts are stated over the chars the rope holds.
use crate::text::{
    byte_to_char_idx, is_boundary, line_chars, line_count, line_start, lines_before, utf16_len,
    utf16_prefix, utf16_to_char_idx, utf8_len, utf8_prefix,
};
use ropey::{Rope, RopeSlice};
use vstd::prelude::*;

verus! {

#[verifier::external_type_specification]
#[verifier::external_body]
pub struct ExRope(Rope);

#[verifier::external_type_specification]
#[verifier::external_body]
pub struct ExRopeSlice<'a>(RopeSlice<'a>);

/// The chars a rope holds.
pub uninterp spec fn rope_chars(r: Rope) -> Seq<char>;

/// The chars a rope slice holds.
pub uninterp spec fn slice_chars(s: RopeSlice) -> Seq<char>;

/// `Rope::from_str`: the rope holds exactly the chars of `text`.
#[verifier::external_body]
pub(crate) fn rope_from_str(text: &str) -> (r: Rope)
    ensures
        rope_chars(r) == text@,
{
    Rope::from_str(text)
}

/// `Rope::len_chars`: the number of chars.
#[verifier::external_body]
pub(crate) fn rope_len_chars(r: &Rope) -> (n: usize)
    ensures
        n == rope_chars(*r).len(),
{
    r.len_chars()
}

/// `Rope::len_bytes`: the number of UTF-8 bytes.
#[verifier::external_body]
pub(crate) fn rope_len_bytes(r: &Rope) -> (n: usize)
    ensures
        n == utf8_len(rope_chars(*r)),
{
    r.len_bytes()
}

/// `Rope::len_lines`: one more than the number of line breaks.
#[verifier::external_body]
pub(crate) fn rope_len_lines(r: &Rope) -> (n: usize)
    ensures
        n == line_count(rope_chars(*r)),
{
    r.len_lines()
}

/// `Rope::char_to_byte`: the byte offset of a char index (panics past the end).
#[verifier::external_body]
pub(crate) fn rope_char_to_byte(r: &Rope, char_idx: usize) -> (b: usize)
    requires
        char_idx <= rope_chars(*r).len(),
    ensures
        b == utf8_prefix(rope_chars(*r), char_idx as int),
{
    r.char_to_byte(char_idx)
}

/// `Rope::byte_to_char`: the char a byte offset falls in (panics past the end).
#[verifier::external_body]
pub(crate) fn rope_byte_to_char(r: &Rope, byte_idx: usize) -> (c: usize)
    requires
        byte_idx <= utf8_len(rope_chars(*r)),
    ensures
        c == byte_to_char_idx(rope_chars(*r), byte_idx as int),
{
    r.byte_to_char(byte_idx)
}

/// `Rope::char_to_line`: the number of line breaks before a char index.
#[verifier::external_body]
pub(crate) fn rope_char_to_line(r: &Rope, char_idx: usize) -> (l: usize)
    requires
        char_idx <= rope_chars(*r).len(),
    ensures
        l == lines_before(rope_chars(*r), char_idx as int),
{
    r.char_to_line(char_idx)
}

/// `Rope::line_to_char`: the char index at which a line starts.
#[verifier::external_body]
pub(crate) fn rope_line_to_char(r: &Rope, line_idx: usize) -> (c: usize)
    requires
        line_idx <= line_count(rope_chars(*r)),
    ensures
        c == line_start(rope_chars(*r), line_idx as int),
{
    r.line_to_char(line_idx)
}

/// `Rope::line`: the chars of one line, its line break included.
#[verifier::external_body]
pub(crate) fn rope_line<'a>(r: &'a Rope, line_idx: usize) -> (s: RopeSlice<'a>)
    requires
        line_idx < line_count(rope_chars(*r)),
    ensures
        slice_chars(s) == line_chars(rope_chars(*r), line_idx as int),
{
    r.line(line_idx)
}

/// `Rope::char`: the char at an index.
#[verifier::external_body]
pub(crate) fn rope_char(r: &Rope, char_idx: usize) -> (c: char)
    requires
        char_idx < rope_chars(*r).len(),
    ensures
        c == rope_chars(*r)[char_idx as int],
{
    r.char(char_idx)
}

/// `Rope::byte_slice`: the chars between two byte offsets that fall on char boundaries.
#[verifier::external_body]
pub(crate) fn rope_byte_slice<'a>(r: &'a Rope, start: usize, end: usize) -> (s: RopeSlice<'a>)
    requires
        start <= end <= utf8_len(rope_chars(*r)),
        is_boundary(rope_chars(*r), start as int),
        is_boundary(rope_chars(*r), end as int),
    ensures
        slice_chars(s) == rope_chars(*r).subrange(
            byte_to_char_idx(rope_chars(*r), start as int),
            byte_to_char_idx(rope_chars(*r), end as int),
        ),
{
    r.byte_slice(start..end)
}

/// `Rope::remove`: drops the chars of a char range.
#[verifier::external_body]
pub(crate) fn rope_remove(r: &mut Rope, start: usize, end: usize)
    requires
        start <= end <= rope_chars(*old(r)).len(),
    ensures
        rope_chars(*final(r)) == rope_chars(*old(r)).take(start as int) + rope_chars(
            *old(r),
        ).skip(end as int),
{
    r.remove(start..end)
}

/// `Rope::insert`: inserts text at a char index.
#[verifier::external_body]
pub(crate) fn rope_insert(r: &mut Rope, char_idx: usize, text: &str)
    requires
        char_idx <= rope_chars(*old(r)).len(),
    ensures
        rope_chars(*final(r)) == rope_chars(*old(r)).take(char_idx as int) + text@ + rope_chars(
            *old(r),
        ).skip(char_idx as int),
{
    r.insert(char_idx, text)
}

/// `RopeSlice::len_chars`: the number of chars of a slice.
#[verifier::external_body]
pub(crate) fn slice_len_chars(s: &RopeSlice) -> (n: usize)
    ensures
        n == slice_chars(*s).len(),
{
    s.len_chars()
}

/// `RopeSlice::char`: the char at an index of a slice.
#[verifier::external_body]
pub(crate) fn slice_char(s: &RopeSlice, char_idx: usize) -> (c: char)
    requires
        char_idx < slice_chars(*s).len(),
    ensures
        c == slice_chars(*s)[char_idx as int],
{
    s.char(char_idx)
}

/// `RopeSlice::utf16_cu_to_char`: the char a UTF-16 offset falls in.
#[verifier::external_body]
pub(crate) fn slice_utf16_cu_to_char(s: &RopeSlice, utf16_idx: usize) -> (c: usize)
    requires
        utf16_idx <= utf16_len(slice_chars(*s)),
    ensures
        c == utf16_to_char_idx(slice_chars(*s), utf16_idx as int),
{
    s.utf16_cu_to_char(utf16_idx)
}

/// `RopeSlice::char_to_utf16_cu`: the UTF-16 offset of a char index.
#[verifier::external_body]
pub(crate) fn slice_char_to_utf16_cu(s: &RopeSlice, char_idx: usize) -> (u: usize)
    requires
        char_idx <= slice_chars(*s).len(),
    ensures
        u == utf16_prefix(slice_chars(*s), char_idx as int),
{
    s.char_to_utf16_cu(char_idx)
}

/// `String::from(RopeSlice)`: the slice's chars as a string.
#[verifier::external_body]
pub(crate) fn slice_to_string(s: &RopeSlice) -> (t: String)
    ensures
        t@ == slice_chars(*s),
{
    String::from(*s)
}

/// `RopeSlice == &str`: whether the slice holds exactly the chars of `text`.
#[verifier::external_body]
pub(crate) fn slice_eq_str(s: &RopeSlice, text: &str) -> (b: bool)
    ensures
        b == (slice_chars(*s) == text@),
{
    *s == text
}

/// `Rope::slice`: the chars of a char range.
#[verifier::external_body]
pub(crate) fn rope_slice<'a>(r: &'a Rope, start: usize, end: usize) -> (s: RopeSlice<'a>)
    requires
        start <= end <= rope_chars(*r).len(),
    ensures
        slice_chars(s) == rope_chars(*r).subrange(start as int, end as int),
{
    r.slice(start..end)
}

} // verus!
