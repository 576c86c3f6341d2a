//! Conversions between LSP positions (line, UTF-16 column), char indexes and
//! byte offsets of a rope, and applying edits to a rope.
use crate::rope::{
    rope_byte_to_char, rope_char_to_byte, rope_char_to_line, rope_chars, rope_insert,
    rope_len_bytes, rope_len_chars, rope_len_lines, rope_line, rope_line_to_char, rope_remove,
    slice_char_to_utf16_cu, slice_len_chars, slice_utf16_cu_to_char,
};
use crate::symbol::ByteRange;
use crate::text::{
    byte_to_char_idx, is_boundary, lemma_byte_to_char, lemma_byte_to_char_of_prefix,
    lemma_char_in_line, lemma_line_start, lemma_line_start_mono, lemma_utf16_prefix_mono,
    lemma_utf16_to_char, lemma_utf16_to_char_of_prefix, lemma_lines_before_mono, lemma_utf8_prefix_mono, line_chars,
    line_count, line_start, lines_before, utf16_len, utf16_prefix, utf16_to_char_idx, utf8_len,
    utf8_prefix,
};
use ropey::Rope;
use vstd::prelude::*;

verus! {

/// A position in a document: zero-based line and UTF-16 column.
#[derive(Clone, Copy, Debug, PartialEq, Eq, Structural)]
pub struct Position {
    pub line: u32,
    pub character: u32,
}

/// A range of positions.
#[derive(Clone, Copy, Debug, PartialEq, Eq, Structural)]
pub struct Range {
    pub start: Position,
    pub end: Position,
}

/// An edit sent by the client: replace `range` (the whole text when absent) by `text`.
#[derive(Clone, Debug)]
pub struct ContentChange {
    pub range: Option<Range>,
    pub range_length: Option<u32>,
    pub text: String,
}

impl Position {
    pub fn new(line: u32, character: u32) -> (p: Self)
        ensures
            p.line == line,
            p.character == character,
    {
        Position { line, character }
    }
}

impl Range {
    pub fn new(start: Position, end: Position) -> (r: Self)
        ensures
            r.start == start,
            r.end == end,
    {
        Range { start, end }
    }
}

/// `p` names a line of `s` and a column within that line.
pub open spec fn pos_valid(s: Seq<char>, p: Position) -> bool {
    &&& p.line < line_count(s)
    &&& p.character <= utf16_len(line_chars(s, p.line as int))
}

/// The char index a position designates.
pub open spec fn pos_char(s: Seq<char>, p: Position) -> int {
    line_start(s, p.line as int) + utf16_to_char_idx(line_chars(s, p.line as int), p.character as int)
}

/// The byte offset a position designates.
pub open spec fn pos_byte(s: Seq<char>, p: Position) -> int {
    utf8_prefix(s, pos_char(s, p)) as int
}

/// The position of a char index (line and column truncated to 32 bits).
pub open spec fn char_pos(s: Seq<char>, c: int) -> Position {
    let l = lines_before(s, c) as int;
    Position {
        line: l as u32,
        character: utf16_prefix(line_chars(s, l), c - line_start(s, l)) as u32,
    }
}

/// The position of a byte offset, clamped to the last byte.
pub open spec fn byte_pos(s: Seq<char>, b: int) -> Position {
    let last = utf8_len(s) - 1;
    char_pos(s, byte_to_char_idx(s, if b < last { b } else { last }))
}

/// The chars of `s` after replacing chars `start..end` by `text`.
pub open spec fn splice(s: Seq<char>, start: int, end: int, text: Seq<char>) -> Seq<char> {
    s.take(start) + text + s.skip(end)
}

/// The text after a change: the whole text, or the changed range replaced.
pub open spec fn changed_text(s: Seq<char>, change: ContentChange) -> Seq<char> {
    match change.range {
        Some(r) => splice(s, pos_char(s, r.start), pos_char(s, r.end), change.text@),
        None => s,
    }
}

/// A change the rope can apply without panicking.
pub open spec fn change_valid(s: Seq<char>, change: ContentChange) -> bool {
    match change.range {
        Some(r) => pos_valid(s, r.start) && pos_valid(s, r.end) && pos_char(s, r.start) <= pos_char(
            s,
            r.end,
        ),
        None => true,
    }
}

proof fn lemma_line_chars(s: Seq<char>, l: int)
    requires
        0 <= l < line_count(s),
    ensures
        0 <= line_start(s, l) <= line_start(s, l + 1) <= s.len(),
        line_chars(s, l).len() == line_start(s, l + 1) - line_start(s, l),
{
    lemma_line_start(s, l);
    lemma_line_start(s, l + 1);
    lemma_line_start_mono(s, l, l + 1);
}

proof fn lemma_pos_char_bounds(s: Seq<char>, p: Position)
    requires
        pos_valid(s, p),
    ensures
        line_start(s, p.line as int) <= pos_char(s, p) <= line_start(s, p.line + 1) <= s.len(),
        0 <= pos_char(s, p) <= s.len(),
{
    lemma_line_chars(s, p.line as int);
    lemma_utf16_to_char(line_chars(s, p.line as int), p.character as int);
}

/// A valid position designates a char index within the text.
pub proof fn lemma_pos_char_le_len(s: Seq<char>, p: Position)
    requires
        pos_valid(s, p),
    ensures
        0 <= pos_char(s, p) <= s.len(),
{
    lemma_pos_char_bounds(s, p);
}

proof fn lemma_char_pos_valid(s: Seq<char>, c: int)
    requires
        0 <= c <= s.len(),
        s.len() < 0x8000_0000,
    ensures
        pos_valid(s, char_pos(s, c)),
        pos_char(s, char_pos(s, c)) == c,
{
    lemma_char_in_line(s, c);
    let l = lines_before(s, c) as int;
    lemma_lines_before_mono(s, 0, c);
    lemma_line_chars(s, l);
    let line = line_chars(s, l);
    let k = c - line_start(s, l);
    lemma_utf16_prefix_mono(line, 0, k);
    lemma_utf16_prefix_mono(line, k, line.len() as int);
    lemma_utf16_to_char_of_prefix(line, k);
}

/// Converting a char index to a position and back gives the same char index,
/// for any text whose positions fit in 32 bits.
pub proof fn law_char_pos_roundtrip(s: Seq<char>, c: int)
    requires
        0 <= c <= s.len(),
        s.len() < 0x8000_0000,
    ensures
        pos_valid(s, char_pos(s, c)),
        pos_char(s, char_pos(s, c)) == c,
{
    lemma_char_pos_valid(s, c);
}

/// Converting a byte offset that starts a char to a position and back gives the
/// same byte offset, for any text whose positions fit in 32 bits.
pub proof fn law_byte_pos_roundtrip(s: Seq<char>, b: int)
    requires
        is_boundary(s, b),
        0 <= b < utf8_len(s),
        s.len() < 0x8000_0000,
    ensures
        pos_valid(s, byte_pos(s, b)),
        pos_byte(s, byte_pos(s, b)) == b,
{
    let k = choose|k: int| 0 <= k <= s.len() && #[trigger] utf8_prefix(s, k) == b;
    lemma_byte_to_char_of_prefix(s, k);
    lemma_char_pos_valid(s, k);
}

/// A position whose column lies before the end of its line and not inside a
/// surrogate pair converts to a byte offset and back to the same position.
pub proof fn law_pos_byte_roundtrip(s: Seq<char>, p: Position)
    requires
        pos_valid(s, p),
        p.character < utf16_len(line_chars(s, p.line as int)),
        utf16_prefix(
            line_chars(s, p.line as int),
            utf16_to_char_idx(line_chars(s, p.line as int), p.character as int),
        ) == p.character,
    ensures
        byte_pos(s, pos_byte(s, p)) == p,
{
    let l = p.line as int;
    let line = line_chars(s, l);
    let k = utf16_to_char_idx(line, p.character as int);
    let c = pos_char(s, p);
    lemma_line_chars(s, l);
    lemma_utf16_to_char(line, p.character as int);
    assert(k < line.len());
    assert(c < line_start(s, l + 1));
    lemma_line_start(s, l);
    lemma_line_start(s, l + 1);
    lemma_lines_before_mono(s, line_start(s, l), c);
    assert(lines_before(s, c) == l);
    let b = utf8_prefix(s, c) as int;
    lemma_utf8_prefix_mono(s, c + 1, s.len() as int);
    assert(b < utf8_len(s));
    lemma_byte_to_char_of_prefix(s, c);
    assert(c - line_start(s, l) == k);
}

/// Whether `pos` names a line of the text and a column within that line.
pub fn pos_in_bounds(text: &Rope, pos: Position) -> (b: bool)
    ensures
        b == pos_valid(rope_chars(*text), pos),
{
    if pos.line as usize >= rope_len_lines(text) {
        return false;
    }
    let line = rope_line(text, pos.line as usize);
    let n = slice_len_chars(&line);
    let width = slice_char_to_utf16_cu(&line, n);
    pos.character as usize <= width
}

/// Helpers that convert between LSP positions and rope offsets.
pub trait LSPSupport {
    spec fn text(&self) -> Seq<char>;

    fn pos_to_byte(&self, pos: &Position) -> (b: usize)
        requires
            pos_valid(self.text(), *pos),
        ensures
            b == pos_byte(self.text(), *pos),
    ;

    fn pos_to_char(&self, pos: &Position) -> (c: usize)
        requires
            pos_valid(self.text(), *pos),
        ensures
            c == pos_char(self.text(), *pos),
    ;

    fn byte_to_pos(&self, byte_idx: usize) -> (p: Position)
        requires
            utf8_len(self.text()) > 0,
        ensures
            p == byte_pos(self.text(), byte_idx as int),
    ;

    fn char_to_pos(&self, char_idx: usize) -> (p: Position)
        requires
            char_idx <= self.text().len(),
        ensures
            p == char_pos(self.text(), char_idx as int),
    ;

    fn range_to_char_range(&self, range: &Range) -> (r: core::ops::Range<usize>)
        requires
            pos_valid(self.text(), range.start),
            pos_valid(self.text(), range.end),
        ensures
            r.start == pos_char(self.text(), range.start),
            r.end == pos_char(self.text(), range.end),
    ;

    fn char_range_to_range(&self, range: core::ops::Range<usize>) -> (r: Range)
        requires
            range.start <= self.text().len(),
            range.end <= self.text().len(),
        ensures
            r.start == char_pos(self.text(), range.start as int),
            r.end == char_pos(self.text(), range.end as int),
    ;

    fn byte_range_to_range(&self, range: ByteRange) -> (r: Range)
        requires
            utf8_len(self.text()) > 0,
        ensures
            r.start == byte_pos(self.text(), range.start as int),
            r.end == byte_pos(self.text(), range.end as int),
    ;

    fn range_to_byte_range(&self, range: Range) -> (r: ByteRange)
        requires
            pos_valid(self.text(), range.start),
            pos_valid(self.text(), range.end),
        ensures
            r.start == pos_byte(self.text(), range.start),
            r.end == pos_byte(self.text(), range.end),
    ;

    fn apply_change(&mut self, change: &ContentChange)
        requires
            change_valid(old(self).text(), *change),
        ensures
            final(self).text() == changed_text(old(self).text(), *change),
    ;
}

impl LSPSupport for Rope {
    open spec fn text(&self) -> Seq<char> {
        rope_chars(*self)
    }

    fn pos_to_byte(&self, pos: &Position) -> (b: usize) {
        proof {
            lemma_pos_char_bounds(self.text(), *pos);
        }
        rope_char_to_byte(self, self.pos_to_char(pos))
    }

    fn pos_to_char(&self, pos: &Position) -> (c: usize) {
        let line_slice = rope_line(self, pos.line as usize);
        let n = rope_len_chars(self);
        proof {
            lemma_line_chars(self.text(), pos.line as int);
            lemma_utf16_to_char(line_chars(self.text(), pos.line as int), pos.character as int);
        }
        rope_line_to_char(self, pos.line as usize) + slice_utf16_cu_to_char(
            &line_slice,
            pos.character as usize,
        )
    }

    fn byte_to_pos(&self, byte_idx: usize) -> (p: Position) {
        let last = rope_len_bytes(self) - 1;
        let clamped = if byte_idx < last {
            byte_idx
        } else {
            last
        };
        let c = rope_byte_to_char(self, clamped);
        proof {
            lemma_byte_to_char(self.text(), clamped as int);
        }
        self.char_to_pos(c)
    }

    fn char_to_pos(&self, char_idx: usize) -> (p: Position) {
        let line = rope_char_to_line(self, char_idx);
        proof {
            lemma_char_in_line(self.text(), char_idx as int);
            lemma_line_chars(self.text(), line as int);
        }
        let line_slice = rope_line(self, line);
        let start = rope_line_to_char(self, line);
        Position {
            line: line as u32,
            character: slice_char_to_utf16_cu(&line_slice, char_idx - start) as u32,
        }
    }

    fn range_to_char_range(&self, range: &Range) -> (r: core::ops::Range<usize>) {
        self.pos_to_char(&range.start)..self.pos_to_char(&range.end)
    }

    fn char_range_to_range(&self, range: core::ops::Range<usize>) -> (r: Range) {
        Range { start: self.char_to_pos(range.start), end: self.char_to_pos(range.end) }
    }

    fn byte_range_to_range(&self, range: ByteRange) -> (r: Range) {
        Range { start: self.byte_to_pos(range.start), end: self.byte_to_pos(range.end) }
    }

    fn range_to_byte_range(&self, range: Range) -> (r: ByteRange) {
        ByteRange { start: self.pos_to_byte(&range.start), end: self.pos_to_byte(&range.end) }
    }

    fn apply_change(&mut self, change: &ContentChange) {
        if let Some(range) = change.range {
            proof {
                lemma_pos_char_bounds(self.text(), range.end);
            }
            let char_range = self.range_to_char_range(&range);
            rope_remove(self, char_range.start, char_range.end);
            if !change.text.as_str().is_empty() {
                rope_insert(self, char_range.start, change.text.as_str());
            }
            proof {
                let s = old(self).text();
                assert(self.text() =~= splice(
                    s,
                    char_range.start as int,
                    char_range.end as int,
                    change.text@,
                ));
            }
        }
    }
}

} // verus!
