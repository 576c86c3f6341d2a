//! Applying the client's changes to a document, and describing each ranged
//! change as an edit for incremental re-parsing.
use crate::position::{
    byte_pos, changed_text, change_valid, lemma_pos_char_le_len, pos_byte, pos_char, pos_in_bounds,
    splice, ContentChange, LSPSupport,
};
use crate::rope::{rope_chars, rope_from_str, rope_len_bytes, rope_len_chars};
use crate::text::{lemma_encode_utf8_len, lemma_utf8_len_append, lemma_utf8_prefix_take, utf8_len};
use ropey::Rope;
use vstd::prelude::*;

verus! {

/// A point of a document as the syntax tree counts it: row and column.
#[derive(Clone, Copy, Debug, PartialEq, Eq, Structural)]
pub struct Point {
    pub row: usize,
    pub column: usize,
}

/// One edit of a document, as incremental re-parsing needs it: the byte
/// offsets where it starts and where the replaced and the new text end, and
/// the points of those three places.
#[derive(Clone, Copy, Debug, PartialEq, Eq, Structural)]
pub struct InputEdit {
    pub start_byte: usize,
    pub old_end_byte: usize,
    pub new_end_byte: usize,
    pub start_position: Point,
    pub old_end_position: Point,
    pub new_end_position: Point,
}

/// The text after one change: a change without a range replaces the whole
/// text, a ranged change replaces its range.
pub open spec fn text_after(s: Seq<char>, c: ContentChange) -> Seq<char> {
    match c.range {
        Some(_) => changed_text(s, c),
        None => c.text@,
    }
}

/// The text after the first `i` changes.
pub open spec fn texts_after(s: Seq<char>, cs: Seq<ContentChange>, i: int) -> Seq<char>
    decreases i,
{
    if i <= 0 {
        s
    } else {
        text_after(texts_after(s, cs, i - 1), cs[i - 1])
    }
}

/// The edit a ranged change makes of text `s`.
pub open spec fn change_edit(s: Seq<char>, c: ContentChange) -> InputEdit {
    let r = c.range.unwrap();
    let start = pos_byte(s, r.start);
    let new_end = start + utf8_len(c.text@);
    let end_pos = byte_pos(changed_text(s, c), new_end);
    InputEdit {
        start_byte: start as usize,
        old_end_byte: pos_byte(s, r.end) as usize,
        new_end_byte: new_end as usize,
        start_position: Point { row: r.start.line as usize, column: r.start.character as usize },
        old_end_position: Point { row: r.end.line as usize, column: r.end.character as usize },
        new_end_position: Point { row: end_pos.line as usize, column: end_pos.character as usize },
    }
}

/// The edits of the first `i` changes: one per ranged change, in order.
pub open spec fn edits_of(s: Seq<char>, cs: Seq<ContentChange>, i: int) -> Seq<InputEdit>
    decreases i,
{
    if i <= 0 {
        Seq::empty()
    } else {
        let before = edits_of(s, cs, i - 1);
        let c = cs[i - 1];
        if c.range is Some {
            before.push(change_edit(texts_after(s, cs, i - 1), c))
        } else {
            before
        }
    }
}

/// Change `c` can be applied to text `s`: its range is valid, and the text
/// left after it is not empty (its end position cannot be computed otherwise).
pub open spec fn change_ok(s: Seq<char>, c: ContentChange) -> bool {
    c.range is Some ==> change_valid(s, c) && utf8_len(changed_text(s, c)) > 0
}

/// Every change can be applied to the text the changes before it leave.
pub open spec fn changes_ok(s: Seq<char>, cs: Seq<ContentChange>) -> bool {
    forall|i: int| 0 <= i < cs.len() ==> change_ok(texts_after(s, cs, i), #[trigger] cs[i])
}

/// The number of changes among `cs[0..i]` that carry a range.
pub open spec fn ranged_count(cs: Seq<ContentChange>, i: int) -> nat
    decreases i,
{
    if i <= 0 {
        0
    } else {
        ranged_count(cs, i - 1) + if cs[i - 1].range is Some {
            1nat
        } else {
            0nat
        }
    }
}

/// Applying changes yields exactly one edit per ranged change.
pub proof fn law_one_edit_per_ranged_change(s: Seq<char>, cs: Seq<ContentChange>, i: int)
    requires
        0 <= i <= cs.len(),
    ensures
        edits_of(s, cs, i).len() == ranged_count(cs, i),
    decreases i,
{
    if i > 0 {
        law_one_edit_per_ranged_change(s, cs, i - 1);
    }
}

/// A ranged change reads back: the new text holds the old text before the
/// range, then the inserted text, then the old text after the range.
pub proof fn law_change_reads_back(s: Seq<char>, c: ContentChange)
    requires
        c.range is Some,
        change_valid(s, c),
    ensures
        ({
            let a = pos_char(s, c.range.unwrap().start);
            let b = pos_char(s, c.range.unwrap().end);
            let t = text_after(s, c);
            &&& t.take(a) == s.take(a)
            &&& t.subrange(a, a + c.text@.len()) == c.text@
            &&& t.skip(a + c.text@.len()) == s.skip(b)
            &&& t.len() == s.len() - (b - a) + c.text@.len()
        }),
{
    let r = c.range.unwrap();
    lemma_pos_char_le_len(s, r.start);
    lemma_pos_char_le_len(s, r.end);
    let a = pos_char(s, r.start);
    let b = pos_char(s, r.end);
    let t = text_after(s, c);
    assert(t.take(a) =~= s.take(a));
    assert(t.subrange(a, a + c.text@.len()) =~= c.text@);
    assert(t.skip(a + c.text@.len()) =~= s.skip(b));
}

/// The UTF-8 length of a splice: the kept prefix, the new text, the kept rest.
proof fn lemma_splice_len(s: Seq<char>, a: int, b: int, t: Seq<char>)
    requires
        0 <= a <= b <= s.len(),
    ensures
        utf8_len(splice(s, a, b, t)) >= crate::text::utf8_prefix(s, a) + utf8_len(t),
{
    lemma_utf8_len_append(s.take(a) + t, s.skip(b));
    lemma_utf8_len_append(s.take(a), t);
    assert(s.take(a).take(a) =~= s.take(a));
    assert(s.take(a) =~= s.take(a).take(a));
    lemma_utf8_prefix_take(s, s.take(a), a);
}

/// Applies one ranged change and returns its edit.
fn apply_ranged(text: &mut Rope, change: &ContentChange) -> (e: InputEdit)
    requires
        change.range is Some,
        change_ok(rope_chars(*old(text)), *change),
    ensures
        rope_chars(*final(text)) == changed_text(rope_chars(*old(text)), *change),
        e == change_edit(rope_chars(*old(text)), *change),
{
    let ghost s = rope_chars(*text);
    let range = change.range.unwrap();
    let start_byte = text.pos_to_byte(&range.start);
    let old_end_byte = text.pos_to_byte(&range.end);
    text.apply_change(change);
    let total = rope_len_bytes(text);
    proof {
        lemma_pos_char_le_len(s, range.start);
        lemma_pos_char_le_len(s, range.end);
        lemma_splice_len(s, pos_char(s, range.start), pos_char(s, range.end), change.text@);
        lemma_encode_utf8_len(change.text@);
    }
    let new_end_byte = start_byte + change.text.as_str().len();
    let end_pos = text.byte_to_pos(new_end_byte);
    InputEdit {
        start_byte,
        old_end_byte,
        new_end_byte,
        start_position: Point { row: range.start.line as usize, column: range.start.character as usize },
        old_end_position: Point { row: range.end.line as usize, column: range.end.character as usize },
        new_end_position: Point { row: end_pos.line as usize, column: end_pos.character as usize },
    }
}

/// Applies the client's changes in order: a change without a range replaces
/// the whole text, a ranged change replaces its range. Returns the edit of
/// each ranged change, in order.
pub fn apply_changes(text: &mut Rope, changes: &Vec<ContentChange>) -> (edits: Vec<InputEdit>)
    requires
        changes_ok(rope_chars(*old(text)), changes@),
    ensures
        rope_chars(*final(text)) == texts_after(
            rope_chars(*old(text)),
            changes@,
            changes@.len() as int,
        ),
        edits@ == edits_of(rope_chars(*old(text)), changes@, changes@.len() as int),
{
    match try_apply_changes(text, changes) {
        Some(edits) => edits,
        None => {
            proof {
                assert(false);
            }
            Vec::new()
        },
    }
}

/// A text has bytes exactly when it has chars.
proof fn lemma_utf8_len_positive(s: Seq<char>)
    ensures
        utf8_len(s) > 0 <==> s.len() > 0,
{
    crate::text::lemma_utf8_prefix_mono(s, 0, s.len() as int);
}

/// Whether `change` can be applied to the text.
pub fn change_fits(text: &Rope, change: &ContentChange) -> (b: bool)
    ensures
        b == change_ok(rope_chars(*text), *change),
{
    let ghost s = rope_chars(*text);
    match change.range {
        None => true,
        Some(r) => {
            if !pos_in_bounds(text, r.start) || !pos_in_bounds(text, r.end) {
                return false;
            }
            let a = text.pos_to_char(&r.start);
            let b = text.pos_to_char(&r.end);
            if a > b {
                return false;
            }
            let n = rope_len_chars(text);
            proof {
                lemma_pos_char_le_len(s, r.start);
                lemma_pos_char_le_len(s, r.end);
                let t = changed_text(s, *change);
                lemma_utf8_len_positive(t);
                assert(t.len() == a + change.text@.len() + (s.len() - b));
            }
            a > 0 || !change.text.as_str().is_empty() || b < n
        },
    }
}

/// Applies the client's changes as `apply_changes` does, where every change
/// can be applied to the text the changes before it leave; `None` where one
/// cannot (the changes before it are applied, the others are not).
pub fn try_apply_changes(text: &mut Rope, changes: &Vec<ContentChange>) -> (r: Option<
    Vec<InputEdit>,
>)
    ensures
        r is Some <==> changes_ok(rope_chars(*old(text)), changes@),
        r matches Some(edits) ==> rope_chars(*final(text)) == texts_after(
            rope_chars(*old(text)),
            changes@,
            changes@.len() as int,
        ) && edits@ == edits_of(rope_chars(*old(text)), changes@, changes@.len() as int),
{
    let ghost s = rope_chars(*text);
    let mut edits: Vec<InputEdit> = Vec::new();
    let n = changes.len();
    let mut i: usize = 0;
    while i < n
        invariant
            n == changes@.len(),
            0 <= i <= n,
            s == rope_chars(*old(text)),
            forall|j: int| 0 <= j < i ==> change_ok(texts_after(s, changes@, j), #[trigger] changes@[j]),
            rope_chars(*text) == texts_after(s, changes@, i as int),
            edits@ == edits_of(s, changes@, i as int),
        decreases n - i,
    {
        let change = &changes[i];
        if !change_fits(text, change) {
            assert(!change_ok(texts_after(s, changes@, i as int), changes@[i as int]));
            return None;
        }
        if change.range.is_none() {
            *text = rope_from_str(change.text.as_str());
        } else {
            let e = apply_ranged(text, change);
            edits.push(e);
        }
        i = i + 1;
    }
    Some(edits)
}

} // verus!
