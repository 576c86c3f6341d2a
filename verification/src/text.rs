//! Mathematical model of document text: UTF-8 and UTF-16 widths, and lines.
use vstd::prelude::*;
use vstd::utf8::*;

verus! {

/// Number of UTF-8 bytes that encode `c`.
pub open spec fn utf8_width(c: char) -> nat {
    encode_scalar(c as u32).len()
}

/// Number of UTF-16 code units that encode `c`.
pub open spec fn utf16_width(c: char) -> nat {
    if (c as u32) >= 0x10000 {
        2
    } else {
        1
    }
}

/// Byte offset of char index `k` in `s`.
pub open spec fn utf8_prefix(s: Seq<char>, k: int) -> nat
    decreases k,
{
    if k <= 0 {
        0
    } else {
        utf8_prefix(s, k - 1) + utf8_width(s[k - 1])
    }
}

/// UTF-16 code-unit offset of char index `k` in `s`.
pub open spec fn utf16_prefix(s: Seq<char>, k: int) -> nat
    decreases k,
{
    if k <= 0 {
        0
    } else {
        utf16_prefix(s, k - 1) + utf16_width(s[k - 1])
    }
}

/// Total number of UTF-8 bytes of `s`.
pub open spec fn utf8_len(s: Seq<char>) -> nat {
    utf8_prefix(s, s.len() as int)
}

/// Total number of UTF-16 code units of `s`.
pub open spec fn utf16_len(s: Seq<char>) -> nat {
    utf16_prefix(s, s.len() as int)
}

/// Largest char index `j >= k` whose byte offset does not pass `b`.
pub open spec fn scan_utf8(s: Seq<char>, b: int, k: int) -> int
    decreases s.len() - k,
{
    if 0 <= k < s.len() && utf8_prefix(s, k + 1) <= b {
        scan_utf8(s, b, k + 1)
    } else {
        k
    }
}

/// The char index that byte offset `b` falls in.
pub open spec fn byte_to_char_idx(s: Seq<char>, b: int) -> int {
    scan_utf8(s, b, 0)
}

/// Largest char index `j >= k` whose UTF-16 offset does not pass `u`.
pub open spec fn scan_utf16(s: Seq<char>, u: int, k: int) -> int
    decreases s.len() - k,
{
    if 0 <= k < s.len() && utf16_prefix(s, k + 1) <= u {
        scan_utf16(s, u, k + 1)
    } else {
        k
    }
}

/// The char index that UTF-16 offset `u` falls in.
pub open spec fn utf16_to_char_idx(s: Seq<char>, u: int) -> int {
    scan_utf16(s, u, 0)
}

/// `b` is the byte offset of some char index of `s`.
pub open spec fn is_boundary(s: Seq<char>, b: int) -> bool {
    exists|k: int| 0 <= k <= s.len() && #[trigger] utf8_prefix(s, k) == b
}

/// The line breaks a rope recognises.
pub open spec fn is_line_break(c: char) -> bool {
    ||| c == '\n'
    ||| c == '\u{0B}'
    ||| c == '\u{0C}'
    ||| c == '\r'
    ||| c == '\u{85}'
    ||| c == '\u{2028}'
    ||| c == '\u{2029}'
}

/// A new line starts at char index `p`: the char before it is a line break
/// that is not the carriage return of a CRLF pair.
pub open spec fn is_line_start(s: Seq<char>, p: int) -> bool {
    &&& 0 < p <= s.len()
    &&& is_line_break(s[p - 1])
    &&& !(s[p - 1] == '\r' && p < s.len() && s[p] == '\n')
}

/// Number of line starts in `1..=c`: the line index of char index `c`.
pub open spec fn lines_before(s: Seq<char>, c: int) -> nat
    decreases c,
{
    if c <= 0 {
        0
    } else {
        lines_before(s, c - 1) + if is_line_start(s, c) {
            1nat
        } else {
            0nat
        }
    }
}

/// Number of lines of `s`.
pub open spec fn line_count(s: Seq<char>) -> nat {
    lines_before(s, s.len() as int) + 1
}

/// First char index `q >= p` whose line index reaches `l`.
pub open spec fn scan_line(s: Seq<char>, l: int, p: int) -> int
    decreases s.len() - p,
{
    if 0 <= p < s.len() && lines_before(s, p) < l {
        scan_line(s, l, p + 1)
    } else {
        p
    }
}

/// Char index at which line `l` starts (`s.len()` for one past the last line).
pub open spec fn line_start(s: Seq<char>, l: int) -> int {
    scan_line(s, l, 0)
}

/// The chars of line `l`, its line break included.
pub open spec fn line_chars(s: Seq<char>, l: int) -> Seq<char> {
    s.subrange(line_start(s, l), line_start(s, l + 1))
}

pub proof fn lemma_utf8_width(c: char)
    ensures
        1 <= utf8_width(c) <= 4,
{
}

pub proof fn lemma_utf16_width(c: char)
    ensures
        1 <= utf16_width(c) <= 2,
{
}

/// Byte offsets grow by at least one per char.
pub proof fn lemma_utf8_prefix_mono(s: Seq<char>, i: int, j: int)
    requires
        0 <= i <= j,
    ensures
        utf8_prefix(s, i) + (j - i) <= utf8_prefix(s, j),
    decreases j - i,
{
    if i < j {
        lemma_utf8_prefix_mono(s, i, j - 1);
        lemma_utf8_width(s[j - 1]);
    }
}

/// UTF-16 offsets grow by at least one per char.
pub proof fn lemma_utf16_prefix_mono(s: Seq<char>, i: int, j: int)
    requires
        0 <= i <= j,
    ensures
        utf16_prefix(s, i) + (j - i) <= utf16_prefix(s, j),
        utf16_prefix(s, j) <= utf16_prefix(s, i) + 2 * (j - i),
    decreases j - i,
{
    if i < j {
        lemma_utf16_prefix_mono(s, i, j - 1);
        lemma_utf16_width(s[j - 1]);
    }
}

/// Prefix offsets only depend on the chars before them.
pub proof fn lemma_utf8_prefix_take(s: Seq<char>, t: Seq<char>, k: int)
    requires
        0 <= k <= s.len(),
        k <= t.len(),
        s.take(k) == t.take(k),
    ensures
        utf8_prefix(s, k) == utf8_prefix(t, k),
    decreases k,
{
    if k > 0 {
        assert(s.take(k - 1) =~= s.take(k).take(k - 1));
        assert(t.take(k - 1) =~= t.take(k).take(k - 1));
        assert(s[k - 1] == s.take(k)[k - 1]);
        assert(t[k - 1] == t.take(k)[k - 1]);
        lemma_utf8_prefix_take(s, t, k - 1);
    }
}

/// The byte offset of a char inside a window is the window's own offset
/// subtracted from the whole text's offset.
pub proof fn lemma_utf8_prefix_split(s: Seq<char>, a: int, b: int, k: int)
    requires
        0 <= a <= b <= s.len(),
        0 <= k <= b - a,
    ensures
        utf8_prefix(s, a + k) == utf8_prefix(s, a) + utf8_prefix(s.subrange(a, b), k),
    decreases k,
{
    if k > 0 {
        lemma_utf8_prefix_split(s, a, b, k - 1);
        assert(s.subrange(a, b)[k - 1] == s[a + k - 1]);
    }
}

/// The UTF-8 length of a concatenation is the sum of the lengths.
pub proof fn lemma_utf8_len_append(a: Seq<char>, b: Seq<char>)
    ensures
        utf8_len(a + b) == utf8_len(a) + utf8_len(b),
{
    let s = a + b;
    lemma_utf8_prefix_split(s, a.len() as int, s.len() as int, b.len() as int);
    assert(s.subrange(a.len() as int, s.len() as int) =~= b);
    assert(s.take(a.len() as int) =~= a.take(a.len() as int));
    lemma_utf8_prefix_take(s, a, a.len() as int);
}

/// The UTF-8 length of a text is the length of its encoding.
pub proof fn lemma_encode_utf8_len(s: Seq<char>)
    ensures
        encode_utf8(s).len() == utf8_len(s),
    decreases s.len(),
{
    if s.len() > 0 {
        lemma_encode_utf8_len(s.drop_first());
        assert(s =~= seq![s[0]] + s.drop_first());
        lemma_utf8_len_append(seq![s[0]], s.drop_first());
        let one = seq![s[0]];
        assert(utf8_prefix(one, 0) == 0);
        assert(utf8_prefix(one, 1) == utf8_width(s[0]));
        assert(encode_utf8(s) == encode_scalar(s[0] as u32) + encode_utf8(s.drop_first()));
    }
}

/// The scan for a byte offset finds the largest char index at or below it.
pub proof fn lemma_scan_utf8(s: Seq<char>, b: int, k: int)
    requires
        0 <= k <= s.len(),
        utf8_prefix(s, k) <= b,
    ensures
        k <= scan_utf8(s, b, k) <= s.len(),
        utf8_prefix(s, scan_utf8(s, b, k)) <= b,
        scan_utf8(s, b, k) == s.len() || b < utf8_prefix(s, scan_utf8(s, b, k) + 1),
    decreases s.len() - k,
{
    if k < s.len() && utf8_prefix(s, k + 1) <= b {
        lemma_scan_utf8(s, b, k + 1);
    }
}

/// `byte_to_char_idx` is the largest char index whose offset does not pass `b`.
pub proof fn lemma_byte_to_char(s: Seq<char>, b: int)
    requires
        0 <= b,
    ensures
        0 <= byte_to_char_idx(s, b) <= s.len(),
        utf8_prefix(s, byte_to_char_idx(s, b)) <= b,
        byte_to_char_idx(s, b) == s.len() || b < utf8_prefix(s, byte_to_char_idx(s, b) + 1),
{
    lemma_scan_utf8(s, b, 0);
}

/// Converting a char index to its byte offset and back gives the char index.
pub proof fn lemma_byte_to_char_of_prefix(s: Seq<char>, k: int)
    requires
        0 <= k <= s.len(),
    ensures
        byte_to_char_idx(s, utf8_prefix(s, k) as int) == k,
{
    let b = utf8_prefix(s, k) as int;
    lemma_byte_to_char(s, b);
    let r = byte_to_char_idx(s, b);
    if r < k {
        lemma_utf8_prefix_mono(s, r + 1, k);
    } else if r > k {
        lemma_utf8_prefix_mono(s, k, r);
    }
}

/// The scan for a UTF-16 offset finds the largest char index at or below it.
pub proof fn lemma_scan_utf16(s: Seq<char>, u: int, k: int)
    requires
        0 <= k <= s.len(),
        utf16_prefix(s, k) <= u,
    ensures
        k <= scan_utf16(s, u, k) <= s.len(),
        utf16_prefix(s, scan_utf16(s, u, k)) <= u,
        scan_utf16(s, u, k) == s.len() || u < utf16_prefix(s, scan_utf16(s, u, k) + 1),
    decreases s.len() - k,
{
    if k < s.len() && utf16_prefix(s, k + 1) <= u {
        lemma_scan_utf16(s, u, k + 1);
    }
}

/// `utf16_to_char_idx` is the largest char index whose UTF-16 offset does not pass `u`.
pub proof fn lemma_utf16_to_char(s: Seq<char>, u: int)
    requires
        0 <= u,
    ensures
        0 <= utf16_to_char_idx(s, u) <= s.len(),
        utf16_prefix(s, utf16_to_char_idx(s, u)) <= u,
        utf16_to_char_idx(s, u) == s.len() || u < utf16_prefix(s, utf16_to_char_idx(s, u) + 1),
{
    lemma_scan_utf16(s, u, 0);
}

/// Converting a char index to its UTF-16 offset and back gives the char index.
pub proof fn lemma_utf16_to_char_of_prefix(s: Seq<char>, k: int)
    requires
        0 <= k <= s.len(),
    ensures
        utf16_to_char_idx(s, utf16_prefix(s, k) as int) == k,
{
    let u = utf16_prefix(s, k) as int;
    lemma_utf16_to_char(s, u);
    let r = utf16_to_char_idx(s, u);
    if r < k {
        lemma_utf16_prefix_mono(s, r + 1, k);
    } else if r > k {
        lemma_utf16_prefix_mono(s, k, r);
    }
}

/// Line indexes never decrease and grow by at most one per char.
pub proof fn lemma_lines_before_mono(s: Seq<char>, i: int, j: int)
    requires
        0 <= i <= j,
    ensures
        lines_before(s, i) <= lines_before(s, j) <= lines_before(s, i) + (j - i),
    decreases j - i,
{
    if i < j {
        lemma_lines_before_mono(s, i, j - 1);
    }
}

/// Properties of the scan for a line start.
pub proof fn lemma_scan_line(s: Seq<char>, l: int, p: int)
    requires
        0 <= p <= s.len(),
        forall|q: int| 0 <= q < p ==> lines_before(s, q) < l,
    ensures
        p <= scan_line(s, l, p) <= s.len(),
        forall|q: int| 0 <= q < scan_line(s, l, p) ==> lines_before(s, q) < l,
        scan_line(s, l, p) == s.len() || l <= lines_before(s, scan_line(s, l, p)),
    decreases s.len() - p,
{
    if p < s.len() && lines_before(s, p) < l {
        lemma_scan_line(s, l, p + 1);
    }
}

/// Where line `l` starts, and that it is the first char of that line.
pub proof fn lemma_line_start(s: Seq<char>, l: int)
    requires
        0 <= l,
    ensures
        0 <= line_start(s, l) <= s.len(),
        forall|q: int| 0 <= q < line_start(s, l) ==> lines_before(s, q) < l,
        l < line_count(s) ==> lines_before(s, line_start(s, l)) == l,
        l >= line_count(s) ==> line_start(s, l) == s.len(),
{
    lemma_scan_line(s, l, 0);
    let p = line_start(s, l);
    if l < line_count(s) {
        if p == s.len() {
            assert(l <= lines_before(s, p));
        }
        if p > 0 {
            lemma_lines_before_mono(s, p - 1, p);
        }
    } else {
        if p < s.len() {
            lemma_lines_before_mono(s, p, s.len() as int);
        }
    }
}

/// Line starts are ordered by line index.
pub proof fn lemma_line_start_mono(s: Seq<char>, l1: int, l2: int)
    requires
        0 <= l1 <= l2,
    ensures
        line_start(s, l1) <= line_start(s, l2),
{
    lemma_line_start(s, l1);
    lemma_line_start(s, l2);
    let p1 = line_start(s, l1);
    let p2 = line_start(s, l2);
    if p2 < p1 {
        if l2 < line_count(s) {
            assert(lines_before(s, p2) < l1);
        } else {
            assert(p2 == s.len());
        }
    }
}

/// A char index lies within the line given by its line index.
pub proof fn lemma_char_in_line(s: Seq<char>, c: int)
    requires
        0 <= c <= s.len(),
    ensures
        lines_before(s, c) < line_count(s),
        line_start(s, lines_before(s, c) as int) <= c,
        c <= line_start(s, (lines_before(s, c) + 1) as int),
{
    let l = lines_before(s, c) as int;
    lemma_lines_before_mono(s, c, s.len() as int);
    lemma_line_start(s, l);
    lemma_line_start(s, l + 1);
    if l + 1 < line_count(s) {
        let q = line_start(s, l + 1);
        if q <= c {
            lemma_lines_before_mono(s, q, c);
        }
    }
}

} // verus!
