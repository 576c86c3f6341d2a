//! Diagnostics from external checkers: the error lines that
//! `verible-verilog-syntax` prints, read into ranges and messages.
use crate::position::{Position, Range};
use crate::hover::{str_starts_with, views};
use crate::lookup::starts_with;
use crate::strings::{str_eq, string_of};
use vstd::prelude::*;
use vstd::string::StrSliceExecFns;

verus! {

/// How severe a diagnostic is.
#[derive(Clone, Copy, Debug, PartialEq, Eq, Structural)]
pub enum DiagnosticSeverity {
    Error,
    Warning,
    Information,
    Hint,
}

/// A diagnostic of a document: where, how severe, from which tool, and what.
#[derive(Clone, Debug)]
pub struct Diagnostic {
    pub range: Range,
    pub severity: Option<DiagnosticSeverity>,
    pub source: String,
    pub message: String,
}

/// A diagnostic with its strings taken as char sequences.
pub struct DiagnosticView {
    pub range: Range,
    pub severity: Option<DiagnosticSeverity>,
    pub source: Seq<char>,
    pub message: Seq<char>,
}

impl View for Diagnostic {
    type V = DiagnosticView;

    open spec fn view(&self) -> DiagnosticView {
        DiagnosticView {
            range: self.range,
            severity: self.severity,
            source: self.source@,
            message: self.message@,
        }
    }
}

/// The views of a list of diagnostics.
pub open spec fn diagnostic_views(v: Seq<Diagnostic>) -> Seq<DiagnosticView> {
    v.map_values(|d: Diagnostic| d@)
}

/// `c` is an ASCII decimal digit.
pub open spec fn is_digit(c: char) -> bool {
    '0' <= c <= '9'
}

/// The value of a string of decimal digits.
pub open spec fn digits_value(d: Seq<char>) -> int
    decreases d.len(),
{
    if d.len() == 0 {
        0
    } else {
        digits_value(d.drop_last()) * 10 + (d.last() as int - '0' as int)
    }
}

/// `s` without a leading `+`.
pub open spec fn unsigned_digits(s: Seq<char>) -> Seq<char> {
    if s.len() > 0 && s[0] == '+' {
        s.drop_first()
    } else {
        s
    }
}

/// Every char of `d` is an ASCII digit.
pub open spec fn all_digits(d: Seq<char>) -> bool {
    forall|i: int| 0 <= i < d.len() ==> is_digit(#[trigger] d[i])
}

/// The `u32` a string reads as in decimal: an optional `+`, then at least
/// one ASCII digit, with a value that fits in 32 bits.
pub open spec fn parse_u32_spec(s: Seq<char>) -> Option<u32> {
    let d = unsigned_digits(s);
    if d.len() > 0 && all_digits(d) && digits_value(d) <= u32::MAX {
        Some(digits_value(d) as u32)
    } else {
        None
    }
}

/// The value of a digit string is at least that of its prefixes.
proof fn lemma_digits_mono(d: Seq<char>, k: int)
    requires
        0 <= k <= d.len(),
        forall|i: int| 0 <= i < d.len() ==> is_digit(#[trigger] d[i]),
    ensures
        0 <= digits_value(d.take(k)) <= digits_value(d),
    decreases d.len(),
{
    if k == d.len() {
        assert(d.take(k) =~= d);
        lemma_digits_nonneg(d);
    } else {
        let e = d.drop_last();
        assert forall|i: int| 0 <= i < e.len() implies is_digit(#[trigger] e[i]) by {
            assert(e[i] == d[i]);
        }
        lemma_digits_mono(e, k);
        assert(e.take(k) =~= d.take(k));
        lemma_digits_nonneg(e);
    }
}

/// The value of a digit string is not negative.
proof fn lemma_digits_nonneg(d: Seq<char>)
    requires
        forall|i: int| 0 <= i < d.len() ==> is_digit(#[trigger] d[i]),
    ensures
        0 <= digits_value(d),
    decreases d.len(),
{
    if d.len() > 0 {
        let e = d.drop_last();
        assert forall|i: int| 0 <= i < e.len() implies is_digit(#[trigger] e[i]) by {
            assert(e[i] == d[i]);
        }
        lemma_digits_nonneg(e);
        assert(is_digit(d[d.len() - 1]));
    }
}

/// Reads a `u32` in decimal, as `str::parse::<u32>` does.
pub fn parse_u32(s: &str) -> (r: Option<u32>)
    ensures
        r == parse_u32_spec(s@),
{
    let n = s.unicode_len();
    let mut start: usize = 0;
    if n > 0 && s.get_char(0) == '+' {
        start = 1;
    }
    let ghost d = unsigned_digits(s@);
    proof {
        assert(d =~= s@.subrange(start as int, n as int));
    }
    if start == n {
        return None;
    }
    let mut acc: u64 = 0;
    let mut i: usize = start;
    while i < n
        invariant
            n == s@.len(),
            start < n,
            d == s@.subrange(start as int, n as int),
            d == unsigned_digits(s@),
            start <= i <= n,
            forall|j: int| 0 <= j < i - start ==> is_digit(#[trigger] d[j]),
            acc == digits_value(d.take(i - start)),
            acc <= u32::MAX,
        decreases n - i,
    {
        let c = s.get_char(i);
        if !('0' <= c && c <= '9') {
            proof {
                let k = (i - start) as int;
                assert(!is_digit(d[k]));
                assert(!all_digits(d));
            }
            return None;
        }
        let digit = (c as u32 - '0' as u32) as u64;
        proof {
            assert(d.take(i - start + 1).drop_last() =~= d.take(i - start));
            assert(d.take(i - start + 1).last() == c);
        }
        acc = acc * 10 + digit;
        if acc > 0xffff_ffff {
            proof {
                if all_digits(d) {
                    lemma_digits_mono(d, i - start + 1);
                }
            }
            return None;
        }
        i = i + 1;
    }
    proof {
        assert(d.take(n - start) =~= d);
    }
    Some(acc as u32)
}

/// `l` without a final carriage return.
pub open spec fn strip_cr(l: Seq<char>) -> Seq<char> {
    if l.len() > 0 && l.last() == '\r' {
        l.drop_last()
    } else {
        l
    }
}

/// The lines of `s` from char `i` on, the current line starting at `start`:
/// lines end at `\n` (a `\r` before it is dropped), and a last line without
/// a line break counts when it is not empty.
pub open spec fn lines_from(s: Seq<char>, i: int, start: int) -> Seq<Seq<char>>
    decreases s.len() - i,
{
    if i >= s.len() {
        if start < s.len() {
            seq![s.subrange(start, s.len() as int)]
        } else {
            Seq::empty()
        }
    } else if s[i] == '\n' {
        seq![strip_cr(s.subrange(start, i))] + lines_from(s, i + 1, i + 1)
    } else {
        lines_from(s, i + 1, start)
    }
}

/// The lines of `s`, as `str::lines` yields them.
pub open spec fn lines_of(s: Seq<char>) -> Seq<Seq<char>> {
    lines_from(s, 0, 0)
}

/// The groups of the first match of `pattern` in `text` (each group's text,
/// or `None` where the group took no part), or `None` where the pattern does
/// not compile or does not match.
pub uninterp spec fn regex_captures(pattern: Seq<char>, text: Seq<char>) -> Option<
    Seq<Option<Seq<char>>>,
>;

/// The groups a match returned, taken as char sequences.
pub open spec fn groups_view(g: Option<Vec<Option<String>>>) -> Option<Seq<Option<Seq<char>>>> {
    match g {
        Some(v) => Some(
            v@.map_values(
                |x: Option<String>|
                    match x {
                        Some(t) => Some(t@),
                        None => None,
                    },
            ),
        ),
        None => None,
    }
}

/// `regex::Regex::new` on `pattern`, then `Regex::captures` on `text`: the
/// groups of the first match, in the order of their opening parentheses.
/// Assumed: the result is a function of the two strings alone.
#[verifier::external_body]
fn captures(pattern: &str, text: &str) -> (r: Option<Vec<Option<String>>>)
    ensures
        groups_view(r) == regex_captures(pattern@, text@),
{
    let re = regex::Regex::new(pattern).ok()?;
    let caps = re.captures(text)?;
    Some(caps.iter().map(|g| g.map(|m| m.as_str().to_string())).collect())
}

/// The pattern of an error line of `verible-verilog-syntax`: file, line,
/// start column, an optional end column, and the message.
pub open spec fn verible_pattern() -> Seq<char> {
    "^.+:(?P<line>\\d*):(?P<startcol>\\d*)(?:-(?P<endcol>\\d*))?:\\s(?P<message>.*)\\s.*$"@
}

/// Group `i` of a match, `None` where there is no such group.
pub open spec fn group(g: Seq<Option<Seq<char>>>, i: int) -> Option<Seq<char>> {
    if 0 <= i < g.len() {
        g[i]
    } else {
        None
    }
}

/// The diagnostic a matched error line gives: its line and columns are
/// counted from one (a zero wraps around), the end column defaults to the
/// start column. `None` where a group is missing or a number does not read.
pub open spec fn verible_line(g: Option<Seq<Option<Seq<char>>>>) -> Option<DiagnosticView> {
    match g {
        None => None,
        Some(g) => {
            let line = match group(g, 1) {
                Some(t) => parse_u32_spec(t),
                None => None,
            };
            let startcol = match group(g, 2) {
                Some(t) => parse_u32_spec(t),
                None => None,
            };
            let endcol_ok = match group(g, 3) {
                Some(t) => parse_u32_spec(t) is Some,
                None => true,
            };
            if line is Some && startcol is Some && endcol_ok && group(g, 4) is Some {
                let l = line.unwrap().wrapping_sub(1);
                let sc = startcol.unwrap();
                let ec = match group(g, 3) {
                    Some(t) => parse_u32_spec(t).unwrap(),
                    None => sc,
                };
                Some(
                    DiagnosticView {
                        range: Range {
                            start: Position { line: l, character: sc.wrapping_sub(1) },
                            end: Position { line: l, character: ec.wrapping_sub(1) },
                        },
                        severity: Some(DiagnosticSeverity::Error),
                        source: "verible"@,
                        message: group(g, 4).unwrap(),
                    },
                )
            } else {
                None
            }
        },
    }
}

/// The diagnostics of the given output lines, `None` where a line does not
/// read as one.
pub open spec fn verible_lines(ls: Seq<Seq<char>>) -> Option<Seq<DiagnosticView>>
    decreases ls.len(),
{
    if ls.len() == 0 {
        Some(Seq::empty())
    } else {
        match (
            verible_lines(ls.drop_last()),
            verible_line(regex_captures(verible_pattern(), ls.last())),
        ) {
            (Some(a), Some(d)) => Some(a.push(d)),
            _ => None,
        }
    }
}

/// Output that reads as diagnostics gives exactly one per line.
pub proof fn law_one_diagnostic_per_line(ls: Seq<Seq<char>>)
    ensures
        verible_lines(ls) matches Some(ds) ==> ds.len() == ls.len(),
    decreases ls.len(),
{
    if ls.len() > 0 {
        law_one_diagnostic_per_line(ls.drop_last());
    }
}

/// Once the diagnostics of some lines cannot be read, more lines do not help.
proof fn lemma_verible_lines_none(a: Seq<Seq<char>>, b: Seq<Seq<char>>)
    requires
        verible_lines(a) is None,
    ensures
        verible_lines(a + b) is None,
    decreases b.len(),
{
    if b.len() == 0 {
        assert(a + b =~= a);
    } else {
        lemma_verible_lines_none(a, b.drop_last());
        assert((a + b).drop_last() =~= a + b.drop_last());
    }
}

/// Group `i` of a match, as a string.
fn group_at(g: &Vec<Option<String>>, i: usize) -> (r: Option<String>)
    ensures
        match r {
            Some(t) => group(groups_view(Some(*g)).unwrap(), i as int) == Some(t@),
            None => group(groups_view(Some(*g)).unwrap(), i as int) is None,
        },
{
    if i < g.len() {
        match &g[i] {
            Some(t) => Some(t.clone()),
            None => None,
        }
    } else {
        None
    }
}

/// The diagnostic of one error line, from the groups its match returned.
pub fn verible_diagnostic(groups: &Option<Vec<Option<String>>>) -> (r: Option<Diagnostic>)
    ensures
        match verible_line(groups_view(*groups)) {
            Some(v) => r matches Some(d) && d@ == v,
            None => r is None,
        },
{
    let g = match groups {
        Some(g) => g,
        None => {
            return None;
        },
    };
    let line = match group_at(g, 1) {
        Some(t) => match parse_u32(t.as_str()) {
            Some(v) => v,
            None => {
                return None;
            },
        },
        None => {
            return None;
        },
    };
    let startcol = match group_at(g, 2) {
        Some(t) => match parse_u32(t.as_str()) {
            Some(v) => v,
            None => {
                return None;
            },
        },
        None => {
            return None;
        },
    };
    let endcol: Option<u32> = match group_at(g, 3) {
        Some(t) => match parse_u32(t.as_str()) {
            Some(v) => Some(v),
            None => {
                return None;
            },
        },
        None => None,
    };
    let message = match group_at(g, 4) {
        Some(t) => t,
        None => {
            return None;
        },
    };
    let end_col = match endcol {
        Some(e) => e,
        None => startcol,
    };
    let start_pos = Position::new(line.wrapping_sub(1), startcol.wrapping_sub(1));
    let end_pos = Position::new(line.wrapping_sub(1), end_col.wrapping_sub(1));
    proof {
        reveal_strlit("verible");
    }
    let source = string_of("verible", 0, 7);
    proof {
        assert("verible"@.subrange(0, 7) =~= "verible"@);
    }
    Some(
        Diagnostic {
            range: Range::new(start_pos, end_pos),
            severity: Some(DiagnosticSeverity::Error),
            source,
            message,
        },
    )
}

/// The diagnostic of one line of output.
fn line_diagnostic(line: &str) -> (r: Option<Diagnostic>)
    ensures
        match verible_line(regex_captures(verible_pattern(), line@)) {
            Some(v) => r matches Some(d) && d@ == v,
            None => r is None,
        },
{
    let groups = captures(
        "^.+:(?P<line>\\d*):(?P<startcol>\\d*)(?:-(?P<endcol>\\d*))?:\\s(?P<message>.*)\\s.*$",
        line,
    );
    verible_diagnostic(&groups)
}

/// The lines of `s`, as `str::lines` yields them.
#[verifier::spinoff_prover]
pub fn split_lines(s: &str) -> (r: Vec<String>)
    ensures
        views(r@) == lines_of(s@),
{
    let ghost t = s@;
    let n = s.unicode_len();
    let mut lines: Vec<String> = Vec::new();
    let mut start: usize = 0;
    let mut i: usize = 0;
    while i < n
        invariant
            t == s@,
            n == t.len(),
            start <= i <= n,
            lines_of(t) == views(lines@) + lines_from(t, i as int, start as int),
        decreases n - i,
    {
        if s.get_char(i) == '\n' {
            // the line from start to i, without a final carriage return
            let mut e = i;
            if e > start && s.get_char(e - 1) == '\r' {
                e = e - 1;
            }
            let line = string_of(s, start, e);
            let ghost before = views(lines@);
            proof {
                assert(line@ =~= strip_cr(t.subrange(start as int, i as int)));
            }
            lines.push(line);
            proof {
                assert(views(lines@) =~= before.push(line@));
                assert(before + lines_from(t, i as int, start as int) =~= views(lines@) + lines_from(
                    t,
                    i + 1,
                    i + 1,
                ));
            }
            start = i + 1;
        } else {
            proof {
                assert(lines_from(t, i as int, start as int) == lines_from(t, i + 1, start as int));
            }
        }
        i = i + 1;
    }
    let ghost before = views(lines@);
    if start < n {
        // a last line without a line break
        let line = string_of(s, start, n);
        lines.push(line);
        proof {
            assert(views(lines@) =~= before.push(line@));
            assert(lines_of(t) =~= views(lines@));
        }
    } else {
        proof {
            assert(lines_of(t) =~= views(lines@));
        }
    }
    lines
}

/// Reads the diagnostics from the output of `verible-verilog-syntax`: `None`
/// where the tool succeeded or a line of its output does not read as a
/// diagnostic; otherwise one error diagnostic per output line.
pub fn verible_syntax_report(success: bool, output: &str) -> (r: Option<Vec<Diagnostic>>)
    ensures
        success ==> r is None,
        !success ==> match verible_lines(lines_of(output@)) {
            Some(ds) => r matches Some(v) && diagnostic_views(v@) == ds,
            None => r is None,
        },
{
    if success {
        return None;
    }
    let lines = split_lines(output);
    let ghost ls = views(lines@);
    let mut diags: Vec<Diagnostic> = Vec::new();
    let n = lines.len();
    let mut i: usize = 0;
    while i < n
        invariant
            n == lines@.len(),
            ls == views(lines@),
            ls == lines_of(output@),
            0 <= i <= n,
            verible_lines(ls.take(i as int)) == Some(diagnostic_views(diags@)),
        decreases n - i,
    {
        let d = line_diagnostic(lines[i].as_str());
        proof {
            assert(ls.take(i + 1).drop_last() =~= ls.take(i as int));
            assert(ls.take(i + 1).last() == lines@[i as int]@);
        }
        match d {
            Some(d) => {
                let ghost dv = diagnostic_views(diags@);
                diags.push(d);
                proof {
                    assert(diagnostic_views(diags@) =~= dv.push(d@));
                }
            },
            None => {
                proof {
                    lemma_verible_lines_none(ls.take(i + 1), ls.skip(i + 1));
                    assert(ls.take(i + 1) + ls.skip(i + 1) =~= ls);
                }
                return None;
            },
        }
        i = i + 1;
    }
    proof {
        assert(ls.take(n as int) =~= ls);
    }
    Some(diags)
}

/// The severity a slang report line names (the field after the column,
/// with its leading space).
pub open spec fn slang_severity_of(t: Seq<char>) -> Option<DiagnosticSeverity> {
    if t == " error"@ {
        Some(DiagnosticSeverity::Error)
    } else if t == " warning"@ {
        Some(DiagnosticSeverity::Warning)
    } else if t == " note"@ {
        Some(DiagnosticSeverity::Information)
    } else {
        None
    }
}

/// The severity a slang report line names.
pub fn slang_severity(severity: &str) -> (r: Option<DiagnosticSeverity>)
    ensures
        r == slang_severity_of(severity@),
{
    if str_eq(severity, " error") {
        Some(DiagnosticSeverity::Error)
    } else if str_eq(severity, " warning") {
        Some(DiagnosticSeverity::Warning)
    } else if str_eq(severity, " note") {
        Some(DiagnosticSeverity::Information)
    } else {
        None
    }
}

/// The index of the first `:` at or after `i`, or the length.
pub open spec fn colon_from(s: Seq<char>, i: int) -> int
    decreases s.len() - i,
{
    if 0 <= i < s.len() && s[i] != ':' {
        colon_from(s, i + 1)
    } else {
        i
    }
}

/// The fields of `s` from char `start` on, split at the next `n - 1` colons.
pub open spec fn fields_from(s: Seq<char>, start: int, n: nat) -> Seq<Seq<char>>
    decreases n,
{
    let j = colon_from(s, start);
    if n <= 1 || j >= s.len() {
        seq![s.subrange(start, s.len() as int)]
    } else {
        seq![s.subrange(start, j)] + fields_from(s, j + 1, (n - 1) as nat)
    }
}

/// The fields of `s` split at its first `n - 1` colons, as
/// `str::splitn(n, ':')` yields them.
pub open spec fn split_fields(s: Seq<char>, n: nat) -> Seq<Seq<char>> {
    fields_from(s, 0, n)
}

/// The first colon at or after `i` is at `i` or later.
proof fn lemma_colon_from(s: Seq<char>, i: int)
    requires
        0 <= i <= s.len(),
    ensures
        i <= colon_from(s, i) <= s.len(),
        colon_from(s, i) < s.len() ==> s[colon_from(s, i)] == ':',
    decreases s.len() - i,
{
    if i < s.len() && s[i] != ':' {
        lemma_colon_from(s, i + 1);
    }
}

/// There is a field, and at most `n` of them.
proof fn lemma_fields_len(s: Seq<char>, start: int, n: nat)
    requires
        0 <= start <= s.len(),
        n >= 1,
    ensures
        1 <= fields_from(s, start, n).len() <= n,
    decreases n,
{
    lemma_colon_from(s, start);
    let j = colon_from(s, start);
    if !(n <= 1 || j >= s.len()) {
        lemma_fields_len(s, j + 1, (n - 1) as nat);
    }
}

/// `s` split at its first `n - 1` colons, as `str::splitn(n, ':')` does.
#[verifier::spinoff_prover]
pub fn split_colons(s: &str, n: usize) -> (r: Vec<String>)
    requires
        n >= 1,
    ensures
        views(r@) == split_fields(s@, n as nat),
{
    let ghost t = s@;
    let len = s.unicode_len();
    let mut fields: Vec<String> = Vec::new();
    let mut left: usize = n;
    let mut start: usize = 0;
    let mut i: usize = 0;
    while i < len && left > 1
        invariant
            t == s@,
            len == t.len(),
            start <= i <= len,
            left >= 1,
            colon_from(t, start as int) == colon_from(t, i as int),
            split_fields(t, n as nat) == views(fields@) + fields_from(t, start as int, left as nat),
        decreases len - i,
    {
        if s.get_char(i) == ':' {
            let field = string_of(s, start, i);
            let ghost before = views(fields@);
            fields.push(field);
            proof {
                assert(colon_from(t, i as int) == i);
                assert(views(fields@) =~= before.push(field@));
                assert(before + fields_from(t, start as int, left as nat) =~= views(fields@)
                    + fields_from(t, i + 1, (left - 1) as nat));
            }
            left = left - 1;
            start = i + 1;
        }
        i = i + 1;
    }
    let field = string_of(s, start, len);
    let ghost before = views(fields@);
    fields.push(field);
    proof {
        lemma_colon_from(t, i as int);
        assert(fields_from(t, start as int, left as nat) == seq![t.subrange(start as int, len as int)]);
        assert(views(fields@) =~= before.push(field@));
        assert(before + seq![t.subrange(start as int, len as int)] =~= views(fields@));
    }
    fields
}

/// `base` joined with `path` (`path` itself where it is absolute).
pub uninterp spec fn joined_path(base: Seq<char>, path: Seq<char>) -> Seq<char>;

/// `path` cleaned lexically: repeated separators, `.` and resolvable `..`
/// taken out.
pub uninterp spec fn cleaned_path(path: Seq<char>) -> Seq<char>;

/// The two paths have the same components.
pub uninterp spec fn same_path(a: Seq<char>, b: Seq<char>) -> bool;

/// `std::path::Path::join`: `base` joined with `path`, taken back as a string
/// (both are UTF-8, so the conversion loses nothing). Assumed: the result is
/// a function of the two strings alone.
#[verifier::external_body]
fn path_join(base: &str, path: &str) -> (r: String)
    ensures
        r@ == joined_path(base@, path@),
{
    std::path::Path::new(base).join(path).to_string_lossy().into_owned()
}

/// `path_clean::clean`: `path` cleaned lexically, taken back as a string.
/// Assumed: the result is a function of the string alone.
#[verifier::external_body]
fn path_clean(path: &str) -> (r: String)
    ensures
        r@ == cleaned_path(path@),
{
    path_clean::clean(path).to_string_lossy().into_owned()
}

/// `==` on `std::path::Path`: whether the two paths have the same components.
/// Assumed: the result is a function of the two strings alone.
#[verifier::external_body]
fn paths_equal(a: &str, b: &str) -> (r: bool)
    ensures
        r == same_path(a@, b@),
{
    std::path::Path::new(a) == std::path::Path::new(b)
}

/// The absolute form of a reported path: joined to the working directory,
/// then cleaned.
pub open spec fn absolute_of(cwd: Seq<char>, path: Seq<char>) -> Seq<char> {
    cleaned_path(joined_path(cwd, path))
}

/// A report line concerns the file when its first field names it.
pub open spec fn line_concerns(file_path: Seq<char>, cwd: Seq<char>, l: Seq<char>) -> bool {
    same_path(absolute_of(cwd, split_fields(l, 5)[0]), file_path)
}

/// A report line that concerns the file has all five fields, and its line
/// and column read as numbers.
pub open spec fn slang_line_ok(file_path: Seq<char>, cwd: Seq<char>, l: Seq<char>) -> bool {
    let f = split_fields(l, 5);
    line_concerns(file_path, cwd, l) ==> f.len() == 5 && parse_u32_spec(f[1]) is Some
        && parse_u32_spec(f[2]) is Some
}

/// Every line of the report that concerns the file can be read.
pub open spec fn report_ok(file_path: Seq<char>, cwd: Seq<char>, report: Seq<char>) -> bool {
    forall|i: int|
        0 <= i < lines_of(report).len() ==> slang_line_ok(
            file_path,
            cwd,
            #[trigger] lines_of(report)[i],
        )
}

/// The diagnostic of a report line that concerns the file: at the reported
/// line and column, counted from one (a zero wraps around), with the named
/// severity and the message.
pub open spec fn slang_line(file_path: Seq<char>, cwd: Seq<char>, l: Seq<char>) -> Option<
    DiagnosticView,
> {
    let f = split_fields(l, 5);
    if line_concerns(file_path, cwd, l) {
        let p = Position {
            line: parse_u32_spec(f[1]).unwrap().wrapping_sub(1),
            character: parse_u32_spec(f[2]).unwrap().wrapping_sub(1),
        };
        Some(
            DiagnosticView {
                range: Range { start: p, end: p },
                severity: slang_severity_of(f[3]),
                source: "slang"@,
                message: f[4],
            },
        )
    } else {
        None
    }
}

/// The diagnostics of the report lines that concern the file, in order.
pub open spec fn slang_lines(file_path: Seq<char>, cwd: Seq<char>, ls: Seq<Seq<char>>) -> Seq<
    DiagnosticView,
>
    decreases ls.len(),
{
    if ls.len() == 0 {
        Seq::empty()
    } else {
        let prev = slang_lines(file_path, cwd, ls.drop_last());
        match slang_line(file_path, cwd, ls.last()) {
            Some(d) => prev.push(d),
            None => prev,
        }
    }
}

/// Whether a report line concerns the file, with its fields.
fn concerns(file_path: &str, cwd: &str, line: &str) -> (r: (bool, Vec<String>))
    ensures
        r.0 == line_concerns(file_path@, cwd@, line@),
        views(r.1@) == split_fields(line@, 5),
        r.1@.len() >= 1,
{
    let fields = split_colons(line, 5);
    proof {
        lemma_fields_len(line@, 0, 5);
        assert(fields@[0]@ == split_fields(line@, 5)[0]);
    }
    let joined = path_join(cwd, fields[0].as_str());
    let absolute = path_clean(joined.as_str());
    (paths_equal(absolute.as_str(), file_path), fields)
}

/// Whether every line of a slang report that concerns the file can be read.
pub fn report_fits(file_path: &str, cwd: &str, report: &str) -> (b: bool)
    ensures
        b == report_ok(file_path@, cwd@, report@),
{
    let lines = split_lines(report);
    let ghost ls = views(lines@);
    let n = lines.len();
    let mut i: usize = 0;
    while i < n
        invariant
            n == lines@.len(),
            ls == views(lines@),
            ls == lines_of(report@),
            0 <= i <= n,
            forall|j: int| 0 <= j < i ==> slang_line_ok(file_path@, cwd@, #[trigger] ls[j]),
        decreases n - i,
    {
        let (hit, fields) = concerns(file_path, cwd, lines[i].as_str());
        proof {
            assert(ls[i as int] == lines@[i as int]@);
        }
        if hit {
            if fields.len() != 5 {
                assert(!slang_line_ok(file_path@, cwd@, ls[i as int]));
                return false;
            }
            proof {
                assert(fields@[1]@ == split_fields(ls[i as int], 5)[1]);
                assert(fields@[2]@ == split_fields(ls[i as int], 5)[2]);
            }
            if parse_u32(fields[1].as_str()).is_none() || parse_u32(fields[2].as_str()).is_none() {
                assert(!slang_line_ok(file_path@, cwd@, ls[i as int]));
                return false;
            }
        }
        i = i + 1;
    }
    true
}

/// Reads the diagnostics of a file from a slang report: one per report line
/// whose path, taken from the working directory `cwd`, is `file_path`.
#[verifier::spinoff_prover]
pub fn parse_report(file_path: &str, cwd: &str, report: &str) -> (r: Vec<Diagnostic>)
    requires
        report_ok(file_path@, cwd@, report@),
    ensures
        diagnostic_views(r@) == slang_lines(file_path@, cwd@, lines_of(report@)),
{
    let lines = split_lines(report);
    let ghost ls = views(lines@);
    let mut diags: Vec<Diagnostic> = Vec::new();
    let n = lines.len();
    let mut i: usize = 0;
    while i < n
        invariant
            n == lines@.len(),
            ls == views(lines@),
            ls == lines_of(report@),
            report_ok(file_path@, cwd@, report@),
            0 <= i <= n,
            diagnostic_views(diags@) == slang_lines(file_path@, cwd@, ls.take(i as int)),
        decreases n - i,
    {
        let (hit, fields) = concerns(file_path, cwd, lines[i].as_str());
        let ghost l = ls[i as int];
        proof {
            assert(l == lines@[i as int]@);
            assert(slang_line_ok(file_path@, cwd@, l));
            assert(ls.take(i + 1).drop_last() =~= ls.take(i as int));
            assert(ls.take(i + 1).last() == l);
        }
        if hit {
            proof {
                assert(fields@[1]@ == split_fields(l, 5)[1]);
                assert(fields@[2]@ == split_fields(l, 5)[2]);
                assert(fields@[3]@ == split_fields(l, 5)[3]);
                assert(fields@[4]@ == split_fields(l, 5)[4]);
            }
            let line = parse_u32(fields[1].as_str()).unwrap();
            let column = parse_u32(fields[2].as_str()).unwrap();
            let pos = Position::new(line.wrapping_sub(1), column.wrapping_sub(1));
            proof {
                reveal_strlit("slang");
            }
            let source = string_of("slang", 0, 5);
            proof {
                assert("slang"@.subrange(0, 5) =~= "slang"@);
            }
            let d = Diagnostic {
                range: Range::new(pos, pos),
                severity: slang_severity(fields[3].as_str()),
                source,
                message: fields[4].clone(),
            };
            let ghost dv = diagnostic_views(diags@);
            diags.push(d);
            proof {
                assert(diagnostic_views(diags@) =~= dv.push(d@));
            }
        }
        i = i + 1;
    }
    proof {
        assert(ls.take(n as int) =~= ls);
    }
    diags
}

/// Reads the diagnostics of a file from a slang report as `parse_report`
/// does, where every line that concerns the file can be read; `None` where
/// one cannot.
pub fn try_parse_report(file_path: &str, cwd: &str, report: &str) -> (r: Option<Vec<Diagnostic>>)
    ensures
        report_ok(file_path@, cwd@, report@) ==> (r matches Some(v) && diagnostic_views(v@)
            == slang_lines(file_path@, cwd@, lines_of(report@))),
        !report_ok(file_path@, cwd@, report@) ==> r is None,
{
    if report_fits(file_path, cwd, report) {
        Some(parse_report(file_path, cwd, report))
    } else {
        None
    }
}

/// A directory entry is hidden when its name starts with a dot; a name that
/// is not valid UTF-8 (`None`) is not hidden.
pub fn is_hidden(file_name: Option<&str>) -> (b: bool)
    ensures
        b == (file_name matches Some(n) && starts_with(n@, "."@)),
{
    match file_name {
        Some(n) => str_starts_with(n, "."),
        None => false,
    }
}

/// A file extension of SystemVerilog or Verilog sources and headers.
pub open spec fn is_source_ext(ext: Seq<char>) -> bool {
    ext == "sv"@ || ext == "svh"@ || ext == "v"@ || ext == "vh"@
}

/// Whether `ext` is the extension of a SystemVerilog or Verilog source or header.
pub fn is_source_extension(ext: &str) -> (b: bool)
    ensures
        b == is_source_ext(ext@),
{
    str_eq(ext, "sv") || str_eq(ext, "svh") || str_eq(ext, "v") || str_eq(ext, "vh")
}

} // verus!
