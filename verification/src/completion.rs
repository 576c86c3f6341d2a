//! Answering a completion request: what the trigger asks for, and the
//! candidates for the token before the cursor.
use crate::hover::{str_starts_with, views};
use crate::lookup::{
    completion_walk, dot_walk, files_wf, get_completions, get_dot_completions, starts_with, Index,
};
use crate::position::{pos_char, pos_valid, Position};
use crate::rope::{rope_chars, rope_line};
use crate::strings::{str_eq, string_of};
use crate::symbol::Symbol;
use crate::text::{line_chars, utf16_to_char_idx};
use crate::tokens::{completion_token, get_completion_token, last_non_whitespace, prev_char};
use vstd::prelude::*;
use vstd::string::StrSliceExecFns;

verus! {

/// How a completion request was triggered.
pub enum CompletionTrigger {
    /// A trigger character was typed (the client may leave out which one).
    Character(Option<String>),
    /// The client asks again for a list it was told is incomplete.
    Incomplete,
    /// The user asked for completion.
    Invoked,
    /// A trigger kind this server does not know.
    Other,
    /// The request came without a context.
    Absent,
}

/// What a completion request asks for.
#[derive(Clone, Copy, Debug, PartialEq, Eq, Structural)]
pub enum CompletionKind {
    /// The members of the name before a `.`.
    Members,
    /// The system tasks, after a `$`.
    SystemTasks,
    /// The compiler directives, after a backtick.
    Directives,
    /// Identifiers and keywords that start with the token.
    Identifiers,
}

/// The answer to a completion request.
pub enum CompletionAnswer {
    /// Member symbols, each with the index of its document.
    Members(Vec<(usize, Symbol)>),
    /// The list of system tasks.
    SystemTasks,
    /// The list of compiler directives.
    Directives,
    /// Identifier symbols, each with the index of its document, and the
    /// keywords that start with the token.
    Identifiers(Vec<(usize, Symbol)>, Vec<String>),
}

/// The completion a char before the cursor asks for.
pub open spec fn char_kind(c: char) -> CompletionKind {
    if c == '.' {
        CompletionKind::Members
    } else if c == '$' {
        CompletionKind::SystemTasks
    } else if c == '`' {
        CompletionKind::Directives
    } else {
        CompletionKind::Identifiers
    }
}

/// The completion a trigger asks for, `prev` being the last char before the
/// cursor that is not whitespace; `None` where it asks for none.
pub open spec fn trigger_kind(t: CompletionTrigger, prev: char) -> Option<CompletionKind> {
    match t {
        CompletionTrigger::Character(Some(c)) => if c@ == "."@ {
            Some(CompletionKind::Members)
        } else if c@ == "$"@ {
            Some(CompletionKind::SystemTasks)
        } else if c@ == "`"@ {
            Some(CompletionKind::Directives)
        } else {
            None
        },
        CompletionTrigger::Character(None) => None,
        CompletionTrigger::Incomplete => None,
        CompletionTrigger::Invoked => Some(CompletionKind::Identifiers),
        CompletionTrigger::Other => None,
        CompletionTrigger::Absent => Some(char_kind(prev)),
    }
}

/// `t` without its trailing dots.
pub open spec fn trim_dots(t: Seq<char>) -> Seq<char>
    decreases t.len(),
{
    if t.len() > 0 && t.last() == '.' {
        trim_dots(t.drop_last())
    } else {
        t
    }
}

/// The keywords that start with `token`, in their order.
pub open spec fn keywords_matching(ks: Seq<Seq<char>>, token: Seq<char>) -> Seq<Seq<char>>
    decreases ks.len(),
{
    if ks.len() == 0 {
        Seq::empty()
    } else {
        let r = keywords_matching(ks.drop_last(), token);
        if starts_with(ks.last(), token) {
            r.push(ks.last())
        } else {
            r
        }
    }
}

/// The token to complete at `pos` of a document with chars `s`.
pub open spec fn request_token(s: Seq<char>, pos: Position) -> Seq<char> {
    let line = line_chars(s, pos.line as int);
    completion_token(s, line, utf16_to_char_idx(line, pos.character as int), pos_char(s, pos))
}

/// The completion a trigger asks for.
fn kind_of(text: &ropey::Rope, pos: &Position, trigger: &CompletionTrigger) -> (k: Option<
    CompletionKind,
>)
    requires
        pos_valid(rope_chars(*text), *pos),
    ensures
        k == trigger_kind(
            *trigger,
            last_non_whitespace(rope_chars(*text), pos_char(rope_chars(*text), *pos)),
        ),
{
    match trigger {
        CompletionTrigger::Character(Some(c)) => {
            if str_eq(c.as_str(), ".") {
                Some(CompletionKind::Members)
            } else if str_eq(c.as_str(), "$") {
                Some(CompletionKind::SystemTasks)
            } else if str_eq(c.as_str(), "`") {
                Some(CompletionKind::Directives)
            } else {
                None
            }
        },
        CompletionTrigger::Character(None) => None,
        CompletionTrigger::Incomplete => None,
        CompletionTrigger::Invoked => Some(CompletionKind::Identifiers),
        CompletionTrigger::Other => None,
        CompletionTrigger::Absent => {
            let c = prev_char(text, pos);
            if c == '.' {
                Some(CompletionKind::Members)
            } else if c == '$' {
                Some(CompletionKind::SystemTasks)
            } else if c == '`' {
                Some(CompletionKind::Directives)
            } else {
                Some(CompletionKind::Identifiers)
            }
        },
    }
}

/// `t` without its trailing dots.
pub fn trim_trailing_dots(t: &str) -> (r: String)
    ensures
        r@ == trim_dots(t@),
{
    let mut end = t.unicode_len();
    proof {
        assert(t@.take(end as int) =~= t@);
    }
    while end > 0 && t.get_char(end - 1) == '.'
        invariant
            end <= t@.len(),
            trim_dots(t@) == trim_dots(t@.take(end as int)),
        decreases end,
    {
        proof {
            assert(t@.take(end as int).drop_last() =~= t@.take(end - 1));
        }
        end = end - 1;
    }
    proof {
        assert(t@.subrange(0, end as int) =~= t@.take(end as int));
        let u = t@.take(end as int);
        if end > 0 {
            assert(u.last() == t@[end - 1]);
        }
    }
    string_of(t, 0, end)
}

/// The keywords that start with `token`, in their order.
pub fn matching_keywords(keywords: &Vec<String>, token: &str) -> (r: Vec<String>)
    ensures
        views(r@) == keywords_matching(views(keywords@), token@),
{
    let mut r: Vec<String> = Vec::new();
    let n = keywords.len();
    let mut i: usize = 0;
    while i < n
        invariant
            n == keywords@.len(),
            0 <= i <= n,
            views(r@) == keywords_matching(views(keywords@).take(i as int), token@),
        decreases n - i,
    {
        let ghost ks = views(keywords@);
        proof {
            assert(ks.take(i + 1).drop_last() =~= ks.take(i as int));
            assert(ks.take(i + 1).last() == keywords@[i as int]@);
        }
        if str_starts_with(keywords[i].as_str(), token) {
            let k = keywords[i].clone();
            let ghost before = views(r@);
            r.push(k);
            proof {
                assert(views(r@) =~= before.push(k@));
            }
        }
        i = i + 1;
    }
    proof {
        assert(views(keywords@).take(n as int) =~= views(keywords@));
    }
    r
}

/// Answers a completion request at `pos` of document `uri`: `None` where the
/// document is not open or the trigger asks for nothing; otherwise the members
/// of the name before a `.`, the system tasks, the directives, or the
/// identifiers and keywords that start with the token before the cursor.
pub fn completion(
    files: &Vec<Index>,
    uri: usize,
    pos: Position,
    trigger: &CompletionTrigger,
    keywords: &Vec<String>,
) -> (r: Option<CompletionAnswer>)
    requires
        files_wf(files@),
        uri < files@.len() ==> pos_valid(rope_chars(files@[uri as int].text), pos),
    ensures
        uri >= files@.len() ==> r is None,
        uri < files@.len() ==> {
            let s = rope_chars(files@[uri as int].text);
            let token = request_token(s, pos);
            match trigger_kind(*trigger, last_non_whitespace(s, pos_char(s, pos))) {
                None => r is None,
                Some(CompletionKind::Members) => r matches Some(CompletionAnswer::Members(c))
                    && c@ == dot_walk(files@, Some(uri), trim_dots(token), pos, files@.len() as int).2,
                Some(CompletionKind::SystemTasks) => r matches Some(CompletionAnswer::SystemTasks),
                Some(CompletionKind::Directives) => r matches Some(CompletionAnswer::Directives),
                Some(CompletionKind::Identifiers) => r matches Some(
                    CompletionAnswer::Identifiers(c, k),
                ) && c@ == completion_walk(files@, Some(uri), token, pos, files@.len() as int).1
                    && views(k@) == keywords_matching(views(keywords@), token),
            }
        },
{
    if uri >= files.len() {
        return None;
    }
    let text = &files[uri].text;
    let token = get_completion_token(text, rope_line(text, pos.line as usize), pos);
    match kind_of(text, &pos, trigger) {
        None => None,
        Some(CompletionKind::Members) => {
            let name = trim_trailing_dots(token.as_str());
            Some(CompletionAnswer::Members(get_dot_completions(files, Some(uri), name.as_str(), pos)))
        },
        Some(CompletionKind::SystemTasks) => Some(CompletionAnswer::SystemTasks),
        Some(CompletionKind::Directives) => Some(CompletionAnswer::Directives),
        Some(CompletionKind::Identifiers) => {
            let cand = get_completions(files, Some(uri), token.as_str(), pos);
            let words = matching_keywords(keywords, token.as_str());
            Some(CompletionAnswer::Identifiers(cand, words))
        },
    }
}

} // verus!
