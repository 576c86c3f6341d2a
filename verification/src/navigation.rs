//! Answering go-to-definition and hover requests from the indexed documents.
use crate::hover::{get_hover, hover_text};
use crate::lookup::{definition_walk, files_nonempty, files_wf, get_definition, Index};
use crate::position::{pos_valid, Position, Range};
use crate::rope::{rope_chars, rope_line};
use crate::text::{line_chars, line_count, utf16_to_char_idx};
use crate::tokens::{definition_token, get_definition_token};
use vstd::prelude::*;

verus! {

/// The identifier under the cursor at `pos` of a document with chars `s`.
pub open spec fn cursor_token(s: Seq<char>, pos: Position) -> Seq<char> {
    let line = line_chars(s, pos.line as int);
    definition_token(line, utf16_to_char_idx(line, pos.character as int))
}

/// The definitions of the identifier under the cursor at `pos` of document
/// `uri`, each with the index of its document.
pub open spec fn definitions_at(
    files: Seq<Index>,
    uri: usize,
    pos: Position,
    named_port: bool,
) -> Seq<(usize, Range)> {
    let s = rope_chars(files[uri as int].text);
    definition_walk(files, uri, cursor_token(s, pos), pos, named_port, files.len() as int).1
}

/// The first definition found starts on a line of the document it is in.
pub open spec fn hover_line_ok(files: Seq<Index>, uri: usize, pos: Position, named_port: bool) -> bool {
    let defs = definitions_at(files, uri, pos, named_port);
    defs.len() > 0 ==> defs[0].0 < files.len() && defs[0].1.start.line < line_count(
        rope_chars(files[defs[0].0 as int].text),
    )
}

/// Answers a go-to-definition request at `pos` of document `uri`: `None`
/// where the document is not open, otherwise the definitions of the
/// identifier under the cursor. `named_port` says whether the cursor is on
/// the port name of a named port connection.
pub fn goto_definition(files: &Vec<Index>, uri: usize, pos: Position, named_port: bool) -> (r:
    Option<Vec<(usize, Range)>>)
    requires
        files_wf(files@),
        files_nonempty(files@),
        uri < files@.len() ==> pos_valid(rope_chars(files@[uri as int].text), pos),
    ensures
        uri >= files@.len() ==> r is None,
        uri < files@.len() ==> (r matches Some(defs) && defs@ == definitions_at(
            files@,
            uri,
            pos,
            named_port,
        )),
{
    if uri >= files.len() {
        return None;
    }
    let text = &files[uri].text;
    let token = get_definition_token(rope_line(text, pos.line as usize), pos);
    Some(get_definition(files, uri, token.as_str(), pos, named_port))
}

/// Answers a hover request at `pos` of document `uri`: `None` where the
/// document is not open or the identifier under the cursor has no
/// definition; otherwise the hover text of the first definition's line, read
/// from the document the definition is in.
pub fn hover(files: &Vec<Index>, uri: usize, pos: Position, named_port: bool) -> (r: Option<
    String,
>)
    requires
        files_wf(files@),
        files_nonempty(files@),
        uri < files@.len() ==> pos_valid(rope_chars(files@[uri as int].text), pos),
        uri < files@.len() ==> hover_line_ok(files@, uri, pos, named_port),
    ensures
        uri >= files@.len() ==> r is None,
        uri < files@.len() ==> {
            let defs = definitions_at(files@, uri, pos, named_port);
            &&& defs.len() == 0 ==> r is None
            &&& defs.len() > 0 ==> (r matches Some(h) && h@ == hover_text(
                rope_chars(files@[defs[0].0 as int].text),
                defs[0].1.start.line as int,
            ))
        },
{
    if uri >= files.len() {
        return None;
    }
    let text = &files[uri].text;
    let token = get_definition_token(rope_line(text, pos.line as usize), pos);
    let defs = get_definition(files, uri, token.as_str(), pos, named_port);
    if defs.len() == 0 {
        return None;
    }
    let (def_file, def_range) = defs[0];
    Some(get_hover(&files[def_file].text, def_range.start.line as usize))
}

} // verus!
