//! The line classifier: one raw line of dictionary text is exactly one of
//! empty, a metadata directive, a comment, a well-formed entry, or
//! malformed input.

use vstd::prelude::*;
use vstd::string::*;
use crate::entry::DictEntry;
use crate::entry::entry_delims;
use crate::entry::entry_of_line;
use crate::entry::lemma_entry_delims;
use crate::entry::parse_dict_entry;
use crate::scan::find_from;
use crate::scan::find_char_from;
use crate::scan::lemma_find_from;
use crate::scan::trim_spec;
use crate::scan::trim_str;

verus! {

/// One classified line of dictionary text.
#[derive(Debug)]
pub enum Line {
    Comment(String),
    Metadata(String, String),
    Entry(DictEntry),
    Empty,
    Incorrect,
}

/// Whether `s` opens a comment: a `#` as its first character.
pub open spec fn is_comment_line(s: Seq<char>) -> bool {
    s.len() > 0 && s[0] == '#'
}

/// Whether `s` is a metadata directive: `#!` as its first two characters.
pub open spec fn is_metadata_line(s: Seq<char>) -> bool {
    s.len() > 1 && s[0] == '#' && s[1] == '!'
}

/// The comment text: everything after the `#`, trimmed.
pub open spec fn comment_text(s: Seq<char>) -> Seq<char>
    recommends
        is_comment_line(s),
{
    trim_spec(s.subrange(1, s.len() as int))
}

/// A metadata directive with its `#!` prefix stripped and surrounding
/// whitespace trimmed.
pub open spec fn metadata_rest(s: Seq<char>) -> Seq<char>
    recommends
        is_metadata_line(s),
{
    trim_spec(s.subrange(2, s.len() as int))
}

/// Whether the directive carries the `=` that separates key from value.
pub open spec fn metadata_has_eq(s: Seq<char>) -> bool {
    find_from(metadata_rest(s), 0, '=') is Some
}

/// The key of a metadata directive: what stands before its first `=`,
/// trimmed.
pub open spec fn metadata_key(s: Seq<char>) -> Seq<char>
    recommends
        is_metadata_line(s),
        metadata_has_eq(s),
{
    let t = metadata_rest(s);
    trim_spec(t.subrange(0, find_from(t, 0, '=')->0))
}

/// The value of a metadata directive: what stands after its first `=`,
/// trimmed.
pub open spec fn metadata_value(s: Seq<char>) -> Seq<char>
    recommends
        is_metadata_line(s),
        metadata_has_eq(s),
{
    let t = metadata_rest(s);
    trim_spec(t.subrange(find_from(t, 0, '=')->0 + 1, t.len() as int))
}

/// What classifying the line `s` as `r` means. In priority order: an empty
/// line is `Empty`; a `#!` directive with an `=` is `Metadata` of its
/// trimmed key and value, and without one it is `Incorrect`; any other `#`
/// line is `Comment` of its trimmed text; a line that tokenizes is `Entry`
/// of that line's fields, backed by the line verbatim; everything else is
/// `Incorrect`.
pub open spec fn classifies(s: Seq<char>, r: Line) -> bool {
    if s.len() == 0 {
        r is Empty
    } else if is_metadata_line(s) {
        if metadata_has_eq(s) {
            r matches Line::Metadata(k, v) && k@ == metadata_key(s) && v@ == metadata_value(s)
        } else {
            r is Incorrect
        }
    } else if is_comment_line(s) {
        r matches Line::Comment(c) && c@ == comment_text(s)
    } else if entry_delims(s) is Some {
        r matches Line::Entry(e) && e.text() == s && e@ == entry_of_line(s)
    } else {
        r is Incorrect
    }
}

/// Checks whether a line is a comment. Comments start with a `#`.
pub fn is_comment(line: &str) -> (r: bool)
    ensures
        r == is_comment_line(line@),
{
    line.unicode_len() > 0 && line.get_char(0) == '#'
}

/// Checks whether a line holds metadata. Metadata lines start with `#!`.
pub fn is_metadata(line: &str) -> (r: bool)
    ensures
        r == is_metadata_line(line@),
{
    line.unicode_len() > 1 && line.get_char(0) == '#' && line.get_char(1) == '!'
}

/// Classifies one raw line of dictionary text. Classification is a pure,
/// total function of the line; nothing is kept across calls. A `#!`
/// directive that carries no `=` separator is classified `Incorrect`.
pub fn parse_line(line: &str) -> (r: Line)
    ensures
        classifies(line@, r),
{
    let n = line.unicode_len();
    if n == 0 {
        Line::Empty
    } else if is_metadata(line) {
        let rest = line.substring_char(2, n);
        let t = trim_str(rest);
        let tn = t.unicode_len();
        match find_char_from(t, 0, '=') {
            None => Line::Incorrect,
            Some(e) => {
                proof {
                    lemma_find_from(t@, 0, '=');
                }
                let key = trim_str(t.substring_char(0, e));
                let value = trim_str(t.substring_char(e + 1, tn));
                Line::Metadata(key.to_owned(), value.to_owned())
            },
        }
    } else if is_comment(line) {
        Line::Comment(trim_str(line.substring_char(1, n)).to_owned())
    } else {
        match parse_dict_entry(line) {
            Some(e) => Line::Entry(e),
            None => Line::Incorrect,
        }
    }
}

/// Classifying canonical entry text always yields `Entry` again, never
/// `Incorrect`: a line that tokenizes is nonempty and opens no comment or
/// metadata directive, so classification lands on the entry case and the
/// fields come back unchanged.
pub proof fn lemma_classification_idempotent(s: Seq<char>, r: Line)
    requires
        entry_delims(s) is Some,
        classifies(s, r),
    ensures
        r matches Line::Entry(e) && e.text() == s && e@ == entry_of_line(s),
{
    lemma_entry_delims(s);
}

} // verus!
