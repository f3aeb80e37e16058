//! Decisions of the editor's file commands, apart from the dialogs and the
//! disk: which conversion a file type calls for, and a file's display name.

use vstd::prelude::*;
use crate::chars::chars_of;
use crate::convert::{html_to_text, markup_stage, entities_decoded};
use crate::paragraphs::{text_to_html, paragraphs_html, escaped};
use crate::whitespace::normalized;

verus! {

/// The formats a note is saved in or opened from.
#[derive(PartialEq, Eq, Structural, Clone, Copy, Debug)]
pub enum FileType {
    Html,
    Txt,
}

/// Why a file command cannot go on.
#[derive(PartialEq, Eq, Structural, Clone, Copy, Debug)]
pub enum CommandError {
    NoFilePath,
    UnsupportedFileType,
}

/// The command succeeds with text `t`.
pub open spec fn succeeds_with(r: Result<String, CommandError>, t: Seq<char>) -> bool {
    match r {
        Ok(x) => x@ == t,
        Err(_) => false,
    }
}

pub open spec fn file_type_of(s: Seq<char>) -> Option<FileType> {
    if s == seq!['h', 't', 'm', 'l'] {
        Some(FileType::Html)
    } else if s == seq!['t', 'x', 't'] {
        Some(FileType::Txt)
    } else {
        None
    }
}

fn same_chars(a: &Vec<char>, b: &Vec<char>) -> (r: bool)
    ensures
        r == (a@ == b@),
{
    if a.len() != b.len() {
        return false;
    }
    let mut k: usize = 0;
    while k < a.len()
        invariant
            k <= a@.len() == b@.len(),
            forall|m: int| 0 <= m < k ==> a@[m] == b@[m],
        decreases a.len() - k,
    {
        if a[k] != b[k] {
            return false;
        }
        k = k + 1;
    }
    assert(a@ =~= b@);
    true
}

/// Reads a file type, `"html"` or `"txt"`; any other word is none.
pub fn parse_file_type(s: &str) -> (r: Option<FileType>)
    ensures
        r == file_type_of(s@),
{
    let c = chars_of(s);
    let html = vec!['h', 't', 'm', 'l'];
    let txt = vec!['t', 'x', 't'];
    assert(html@ == seq!['h', 't', 'm', 'l']);
    assert(txt@ == seq!['t', 'x', 't']);
    if same_chars(&c, &html) {
        Some(FileType::Html)
    } else if same_chars(&c, &txt) {
        Some(FileType::Txt)
    } else {
        None
    }
}

/// What is written to disk for editor content saved as `file_type`: the
/// HTML itself, or its plain text.
pub fn converted_for_save(content: &str, file_type: &str) -> (r: Result<String, CommandError>)
    ensures
        file_type_of(file_type@) == Some(FileType::Html) ==> succeeds_with(r, content@),
        file_type_of(file_type@) == Some(FileType::Txt) ==> succeeds_with(
            r,
            normalized(entities_decoded(markup_stage(content@))),
        ),
        file_type_of(file_type@) is None ==> r == Err::<String, CommandError>(
            CommandError::UnsupportedFileType,
        ),
{
    match parse_file_type(file_type) {
        Some(FileType::Html) => Ok(content.to_string()),
        Some(FileType::Txt) => Ok(html_to_text(content)),
        None => Err(CommandError::UnsupportedFileType),
    }
}

/// The save command: a path must be given, then the content is converted
/// for its file type.
pub fn prepare_save(content: &str, file_path: &str, file_type: &str) -> (r: Result<
    String,
    CommandError,
>)
    ensures
        file_path@.len() == 0 ==> r == Err::<String, CommandError>(CommandError::NoFilePath),
        file_path@.len() > 0 && file_type_of(file_type@) is None ==> r == Err::<
            String,
            CommandError,
        >(CommandError::UnsupportedFileType),
        file_path@.len() > 0 && file_type_of(file_type@) == Some(FileType::Html) ==> succeeds_with(
            r,
            content@,
        ),
        file_path@.len() > 0 && file_type_of(file_type@) == Some(FileType::Txt) ==> succeeds_with(
            r,
            normalized(entities_decoded(markup_stage(content@))),
        ),
{
    let p = chars_of(file_path);
    if p.len() == 0 {
        return Err(CommandError::NoFilePath);
    }
    converted_for_save(content, file_type)
}

/// Editor HTML for a file opened with the (lower-case) `extension`: text
/// files are converted, anything else is taken as HTML.
pub fn html_for_open(content: &str, extension: &str) -> (r: String)
    ensures
        file_type_of(extension@) == Some(FileType::Txt) ==> r@ == paragraphs_html(
            escaped(content@),
        ),
        file_type_of(extension@) != Some(FileType::Txt) ==> r@ == content@,
{
    match parse_file_type(extension) {
        Some(FileType::Txt) => text_to_html(content),
        _ => content.to_string(),
    }
}

/// What `std::path::Path::file_name` gives for a path, as text.
pub uninterp spec fn file_name_of(path: Seq<char>) -> Option<Seq<char>>;

/// Relies on `std::path::Path::file_name`: the final component of the
/// path, none when the path ends in `..` or has no component.
#[verifier::external_body]
fn path_file_name(path: &str) -> (r: Option<String>)
    ensures
        r matches Some(n) ==> file_name_of(path@) == Some(n@),
        r is None ==> file_name_of(path@) is None,
{
    std::path::Path::new(path).file_name().and_then(|n| n.to_str()).map(|n| n.to_string())
}

/// The name shown for a file: the last component of its path, or
/// `Untitled` when the path has none.
pub fn get_file_name_from_path(path: &str) -> (r: String)
    ensures
        file_name_of(path@) matches Some(n) ==> r@ == n,
        file_name_of(path@) is None ==> r@ == seq!['U', 'n', 't', 'i', 't', 'l', 'e', 'd'],
{
    match path_file_name(path) {
        Some(n) => n,
        None => {
            let v = vec!['U', 'n', 't', 'i', 't', 'l', 'e', 'd'];
            assert(v@ == seq!['U', 'n', 't', 'i', 't', 'l', 'e', 'd']);
            crate::chars::string_of(&v)
        },
    }
}

} // verus!
