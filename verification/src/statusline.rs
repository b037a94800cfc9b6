//! The texts of the status line: the editing mode's short name, the file
//! name shortened to fit, the cursor position counted from one, and the
//! name of the focused document.
use vstd::prelude::*;
use crate::decimal::{decimal_text, usize_to_decimal};
use crate::file_tree::{file_name_of, path_file_name};
use crate::text::opt_str_view;
use crate::text::{append_chars, chars_of, owned, string_of};

verus! {

/// What `Path::parent` gives for a path, on the platform the crate is
/// built for, taken as a string.
pub uninterp spec fn path_parent(path: Seq<char>) -> Option<Seq<char>>;

/// Calls `Path::parent`; the answer is only named.
#[verifier::external_body]
pub(crate) fn parent_of(path: &str) -> (r: Option<&str>)
    ensures
        opt_str_view(r) == path_parent(path@),
{
    std::path::Path::new(path).parent().and_then(|p| p.to_str())
}

/// The editor's modes.
#[derive(Debug, Clone, Copy, PartialEq, Eq)]
pub enum EditorMode {
    Normal,
    Insert,
    Select,
}

/// The short name the status line shows for a mode.
pub open spec fn mode_name_spec(mode: EditorMode) -> Seq<char> {
    match mode {
        EditorMode::Normal => "NOR"@,
        EditorMode::Insert => "INS"@,
        EditorMode::Select => "SEL"@,
    }
}

/// The short name the status line shows for a mode.
pub fn mode_name(mode: EditorMode) -> (r: &'static str)
    ensures
        r@ == mode_name_spec(mode),
{
    match mode {
        EditorMode::Normal => "NOR",
        EditorMode::Insert => "INS",
        EditorMode::Select => "SEL",
    }
}

/// The position text: line and column, each counted from one, joined by a colon.
pub open spec fn position_text_spec(row: usize, col: usize) -> Seq<char> {
    decimal_text((row + 1) as nat) + ":"@ + decimal_text((col + 1) as nat)
}

/// The position text of a cursor at a row and a column counted from zero.
pub fn position_text(row: usize, col: usize) -> (r: String)
    requires
        row < usize::MAX,
        col < usize::MAX,
    ensures
        r@ == position_text_spec(row, col),
{
    let mut out = chars_of(usize_to_decimal(row + 1).as_str());
    let colon = chars_of(":");
    append_chars(&mut out, colon.as_slice());
    let c = chars_of(usize_to_decimal(col + 1).as_str());
    append_chars(&mut out, c.as_slice());
    string_of(out.as_slice())
}

/// The longest path, in bytes, that the status line shows whole.
pub const MAX_PATH_LEN: usize = 50;

/// The file name the status line shows: "[scratch]" without a path; the
/// path itself when it takes at most fifty bytes; otherwise "..." followed
/// by the parent directory's name (when there is one) and the file name.
pub open spec fn status_file_name_spec(path: Option<Seq<char>>) -> Seq<char> {
    match path {
        None => "[scratch]"@,
        Some(p) => if vstd::utf8::encode_utf8(p).len() <= MAX_PATH_LEN {
            p
        } else {
            match path_file_name(p) {
                None => "..."@,
                Some(name) => match path_parent(p) {
                    None => name,
                    Some(parent) => match path_file_name(parent) {
                        Some(parent_name) => ".../"@ + parent_name + "/"@ + name,
                        None => ".../"@ + name,
                    },
                },
            }
        },
    }
}

/// The file name the status line shows for a document's path.
pub fn status_file_name(path: Option<&str>) -> (r: String)
    ensures
        r@ == status_file_name_spec(opt_str_view(path)),
{
    let p = match path {
        Some(p) => p,
        None => {
            return owned("[scratch]");
        },
    };
    let pc = chars_of(p);
    proof {
        crate::text::lemma_utf8_len_is_encoding_len(p@);
    }
    if !crate::text::utf8_len_exceeds(pc.as_slice(), MAX_PATH_LEN) {
        return owned(p);
    }
    let name = match file_name_of(p) {
        Some(n) => n,
        None => {
            return owned("...");
        },
    };
    match parent_of(p) {
        None => owned(name),
        Some(parent) => match file_name_of(parent) {
            Some(parent_name) => {
                let mut out = chars_of(".../");
                let pn = chars_of(parent_name);
                append_chars(&mut out, pn.as_slice());
                let slash = chars_of("/");
                append_chars(&mut out, slash.as_slice());
                let n = chars_of(name);
                append_chars(&mut out, n.as_slice());
                string_of(out.as_slice())
            },
            None => {
                let mut out = chars_of(".../");
                let n = chars_of(name);
                append_chars(&mut out, n.as_slice());
                string_of(out.as_slice())
            },
        },
    }
}

/// The name the workspace gives the focused document: the last component
/// of its path, or the whole path when it has none (as for `/`).
pub fn document_file_name(path: &str) -> (r: String)
    ensures
        r@ == match path_file_name(path@) {
            Some(n) => n,
            None => path@,
        },
{
    match file_name_of(path) {
        Some(n) => owned(n),
        None => owned(path),
    }
}

/// The file name that the workspace's own status bar shows for a
/// document's path: the whole path up to fifty bytes, else `.../` and the
/// path's last component (`...` when it has none); `[scratch]` for a
/// document without a path.
pub open spec fn bar_file_name_spec(path: Option<Seq<char>>) -> Seq<char> {
    match path {
        None => "[scratch]"@,
        Some(p) => if vstd::utf8::encode_utf8(p).len() <= MAX_PATH_LEN {
            p
        } else {
            match path_file_name(p) {
                Some(name) => ".../"@ + name,
                None => "..."@,
            }
        },
    }
}

/// The file name of the workspace's status bar for a document's path.
pub fn bar_file_name(path: Option<&str>) -> (r: String)
    ensures
        r@ == bar_file_name_spec(opt_str_view(path)),
{
    let p = match path {
        Some(p) => p,
        None => {
            return owned("[scratch]");
        },
    };
    let pc = chars_of(p);
    proof {
        crate::text::lemma_utf8_len_is_encoding_len(p@);
    }
    if !crate::text::utf8_len_exceeds(pc.as_slice(), MAX_PATH_LEN) {
        return owned(p);
    }
    match file_name_of(p) {
        Some(name) => {
            let mut out = owned(".../");
            out.append(name);
            out
        },
        None => owned("..."),
    }
}

/// The window title: the focused document's name and the editor's name,
/// or the editor's name alone.
pub fn window_title(file_name: Option<&str>) -> (r: String)
    ensures
        r@ == match file_name {
            Some(n) => n@ + " \u{2014} Helix"@,
            None => "Helix"@,
        },
{
    match file_name {
        Some(n) => {
            let mut t = owned(n);
            t.append(" \u{2014} Helix");
            t
        },
        None => owned("Helix"),
    }
}

} // verus!
