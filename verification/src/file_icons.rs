//! Which icon the file tree draws for an entry, by the asset path of its
//! image, and the letter that marks a version-control status.
use vstd::prelude::*;
use crate::file_tree::GitStatus;
use crate::text::str_equal;

verus! {

/// The icon of a folder, open or closed.
pub open spec fn folder_icon_spec(open: bool) -> Seq<char> {
    if open { "icons/folder-open.svg"@ } else { "icons/folder.svg"@ }
}

/// The icon of a folder, open or closed.
pub fn folder_icon(open: bool) -> (r: &'static str)
    ensures
        r@ == folder_icon_spec(open),
{
    if open {
        "icons/folder-open.svg"
    } else {
        "icons/folder.svg"
    }
}

/// The icon of a plain file.
pub fn file_icon() -> (r: &'static str)
    ensures
        r@ == "icons/file.svg"@,
{
    "icons/file.svg"
}

/// The chevron pointing down for "down", right otherwise.
pub fn chevron_icon(direction: &str) -> (r: &'static str)
    ensures
        r@ == (if direction@ == "down"@ { "icons/chevron-down.svg"@ } else { "icons/chevron-right.svg"@ }),
{
    if str_equal(direction, "down") {
        "icons/chevron-down.svg"
    } else {
        "icons/chevron-right.svg"
    }
}

/// Whether the extension is one of the given names.
pub open spec fn ext_in(ext: Seq<char>, names: Seq<Seq<char>>) -> bool {
    exists|i: int| 0 <= i < names.len() && names[i] == ext
}

/// The extensions of source code.
pub open spec fn code_extensions() -> Seq<Seq<char>> {
    seq!["rs"@, "js"@, "ts"@, "py"@, "go"@, "java"@, "cpp"@, "c"@, "h"@, "cs"@, "php"@, "rb"@]
}

/// The extensions of structured data.
pub open spec fn data_extensions() -> Seq<Seq<char>> {
    seq!["json"@, "yaml"@, "yml"@, "xml"@]
}

/// The extensions of documents.
pub open spec fn text_extensions() -> Seq<Seq<char>> {
    seq!["md"@, "txt"@, "doc"@, "docx"@, "pdf"@]
}

/// The extensions of configuration files.
pub open spec fn config_extensions() -> Seq<Seq<char>> {
    seq!["toml"@, "ini"@, "conf"@, "config"@, "env"@]
}

/// The icon of an entry: a folder for a directory, else by the file's
/// extension: code, data, document, configuration, or a plain file.
pub open spec fn file_icon_spec(extension: Option<Seq<char>>, is_directory: bool, is_expanded: bool) -> Seq<char> {
    if is_directory {
        folder_icon_spec(is_expanded)
    } else {
        match extension {
            Some(e) => if ext_in(e, code_extensions()) {
                "icons/code.svg"@
            } else if ext_in(e, data_extensions()) {
                "icons/braces.svg"@
            } else if ext_in(e, text_extensions()) {
                "icons/file-text.svg"@
            } else if ext_in(e, config_extensions()) {
                "icons/settings.svg"@
            } else {
                "icons/file.svg"@
            },
            None => "icons/file.svg"@,
        }
    }
}

fn one_of(ext: &str, names: &[&str]) -> (r: bool)
    ensures
        r == exists|i: int| 0 <= i < names@.len() && names@[i]@ == ext@,
{
    let mut i: usize = 0;
    while i < names.len()
        invariant
            i <= names@.len(),
            forall|k: int| 0 <= k < i ==> names@[k]@ != ext@,
        decreases names.len() - i,
    {
        if str_equal(names[i], ext) {
            return true;
        }
        i = i + 1;
    }
    false
}

/// The icon of an entry: a folder for a directory, else by the file's
/// extension.
pub fn get_file_icon(extension: Option<&str>, is_directory: bool, is_expanded: bool) -> (r: &'static str)
    ensures
        r@ == file_icon_spec(
            match extension {
                Some(e) => Some(e@),
                None => None,
            },
            is_directory,
            is_expanded,
        ),
{
    if is_directory {
        return folder_icon(is_expanded);
    }
    match extension {
        Some(e) => {
            let code = ["rs", "js", "ts", "py", "go", "java", "cpp", "c", "h", "cs", "php", "rb"];
            let data = ["json", "yaml", "yml", "xml"];
            let text = ["md", "txt", "doc", "docx", "pdf"];
            let conf = ["toml", "ini", "conf", "config", "env"];
            let is_code = one_of(e, &code);
            let is_data = one_of(e, &data);
            let is_text = one_of(e, &text);
            let is_conf = one_of(e, &conf);
            proof {
                assert(code@.map_values(|s: &str| s@) =~= code_extensions());
                assert(data@.map_values(|s: &str| s@) =~= data_extensions());
                assert(text@.map_values(|s: &str| s@) =~= text_extensions());
                assert(conf@.map_values(|s: &str| s@) =~= config_extensions());
                if is_code {
                    let i = choose|i: int| 0 <= i < code@.len() && code@[i]@ == e@;
                    assert(code_extensions()[i] == e@);
                } else {
                    assert forall|i: int| 0 <= i < code_extensions().len() implies code_extensions()[i] != e@ by {
                        assert(code_extensions()[i] == code@[i]@);
                    }
                }
                if is_data {
                    let i = choose|i: int| 0 <= i < data@.len() && data@[i]@ == e@;
                    assert(data_extensions()[i] == e@);
                } else {
                    assert forall|i: int| 0 <= i < data_extensions().len() implies data_extensions()[i] != e@ by {
                        assert(data_extensions()[i] == data@[i]@);
                    }
                }
                if is_text {
                    let i = choose|i: int| 0 <= i < text@.len() && text@[i]@ == e@;
                    assert(text_extensions()[i] == e@);
                } else {
                    assert forall|i: int| 0 <= i < text_extensions().len() implies text_extensions()[i] != e@ by {
                        assert(text_extensions()[i] == text@[i]@);
                    }
                }
                if is_conf {
                    let i = choose|i: int| 0 <= i < conf@.len() && conf@[i]@ == e@;
                    assert(config_extensions()[i] == e@);
                } else {
                    assert forall|i: int| 0 <= i < config_extensions().len() implies config_extensions()[i] != e@ by {
                        assert(config_extensions()[i] == conf@[i]@);
                    }
                }
            }
            if is_code {
                "icons/code.svg"
            } else if is_data {
                "icons/braces.svg"
            } else if is_text {
                "icons/file-text.svg"
            } else if is_conf {
                "icons/settings.svg"
            } else {
                file_icon()
            }
        },
        None => file_icon(),
    }
}

/// The icon of a symbolic link: whole when its target exists, broken otherwise.
pub fn get_symlink_icon(target_exists: bool) -> (r: &'static str)
    ensures
        r@ == (if target_exists { "icons/link.svg"@ } else { "icons/link-broken.svg"@ }),
{
    if target_exists {
        "icons/link.svg"
    } else {
        "icons/link-broken.svg"
    }
}

/// The letter shown beside a file with a version-control status; nothing
/// for an up-to-date file.
pub open spec fn git_status_symbol_spec(status: GitStatus) -> Option<Seq<char>> {
    match status {
        GitStatus::Modified => Some("M"@),
        GitStatus::Added => Some("A"@),
        GitStatus::Deleted => Some("D"@),
        GitStatus::Untracked => Some("?"@),
        GitStatus::Renamed => Some("R"@),
        GitStatus::Conflicted => Some("!"@),
        GitStatus::UpToDate => None,
    }
}

/// The letter shown beside a file with a version-control status.
pub fn git_status_symbol(status: GitStatus) -> (r: Option<&'static str>)
    ensures
        match r {
            Some(s) => git_status_symbol_spec(status) == Some(s@),
            None => git_status_symbol_spec(status) is None,
        },
{
    match status {
        GitStatus::Modified => Some("M"),
        GitStatus::Added => Some("A"),
        GitStatus::Deleted => Some("D"),
        GitStatus::Untracked => Some("?"),
        GitStatus::Renamed => Some("R"),
        GitStatus::Conflicted => Some("!"),
        GitStatus::UpToDate => None,
    }
}

} // verus!
