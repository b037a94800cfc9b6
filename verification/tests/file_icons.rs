use nucleotide::file_icons::{
    chevron_icon, file_icon, folder_icon, get_file_icon, get_symlink_icon, git_status_symbol,
};
use nucleotide::file_tree::GitStatus;

#[test]
fn icons_follow_kind_and_extension() {
    assert_eq!(get_file_icon(None, true, false), "icons/folder.svg");
    assert_eq!(get_file_icon(Some("rs"), true, true), "icons/folder-open.svg");
    assert_eq!(get_file_icon(Some("rs"), false, false), "icons/code.svg");
    assert_eq!(get_file_icon(Some("yml"), false, false), "icons/braces.svg");
    assert_eq!(get_file_icon(Some("pdf"), false, false), "icons/file-text.svg");
    assert_eq!(get_file_icon(Some("toml"), false, false), "icons/settings.svg");
    assert_eq!(get_file_icon(Some("png"), false, false), "icons/file.svg");
    assert_eq!(get_file_icon(None, false, false), file_icon());
    assert_eq!(folder_icon(true), "icons/folder-open.svg");
    assert_eq!(chevron_icon("down"), "icons/chevron-down.svg");
    assert_eq!(chevron_icon("up"), "icons/chevron-right.svg");
    assert_eq!(get_symlink_icon(true), "icons/link.svg");
    assert_eq!(get_symlink_icon(false), "icons/link-broken.svg");
}

#[test]
fn statuses_have_letters() {
    assert_eq!(git_status_symbol(GitStatus::Modified), Some("M"));
    assert_eq!(git_status_symbol(GitStatus::Conflicted), Some("!"));
    assert_eq!(git_status_symbol(GitStatus::UpToDate), None);
}
