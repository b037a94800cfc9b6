use nucleotide::view_manager::{show_file_in, ShowFile};
use nucleotide::split_resize::ViewId;
use nucleotide::view_manager::ViewManager;

#[test]
fn test_view_manager_creation() {
    let manager: ViewManager<String> = ViewManager::new();
    assert!(manager.focused_view_id().is_none());
    assert_eq!(manager.view_count(), 0);
    assert!(!manager.needs_focus_restore());
}

#[test]
fn test_view_manager_focus_tracking() {
    let mut manager: ViewManager<String> = ViewManager::new();
    let view_id = ViewId::default();

    assert!(manager.focused_view_id().is_none());
    assert!(!manager.has_view(&view_id));

    manager.set_needs_focus_restore(true);
    assert!(manager.needs_focus_restore());
}

#[test]
fn test_view_manager_clear() {
    let mut manager: ViewManager<String> = ViewManager::new();
    manager.set_needs_focus_restore(true);

    manager.clear_views();
    assert!(manager.focused_view_id().is_none());
    assert_eq!(manager.view_count(), 0);
    assert!(!manager.needs_focus_restore());
}

#[test]
fn views_are_read_back_replaced_and_removed() {
    let mut manager: ViewManager<String> = ViewManager::default();
    manager.insert_document_view(ViewId(1), "one".to_string());
    manager.insert_document_view(ViewId(2), "two".to_string());
    manager.insert_document_view(ViewId(1), "uno".to_string());
    assert_eq!(manager.view_count(), 2);
    assert_eq!(manager.get_document_view(&ViewId(1)), Some(&"uno".to_string()));
    assert_eq!(manager.remove_document_view(&ViewId(1)), Some("uno".to_string()));
    assert_eq!(manager.remove_document_view(&ViewId(1)), None);
    assert!(!manager.has_view(&ViewId(1)));
    assert!(manager.has_view(&ViewId(2)));
}

#[test]
fn focusing_marks_exactly_one_view() {
    let mut manager: ViewManager<String> = ViewManager::new();
    manager.insert_document_view(ViewId(1), "a".to_string());
    manager.insert_document_view(ViewId(2), "b".to_string());
    let flags = manager.handle_view_focused(ViewId(2));
    assert_eq!(flags, vec![(ViewId(1), false), (ViewId(2), true)]);
    assert_eq!(manager.focused_view_id(), Some(ViewId(2)));
    assert_eq!(manager.get_focused_document_view(), Some(&"b".to_string()));
}

#[test]
fn focusing_the_editor_area_falls_back_to_the_first_view() {
    let mut manager: ViewManager<String> = ViewManager::new();
    assert_eq!(manager.focus_editor_area(), None);
    manager.insert_document_view(ViewId(7), "a".to_string());
    manager.insert_document_view(ViewId(8), "b".to_string());
    manager.set_focused_view_id(Some(ViewId(8)));
    assert_eq!(manager.focus_editor_area(), Some(ViewId(8)));
    manager.set_focused_view_id(Some(ViewId(99)));
    assert_eq!(manager.focus_editor_area(), Some(ViewId(7)));
    assert_eq!(manager.focused_view_id(), Some(ViewId(7)));
}

#[test]
fn a_file_opens_in_a_split_only_without_views() {
    assert_eq!(show_file_in(0), ShowFile::VerticalSplit);
    assert_eq!(show_file_in(1), ShowFile::Replace);
    assert_eq!(show_file_in(4), ShowFile::Replace);
}
