use nucleotide::completion::{contains_text, CompletionItem, CompletionItemKind, CompletionMenu, MAX_VISIBLE_ITEMS};

fn items(n: usize) -> Vec<CompletionItem> {
    (0..n).map(|i| CompletionItem::new(format!("item{}", i), CompletionItemKind::Variable)).collect()
}

#[test]
fn builder_sets_fields_and_insert_text_falls_back_to_label() {
    let item = CompletionItem::new("push".to_string(), CompletionItemKind::Method)
        .with_detail("fn push(&mut self, value: T)".to_string())
        .with_documentation("Appends an element.".to_string())
        .with_filter_text("push_back".to_string())
        .preselected();
    assert_eq!(item.detail.as_deref(), Some("fn push(&mut self, value: T)"));
    assert_eq!(item.documentation.as_deref(), Some("Appends an element."));
    assert!(item.preselect);
    assert_eq!(item.get_insert_text(), "push");
    let item = item.with_insert_text("push($1)".to_string());
    assert_eq!(item.get_insert_text(), "push($1)");
}

#[test]
fn kinds_have_icons() {
    assert_eq!(CompletionItemKind::Function.icon(), "ƒ");
    assert_eq!(CompletionItemKind::Folder.icon(), "📁");
    assert_eq!(CompletionItemKind::Event.icon(), "⚡");
}

#[test]
fn contains_text_finds_a_piece() {
    assert!(contains_text("hello world", "o w"));
    assert!(contains_text("abc", ""));
    assert!(!contains_text("abc", "abd"));
}

#[test]
fn filter_matches_label_or_filter_text_ignoring_case() {
    let list = vec![
        CompletionItem::new("HashMap".to_string(), CompletionItemKind::Struct),
        CompletionItem::new("vec".to_string(), CompletionItemKind::Function).with_filter_text("MAPPING".to_string()),
        CompletionItem::new("String".to_string(), CompletionItemKind::Struct),
    ];
    let mut menu = CompletionMenu::new(list);
    assert_eq!(menu.filtered_items(), &vec![0, 1, 2]);
    menu.update_filter("map".to_string());
    assert_eq!(menu.filtered_items(), &vec![0, 1]);
    assert_eq!(menu.item_count(), 2);
    assert_eq!(menu.selected_item(), Some(0));
    menu.update_filter("zzz".to_string());
    assert!(menu.is_empty());
    assert_eq!(menu.selected_item(), None);
}

#[test]
fn selection_scrolls_to_stay_visible() {
    let mut menu = CompletionMenu::new(items(15));
    menu.move_selection(12);
    assert_eq!(menu.selected_index(), 12);
    assert_eq!(menu.scroll_offset(), 12 - MAX_VISIBLE_ITEMS + 1);
    menu.move_selection(-12);
    assert_eq!(menu.selected_index(), 0);
    assert_eq!(menu.scroll_offset(), 0);
    menu.move_to_last();
    assert_eq!(menu.selected_index(), 14);
    assert_eq!(menu.scroll_offset(), 5);
    menu.move_to_first();
    assert_eq!(menu.selected_index(), 0);
    assert_eq!(menu.scroll_offset(), 0);
    menu.move_selection(100);
    assert_eq!(menu.selected_item(), Some(14));
}
