use nucleotide::preview_tracker::{DocumentId, PreviewTracker};
use nucleotide::split_resize::ViewId;

#[test]
fn registered_previews_are_active_in_order() {
    let mut t = PreviewTracker::new();
    t.register(DocumentId(1), ViewId(10));
    t.register(DocumentId(2), ViewId(20));
    assert_eq!(t.get_active(), vec![(DocumentId(1), ViewId(10)), (DocumentId(2), ViewId(20))]);
}

#[test]
fn unregister_forgets_only_that_preview() {
    let mut t = PreviewTracker::default();
    t.register(DocumentId(1), ViewId(10));
    t.register(DocumentId(2), ViewId(20));
    t.register(DocumentId(1), ViewId(10));
    t.register(DocumentId(1), ViewId(30));
    t.unregister(DocumentId(1), ViewId(10));
    assert_eq!(t.get_active(), vec![(DocumentId(2), ViewId(20)), (DocumentId(1), ViewId(30))]);
    t.unregister(DocumentId(9), ViewId(9));
    assert_eq!(t.get_active().len(), 2);
}

#[test]
fn cleanup_hands_back_every_preview_and_forgets_them() {
    let mut t = PreviewTracker::new();
    t.register(DocumentId(3), ViewId(4));
    t.register(DocumentId(5), ViewId(6));
    let closed = t.cleanup_all();
    assert_eq!(closed, vec![(DocumentId(3), ViewId(4)), (DocumentId(5), ViewId(6))]);
    assert!(t.get_active().is_empty());
}
