//! The preview documents that pickers open, remembered so that every one
//! of them can be closed when the picker goes away.
use vstd::prelude::*;
use crate::sequences::{keep_where, lemma_keep_where, lemma_keep_where_keeps};
use crate::split_resize::ViewId;

verus! {

/// Identifies an open document.
#[derive(Clone, Copy, Debug, PartialEq, Eq, Structural)]
pub struct DocumentId(pub u64);

/// The preview documents that are open, each with the view that shows it,
/// in the order they were opened.
#[derive(Debug, Clone)]
pub struct PreviewTracker {
    active_previews: Vec<(DocumentId, ViewId)>,
}

impl View for PreviewTracker {
    type V = Seq<(DocumentId, ViewId)>;

    closed spec fn view(&self) -> Seq<(DocumentId, ViewId)> {
        self.active_previews@
    }
}

/// Whether a remembered preview is another one than `doc` shown in `view`.
pub open spec fn other_than(doc: DocumentId, view: ViewId) -> spec_fn((DocumentId, ViewId)) -> bool {
    |p: (DocumentId, ViewId)| p.0 != doc || p.1 != view
}

impl Default for PreviewTracker {
    /// A tracker that remembers nothing.
    fn default() -> (r: PreviewTracker)
        ensures
            r@ == Seq::<(DocumentId, ViewId)>::empty(),
    {
        PreviewTracker::new()
    }
}

impl PreviewTracker {
    /// A tracker that remembers nothing.
    pub fn new() -> (r: PreviewTracker)
        ensures
            r@ == Seq::<(DocumentId, ViewId)>::empty(),
    {
        PreviewTracker { active_previews: Vec::new() }
    }

    /// Remembers the preview of `doc` in `view`, after the others.
    pub fn register(&mut self, doc: DocumentId, view: ViewId)
        ensures
            final(self)@ == old(self)@.push((doc, view)),
    {
        self.active_previews.push((doc, view));
    }

    /// Forgets every record of the preview of `doc` in `view`, keeping the
    /// others in order.
    pub fn unregister(&mut self, doc: DocumentId, view: ViewId)
        ensures
            final(self)@ == keep_where(old(self)@, other_than(doc, view)),
    {
        let ghost orig = self.active_previews@;
        let mut rest: Vec<(DocumentId, ViewId)> = Vec::new();
        std::mem::swap(&mut rest, &mut self.active_previews);
        let mut out: Vec<(DocumentId, ViewId)> = Vec::new();
        while rest.len() > 0
            invariant
                out@ + keep_where(rest@, other_than(doc, view)) == keep_where(orig, other_than(doc, view)),
            decreases rest.len(),
        {
            let ghost before = rest@;
            let p = rest.remove(0);
            assert(rest@ =~= before.drop_first());
            if p.0.0 != doc.0 || p.1.0 != view.0 {
                assert(out@.push(p) + keep_where(rest@, other_than(doc, view)) =~= out@ + (seq![p]
                    + keep_where(rest@, other_than(doc, view))));
                out.push(p);
            }
        }
        assert(out@ + keep_where(rest@, other_than(doc, view)) =~= out@);
        self.active_previews = out;
    }

    /// The remembered previews, in order.
    pub fn get_active(&self) -> (r: Vec<(DocumentId, ViewId)>)
        ensures
            r@ == self@,
    {
        let mut out: Vec<(DocumentId, ViewId)> = Vec::new();
        let mut i: usize = 0;
        while i < self.active_previews.len()
            invariant
                i <= self.active_previews@.len(),
                out@ == self.active_previews@.subrange(0, i as int),
            decreases self.active_previews@.len() - i,
        {
            let p = self.active_previews[i];
            out.push(p);
            proof {
                assert(out@ =~= self.active_previews@.subrange(0, i + 1));
            }
            i = i + 1;
        }
        assert(out@ =~= self.active_previews@);
        out
    }

    /// Forgets every preview and hands them back in order, for the caller
    /// to close each view and then its document.
    pub fn cleanup_all(&mut self) -> (r: Vec<(DocumentId, ViewId)>)
        ensures
            r@ == old(self)@,
            final(self)@ == Seq::<(DocumentId, ViewId)>::empty(),
    {
        let mut drained: Vec<(DocumentId, ViewId)> = Vec::new();
        std::mem::swap(&mut drained, &mut self.active_previews);
        drained
    }
}

/// After a preview is unregistered no record of it is left, and every
/// record of another preview stays.
pub proof fn lemma_unregister_forgets(previews: Seq<(DocumentId, ViewId)>, doc: DocumentId, view: ViewId)
    ensures
        !keep_where(previews, other_than(doc, view)).contains((doc, view)),
        forall|k: int|
            0 <= k < previews.len() && previews[k] != (doc, view) ==> keep_where(
                previews,
                other_than(doc, view),
            ).contains(#[trigger] previews[k]),
{
    let kept = keep_where(previews, other_than(doc, view));
    lemma_keep_where(previews, other_than(doc, view), |p: (DocumentId, ViewId)| p);
    if kept.contains((doc, view)) {
        let k = choose|k: int| 0 <= k < kept.len() && kept[k] == (doc, view);
        assert(other_than(doc, view)(kept[k]));
    }
    assert forall|k: int| 0 <= k < previews.len() && previews[k] != (doc, view) implies kept.contains(
        #[trigger] previews[k],
    ) by {
        lemma_keep_where_keeps(previews, other_than(doc, view), k);
    }
}

} // verus!
