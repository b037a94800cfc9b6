//! The document views of the workspace: each view by its id, which one has
//! the focus, and whether the focus is to be given back after an operation.
use vstd::prelude::*;
use crate::split_resize::ViewId;

verus! {

/// Whether no id occurs twice.
pub open spec fn view_ids_unique<V>(s: Seq<(ViewId, V)>) -> bool {
    forall|i: int, j: int| 0 <= i < j < s.len() ==> s[i].0 != s[j].0
}

/// Where the view with an id stands, or -1.
pub open spec fn view_slot<V>(s: Seq<(ViewId, V)>, id: ViewId) -> int {
    if exists|i: int| 0 <= i < s.len() && s[i].0 == id {
        choose|i: int| 0 <= i < s.len() && s[i].0 == id
    } else {
        -1
    }
}

/// The view with an id, if any.
pub open spec fn view_of<V>(s: Seq<(ViewId, V)>, id: ViewId) -> Option<V> {
    let i = view_slot(s, id);
    if i >= 0 { Some(s[i].1) } else { None }
}

/// The views with `v` under `id`: in place of the view with that id, or last.
pub open spec fn with_view<V>(s: Seq<(ViewId, V)>, id: ViewId, v: V) -> Seq<(ViewId, V)> {
    let i = view_slot(s, id);
    if i >= 0 { s.update(i, (id, v)) } else { s.push((id, v)) }
}

/// The views without the one with `id`.
pub open spec fn without_view<V>(s: Seq<(ViewId, V)>, id: ViewId) -> Seq<(ViewId, V)> {
    let i = view_slot(s, id);
    if i >= 0 { s.remove(i) } else { s }
}

/// The document views with the focus state.
pub struct ViewManager<V> {
    documents: Vec<(ViewId, V)>,
    focused_view_id: Option<ViewId>,
    needs_focus_restore: bool,
}

/// The view of the view manager.
pub struct ViewManagerView<V> {
    pub views: Seq<(ViewId, V)>,
    pub focused: Option<ViewId>,
    pub needs_focus_restore: bool,
}

impl<V> View for ViewManager<V> {
    type V = ViewManagerView<V>;

    closed spec fn view(&self) -> ViewManagerView<V> {
        ViewManagerView {
            views: self.documents@,
            focused: self.focused_view_id,
            needs_focus_restore: self.needs_focus_restore,
        }
    }
}

proof fn lemma_view_slot_is<V>(s: Seq<(ViewId, V)>, id: ViewId, i: int)
    requires
        view_ids_unique(s),
        0 <= i < s.len(),
        s[i].0 == id,
    ensures
        view_slot(s, id) == i,
{
    let j = choose|j: int| 0 <= j < s.len() && s[j].0 == id;
    assert(0 <= j < s.len() && s[j].0 == id);
    if j < i {
        assert(s[j].0 != s[i].0);
    } else if j > i {
        assert(s[i].0 != s[j].0);
    }
}

fn find_view<V>(s: &Vec<(ViewId, V)>, id: ViewId) -> (r: Option<usize>)
    requires
        view_ids_unique(s@),
    ensures
        match r {
            Some(i) => i == view_slot(s@, id) && i < s@.len(),
            None => view_slot(s@, id) == -1,
        },
{
    let mut i: usize = 0;
    while i < s.len()
        invariant
            i <= s.len(),
            view_ids_unique(s@),
            forall|k: int| 0 <= k < i ==> s@[k].0 != id,
        decreases s.len() - i,
    {
        if s[i].0.0 == id.0 {
            proof {
                lemma_view_slot_is(s@, id, i as int);
            }
            return Some(i);
        }
        i = i + 1;
    }
    None
}

impl<V> ViewManager<V> {
    /// No views, no focus, nothing to give back.
    pub fn new() -> (r: ViewManager<V>)
        ensures
            r@.views == Seq::<(ViewId, V)>::empty(),
            r@.focused is None,
            !r@.needs_focus_restore,
    {
        ViewManager { documents: Vec::new(), focused_view_id: None, needs_focus_restore: false }
    }

    /// No view id twice.
    pub open spec fn well_formed(&self) -> bool {
        view_ids_unique(self@.views)
    }

    /// The focused view's id.
    pub fn focused_view_id(&self) -> (r: Option<ViewId>)
        ensures
            r == self@.focused,
    {
        self.focused_view_id
    }

    /// The view with an id, if any.
    pub fn get_document_view(&self, view_id: &ViewId) -> (r: Option<&V>)
        requires
            self.well_formed(),
        ensures
            match r {
                Some(v) => view_of(self@.views, *view_id) == Some(*v),
                None => view_of(self@.views, *view_id) is None,
            },
    {
        match find_view(&self.documents, *view_id) {
            Some(i) => Some(&self.documents[i].1),
            None => None,
        }
    }

    /// Every view with its id.
    pub fn document_views(&self) -> (r: &Vec<(ViewId, V)>)
        ensures
            r@ == self@.views,
    {
        &self.documents
    }

    /// Sets the focused view's id.
    pub fn set_focused_view_id(&mut self, view_id: Option<ViewId>)
        ensures
            final(self)@ == (ViewManagerView { focused: view_id, ..old(self)@ }),
    {
        self.focused_view_id = view_id;
    }

    /// Whether the focus is to be given back.
    pub fn needs_focus_restore(&self) -> (r: bool)
        ensures
            r == self@.needs_focus_restore,
    {
        self.needs_focus_restore
    }

    /// Sets whether the focus is to be given back.
    pub fn set_needs_focus_restore(&mut self, needs_restore: bool)
        ensures
            final(self)@ == (ViewManagerView { needs_focus_restore: needs_restore, ..old(self)@ }),
    {
        self.needs_focus_restore = needs_restore;
    }

    /// Adds a view under an id, in place of the view that had it.
    pub fn insert_document_view(&mut self, view_id: ViewId, view: V)
        requires
            old(self).well_formed(),
        ensures
            final(self).well_formed(),
            final(self)@ == (ViewManagerView { views: with_view(old(self)@.views, view_id, view), ..old(self)@ }),
    {
        let ghost ov = self.documents@;
        match find_view(&self.documents, view_id) {
            Some(i) => {
                self.documents.set(i, (view_id, view));
                assert forall|a: int, b: int| 0 <= a < b < self.documents@.len() implies self.documents@[a].0 != self.documents@[b].0 by {
                    assert(self.documents@[a].0 == ov[a].0 && self.documents@[b].0 == ov[b].0);
                }
            },
            None => {
                self.documents.push((view_id, view));
                assert forall|a: int, b: int| 0 <= a < b < self.documents@.len() implies self.documents@[a].0 != self.documents@[b].0 by {
                    if b < ov.len() {
                        assert(self.documents@[a] == ov[a] && self.documents@[b] == ov[b]);
                    } else {
                        assert(self.documents@[a] == ov[a]);
                    }
                }
            },
        }
    }

    /// Removes the view with an id, giving it back.
    pub fn remove_document_view(&mut self, view_id: &ViewId) -> (r: Option<V>)
        requires
            old(self).well_formed(),
        ensures
            final(self).well_formed(),
            final(self)@ == (ViewManagerView { views: without_view(old(self)@.views, *view_id), ..old(self)@ }),
            r == view_of(old(self)@.views, *view_id),
    {
        let ghost ov = self.documents@;
        match find_view(&self.documents, *view_id) {
            Some(i) => {
                let (_, v) = self.documents.remove(i);
                assert forall|a: int, b: int| 0 <= a < b < self.documents@.len() implies self.documents@[a].0 != self.documents@[b].0 by {
                    if a < i {
                        if b < i {
                            assert(self.documents@[b] == ov[b]);
                        } else {
                            assert(self.documents@[b] == ov[b + 1]);
                        }
                        assert(self.documents@[a] == ov[a]);
                    } else {
                        assert(self.documents@[a] == ov[a + 1] && self.documents@[b] == ov[b + 1]);
                    }
                }
                Some(v)
            },
            None => None,
        }
    }

    /// Records that a view got the focus, giving for each view (in order)
    /// whether it is now the focused one.
    pub fn handle_view_focused(&mut self, view_id: ViewId) -> (r: Vec<(ViewId, bool)>)
        requires
            old(self).well_formed(),
        ensures
            final(self).well_formed(),
            final(self)@ == (ViewManagerView { focused: Some(view_id), ..old(self)@ }),
            r@.len() == old(self)@.views.len(),
            forall|i: int| 0 <= i < r@.len() ==> (#[trigger] r@[i]) == (old(self)@.views[i].0, old(self)@.views[i].0 == view_id),
    {
        self.focused_view_id = Some(view_id);
        let mut out: Vec<(ViewId, bool)> = Vec::new();
        let mut i: usize = 0;
        while i < self.documents.len()
            invariant
                i <= self.documents@.len(),
                out@.len() == i,
                forall|k: int| 0 <= k < i ==> (#[trigger] out@[k]) == (self.documents@[k].0, self.documents@[k].0 == view_id),
            decreases self.documents.len() - i,
        {
            let id = self.documents[i].0;
            out.push((id, id.0 == view_id.0));
            i = i + 1;
        }
        out
    }

    /// The view to give the editor's focus to: the focused one when it has a
    /// view, else the first view, which then becomes the focused one;
    /// nothing without views.
    pub fn focus_editor_area(&mut self) -> (r: Option<ViewId>)
        requires
            old(self).well_formed(),
        ensures
            final(self).well_formed(),
            match old(self)@.focused {
                Some(id) if view_of(old(self)@.views, id) is Some => r == Some(id) && final(self)@ == old(self)@,
                _ => if old(self)@.views.len() > 0 {
                    r == Some(old(self)@.views[0].0) && final(self)@ == (ViewManagerView {
                        focused: Some(old(self)@.views[0].0),
                        ..old(self)@
                    })
                } else {
                    r is None && final(self)@ == old(self)@
                },
            },
    {
        match self.focused_view_id {
            Some(id) => {
                match find_view(&self.documents, id) {
                    Some(_) => {
                        return Some(id);
                    },
                    None => {},
                }
            },
            None => {},
        }
        if self.documents.len() > 0 {
            let id = self.documents[0].0;
            self.focused_view_id = Some(id);
            Some(id)
        } else {
            None
        }
    }

    /// The focused view, if the focused id has one.
    pub fn get_focused_document_view(&self) -> (r: Option<&V>)
        requires
            self.well_formed(),
        ensures
            match self@.focused {
                Some(id) => match r {
                    Some(v) => view_of(self@.views, id) == Some(*v),
                    None => view_of(self@.views, id) is None,
                },
                None => r is None,
            },
    {
        match self.focused_view_id {
            Some(id) => self.get_document_view(&id),
            None => None,
        }
    }

    /// Forgets every view, the focus, and the need to give it back.
    pub fn clear_views(&mut self)
        ensures
            final(self)@.views == Seq::<(ViewId, V)>::empty(),
            final(self)@.focused is None,
            !final(self)@.needs_focus_restore,
    {
        self.documents = Vec::new();
        self.focused_view_id = None;
        self.needs_focus_restore = false;
    }

    /// How many views there are.
    pub fn view_count(&self) -> (r: usize)
        ensures
            r == self@.views.len(),
    {
        self.documents.len()
    }

    /// Whether a view has the id.
    pub fn has_view(&self, view_id: &ViewId) -> (r: bool)
        requires
            self.well_formed(),
        ensures
            r == (view_of(self@.views, *view_id) is Some),
    {
        find_view(&self.documents, *view_id).is_some()
    }
}

impl<V> Default for ViewManager<V> {
    /// No views, no focus, nothing to give back.
    fn default() -> (r: ViewManager<V>)
        ensures
            r@.views == Seq::<(ViewId, V)>::empty(),
            r@.focused is None,
            !r@.needs_focus_restore,
    {
        ViewManager::new()
    }
}

/// Reading a view back by its id after it was inserted gives it, and after
/// it was removed gives nothing.
pub proof fn lemma_view_read_after_write<V>(s: Seq<(ViewId, V)>, id: ViewId, v: V)
    requires
        view_ids_unique(s),
    ensures
        view_ids_unique(with_view(s, id, v)),
        view_of(with_view(s, id, v), id) == Some(v),
        view_of(without_view(s, id), id) is None,
{
    let n = with_view(s, id, v);
    let i = view_slot(s, id);
    if i >= 0 {
        let w = choose|w: int| 0 <= w < s.len() && s[w].0 == id;
        assert(s[i].0 == id);
        assert forall|a: int, b: int| 0 <= a < b < n.len() implies n[a].0 != n[b].0 by {
            assert(n[a].0 == s[a].0 && n[b].0 == s[b].0);
        }
        lemma_view_slot_is(n, id, i);
        let m = without_view(s, id);
        if exists|k: int| 0 <= k < m.len() && m[k].0 == id {
            let k = choose|k: int| 0 <= k < m.len() && m[k].0 == id;
            if k < i {
                assert(m[k] == s[k]);
                assert(s[k].0 != s[i].0);
            } else {
                assert(m[k] == s[k + 1]);
                assert(s[i].0 != s[k + 1].0);
            }
        }
    } else {
        assert forall|a: int, b: int| 0 <= a < b < n.len() implies n[a].0 != n[b].0 by {
            if b < s.len() {
                assert(n[a] == s[a] && n[b] == s[b]);
            } else {
                assert(n[a] == s[a]);
            }
        }
        lemma_view_slot_is(n, id, s.len() as int);
    }
}

/// How a file that the user opens is shown.
#[derive(Debug, Clone, Copy, PartialEq, Eq)]
pub enum ShowFile {
    /// In a new view split off vertically: there is no view to show it in.
    VerticalSplit,
    /// In place of what the current view shows.
    Replace,
}

/// How a file is shown when the editor has `view_count` views.
pub fn show_file_in(view_count: usize) -> (r: ShowFile)
    ensures
        r == (if view_count == 0 { ShowFile::VerticalSplit } else { ShowFile::Replace }),
{
    if view_count == 0 {
        ShowFile::VerticalSplit
    } else {
        ShowFile::Replace
    }
}

} // verus!
