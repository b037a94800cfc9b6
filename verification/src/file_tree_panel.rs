//! The file tree panel: the tree with a selected path, moving the selection
//! over the shown entries, and what opening or toggling an entry reports.
use vstd::prelude::*;
use crate::file_tree::{FileTreeEntry, FileTreeStats};
use crate::paths::{same_path, same_path_exec};
use crate::sequences::keep_where;
use crate::tree::{
    among_paths, children_hidden, first_with_id, id_of_path, insert_sorted, load_outcome,
    scan_can_fail, tree_stats, upsert_base, upserted, with_path, DiskEntry, FileTree,
    FileTreeConfig, FileTreeError, FileTreeView,
};

verus! {

/// What the panel reports.
#[derive(Debug, Clone, PartialEq)]
pub enum FileTreeEvent {
    /// The selection moved to a path, or went away.
    SelectionChanged { path: Option<String> },
    /// A directory was expanded or collapsed.
    DirectoryToggled { path: String, expanded: bool },
    /// A file is to be opened.
    OpenFile { path: String },
}

/// Whether two optional paths differ: one is missing, or they are not the
/// same path.
pub open spec fn paths_differ(a: Option<String>, b: Option<String>) -> bool {
    match (a, b) {
        (Some(x), Some(y)) => !same_path(x@, y@),
        (None, None) => false,
        _ => true,
    }
}

/// Where the first entry with the same path stands, or -1.
pub open spec fn position_of(s: Seq<FileTreeEntry>, p: Seq<char>) -> int
    decreases s.len(),
{
    if s.len() == 0 {
        -1
    } else if same_path(s[0].path@, p) {
        0
    } else {
        let r = position_of(s.drop_first(), p);
        if r >= 0 { r + 1 } else { -1 }
    }
}

/// The shown entries of a tree.
pub open spec fn shown_entries(t: FileTreeView) -> Seq<FileTreeEntry> {
    keep_where(t.entries, |e: FileTreeEntry| e.is_visible)
}

/// Where the selection stands among the shown entries; the first entry
/// when nothing is selected or the selection is not shown.
pub open spec fn current_index(shown: Seq<FileTreeEntry>, selected: Option<String>) -> int {
    match selected {
        Some(p) => if position_of(shown, p@) >= 0 { position_of(shown, p@) } else { 0 },
        None => 0,
    }
}

/// The file tree with its selection.
pub struct FileTreePanel {
    tree: FileTree,
    selected_path: Option<String>,
}

fn position_in(s: &Vec<FileTreeEntry>, p: &str) -> (r: Option<usize>)
    ensures
        match r {
            Some(i) => i == position_of(s@, p@) && i < s@.len(),
            None => position_of(s@, p@) == -1,
        },
{
    let mut i: usize = 0;
    assert(s@.skip(0) =~= s@);
    while i < s.len()
        invariant
            i <= s.len(),
            position_of(s@, p@) == if position_of(s@.skip(i as int), p@) >= 0 { position_of(s@.skip(i as int), p@) + i } else { -1 },
        decreases s.len() - i,
    {
        assert(s@.skip(i as int)[0] == s@[i as int]);
        if same_path_exec(s[i].path.as_str(), p) {
            return Some(i);
        }
        assert(s@.skip(i as int).drop_first() =~= s@.skip(i + 1));
        i = i + 1;
    }
    None
}

proof fn lemma_position_of_bound(s: Seq<FileTreeEntry>, p: Seq<char>)
    ensures
        -1 <= position_of(s, p) < s.len(),
    decreases s.len(),
{
    if s.len() > 0 {
        lemma_position_of_bound(s.drop_first(), p);
    }
}

impl FileTreePanel {
    /// The tree that the panel shows.
    pub closed spec fn tree_view(&self) -> FileTreeView {
        self.tree@
    }

    /// The selected path.
    pub closed spec fn selection(&self) -> Option<String> {
        self.selected_path
    }

    /// The tree is in path order.
    pub open spec fn well_formed(&self) -> bool {
        self.tree_view().well_formed()
    }

    /// A panel over the tree of `root_path`, read down to the configured
    /// depth through `read` (a failed read leaves the tree empty), with
    /// nothing selected.
    pub fn new<F: Fn(&str) -> Result<Vec<DiskEntry>, String>>(root_path: String, config: FileTreeConfig, read: &F) -> (r: FileTreePanel)
        requires
            forall|p: &str| read.requires((p,)),
            config.initial_depth < usize::MAX,
        ensures
            r.well_formed(),
            r.selection() is None,
            r.tree_view().root == root_path@,
            r.tree_view().config == config,
    {
        let mut tree = FileTree::new(root_path, config);
        let _ = tree.load(read);
        FileTreePanel { tree, selected_path: None }
    }

    /// The selected path.
    pub fn selected_path(&self) -> (r: Option<&String>)
        ensures
            match r {
                Some(p) => self.selection() == Some(*p),
                None => self.selection() is None,
            },
    {
        match &self.selected_path {
            Some(p) => Some(p),
            None => None,
        }
    }

    /// The tree.
    pub fn tree(&self) -> (r: &FileTree)
        ensures
            r@ == self.tree_view(),
    {
        &self.tree
    }

    /// Selects a path (or nothing), reporting the change when the selection
    /// is another path than before.
    pub fn select_path(&mut self, path: Option<String>) -> (r: Option<FileTreeEvent>)
        requires
            old(self).well_formed(),
        ensures
            final(self).well_formed(),
            final(self).tree_view() == old(self).tree_view(),
            paths_differ(old(self).selection(), path) ==> final(self).selection() == path
                && r == Some(FileTreeEvent::SelectionChanged { path }),
            !paths_differ(old(self).selection(), path) ==> final(self).selection() == old(self).selection()
                && r is None,
    {
        let differ = match (&self.selected_path, &path) {
            (Some(a), Some(b)) => !same_path_exec(a.as_str(), b.as_str()),
            (None, None) => false,
            _ => true,
        };
        if differ {
            let event_path = match &path {
                Some(p) => Some(p.clone()),
                None => None,
            };
            self.selected_path = path;
            Some(FileTreeEvent::SelectionChanged { path: event_path })
        } else {
            None
        }
    }

    fn shown(&self) -> (r: Vec<FileTreeEntry>)
        ensures
            r@ == shown_entries(self.tree_view()),
    {
        self.tree.visible_entries()
    }

    fn current(&self, shown: &Vec<FileTreeEntry>) -> (r: usize)
        ensures
            r == current_index(shown@, self.selection()),
    {
        match &self.selected_path {
            Some(p) => match position_in(shown, p.as_str()) {
                Some(i) => i,
                None => 0,
            },
            None => 0,
        }
    }

    /// Selects the shown entry after the selected one (staying on the last).
    pub fn select_next(&mut self) -> (r: Option<FileTreeEvent>)
        requires
            old(self).well_formed(),
        ensures
            final(self).well_formed(),
            final(self).tree_view() == old(self).tree_view(),
            ({
                let s = shown_entries(old(self).tree_view());
                let cur = current_index(s, old(self).selection());
                let next = if cur + 1 < s.len() { cur + 1 } else { s.len() - 1 };
                if s.len() == 0 {
                    r is None && final(self).selection() == old(self).selection()
                } else if paths_differ(old(self).selection(), Some(s[next].path)) {
                    final(self).selection() == Some(s[next].path) && r == Some(FileTreeEvent::SelectionChanged { path: Some(s[next].path) })
                } else {
                    r is None && final(self).selection() == old(self).selection()
                }
            }),
    {
        let shown = self.shown();
        if shown.len() == 0 {
            return None;
        }
        let cur = self.current(&shown);
        proof {
            lemma_position_of_bound(shown@, self.selection()->Some_0@);
        }
        let next = if cur + 1 < shown.len() {
            cur + 1
        } else {
            shown.len() - 1
        };
        let p = shown[next].path.clone();
        self.select_path(Some(p))
    }

    /// Selects the shown entry before the selected one (staying on the first).
    pub fn select_previous(&mut self) -> (r: Option<FileTreeEvent>)
        requires
            old(self).well_formed(),
        ensures
            final(self).well_formed(),
            final(self).tree_view() == old(self).tree_view(),
            ({
                let s = shown_entries(old(self).tree_view());
                let cur = current_index(s, old(self).selection());
                let prev = if cur >= 1 { cur - 1 } else { 0 };
                if s.len() == 0 {
                    r is None && final(self).selection() == old(self).selection()
                } else if paths_differ(old(self).selection(), Some(s[prev].path)) {
                    final(self).selection() == Some(s[prev].path) && r == Some(FileTreeEvent::SelectionChanged { path: Some(s[prev].path) })
                } else {
                    r is None && final(self).selection() == old(self).selection()
                }
            }),
    {
        let shown = self.shown();
        if shown.len() == 0 {
            return None;
        }
        let cur = self.current(&shown);
        proof {
            lemma_position_of_bound(shown@, self.selection()->Some_0@);
        }
        let prev = if cur >= 1 {
            cur - 1
        } else {
            0
        };
        let p = shown[prev].path.clone();
        self.select_path(Some(p))
    }

    /// Selects the first shown entry.
    pub fn select_first(&mut self) -> (r: Option<FileTreeEvent>)
        requires
            old(self).well_formed(),
        ensures
            final(self).well_formed(),
            final(self).tree_view() == old(self).tree_view(),
            ({
                let s = shown_entries(old(self).tree_view());
                if s.len() == 0 {
                    r is None && final(self).selection() == old(self).selection()
                } else if paths_differ(old(self).selection(), Some(s[0].path)) {
                    final(self).selection() == Some(s[0].path) && r == Some(FileTreeEvent::SelectionChanged { path: Some(s[0].path) })
                } else {
                    r is None && final(self).selection() == old(self).selection()
                }
            }),
    {
        let shown = self.shown();
        if shown.len() == 0 {
            return None;
        }
        let p = shown[0].path.clone();
        self.select_path(Some(p))
    }

    /// Selects the last shown entry.
    pub fn select_last(&mut self) -> (r: Option<FileTreeEvent>)
        requires
            old(self).well_formed(),
        ensures
            final(self).well_formed(),
            final(self).tree_view() == old(self).tree_view(),
            ({
                let s = shown_entries(old(self).tree_view());
                if s.len() == 0 {
                    r is None && final(self).selection() == old(self).selection()
                } else if paths_differ(old(self).selection(), Some(s.last().path)) {
                    final(self).selection() == Some(s.last().path) && r == Some(FileTreeEvent::SelectionChanged { path: Some(s.last().path) })
                } else {
                    r is None && final(self).selection() == old(self).selection()
                }
            }),
    {
        let shown = self.shown();
        if shown.len() == 0 {
            return None;
        }
        let p = shown[shown.len() - 1].path.clone();
        self.select_path(Some(p))
    }

    /// Expands or collapses a directory, reporting which it now is; a path
    /// that is not a directory of the tree, or a failed read, reports nothing.
    /// Collapsing always succeeds; expanding reports nothing only when the
    /// read of the directory can fail.
    pub fn toggle_directory<F: Fn(&str) -> Result<Vec<DiskEntry>, String>>(&mut self, path: &str, read: &F) -> (r: Option<FileTreeEvent>)
        requires
            old(self).well_formed(),
            forall|p: &str| read.requires((p,)),
            forall|k: int| 0 <= k < old(self).tree_view().entries.len() ==> (#[trigger] old(self).tree_view().entries[k]).depth < usize::MAX - 2,
        ensures
            final(self).well_formed(),
            final(self).selection() == old(self).selection(),
            match r {
                Some(FileTreeEvent::DirectoryToggled { path: p, expanded }) => p@ == path@
                    && expanded == among_paths(final(self).tree_view().expanded, path@)
                    && expanded == !among_paths(old(self).tree_view().expanded, path@),
                Some(_) => false,
                None => true,
            },
            ({
                let o = old(self).tree_view();
                let found = match id_of_path(o.index, path@) {
                    Some(id) => first_with_id(o.entries, id),
                    None => None,
                };
                match found {
                    None => r is None && final(self).tree_view() == o,
                    Some(entry) => if !(entry.kind is Directory) {
                        r is None && final(self).tree_view() == o
                    } else if among_paths(o.expanded, path@) {
                        let collapsed = FileTreeEntry { is_expanded: false, ..entry };
                        &&& r is Some
                        &&& !among_paths(final(self).tree_view().expanded, path@)
                        &&& final(self).tree_view().entries == children_hidden(
                            insert_sorted(upsert_base(o, collapsed), collapsed),
                            path@,
                        )
                        &&& final(self).tree_view().index == with_path(o.index, entry.path@, entry.id)
                    } else {
                        let opened = FileTreeEntry { is_expanded: true, ..entry };
                        let mid = upserted(FileTreeView { expanded: o.expanded.push(path@), ..o }, opened);
                        &&& mid.entries.contains(opened)
                        &&& (r is Some ==> load_outcome(read, path, mid, final(self).tree_view(), Ok::<(), FileTreeError>(())))
                        &&& (r is None ==> scan_can_fail(read, path, final(self).tree_view().next_id)
                            && final(self).tree_view().entries == mid.entries)
                    },
                }
            }),
    {
        match self.tree.toggle_directory(path, read) {
            Ok(expanded) => Some(FileTreeEvent::DirectoryToggled { path: crate::text::owned(path), expanded }),
            Err(e) => {
                proof {
                    if let FileTreeError::Read(m) = e {
                        assert(read.ensures((path,), Err::<Vec<DiskEntry>, String>(m)));
                    }
                }
                None
            },
        }
    }

    /// Opens the selected entry: a file is reported for opening, a
    /// directory is toggled; nothing happens without a selection that has
    /// an entry.
    pub fn open_selected<F: Fn(&str) -> Result<Vec<DiskEntry>, String>>(&mut self, read: &F) -> (r: Option<FileTreeEvent>)
        requires
            old(self).well_formed(),
            forall|p: &str| read.requires((p,)),
            forall|k: int| 0 <= k < old(self).tree_view().entries.len() ==> (#[trigger] old(self).tree_view().entries[k]).depth < usize::MAX - 2,
        ensures
            final(self).well_formed(),
            final(self).selection() == old(self).selection(),
            match old(self).selection() {
                Some(p) => {
                    let found = match id_of_path(old(self).tree_view().index, p@) {
                        Some(id) => first_with_id(old(self).tree_view().entries, id),
                        None => None,
                    };
                    match found {
                        Some(e) => if e.kind is File {
                            r == Some(FileTreeEvent::OpenFile { path: p }) && final(self).tree_view() == old(self).tree_view()
                        } else if e.kind is Directory {
                            r is None || r matches Some(FileTreeEvent::DirectoryToggled { .. })
                        } else {
                            r is None && final(self).tree_view() == old(self).tree_view()
                        },
                        None => r is None && final(self).tree_view() == old(self).tree_view(),
                    }
                },
                None => r is None && final(self).tree_view() == old(self).tree_view(),
            },
    {
        let path = match &self.selected_path {
            Some(p) => p.clone(),
            None => {
                return None;
            },
        };
        match self.tree.entry_by_path(path.as_str()) {
            Some(entry) => {
                if entry.is_file() {
                    Some(FileTreeEvent::OpenFile { path })
                } else if entry.is_directory() {
                    self.toggle_directory(path.as_str(), read)
                } else {
                    None
                }
            },
            None => None,
        }
    }

    /// Reads the tree again; whether that worked.
    pub fn refresh<F: Fn(&str) -> Result<Vec<DiskEntry>, String>>(&mut self, read: &F) -> (r: bool)
        requires
            old(self).well_formed(),
            forall|p: &str| read.requires((p,)),
            old(self).tree_view().config.initial_depth < usize::MAX,
        ensures
            final(self).well_formed(),
            final(self).selection() == old(self).selection(),
            r == final(self).tree_view().is_loaded,
    {
        self.tree.refresh(read).is_ok()
    }

    /// The tree's statistics.
    pub fn stats(&self) -> (r: FileTreeStats)
        requires
            tree_stats(self.tree_view().entries).4 <= u64::MAX,
        ensures
            ({
                let (c, v, f, d, size, depth) = tree_stats(self.tree_view().entries);
                r == FileTreeStats {
                    total_entries: c as usize,
                    visible_entries: v as usize,
                    file_count: f as usize,
                    directory_count: d as usize,
                    total_size: size as u64,
                    max_depth: depth as usize,
                }
            }),
    {
        self.tree.stats()
    }
}

} // verus!
