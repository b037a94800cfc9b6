//! The flat file list of the simple file-tree panel: a list of entries in
//! display order with a selection, where expanding a directory inserts its
//! children right after it and collapsing removes all its descendants.
use vstd::prelude::*;
use vstd::multiset::Multiset;
use crate::sequences::keep_where;
use crate::text::chars_of;

verus! {

broadcast use vstd::seq_lib::group_to_multiset_ensures;

/// One row of the file list.
#[derive(Debug, Clone, PartialEq)]
pub struct SimpleFileEntry {
    pub path: String,
    pub name: String,
    pub is_dir: bool,
    pub is_expanded: bool,
    pub depth: usize,
}

/// What opening the selected row asks for.
#[derive(Debug, Clone, PartialEq)]
pub enum OpenAction {
    /// Nothing is selected.
    Nothing,
    /// The selected row is a directory: toggle it.
    ToggleDirectory { path: String },
    /// The selected row is a file: open it.
    OpenFile { path: String },
}


/// A directory entry as read from the disk: its path, its file name and
/// whether it is a directory.
#[derive(Debug, Clone, PartialEq)]
pub struct ListedEntry {
    pub path: String,
    pub name: String,
    pub is_dir: bool,
}

/// Whether text `a` comes before or equals text `b`, character by
/// character (the order of their UTF-8 bytes).
pub open spec fn chars_le(a: Seq<char>, b: Seq<char>) -> bool
    decreases a.len(),
{
    if a.len() == 0 {
        true
    } else if b.len() == 0 {
        false
    } else if (a[0] as u32) < (b[0] as u32) {
        true
    } else if (a[0] as u32) > (b[0] as u32) {
        false
    } else {
        chars_le(a.drop_first(), b.drop_first())
    }
}

/// Whether a row may come before another in a listing: directories before
/// files, and by name within each.
pub open spec fn listed_before(a: SimpleFileEntry, b: SimpleFileEntry) -> bool {
    (a.is_dir && !b.is_dir) || (a.is_dir == b.is_dir && chars_le(a.name@, b.name@))
}

/// Whether every row may come before every later one.
pub open spec fn listing_sorted(s: Seq<SimpleFileEntry>) -> bool {
    forall|i: int, j: int| 0 <= i < j < s.len() ==> listed_before(s[i], s[j])
}

/// Whether a listed entry is shown: its name does not start with a dot.
pub open spec fn shown_entry() -> spec_fn(ListedEntry) -> bool {
    |e: ListedEntry| !(e.name@.len() > 0 && e.name@[0] == '.')
}

/// The collapsed row of a listed entry at a depth.
pub open spec fn row_of(e: ListedEntry, depth: usize) -> SimpleFileEntry {
    SimpleFileEntry { path: e.path, name: e.name, is_dir: e.is_dir, is_expanded: false, depth }
}

/// The rows of the shown entries of a listing at a depth.
pub open spec fn shown_rows(items: Seq<ListedEntry>, depth: usize) -> Seq<SimpleFileEntry> {
    keep_where(items, shown_entry()).map_values(|e: ListedEntry| row_of(e, depth))
}

/// Any two texts are ordered one way or the other.
pub proof fn lemma_chars_le_total(a: Seq<char>, b: Seq<char>)
    ensures
        chars_le(a, b) || chars_le(b, a),
    decreases a.len(),
{
    if a.len() > 0 && b.len() > 0 && a[0] as u32 == b[0] as u32 {
        lemma_chars_le_total(a.drop_first(), b.drop_first());
    }
}

/// The order of texts is transitive.
pub proof fn lemma_chars_le_transitive(a: Seq<char>, b: Seq<char>, c: Seq<char>)
    requires
        chars_le(a, b),
        chars_le(b, c),
    ensures
        chars_le(a, c),
    decreases a.len(),
{
    if a.len() > 0 && b.len() > 0 && c.len() > 0 && a[0] as u32 == b[0] as u32 && b[0] as u32 == c[0] as u32 {
        lemma_chars_le_transitive(a.drop_first(), b.drop_first(), c.drop_first());
    }
}

proof fn lemma_listed_before_total(a: SimpleFileEntry, b: SimpleFileEntry)
    ensures
        listed_before(a, b) || listed_before(b, a),
{
    lemma_chars_le_total(a.name@, b.name@);
}

proof fn lemma_listed_before_transitive(a: SimpleFileEntry, b: SimpleFileEntry, c: SimpleFileEntry)
    requires
        listed_before(a, b),
        listed_before(b, c),
    ensures
        listed_before(a, c),
{
    if a.is_dir == b.is_dir && b.is_dir == c.is_dir {
        lemma_chars_le_transitive(a.name@, b.name@, c.name@);
    }
}

fn name_le(a: &str, b: &str) -> (r: bool)
    ensures
        r == chars_le(a@, b@),
{
    let x = chars_of(a);
    let y = chars_of(b);
    let mut i: usize = 0;
    assert(x@.skip(0) =~= x@);
    assert(y@.skip(0) =~= y@);
    while i < x.len() && i < y.len()
        invariant
            i <= x.len(),
            i <= y.len(),
            chars_le(a@, b@) == chars_le(x@.skip(i as int), y@.skip(i as int)),
            x@ == a@,
            y@ == b@,
        decreases x.len() - i,
    {
        let p = x[i] as u32;
        let q = y[i] as u32;
        assert(x@.skip(i as int)[0] == x@[i as int]);
        assert(y@.skip(i as int)[0] == y@[i as int]);
        if p < q {
            return true;
        }
        if p > q {
            return false;
        }
        assert(x@.skip(i as int).drop_first() =~= x@.skip(i + 1));
        assert(y@.skip(i as int).drop_first() =~= y@.skip(i + 1));
        i = i + 1;
    }
    i == x.len()
}

fn row_before(a: &SimpleFileEntry, b: &SimpleFileEntry) -> (r: bool)
    ensures
        r == listed_before(*a, *b),
{
    (a.is_dir && !b.is_dir) || (a.is_dir == b.is_dir && name_le(a.name.as_str(), b.name.as_str()))
}

/// The rows of a directory listing at `depth`: nothing past `max_depth`;
/// otherwise the entries whose names do not start with a dot, collapsed,
/// directories first and each kind by name.
pub fn listing_entries(items: Vec<ListedEntry>, depth: usize, max_depth: usize) -> (r: Vec<SimpleFileEntry>)
    ensures
        depth > max_depth ==> r@.len() == 0,
        depth <= max_depth ==> listing_sorted(r@) && r@.to_multiset() == shown_rows(items@, depth).to_multiset(),
{
    let mut out: Vec<SimpleFileEntry> = Vec::new();
    if depth > max_depth {
        return out;
    }
    let ghost all = items@;
    let mut rest = items;
    assert(out@.to_multiset() =~= Multiset::<SimpleFileEntry>::empty());
    while rest.len() > 0
        invariant
            listing_sorted(out@),
            out@.to_multiset().add(shown_rows(rest@, depth).to_multiset()) == shown_rows(all, depth).to_multiset(),
        decreases rest.len(),
    {
        let ghost before = rest@;
        let e = rest.remove(0);
        assert(rest@ =~= before.drop_first());
        assert(before[0] == e);
        let name_chars = chars_of(e.name.as_str());
        let hidden = name_chars.len() > 0 && name_chars[0] == '.';
        let ghost tail_rows = shown_rows(rest@, depth);
        if hidden {
            assert(!shown_entry()(e));
            assert(shown_rows(before, depth) =~= tail_rows);
        } else {
            let row = SimpleFileEntry { path: e.path, name: e.name, is_dir: e.is_dir, is_expanded: false, depth };
            assert(row == row_of(e, depth));
            assert(shown_rows(before, depth) =~= seq![row] + tail_rows);
            assert((seq![row] + tail_rows).to_multiset() =~= tail_rows.to_multiset().insert(row)) by {
                vstd::seq_lib::lemma_multiset_commutative(seq![row], tail_rows);
                assert(seq![row].to_multiset() =~= Multiset::<SimpleFileEntry>::empty().insert(row)) by {
                    assert(seq![row] =~= Seq::<SimpleFileEntry>::empty().push(row));
                }
            }
            let mut pos: usize = 0;
            while pos < out.len() && row_before(&out[pos], &row)
                invariant
                    pos <= out.len(),
                    forall|k: int| 0 <= k < pos ==> listed_before(out@[k], row),
                decreases out.len() - pos,
            {
                pos = pos + 1;
            }
            let ghost old_out = out@;
            proof {
                if pos < old_out.len() {
                    lemma_listed_before_total(old_out[pos as int], row);
                    assert forall|j: int| pos <= j < old_out.len() implies listed_before(row, old_out[j]) by {
                        if j > pos {
                            lemma_listed_before_transitive(row, old_out[pos as int], old_out[j]);
                        }
                    }
                }
            }
            out.insert(pos, row);
            assert forall|i: int, j: int| 0 <= i < j < out@.len() implies listed_before(out@[i], out@[j]) by {
                if j < pos {
                    assert(out@[i] == old_out[i] && out@[j] == old_out[j]);
                } else if j == pos {
                    assert(out@[i] == old_out[i]);
                } else if i < pos {
                    assert(out@[i] == old_out[i] && out@[j] == old_out[j - 1]);
                } else if i == pos {
                    assert(out@[j] == old_out[j - 1]);
                } else {
                    assert(out@[i] == old_out[i - 1] && out@[j] == old_out[j - 1]);
                }
            }
            assert(out@.to_multiset() == old_out.to_multiset().insert(row));
        }
    }
    assert(shown_rows(rest@, depth) =~= Seq::<SimpleFileEntry>::empty());
    out
}

/// The rows of the panel and the selected row.
pub struct SimpleFileTree {
    root_path: String,
    entries: Vec<SimpleFileEntry>,
    selected_index: Option<usize>,
}

/// Whether the selection is a row of the list.
pub open spec fn selection_in_range(entries: Seq<SimpleFileEntry>, selected: Option<usize>) -> bool {
    match selected {
        Some(s) => s < entries.len(),
        None => true,
    }
}

/// How many rows after `from` are deeper than `depth`, counting until the first that is not.
pub open spec fn deeper_run(entries: Seq<SimpleFileEntry>, from: int, depth: usize) -> nat
    decreases entries.len() - from,
{
    if 0 <= from < entries.len() && entries[from].depth > depth {
        1 + deeper_run(entries, from + 1, depth)
    } else {
        0
    }
}

/// The rows below a directory row that belong to it: the run of deeper rows after it.
pub open spec fn descendant_count(entries: Seq<SimpleFileEntry>, dir_index: int) -> nat {
    deeper_run(entries, dir_index + 1, entries[dir_index].depth)
}

/// The rows without the descendants of the directory row.
pub open spec fn collapse_spec(entries: Seq<SimpleFileEntry>, dir_index: int) -> Seq<SimpleFileEntry> {
    let k = descendant_count(entries, dir_index);
    entries.subrange(0, dir_index + 1) + entries.subrange(dir_index + 1 + k, entries.len() as int)
}

/// The selection after collapsing: a selected descendant moves to the
/// directory, a row below the removed ones moves up by their number.
pub open spec fn collapse_selection_spec(
    entries: Seq<SimpleFileEntry>,
    dir_index: int,
    selected: Option<usize>,
) -> Option<usize> {
    let k = descendant_count(entries, dir_index);
    match selected {
        Some(s) => if s > dir_index && s <= dir_index + k {
            Some(dir_index as usize)
        } else if s > dir_index + k {
            Some((s - k) as usize)
        } else {
            Some(s)
        },
        None => None,
    }
}

/// The rows with `children` inserted right after the directory row.
pub open spec fn expand_spec(
    entries: Seq<SimpleFileEntry>,
    dir_index: int,
    children: Seq<SimpleFileEntry>,
) -> Seq<SimpleFileEntry> {
    entries.subrange(0, dir_index + 1) + children + entries.subrange(
        dir_index + 1,
        entries.len() as int,
    )
}

/// The row with its expanded flag set.
pub open spec fn with_expanded(e: SimpleFileEntry, expanded: bool) -> SimpleFileEntry {
    SimpleFileEntry { is_expanded: expanded, ..e }
}

/// The first row of a directory with the given path.
pub open spec fn directory_index_spec(entries: Seq<SimpleFileEntry>, path: Seq<char>) -> Option<int>
    decreases entries.len(),
{
    if entries.len() == 0 {
        None
    } else {
        match directory_index_spec(entries.drop_last(), path) {
            Some(i) => Some(i),
            None => if entries.last().path@ == path && entries.last().is_dir {
                Some(entries.len() - 1)
            } else {
                None
            },
        }
    }
}

impl SimpleFileTree {
    /// Whether the selection is a row of the list.
    pub closed spec fn well_formed(&self) -> bool {
        selection_in_range(self.entries@, self.selected_index)
    }

    /// The rows, in display order.
    pub closed spec fn rows(&self) -> Seq<SimpleFileEntry> {
        self.entries@
    }

    /// The directory the panel shows.
    pub closed spec fn root(&self) -> String {
        self.root_path
    }

    /// The directory the panel shows.
    pub fn root_path(&self) -> (r: &String)
        ensures
            r@ == self.root()@,
    {
        &self.root_path
    }

    /// The selected row, if any.
    pub closed spec fn selection(&self) -> Option<usize> {
        self.selected_index
    }

    /// A panel over the given rows with nothing selected.
    pub fn new(root_path: String, entries: Vec<SimpleFileEntry>) -> (r: SimpleFileTree)
        ensures
            r.well_formed(),
            r.rows() == entries@,
            r.selection() is None,
            r.root()@ == root_path@,
    {
        SimpleFileTree { root_path, entries, selected_index: None }
    }

    /// The rows.
    pub fn entries(&self) -> (r: &Vec<SimpleFileEntry>)
        ensures
            r@ == self.rows(),
    {
        &self.entries
    }

    /// The selected row.
    pub fn selected_index(&self) -> (r: Option<usize>)
        ensures
            r == self.selection(),
    {
        self.selected_index
    }

    /// Selects the next row (the first when none is selected), staying on the last.
    pub fn select_next(&mut self)
        requires
            old(self).well_formed(),
        ensures
            final(self).well_formed(),
            final(self).rows() == old(self).rows(),
            final(self).selection() == (if old(self).rows().len() == 0 {
                old(self).selection()
            } else {
                match old(self).selection() {
                    Some(c) => Some(if c + 1 < old(self).rows().len() { (c + 1) as usize } else { (old(self).rows().len() - 1) as usize }),
                    None => Some(0usize),
                }
            }),
    {
        if self.entries.len() == 0 {
            return;
        }
        let next = match self.selected_index {
            Some(current) => if current + 1 < self.entries.len() {
                current + 1
            } else {
                self.entries.len() - 1
            },
            None => 0,
        };
        self.selected_index = Some(next);
    }

    /// Selects the previous row (the first when none is selected), staying on the first.
    pub fn select_previous(&mut self)
        requires
            old(self).well_formed(),
        ensures
            final(self).well_formed(),
            final(self).rows() == old(self).rows(),
            final(self).selection() == (if old(self).rows().len() == 0 {
                old(self).selection()
            } else {
                match old(self).selection() {
                    Some(c) => Some(if c >= 1 { (c - 1) as usize } else { 0usize }),
                    None => Some(0usize),
                }
            }),
    {
        if self.entries.len() == 0 {
            return;
        }
        let previous = match self.selected_index {
            Some(current) => current.saturating_sub(1),
            None => 0,
        };
        self.selected_index = Some(previous);
    }

    /// What opening the selected row asks for: toggling a directory or
    /// opening a file.
    pub fn open_selected(&self) -> (r: OpenAction)
        requires
            self.well_formed(),
        ensures
            match self.selection() {
                None => r == OpenAction::Nothing,
                Some(i) => {
                    let e = self.rows()[i as int];
                    if e.is_dir {
                        r matches OpenAction::ToggleDirectory { path } && path@ == e.path@
                    } else {
                        r matches OpenAction::OpenFile { path } && path@ == e.path@
                    }
                },
            },
    {
        match self.selected_index {
            Some(index) => {
                let entry = &self.entries[index];
                if entry.is_dir {
                    OpenAction::ToggleDirectory { path: entry.path.clone() }
                } else {
                    OpenAction::OpenFile { path: entry.path.clone() }
                }
            },
            None => OpenAction::Nothing,
        }
    }

    /// The first directory row with the given path.
    pub fn directory_index(&self, dir_path: &str) -> (r: Option<usize>)
        ensures
            match r {
                Some(i) => directory_index_spec(self.rows(), dir_path@) == Some(i as int),
                None => directory_index_spec(self.rows(), dir_path@) is None,
            },
    {
        let mut i: usize = 0;
        while i < self.entries.len()
            invariant
                i <= self.entries.len(),
                directory_index_spec(self.entries@.subrange(0, i as int), dir_path@) is None,
            decreases self.entries.len() - i,
        {
            proof {
                assert(self.entries@.subrange(0, i + 1).drop_last() =~= self.entries@.subrange(
                    0,
                    i as int,
                ));
            }
            let e = &self.entries[i];
            if e.is_dir && crate::text::str_equal(e.path.as_str(), dir_path) {
                proof {
                    lemma_directory_index_prefix(self.entries@, i as int + 1, dir_path@);
                }
                return Some(i);
            }
            i = i + 1;
        }
        assert(self.entries@.subrange(0, self.entries.len() as int) =~= self.entries@);
        None
    }

    /// Removes the descendants of the directory row and moves the selection
    /// out of them.
    pub fn collapse_directory(&mut self, dir_index: usize)
        requires
            old(self).well_formed(),
            dir_index < old(self).rows().len(),
        ensures
            final(self).well_formed(),
            final(self).rows() == collapse_spec(old(self).rows(), dir_index as int),
            final(self).selection() == collapse_selection_spec(
                old(self).rows(),
                dir_index as int,
                old(self).selection(),
            ),
    {
        let ghost before = self.entries@;
        let ghost selected = self.selected_index;
        let dir_depth = self.entries[dir_index].depth;
        let mut count: usize = 0;
        proof {
            lemma_deeper_run_bound(before, dir_index + 1, dir_depth);
        }
        assert(before.len() == self.entries.len());
        while dir_index + 1 + count < self.entries.len() && self.entries[dir_index + 1 + count].depth
            > dir_depth
            invariant
                self.entries@ == before,
                dir_index < before.len(),
                dir_depth == before[dir_index as int].depth,
                dir_index + 1 + count <= before.len(),
                before.len() <= usize::MAX,
                self.selected_index == selected,
                deeper_run(before, dir_index + 1, dir_depth) == count + deeper_run(
                    before,
                    dir_index + 1 + count,
                    dir_depth,
                ),
            decreases before.len() - count,
        {
            count = count + 1;
        }
        let mut removed: usize = 0;
        while removed < count
            invariant
                removed <= count,
                dir_index + 1 + count <= before.len(),
                before.len() <= usize::MAX,
                self.selected_index == selected,
                selection_in_range(before, selected),
                count == descendant_count(before, dir_index as int),
                self.entries@ == before.subrange(0, dir_index + 1) + before.subrange(
                    dir_index + 1 + removed,
                    before.len() as int,
                ),
            decreases count - removed,
        {
            let ghost cur = self.entries@;
            self.entries.remove(dir_index + 1);
            removed = removed + 1;
            proof {
                assert(self.entries@ =~= before.subrange(0, dir_index + 1) + before.subrange(
                    dir_index + 1 + removed,
                    before.len() as int,
                ));
            }
        }
        match self.selected_index {
            Some(selected) => {
                if selected > dir_index && selected <= dir_index + count {
                    self.selected_index = Some(dir_index);
                } else if selected > dir_index + count {
                    self.selected_index = Some(selected - count);
                }
            },
            None => {},
        }
    }

    /// Inserts `children` right after the directory row.
    pub fn expand_directory(&mut self, dir_index: usize, children: Vec<SimpleFileEntry>)
        requires
            old(self).well_formed(),
            dir_index < old(self).rows().len(),
        ensures
            final(self).well_formed(),
            final(self).rows() == expand_spec(old(self).rows(), dir_index as int, children@),
            final(self).selection() == old(self).selection(),
    {
        let ghost before = self.entries@;
        let ghost selected = self.selected_index;
        let mut i: usize = 0;
        let mut children = children;
        let ghost all = children@;
        while children.len() > 0
            invariant
                i <= all.len(),
                children@ == all.subrange(i as int, all.len() as int),
                self.entries@ == before.subrange(0, dir_index + 1) + all.subrange(0, i as int)
                    + before.subrange(dir_index + 1, before.len() as int),
                dir_index < before.len(),
                self.entries@.len() == before.len() + i,
                selection_in_range(before, self.selected_index),
                self.selected_index == selected,
            decreases children.len(),
        {
            let child = children.remove(0);
            proof {
                assert(child == all[i as int]);
            }
            assert(dir_index + 1 + i <= self.entries.len());
            self.entries.insert(dir_index + 1 + i, child);
            i = i + 1;
            proof {
                assert(self.entries@ =~= before.subrange(0, dir_index + 1) + all.subrange(0, i as int)
                    + before.subrange(dir_index + 1, before.len() as int));
                assert(children@ =~= all.subrange(i as int, all.len() as int));
            }
        }
        assert(all.subrange(0, i as int) =~= all);
    }

    /// Toggles the directory row: collapses it when expanded, otherwise
    /// inserts `children` after it; gives the new expanded state.
    pub fn toggle_directory_at(&mut self, dir_index: usize, children: Vec<SimpleFileEntry>) -> (r: bool)
        requires
            old(self).well_formed(),
            dir_index < old(self).rows().len(),
        ensures
            final(self).well_formed(),
            r == !old(self).rows()[dir_index as int].is_expanded,
            final(self).rows() == (if old(self).rows()[dir_index as int].is_expanded {
                collapse_spec(old(self).rows(), dir_index as int)
            } else {
                expand_spec(old(self).rows(), dir_index as int, children@)
            }).update(dir_index as int, with_expanded(old(self).rows()[dir_index as int], r)),
            final(self).selection() == (if old(self).rows()[dir_index as int].is_expanded {
                collapse_selection_spec(old(self).rows(), dir_index as int, old(self).selection())
            } else {
                old(self).selection()
            }),
    {
        let was_expanded = self.entries[dir_index].is_expanded;
        if was_expanded {
            self.collapse_directory(dir_index);
        } else {
            self.expand_directory(dir_index, children);
        }
        let current = &self.entries[dir_index];
        let entry = SimpleFileEntry {
            path: current.path.clone(),
            name: current.name.clone(),
            is_dir: current.is_dir,
            is_expanded: !was_expanded,
            depth: current.depth,
        };
        self.entries.set(dir_index, entry);
        !was_expanded
    }
}

proof fn lemma_deeper_run_bound(entries: Seq<SimpleFileEntry>, from: int, depth: usize)
    requires
        0 <= from,
    ensures
        from + deeper_run(entries, from, depth) <= if from <= entries.len() { entries.len() as int } else { from },
        forall|k: int| from <= k < from + deeper_run(entries, from, depth) ==> #[trigger] entries[k].depth > depth,
        from + deeper_run(entries, from, depth) < entries.len() ==> entries[from + deeper_run(entries, from, depth)].depth <= depth,
    decreases entries.len() - from,
{
    if 0 <= from < entries.len() && entries[from].depth > depth {
        lemma_deeper_run_bound(entries, from + 1, depth);
    }
}

proof fn lemma_directory_index_prefix(entries: Seq<SimpleFileEntry>, n: int, path: Seq<char>)
    requires
        1 <= n <= entries.len(),
        directory_index_spec(entries.subrange(0, n - 1), path) is None,
        entries[n - 1].path@ == path,
        entries[n - 1].is_dir,
    ensures
        forall|m: int| n <= m <= entries.len() ==> directory_index_spec(#[trigger] entries.subrange(0, m), path) == Some(n - 1),
{
    assert forall|m: int| n <= m <= entries.len() implies directory_index_spec(#[trigger] entries.subrange(0, m), path) == Some(n - 1) by {
        lemma_directory_index_extend(entries, n, m, path);
    }
}

proof fn lemma_directory_index_extend(entries: Seq<SimpleFileEntry>, n: int, m: int, path: Seq<char>)
    requires
        1 <= n <= m <= entries.len(),
        directory_index_spec(entries.subrange(0, n - 1), path) is None,
        entries[n - 1].path@ == path,
        entries[n - 1].is_dir,
    ensures
        directory_index_spec(entries.subrange(0, m), path) == Some(n - 1),
    decreases m,
{
    assert(entries.subrange(0, m).drop_last() =~= entries.subrange(0, m - 1));
    if m > n {
        lemma_directory_index_extend(entries, n, m - 1, path);
    }
}

/// Expanding a directory row whose descendants are not shown and then
/// collapsing it gives back the rows it had, when every inserted child is
/// deeper than the directory.
pub proof fn lemma_collapse_undoes_expand(
    entries: Seq<SimpleFileEntry>,
    dir_index: int,
    children: Seq<SimpleFileEntry>,
)
    requires
        0 <= dir_index < entries.len(),
        descendant_count(entries, dir_index) == 0,
        forall|k: int| 0 <= k < children.len() ==> #[trigger] children[k].depth > entries[dir_index].depth,
    ensures
        collapse_spec(expand_spec(entries, dir_index, children), dir_index) == entries,
{
    let ex = expand_spec(entries, dir_index, children);
    let depth = entries[dir_index].depth;
    assert(ex[dir_index] == entries[dir_index]);
    lemma_deeper_run_bound(entries, dir_index + 1, depth);
    lemma_deeper_run_bound(ex, dir_index + 1, depth);
    lemma_deeper_run_children(ex, dir_index + 1, depth, children.len() as int);
    assert(collapse_spec(ex, dir_index) =~= entries);
}

proof fn lemma_deeper_run_children(entries: Seq<SimpleFileEntry>, from: int, depth: usize, n: int)
    requires
        0 <= from,
        0 <= n,
        from + n <= entries.len(),
        forall|k: int| from <= k < from + n ==> #[trigger] entries[k].depth > depth,
        from + n < entries.len() ==> entries[from + n].depth <= depth,
    ensures
        deeper_run(entries, from, depth) == n,
    decreases n,
{
    if n > 0 {
        lemma_deeper_run_children(entries, from + 1, depth, n - 1);
    }
}

} // verus!
