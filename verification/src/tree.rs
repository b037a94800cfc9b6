//! The file tree: every entry read so far, kept in path order, with the
//! path of each entry's id, the expanded directories, and the rules for
//! which entries are shown.
use vstd::prelude::*;
use vstd::multiset::Multiset;
use crate::file_tree::{
    file_name_of, hidden_file_name, is_hidden_name, path_file_name, FileKind,
    FileTreeEntry, FileTreeEntryId, FileTreeStats,
};
use crate::paths::{
    components_of, lemma_path_le_total_transitive, path_components, path_le, path_le_exec,
    path_within, path_within_exec, same_path, same_path_exec,
};
use crate::sequences::keep_where;

verus! {

broadcast use vstd::seq_lib::group_to_multiset_ensures;

/// Which entries the tree shows and how deep it first reads.
#[derive(Debug, Clone, Copy, PartialEq, Eq)]
pub struct FileTreeConfig {
    pub show_hidden: bool,
    pub show_ignored: bool,
    pub initial_depth: usize,
}

impl Default for FileTreeConfig {
    /// Hidden and ignored entries not shown; the root and one level below read first.
    fn default() -> (r: FileTreeConfig)
        ensures
            r == (FileTreeConfig { show_hidden: false, show_ignored: false, initial_depth: 1 }),
    {
        FileTreeConfig { show_hidden: false, show_ignored: false, initial_depth: 1 }
    }
}

/// Why a tree operation failed.
#[derive(Debug, Clone, PartialEq)]
pub enum FileTreeError {
    /// No entry has the path.
    NotFound,
    /// The entry is not a directory.
    NotADirectory,
    /// Reading a directory failed, with the reader's message.
    Read(String),
    /// Every entry id has been handed out.
    IdsExhausted,
}

/// The message of each error.
pub open spec fn tree_error_message(e: FileTreeError) -> Seq<char> {
    match e {
        FileTreeError::NotFound => "Entry not found"@,
        FileTreeError::NotADirectory => "Not a directory"@,
        FileTreeError::Read(m) => m@,
        FileTreeError::IdsExhausted => "No entry id is left"@,
    }
}

impl FileTreeError {
    /// The message that describes the error.
    pub fn message(&self) -> (r: String)
        ensures
            r@ == tree_error_message(*self),
    {
        match self {
            FileTreeError::NotFound => crate::text::owned("Entry not found"),
            FileTreeError::NotADirectory => crate::text::owned("Not a directory"),
            FileTreeError::Read(m) => m.clone(),
            FileTreeError::IdsExhausted => crate::text::owned("No entry id is left"),
        }
    }
}

/// Whether the entries are in path order.
pub open spec fn sorted_by_path(s: Seq<FileTreeEntry>) -> bool {
    forall|i: int, j: int| 0 <= i < j < s.len() ==> path_le(s[i].path@, s[j].path@)
}

/// How many entries at the start come before or with `e` in path order.
pub open spec fn leading_before(s: Seq<FileTreeEntry>, e: FileTreeEntry) -> nat
    decreases s.len(),
{
    if s.len() > 0 && path_le(s[0].path@, e.path@) {
        1 + leading_before(s.drop_first(), e)
    } else {
        0
    }
}

/// The entries with `e` put in path order after every entry that comes
/// before or with it (what a stable sort of the entries and `e` gives).
pub open spec fn insert_sorted(s: Seq<FileTreeEntry>, e: FileTreeEntry) -> Seq<FileTreeEntry> {
    s.insert(leading_before(s, e) as int, e)
}

/// Whether an entry has another id than `id`.
pub open spec fn other_id(id: FileTreeEntryId) -> spec_fn(FileTreeEntry) -> bool {
    |e: FileTreeEntry| e.id != id
}

/// The last entry with the given id, if any.
pub open spec fn last_with_id(s: Seq<FileTreeEntry>, id: FileTreeEntryId) -> Option<FileTreeEntry>
    decreases s.len(),
{
    if s.len() == 0 {
        None
    } else if s.last().id == id {
        Some(s.last())
    } else {
        last_with_id(s.drop_last(), id)
    }
}

/// The first entry with the given id, if any.
pub open spec fn first_with_id(s: Seq<FileTreeEntry>, id: FileTreeEntryId) -> Option<FileTreeEntry>
    decreases s.len(),
{
    if s.len() == 0 {
        None
    } else if s[0].id == id {
        Some(s[0])
    } else {
        first_with_id(s.drop_first(), id)
    }
}

/// Where the first key that is the same path as `p` stands, or -1.
pub open spec fn path_slot(s: Seq<(Seq<char>, FileTreeEntryId)>, p: Seq<char>) -> int
    decreases s.len(),
{
    if s.len() == 0 {
        -1
    } else if same_path(s[0].0, p) {
        0
    } else {
        let r = path_slot(s.drop_first(), p);
        if r >= 0 { r + 1 } else { -1 }
    }
}

/// The id recorded for a path, if any.
pub open spec fn id_of_path(s: Seq<(Seq<char>, FileTreeEntryId)>, p: Seq<char>) -> Option<FileTreeEntryId> {
    let i = path_slot(s, p);
    if i >= 0 { Some(s[i].1) } else { None }
}

/// The path index with `p` recorded as `id`: in place of the same path, or last.
pub open spec fn with_path(s: Seq<(Seq<char>, FileTreeEntryId)>, p: Seq<char>, id: FileTreeEntryId) -> Seq<(Seq<char>, FileTreeEntryId)> {
    let i = path_slot(s, p);
    if i >= 0 { s.update(i, (p, id)) } else { s.push((p, id)) }
}

/// The path index without the entry for `p`.
pub open spec fn without_path(s: Seq<(Seq<char>, FileTreeEntryId)>, p: Seq<char>) -> Seq<(Seq<char>, FileTreeEntryId)> {
    let i = path_slot(s, p);
    if i >= 0 { s.remove(i) } else { s }
}

/// The path index as texts and ids.
pub open spec fn index_view(s: Seq<(String, FileTreeEntryId)>) -> Seq<(Seq<char>, FileTreeEntryId)> {
    s.map_values(|e: (String, FileTreeEntryId)| (e.0@, e.1))
}

/// The text of each path.
pub open spec fn path_texts(s: Seq<String>) -> Seq<Seq<char>> {
    s.map_values(|p: String| p@)
}

/// The components of the parent of a path, if it has one.
pub open spec fn parent_components(p: Seq<char>) -> Option<Seq<Seq<char>>> {
    let c = path_components(p);
    if c.len() > 0 && c.last().len() > 0 { Some(c.drop_last()) } else { None }
}

/// Whether one of the directories is the same path as `p`.
pub open spec fn among_paths(dirs: Seq<Seq<char>>, p: Seq<char>) -> bool {
    exists|k: int| 0 <= k < dirs.len() && same_path(dirs[k], p)
}

/// Whether an entry is shown: not hidden (unless hidden entries are),
/// not ignored (unless ignored entries are), and directly under the root
/// or under an expanded directory.
pub open spec fn shown(config: FileTreeConfig, root: Seq<char>, expanded: Seq<Seq<char>>, e: FileTreeEntry) -> bool {
    &&& !(e.is_hidden && !config.show_hidden)
    &&& !(e.is_ignored && !config.show_ignored)
    &&& match parent_components(e.path@) {
        Some(pc) => pc == path_components(root) || exists|k: int| 0 <= k < expanded.len() && path_components(expanded[k]) == pc,
        None => true,
    }
}

/// The entry with its visibility set.
pub open spec fn with_visibility(e: FileTreeEntry, visible: bool) -> FileTreeEntry {
    FileTreeEntry { is_visible: visible, ..e }
}

/// The entries after the descendants of `dir` are hidden.
pub open spec fn children_hidden(s: Seq<FileTreeEntry>, dir: Seq<char>) -> Seq<FileTreeEntry> {
    s.map_values(|e: FileTreeEntry| if path_within(e.path@, dir) && !same_path(e.path@, dir) {
        with_visibility(e, false)
    } else {
        e
    })
}

/// The entries with each one's visibility worked out again.
pub open spec fn visibility_refreshed(s: Seq<FileTreeEntry>, config: FileTreeConfig, root: Seq<char>, expanded: Seq<Seq<char>>) -> Seq<FileTreeEntry> {
    s.map_values(|e: FileTreeEntry| with_visibility(e, shown(config, root, expanded, e)))
}


/// What a directory entry on the disk is.
#[derive(Debug, Clone, PartialEq)]
pub enum DiskKind {
    Directory,
    File { size: u64 },
    /// Neither a directory nor a file: a link, with where it points and
    /// whether that exists.
    Other { target: Option<String>, target_exists: bool },
}

/// An entry of a directory as read from the disk.
#[derive(Debug, Clone, PartialEq)]
pub struct DiskEntry {
    pub path: String,
    pub kind: DiskKind,
    /// Last modification, in milliseconds since the Unix epoch.
    pub mtime: Option<u64>,
}

/// Whether every entry's id lies in `[lo, hi)` and its depth is at least `depth`.
pub open spec fn scanned_within(v: Seq<FileTreeEntry>, lo: u64, hi: u64, depth: usize) -> bool {
    forall|k: int| 0 <= k < v.len() ==> lo <= (#[trigger] v[k]).id.0 < hi && v[k].depth >= depth
}

/// Count, shown count, files, directories, total size and greatest depth
/// of the entries.
pub open spec fn tree_stats(s: Seq<FileTreeEntry>) -> (nat, nat, nat, nat, nat, nat)
    decreases s.len(),
{
    if s.len() == 0 {
        (0, 0, 0, 0, 0, 0)
    } else {
        let (c, v, f, d, size, depth) = tree_stats(s.drop_last());
        let e = s.last();
        (
            c + 1,
            v + if e.is_visible { 1nat } else { 0nat },
            f + if e.kind is File { 1nat } else { 0nat },
            d + if e.kind is Directory { 1nat } else { 0nat },
            size + (e.size as nat),
            if e.depth > depth { e.depth as nat } else { depth },
        )
    }
}

/// The entries that an upsert of `entry` keeps: all but those with the id
/// recorded for its path.
pub open spec fn upsert_base(o: FileTreeView, entry: FileTreeEntry) -> Seq<FileTreeEntry> {
    match id_of_path(o.index, entry.path@) {
        Some(old_id) => keep_where(o.entries, other_id(old_id)),
        None => o.entries,
    }
}

/// The tree: its root, its entries in path order, the id of each path, the
/// expanded directories, its configuration, the next id to hand out and
/// whether it was read.
pub struct FileTree {
    root_path: String,
    entries: Vec<FileTreeEntry>,
    path_to_id: Vec<(String, FileTreeEntryId)>,
    expanded_dirs: Vec<String>,
    config: FileTreeConfig,
    next_id: u64,
    is_loaded: bool,
}

/// The view of the tree.
pub struct FileTreeView {
    pub root: Seq<char>,
    pub entries: Seq<FileTreeEntry>,
    pub index: Seq<(Seq<char>, FileTreeEntryId)>,
    pub expanded: Seq<Seq<char>>,
    pub config: FileTreeConfig,
    pub next_id: u64,
    pub is_loaded: bool,
}

impl View for FileTree {
    type V = FileTreeView;

    closed spec fn view(&self) -> FileTreeView {
        FileTreeView {
            root: self.root_path@,
            entries: self.entries@,
            index: index_view(self.path_to_id@),
            expanded: path_texts(self.expanded_dirs@),
            config: self.config,
            next_id: self.next_id,
            is_loaded: self.is_loaded,
        }
    }
}

impl FileTreeView {
    /// The entries are in path order.
    pub open spec fn well_formed(self) -> bool {
        sorted_by_path(self.entries)
    }
}

fn copy_opt_string(s: &Option<String>) -> (r: Option<String>)
    ensures
        r == *s,
{
    match s {
        Some(t) => Some(t.clone()),
        None => None,
    }
}

fn copy_entry(e: &FileTreeEntry) -> (r: FileTreeEntry)
    ensures
        r == *e,
{
    let kind = match &e.kind {
        FileKind::File { extension } => FileKind::File { extension: copy_opt_string(extension) },
        FileKind::Directory { is_loaded, child_count } => FileKind::Directory {
            is_loaded: *is_loaded,
            child_count: *child_count,
        },
        FileKind::Symlink { target, target_exists } => FileKind::Symlink {
            target: copy_opt_string(target),
            target_exists: *target_exists,
        },
    };
    FileTreeEntry {
        id: e.id,
        path: e.path.clone(),
        kind,
        size: e.size,
        mtime: e.mtime,
        git_status: e.git_status,
        is_visible: e.is_visible,
        is_expanded: e.is_expanded,
        depth: e.depth,
        is_ignored: e.is_ignored,
        is_hidden: e.is_hidden,
    }
}

fn find_path(s: &Vec<(String, FileTreeEntryId)>, p: &str) -> (r: Option<usize>)
    ensures
        match r {
            Some(i) => i == path_slot(index_view(s@), p@) && i < s@.len(),
            None => path_slot(index_view(s@), p@) == -1,
        },
{
    let ghost v = index_view(s@);
    let mut i: usize = 0;
    assert(v.skip(0) =~= v);
    while i < s.len()
        invariant
            i <= s.len(),
            v == index_view(s@),
            path_slot(v, p@) == if path_slot(v.skip(i as int), p@) >= 0 { path_slot(v.skip(i as int), p@) + i } else { -1 },
        decreases s.len() - i,
    {
        assert(v.skip(i as int)[0] == v[i as int]);
        assert(v[i as int].0 == s@[i as int].0@);
        if same_path_exec(s[i].0.as_str(), p) {
            return Some(i);
        }
        assert(v.skip(i as int).drop_first() =~= v.skip(i + 1));
        i = i + 1;
    }
    None
}

fn insert_in_order(v: &mut Vec<FileTreeEntry>, e: FileTreeEntry)
    requires
        sorted_by_path(old(v)@),
    ensures
        final(v)@ == insert_sorted(old(v)@, e),
        sorted_by_path(final(v)@),
{
    let mut pos: usize = 0;
    let ghost s = v@;
    assert(s.skip(0) =~= s);
    while pos < v.len() && path_le_exec(v[pos].path.as_str(), e.path.as_str())
        invariant
            pos <= v.len(),
            v@ == s,
            leading_before(s, e) == pos + leading_before(s.skip(pos as int), e),
            forall|k: int| 0 <= k < pos ==> path_le(s[k].path@, e.path@),
        decreases v.len() - pos,
    {
        assert(s.skip(pos as int)[0] == s[pos as int]);
        assert(s.skip(pos as int).drop_first() =~= s.skip(pos + 1));
        pos = pos + 1;
    }
    proof {
        if pos < s.len() {
            assert(s.skip(pos as int)[0] == s[pos as int]);
            lemma_path_le_total_transitive(s[pos as int].path@, e.path@, e.path@);
            assert forall|j: int| pos <= j < s.len() implies path_le(e.path@, s[j].path@) by {
                if j > pos {
                    lemma_path_le_total_transitive(e.path@, s[pos as int].path@, s[j].path@);
                }
            }
        }
    }
    v.insert(pos, e);
    assert forall|i: int, j: int| 0 <= i < j < v@.len() implies path_le(v@[i].path@, v@[j].path@) by {
        if j < pos {
            assert(v@[i] == s[i] && v@[j] == s[j]);
        } else if j == pos {
            assert(v@[i] == s[i]);
        } else if i < pos {
            assert(v@[i] == s[i] && v@[j] == s[j - 1]);
            lemma_path_le_total_transitive(s[i].path@, e.path@, s[j - 1].path@);
        } else if i == pos {
            assert(v@[j] == s[j - 1]);
        } else {
            assert(v@[i] == s[i - 1] && v@[j] == s[j - 1]);
        }
    }
}

fn remove_with_id(v: &mut Vec<FileTreeEntry>, id: FileTreeEntryId) -> (r: Option<FileTreeEntry>)
    requires
        sorted_by_path(old(v)@),
    ensures
        final(v)@ == keep_where(old(v)@, other_id(id)),
        sorted_by_path(final(v)@),
        r == last_with_id(old(v)@, id),
{
    let ghost orig = v@;
    let mut rest: Vec<FileTreeEntry> = Vec::new();
    std::mem::swap(&mut rest, v);
    let mut removed: Option<FileTreeEntry> = None;
    let mut seen: usize = 0;
    let n = rest.len();
    assert(orig.subrange(0, 0) =~= Seq::<FileTreeEntry>::empty());
    while rest.len() > 0
        invariant
            seen + rest@.len() == orig.len(),
            n == orig.len(),
            rest@ == orig.skip(seen as int),
            v@ + keep_where(rest@, other_id(id)) == keep_where(orig, other_id(id)),
            removed == last_with_id(orig.subrange(0, seen as int), id),
            sorted_by_path(orig),
        decreases rest.len(),
    {
        let ghost before = rest@;
        let e = rest.remove(0);
        assert(rest@ =~= before.drop_first());
        assert(before[0] == e);
        assert(orig.skip(seen as int).drop_first() =~= orig.skip(seen + 1));
        assert(orig.subrange(0, seen + 1).drop_last() =~= orig.subrange(0, seen as int));
        assert(orig.subrange(0, seen + 1).last() == orig[seen as int]);
        assert(orig[seen as int] == e);
        if e.id.0 == id.0 {
            removed = Some(e);
        } else {
            let ghost tail = keep_where(rest@, other_id(id));
            let ghost vb = v@;
            v.push(e);
            assert(v@ + tail =~= vb + (seq![e] + tail));
        }
        seen = seen + 1;
    }
    assert(orig.subrange(0, n as int) =~= orig);
    assert(v@ + keep_where(rest@, other_id(id)) =~= v@);
    proof {
        crate::sequences::lemma_keep_where(orig, other_id(id), |e: FileTreeEntry| e.path@);
        assert forall|i: int, j: int| 0 <= i < j < v@.len() implies path_le(v@[i].path@, v@[j].path@) by {
            lemma_keep_where_order(orig, other_id(id), i, j);
        }
    }
    removed
}

/// What `keep_where` keeps stays in order.
proof fn lemma_keep_where_order(s: Seq<FileTreeEntry>, keep: spec_fn(FileTreeEntry) -> bool, i: int, j: int)
    requires
        sorted_by_path(s),
        0 <= i < j < keep_where(s, keep).len(),
    ensures
        path_le(keep_where(s, keep)[i].path@, keep_where(s, keep)[j].path@),
    decreases s.len(),
{
    let t = s.drop_first();
    let rest = keep_where(t, keep);
    assert(sorted_by_path(t)) by {
        assert forall|a: int, b: int| 0 <= a < b < t.len() implies path_le(t[a].path@, t[b].path@) by {
            assert(t[a] == s[a + 1] && t[b] == s[b + 1]);
        }
    }
    if keep(s[0]) {
        if i == 0 {
            crate::sequences::lemma_keep_where(t, keep, |e: FileTreeEntry| e.path@);
            let m = choose|m: int| 0 <= m < t.len() && rest[j - 1] == t[m];
            assert(t[m] == s[m + 1]);
        } else {
            lemma_keep_where_order(t, keep, i - 1, j - 1);
        }
    } else {
        lemma_keep_where_order(t, keep, i, j);
    }
}


fn record_path(s: &mut Vec<(String, FileTreeEntryId)>, p: String, id: FileTreeEntryId)
    ensures
        index_view(final(s)@) == with_path(index_view(old(s)@), p@, id),
{
    let ghost ov = index_view(s@);
    match find_path(s, p.as_str()) {
        Some(i) => {
            let ghost pv = p@;
            s.set(i, (p, id));
            assert(index_view(s@) =~= ov.update(i as int, (pv, id)));
        },
        None => {
            let ghost pv = p@;
            s.push((p, id));
            assert(index_view(s@) =~= ov.push((pv, id)));
        },
    }
}

fn sort_by_path(v: Vec<FileTreeEntry>, lo: u64, hi: u64, depth: usize) -> (r: Vec<FileTreeEntry>)
    requires
        scanned_within(v@, lo, hi, depth),
    ensures
        sorted_by_path(r@),
        scanned_within(r@, lo, hi, depth),
        r@.to_multiset() == v@.to_multiset(),
{
    let mut out: Vec<FileTreeEntry> = Vec::new();
    let mut rest = v;
    assert(out@.to_multiset() =~= Multiset::<FileTreeEntry>::empty());
    while rest.len() > 0
        invariant
            sorted_by_path(out@),
            scanned_within(out@, lo, hi, depth),
            scanned_within(rest@, lo, hi, depth),
            out@.to_multiset().add(rest@.to_multiset()) == v@.to_multiset(),
        decreases rest.len(),
    {
        let ghost before = rest@;
        let e = rest.remove(0);
        assert(before[0] == e);
        assert(before.to_multiset() =~= rest@.to_multiset().insert(e)) by {
            assert(before =~= seq![e] + rest@);
            vstd::seq_lib::lemma_multiset_commutative(seq![e], rest@);
            assert(seq![e] =~= Seq::<FileTreeEntry>::empty().push(e));
        }
        assert(scanned_within(rest@, lo, hi, depth)) by {
            assert forall|k: int| 0 <= k < rest@.len() implies lo <= (#[trigger] rest@[k]).id.0 < hi && rest@[k].depth >= depth by {
                assert(rest@[k] == before[k + 1]);
            }
        }
        let ghost ob = out@;
        proof {
            lemma_leading_before_len(ob, e);
        }
        insert_in_order(&mut out, e);
        assert(out@.len() == ob.len() + 1);
        assert forall|k: int| 0 <= k < out@.len() implies lo <= (#[trigger] out@[k]).id.0 < hi && out@[k].depth >= depth by {
            let pos = leading_before(ob, e) as int;
            lemma_leading_before_len(ob, e);
            if k < pos {
                assert(out@[k] == ob[k]);
            } else if k > pos {
                assert(out@[k] == ob[k - 1]);
            }
        }
        assert(out@.to_multiset() == ob.to_multiset().insert(e));
    }
    assert(rest@.to_multiset() =~= Multiset::<FileTreeEntry>::empty());
    out
}

proof fn lemma_leading_before_len(s: Seq<FileTreeEntry>, e: FileTreeEntry)
    ensures
        leading_before(s, e) <= s.len(),
    decreases s.len(),
{
    if s.len() > 0 {
        lemma_leading_before_len(s.drop_first(), e);
    }
}

/// Whether a scan passes over a listed path: a hidden one while hidden
/// entries are not shown.
pub open spec fn scan_skips(config: FileTreeConfig, path: Seq<char>) -> bool {
    !config.show_hidden && is_hidden_name(path_file_name(path))
}

/// Whether the entries at `depth` are, by path, exactly the listed entries
/// that a scan keeps.
#[verifier::opaque]
pub open spec fn listed_at_depth(v: Seq<FileTreeEntry>, listing: Seq<DiskEntry>, config: FileTreeConfig, depth: usize) -> bool {
    &&& forall|k: int|
        0 <= k < v.len() && (#[trigger] v[k]).depth == depth ==> exists|j: int|
            0 <= j < listing.len() && !scan_skips(config, (#[trigger] listing[j]).path@) && listing[j].path@ == v[k].path@
    &&& forall|j: int|
        0 <= j < listing.len() && !scan_skips(config, (#[trigger] listing[j]).path@) ==> exists|k: int|
            0 <= k < v.len() && (#[trigger] v[k]).depth == depth && v[k].path@ == listing[j].path@
}

/// The entry `e` marked as read: a directory records that its children were
/// read and that it has `child_count` of them; another entry stays as it is.
pub open spec fn marked_loaded(e: FileTreeEntry, child_count: usize) -> FileTreeEntry {
    FileTreeEntry {
        kind: match e.kind {
            FileKind::Directory { .. } => FileKind::Directory { is_loaded: true, child_count },
            k => k,
        },
        ..e
    }
}

/// The entry recorded for a path, if any (what `entry_by_path` gives).
pub open spec fn entry_at(t: FileTreeView, p: Seq<char>) -> Option<FileTreeEntry> {
    match id_of_path(t.index, p) {
        Some(id) => first_with_id(t.entries, id),
        None => None,
    }
}

/// What loading the directory at `dir` (see [`FileTree::load_directory`])
/// makes of `old`: nothing changes for a path without an entry; after a
/// successful read the entries the scan gave and the entry, marked read,
/// are put in the tree; a failed read leaves the entries and gives the
/// scan's failure.
pub open spec fn load_outcome<F: Fn(&str) -> Result<Vec<DiskEntry>, String>>(
    read: &F,
    dir: &str,
    old: FileTreeView,
    fin: FileTreeView,
    r: Result<(), FileTreeError>,
) -> bool {
    match entry_at(old, dir@) {
        None => fin == old && r is Ok,
        Some(e) => match r {
            Ok(_) => recorded_loaded(fin, e) && loaded_from(read, dir, old, e, fin),
            Err(err) => fin.entries == old.entries && fin.root == old.root && fin.config == old.config
                && fin.expanded == old.expanded && scan_failure(read, dir, err, fin.next_id),
        },
    }
}

/// The tree after `e` is put in it, as [`FileTree::upsert_entry`] does.
pub open spec fn upserted(t: FileTreeView, e: FileTreeEntry) -> FileTreeView {
    FileTreeView { entries: insert_sorted(upsert_base(t, e), e), index: with_path(t.index, e.path@, e.id), ..t }
}

/// The tree after each of `v` is put in it, first to last.
pub open spec fn upserted_all(t: FileTreeView, v: Seq<FileTreeEntry>) -> FileTreeView
    decreases v.len(),
{
    if v.len() == 0 {
        t
    } else {
        upserted(upserted_all(t, v.drop_last()), v.last())
    }
}

/// Whether `fin` is what loading the directory entry `found` at `dir` makes
/// of `old`: a scan of `dir` (which records paths and hands out ids, and
/// whose entries at the depth below `found` are, by path, the kept entries
/// of a listing that `read` gave) yields entries `v`; each of them is put
/// in the tree, first to last, and then `found`, marked read with `v`'s
/// number as its child count.
pub open spec fn loaded_from<F: Fn(&str) -> Result<Vec<DiskEntry>, String>>(
    read: &F,
    dir: &str,
    old: FileTreeView,
    found: FileTreeEntry,
    fin: FileTreeView,
) -> bool {
    exists|scanned: FileTreeView, v: Seq<FileTreeEntry>|
        #![trigger upserted_all(scanned, v)]
        scanned == (FileTreeView { index: scanned.index, next_id: scanned.next_id, ..old })
            && scanned_from_listing(read, dir, v, old.config, (found.depth + 1) as usize)
            && fin == upserted(upserted_all(scanned, v), marked_loaded(found, v.len() as usize))
}

/// Whether the tree records `e`'s path under `e`'s id and holds `e` marked
/// as read.
pub open spec fn recorded_loaded(t: FileTreeView, e: FileTreeEntry) -> bool {
    &&& id_of_path(t.index, e.path@) == Some(e.id)
    &&& exists|c: usize| t.entries.contains(#[trigger] marked_loaded(e, c))
}

/// Whether `e` is how a scan of `dir` through `read` can fail: the reader's
/// message for `dir`, or every entry id handed out.
pub open spec fn scan_failure<F: Fn(&str) -> Result<Vec<DiskEntry>, String>>(
    read: &F,
    dir: &str,
    e: FileTreeError,
    next_id: u64,
) -> bool {
    match e {
        FileTreeError::Read(m) => read.ensures((dir,), Err::<Vec<DiskEntry>, String>(m)),
        FileTreeError::IdsExhausted => next_id == u64::MAX,
        _ => false,
    }
}

/// Whether a scan of `dir` through `read` can fail: the reader can refuse
/// it, or every entry id is handed out.
pub open spec fn scan_can_fail<F: Fn(&str) -> Result<Vec<DiskEntry>, String>>(read: &F, dir: &str, next_id: u64) -> bool {
    (exists|m: String| read.ensures((dir,), Err::<Vec<DiskEntry>, String>(m))) || next_id == u64::MAX
}

/// Whether `read` can answer `dir` with a listing whose kept entries are,
/// by path, exactly the entries of `v` at `depth`.
pub open spec fn scanned_from_listing<F: Fn(&str) -> Result<Vec<DiskEntry>, String>>(
    read: &F,
    dir: &str,
    v: Seq<FileTreeEntry>,
    config: FileTreeConfig,
    depth: usize,
) -> bool {
    exists|listing: Vec<DiskEntry>|
        read.ensures((dir,), Ok::<Vec<DiskEntry>, String>(listing)) && listed_at_depth(v, listing@, config, depth)
}

/// A deeper entry added after the others keeps the entries at `depth` as
/// they were.
proof fn lemma_listed_push_deeper(v: Seq<FileTreeEntry>, listing: Seq<DiskEntry>, config: FileTreeConfig, depth: usize, c: FileTreeEntry)
    requires
        listed_at_depth(v, listing, config, depth),
        c.depth != depth,
    ensures
        listed_at_depth(v.push(c), listing, config, depth),
{
    reveal(listed_at_depth);
    let w = v.push(c);
    assert forall|k: int| 0 <= k < w.len() && (#[trigger] w[k]).depth == depth implies exists|j: int|
        0 <= j < listing.len() && !scan_skips(config, (#[trigger] listing[j]).path@) && listing[j].path@ == w[k].path@ by {
        assert(w[k] == v[k]);
    }
    assert forall|j: int| 0 <= j < listing.len() && !scan_skips(config, (#[trigger] listing[j]).path@) implies exists|k: int|
        0 <= k < w.len() && (#[trigger] w[k]).depth == depth && w[k].path@ == listing[j].path@ by {
        let k = choose|k: int| 0 <= k < v.len() && (#[trigger] v[k]).depth == depth && v[k].path@ == listing[j].path@;
        assert(w[k] == v[k]);
    }
}

/// A listed entry that the scan passes over leaves the entries as they
/// were.
proof fn lemma_listed_skip(v: Seq<FileTreeEntry>, listing: Seq<DiskEntry>, config: FileTreeConfig, depth: usize, n: int)
    requires
        0 <= n < listing.len(),
        listed_at_depth(v, listing.take(n), config, depth),
        scan_skips(config, listing[n].path@),
    ensures
        listed_at_depth(v, listing.take(n + 1), config, depth),
{
    reveal(listed_at_depth);
    let a = listing.take(n);
    let b = listing.take(n + 1);
    assert forall|k: int| 0 <= k < v.len() && (#[trigger] v[k]).depth == depth implies exists|j: int|
        0 <= j < b.len() && !scan_skips(config, (#[trigger] b[j]).path@) && b[j].path@ == v[k].path@ by {
        let j = choose|j: int| 0 <= j < a.len() && !scan_skips(config, (#[trigger] a[j]).path@) && a[j].path@ == v[k].path@;
        assert(b[j] == a[j]);
    }
    assert forall|j: int| 0 <= j < b.len() && !scan_skips(config, (#[trigger] b[j]).path@) implies exists|k: int|
        0 <= k < v.len() && (#[trigger] v[k]).depth == depth && v[k].path@ == b[j].path@ by {
        assert(b[j] == a[j]);
    }
}

/// A kept listed entry added as an entry at `depth` extends the
/// correspondence by one listed entry.
proof fn lemma_listed_push_entry(v: Seq<FileTreeEntry>, listing: Seq<DiskEntry>, config: FileTreeConfig, depth: usize, n: int, e: FileTreeEntry)
    requires
        0 <= n < listing.len(),
        listed_at_depth(v, listing.take(n), config, depth),
        !scan_skips(config, listing[n].path@),
        e.depth == depth,
        e.path@ == listing[n].path@,
    ensures
        listed_at_depth(v.push(e), listing.take(n + 1), config, depth),
{
    reveal(listed_at_depth);
    let a = listing.take(n);
    let b = listing.take(n + 1);
    let w = v.push(e);
    assert forall|k: int| 0 <= k < w.len() && (#[trigger] w[k]).depth == depth implies exists|j: int|
        0 <= j < b.len() && !scan_skips(config, (#[trigger] b[j]).path@) && b[j].path@ == w[k].path@ by {
        if k == v.len() {
            assert(b[n] == listing[n]);
        } else {
            assert(w[k] == v[k]);
            let j = choose|j: int| 0 <= j < a.len() && !scan_skips(config, (#[trigger] a[j]).path@) && a[j].path@ == v[k].path@;
            assert(b[j] == a[j]);
        }
    }
    assert forall|j: int| 0 <= j < b.len() && !scan_skips(config, (#[trigger] b[j]).path@) implies exists|k: int|
        0 <= k < w.len() && (#[trigger] w[k]).depth == depth && w[k].path@ == b[j].path@ by {
        if j == n {
            assert(w[v.len() as int] == e);
        } else {
            assert(b[j] == a[j]);
            let k = choose|k: int| 0 <= k < v.len() && (#[trigger] v[k]).depth == depth && v[k].path@ == a[j].path@;
            assert(w[k] == v[k]);
        }
    }
}

/// Entries with the same elements correspond to a listing alike.
proof fn lemma_listed_permuted(v: Seq<FileTreeEntry>, w: Seq<FileTreeEntry>, listing: Seq<DiskEntry>, config: FileTreeConfig, depth: usize)
    requires
        listed_at_depth(v, listing, config, depth),
        v.to_multiset() == w.to_multiset(),
    ensures
        listed_at_depth(w, listing, config, depth),
{
    reveal(listed_at_depth);
    assert forall|k: int| 0 <= k < w.len() && (#[trigger] w[k]).depth == depth implies exists|j: int|
        0 <= j < listing.len() && !scan_skips(config, (#[trigger] listing[j]).path@) && listing[j].path@ == w[k].path@ by {
        assert(w.contains(w[k]));
        assert(w.to_multiset().count(w[k]) > 0);
        assert(v.contains(w[k]));
        let i = choose|i: int| 0 <= i < v.len() && v[i] == w[k];
        assert(v[i].depth == depth);
    }
    assert forall|j: int| 0 <= j < listing.len() && !scan_skips(config, (#[trigger] listing[j]).path@) implies exists|k: int|
        0 <= k < w.len() && (#[trigger] w[k]).depth == depth && w[k].path@ == listing[j].path@ by {
        let i = choose|i: int| 0 <= i < v.len() && (#[trigger] v[i]).depth == depth && v[i].path@ == listing[j].path@;
        assert(v.contains(v[i]));
        assert(v.to_multiset().count(v[i]) > 0);
        assert(w.contains(v[i]));
        let k = choose|k: int| 0 <= k < w.len() && w[k] == v[i];
        assert(w[k].depth == depth);
    }
}

impl FileTree {
    /// A tree of `root_path` that has read nothing yet; ids start at one.
    pub fn new(root_path: String, config: FileTreeConfig) -> (r: FileTree)
        ensures
            r@.well_formed(),
            r@ == (FileTreeView {
                root: root_path@,
                entries: Seq::empty(),
                index: Seq::empty(),
                expanded: Seq::empty(),
                config,
                next_id: 1,
                is_loaded: false,
            }),
    {
        let r = FileTree {
            root_path,
            entries: Vec::new(),
            path_to_id: Vec::new(),
            expanded_dirs: Vec::new(),
            config,
            next_id: 1,
            is_loaded: false,
        };
        assert(index_view(r.path_to_id@) =~= Seq::<(Seq<char>, FileTreeEntryId)>::empty());
        assert(path_texts(r.expanded_dirs@) =~= Seq::<Seq<char>>::empty());
        r
    }

    /// The root directory.
    pub fn root_path(&self) -> (r: &String)
        ensures
            r@ == self@.root,
    {
        &self.root_path
    }

    /// The configuration.
    pub fn config(&self) -> (r: FileTreeConfig)
        ensures
            r == self@.config,
    {
        self.config
    }

    /// Every entry, in path order.
    pub fn entries(&self) -> (r: &Vec<FileTreeEntry>)
        ensures
            r@ == self@.entries,
    {
        &self.entries
    }

    /// The shown entries, in path order.
    pub fn visible_entries(&self) -> (r: Vec<FileTreeEntry>)
        ensures
            r@ == keep_where(self@.entries, |e: FileTreeEntry| e.is_visible),
    {
        let mut out: Vec<FileTreeEntry> = Vec::new();
        let mut i: usize = self.entries.len();
        let ghost s = self.entries@;
        assert(s.skip(s.len() as int) =~= Seq::<FileTreeEntry>::empty());
        while i > 0
            invariant
                i <= s.len(),
                s == self.entries@,
                out@ == keep_where(s.skip(i as int), |e: FileTreeEntry| e.is_visible),
            decreases i,
        {
            assert(s.skip(i - 1).drop_first() =~= s.skip(i as int));
            assert(s.skip(i - 1)[0] == s[i - 1]);
            if self.entries[i - 1].is_visible {
                let e = copy_entry(&self.entries[i - 1]);
                let ghost prev = out@;
                out.insert(0, e);
                assert(out@ =~= seq![e] + prev);
            }
            i = i - 1;
        }
        assert(s.skip(0) =~= s);
        out
    }

    /// The first entry with the given id, if any.
    pub fn entry_by_id(&self, id: FileTreeEntryId) -> (r: Option<FileTreeEntry>)
        ensures
            r == first_with_id(self@.entries, id),
    {
        let ghost s = self.entries@;
        let mut i: usize = 0;
        assert(s.skip(0) =~= s);
        while i < self.entries.len()
            invariant
                i <= s.len(),
                s == self.entries@,
                first_with_id(s, id) == first_with_id(s.skip(i as int), id),
            decreases s.len() - i,
        {
            assert(s.skip(i as int)[0] == s[i as int]);
            if self.entries[i].id.0 == id.0 {
                return Some(copy_entry(&self.entries[i]));
            }
            assert(s.skip(i as int).drop_first() =~= s.skip(i + 1));
            i = i + 1;
        }
        None
    }

    /// The entry recorded for a path, if any.
    pub fn entry_by_path(&self, path: &str) -> (r: Option<FileTreeEntry>)
        ensures
            r == match id_of_path(self@.index, path@) {
                Some(id) => first_with_id(self@.entries, id),
                None => None,
            },
    {
        match find_path(&self.path_to_id, path) {
            Some(i) => {
                assert(index_view(self.path_to_id@)[i as int].1 == self.path_to_id@[i as int].1);
                self.entry_by_id(self.path_to_id[i].1)
            },
            None => None,
        }
    }

    /// Whether a directory is expanded.
    pub fn is_expanded(&self, path: &str) -> (r: bool)
        ensures
            r == among_paths(self@.expanded, path@),
    {
        let ghost ds = path_texts(self.expanded_dirs@);
        let mut i: usize = 0;
        while i < self.expanded_dirs.len()
            invariant
                i <= self.expanded_dirs@.len(),
                ds == path_texts(self.expanded_dirs@),
                forall|k: int| 0 <= k < i ==> !same_path(ds[k], path@),
            decreases self.expanded_dirs.len() - i,
        {
            assert(ds[i as int] == self.expanded_dirs@[i as int]@);
            if same_path_exec(self.expanded_dirs[i].as_str(), path) {
                return true;
            }
            i = i + 1;
        }
        false
    }

    /// Removes every entry with the given id, giving back the last one.
    pub fn remove_entry_by_id(&mut self, id: FileTreeEntryId) -> (r: Option<FileTreeEntry>)
        requires
            old(self)@.well_formed(),
        ensures
            final(self)@.well_formed(),
            final(self)@ == (FileTreeView { entries: keep_where(old(self)@.entries, other_id(id)), ..old(self)@ }),
            r == last_with_id(old(self)@.entries, id),
    {
        remove_with_id(&mut self.entries, id)
    }

    /// Adds an entry, or replaces the entry recorded for its path: the old
    /// one leaves, the path is recorded with the entry's id, and the entry
    /// takes its place in path order.
    pub fn upsert_entry(&mut self, entry: FileTreeEntry)
        requires
            old(self)@.well_formed(),
        ensures
            final(self)@.well_formed(),
            final(self)@ == (FileTreeView {
                entries: insert_sorted(upsert_base(old(self)@, entry), entry),
                index: with_path(old(self)@.index, entry.path@, entry.id),
                ..old(self)@
            }),
    {
        let ghost ov = index_view(self.path_to_id@);
        match find_path(&self.path_to_id, entry.path.as_str()) {
            Some(i) => {
                let existing = self.path_to_id[i].1;
                assert(ov[i as int].1 == existing);
                remove_with_id(&mut self.entries, existing);
                let p = entry.path.clone();
                self.path_to_id.set(i, (p, entry.id));
                assert(index_view(self.path_to_id@) =~= ov.update(i as int, (entry.path@, entry.id)));
            },
            None => {
                let p = entry.path.clone();
                self.path_to_id.push((p, entry.id));
                assert(index_view(self.path_to_id@) =~= ov.push((entry.path@, entry.id)));
            },
        }
        insert_in_order(&mut self.entries, entry);
    }

    /// Forgets the entry recorded for a path, giving back the last entry
    /// with its id; nothing changes for a path not recorded.
    pub fn remove_entry(&mut self, path: &str) -> (r: Option<FileTreeEntry>)
        requires
            old(self)@.well_formed(),
        ensures
            final(self)@.well_formed(),
            ({
                let o = old(self)@;
                match id_of_path(o.index, path@) {
                    Some(id) => {
                        &&& final(self)@ == (FileTreeView {
                            entries: keep_where(o.entries, other_id(id)),
                            index: without_path(o.index, path@),
                            ..o
                        })
                        &&& r == last_with_id(o.entries, id)
                    },
                    None => final(self)@ == o && r is None,
                }
            }),
    {
        let ghost ov = index_view(self.path_to_id@);
        match find_path(&self.path_to_id, path) {
            Some(i) => {
                let (_, id) = self.path_to_id.remove(i);
                assert(ov[i as int].1 == id);
                assert(index_view(self.path_to_id@) =~= ov.remove(i as int));
                remove_with_id(&mut self.entries, id)
            },
            None => None,
        }
    }

    /// Hides every entry below a directory (the directory itself stays).
    pub fn hide_children(&mut self, dir_path: &str)
        requires
            old(self)@.well_formed(),
        ensures
            final(self)@.well_formed(),
            final(self)@ == (FileTreeView { entries: children_hidden(old(self)@.entries, dir_path@), ..old(self)@ }),
    {
        let mut es: Vec<FileTreeEntry> = Vec::new();
        std::mem::swap(&mut es, &mut self.entries);
        let ghost s = es@;
        let mut i: usize = 0;
        while i < es.len()
            invariant
                i <= s.len(),
                es@.len() == s.len(),
                forall|k: int| 0 <= k < i ==> es@[k] == children_hidden(s, dir_path@)[k],
                forall|k: int| i <= k < s.len() ==> es@[k] == s[k],
            decreases s.len() - i,
        {
            let inside = path_within_exec(es[i].path.as_str(), dir_path)
                && !same_path_exec(es[i].path.as_str(), dir_path);
            if inside {
                let mut e = es.remove(i);
                e.is_visible = false;
                es.insert(i, e);
            }
            i = i + 1;
        }
        assert(es@ =~= children_hidden(s, dir_path@));
        assert forall|a: int, b: int| 0 <= a < b < es@.len() implies path_le(es@[a].path@, es@[b].path@) by {
            assert(es@[a].path == s[a].path && es@[b].path == s[b].path);
        }
        self.entries = es;
    }

    /// Whether an entry is shown under the current configuration and expansion.
    pub fn should_be_visible(&self, entry: &FileTreeEntry) -> (r: bool)
        ensures
            r == shown(self@.config, self@.root, self@.expanded, *entry),
    {
        if entry.is_hidden && !self.config.show_hidden {
            return false;
        }
        if entry.is_ignored && !self.config.show_ignored {
            return false;
        }
        let mut comps = components_of(entry.path.as_str());
        let ghost c = comps@.map_values(|x: Vec<char>| x@);
        let n = comps.len();
        if n == 0 || comps[n - 1].len() == 0 {
            assert(c.len() == 0 || c.last().len() == 0);
            return true;
        }
        comps.pop();
        let ghost pc = comps@.map_values(|x: Vec<char>| x@);
        assert(pc =~= c.drop_last());
        assert(parent_components(entry.path@) == Some(pc));
        let root = components_of(self.root_path.as_str());
        if components_equal(&comps, &root) {
            return true;
        }
        let ghost ds = path_texts(self.expanded_dirs@);
        let mut i: usize = 0;
        while i < self.expanded_dirs.len()
            invariant
                i <= self.expanded_dirs@.len(),
                ds == path_texts(self.expanded_dirs@),
                pc == comps@.map_values(|x: Vec<char>| x@),
                parent_components(entry.path@) == Some(pc),
                !(entry.is_hidden && !self.config.show_hidden),
                !(entry.is_ignored && !self.config.show_ignored),
                forall|k: int| 0 <= k < i ==> path_components(ds[k]) != pc,
            decreases self.expanded_dirs.len() - i,
        {
            assert(ds[i as int] == self.expanded_dirs@[i as int]@);
            let dc = components_of(self.expanded_dirs[i].as_str());
            if components_equal(&dc, &comps) {
                assert(path_components(ds[i as int]) == pc);
                assert(exists|k: int| 0 <= k < ds.len() && path_components(ds[k]) == pc);
                return true;
            }
            i = i + 1;
        }
        false
    }

    /// Works out every entry's visibility again.
    pub fn refresh_visibility(&mut self)
        requires
            old(self)@.well_formed(),
        ensures
            final(self)@.well_formed(),
            final(self)@ == (FileTreeView {
                entries: visibility_refreshed(old(self)@.entries, old(self)@.config, old(self)@.root, old(self)@.expanded),
                ..old(self)@
            }),
    {
        let ghost o = self@;
        let mut es: Vec<FileTreeEntry> = Vec::new();
        std::mem::swap(&mut es, &mut self.entries);
        let ghost s = es@;
        let mut i: usize = 0;
        while i < es.len()
            invariant
                i <= s.len(),
                es@.len() == s.len(),
                self.root_path@ == o.root,
                self.config == o.config,
                path_texts(self.expanded_dirs@) == o.expanded,
                forall|k: int| 0 <= k < i ==> es@[k] == visibility_refreshed(s, o.config, o.root, o.expanded)[k],
                forall|k: int| i <= k < s.len() ==> es@[k] == s[k],
            decreases s.len() - i,
        {
            let visible = self.should_be_visible(&es[i]);
            let mut e = es.remove(i);
            e.is_visible = visible;
            es.insert(i, e);
            i = i + 1;
        }
        assert(es@ =~= visibility_refreshed(s, o.config, o.root, o.expanded));
        assert forall|a: int, b: int| 0 <= a < b < es@.len() implies path_le(es@[a].path@, es@[b].path@) by {
            assert(es@[a].path == s[a].path && es@[b].path == s[b].path);
        }
        self.entries = es;
    }

    /// Sets the configuration and works out every entry's visibility again.
    pub fn set_config(&mut self, config: FileTreeConfig)
        requires
            old(self)@.well_formed(),
        ensures
            final(self)@.well_formed(),
            final(self)@ == (FileTreeView {
                config,
                entries: visibility_refreshed(old(self)@.entries, config, old(self)@.root, old(self)@.expanded),
                ..old(self)@
            }),
    {
        self.config = config;
        self.refresh_visibility();
    }

    /// Reads a directory through `read` and gives its entries in path
    /// order, reading subdirectories too while `current_depth` is below
    /// `max_depth`. Hidden entries are skipped unless shown; each entry gets
    /// the next id, its depth and its visibility, and its path is recorded
    /// with its id. A directory whose subdirectories were read counts the
    /// entries gathered so far as its children. A failed read of a
    /// subdirectory is passed over; a failed read of `dir_path` fails with
    /// the reader's message. The entries come back in path order, their ids
    /// handed out by this scan and none above `current_depth`, and those at
    /// `current_depth` are, by path, the kept entries of a listing that
    /// `read` gave for `dir_path`; of the deeper entries only their depth is
    /// stated.
    pub fn scan_directory<F: Fn(&str) -> Result<Vec<DiskEntry>, String>>(
        &mut self,
        dir_path: &str,
        current_depth: usize,
        max_depth: usize,
        read: &F,
    ) -> (r: Result<Vec<FileTreeEntry>, FileTreeError>)
        requires
            old(self)@.well_formed(),
            forall|p: &str| read.requires((p,)),
            max_depth < usize::MAX,
        ensures
            final(self)@.well_formed(),
            final(self)@.root == old(self)@.root,
            final(self)@.entries == old(self)@.entries,
            final(self)@.expanded == old(self)@.expanded,
            final(self)@.config == old(self)@.config,
            final(self)@.is_loaded == old(self)@.is_loaded,
            final(self)@.next_id >= old(self)@.next_id,
            r matches Ok(v) ==> sorted_by_path(v@) && scanned_within(v@, old(self)@.next_id, final(self)@.next_id, current_depth),
            r matches Ok(v) ==> scanned_from_listing(read, dir_path, v@, old(self)@.config, current_depth),
            r matches Err(FileTreeError::Read(m)) ==> read.ensures((dir_path,), Err::<Vec<DiskEntry>, String>(m)),
            r matches Err(e) ==> e is Read || (e is IdsExhausted && final(self)@.next_id == u64::MAX),
        decreases max_depth - current_depth,
    {
        let answer = read(dir_path);
        let ghost got = answer;
        let listing = match answer {
            Ok(l) => l,
            Err(m) => {
                return Err(FileTreeError::Read(m));
            },
        };
        let ghost all = listing@;
        let ghost listing_value = listing;
        assert(got == Ok::<Vec<DiskEntry>, String>(listing_value));
        assert(all.take(0) =~= Seq::<DiskEntry>::empty());
        assert(all.len() == listing.len());
        let mut taken: usize = 0;
        let start = self.next_id;
        let ghost o = self@;
        let mut entries: Vec<FileTreeEntry> = Vec::new();
        let mut rest = listing;
        assert(listed_at_depth(entries@, all.take(0), o.config, current_depth)) by {
            reveal(listed_at_depth);
        }
        while rest.len() > 0
            invariant
                self@.well_formed(),
                o == old(self)@,
                self@.root == o.root,
                self@.entries == o.entries,
                self@.expanded == o.expanded,
                self@.config == o.config,
                self@.is_loaded == o.is_loaded,
                start == o.next_id,
                self.next_id >= start,
                scanned_within(entries@, start, self.next_id, current_depth),
                forall|p: &str| read.requires((p,)),
                max_depth < usize::MAX,
                all.len() <= usize::MAX,
                taken <= all.len(),
                rest@ == all.skip(taken as int),
                listing_value@ == all,
                read.ensures((dir_path,), Ok::<Vec<DiskEntry>, String>(listing_value)),
                listed_at_depth(entries@, all.take(taken as int), o.config, current_depth),
            decreases rest.len(),
        {
            let ghost rest_before = rest@;
            let item = rest.remove(0);
            proof {
                assert(rest_before[0] == item);
                assert(all[taken as int] == item);
                assert(rest@ =~= all.skip(taken + 1));
            }
            if !self.config.show_hidden && hidden_file_name(file_name_of(item.path.as_str())) {
                proof {
                    lemma_listed_skip(entries@, all, o.config, current_depth, taken as int);
                }
                taken = taken + 1;
                continue;
            }
            if self.next_id == u64::MAX {
                return Err(FileTreeError::IdsExhausted);
            }
            let id = FileTreeEntryId(self.next_id);
            self.next_id = self.next_id + 1;
            let ghost before_kind = self.next_id;
            let mut file_entry = match item.kind {
                DiskKind::Directory => {
                    let mut dir_entry = FileTreeEntry::new_directory(id, item.path.clone(), item.mtime);
                    dir_entry.depth = current_depth;
                    if current_depth < max_depth {
                        match self.scan_directory(item.path.as_str(), current_depth + 1, max_depth, read) {
                            Ok(children) => {
                                let mut children = children;
                                while children.len() > 0
                                    invariant
                                        scanned_within(entries@, start, self.next_id, current_depth),
                                        scanned_within(children@, start, self.next_id, current_depth),
                                        forall|k: int| 0 <= k < children@.len() ==> (#[trigger] children@[k]).depth > current_depth,
                                        listed_at_depth(entries@, all.take(taken as int), o.config, current_depth),
                                    decreases children.len(),
                                {
                                    let ghost cb = children@;
                                    let c = children.remove(0);
                                    assert(cb[0] == c);
                                    proof {
                                        lemma_listed_push_deeper(entries@, all.take(taken as int), o.config, current_depth, c);
                                        assert forall|k: int| 0 <= k < children@.len() implies (#[trigger] children@[k]).depth > current_depth by {
                                            assert(children@[k] == cb[k + 1]);
                                        }
                                    }
                                    assert(scanned_within(children@, start, self.next_id, current_depth)) by {
                                        assert forall|k: int| 0 <= k < children@.len() implies start <= (#[trigger] children@[k]).id.0 < self.next_id && children@[k].depth >= current_depth by {
                                            assert(children@[k] == cb[k + 1]);
                                        }
                                    }
                                    let ghost eb = entries@;
                                    entries.push(c);
                                    assert forall|k: int| 0 <= k < entries@.len() implies start <= (#[trigger] entries@[k]).id.0 < self.next_id && entries@[k].depth >= current_depth by {
                                        if k < eb.len() {
                                            assert(entries@[k] == eb[k]);
                                        }
                                    }
                                }
                                dir_entry.kind = FileKind::Directory { is_loaded: true, child_count: entries.len() };
                            },
                            Err(_) => {},
                        }
                    }
                    dir_entry
                },
                DiskKind::File { size } => {
                    let mut e = FileTreeEntry::new_file(id, item.path.clone(), size, item.mtime);
                    e.depth = current_depth;
                    e
                },
                DiskKind::Other { target, target_exists } => {
                    let mut e = FileTreeEntry::new_symlink(id, item.path.clone(), target, target_exists, item.mtime);
                    e.depth = current_depth;
                    e
                },
            };
            file_entry.is_visible = self.should_be_visible(&file_entry);
            record_path(&mut self.path_to_id, item.path, id);
            let ghost eb = entries@;
            proof {
                lemma_listed_push_entry(eb, all, o.config, current_depth, taken as int, file_entry);
            }
            entries.push(file_entry);
            assert forall|k: int| 0 <= k < entries@.len() implies start <= (#[trigger] entries@[k]).id.0 < self.next_id && entries@[k].depth >= current_depth by {
                if k < eb.len() {
                    assert(entries@[k] == eb[k]);
                }
            }
            taken = taken + 1;
        }
        assert(all.take(taken as int) =~= all);
        let ghost unsorted = entries@;
        let sorted = sort_by_path(entries, start, self.next_id, current_depth);
        proof {
            lemma_listed_permuted(unsorted, sorted@, all, o.config, current_depth);
            assert(read.ensures((dir_path,), Ok::<Vec<DiskEntry>, String>(listing_value))
                && listed_at_depth(sorted@, listing_value@, o.config, current_depth));
            assert(scanned_from_listing(read, dir_path, sorted@, o.config, current_depth));
        }
        Ok(sorted)
    }

    /// Reads the tree from the root down to the configured depth, once.
    pub fn load<F: Fn(&str) -> Result<Vec<DiskEntry>, String>>(&mut self, read: &F) -> (r: Result<(), FileTreeError>)
        requires
            old(self)@.well_formed(),
            forall|p: &str| read.requires((p,)),
            old(self)@.config.initial_depth < usize::MAX,
        ensures
            final(self)@.well_formed(),
            old(self)@.is_loaded ==> final(self)@ == old(self)@ && r is Ok,
            !old(self)@.is_loaded ==> (r is Ok <==> final(self)@.is_loaded),
            final(self)@.root == old(self)@.root,
            final(self)@.config == old(self)@.config,
            final(self)@.expanded == old(self)@.expanded,
    {
        if self.is_loaded {
            return Ok(());
        }
        let root = self.root_path.clone();
        let depth = self.config.initial_depth;
        match self.scan_directory(root.as_str(), 0, depth, read) {
            Ok(entries) => {
                self.entries = entries;
                self.is_loaded = true;
                Ok(())
            },
            Err(e) => Err(e),
        }
    }

    /// Forgets every entry and id, then reads the tree again.
    pub fn refresh<F: Fn(&str) -> Result<Vec<DiskEntry>, String>>(&mut self, read: &F) -> (r: Result<(), FileTreeError>)
        requires
            old(self)@.well_formed(),
            forall|p: &str| read.requires((p,)),
            old(self)@.config.initial_depth < usize::MAX,
        ensures
            final(self)@.well_formed(),
            r is Ok <==> final(self)@.is_loaded,
            final(self)@.root == old(self)@.root,
            final(self)@.config == old(self)@.config,
            final(self)@.expanded == old(self)@.expanded,
    {
        self.entries = Vec::new();
        self.path_to_id = Vec::new();
        self.next_id = 1;
        self.is_loaded = false;
        self.load(read)
    }

    /// Reads the children of a directory that has an entry and adds them,
    /// marking the directory read with their number; nothing happens for a
    /// path without an entry. When the read succeeds the entry, marked read,
    /// is recorded again under its path; when it fails the entries stay and
    /// the scan's failure is given back.
    pub fn load_directory<F: Fn(&str) -> Result<Vec<DiskEntry>, String>>(&mut self, dir_path: &str, read: &F) -> (r: Result<(), FileTreeError>)
        requires
            old(self)@.well_formed(),
            forall|p: &str| read.requires((p,)),
            forall|k: int| 0 <= k < old(self)@.entries.len() ==> (#[trigger] old(self)@.entries[k]).depth < usize::MAX - 2,
        ensures
            final(self)@.well_formed(),
            final(self)@.root == old(self)@.root,
            final(self)@.config == old(self)@.config,
            final(self)@.expanded == old(self)@.expanded,
            (match id_of_path(old(self)@.index, dir_path@) {
                Some(id) => first_with_id(old(self)@.entries, id),
                None => None,
            }) is None ==> final(self)@ == old(self)@ && r is Ok,
            r is Ok ==> match (match id_of_path(old(self)@.index, dir_path@) {
                Some(id) => first_with_id(old(self)@.entries, id),
                None => None,
            }) {
                Some(e) => recorded_loaded(final(self)@, e) && loaded_from(read, dir_path, old(self)@, e, final(self)@),
                None => true,
            },
            r matches Err(err) ==> final(self)@.entries == old(self)@.entries && scan_failure(
                read,
                dir_path,
                err,
                final(self)@.next_id,
            ),
            load_outcome(read, dir_path, old(self)@, final(self)@, r),
    {
        match self.entry_by_path(dir_path) {
            Some(entry) => {
                proof {
                    let id = id_of_path(self@.index, dir_path@)->Some_0;
                    lemma_first_with_id_in(self@.entries, id);
                    let k = choose|k: int| 0 <= k < self@.entries.len() && self@.entries[k] == entry;
                    assert(self@.entries[k].depth < usize::MAX - 2);
                }
                let ghost found = entry;
                let ghost o = self@;
                let mut entry = entry;
                let children = match self.scan_directory(dir_path, entry.depth + 1, entry.depth + 2, read) {
                    Ok(c) => c,
                    Err(e) => {
                        return Err(e);
                    },
                };
                match entry.kind {
                    FileKind::Directory { .. } => {
                        entry.kind = FileKind::Directory { is_loaded: true, child_count: children.len() };
                    },
                    _ => {},
                }
                assert(entry == marked_loaded(found, children.len()));
                let ghost count = children.len();
                let ghost scanned = self@;
                let ghost v = children@;
                assert(v.len() == children.len());
                assert(scanned == (FileTreeView { index: scanned.index, next_id: scanned.next_id, ..o }));
                assert(v.take(0) =~= Seq::<FileTreeEntry>::empty());
                let mut children = children;
                let mut taken: usize = 0;
                while children.len() > 0
                    invariant
                        self@.well_formed(),
                        self@.root == old(self)@.root,
                        self@.config == old(self)@.config,
                        self@.expanded == old(self)@.expanded,
                        taken <= v.len(),
                        v.len() <= usize::MAX,
                        children@ == v.skip(taken as int),
                        self@ == upserted_all(scanned, v.take(taken as int)),
                    decreases children.len(),
                {
                    let ghost rest = children@;
                    let child = children.remove(0);
                    proof {
                        assert(rest[0] == child);
                        assert(v[taken as int] == child);
                        assert(children@ =~= v.skip(taken + 1));
                        assert(v.take(taken + 1).drop_last() =~= v.take(taken as int));
                        assert(v.take(taken + 1).last() == child);
                    }
                    self.upsert_entry(child);
                    taken = taken + 1;
                }
                assert(v.take(taken as int) =~= v);
                let ghost before = self@;
                self.upsert_entry(entry);
                assert(self@ == upserted(upserted_all(scanned, v), marked_loaded(found, v.len() as usize)));
                assert(loaded_from(read, dir_path, o, found, self@));
                proof {
                    lemma_id_of_path_after_with_path(before.index, entry.path@, entry.id);
                    let base = upsert_base(before, entry);
                    lemma_leading_before_len(base, entry);
                    let pos = leading_before(base, entry) as int;
                    assert(self@.entries[pos] == entry);
                    assert(self@.entries.contains(marked_loaded(found, count)));
                    assert(id_of_path(self@.index, found.path@) == Some(found.id));
                    assert(recorded_loaded(self@, found));
                }
                Ok(())
            },
            None => Ok(()),
        }
    }

    /// Expands a collapsed directory (reading its children) or collapses an
    /// expanded one (recording it collapsed and hiding every entry below it),
    /// telling whether it is now expanded. A path without an entry, or whose entry is not a
    /// directory, is refused.
    pub fn toggle_directory<F: Fn(&str) -> Result<Vec<DiskEntry>, String>>(&mut self, path: &str, read: &F) -> (r: Result<bool, FileTreeError>)
        requires
            old(self)@.well_formed(),
            forall|p: &str| read.requires((p,)),
            forall|k: int| 0 <= k < old(self)@.entries.len() ==> (#[trigger] old(self)@.entries[k]).depth < usize::MAX - 2,
        ensures
            final(self)@.well_formed(),
            ({
                let o = old(self)@;
                let found = match id_of_path(o.index, path@) {
                    Some(id) => first_with_id(o.entries, id),
                    None => None,
                };
                match found {
                    None => r == Err::<bool, FileTreeError>(FileTreeError::NotFound) && final(self)@ == o,
                    Some(entry) => if !(entry.kind is Directory) {
                        r == Err::<bool, FileTreeError>(FileTreeError::NotADirectory) && final(self)@ == o
                    } else if among_paths(o.expanded, path@) {
                        let collapsed = FileTreeEntry { is_expanded: false, ..entry };
                        &&& r == Ok::<bool, FileTreeError>(false)
                        &&& !among_paths(final(self)@.expanded, path@)
                        &&& final(self)@.entries == children_hidden(
                            insert_sorted(upsert_base(o, collapsed), collapsed),
                            path@,
                        )
                        &&& final(self)@.index == with_path(o.index, entry.path@, entry.id)
                        &&& final(self)@.next_id == o.next_id
                    } else {
                        let opened = FileTreeEntry { is_expanded: true, ..entry };
                        let mid = upserted(FileTreeView { expanded: o.expanded.push(path@), ..o }, opened);
                        &&& among_paths(final(self)@.expanded, path@)
                        &&& (r is Ok ==> r == Ok::<bool, FileTreeError>(true))
                        &&& (r matches Err(err) ==> scan_failure(read, path, err, final(self)@.next_id))
                        &&& mid.entries.contains(opened)
                        &&& load_outcome(read, path, mid, final(self)@, match r {
                            Ok(_) => Ok::<(), FileTreeError>(()),
                            Err(e) => Err::<(), FileTreeError>(e),
                        })
                    },
                }
            }),
    {
        let mut entry = match self.entry_by_path(path) {
            Some(e) => e,
            None => {
                return Err(FileTreeError::NotFound);
            },
        };
        if !entry.is_directory() {
            return Err(FileTreeError::NotADirectory);
        }
        proof {
            let id = id_of_path(self@.index, path@)->Some_0;
            lemma_first_with_id_in(self@.entries, id);
            let k = choose|k: int| 0 <= k < self@.entries.len() && self@.entries[k] == entry;
            assert(self@.entries[k].depth < usize::MAX - 2);
        }
        let expanded = self.is_expanded(path);
        if expanded {
            let ghost o = self@;
            self.forget_expanded(path);
            entry.is_expanded = false;
            let ghost mid = self@;
            assert(upsert_base(mid, entry) == upsert_base(o, entry));
            self.upsert_entry(entry);
            self.hide_children(path);
            Ok(false)
        } else {
            let ghost before = self@.expanded;
            self.expanded_dirs.push(crate::text::owned(path));
            assert(path_texts(self.expanded_dirs@) =~= before.push(path@));
            assert(same_path(self@.expanded[before.len() as int], path@));
            entry.is_expanded = true;
            let ghost mid = self@;
            proof {
                assert forall|k: int| 0 <= k < self@.entries.len() implies (#[trigger] self@.entries[k]).depth < usize::MAX - 2 by {
                    assert(self@.entries[k] == old(self)@.entries[k]);
                }
            }
            assert(mid == (FileTreeView { expanded: old(self)@.expanded.push(path@), ..old(self)@ }));
            self.upsert_entry(entry);
            proof {
                let base = upsert_base(mid, entry);
                lemma_leading_before_len(base, entry);
                assert(self@.entries[leading_before(base, entry) as int] == entry);
                assert(self@.entries.contains(entry));
                lemma_upsert_depths(mid, entry);
                assert forall|k: int| 0 <= k < self@.entries.len() implies (#[trigger] self@.entries[k]).depth < usize::MAX - 2 by {
                    assert(self@.entries[k] == insert_sorted(upsert_base(mid, entry), entry)[k]);
                }
            }
            match self.load_directory(path, read) {
                Ok(()) => Ok(true),
                Err(e) => Err(e),
            }
        }
    }

    fn forget_expanded(&mut self, path: &str)
        requires
            old(self)@.well_formed(),
        ensures
            final(self)@.well_formed(),
            !among_paths(final(self)@.expanded, path@),
            final(self)@ == (FileTreeView { expanded: final(self)@.expanded, ..old(self)@ }),
    {
        let mut kept: Vec<String> = Vec::new();
        let mut i: usize = 0;
        while i < self.expanded_dirs.len()
            invariant
                i <= self.expanded_dirs@.len(),
                forall|k: int| 0 <= k < kept@.len() ==> !same_path(#[trigger] kept@[k]@, path@),
            decreases self.expanded_dirs.len() - i,
        {
            if !same_path_exec(self.expanded_dirs[i].as_str(), path) {
                let p = self.expanded_dirs[i].clone();
                kept.push(p);
            }
            i = i + 1;
        }
        self.expanded_dirs = kept;
        assert forall|k: int| 0 <= k < self@.expanded.len() implies !same_path(self@.expanded[k], path@) by {
            assert(self@.expanded[k] == self.expanded_dirs@[k]@);
        }
    }

    /// Counts of the entries: all, shown, files, directories, their total
    /// size and the greatest depth.
    pub fn stats(&self) -> (r: FileTreeStats)
        requires
            tree_stats(self@.entries).4 <= u64::MAX,
        ensures
            ({
                let (c, v, f, d, size, depth) = tree_stats(self@.entries);
                r == FileTreeStats {
                    total_entries: c as usize,
                    visible_entries: v as usize,
                    file_count: f as usize,
                    directory_count: d as usize,
                    total_size: size as u64,
                    max_depth: depth as usize,
                }
            }),
    {
        let ghost s = self.entries@;
        let mut c: usize = 0;
        let mut v: usize = 0;
        let mut f: usize = 0;
        let mut d: usize = 0;
        let mut size: u64 = 0;
        let mut depth: usize = 0;
        let mut i: usize = 0;
        assert(s.subrange(0, 0) =~= Seq::<FileTreeEntry>::empty());
        while i < self.entries.len()
            invariant
                i <= s.len(),
                s == self.entries@,
                tree_stats(s).4 <= u64::MAX,
                (c as nat, v as nat, f as nat, d as nat, size as nat, depth as nat) == tree_stats(s.subrange(0, i as int)),
                c == i,
                v <= i && f <= i && d <= i,
            decreases s.len() - i,
        {
            assert(s.subrange(0, i + 1).drop_last() =~= s.subrange(0, i as int));
            proof {
                lemma_tree_size_prefix(s, i + 1);
            }
            let e = &self.entries[i];
            c = c + 1;
            if e.is_visible {
                v = v + 1;
            }
            if e.is_file() {
                f = f + 1;
            }
            if e.is_directory() {
                d = d + 1;
            }
            size = size + e.size;
            if e.depth > depth {
                depth = e.depth;
            }
            i = i + 1;
        }
        assert(s.subrange(0, s.len() as int) =~= s);
        FileTreeStats {
            total_entries: c,
            visible_entries: v,
            file_count: f,
            directory_count: d,
            total_size: size,
            max_depth: depth,
        }
    }

    /// How many entries the tree holds.
    pub fn total_count(&self) -> (r: usize)
        ensures
            r == self@.entries.len(),
    {
        self.entries.len()
    }

    /// How many entries are shown.
    pub fn visible_count(&self) -> (r: usize)
        ensures
            r == keep_where(self@.entries, |e: FileTreeEntry| e.is_visible).len(),
    {
        let v = self.visible_entries();
        v.len()
    }
}


proof fn lemma_tree_size_prefix(s: Seq<FileTreeEntry>, n: int)
    requires
        0 <= n <= s.len(),
    ensures
        tree_stats(s.subrange(0, n)).4 <= tree_stats(s).4,
    decreases s.len() - n,
{
    if n < s.len() {
        lemma_tree_size_prefix(s, n + 1);
        assert(s.subrange(0, n + 1).drop_last() =~= s.subrange(0, n));
    } else {
        assert(s.subrange(0, n) =~= s);
    }
}

proof fn lemma_first_with_id_in(s: Seq<FileTreeEntry>, id: FileTreeEntryId)
    ensures
        first_with_id(s, id) matches Some(e) ==> exists|k: int| 0 <= k < s.len() && s[k] == e,
    decreases s.len(),
{
    if s.len() > 0 && s[0].id != id {
        lemma_first_with_id_in(s.drop_first(), id);
        if let Some(e) = first_with_id(s.drop_first(), id) {
            let k = choose|k: int| 0 <= k < s.drop_first().len() && s.drop_first()[k] == e;
            assert(s[k + 1] == e);
        }
    } else if s.len() > 0 {
        assert(s[0] == s[0]);
    }
}

proof fn lemma_upsert_depths(o: FileTreeView, entry: FileTreeEntry)
    requires
        forall|k: int| 0 <= k < o.entries.len() ==> (#[trigger] o.entries[k]).depth < usize::MAX - 2,
        entry.depth < usize::MAX - 2,
    ensures
        forall|k: int| 0 <= k < insert_sorted(upsert_base(o, entry), entry).len()
            ==> (#[trigger] insert_sorted(upsert_base(o, entry), entry)[k]).depth < usize::MAX - 2,
{
    let base = upsert_base(o, entry);
    if let Some(old_id) = id_of_path(o.index, entry.path@) {
        crate::sequences::lemma_keep_where(o.entries, other_id(old_id), |e: FileTreeEntry| e.path@);
        assert forall|k: int| 0 <= k < base.len() implies (#[trigger] base[k]).depth < usize::MAX - 2 by {
            let m = choose|m: int| 0 <= m < o.entries.len() && base[k] == o.entries[m];
            assert(o.entries[m].depth < usize::MAX - 2);
        }
    }
    lemma_leading_before_len(base, entry);
    let pos = leading_before(base, entry) as int;
    let r = insert_sorted(base, entry);
    assert forall|k: int| 0 <= k < r.len() implies (#[trigger] r[k]).depth < usize::MAX - 2 by {
        if k < pos {
            assert(r[k] == base[k]);
        } else if k > pos {
            assert(r[k] == base[k - 1]);
        }
    }
}


proof fn lemma_path_slot(s: Seq<(Seq<char>, FileTreeEntryId)>, p: Seq<char>)
    ensures
        -1 <= path_slot(s, p) < s.len(),
        path_slot(s, p) == -1 ==> forall|k: int| 0 <= k < s.len() ==> !same_path(#[trigger] s[k].0, p),
        path_slot(s, p) >= 0 ==> same_path(s[path_slot(s, p)].0, p)
            && forall|k: int| 0 <= k < path_slot(s, p) ==> !same_path(#[trigger] s[k].0, p),
    decreases s.len(),
{
    if s.len() > 0 && !same_path(s[0].0, p) {
        let t = s.drop_first();
        lemma_path_slot(t, p);
        assert forall|k: int| 1 <= k < s.len() && !same_path(t[k - 1].0, p) implies !same_path(#[trigger] s[k].0, p) by {
            assert(s[k] == t[k - 1]);
        }
        if path_slot(t, p) >= 0 {
            assert(s[path_slot(t, p) + 1] == t[path_slot(t, p)]);
            assert forall|k: int| 0 <= k < path_slot(s, p) implies !same_path(#[trigger] s[k].0, p) by {
                if k > 0 {
                    assert(s[k] == t[k - 1]);
                }
            }
        } else {
            assert forall|k: int| 0 <= k < s.len() implies !same_path(#[trigger] s[k].0, p) by {
                if k > 0 {
                    assert(s[k] == t[k - 1]);
                }
            }
        }
    }
}

proof fn lemma_first_with_id_at(s: Seq<FileTreeEntry>, id: FileTreeEntryId, i: int)
    requires
        0 <= i < s.len(),
        s[i].id == id,
        forall|k: int| 0 <= k < i ==> (#[trigger] s[k]).id != id,
    ensures
        first_with_id(s, id) == Some(s[i]),
    decreases i,
{
    if i > 0 {
        let t = s.drop_first();
        assert forall|k: int| 0 <= k < i - 1 implies (#[trigger] t[k]).id != id by {
            assert(t[k] == s[k + 1]);
        }
        lemma_first_with_id_at(t, id, i - 1);
    }
}

/// After a path is recorded with an id, the path gives that id.
proof fn lemma_id_of_path_after_with_path(index: Seq<(Seq<char>, FileTreeEntryId)>, p: Seq<char>, id: FileTreeEntryId)
    ensures
        id_of_path(with_path(index, p, id), p) == Some(id),
{
    let n = with_path(index, p, id);
    lemma_path_slot(index, p);
    lemma_path_slot(n, p);
    let i = path_slot(index, p);
    if i >= 0 {
        assert(same_path(n[i].0, p));
        assert forall|k: int| 0 <= k < i implies !same_path(#[trigger] n[k].0, p) by {
            assert(n[k] == index[k]);
        }
        if path_slot(n, p) != i {
            if path_slot(n, p) < i {
                assert(n[path_slot(n, p)] == index[path_slot(n, p)]);
            }
        }
    } else {
        assert(same_path(n[index.len() as int].0, p));
        assert forall|k: int| 0 <= k < index.len() implies !same_path(#[trigger] n[k].0, p) by {
            assert(n[k] == index[k]);
        }
        if path_slot(n, p) != index.len() {
            assert(n[path_slot(n, p)] == index[path_slot(n, p)]);
        }
    }
}

/// Reading an entry back by its path after it was put in the tree gives the
/// entry, when no entry that stays shares its id.
pub proof fn lemma_entry_by_path_after_upsert(o: FileTreeView, entry: FileTreeEntry)
    requires
        o.well_formed(),
        forall|k: int| 0 <= k < upsert_base(o, entry).len() ==> (#[trigger] upsert_base(o, entry)[k]).id != entry.id,
    ensures
        id_of_path(with_path(o.index, entry.path@, entry.id), entry.path@) == Some(entry.id),
        first_with_id(insert_sorted(upsert_base(o, entry), entry), entry.id) == Some(entry),
{
    let p = entry.path@;
    let n = with_path(o.index, p, entry.id);
    lemma_path_slot(o.index, p);
    lemma_path_slot(n, p);
    let i = path_slot(o.index, p);
    if i >= 0 {
        assert(same_path(n[i].0, p));
        assert forall|k: int| 0 <= k < i implies !same_path(#[trigger] n[k].0, p) by {
            assert(n[k] == o.index[k]);
        }
        if path_slot(n, p) != i {
            if path_slot(n, p) < i {
                assert(n[path_slot(n, p)] == o.index[path_slot(n, p)]);
            }
        }
    } else {
        assert(same_path(n[o.index.len() as int].0, p));
        assert forall|k: int| 0 <= k < o.index.len() implies !same_path(#[trigger] n[k].0, p) by {
            assert(n[k] == o.index[k]);
        }
        if path_slot(n, p) != o.index.len() {
            assert(n[path_slot(n, p)] == o.index[path_slot(n, p)]);
        }
    }
    let base = upsert_base(o, entry);
    lemma_leading_before_len(base, entry);
    let pos = leading_before(base, entry) as int;
    let r = insert_sorted(base, entry);
    assert(r[pos] == entry);
    assert forall|k: int| 0 <= k < pos implies (#[trigger] r[k]).id != entry.id by {
        assert(r[k] == base[k]);
    }
    lemma_first_with_id_at(r, entry.id, pos);
}

fn components_equal(a: &Vec<Vec<char>>, b: &Vec<Vec<char>>) -> (r: bool)
    ensures
        r == (a@.map_values(|x: Vec<char>| x@) == b@.map_values(|x: Vec<char>| x@)),
{
    let ghost va = a@.map_values(|x: Vec<char>| x@);
    let ghost vb = b@.map_values(|x: Vec<char>| x@);
    if a.len() != b.len() {
        assert(va.len() != vb.len());
        return false;
    }
    let mut i: usize = 0;
    while i < a.len()
        invariant
            i <= a.len(),
            a.len() == b.len(),
            va == a@.map_values(|x: Vec<char>| x@),
            vb == b@.map_values(|x: Vec<char>| x@),
            forall|k: int| 0 <= k < i ==> va[k] == vb[k],
        decreases a.len() - i,
    {
        if !crate::text::chars_equal(a[i].as_slice(), b[i].as_slice()) {
            assert(va[i as int] != vb[i as int]);
            return false;
        }
        i = i + 1;
    }
    assert(va =~= vb);
    true
}

} // verus!
