//! The picker: a query typed character by character, the items whose labels
//! match it fuzzily, and the selected match.
use vstd::prelude::*;
use vstd::utf8::encode_utf8;
use crate::completion::{lowercase, to_lowercase_of};
use crate::text::opt_string_view;
use crate::statusline::{parent_of, path_parent};
use crate::text::{chars_of, owned, str_equal, string_of};

verus! {

/// Whether the characters of `q` occur in `t` in order (not necessarily
/// next to each other).
pub open spec fn is_subsequence(q: Seq<char>, t: Seq<char>) -> bool
    decreases t.len(),
{
    if q.len() == 0 {
        true
    } else if t.len() == 0 {
        false
    } else if q[0] == t[0] {
        is_subsequence(q.drop_first(), t.drop_first())
    } else {
        is_subsequence(q, t.drop_first())
    }
}

/// Whether a label matches a query: the lowercased query is a subsequence of
/// the lowercased label.
pub open spec fn fuzzy_matches(label: Seq<char>, query: Seq<char>) -> bool {
    is_subsequence(lowercase(query), lowercase(label))
}

/// The indices, in order, of the labels that match a non-empty query; every
/// index for an empty one.
pub open spec fn picker_filter_spec(labels: Seq<String>, query: Seq<char>) -> Seq<u32>
    decreases labels.len(),
{
    if labels.len() == 0 {
        seq![]
    } else {
        let rest = picker_filter_spec(labels.drop_last(), query);
        if query.len() == 0 || fuzzy_matches(labels.last()@, query) {
            rest.push((labels.len() - 1) as u32)
        } else {
            rest
        }
    }
}

/// Every index, in order.
pub open spec fn all_indices(n: nat) -> Seq<u32> {
    Seq::new(n, |i: int| i as u32)
}

fn subsequence_of(q: &[char], t: &[char]) -> (r: bool)
    ensures
        r == is_subsequence(q@, t@),
{
    let mut qi: usize = 0;
    let mut ti: usize = 0;
    assert(q@.skip(0) =~= q@);
    assert(t@.skip(0) =~= t@);
    while ti < t.len()
        invariant
            qi <= q.len(),
            ti <= t.len(),
            is_subsequence(q@, t@) == is_subsequence(q@.skip(qi as int), t@.skip(ti as int)),
        decreases t.len() - ti,
    {
        if qi == q.len() {
            return true;
        }
        assert(q@.skip(qi as int)[0] == q@[qi as int]);
        assert(t@.skip(ti as int)[0] == t@[ti as int]);
        assert(t@.skip(ti as int).drop_first() =~= t@.skip(ti + 1));
        if t[ti] == q[qi] {
            assert(q@.skip(qi as int).drop_first() =~= q@.skip(qi + 1));
            qi = qi + 1;
        }
        ti = ti + 1;
    }
    qi == q.len()
}

/// Whether a label matches a query fuzzily.
pub fn fuzzy_match(label: &str, query: &str) -> (r: bool)
    ensures
        r == fuzzy_matches(label@, query@),
{
    let l = to_lowercase_of(label);
    let q = to_lowercase_of(query);
    let lc = chars_of(l.as_str());
    let qc = chars_of(q.as_str());
    subsequence_of(qc.as_slice(), lc.as_slice())
}

/// The query, its cursor, the item labels, the matching items and the selection.
pub struct PickerState {
    query: String,
    cursor_position: usize,
    labels: Vec<String>,
    filtered_indices: Vec<u32>,
    selected_index: usize,
}

/// The view of the picker state.
pub struct PickerView {
    pub query: Seq<char>,
    pub cursor: usize,
    pub labels: Seq<String>,
    pub filtered: Seq<u32>,
    pub selected: usize,
}

impl View for PickerState {
    type V = PickerView;

    closed spec fn view(&self) -> PickerView {
        PickerView {
            query: self.query@,
            cursor: self.cursor_position,
            labels: self.labels@,
            filtered: self.filtered_indices@,
            selected: self.selected_index,
        }
    }
}

/// The query with `ch` inserted before character `at` (at the end when the
/// query is shorter).
pub open spec fn insert_at(query: Seq<char>, at: int, ch: char) -> Seq<char> {
    let k = if at < query.len() { at } else { query.len() as int };
    query.subrange(0, k).push(ch) + query.subrange(k, query.len() as int)
}

fn filter_labels(labels: &Vec<String>, query: &String) -> (r: Vec<u32>)
    ensures
        r@ == picker_filter_spec(labels@, query@),
{
    let mut r: Vec<u32> = Vec::new();
    let empty = query.as_str().is_empty();
    let mut i: usize = 0;
    while i < labels.len()
        invariant
            i <= labels.len(),
            empty == (query@.len() == 0),
            r@ == picker_filter_spec(labels@.subrange(0, i as int), query@),
        decreases labels.len() - i,
    {
        proof {
            assert(labels@.subrange(0, i + 1).drop_last() =~= labels@.subrange(0, i as int));
        }
        if empty || fuzzy_match(labels[i].as_str(), query.as_str()) {
            r.push(i as u32);
        }
        i = i + 1;
    }
    assert(labels@.subrange(0, labels.len() as int) =~= labels@);
    r
}

fn every_index(n: usize) -> (r: Vec<u32>)
    ensures
        r@ == all_indices(n as nat),
{
    let mut r: Vec<u32> = Vec::new();
    let mut i: usize = 0;
    while i < n
        invariant
            i <= n,
            r@ == all_indices(i as nat),
        decreases n - i,
    {
        r.push(i as u32);
        i = i + 1;
        assert(r@ =~= all_indices(i as nat));
    }
    r
}

impl PickerState {
    /// An empty picker.
    pub fn new() -> (r: PickerState)
        ensures
            r@.query == Seq::<char>::empty(),
            r@.cursor == 0,
            r@.labels == Seq::<String>::empty(),
            r@.filtered == Seq::<u32>::empty(),
            r@.selected == 0,
    {
        PickerState {
            query: String::new(),
            cursor_position: 0,
            labels: Vec::new(),
            filtered_indices: Vec::new(),
            selected_index: 0,
        }
    }

    /// Replaces the items; every item is shown until the query changes.
    pub fn with_items(self, labels: Vec<String>) -> (r: PickerState)
        ensures
            r@ == (PickerView {
                labels: labels@,
                filtered: all_indices(labels@.len()),
                ..self@
            }),
    {
        let filtered_indices = every_index(labels.len());
        PickerState { labels, filtered_indices, ..self }
    }

    /// Sets the query, puts the cursor at its end (counted in bytes), filters
    /// the items and selects the first match.
    pub fn set_query(&mut self, query: String)
        ensures
            final(self)@ == (PickerView {
                query: query@,
                cursor: encode_utf8(query@).len() as usize,
                filtered: picker_filter_spec(old(self)@.labels, query@),
                selected: 0,
                ..old(self)@
            }),
    {
        self.cursor_position = query.as_str().len();
        self.query = query;
        self.filtered_indices = filter_labels(&self.labels, &self.query);
        self.selected_index = 0;
    }

    /// Moves the selection by `delta`, staying within the matches.
    pub fn move_selection(&mut self, delta: isize)
        requires
            delta != isize::MIN,
            old(self)@.selected + delta <= usize::MAX,
        ensures
            old(self)@.filtered.len() == 0 ==> final(self)@ == old(self)@,
            old(self)@.filtered.len() > 0 ==> final(self)@ == (PickerView {
                selected: (if delta > 0 {
                    if old(self)@.selected + delta < old(self)@.filtered.len() {
                        old(self)@.selected + delta
                    } else {
                        old(self)@.filtered.len() - 1
                    }
                } else if old(self)@.selected + delta >= 0 {
                    old(self)@.selected + delta
                } else {
                    0
                }) as usize,
                ..old(self)@
            }),
    {
        if self.filtered_indices.len() == 0 {
            return;
        }
        let last = self.filtered_indices.len() - 1;
        self.selected_index = if delta > 0 {
            let forward = self.selected_index + (delta as usize);
            if forward < last {
                forward
            } else {
                last
            }
        } else {
            self.selected_index.saturating_sub((-delta) as usize)
        };
    }

    /// The item of the selected match, if there is one.
    pub fn selected_item(&self) -> (r: Option<u32>)
        ensures
            r == (if self@.selected < self@.filtered.len() {
                Some(self@.filtered[self@.selected as int])
            } else {
                None
            }),
    {
        if self.selected_index < self.filtered_indices.len() {
            Some(self.filtered_indices[self.selected_index])
        } else {
            None
        }
    }

    /// Inserts a character at the cursor (counted in characters), moves the
    /// cursor past it, filters the items and selects the first match.
    pub fn insert_char(&mut self, ch: char)
        requires
            old(self)@.cursor < usize::MAX,
        ensures
            final(self)@ == (PickerView {
                query: insert_at(old(self)@.query, old(self)@.cursor as int, ch),
                cursor: (old(self)@.cursor + 1) as usize,
                filtered: picker_filter_spec(old(self)@.labels, insert_at(old(self)@.query, old(self)@.cursor as int, ch)),
                selected: 0,
                ..old(self)@
            }),
    {
        let chars = chars_of(self.query.as_str());
        let k = if self.cursor_position < chars.len() {
            self.cursor_position
        } else {
            chars.len()
        };
        let mut out: Vec<char> = Vec::new();
        let mut i: usize = 0;
        while i < k
            invariant
                i <= k <= chars.len(),
                out@ == chars@.subrange(0, i as int),
            decreases k - i,
        {
            out.push(chars[i]);
            i = i + 1;
            assert(out@ =~= chars@.subrange(0, i as int));
        }
        out.push(ch);
        let mut j: usize = k;
        let ghost front = out@;
        while j < chars.len()
            invariant
                k <= j <= chars.len(),
                out@ == front + chars@.subrange(k as int, j as int),
            decreases chars.len() - j,
        {
            out.push(chars[j]);
            j = j + 1;
            assert(out@ =~= front + chars@.subrange(k as int, j as int));
        }
        self.query = string_of(out.as_slice());
        self.cursor_position = self.cursor_position + 1;
        self.filtered_indices = filter_labels(&self.labels, &self.query);
        self.selected_index = 0;
    }

    /// Deletes the character before the cursor (counted in characters) and
    /// moves the cursor onto its place, then filters and selects the first
    /// match; nothing changes when the cursor is at the start or past the end.
    pub fn delete_char(&mut self)
        ensures
            (old(self)@.cursor == 0 || old(self)@.cursor - 1 >= old(self)@.query.len()) ==> final(self)@ == old(self)@,
            (old(self)@.cursor > 0 && old(self)@.cursor - 1 < old(self)@.query.len()) ==> final(self)@ == (PickerView {
                query: old(self)@.query.remove(old(self)@.cursor - 1),
                cursor: (old(self)@.cursor - 1) as usize,
                filtered: picker_filter_spec(old(self)@.labels, old(self)@.query.remove(old(self)@.cursor - 1)),
                selected: 0,
                ..old(self)@
            }),
    {
        if self.cursor_position == 0 {
            return;
        }
        let char_pos = self.cursor_position - 1;
        let mut chars = chars_of(self.query.as_str());
        if char_pos >= chars.len() {
            return;
        }
        chars.remove(char_pos);
        self.query = string_of(chars.as_slice());
        self.cursor_position = char_pos;
        self.filtered_indices = filter_labels(&self.labels, &self.query);
        self.selected_index = 0;
    }

    /// The query.
    pub fn query(&self) -> (r: &String)
        ensures
            r@ == self@.query,
    {
        &self.query
    }

    /// The cursor position.
    pub fn cursor_position(&self) -> (r: usize)
        ensures
            r == self@.cursor,
    {
        self.cursor_position
    }

    /// The indices of the matching items.
    pub fn filtered_indices(&self) -> (r: &Vec<u32>)
        ensures
            r@ == self@.filtered,
    {
        &self.filtered_indices
    }

    /// The selected position among the matches.
    pub fn selected_index(&self) -> (r: usize)
        ensures
            r == self@.selected,
    {
        self.selected_index
    }

    /// How many item rows the picker's list is sized for: the matches, or
    /// every item while nothing is filtered out and the query is empty; at
    /// most [`MAX_SHOWN_ROWS`].
    pub fn shown_rows(&self) -> (r: usize)
        ensures
            r == ({
                let n = if self@.filtered.len() == 0 && self@.query.len() == 0 {
                    self@.labels.len()
                } else {
                    self@.filtered.len()
                };
                if n < MAX_SHOWN_ROWS { n } else { MAX_SHOWN_ROWS as nat }
            }),
    {
        let n = if self.filtered_indices.len() == 0 && self.query.as_str().is_empty() {
            self.labels.len()
        } else {
            self.filtered_indices.len()
        };
        if n < MAX_SHOWN_ROWS {
            n
        } else {
            MAX_SHOWN_ROWS
        }
    }
}

/// The most item rows that the picker's list is sized for.
pub const MAX_SHOWN_ROWS: usize = 20;

/// What `Path::strip_prefix` gives for a path and a base, on the platform
/// the crate is built for, taken as a string.
pub uninterp spec fn path_relative_to(path: Seq<char>, base: Seq<char>) -> Option<Seq<char>>;

/// Calls `Path::strip_prefix`; the answer is only named.
#[verifier::external_body]
pub(crate) fn strip_prefix_of(path: &str, base: &str) -> (r: Option<String>)
    ensures
        opt_string_view(r) == path_relative_to(path@, base@),
{
    std::path::Path::new(path).strip_prefix(base).ok().map(|p| p.to_string_lossy().into_owned())
}

/// The names of the directories that the file picker does not enter:
/// version-control data, build output and editor settings.
pub open spec fn skipped_directory_name(name: Seq<char>) -> bool {
    name == ".git"@ || name == ".svn"@ || name == ".hg"@ || name == ".jj"@ || name == "target"@
        || name == "node_modules"@ || name == ".idea"@ || name == ".vscode"@
}

/// Whether the file picker enters a walked entry: files always,
/// directories unless their name is one it skips.
pub fn picker_walk_enters(name: &str, is_dir: bool) -> (r: bool)
    ensures
        r == (!is_dir || !skipped_directory_name(name@)),
{
    if !is_dir {
        return true;
    }
    !(str_equal(name, ".git") || str_equal(name, ".svn") || str_equal(name, ".hg") || str_equal(name, ".jj")
        || str_equal(name, "target") || str_equal(name, "node_modules") || str_equal(name, ".idea")
        || str_equal(name, ".vscode"))
}

/// The path shown for a file: relative to the root when it lies within it.
pub open spec fn picker_relative(path: Seq<char>, root: Seq<char>) -> Seq<char> {
    match path_relative_to(path, root) {
        Some(rel) => rel,
        None => path,
    }
}

/// The label of a file in the picker and the directory shown under it:
/// the path relative to the root, and that path's parent unless empty.
pub open spec fn picker_labels_spec(path: Seq<char>, root: Seq<char>) -> (Seq<char>, Option<Seq<char>>) {
    let rel = picker_relative(path, root);
    (rel, match path_parent(rel) {
        Some(parent) => if parent.len() == 0 { None } else { Some(parent) },
        None => None,
    })
}

/// The label and the directory line of a file in the file picker.
pub fn file_picker_labels(path: &str, root: &str) -> (r: (String, Option<String>))
    ensures
        (r.0@, opt_string_view(r.1)) == picker_labels_spec(path@, root@),
{
    let rel = match strip_prefix_of(path, root) {
        Some(rel) => rel,
        None => owned(path),
    };
    let sub = match parent_of(rel.as_str()) {
        Some(parent) => {
            if parent.unicode_len() == 0 {
                None
            } else {
                Some(owned(parent))
            }
        },
        None => None,
    };
    (rel, sub)
}

/// Typing a character and then deleting it gives back the query and the
/// cursor, when the cursor was within the query.
pub proof fn lemma_delete_undoes_insert(query: Seq<char>, cursor: int, ch: char)
    requires
        0 <= cursor <= query.len(),
    ensures
        insert_at(query, cursor, ch).remove(cursor) == query,
        cursor < insert_at(query, cursor, ch).len(),
{
    assert(insert_at(query, cursor, ch).remove(cursor) =~= query);
}

/// The empty query matches every label, and every label matches itself as
/// a query.
pub proof fn lemma_subsequence_reflexive(s: Seq<char>)
    ensures
        is_subsequence(s, s),
        is_subsequence(Seq::<char>::empty(), s),
    decreases s.len(),
{
    if s.len() > 0 {
        lemma_subsequence_reflexive(s.drop_first());
    }
}

} // verus!
