//! Version-control status of files: reading `git status --porcelain`
//! output, and the service that caches each file's status, decides when to
//! ask git again and reports what changed.
use vstd::prelude::*;
use crate::sequences::{keep_where, lemma_keep_where, lemma_keep_where_keeps, lemma_keep_where_len};
use crate::text::{
    append_chars, chars_of, opt_string_view, owned, prefix_within, string_of, trim, trim_chars, utf8_len,
    utf8_len_exceeds,
};

verus! {

/// Version-control status of a file.
#[derive(Debug, Clone, Copy, PartialEq, Eq, Structural)]
pub enum VcsStatus {
    Untracked,
    Modified,
    Added,
    Deleted,
    Renamed,
    Conflicted,
    UpToDate,
}


/// What `Path::is_absolute` answers for a path, on the platform the crate is built for.
pub uninterp spec fn path_is_absolute(path: Seq<char>) -> bool;

/// What `Path::join` gives for a base and a path, on the platform the crate
/// is built for, taken as a string.
pub uninterp spec fn path_join(base: Seq<char>, path: Seq<char>) -> Seq<char>;

/// Calls `Path::is_absolute`; the answer is only named.
#[verifier::external_body]
fn is_absolute_path(path: &str) -> (r: bool)
    ensures
        r == path_is_absolute(path@),
{
    std::path::Path::new(path).is_absolute()
}

/// Calls `Path::join`; the documentation promises that an absolute path
/// replaces the base, and the rest is only named.
#[verifier::external_body]
pub(crate) fn join_path(base: &str, path: &str) -> (r: String)
    ensures
        r@ == path_join(base@, path@),
        path_is_absolute(path@) ==> r@ == path@,
{
    std::path::Path::new(base).join(path).to_string_lossy().into_owned()
}

/// A table keyed by path texts, as texts and values.
pub open spec fn table_view<V>(s: Seq<(String, V)>) -> Seq<(Seq<char>, V)> {
    s.map_values(|e: (String, V)| (e.0@, e.1))
}

/// Whether no key occurs twice.
pub open spec fn keys_unique<V>(s: Seq<(Seq<char>, V)>) -> bool {
    forall|i: int, j: int| 0 <= i < j < s.len() ==> s[i].0 != s[j].0
}

/// Where a key stands, or -1.
pub open spec fn key_slot<V>(s: Seq<(Seq<char>, V)>, k: Seq<char>) -> int {
    if exists|i: int| 0 <= i < s.len() && s[i].0 == k {
        choose|i: int| 0 <= i < s.len() && s[i].0 == k
    } else {
        -1
    }
}

/// The value under a key, if any.
pub open spec fn lookup<V>(s: Seq<(Seq<char>, V)>, k: Seq<char>) -> Option<V> {
    let i = key_slot(s, k);
    if i >= 0 { Some(s[i].1) } else { None }
}

/// The table with `v` under `k`: in place of the old value, or last.
pub open spec fn put<V>(s: Seq<(Seq<char>, V)>, k: Seq<char>, v: V) -> Seq<(Seq<char>, V)> {
    let i = key_slot(s, k);
    if i >= 0 { s.update(i, (k, v)) } else { s.push((k, v)) }
}

proof fn lemma_key_slot_is<V>(s: Seq<(Seq<char>, V)>, k: Seq<char>, i: int)
    requires
        keys_unique(s),
        0 <= i < s.len(),
        s[i].0 == k,
    ensures
        key_slot(s, k) == i,
{
    let j = choose|j: int| 0 <= j < s.len() && s[j].0 == k;
    assert(0 <= j < s.len() && s[j].0 == k);
    if j < i {
        assert(s[j].0 != s[i].0);
    } else if j > i {
        assert(s[i].0 != s[j].0);
    }
}

/// Putting a value keeps keys unique, and reading the key gives the value.
pub proof fn lemma_lookup_after_put<V>(s: Seq<(Seq<char>, V)>, k: Seq<char>, v: V)
    requires
        keys_unique(s),
    ensures
        keys_unique(put(s, k, v)),
        lookup(put(s, k, v), k) == Some(v),
{
    let i = key_slot(s, k);
    let n = put(s, k, v);
    if i >= 0 {
        let j = choose|j: int| 0 <= j < s.len() && s[j].0 == k;
        assert(s[i].0 == k);
        assert forall|a: int, b: int| 0 <= a < b < n.len() implies n[a].0 != n[b].0 by {
            assert(n[a].0 == s[a].0 && n[b].0 == s[b].0);
        }
        lemma_key_slot_is(n, k, i);
    } else {
        assert forall|a: int, b: int| 0 <= a < b < n.len() implies n[a].0 != n[b].0 by {
            if b < s.len() {
                assert(n[a] == s[a] && n[b] == s[b]);
            } else {
                assert(n[a] == s[a]);
            }
        }
        lemma_key_slot_is(n, k, s.len() as int);
    }
}

fn find_key<V>(s: &Vec<(String, V)>, k: &str) -> (r: Option<usize>)
    requires
        keys_unique(table_view(s@)),
    ensures
        match r {
            Some(i) => i == key_slot(table_view(s@), k@) && 0 <= i < s@.len(),
            None => key_slot(table_view(s@), k@) == -1,
        },
{
    let ghost v = table_view(s@);
    let mut i: usize = 0;
    while i < s.len()
        invariant
            i <= s.len(),
            v == table_view(s@),
            keys_unique(v),
            forall|m: int| 0 <= m < i ==> v[m].0 != k@,
        decreases s.len() - i,
    {
        if crate::text::str_equal(s[i].0.as_str(), k) {
            proof {
                lemma_key_slot_is(v, k@, i as int);
            }
            return Some(i);
        }
        assert(v[i as int].0 == s@[i as int].0@);
        i = i + 1;
    }
    None
}

fn get_value<V: Copy>(s: &Vec<(String, V)>, k: &str) -> (r: Option<V>)
    requires
        keys_unique(table_view(s@)),
    ensures
        r == lookup(table_view(s@), k@),
{
    match find_key(s, k) {
        Some(i) => Some(s[i].1),
        None => None,
    }
}

fn put_value<V>(s: &mut Vec<(String, V)>, k: String, v: V)
    requires
        keys_unique(table_view(old(s)@)),
    ensures
        table_view(final(s)@) == put(table_view(old(s)@), k@, v),
        keys_unique(table_view(final(s)@)),
{
    let ghost ov = table_view(s@);
    let ghost kv = k@;
    proof {
        lemma_lookup_after_put(ov, kv, v);
    }
    match find_key(s, k.as_str()) {
        Some(i) => {
            s.set(i, (k, v));
            assert(table_view(s@) =~= ov.update(i as int, (kv, v)));
        },
        None => {
            s.push((k, v));
            assert(table_view(s@) =~= ov.push((kv, v)));
        },
    }
}

/// The pieces of a text between newlines, the last one possibly empty.
pub open spec fn newline_pieces(s: Seq<char>) -> Seq<Seq<char>>
    decreases s.len(),
{
    if s.len() == 0 {
        seq![Seq::empty()]
    } else {
        let p = newline_pieces(s.drop_last());
        if s.last() == '\n' {
            p.push(Seq::empty())
        } else {
            p.update(p.len() - 1, p.last().push(s.last()))
        }
    }
}

/// A line without the carriage return that ended it.
pub open spec fn without_cr(l: Seq<char>) -> Seq<char> {
    if l.len() > 0 && l.last() == '\r' { l.drop_last() } else { l }
}

/// The lines of a text as `str::lines` gives them: split at each newline,
/// a carriage return before the newline dropped, and no empty line after a
/// final newline.
pub open spec fn text_lines(s: Seq<char>) -> Seq<Seq<char>> {
    let p = newline_pieces(s);
    p.drop_last().map_values(|l: Seq<char>| without_cr(l)) + (if p.last().len() > 0 { seq![p.last()] } else { Seq::empty() })
}

proof fn lemma_newline_pieces_len(s: Seq<char>)
    ensures
        newline_pieces(s).len() >= 1,
    decreases s.len(),
{
    if s.len() > 0 {
        lemma_newline_pieces_len(s.drop_last());
    }
}

fn lines_of(s: &[char]) -> (r: Vec<Vec<char>>)
    ensures
        r@.map_values(|l: Vec<char>| l@) == text_lines(s@),
{
    let mut done: Vec<Vec<char>> = Vec::new();
    let mut cur: Vec<char> = Vec::new();
    let mut i: usize = 0;
    assert(s@.subrange(0, 0) =~= Seq::<char>::empty());
    while i < s.len()
        invariant
            i <= s.len(),
            newline_pieces(s@.subrange(0, i as int)).len() >= 1,
            done@.map_values(|l: Vec<char>| l@) == newline_pieces(s@.subrange(0, i as int)).drop_last().map_values(|l: Seq<char>| without_cr(l)),
            cur@ == newline_pieces(s@.subrange(0, i as int)).last(),
        decreases s.len() - i,
    {
        let ghost pre = s@.subrange(0, i as int);
        let ghost next = s@.subrange(0, i + 1);
        assert(next.drop_last() =~= pre);
        assert(next.last() == s@[i as int]);
        proof {
            lemma_newline_pieces_len(pre);
        }
        let c = s[i];
        if c == '\n' {
            let mut line = cur;
            let n = line.len();
            if n > 0 && line[n - 1] == '\r' {
                line.pop();
            }
            let ghost old_done = done@;
            done.push(line);
            cur = Vec::new();
            proof {
                let p = newline_pieces(pre);
                let q = newline_pieces(next);
                assert(q == p.push(Seq::<char>::empty()));
                assert(q.drop_last() =~= p);
                assert(p =~= p.drop_last().push(p.last()));
                assert(done@.map_values(|l: Vec<char>| l@) =~= old_done.map_values(|l: Vec<char>| l@).push(without_cr(p.last())));
                assert(p.map_values(|l: Seq<char>| without_cr(l)) =~= p.drop_last().map_values(|l: Seq<char>| without_cr(l)).push(without_cr(p.last())));
            }
        } else {
            cur.push(c);
            proof {
                let p = newline_pieces(pre);
                let q = newline_pieces(next);
                assert(q.drop_last() =~= p.drop_last());
            }
        }
        i = i + 1;
    }
    assert(s@.subrange(0, s.len() as int) =~= s@);
    proof {
        lemma_newline_pieces_len(s@);
    }
    let ghost before = done@;
    if cur.len() > 0 {
        done.push(cur);
        assert(done@.map_values(|l: Vec<char>| l@) =~= before.map_values(|l: Vec<char>| l@) + seq![newline_pieces(s@).last()]);
    } else {
        assert(done@.map_values(|l: Vec<char>| l@) =~= before.map_values(|l: Vec<char>| l@) + Seq::<Seq<char>>::empty());
    }
    done
}


/// The status that a two-letter `git status --porcelain` code stands for.
pub open spec fn porcelain_status(a: char, b: char) -> Option<VcsStatus> {
    if a == '?' && b == '?' {
        Some(VcsStatus::Untracked)
    } else if (a == ' ' && b == 'M') || (a == 'M' && b == 'M') || (a == ' ' && b == 'T') || (a == 'M' && b == ' ')
        || (a == 'M' && b == 'T') || (a == 'A' && b == 'M') {
        Some(VcsStatus::Modified)
    } else if (a == 'A' && b == ' ') || (a == 'C' && b == ' ') {
        Some(VcsStatus::Added)
    } else if (a == ' ' && b == 'D') || (a == 'D' && b == ' ') || (a == 'A' && b == 'D') {
        Some(VcsStatus::Deleted)
    } else if (a == 'R' && b == ' ') || (a == 'R' && b == 'M') {
        Some(VcsStatus::Renamed)
    } else if (a == 'U' && b == 'U') || (a == 'A' && b == 'A') || (a == 'D' && b == 'D') {
        Some(VcsStatus::Conflicted)
    } else {
        None
    }
}

/// The status that a porcelain line starts with, if any.
pub open spec fn line_status(line: Seq<char>) -> Option<VcsStatus> {
    if line.len() >= 2 { porcelain_status(line[0], line[1]) } else { None }
}

/// The statuses that porcelain lines give, under the root joined with each
/// line's path (the line after its first three characters, trimmed), with
/// how many lines were taken: lines shorter than three bytes or with an
/// unknown code are skipped, a later line for a path replaces an earlier
/// one, and nothing is taken once `max_files` lines were.
pub open spec fn git_scan(root: Seq<char>, lines: Seq<Seq<char>>, max_files: nat) -> (Seq<(Seq<char>, VcsStatus)>, nat)
    decreases lines.len(),
{
    if lines.len() == 0 {
        (Seq::empty(), 0)
    } else {
        let (m, c) = git_scan(root, lines.drop_last(), max_files);
        let line = lines.last();
        if c >= max_files || utf8_len(line) < 3 {
            (m, c)
        } else {
            match line_status(line) {
                Some(st) => (put(m, path_join(root, trim(line.skip(3))), st), c + 1),
                None => (m, c),
            }
        }
    }
}

/// Whether a line of at least three bytes can be cut after its second and
/// its third byte, as the reading of porcelain lines does.
pub open spec fn porcelain_line_cuttable(line: Seq<char>) -> bool {
    utf8_len(line) >= 3 ==> utf8_len(prefix_within(line, 2)) == 2 && utf8_len(prefix_within(line, 3)) == 3
}

/// Whether every line that is read before the limit can be cut where the
/// reading cuts it.
pub open spec fn git_scan_cuttable(root: Seq<char>, lines: Seq<Seq<char>>, max_files: nat) -> bool
    decreases lines.len(),
{
    lines.len() == 0 || (git_scan_cuttable(root, lines.drop_last(), max_files) && (git_scan(
        root,
        lines.drop_last(),
        max_files,
    ).1 >= max_files || porcelain_line_cuttable(lines.last())))
}

fn status_of_code(a: char, b: char) -> (r: Option<VcsStatus>)
    ensures
        r == porcelain_status(a, b),
{
    if a == '?' && b == '?' {
        Some(VcsStatus::Untracked)
    } else if (a == ' ' && b == 'M') || (a == 'M' && b == 'M') || (a == ' ' && b == 'T') || (a == 'M' && b == ' ')
        || (a == 'M' && b == 'T') || (a == 'A' && b == 'M') {
        Some(VcsStatus::Modified)
    } else if (a == 'A' && b == ' ') || (a == 'C' && b == ' ') {
        Some(VcsStatus::Added)
    } else if (a == ' ' && b == 'D') || (a == 'D' && b == ' ') || (a == 'A' && b == 'D') {
        Some(VcsStatus::Deleted)
    } else if (a == 'R' && b == ' ') || (a == 'R' && b == 'M') {
        Some(VcsStatus::Renamed)
    } else if (a == 'U' && b == 'U') || (a == 'A' && b == 'A') || (a == 'D' && b == 'D') {
        Some(VcsStatus::Conflicted)
    } else {
        None
    }
}

fn cut_lands_on_char(line: &[char], at: usize) -> (r: bool)
    requires
        1 <= at <= 8,
    ensures
        r == (utf8_len(prefix_within(line@, at as int)) == at),
{
    let p = crate::text::take_prefix_within(line, at);
    proof {
        crate::text::lemma_prefix_within_fits(line@, at as int);
    }
    let over = utf8_len_exceeds(p.as_slice(), at);
    let under = !utf8_len_exceeds(p.as_slice(), at - 1);
    !over && !under
}

/// Whether every porcelain line that is read before the limit can be cut
/// where the reading cuts it.
pub fn git_output_cuttable(root: &str, output: &str, max_files: usize) -> (r: bool)
    ensures
        r == git_scan_cuttable(root@, text_lines(output@), max_files as nat),
{
    let chars = chars_of(output);
    let lines = lines_of(chars.as_slice());
    let ghost ls = text_lines(output@);
    let mut count: usize = 0;
    let mut i: usize = 0;
    assert(ls.take(0) =~= Seq::<Seq<char>>::empty());
    while i < lines.len()
        invariant
            i <= lines.len(),
            ls == lines@.map_values(|l: Vec<char>| l@),
            ls == text_lines(output@),
            count <= i,
            count == git_scan(root@, ls.take(i as int), max_files as nat).1,
            git_scan_cuttable(root@, ls.take(i as int), max_files as nat),
        decreases lines.len() - i,
    {
        let ghost pre = ls.take(i as int);
        assert(ls.take(i + 1).drop_last() =~= pre);
        assert(ls.take(i + 1).last() == lines@[i as int]@);
        let line = &lines[i];
        if count < max_files && utf8_len_exceeds(line.as_slice(), 2) {
            if !(cut_lands_on_char(line.as_slice(), 2) && cut_lands_on_char(line.as_slice(), 3)) {
                proof {
                    assert(!porcelain_line_cuttable(ls.take(i + 1).last()));
                    assert(!git_scan_cuttable(root@, ls.take(i + 1), max_files as nat));
                    lemma_cuttable_prefix(root@, ls, max_files as nat, i + 1);
                }
                return false;
            }
            if line.len() >= 2 {
                match status_of_code(line[0], line[1]) {
                    Some(_) => {
                        count = count + 1;
                    },
                    None => {},
                }
            }
        }
        i = i + 1;
    }
    assert(ls.take(lines.len() as int) =~= ls);
    true
}

proof fn lemma_code_takes_two_bytes(line: Seq<char>)
    requires
        line.len() == 2,
        porcelain_status(line[0], line[1]) is Some,
    ensures
        utf8_len(line) == 2,
{
    let t = line.drop_first();
    assert(t.drop_first() =~= Seq::<char>::empty());
    assert(utf8_len(Seq::<char>::empty()) == 0);
    assert(t[0] == line[1]);
    assert(utf8_len(t) == crate::text::utf8_width(line[1]));
}

proof fn lemma_cuttable_prefix(root: Seq<char>, lines: Seq<Seq<char>>, max_files: nat, i: int)
    requires
        0 <= i <= lines.len(),
        !git_scan_cuttable(root, lines.take(i), max_files),
    ensures
        !git_scan_cuttable(root, lines, max_files),
    decreases lines.len() - i,
{
    if i < lines.len() {
        assert(lines.take(i + 1).drop_last() =~= lines.take(i));
        lemma_cuttable_prefix(root, lines, max_files, i + 1);
    } else {
        assert(lines.take(i) =~= lines);
    }
}

/// The statuses that `git status --porcelain` output gives, each under the
/// root joined with the line's path; see [`git_scan`].
pub fn parse_git_status(root: &str, output: &str, max_files: usize) -> (r: Vec<(String, VcsStatus)>)
    requires
        git_scan_cuttable(root@, text_lines(output@), max_files as nat),
    ensures
        table_view(r@) == git_scan(root@, text_lines(output@), max_files as nat).0,
        keys_unique(table_view(r@)),
{
    let chars = chars_of(output);
    let lines = lines_of(chars.as_slice());
    let ghost ls = text_lines(output@);
    let mut out: Vec<(String, VcsStatus)> = Vec::new();
    let mut count: usize = 0;
    let mut i: usize = 0;
    assert(ls.take(0) =~= Seq::<Seq<char>>::empty());
    while i < lines.len()
        invariant
            i <= lines.len(),
            ls == lines@.map_values(|l: Vec<char>| l@),
            ls == text_lines(output@),
            count <= i,
            table_view(out@) == git_scan(root@, ls.take(i as int), max_files as nat).0,
            count == git_scan(root@, ls.take(i as int), max_files as nat).1,
            keys_unique(table_view(out@)),
        decreases lines.len() - i,
    {
        let ghost pre = ls.take(i as int);
        assert(ls.take(i + 1).drop_last() =~= pre);
        assert(ls.take(i + 1).last() == lines@[i as int]@);
        let line = &lines[i];
        if count < max_files && utf8_len_exceeds(line.as_slice(), 2) && line.len() >= 2 {
            match status_of_code(line[0], line[1]) {
                Some(st) => {
                    if line.len() < 3 {
                        proof {
                            lemma_code_takes_two_bytes(line@);
                        }
                        assert(false);
                    }
                    let mut rest: Vec<char> = Vec::new();
                    let mut k: usize = 3;
                    while k < line.len()
                        invariant
                            3 <= k <= line@.len(),
                            rest@ == line@.subrange(3, k as int),
                        decreases line.len() - k,
                    {
                        rest.push(line[k]);
                        k = k + 1;
                        assert(rest@ =~= line@.subrange(3, k as int));
                    }
                    assert(rest@ =~= line@.skip(3));
                    let trimmed = trim_chars(rest.as_slice());
                    let rel = string_of(trimmed.as_slice());
                    let full = join_path(root, rel.as_str());
                    put_value(&mut out, full, st);
                    count = count + 1;
                },
                None => {},
            }
        }
        i = i + 1;
    }
    assert(ls.take(lines.len() as int) =~= ls);
    out
}

/// Configuration of the status service.
#[derive(Debug, Clone, PartialEq, Eq)]
pub struct VcsConfig {
    /// How often to check for changes, in milliseconds.
    pub poll_interval_ms: u64,
    /// Whether monitoring is on.
    pub enabled: bool,
    /// The most files to track.
    pub max_files: usize,
}

impl Default for VcsConfig {
    /// Poll every two seconds, enabled, at most ten thousand files.
    fn default() -> (r: VcsConfig)
        ensures
            r == (VcsConfig { poll_interval_ms: 2000, enabled: true, max_files: 10000 }),
    {
        VcsConfig { poll_interval_ms: 2000, enabled: true, max_files: 10000 }
    }
}

/// Counts of cache lookups.
#[derive(Debug, Clone, Copy, PartialEq, Eq, Default)]
pub struct CacheStats {
    /// Fresh entries found.
    pub hits: u64,
    /// Entries not found.
    pub misses: u64,
    /// Stale entries found.
    pub stale_hits: u64,
    /// Entries dropped as stale.
    pub invalidations: u64,
}

impl CacheStats {
    /// No lookups counted.
    pub fn new() -> (r: CacheStats)
        ensures
            r == (CacheStats { hits: 0, misses: 0, stale_hits: 0, invalidations: 0 }),
    {
        CacheStats { hits: 0, misses: 0, stale_hits: 0, invalidations: 0 }
    }

    /// Sets every count back to zero.
    pub fn reset(&mut self)
        ensures
            *final(self) == (CacheStats { hits: 0, misses: 0, stale_hits: 0, invalidations: 0 }),
    {
        self.hits = 0;
        self.misses = 0;
        self.stale_hits = 0;
        self.invalidations = 0;
    }
}


/// How long, in milliseconds, a cached status stays fresh.
pub const CACHE_TTL_MS: u64 = 5000;

/// How often, in milliseconds, stale cache entries are cleared.
pub const CACHE_CLEANUP_INTERVAL_MS: u64 = 30000;

/// The cache size beyond which stale entries are cleared at once.
pub const MAX_CACHE_SIZE: usize = 5000;

/// What the status service reports.
#[derive(Debug, Clone)]
pub enum VcsEvent {
    /// The statuses that changed; a file no longer listed is up to date.
    StatusUpdated { changes: Vec<(String, VcsStatus)> },
    /// Monitoring of a repository started.
    RepositoryStarted { root_path: String },
    /// Asking git for the status failed.
    Error { message: String },
}

/// What a cached lookup gives.
#[derive(Debug, Clone, Copy, PartialEq, Eq)]
pub enum CachedLookup {
    /// The cache answers: the status, if any.
    Answer(Option<VcsStatus>),
    /// The entry is stale or missing: refresh the cache first
    /// ([`VcsService::begin_refresh`]), then answer with
    /// [`VcsService::answer_after_refresh`].
    Refresh,
}

/// What the caller does after asking to monitor a directory: ask git for
/// the status, and announce that monitoring started.
#[derive(Debug, Clone, Copy, PartialEq, Eq)]
pub struct MonitorRequest {
    pub refresh: bool,
    pub announce_start: bool,
}

/// The time from `then` to `now` in milliseconds, none if the clock went back.
pub open spec fn elapsed_ms(now: u64, then: u64) -> u64 {
    if now >= then { (now - then) as u64 } else { 0 }
}

/// The status service: the monitored root, each file's cached status with
/// when it was cached, and when the status and the cache were last handled.
pub struct VcsService {
    root_path: Option<String>,
    status_cache: Vec<(String, VcsStatus)>,
    cache_timestamps: Vec<(String, u64)>,
    config: VcsConfig,
    last_check_ms: Option<u64>,
    monitoring: bool,
    cache_stats: CacheStats,
    last_cache_cleanup_ms: Option<u64>,
}

/// The view of the status service.
pub struct VcsServiceView {
    pub root_path: Option<Seq<char>>,
    pub cache: Seq<(Seq<char>, VcsStatus)>,
    pub timestamps: Seq<(Seq<char>, u64)>,
    pub config: VcsConfig,
    pub last_check_ms: Option<u64>,
    pub monitoring: bool,
    pub stats: CacheStats,
    pub last_cleanup_ms: Option<u64>,
}

impl View for VcsService {
    type V = VcsServiceView;

    closed spec fn view(&self) -> VcsServiceView {
        VcsServiceView {
            root_path: opt_string_view(self.root_path),
            cache: table_view(self.status_cache@),
            timestamps: table_view(self.cache_timestamps@),
            config: self.config,
            last_check_ms: self.last_check_ms,
            monitoring: self.monitoring,
            stats: self.cache_stats,
            last_cleanup_ms: self.last_cache_cleanup_ms,
        }
    }
}

impl VcsServiceView {
    /// No path twice in the cache or among the timestamps.
    pub open spec fn well_formed(self) -> bool {
        keys_unique(self.cache) && keys_unique(self.timestamps)
    }

    /// The absolute path that a path stands for: itself when absolute, else
    /// joined to the root; none without a root.
    pub open spec fn resolved(self, path: Seq<char>) -> Option<Seq<char>> {
        if path_is_absolute(path) {
            Some(path)
        } else {
            match self.root_path {
                Some(r) => Some(path_join(r, path)),
                None => None,
            }
        }
    }

    /// Whether the status of an absolute path was cached less than the
    /// lifetime of an entry ago.
    pub open spec fn is_fresh(self, abs: Seq<char>, now_ms: u64) -> bool {
        match lookup(self.timestamps, abs) {
            Some(t) => elapsed_ms(now_ms, t) < CACHE_TTL_MS,
            None => false,
        }
    }

    /// The counts after one cached lookup of an absolute path: a fresh
    /// entry is a hit, an old one a stale hit, none a miss.
    pub open spec fn counted(self, abs: Seq<char>, now_ms: u64) -> CacheStats {
        match lookup(self.timestamps, abs) {
            Some(t) => if elapsed_ms(now_ms, t) < CACHE_TTL_MS {
                CacheStats { hits: (self.stats.hits + 1) as u64, ..self.stats }
            } else {
                CacheStats { stale_hits: (self.stats.stale_hits + 1) as u64, ..self.stats }
            },
            None => CacheStats { misses: (self.stats.misses + 1) as u64, ..self.stats },
        }
    }
}

/// Whether the cached timestamp of an entry is older than an entry lives.
pub open spec fn is_stale_entry(now_ms: u64) -> spec_fn((Seq<char>, u64)) -> bool {
    |e: (Seq<char>, u64)| elapsed_ms(now_ms, e.1) > CACHE_TTL_MS
}

/// Whether a cached status survives clearing: its path has no stale timestamp.
pub open spec fn survives_clearing(timestamps: Seq<(Seq<char>, u64)>, now_ms: u64) -> spec_fn((Seq<char>, VcsStatus)) -> bool {
    |e: (Seq<char>, VcsStatus)| match lookup(timestamps, e.0) {
        Some(t) => !(elapsed_ms(now_ms, t) > CACHE_TTL_MS),
        None => true,
    }
}

/// Whether a timestamp survives clearing.
pub open spec fn timestamp_survives(now_ms: u64) -> spec_fn((Seq<char>, u64)) -> bool {
    |e: (Seq<char>, u64)| !(elapsed_ms(now_ms, e.1) > CACHE_TTL_MS)
}

/// The service after stale entries are cleared at `now_ms`.
pub open spec fn cleared(o: VcsServiceView, now_ms: u64) -> VcsServiceView {
    let stale = keep_where(o.timestamps, is_stale_entry(now_ms)).len();
    VcsServiceView {
        cache: keep_where(o.cache, survives_clearing(o.timestamps, now_ms)),
        timestamps: keep_where(o.timestamps, timestamp_survives(now_ms)),
        stats: CacheStats { invalidations: (o.stats.invalidations + stale) as u64, ..o.stats },
        last_cleanup_ms: Some(now_ms),
        ..o
    }
}

/// Whether cache maintenance at `now_ms` clears stale entries: the first
/// time, once the cleanup interval has passed, or when the cache is too big.
pub open spec fn maintenance_due(o: VcsServiceView, now_ms: u64) -> bool {
    let due = match o.last_cleanup_ms {
        Some(last) => elapsed_ms(now_ms, last) >= CACHE_CLEANUP_INTERVAL_MS,
        None => true,
    };
    due || o.cache.len() > MAX_CACHE_SIZE
}

/// The service after cache maintenance at `now_ms`.
pub open spec fn maintained(o: VcsServiceView, now_ms: u64) -> VcsServiceView {
    if maintenance_due(o, now_ms) { cleared(o, now_ms) } else { o }
}

/// The entries of the new statuses that the old cache did not hold as they are.
pub open spec fn changed_entries(old: Seq<(Seq<char>, VcsStatus)>) -> spec_fn((Seq<char>, VcsStatus)) -> bool {
    |e: (Seq<char>, VcsStatus)| lookup(old, e.0) != Some(e.1)
}

/// The entries of the old cache that the new statuses no longer list.
pub open spec fn dropped_entries(new: Seq<(Seq<char>, VcsStatus)>) -> spec_fn((Seq<char>, VcsStatus)) -> bool {
    |e: (Seq<char>, VcsStatus)| lookup(new, e.0) is None
}

/// What changed between two status tables: each new or different status,
/// then each dropped path as up to date.
pub open spec fn status_changes(old: Seq<(Seq<char>, VcsStatus)>, new: Seq<(Seq<char>, VcsStatus)>) -> Seq<(Seq<char>, VcsStatus)> {
    keep_where(new, changed_entries(old)) + keep_where(old, dropped_entries(new)).map_values(
        |e: (Seq<char>, VcsStatus)| (e.0, VcsStatus::UpToDate),
    )
}

/// Every path of a table stamped with `now_ms`.
pub open spec fn stamped(new: Seq<(Seq<char>, VcsStatus)>, now_ms: u64) -> Seq<(Seq<char>, u64)> {
    new.map_values(|e: (Seq<char>, VcsStatus)| (e.0, now_ms))
}


/// The answer to one path of a bulk lookup: nothing when it cannot be
/// resolved or has no timestamp, else its cached status.
pub open spec fn bulk_answer(o: VcsServiceView, p: Seq<char>) -> Option<VcsStatus> {
    match o.resolved(p) {
        Some(abs) => if lookup(o.timestamps, abs) is Some { lookup(o.cache, abs) } else { None },
        None => None,
    }
}

/// The answers of a bulk lookup with the counts after it.
pub open spec fn bulk_lookup(o: VcsServiceView, paths: Seq<Seq<char>>, now_ms: u64) -> (Seq<(Seq<char>, Option<VcsStatus>)>, CacheStats)
    decreases paths.len(),
{
    if paths.len() == 0 {
        (Seq::empty(), o.stats)
    } else {
        let (res, st) = bulk_lookup(o, paths.drop_last(), now_ms);
        let p = paths.last();
        let o2 = VcsServiceView { stats: st, ..o };
        let stats = match o.resolved(p) {
            Some(abs) => o2.counted(abs, now_ms),
            None => st,
        };
        (res.push((p, bulk_answer(o, p))), stats)
    }
}

/// How many of the paths cannot be resolved or have no fresh status.
pub open spec fn missing_count(o: VcsServiceView, paths: Seq<Seq<char>>, now_ms: u64) -> nat
    decreases paths.len(),
{
    if paths.len() == 0 {
        0
    } else {
        let p = paths.last();
        let missing = match o.resolved(p) {
            Some(abs) => !o.is_fresh(abs, now_ms),
            None => true,
        };
        missing_count(o, paths.drop_last(), now_ms) + if missing { 1nat } else { 0nat }
    }
}

/// The text of each path.
pub open spec fn texts(v: Seq<String>) -> Seq<Seq<char>> {
    v.map_values(|s: String| s@)
}

/// The message of a failed git run.
pub open spec fn git_failure_message(e: Seq<char>) -> Seq<char> {
    "Git status failed: "@ + e
}

fn elapsed(now_ms: u64, then: u64) -> (r: u64)
    ensures
        r == elapsed_ms(now_ms, then),
{
    now_ms.saturating_sub(then)
}

fn keep_fresh_timestamps(v: Vec<(String, u64)>, now_ms: u64) -> (r: (Vec<(String, u64)>, usize))
    ensures
        table_view(r.0@) == keep_where(table_view(v@), timestamp_survives(now_ms)),
        r.1 == keep_where(table_view(v@), is_stale_entry(now_ms)).len(),
{
    let ghost orig = table_view(v@);
    let n0 = v.len();
    assert(orig.len() == n0);
    let mut rest = v;
    let mut out: Vec<(String, u64)> = Vec::new();
    let mut dropped: usize = 0;
    while rest.len() > 0
        invariant
            table_view(out@) + keep_where(table_view(rest@), timestamp_survives(now_ms)) == keep_where(orig, timestamp_survives(now_ms)),
            dropped + keep_where(table_view(rest@), is_stale_entry(now_ms)).len() == keep_where(orig, is_stale_entry(now_ms)).len(),
            dropped + rest@.len() <= orig.len(),
            orig.len() <= usize::MAX,
        decreases rest.len(),
    {
        let ghost before = table_view(rest@);
        let (k, t) = rest.remove(0);
        assert(table_view(rest@) =~= before.drop_first());
        assert(before[0] == (k@, t));
        if elapsed(now_ms, t) > CACHE_TTL_MS {
            dropped = dropped + 1;
        } else {
            let ghost tail = keep_where(table_view(rest@), timestamp_survives(now_ms));
            out.push((k, t));
            assert(table_view(out@) =~= table_view(out@.drop_last()).push((k@, t)));
            assert(table_view(out@) + tail =~= table_view(out@.drop_last()) + (seq![(k@, t)] + tail));
        }
    }
    assert(table_view(out@) + keep_where(table_view(rest@), timestamp_survives(now_ms)) =~= table_view(out@));
    (out, dropped)
}

fn keep_surviving_statuses(v: Vec<(String, VcsStatus)>, stamps: &Vec<(String, u64)>, now_ms: u64) -> (r: Vec<(String, VcsStatus)>)
    requires
        keys_unique(table_view(stamps@)),
    ensures
        table_view(r@) == keep_where(table_view(v@), survives_clearing(table_view(stamps@), now_ms)),
{
    let ghost orig = table_view(v@);
    let ghost ts = table_view(stamps@);
    let mut rest = v;
    let mut out: Vec<(String, VcsStatus)> = Vec::new();
    while rest.len() > 0
        invariant
            ts == table_view(stamps@),
            keys_unique(ts),
            table_view(out@) + keep_where(table_view(rest@), survives_clearing(ts, now_ms)) == keep_where(orig, survives_clearing(ts, now_ms)),
        decreases rest.len(),
    {
        let ghost before = table_view(rest@);
        let (k, st) = rest.remove(0);
        assert(table_view(rest@) =~= before.drop_first());
        assert(before[0] == (k@, st));
        let keep = match get_value(stamps, k.as_str()) {
            Some(t) => !(elapsed(now_ms, t) > CACHE_TTL_MS),
            None => true,
        };
        if keep {
            let ghost tail = keep_where(table_view(rest@), survives_clearing(ts, now_ms));
            out.push((k, st));
            assert(table_view(out@) =~= table_view(out@.drop_last()).push((k@, st)));
            assert(table_view(out@) + tail =~= table_view(out@.drop_last()) + (seq![(k@, st)] + tail));
        }
    }
    assert(table_view(out@) + keep_where(table_view(rest@), survives_clearing(ts, now_ms)) =~= table_view(out@));
    out
}



/// The elements that satisfy `keep`, in order, collected from the back.
pub open spec fn keep_where_back<A>(s: Seq<A>, keep: spec_fn(A) -> bool) -> Seq<A>
    decreases s.len(),
{
    if s.len() == 0 {
        s
    } else if keep(s.last()) {
        keep_where_back(s.drop_last(), keep).push(s.last())
    } else {
        keep_where_back(s.drop_last(), keep)
    }
}

proof fn lemma_keep_where_back<A>(s: Seq<A>, keep: spec_fn(A) -> bool)
    ensures
        keep_where_back(s, keep) == keep_where(s, keep),
    decreases s.len(),
{
    if s.len() > 0 {
        lemma_keep_where_back(s.drop_first(), keep);
        lemma_keep_where_back(s.drop_last(), keep);
        if s.len() > 1 {
            lemma_keep_where_back(s.drop_first().drop_last(), keep);
            assert(s.drop_first().drop_last() =~= s.drop_last().drop_first());
            lemma_keep_where_back(s.drop_last().drop_first(), keep);
            assert(s.drop_first().last() == s.last());
            assert(s.drop_last()[0] == s[0]);
            if keep(s[0]) {
                assert((seq![s[0]] + keep_where(s.drop_last().drop_first(), keep)).push(s.last())
                    =~= seq![s[0]] + keep_where(s.drop_last().drop_first(), keep).push(s.last()));
            }
        } else {
            assert(s.drop_first() =~= Seq::<A>::empty());
            assert(s.drop_last() =~= Seq::<A>::empty());
            assert(s.last() == s[0]);
            assert(seq![s[0]] + Seq::<A>::empty() =~= Seq::<A>::empty().push(s[0]));
        }
    }
}

proof fn lemma_stamped_unique(new: Seq<(Seq<char>, VcsStatus)>, now_ms: u64)
    requires
        keys_unique(new),
    ensures
        keys_unique(stamped(new, now_ms)),
{
    let t = stamped(new, now_ms);
    assert forall|a: int, b: int| 0 <= a < b < t.len() implies t[a].0 != t[b].0 by {
        assert(t[a].0 == new[a].0 && t[b].0 == new[b].0);
    }
}

fn changes_between(old: &Vec<(String, VcsStatus)>, new: &Vec<(String, VcsStatus)>) -> (r: Vec<(String, VcsStatus)>)
    requires
        keys_unique(table_view(old@)),
        keys_unique(table_view(new@)),
    ensures
        table_view(r@) == status_changes(table_view(old@), table_view(new@)),
{
    let ghost ov = table_view(old@);
    let ghost nv = table_view(new@);
    let mut out: Vec<(String, VcsStatus)> = Vec::new();
    let mut i: usize = 0;
    assert(nv.subrange(0, 0) =~= Seq::<(Seq<char>, VcsStatus)>::empty());
    while i < new.len()
        invariant
            i <= new.len(),
            ov == table_view(old@),
            nv == table_view(new@),
            keys_unique(ov),
            table_view(out@) == keep_where_back(nv.subrange(0, i as int), changed_entries(ov)),
        decreases new.len() - i,
    {
        let differs = match get_value(old, new[i].0.as_str()) {
            Some(s0) => s0 != new[i].1,
            None => true,
        };
        assert(nv[i as int] == (new@[i as int].0@, new@[i as int].1));
        assert(nv.subrange(0, i + 1).drop_last() =~= nv.subrange(0, i as int));
        if differs {
            let k = owned(new[i].0.as_str());
            out.push((k, new[i].1));
            assert(table_view(out@) =~= table_view(out@.drop_last()).push(nv[i as int]));
        }
        i = i + 1;
    }
    assert(nv.subrange(0, new.len() as int) =~= nv);
    proof {
        lemma_keep_where_back(nv, changed_entries(ov));
    }
    let ghost first = table_view(out@);
    let mut j: usize = 0;
    let ghost dropped_view = |e: (Seq<char>, VcsStatus)| (e.0, VcsStatus::UpToDate);
    assert(ov.subrange(0, 0) =~= Seq::<(Seq<char>, VcsStatus)>::empty());
    while j < old.len()
        invariant
            j <= old.len(),
            ov == table_view(old@),
            nv == table_view(new@),
            keys_unique(nv),
            table_view(out@) == first + keep_where_back(ov.subrange(0, j as int), dropped_entries(nv)).map_values(dropped_view),
            dropped_view == (|e: (Seq<char>, VcsStatus)| (e.0, VcsStatus::UpToDate)),
        decreases old.len() - j,
    {
        let gone = get_value(new, old[j].0.as_str()).is_none();
        assert(ov[j as int] == (old@[j as int].0@, old@[j as int].1));
        assert(ov.subrange(0, j + 1).drop_last() =~= ov.subrange(0, j as int));
        let ghost before = keep_where_back(ov.subrange(0, j as int), dropped_entries(nv));
        let ghost out_before = table_view(out@);
        if gone {
            let k = owned(old[j].0.as_str());
            out.push((k, VcsStatus::UpToDate));
            assert(before.push(ov[j as int]).map_values(dropped_view) =~= before.map_values(dropped_view).push((ov[j as int].0, VcsStatus::UpToDate)));
            assert(table_view(out@) =~= out_before.push((ov[j as int].0, VcsStatus::UpToDate)));
            assert(first + before.push(ov[j as int]).map_values(dropped_view) =~= (first + before.map_values(dropped_view)).push((ov[j as int].0, VcsStatus::UpToDate)));
        }
        j = j + 1;
    }
    assert(ov.subrange(0, old.len() as int) =~= ov);
    proof {
        lemma_keep_where_back(ov, dropped_entries(nv));
    }
    out
}

fn stamp_all(new: &Vec<(String, VcsStatus)>, now_ms: u64) -> (r: Vec<(String, u64)>)
    ensures
        table_view(r@) == stamped(table_view(new@), now_ms),
{
    let mut out: Vec<(String, u64)> = Vec::new();
    let mut i: usize = 0;
    while i < new.len()
        invariant
            i <= new.len(),
            table_view(out@) == stamped(table_view(new@).subrange(0, i as int), now_ms),
        decreases new.len() - i,
    {
        let k = owned(new[i].0.as_str());
        assert(table_view(new@)[i as int].0 == new@[i as int].0@);
        let ghost out_before = table_view(out@);
        out.push((k, now_ms));
        assert(table_view(out@) =~= out_before.push((new@[i as int].0@, now_ms)));
        i = i + 1;
        assert(table_view(out@) =~= stamped(table_view(new@).subrange(0, i as int), now_ms));
    }
    assert(table_view(new@).subrange(0, new.len() as int) =~= table_view(new@));
    out
}

impl VcsService {
    /// A service that monitors nothing yet.
    pub fn new(config: VcsConfig) -> (r: VcsService)
        ensures
            r@.well_formed(),
            r@ == (VcsServiceView {
                root_path: None,
                cache: Seq::empty(),
                timestamps: Seq::empty(),
                config,
                last_check_ms: None,
                monitoring: false,
                stats: CacheStats { hits: 0, misses: 0, stale_hits: 0, invalidations: 0 },
                last_cleanup_ms: None,
            }),
    {
        let r = VcsService {
            root_path: None,
            status_cache: Vec::new(),
            cache_timestamps: Vec::new(),
            config,
            last_check_ms: None,
            monitoring: false,
            cache_stats: CacheStats::new(),
            last_cache_cleanup_ms: None,
        };
        assert(table_view(r.status_cache@) =~= Seq::<(Seq<char>, VcsStatus)>::empty());
        assert(table_view(r.cache_timestamps@) =~= Seq::<(Seq<char>, u64)>::empty());
        r
    }

    /// Stops monitoring: no root, no cached statuses, no last check (the
    /// timestamps stay).
    pub fn stop_monitoring(&mut self)
        requires
            old(self)@.well_formed(),
        ensures
            final(self)@.well_formed(),
            final(self)@ == (VcsServiceView {
                monitoring: false,
                root_path: None,
                cache: Seq::empty(),
                last_check_ms: None,
                ..old(self)@
            }),
    {
        self.monitoring = false;
        self.root_path = None;
        self.status_cache = Vec::new();
        self.last_check_ms = None;
        assert(table_view(self.status_cache@) =~= Seq::<(Seq<char>, VcsStatus)>::empty());
    }

    /// Starts monitoring `root_path` at `now_ms`. For the directory already
    /// watched nothing changes, and git is asked again only while monitoring
    /// and when the last check is three seconds old or missing. For another
    /// directory the old one is dropped, monitoring is on as configured, and
    /// then git is asked and the start announced.
    pub fn start_monitoring(&mut self, root_path: String, now_ms: u64) -> (r: MonitorRequest)
        requires
            old(self)@.well_formed(),
        ensures
            final(self)@.well_formed(),
            ({
                let o = old(self)@;
                if o.root_path == Some(root_path@) {
                    &&& final(self)@ == o
                    &&& r == MonitorRequest {
                        refresh: o.monitoring && match o.last_check_ms {
                            Some(last) => elapsed_ms(now_ms, last) >= 3000,
                            None => true,
                        },
                        announce_start: false,
                    }
                } else {
                    &&& final(self)@ == (VcsServiceView {
                        root_path: Some(root_path@),
                        monitoring: o.config.enabled,
                        cache: if o.monitoring { Seq::empty() } else { o.cache },
                        last_check_ms: if o.monitoring { None } else { o.last_check_ms },
                        ..o
                    })
                    &&& r == MonitorRequest { refresh: o.config.enabled, announce_start: o.config.enabled }
                }
            }),
    {
        let same = match &self.root_path {
            Some(current) => crate::text::str_equal(current.as_str(), root_path.as_str()),
            None => false,
        };
        if same {
            let refresh = self.monitoring && match self.last_check_ms {
                Some(last) => elapsed(now_ms, last) >= 3000,
                None => true,
            };
            return MonitorRequest { refresh, announce_start: false };
        }
        if self.monitoring {
            self.stop_monitoring();
        }
        self.root_path = Some(root_path);
        self.monitoring = self.config.enabled;
        MonitorRequest { refresh: self.monitoring, announce_start: self.monitoring }
    }

    fn resolve(&self, path: &str) -> (r: Option<String>)
        ensures
            opt_string_view(r) == self@.resolved(path@),
    {
        if is_absolute_path(path) {
            Some(owned(path))
        } else {
            match &self.root_path {
                Some(root) => Some(join_path(root.as_str(), path)),
                None => None,
            }
        }
    }

    /// The cached status of a file (a relative path is taken from the root).
    pub fn get_status(&self, path: &str) -> (r: Option<VcsStatus>)
        requires
            self@.well_formed(),
        ensures
            r == match self@.resolved(path@) {
                Some(abs) => lookup(self@.cache, abs),
                None => None,
            },
    {
        match self.resolve(path) {
            Some(abs) => get_value(&self.status_cache, abs.as_str()),
            None => None,
        }
    }

    /// Every cached status.
    pub fn get_all_status(&self) -> (r: &Vec<(String, VcsStatus)>)
        ensures
            table_view(r@) == self@.cache,
    {
        &self.status_cache
    }

    /// A cached lookup of a file's status, counting a hit, a stale hit or a
    /// miss. A fresh entry answers at once; a stale or missing entry asks
    /// for the cache to be refreshed while a root is monitored, after which
    /// [`VcsService::answer_after_refresh`] gives the refreshed status.
    /// Without a root there is nothing to refresh and the cached status
    /// answers; a relative path without a root has no status.
    pub fn get_status_cached(&mut self, path: &str, now_ms: u64) -> (r: CachedLookup)
        requires
            old(self)@.well_formed(),
            old(self)@.stats.hits < u64::MAX,
            old(self)@.stats.misses < u64::MAX,
            old(self)@.stats.stale_hits < u64::MAX,
        ensures
            final(self)@.well_formed(),
            match old(self)@.resolved(path@) {
                Some(abs) => {
                    &&& r == (if old(self)@.is_fresh(abs, now_ms) || old(self)@.root_path is None {
                        CachedLookup::Answer(lookup(old(self)@.cache, abs))
                    } else {
                        CachedLookup::Refresh
                    })
                    &&& final(self)@ == (VcsServiceView { stats: old(self)@.counted(abs, now_ms), ..old(self)@ })
                },
                None => r == CachedLookup::Answer(None) && final(self)@ == old(self)@,
            },
    {
        let abs = match self.resolve(path) {
            Some(abs) => abs,
            None => {
                return CachedLookup::Answer(None);
            },
        };
        let fresh = match get_value(&self.cache_timestamps, abs.as_str()) {
            Some(t) => {
                if elapsed(now_ms, t) < CACHE_TTL_MS {
                    self.cache_stats.hits = self.cache_stats.hits + 1;
                    true
                } else {
                    self.cache_stats.stale_hits = self.cache_stats.stale_hits + 1;
                    false
                }
            },
            None => {
                self.cache_stats.misses = self.cache_stats.misses + 1;
                false
            },
        };
        if fresh || self.root_path.is_none() {
            CachedLookup::Answer(get_value(&self.status_cache, abs.as_str()))
        } else {
            CachedLookup::Refresh
        }
    }

    /// Takes what git answered for a refresh that a cached lookup of `path`
    /// asked for (see [`VcsService::finish_refresh`]) and gives the status
    /// of `path` in the refreshed cache, with the event of the refresh.
    pub fn answer_after_refresh(
        &mut self,
        path: &str,
        outcome: Result<Vec<(String, VcsStatus)>, String>,
        now_ms: u64,
    ) -> (r: (Option<VcsStatus>, Option<VcsEvent>))
        requires
            old(self)@.well_formed(),
            outcome matches Ok(new) ==> keys_unique(table_view(new@)),
        ensures
            final(self)@.well_formed(),
            final(self)@.root_path == old(self)@.root_path,
            r.0 == match old(self)@.resolved(path@) {
                Some(abs) => lookup(final(self)@.cache, abs),
                None => None,
            },
            outcome matches Ok(new) ==> final(self)@.cache == table_view(new@),
            outcome is Err ==> final(self)@.cache == old(self)@.cache,
    {
        let event = self.finish_refresh(outcome, now_ms);
        let status = self.get_status(path);
        (status, event)
    }

    /// Whether a bulk request for these paths calls for asking git again:
    /// more than ten paths while a root is set.
    pub fn update_cache_bulk(&self, paths: &Vec<String>) -> (r: bool)
        ensures
            r == (paths@.len() > 10 && self@.root_path is Some),
    {
        paths.len() > 10 && self.root_path.is_some()
    }

    /// Whether the status of an absolute path is fresh at `now_ms`.
    pub fn is_cache_fresh(&self, abs: &str, now_ms: u64) -> (r: bool)
        requires
            self@.well_formed(),
        ensures
            r == self@.is_fresh(abs@, now_ms),
    {
        match get_value(&self.cache_timestamps, abs) {
            Some(t) => elapsed(now_ms, t) < CACHE_TTL_MS,
            None => false,
        }
    }

    /// Clears the statuses whose timestamps are older than an entry lives,
    /// counting them as invalidations.
    pub fn clear_stale_cache(&mut self, now_ms: u64)
        requires
            old(self)@.well_formed(),
            old(self)@.stats.invalidations + old(self)@.timestamps.len() <= u64::MAX,
        ensures
            final(self)@.well_formed(),
            final(self)@ == cleared(old(self)@, now_ms),
    {
        let ghost o = self@;
        let mut stamps: Vec<(String, u64)> = Vec::new();
        std::mem::swap(&mut stamps, &mut self.cache_timestamps);
        let ghost old_stamps = table_view(stamps@);
        let mut cache: Vec<(String, VcsStatus)> = Vec::new();
        std::mem::swap(&mut cache, &mut self.status_cache);
        self.status_cache = keep_surviving_statuses(cache, &stamps, now_ms);
        let (fresh, dropped) = keep_fresh_timestamps(stamps, now_ms);
        self.cache_timestamps = fresh;
        proof {
            lemma_keep_where(o.timestamps, is_stale_entry(now_ms), |e: (Seq<char>, u64)| e.0);
            lemma_keep_where(o.timestamps, timestamp_survives(now_ms), |e: (Seq<char>, u64)| e.0);
            lemma_keep_where(o.cache, survives_clearing(o.timestamps, now_ms), |e: (Seq<char>, VcsStatus)| e.0);
            lemma_keep_where_len(o.timestamps, is_stale_entry(now_ms));
        }
        self.cache_stats.invalidations = self.cache_stats.invalidations + dropped as u64;
        self.last_cache_cleanup_ms = Some(now_ms);
    }

    /// Clears stale statuses when maintenance is due at `now_ms`.
    pub fn maintain_cache(&mut self, now_ms: u64)
        requires
            old(self)@.well_formed(),
            old(self)@.stats.invalidations + old(self)@.timestamps.len() <= u64::MAX,
        ensures
            final(self)@.well_formed(),
            final(self)@ == maintained(old(self)@, now_ms),
    {
        let due = match self.last_cache_cleanup_ms {
            Some(last) => elapsed(now_ms, last) >= CACHE_CLEANUP_INTERVAL_MS,
            None => true,
        };
        if due || self.status_cache.len() > MAX_CACHE_SIZE {
            self.clear_stale_cache(now_ms);
        }
    }

    /// Whether a forced refresh at `now_ms` asks git: only while monitoring,
    /// and not within two seconds of the last check.
    pub fn force_refresh(&self, now_ms: u64) -> (r: bool)
        ensures
            r == (self@.monitoring && match self@.last_check_ms {
                Some(last) => elapsed_ms(now_ms, last) >= 2000,
                None => true,
            }),
    {
        if !self.monitoring {
            return false;
        }
        match self.last_check_ms {
            Some(last) => elapsed(now_ms, last) >= 2000,
            None => true,
        }
    }

    /// Whether a repository is monitored.
    pub fn is_monitoring(&self) -> (r: bool)
        ensures
            r == (self@.monitoring && self@.root_path is Some),
    {
        self.monitoring && self.root_path.is_some()
    }

    /// The monitored root.
    pub fn root_path(&self) -> (r: Option<&String>)
        ensures
            match r {
                Some(p) => self@.root_path == Some(p@),
                None => self@.root_path is None,
            },
    {
        match &self.root_path {
            Some(p) => Some(p),
            None => None,
        }
    }

    /// The cached status of each path, in order, counting a hit, a stale
    /// hit or a miss for each path that resolves; a path without a timestamp
    /// gets nothing.
    pub fn get_status_bulk(&mut self, paths: &Vec<String>, now_ms: u64) -> (r: Vec<(String, Option<VcsStatus>)>)
        requires
            old(self)@.well_formed(),
            old(self)@.stats.hits + paths@.len() <= u64::MAX,
            old(self)@.stats.misses + paths@.len() <= u64::MAX,
            old(self)@.stats.stale_hits + paths@.len() <= u64::MAX,
        ensures
            final(self)@.well_formed(),
            r@.map_values(|e: (String, Option<VcsStatus>)| (e.0@, e.1)) == bulk_lookup(old(self)@, texts(paths@), now_ms).0,
            final(self)@ == (VcsServiceView { stats: bulk_lookup(old(self)@, texts(paths@), now_ms).1, ..old(self)@ }),
    {
        let ghost o = self@;
        let ghost ps = texts(paths@);
        let mut out: Vec<(String, Option<VcsStatus>)> = Vec::new();
        let mut i: usize = 0;
        assert(ps.subrange(0, 0) =~= Seq::<Seq<char>>::empty());
        while i < paths.len()
            invariant
                i <= paths.len(),
                ps == texts(paths@),
                o.well_formed(),
                self@ == (VcsServiceView { stats: bulk_lookup(o, ps.subrange(0, i as int), now_ms).1, ..o }),
                out@.map_values(|e: (String, Option<VcsStatus>)| (e.0@, e.1)) == bulk_lookup(o, ps.subrange(0, i as int), now_ms).0,
                self.cache_stats.hits <= o.stats.hits + i,
                self.cache_stats.misses <= o.stats.misses + i,
                self.cache_stats.stale_hits <= o.stats.stale_hits + i,
                o.stats.hits + paths@.len() <= u64::MAX,
                o.stats.misses + paths@.len() <= u64::MAX,
                o.stats.stale_hits + paths@.len() <= u64::MAX,
            decreases paths.len() - i,
        {
            assert(ps.subrange(0, i + 1).drop_last() =~= ps.subrange(0, i as int));
            assert(ps[i as int] == paths@[i as int]@);
            let answer = match self.resolve(paths[i].as_str()) {
                Some(abs) => match get_value(&self.cache_timestamps, abs.as_str()) {
                    Some(t) => {
                        if elapsed(now_ms, t) < CACHE_TTL_MS {
                            self.cache_stats.hits = self.cache_stats.hits + 1;
                        } else {
                            self.cache_stats.stale_hits = self.cache_stats.stale_hits + 1;
                        }
                        get_value(&self.status_cache, abs.as_str())
                    },
                    None => {
                        self.cache_stats.misses = self.cache_stats.misses + 1;
                        None
                    },
                },
                None => None,
            };
            let k = owned(paths[i].as_str());
            out.push((k, answer));
            i = i + 1;
            assert(out@.map_values(|e: (String, Option<VcsStatus>)| (e.0@, e.1)) =~= bulk_lookup(o, ps.subrange(0, i as int), now_ms).0);
        }
        assert(ps.subrange(0, paths.len() as int) =~= ps);
        out
    }

    /// Whether filling a picker with these paths should first ask git:
    /// more than a quarter of them unresolved or without a fresh status,
    /// while a root is set.
    pub fn picker_needs_refresh(&self, paths: &Vec<String>, now_ms: u64) -> (r: bool)
        requires
            self@.well_formed(),
        ensures
            r == (missing_count(self@, texts(paths@), now_ms) > paths@.len() / 4 && self@.root_path is Some),
    {
        let ghost ps = texts(paths@);
        let mut missing: usize = 0;
        let mut i: usize = 0;
        assert(ps.subrange(0, 0) =~= Seq::<Seq<char>>::empty());
        while i < paths.len()
            invariant
                i <= paths.len(),
                ps == texts(paths@),
                self@.well_formed(),
                missing <= i,
                missing == missing_count(self@, ps.subrange(0, i as int), now_ms),
            decreases paths.len() - i,
        {
            assert(ps.subrange(0, i + 1).drop_last() =~= ps.subrange(0, i as int));
            assert(ps[i as int] == paths@[i as int]@);
            let is_missing = match self.resolve(paths[i].as_str()) {
                Some(abs) => !self.is_cache_fresh(abs.as_str(), now_ms),
                None => true,
            };
            if is_missing {
                missing = missing + 1;
            }
            i = i + 1;
        }
        assert(ps.subrange(0, paths.len() as int) =~= ps);
        missing > paths.len() / 4 && self.root_path.is_some()
    }

    /// Prepares to ask git for the status at `now_ms`: without a root there
    /// is nothing to ask; otherwise the cache is maintained and the root to
    /// ask about is given.
    pub fn begin_refresh(&mut self, now_ms: u64) -> (r: Option<String>)
        requires
            old(self)@.well_formed(),
            old(self)@.stats.invalidations + old(self)@.timestamps.len() <= u64::MAX,
        ensures
            final(self)@.well_formed(),
            match old(self)@.root_path {
                Some(root) => opt_string_view(r) == Some(root) && final(self)@ == maintained(old(self)@, now_ms),
                None => r is None && final(self)@ == old(self)@,
            },
    {
        let root = match &self.root_path {
            Some(p) => owned(p.as_str()),
            None => {
                return None;
            },
        };
        self.maintain_cache(now_ms);
        Some(root)
    }

    /// Takes what git answered at `now_ms`: its statuses replace the cache,
    /// each stamped with `now_ms`, and what changed is reported; a failure
    /// is reported as an error. Either way this is the last check.
    pub fn finish_refresh(&mut self, outcome: Result<Vec<(String, VcsStatus)>, String>, now_ms: u64) -> (r: Option<VcsEvent>)
        requires
            old(self)@.well_formed(),
            outcome matches Ok(new) ==> keys_unique(table_view(new@)),
        ensures
            final(self)@.well_formed(),
            match outcome {
                Ok(new) => {
                    let changes = status_changes(old(self)@.cache, table_view(new@));
                    &&& final(self)@ == (VcsServiceView {
                        cache: table_view(new@),
                        timestamps: stamped(table_view(new@), now_ms),
                        last_check_ms: Some(now_ms),
                        ..old(self)@
                    })
                    &&& match r {
                        Some(VcsEvent::StatusUpdated { changes: c }) => table_view(c@) == changes && changes.len() > 0,
                        Some(_) => false,
                        None => changes.len() == 0,
                    }
                },
                Err(e) => {
                    &&& final(self)@ == (VcsServiceView { last_check_ms: Some(now_ms), ..old(self)@ })
                    &&& match r {
                        Some(VcsEvent::Error { message }) => message@ == git_failure_message(e@),
                        _ => false,
                    }
                },
            },
    {
        let event = match outcome {
            Ok(new) => {
                let changes = changes_between(&self.status_cache, &new);
                let stamps = stamp_all(&new, now_ms);
                proof {
                    lemma_stamped_unique(table_view(new@), now_ms);
                }
                self.status_cache = new;
                self.cache_timestamps = stamps;
                if changes.len() > 0 {
                    Some(VcsEvent::StatusUpdated { changes })
                } else {
                    None
                }
            },
            Err(e) => {
                let mut m = chars_of("Git status failed: ");
                let ec = chars_of(e.as_str());
                append_chars(&mut m, ec.as_slice());
                Some(VcsEvent::Error { message: string_of(m.as_slice()) })
            },
        };
        self.last_check_ms = Some(now_ms);
        event
    }

    /// The lookup counts.
    pub fn get_cache_stats(&self) -> (r: CacheStats)
        ensures
            r == self@.stats,
    {
        self.cache_stats
    }

    /// Sets the lookup counts back to zero.
    pub fn reset_cache_stats(&mut self)
        requires
            old(self)@.well_formed(),
        ensures
            final(self)@.well_formed(),
            final(self)@ == (VcsServiceView {
                stats: CacheStats { hits: 0, misses: 0, stale_hits: 0, invalidations: 0 },
                ..old(self)@
            }),
    {
        self.cache_stats.reset();
    }

    /// The cache's size and the size beyond which it is cleared at once.
    pub fn get_cache_info(&self) -> (r: (usize, usize))
        ensures
            r == (self@.cache.len() as usize, MAX_CACHE_SIZE),
    {
        (self.status_cache.len(), MAX_CACHE_SIZE)
    }
}


/// The value of an entry is what its key looks up, when no key occurs twice.
pub proof fn lemma_lookup_of_entry<V>(s: Seq<(Seq<char>, V)>, i: int)
    requires
        keys_unique(s),
        0 <= i < s.len(),
    ensures
        lookup(s, s[i].0) == Some(s[i].1),
{
    lemma_key_slot_is(s, s[i].0, i);
}

/// The reported changes are exactly the differences between the old and
/// the new statuses: every path whose status differs is reported with its
/// new status (up to date when it is no longer listed), and every reported
/// path differs.
pub proof fn lemma_changes_are_the_differences(old: Seq<(Seq<char>, VcsStatus)>, new: Seq<(Seq<char>, VcsStatus)>, k: Seq<char>)
    requires
        keys_unique(old),
        keys_unique(new),
    ensures
        lookup(old, k) != lookup(new, k) ==> exists|i: int| 0 <= i < status_changes(old, new).len()
            && status_changes(old, new)[i] == (k, match lookup(new, k) {
                Some(s) => s,
                None => VcsStatus::UpToDate,
            }),
        forall|i: int| 0 <= i < status_changes(old, new).len() && status_changes(old, new)[i].0 == k
            ==> lookup(old, k) != lookup(new, k),
{
    let a = keep_where(new, changed_entries(old));
    let b = keep_where(old, dropped_entries(new));
    let f = |e: (Seq<char>, VcsStatus)| (e.0, VcsStatus::UpToDate);
    let c = status_changes(old, new);
    assert(c == a + b.map_values(f));
    lemma_keep_where(new, changed_entries(old), |e: (Seq<char>, VcsStatus)| e.0);
    lemma_keep_where(old, dropped_entries(new), |e: (Seq<char>, VcsStatus)| e.0);
    if lookup(old, k) != lookup(new, k) {
        match lookup(new, k) {
            Some(s) => {
                let i = key_slot(new, k);
                let w = choose|w: int| 0 <= w < new.len() && new[w].0 == k;
                assert(new[i] == (k, s));
                lemma_keep_where_keeps(new, changed_entries(old), i);
                let j = choose|j: int| 0 <= j < a.len() && a[j] == new[i];
                assert(c[j] == a[j]);
            },
            None => {
                let i = key_slot(old, k);
                let w = choose|w: int| 0 <= w < old.len() && old[w].0 == k;
                assert(old[i].0 == k);
                assert(dropped_entries(new)(old[i]));
                lemma_keep_where_keeps(old, dropped_entries(new), i);
                let j = choose|j: int| 0 <= j < b.len() && b[j] == old[i];
                assert(c[a.len() + j] == b.map_values(f)[j]);
            },
        }
    }
    assert forall|i: int| 0 <= i < c.len() && c[i].0 == k implies lookup(old, k) != lookup(new, k) by {
        if i < a.len() {
            assert(c[i] == a[i]);
            assert(changed_entries(old)(a[i]));
            let m = choose|m: int| 0 <= m < new.len() && a[i] == new[m];
            lemma_lookup_of_entry(new, m);
        } else {
            let j = i - a.len();
            assert(c[i] == b.map_values(f)[j]);
            assert(dropped_entries(new)(b[j]));
            let m = choose|m: int| 0 <= m < old.len() && b[j] == old[m];
            lemma_lookup_of_entry(old, m);
        }
    }
}

/// After stale entries are cleared, no timestamp left is stale and no
/// status left has a stale timestamp.
pub proof fn lemma_cleared_leaves_nothing_stale(o: VcsServiceView, now_ms: u64)
    requires
        o.well_formed(),
    ensures
        forall|i: int| 0 <= i < cleared(o, now_ms).timestamps.len()
            ==> !(elapsed_ms(now_ms, cleared(o, now_ms).timestamps[i].1) > CACHE_TTL_MS),
        forall|i: int| #![trigger cleared(o, now_ms).cache[i]] 0 <= i < cleared(o, now_ms).cache.len() ==> match lookup(o.timestamps, cleared(o, now_ms).cache[i].0) {
            Some(t) => !(elapsed_ms(now_ms, t) > CACHE_TTL_MS),
            None => true,
        },
{
    let n = cleared(o, now_ms);
    lemma_keep_where(o.timestamps, timestamp_survives(now_ms), |e: (Seq<char>, u64)| e.0);
    lemma_keep_where(o.cache, survives_clearing(o.timestamps, now_ms), |e: (Seq<char>, VcsStatus)| e.0);
    assert forall|i: int| 0 <= i < n.timestamps.len() implies !(elapsed_ms(now_ms, n.timestamps[i].1) > CACHE_TTL_MS) by {
        assert(timestamp_survives(now_ms)(n.timestamps[i]));
    }
    assert forall|i: int| #![trigger n.cache[i]] 0 <= i < n.cache.len() implies match lookup(o.timestamps, n.cache[i].0) {
        Some(t) => !(elapsed_ms(now_ms, t) > CACHE_TTL_MS),
        None => true,
    } by {
        assert(survives_clearing(o.timestamps, now_ms)(n.cache[i]));
    }
}

/// What each status of a porcelain line means, code by code (the index
/// column first, then the work-tree column):
/// - untracked: exactly `??`;
/// - modified: a modification in the index with the work tree clean,
///   modified or type-changed (`M `, `MM`, `MT`), a modification or type
///   change in the work tree alone (` M`, ` T`), or an addition modified
///   since (`AM`);
/// - added: exactly an addition or a copy with the work tree clean (`A `,
///   `C `);
/// - deleted: ` D`, `D ` or `AD`;
/// - renamed: `R ` or `RM`;
/// - conflicted: `UU`, `AA` or `DD`;
/// - no status (the line is skipped): any other code; and a file is never
///   reported up to date.
pub proof fn lemma_porcelain_codes(a: char, b: char)
    ensures
        porcelain_status(a, b) == Some(VcsStatus::Untracked) <==> (a == '?' && b == '?'),
        porcelain_status(a, b) == Some(VcsStatus::Modified) <==> ((a == 'M' && (b == ' ' || b == 'M' || b == 'T'))
            || (a == ' ' && (b == 'M' || b == 'T')) || (a == 'A' && b == 'M')),
        porcelain_status(a, b) == Some(VcsStatus::Added) <==> ((a == 'A' || a == 'C') && b == ' '),
        porcelain_status(a, b) == Some(VcsStatus::Deleted) <==> ((a == ' ' && b == 'D') || (a == 'D' && b == ' ') || (
        a == 'A' && b == 'D')),
        porcelain_status(a, b) == Some(VcsStatus::Renamed) <==> (a == 'R' && (b == ' ' || b == 'M')),
        porcelain_status(a, b) == Some(VcsStatus::Conflicted) <==> ((a == 'U' && b == 'U') || (a == 'A' && b == 'A') || (
        a == 'D' && b == 'D')),
        porcelain_status(a, b) != Some(VcsStatus::UpToDate),
        porcelain_status(a, b) is None <==> !(
            (a == '?' && b == '?')
            || (a == 'M' && (b == ' ' || b == 'M' || b == 'T'))
            || (a == ' ' && (b == 'M' || b == 'T' || b == 'D'))
            || (a == 'A' && (b == ' ' || b == 'M' || b == 'D' || b == 'A'))
            || (a == 'C' && b == ' ')
            || (a == 'D' && (b == ' ' || b == 'D'))
            || (a == 'R' && (b == ' ' || b == 'M'))
            || (a == 'U' && b == 'U')),
{
}


} // verus!
