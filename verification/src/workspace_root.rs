//! Finding the root of the workspace around a directory: the nearest
//! ancestor that holds a version-control or editor marker directory.
use vstd::prelude::*;
use crate::text::owned;
use crate::vcs::{join_path, path_join};
use crate::statusline::path_parent;

verus! {

/// What `Path::ancestors` yields for a path (the path itself, then each
/// parent in turn), on the platform the crate is built for.
pub uninterp spec fn path_ancestors(path: Seq<char>) -> Seq<Seq<char>>;

/// Whether `s` starts with `path` and goes on by parents: each entry is
/// the parent of the one before it, and the last has no parent.
pub open spec fn parent_chain(path: Seq<char>, s: Seq<Seq<char>>) -> bool {
    &&& s.len() >= 1
    &&& s[0] == path
    &&& forall|k: int| 1 <= k < s.len() ==> path_parent(#[trigger] s[k - 1]) == Some(s[k])
    &&& path_parent(s.last()) is None
}

/// Collects `Path::ancestors`. The documentation promises the path itself
/// first and then what taking the parent (`Path::parent`) gives again and
/// again, until there is no parent.
#[verifier::external_body]
fn ancestors_of(path: &str) -> (r: Vec<String>)
    ensures
        r@.map_values(|s: String| s@) == path_ancestors(path@),
        r@.len() >= 1,
        r@[0]@ == path@,
        forall|k: int| 1 <= k < r@.len() ==> path_parent(#[trigger] r@[k - 1]@) == Some(r@[k]@),
        path_parent(r@.last()@) is None,
{
    std::path::Path::new(path).ancestors().map(|p| p.to_string_lossy().to_string()).collect()
}

/// Calls `Path::exists`. The answer depends on the disk, so nothing is
/// stated of it; callers speak of what a call gave through `call_ensures`
/// (see `exists_answered`).
#[verifier::external_body]
pub(crate) fn path_exists(path: &str) -> bool {
    std::path::Path::new(path).exists()
}

/// The paths probed for the markers of a directory: the directory joined
/// with `.git`, `.svn`, `.hg`, `.jj` and `.helix`, in that order.
pub open spec fn marker_paths_spec(dir: Seq<char>) -> Seq<Seq<char>> {
    seq![
        path_join(dir, ".git"@),
        path_join(dir, ".svn"@),
        path_join(dir, ".hg"@),
        path_join(dir, ".jj"@),
        path_join(dir, ".helix"@),
    ]
}

/// Whether asking the disk (`Path::exists`, through `path_exists`) whether
/// the path with the text `p` exists gave `answer`: some call of
/// `path_exists` on a string with that text returned it.
pub closed spec fn exists_answered(p: Seq<char>, answer: bool) -> bool {
    exists|s: &str| s@ == p && #[trigger] call_ensures(path_exists, (s,), answer)
}

/// Whether `marked` is what probing the markers of `dir` gave: some marker
/// path exists when it is set; no marker path exists when it is not.
pub open spec fn probed_marker(dir: Seq<char>, marked: bool) -> bool {
    if marked {
        exists|i: int| 0 <= i < 5 && #[trigger] exists_answered(marker_paths_spec(dir)[i], true)
    } else {
        forall|i: int| 0 <= i < 5 ==> #[trigger] exists_answered(marker_paths_spec(dir)[i], false)
    }
}

/// The paths probed for the markers of a directory.
pub fn marker_paths(dir: &str) -> (r: Vec<String>)
    ensures
        r@.map_values(|s: String| s@) == marker_paths_spec(dir@),
{
    let mut r: Vec<String> = Vec::new();
    r.push(join_path(dir, ".git"));
    r.push(join_path(dir, ".svn"));
    r.push(join_path(dir, ".hg"));
    r.push(join_path(dir, ".jj"));
    r.push(join_path(dir, ".helix"));
    assert(r@.map_values(|s: String| s@) =~= marker_paths_spec(dir@));
    r
}

/// Whether the directory holds one of the marker entries: each marker path
/// is probed in turn until one exists.
fn has_marker(dir: &str) -> (r: bool)
    ensures
        probed_marker(dir@, r),
{
    let paths = marker_paths(dir);
    let ghost ps = paths@.map_values(|s: String| s@);
    assert(ps.len() == paths@.len());
    let mut i: usize = 0;
    while i < paths.len()
        invariant
            i <= paths.len(),
            paths.len() == 5,
            ps == paths@.map_values(|s: String| s@),
            ps == marker_paths_spec(dir@),
            forall|k: int| 0 <= k < i ==> #[trigger] exists_answered(ps[k], false),
        decreases paths.len() - i,
    {
        let p = paths[i].as_str();
        let e = path_exists(p);
        assert(p@ == ps[i as int]);
        assert(exists_answered(ps[i as int], e));
        if e {
            return true;
        }
        i = i + 1;
    }
    false
}

/// The first ancestor that has a marker, or the start directory when none has.
pub open spec fn first_marked(ancestors: Seq<Seq<char>>, marked: Seq<bool>, start: Seq<char>) -> Seq<char>
    decreases ancestors.len(),
{
    if ancestors.len() == 0 || marked.len() == 0 {
        start
    } else if marked[0] {
        ancestors[0]
    } else {
        first_marked(ancestors.drop_first(), marked.drop_first(), start)
    }
}

/// The first of the ancestors found to hold a marker, or the start
/// directory when none does.
pub fn workspace_root_among(ancestors: &Vec<String>, marked: &Vec<bool>, start_dir: &str) -> (r: String)
    ensures
        r@ == first_marked(ancestors@.map_values(|s: String| s@), marked@, start_dir@),
{
    let ghost all = ancestors@.map_values(|s: String| s@);
    let mut i: usize = 0;
    assert(all.skip(0) =~= all);
    assert(marked@.skip(0) =~= marked@);
    while i < ancestors.len() && i < marked.len()
        invariant
            i <= ancestors.len(),
            i <= marked.len(),
            all == ancestors@.map_values(|s: String| s@),
            first_marked(all, marked@, start_dir@) == first_marked(
                all.skip(i as int),
                marked@.skip(i as int),
                start_dir@,
            ),
        decreases ancestors.len() - i,
    {
        assert(all.skip(i as int)[0] == ancestors@[i as int]@);
        assert(marked@.skip(i as int)[0] == marked@[i as int]);
        if marked[i] {
            return ancestors[i].clone();
        }
        assert(all.skip(i as int).drop_first() =~= all.skip(i + 1));
        assert(marked@.skip(i as int).drop_first() =~= marked@.skip(i + 1));
        i = i + 1;
    }
    assert(all.skip(i as int).len() == 0 || marked@.skip(i as int).len() == 0);
    owned(start_dir)
}

/// Whether `r` is what the root search gives for `start` when `marked`
/// tells, for each ancestor of `start` (itself first), whether it holds a
/// marker.
pub open spec fn root_for_marks(start: Seq<char>, marked: Seq<bool>, r: Seq<char>) -> bool {
    marked.len() == path_ancestors(start).len() && r == first_marked(path_ancestors(start), marked, start)
}

/// Whether each ancestor of `start` up to the first marked one was probed
/// for its markers with the answer that `marked` records (the ancestors
/// after it are not probed).
pub open spec fn marks_probed(start: Seq<char>, marked: Seq<bool>) -> bool {
    forall|k: int|
        0 <= k < marked.len() && (forall|j: int| 0 <= j < k ==> !marked[j]) ==> probed_marker(
            path_ancestors(start)[k],
            #[trigger] marked[k],
        )
}

/// Whether `r` is the root that probing the ancestors of `start` for their
/// markers gave.
pub open spec fn root_by_probing(start: Seq<char>, r: Seq<char>) -> bool {
    exists|marked: Seq<bool>| #[trigger] root_for_marks(start, marked, r) && marks_probed(start, marked)
}

/// The nearest ancestor of `start_dir` (itself included) that holds a
/// `.git`, `.svn`, `.hg`, `.jj` or `.helix` entry, or `start_dir` when none
/// does. Which directories hold one is read from the disk: each ancestor,
/// from the start directory up, has its five marker paths probed
/// (`Path::exists`) until one holds a marker, and the result is the first
/// one that does. The ancestors are the start directory and what taking
/// the parent gives again and again, so the result is the start directory
/// or one of its parents, grandparents and so on.
pub fn find_workspace_root_from(start_dir: &str) -> (r: String)
    ensures
        root_by_probing(start_dir@, r@),
        parent_chain(start_dir@, path_ancestors(start_dir@)),
        path_ancestors(start_dir@).contains(r@),
{
    let ancestors = ancestors_of(start_dir);
    let mut marked: Vec<bool> = Vec::new();
    let mut found = false;
    let ghost all = ancestors@.map_values(|s: String| s@);
    while marked.len() < ancestors.len()
        invariant
            marked.len() <= ancestors.len(),
            all == ancestors@.map_values(|s: String| s@),
            all == path_ancestors(start_dir@),
            found == (exists|j: int| 0 <= j < marked@.len() && marked@[j]),
            marks_probed(start_dir@, marked@),
        decreases ancestors.len() - marked.len(),
    {
        let ghost before = marked@;
        if found {
            marked.push(false);
            proof {
                let j = choose|j: int| 0 <= j < before.len() && before[j];
                assert(marked@[j]);
                assert forall|k: int|
                    0 <= k < marked@.len() && (forall|jj: int| 0 <= jj < k ==> !marked@[jj]) implies probed_marker(
                    path_ancestors(start_dir@)[k],
                    #[trigger] marked@[k],
                ) by {
                    if k == before.len() {
                        assert(!marked@[j]);
                    } else {
                        assert(marked@[k] == before[k]);
                        assert forall|jj: int| 0 <= jj < k implies !before[jj] by {
                            assert(before[jj] == marked@[jj]);
                        }
                    }
                }
            }
        } else {
            let k = marked.len();
            assert(all[k as int] == ancestors@[k as int]@);
            let m = has_marker(ancestors[k].as_str());
            marked.push(m);
            found = m;
            proof {
                assert forall|kk: int|
                    0 <= kk < marked@.len() && (forall|jj: int| 0 <= jj < kk ==> !marked@[jj]) implies probed_marker(
                    path_ancestors(start_dir@)[kk],
                    #[trigger] marked@[kk],
                ) by {
                    if kk < before.len() {
                        assert(marked@[kk] == before[kk]);
                        assert forall|jj: int| 0 <= jj < kk implies !before[jj] by {
                            assert(before[jj] == marked@[jj]);
                        }
                    }
                }
                if m {
                    assert(marked@[k as int]);
                } else {
                    assert forall|j: int| 0 <= j < marked@.len() implies !marked@[j] by {
                        if j < before.len() {
                            assert(marked@[j] == before[j]);
                        }
                    }
                }
            }
        }
    }
    let r = workspace_root_among(&ancestors, &marked, start_dir);
    assert(root_for_marks(start_dir@, marked@, r@));
    assert(root_by_probing(start_dir@, r@));
    proof {
        assert forall|k: int| 1 <= k < all.len() implies path_parent(#[trigger] all[k - 1]) == Some(all[k]) by {
            assert(all[k - 1] == ancestors@[k - 1]@);
            assert(all[k] == ancestors@[k]@);
        }
        assert(all.last() == ancestors@.last()@);
        lemma_first_marked_is_listed(all, marked@, start_dir@);
        assert(all[0] == start_dir@);
    }
    r
}

/// The first marked ancestor is the start directory or one of the
/// ancestors.
proof fn lemma_first_marked_is_listed(ancestors: Seq<Seq<char>>, marked: Seq<bool>, start: Seq<char>)
    ensures
        first_marked(ancestors, marked, start) == start || ancestors.contains(first_marked(ancestors, marked, start)),
    decreases ancestors.len(),
{
    if ancestors.len() > 0 && marked.len() > 0 {
        if marked[0] {
            assert(ancestors[0] == ancestors[0]);
        } else {
            lemma_first_marked_is_listed(ancestors.drop_first(), marked.drop_first(), start);
            let r = first_marked(ancestors, marked, start);
            if r != start {
                let k = choose|k: int| 0 <= k < ancestors.drop_first().len() && ancestors.drop_first()[k] == r;
                assert(ancestors[k + 1] == r);
            }
        }
    }
}

} // verus!
