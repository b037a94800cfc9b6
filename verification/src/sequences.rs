//! Sequence helpers shared by the state models: the elements that satisfy a
//! condition, in order.
use vstd::prelude::*;

verus! {

/// The elements of a sequence that satisfy `keep`, in order.
pub open spec fn keep_where<A>(s: Seq<A>, keep: spec_fn(A) -> bool) -> Seq<A>
    decreases s.len(),
{
    if s.len() == 0 {
        s
    } else {
        let rest = keep_where(s.drop_first(), keep);
        if keep(s[0]) {
            seq![s[0]] + rest
        } else {
            rest
        }
    }
}

/// What `keep_where` keeps satisfies `keep` and comes from the sequence,
/// and a key that no two elements share stays unshared.
pub proof fn lemma_keep_where<A, K>(s: Seq<A>, keep: spec_fn(A) -> bool, key: spec_fn(A) -> K)
    ensures
        forall|k: int| 0 <= k < keep_where(s, keep).len() ==> #[trigger] keep(keep_where(s, keep)[k]),
        forall|k: int| #![trigger keep_where(s, keep)[k]] 0 <= k < keep_where(s, keep).len() ==> exists|j: int| #![trigger s[j]] 0 <= j < s.len() && keep_where(s, keep)[k] == s[j],
        (forall|i: int, j: int| #![trigger s[i], s[j]] 0 <= i < j < s.len() ==> key(s[i]) != key(s[j])) ==>
            (forall|i: int, j: int| #![trigger keep_where(s, keep)[i], keep_where(s, keep)[j]] 0 <= i < j < keep_where(s, keep).len() ==> key(keep_where(s, keep)[i]) != key(keep_where(s, keep)[j])),
    decreases s.len(),
{
    if s.len() > 0 {
        let t = s.drop_first();
        lemma_keep_where(t, keep, key);
        let rest = keep_where(t, keep);
        assert forall|k: int| #![trigger rest[k]] 0 <= k < rest.len() implies exists|j: int| #![trigger s[j]] 1 <= j < s.len() && rest[k] == s[j] by {
            let j = choose|j: int| 0 <= j < t.len() && rest[k] == t[j];
            assert(rest[k] == s[j + 1]);
        }
        if keep(s[0]) {
            let r = seq![s[0]] + rest;
            assert forall|k: int| #![trigger r[k]] 0 <= k < r.len() implies exists|j: int| #![trigger s[j]] 0 <= j < s.len() && r[k] == s[j] by {
                if k == 0 {
                    assert(r[k] == s[0]);
                } else {
                    assert(r[k] == rest[k - 1]);
                }
            }
            if forall|i: int, j: int| #![trigger s[i], s[j]] 0 <= i < j < s.len() ==> key(s[i]) != key(s[j]) {
                assert forall|i: int, j: int| #![trigger r[i], r[j]] 0 <= i < j < r.len() implies key(r[i]) != key(r[j]) by {
                    if i == 0 {
                        let jj = choose|jj: int| 1 <= jj < s.len() && rest[j - 1] == s[jj];
                        assert(r[j] == s[jj]);
                    } else {
                        assert(r[i] == rest[i - 1] && r[j] == rest[j - 1]);
                    }
                }
            }
        }
    }
}

/// Every element that satisfies `keep` is kept.
pub proof fn lemma_keep_where_keeps<A>(s: Seq<A>, keep: spec_fn(A) -> bool, i: int)
    requires
        0 <= i < s.len(),
        keep(s[i]),
    ensures
        exists|j: int| 0 <= j < keep_where(s, keep).len() && keep_where(s, keep)[j] == s[i],
    decreases s.len(),
{
    let rest = keep_where(s.drop_first(), keep);
    if i == 0 {
        assert((seq![s[0]] + rest)[0] == s[0]);
        assert(keep_where(s, keep)[0] == s[0]);
    } else {
        lemma_keep_where_keeps(s.drop_first(), keep, i - 1);
        let j = choose|j: int| 0 <= j < rest.len() && rest[j] == s.drop_first()[i - 1];
        assert(s.drop_first()[i - 1] == s[i]);
        if keep(s[0]) {
            assert((seq![s[0]] + rest)[j + 1] == rest[j]);
            assert(keep_where(s, keep)[j + 1] == s[i]);
        } else {
            assert(keep_where(s, keep)[j] == s[i]);
        }
    }
}

/// A sequence splits into what `keep` keeps and what it leaves.
pub proof fn lemma_keep_where_len<A>(s: Seq<A>, keep: spec_fn(A) -> bool)
    ensures
        keep_where(s, keep).len() + keep_where(s, |a: A| !keep(a)).len() == s.len(),
        keep_where(s, keep).len() <= s.len(),
    decreases s.len(),
{
    if s.len() > 0 {
        lemma_keep_where_len(s.drop_first(), keep);
    }
}

} // verus!
