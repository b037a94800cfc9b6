//! Converting between positions counted in bytes and positions counted in
//! grapheme clusters within one line of text.
use vstd::prelude::*;
use vstd::string::StringSliceAdditionalSpecFns;
use unicode_segmentation::UnicodeSegmentation;

verus! {

/// The byte lengths of the extended grapheme clusters of a text, in order,
/// as `UnicodeSegmentation::graphemes(text, true)` yields the clusters.
pub uninterp spec fn grapheme_byte_lengths(text: Seq<char>) -> Seq<usize>;

/// The sum of the lengths.
pub open spec fn total_len(lens: Seq<usize>) -> int
    decreases lens.len(),
{
    if lens.len() == 0 {
        0
    } else {
        total_len(lens.drop_last()) + lens.last()
    }
}

/// The byte length of each extended grapheme cluster of `text`. The
/// clusters are consecutive non-empty slices that cover the text from its
/// first byte to its last, so the lengths are positive and add up to the
/// text's length in bytes.
#[verifier::external_body]
fn grapheme_lengths_of(text: &str) -> (r: Vec<usize>)
    ensures
        r@ == grapheme_byte_lengths(text@),
        total_len(r@) == text.spec_bytes().len(),
        forall|k: int| 0 <= k < r@.len() ==> r@[k] > 0,
{
    text.graphemes(true).map(|g| g.len()).collect()
}

/// How many clusters start before byte `target`: clusters are counted while
/// the bytes counted so far stay below it.
pub open spec fn clusters_before(lens: Seq<usize>, target: int, counted: int) -> nat
    decreases lens.len(),
{
    if lens.len() == 0 || counted >= target {
        0
    } else {
        1 + clusters_before(lens.drop_first(), target, counted + lens[0])
    }
}

/// The byte position where cluster number `n` starts (the end of the text
/// when there are fewer clusters).
pub open spec fn bytes_before(lens: Seq<usize>, n: int) -> int {
    total_len(lens.subrange(0, if n < lens.len() { n } else { lens.len() as int }))
}

proof fn lemma_total_len_prefix(lens: Seq<usize>, k: int)
    requires
        0 <= k <= lens.len(),
    ensures
        0 <= total_len(lens.subrange(0, k)) <= total_len(lens),
    decreases lens.len() - k,
{
    if k < lens.len() {
        lemma_total_len_prefix(lens, k + 1);
        assert(lens.subrange(0, k + 1).drop_last() =~= lens.subrange(0, k));
    } else {
        assert(lens.subrange(0, k) =~= lens);
    }
    lemma_total_len_nonneg(lens.subrange(0, k));
}

proof fn lemma_total_len_nonneg(lens: Seq<usize>)
    ensures
        total_len(lens) >= 0,
    decreases lens.len(),
{
    if lens.len() > 0 {
        lemma_total_len_nonneg(lens.drop_last());
    }
}

/// The number of clusters from the start of the line to byte
/// `target`, counting each cluster that starts before it.
pub fn clusters_before_byte(lens: &Vec<usize>, target: usize) -> (r: usize)
    requires
        total_len(lens@) <= usize::MAX,
    ensures
        r == clusters_before(lens@, target as int, 0),
{
    let mut index: usize = 0;
    let mut counted: usize = 0;
    assert(lens@.subrange(0, 0) =~= Seq::<usize>::empty());
    assert(lens@.skip(0) =~= lens@);
    while index < lens.len() && counted < target
        invariant
            index <= lens.len(),
            counted == total_len(lens@.subrange(0, index as int)),
            total_len(lens@) <= usize::MAX,
            clusters_before(lens@, target as int, 0) == index + clusters_before(
                lens@.skip(index as int),
                target as int,
                counted as int,
            ),
        decreases lens.len() - index,
    {
        proof {
            lemma_total_len_prefix(lens@, index + 1);
            assert(lens@.subrange(0, index + 1).drop_last() =~= lens@.subrange(0, index as int));
            assert(lens@.skip(index as int).drop_first() =~= lens@.skip(index + 1));
        }
        counted = counted + lens[index];
        index = index + 1;
    }
    index
}

/// The byte where cluster number `n` starts, or the end of the line when
/// it has fewer clusters.
pub fn bytes_before_cluster(lens: &Vec<usize>, n: usize) -> (r: usize)
    requires
        total_len(lens@) <= usize::MAX,
    ensures
        r == bytes_before(lens@, n as int),
{
    let mut index: usize = 0;
    let mut counted: usize = 0;
    assert(lens@.subrange(0, 0) =~= Seq::<usize>::empty());
    while index < lens.len() && index < n
        invariant
            index <= lens.len(),
            index <= n,
            counted == total_len(lens@.subrange(0, index as int)),
            total_len(lens@) <= usize::MAX,
        decreases lens.len() - index,
    {
        proof {
            lemma_total_len_prefix(lens@, index + 1);
            assert(lens@.subrange(0, index + 1).drop_last() =~= lens@.subrange(0, index as int));
        }
        counted = counted + lens[index];
        index = index + 1;
    }
    counted
}

/// The cluster index within a line for a byte index: how many clusters
/// start before it.
pub fn char_idx_to_grapheme_idx(line_text: &str, char_idx: usize) -> (r: usize)
    requires
        line_text.spec_bytes().len() <= usize::MAX,
    ensures
        r == clusters_before(grapheme_byte_lengths(line_text@), char_idx as int, 0),
{
    let lens = grapheme_lengths_of(line_text);
    clusters_before_byte(&lens, char_idx)
}

/// The byte index within a line where a cluster starts (the line's end for
/// an index past its last cluster).
pub fn grapheme_idx_to_char_idx(line_text: &str, grapheme_idx: usize) -> (r: usize)
    requires
        line_text.spec_bytes().len() <= usize::MAX,
    ensures
        r == bytes_before(grapheme_byte_lengths(line_text@), grapheme_idx as int),
{
    let lens = grapheme_lengths_of(line_text);
    bytes_before_cluster(&lens, grapheme_idx)
}

proof fn lemma_clusters_before_start(lens: Seq<usize>, n: int, counted: int)
    requires
        0 <= n <= lens.len(),
        forall|k: int| 0 <= k < lens.len() ==> lens[k] > 0,
    ensures
        clusters_before(lens, counted + total_len(lens.subrange(0, n)), counted) == n,
    decreases n,
{
    if n > 0 {
        let t = lens.drop_first();
        assert forall|k: int| 0 <= k < t.len() implies t[k] > 0 by {
            assert(t[k] == lens[k + 1]);
        }
        lemma_total_len_first(lens.subrange(0, n));
        assert(lens.subrange(0, n).drop_first() =~= t.subrange(0, n - 1));
        lemma_clusters_before_start(t, n - 1, counted + lens[0]);
        lemma_total_len_nonneg(t.subrange(0, n - 1));
    }
}

proof fn lemma_total_len_first(lens: Seq<usize>)
    requires
        lens.len() > 0,
    ensures
        total_len(lens) == lens[0] + total_len(lens.drop_first()),
    decreases lens.len(),
{
    if lens.len() > 1 {
        lemma_total_len_first(lens.drop_last());
        assert(lens.drop_last().drop_first() =~= lens.drop_first().drop_last());
    } else {
        assert(lens.drop_first() =~= Seq::<usize>::empty());
        assert(lens.drop_last() =~= Seq::<usize>::empty());
    }
}

/// Going from a cluster index to its starting byte and back gives the
/// cluster index again, for every cluster of the line.
pub proof fn lemma_cluster_start_round_trip(lens: Seq<usize>, n: int)
    requires
        0 <= n <= lens.len(),
        forall|k: int| 0 <= k < lens.len() ==> lens[k] > 0,
    ensures
        clusters_before(lens, bytes_before(lens, n), 0) == n,
{
    lemma_clusters_before_start(lens, n, 0);
}

} // verus!
