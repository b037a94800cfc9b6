//! How a line of the document is cut into text runs for drawing. Two
//! highlighters walk the text: the syntax highlighter and the overlay
//! highlighter (selections, cursors, diagnostics). Each has a style that
//! changes at its events; a run is a stretch of the line over which neither
//! style changes. A highlighter is given here by the positions of its
//! events: entry `k` is where its next event lies after `k` events were
//! taken, and the run names, for each highlighter, how many events were
//! taken before it, which tells the caller the style in force.
use vstd::prelude::*;

verus! {

/// Event positions that never go back.
pub open spec fn non_decreasing(ps: Seq<usize>) -> bool {
    forall|i: int, j: int| 0 <= i <= j < ps.len() ==> ps[i] <= ps[j]
}

/// Whether a highlighter given by `ps` can be walked over a line that ends
/// at `line_end`: it has a state, its events never go back, and its last
/// known event lies at or after the end of the line.
pub open spec fn walkable(ps: Seq<usize>, line_end: usize) -> bool {
    &&& ps.len() > 0
    &&& non_decreasing(ps)
    &&& ps.last() >= line_end
}

/// The first state at or after `i` whose next event lies after `p`.
pub open spec fn first_after_from(ps: Seq<usize>, p: int, i: int) -> int
    decreases ps.len() - i,
{
    if i < 0 || i >= ps.len() {
        ps.len() as int
    } else if ps[i] > p {
        i
    } else {
        first_after_from(ps, p, i + 1)
    }
}

/// How many events a highlighter has taken when the drawing reaches `p`:
/// every event at or before `p`.
pub open spec fn state_at(ps: Seq<usize>, p: int) -> int {
    first_after_from(ps, p, 0)
}

pub open spec fn min3(a: int, b: int, c: int) -> int {
    let m = if a <= b { a } else { b };
    if m <= c { m } else { c }
}

/// The runs from `p` to the end of the line: each starts where the last
/// ended, names the states of both highlighters there, and ends at the
/// first next event of either, or at the end of the line.
pub open spec fn runs_from(p: int, line_end: int, syntax: Seq<usize>, overlay: Seq<usize>) -> Seq<
    (usize, usize, usize),
>
    decreases line_end - p,
{
    if p >= line_end {
        seq![]
    } else {
        let ks = state_at(syntax, p);
        let ko = state_at(overlay, p);
        let next = min3(syntax[ks] as int, overlay[ko] as int, line_end);
        if next <= p {
            seq![]
        } else {
            seq![((next - p) as usize, ks as usize, ko as usize)] + runs_from(next, line_end, syntax, overlay)
        }
    }
}

/// The total length of some runs.
pub open spec fn runs_len(r: Seq<(usize, usize, usize)>) -> int
    decreases r.len(),
{
    if r.len() == 0 {
        0
    } else {
        r[0].0 + runs_len(r.drop_first())
    }
}

/// Whether every run is non-empty and names a state of each highlighter.
pub open spec fn runs_well_formed(r: Seq<(usize, usize, usize)>, ns: int, no: int) -> bool {
    forall|k: int| 0 <= k < r.len() ==> #[trigger] r[k].0 > 0 && r[k].1 < ns && r[k].2 < no
}

/// A state that has taken every event at or before `p` and none after is
/// the state at `p`.
proof fn lemma_state_at(ps: Seq<usize>, p: int, k: int, i: int)
    requires
        non_decreasing(ps),
        0 <= i <= k < ps.len(),
        ps[k] > p,
        k == 0 || ps[k - 1] <= p,
    ensures
        first_after_from(ps, p, i) == k,
    decreases k - i,
{
    if i < k {
        assert(ps[i] <= ps[k - 1]);
        lemma_state_at(ps, p, k, i + 1);
    }
}

/// The runs from `p` are well formed and cover the line from `p` to its
/// end.
proof fn lemma_runs_cover(p: int, line_end: int, syntax: Seq<usize>, overlay: Seq<usize>)
    requires
        0 <= p <= line_end <= usize::MAX,
        walkable(syntax, line_end as usize),
        walkable(overlay, line_end as usize),
    ensures
        runs_len(runs_from(p, line_end, syntax, overlay)) == line_end - p,
        runs_well_formed(runs_from(p, line_end, syntax, overlay), syntax.len() as int, overlay.len() as int),
    decreases line_end - p,
{
    if p < line_end {
        lemma_state_in_range(syntax, p, line_end);
        lemma_state_in_range(overlay, p, line_end);
        let ks = state_at(syntax, p);
        let ko = state_at(overlay, p);
        let next = min3(syntax[ks] as int, overlay[ko] as int, line_end);
        lemma_runs_cover(next, line_end, syntax, overlay);
        let rest = runs_from(next, line_end, syntax, overlay);
        let r = runs_from(p, line_end, syntax, overlay);
        assert(r.drop_first() =~= rest);
        assert forall|k: int| 0 <= k < r.len() implies #[trigger] r[k].0 > 0 && r[k].1 < syntax.len() && r[k].2
            < overlay.len() by {
            if k > 0 {
                assert(r[k] == rest[k - 1]);
            }
        }
    }
}

/// Before the end of the line the state at `p` exists and its next event
/// lies after `p`.
proof fn lemma_state_in_range(ps: Seq<usize>, p: int, line_end: int)
    requires
        p < line_end <= usize::MAX,
        walkable(ps, line_end as usize),
    ensures
        0 <= state_at(ps, p) < ps.len(),
        ps[state_at(ps, p)] > p,
{
    lemma_first_after_in_range(ps, p, 0);
}

proof fn lemma_first_after_in_range(ps: Seq<usize>, p: int, i: int)
    requires
        0 <= i < ps.len(),
        ps.last() > p,
    ensures
        i <= first_after_from(ps, p, i) < ps.len(),
        ps[first_after_from(ps, p, i)] > p,
    decreases ps.len() - i,
{
    if ps[i] <= p {
        assert(i + 1 < ps.len());
        lemma_first_after_in_range(ps, p, i + 1);
    }
}

/// The runs that draw the line from `line_start` to `line_end`: each run's
/// length, with how many events the syntax and the overlay highlighter had
/// taken when it began. The runs are non-empty and their lengths add up to
/// the line's length.
pub fn line_runs(
    line_start: usize,
    line_end: usize,
    syntax_positions: &[usize],
    overlay_positions: &[usize],
) -> (r: Vec<(usize, usize, usize)>)
    requires
        line_start <= line_end,
        walkable(syntax_positions@, line_end),
        walkable(overlay_positions@, line_end),
    ensures
        r@ == runs_from(line_start as int, line_end as int, syntax_positions@, overlay_positions@),
        runs_len(r@) == line_end - line_start,
        runs_well_formed(r@, syntax_positions@.len() as int, overlay_positions@.len() as int),
{
    let ghost syntax = syntax_positions@;
    let ghost overlay = overlay_positions@;
    let mut runs: Vec<(usize, usize, usize)> = Vec::new();
    let mut position = line_start;
    let mut ks: usize = 0;
    let mut ko: usize = 0;
    while position < line_end
        invariant
            line_start <= position <= line_end,
            syntax == syntax_positions@,
            overlay == overlay_positions@,
            walkable(syntax, line_end),
            walkable(overlay, line_end),
            ks < syntax.len(),
            ko < overlay.len(),
            ks == 0 || syntax[ks - 1] <= position,
            ko == 0 || overlay[ko - 1] <= position,
            runs@ + runs_from(position as int, line_end as int, syntax, overlay) == runs_from(
                line_start as int,
                line_end as int,
                syntax,
                overlay,
            ),
        decreases line_end - position,
    {
        while position >= syntax_positions[ks]
            invariant
                position < line_end,
                syntax == syntax_positions@,
                walkable(syntax, line_end),
                ks < syntax.len(),
                ks == 0 || syntax[ks - 1] <= position,
            decreases syntax.len() - ks,
        {
            assert(syntax[ks as int] < syntax.last());
            ks = ks + 1;
        }
        while position >= overlay_positions[ko]
            invariant
                position < line_end,
                overlay == overlay_positions@,
                walkable(overlay, line_end),
                ko < overlay.len(),
                ko == 0 || overlay[ko - 1] <= position,
            decreases overlay.len() - ko,
        {
            assert(overlay[ko as int] < overlay.last());
            ko = ko + 1;
        }
        proof {
            lemma_state_at(syntax, position as int, ks as int, 0);
            lemma_state_at(overlay, position as int, ko as int, 0);
        }
        let a = syntax_positions[ks];
        let b = overlay_positions[ko];
        let m = if a <= b { a } else { b };
        let next = if m <= line_end { m } else { line_end };
        proof {
            let rest = runs_from(next as int, line_end as int, syntax, overlay);
            assert(runs_from(position as int, line_end as int, syntax, overlay) == seq![
                ((next - position) as usize, ks, ko),
            ] + rest);
            assert(runs@.push(((next - position) as usize, ks, ko)) + rest =~= runs@ + (seq![
                ((next - position) as usize, ks, ko),
            ] + rest));
        }
        runs.push((next - position, ks, ko));
        position = next;
    }
    proof {
        assert(runs@ + runs_from(position as int, line_end as int, syntax, overlay) =~= runs@);
        lemma_runs_cover(line_start as int, line_end as int, syntax, overlay);
    }
    runs
}

} // verus!
