//! Geometry of split editor panes in terminal cells: finding the dividers
//! between neighbouring panes, merging divider segments, the areas panes
//! cover on screen, and the areas after dragging a divider.
use vstd::prelude::*;

verus! {

/// The narrowest a pane may become when a vertical divider is dragged.
pub const SPLIT_PANE_MIN_WIDTH_CELLS: u16 = 8;

/// The lowest a pane may become when a horizontal divider is dragged.
pub const SPLIT_PANE_MIN_HEIGHT_CELLS: u16 = 3;

/// The widest separator between two panes that still makes them neighbours.
pub const SPLIT_PANE_MAX_SEPARATOR_GAP_CELLS: u16 = 1;

/// A rectangle of terminal cells.
#[derive(Clone, Copy, Debug, PartialEq, Eq, Structural)]
pub struct Rect {
    pub x: u16,
    pub y: u16,
    pub width: u16,
    pub height: u16,
}

impl Rect {
    /// The rectangle at (`x`, `y`) with the given size.
    pub fn new(x: u16, y: u16, width: u16, height: u16) -> (r: Rect)
        ensures
            r == (Rect { x, y, width, height }),
    {
        Rect { x, y, width, height }
    }
}

/// Identifies an editor view.
#[derive(Clone, Copy, Debug, PartialEq, Eq, Structural)]
pub struct ViewId(pub u64);

impl Default for ViewId {
    /// The id that no view has: zero.
    fn default() -> (r: ViewId)
        ensures
            r == ViewId(0),
    {
        ViewId(0)
    }
}

/// Where a document view lies in the editor area.
#[derive(Clone, Copy, Debug, PartialEq, Eq, Structural)]
pub struct DocumentViewLayout {
    pub view_id: ViewId,
    pub area: Rect,
    pub is_focused: bool,
}

/// The direction in which a divider moves: a vertical divider separates
/// panes side by side, a horizontal one panes above each other.
#[derive(Clone, Copy, Debug, PartialEq, Eq, Structural)]
pub enum SplitPaneResizeAxis {
    Vertical,
    Horizontal,
}

/// A divider between the panes before it (left or above) and after it.
#[derive(Clone, Debug, PartialEq, Eq)]
pub struct SplitPaneDivider {
    pub axis: SplitPaneResizeAxis,
    pub before_view_ids: Vec<ViewId>,
    pub after_view_ids: Vec<ViewId>,
    pub edge: u16,
    pub start: u16,
    pub span: u16,
    pub gap: u16,
}

/// A divider with its view lists as sequences.
pub struct DividerView {
    pub axis: SplitPaneResizeAxis,
    pub before: Seq<ViewId>,
    pub after: Seq<ViewId>,
    pub edge: u16,
    pub start: u16,
    pub span: u16,
    pub gap: u16,
}

impl View for SplitPaneDivider {
    type V = DividerView;

    open spec fn view(&self) -> DividerView {
        DividerView {
            axis: self.axis,
            before: self.before_view_ids@,
            after: self.after_view_ids@,
            edge: self.edge,
            start: self.start,
            span: self.span,
            gap: self.gap,
        }
    }
}

/// A view and its area when a divider drag starts.
#[derive(Clone, Copy, Debug, PartialEq, Eq, Structural)]
pub struct SplitPaneResizeViewState {
    pub view_id: ViewId,
    pub area: Rect,
}

/// The panes on each side of the divider being dragged.
#[derive(Clone, Debug)]
pub struct SplitPaneResizeState {
    pub axis: SplitPaneResizeAxis,
    pub before_views: Vec<SplitPaneResizeViewState>,
    pub after_views: Vec<SplitPaneResizeViewState>,
    pub total_area: Rect,
}

pub open spec fn min16(a: u16, b: u16) -> u16 {
    if a <= b {
        a
    } else {
        b
    }
}

pub open spec fn max16(a: u16, b: u16) -> u16 {
    if a >= b {
        a
    } else {
        b
    }
}

fn min_u16(a: u16, b: u16) -> (r: u16)
    ensures
        r == min16(a, b),
{
    if a <= b {
        a
    } else {
        b
    }
}

fn max_u16(a: u16, b: u16) -> (r: u16)
    ensures
        r == max16(a, b),
{
    if a >= b {
        a
    } else {
        b
    }
}

/// Whether two segments on one line overlap or lie at most one separator cell apart.
pub open spec fn ranges_can_merge_spec(
    first_start: u16,
    first_span: u16,
    second_start: u16,
    second_span: u16,
) -> bool {
    let first_end = first_start.saturating_add(first_span);
    let second_end = second_start.saturating_add(second_span);
    &&& first_start <= second_end.saturating_add(SPLIT_PANE_MAX_SEPARATOR_GAP_CELLS)
    &&& second_start <= first_end.saturating_add(SPLIT_PANE_MAX_SEPARATOR_GAP_CELLS)
}

/// Whether two segments on one line overlap or lie at most one separator cell apart.
pub fn split_pane_ranges_can_merge(
    first_start: u16,
    first_span: u16,
    second_start: u16,
    second_span: u16,
) -> (r: bool)
    ensures
        r == ranges_can_merge_spec(first_start, first_span, second_start, second_span),
{
    let first_end = first_start.saturating_add(first_span);
    let second_end = second_start.saturating_add(second_span);
    first_start <= second_end.saturating_add(SPLIT_PANE_MAX_SEPARATOR_GAP_CELLS) && second_start
        <= first_end.saturating_add(SPLIT_PANE_MAX_SEPARATOR_GAP_CELLS)
}

/// Whether two dividers are segments of one line: same axis, edge and gap,
/// and ranges that meet.
pub open spec fn dividers_can_merge_spec(first: DividerView, second: DividerView) -> bool {
    &&& first.axis == second.axis
    &&& first.edge == second.edge
    &&& first.gap == second.gap
    &&& ranges_can_merge_spec(first.start, first.span, second.start, second.span)
}

/// Whether two dividers are segments of one line.
pub fn split_pane_dividers_can_merge(first: &SplitPaneDivider, second: &SplitPaneDivider) -> (r:
    bool)
    ensures
        r == dividers_can_merge_spec(first@, second@),
{
    first.axis == second.axis && first.edge == second.edge && first.gap == second.gap
        && split_pane_ranges_can_merge(first.start, first.span, second.start, second.span)
}

/// The list with `id` added at the end unless it is already there.
pub open spec fn push_unique_spec(ids: Seq<ViewId>, id: ViewId) -> Seq<ViewId> {
    if ids.contains(id) {
        ids
    } else {
        ids.push(id)
    }
}

/// The list with each of `extra`, in order, added unless already there.
pub open spec fn push_all_unique_spec(ids: Seq<ViewId>, extra: Seq<ViewId>) -> Seq<ViewId>
    decreases extra.len(),
{
    if extra.len() == 0 {
        ids
    } else {
        push_unique_spec(push_all_unique_spec(ids, extra.drop_last()), extra.last())
    }
}

/// Two segments of one divider line joined into one.
pub open spec fn merge_dividers_spec(first: DividerView, second: DividerView) -> DividerView {
    let start = min16(first.start, second.start);
    let end = max16(
        first.start.saturating_add(first.span),
        second.start.saturating_add(second.span),
    );
    DividerView {
        axis: first.axis,
        before: push_all_unique_spec(first.before, second.before),
        after: push_all_unique_spec(first.after, second.after),
        edge: first.edge,
        start,
        span: end.saturating_sub(start),
        gap: max16(first.gap, second.gap),
    }
}

fn view_ids_contain(ids: &Vec<ViewId>, id: ViewId) -> (r: bool)
    ensures
        r == ids@.contains(id),
{
    let mut i: usize = 0;
    while i < ids.len()
        invariant
            i <= ids.len(),
            forall|k: int| 0 <= k < i ==> ids@[k] != id,
        decreases ids.len() - i,
    {
        if ids[i] == id {
            assert(ids@[i as int] == id);
            return true;
        }
        i = i + 1;
    }
    false
}

/// Adds `view_id` at the end unless it is already in the list.
pub fn push_unique_view_id(view_ids: &mut Vec<ViewId>, view_id: ViewId)
    ensures
        final(view_ids)@ == push_unique_spec(old(view_ids)@, view_id),
{
    if !view_ids_contain(view_ids, view_id) {
        view_ids.push(view_id);
    }
}

fn push_all_unique(ids: &mut Vec<ViewId>, extra: &Vec<ViewId>)
    ensures
        final(ids)@ == push_all_unique_spec(old(ids)@, extra@),
{
    let mut i: usize = 0;
    while i < extra.len()
        invariant
            i <= extra.len(),
            ids@ == push_all_unique_spec(old(ids)@, extra@.subrange(0, i as int)),
        decreases extra.len() - i,
    {
        push_unique_view_id(ids, extra[i]);
        proof {
            assert(extra@.subrange(0, i + 1).drop_last() =~= extra@.subrange(0, i as int));
        }
        i = i + 1;
    }
    assert(extra@.subrange(0, extra.len() as int) =~= extra@);
}

/// Joins two segments of one divider line: the view lists are united in
/// order, the range covers both segments and the gap is the wider one.
pub fn merge_split_pane_dividers(first: SplitPaneDivider, second: SplitPaneDivider) -> (r:
    SplitPaneDivider)
    ensures
        r@ == merge_dividers_spec(first@, second@),
{
    let mut first = first;
    push_all_unique(&mut first.before_view_ids, &second.before_view_ids);
    push_all_unique(&mut first.after_view_ids, &second.after_view_ids);
    let start = min_u16(first.start, second.start);
    let end = max_u16(
        first.start.saturating_add(first.span),
        second.start.saturating_add(second.span),
    );
    first.start = start;
    first.span = end.saturating_sub(start);
    first.gap = max_u16(first.gap, second.gap);
    first
}

/// The divider between a pane and a pane to its right, if they are
/// neighbours: the right pane starts at most one cell after the left one
/// ends, and their rows overlap.
pub open spec fn vertical_divider_spec(before: DocumentViewLayout, after: DocumentViewLayout) -> Option<
    DividerView,
> {
    let before_right = before.area.x.saturating_add(before.area.width);
    if after.area.x < before_right {
        None
    } else {
        let gap = (after.area.x - before_right) as u16;
        let start = max16(before.area.y, after.area.y);
        let end = min16(
            before.area.y.saturating_add(before.area.height),
            after.area.y.saturating_add(after.area.height),
        );
        if gap > SPLIT_PANE_MAX_SEPARATOR_GAP_CELLS || end <= start {
            None
        } else {
            Some(
                DividerView {
                    axis: SplitPaneResizeAxis::Vertical,
                    before: seq![before.view_id],
                    after: seq![after.view_id],
                    edge: before_right.saturating_add(gap / 2),
                    start,
                    span: (end - start) as u16,
                    gap,
                },
            )
        }
    }
}

/// The divider between a pane and a pane below it, if they are neighbours.
pub open spec fn horizontal_divider_spec(
    before: DocumentViewLayout,
    after: DocumentViewLayout,
) -> Option<DividerView> {
    let before_bottom = before.area.y.saturating_add(before.area.height);
    if after.area.y < before_bottom {
        None
    } else {
        let gap = (after.area.y - before_bottom) as u16;
        let start = max16(before.area.x, after.area.x);
        let end = min16(
            before.area.x.saturating_add(before.area.width),
            after.area.x.saturating_add(after.area.width),
        );
        if gap > SPLIT_PANE_MAX_SEPARATOR_GAP_CELLS || end <= start {
            None
        } else {
            Some(
                DividerView {
                    axis: SplitPaneResizeAxis::Horizontal,
                    before: seq![before.view_id],
                    after: seq![after.view_id],
                    edge: before_bottom.saturating_add(gap / 2),
                    start,
                    span: (end - start) as u16,
                    gap,
                },
            )
        }
    }
}

fn single_view_id(id: ViewId) -> (r: Vec<ViewId>)
    ensures
        r@ == seq![id],
{
    let mut r: Vec<ViewId> = Vec::new();
    r.push(id);
    assert(r@ =~= seq![id]);
    r
}

/// The vertical divider between a pane and a pane to its right, if any.
pub fn split_pane_vertical_divider(before: DocumentViewLayout, after: DocumentViewLayout) -> (r:
    Option<SplitPaneDivider>)
    ensures
        match r {
            Some(d) => vertical_divider_spec(before, after) == Some(d@),
            None => vertical_divider_spec(before, after) is None,
        },
{
    let before_right = before.area.x.saturating_add(before.area.width);
    if after.area.x < before_right {
        return None;
    }
    let gap = after.area.x - before_right;
    if gap > SPLIT_PANE_MAX_SEPARATOR_GAP_CELLS {
        return None;
    }
    let start = max_u16(before.area.y, after.area.y);
    let end = min_u16(
        before.area.y.saturating_add(before.area.height),
        after.area.y.saturating_add(after.area.height),
    );
    if end <= start {
        return None;
    }
    Some(
        SplitPaneDivider {
            axis: SplitPaneResizeAxis::Vertical,
            before_view_ids: single_view_id(before.view_id),
            after_view_ids: single_view_id(after.view_id),
            edge: before_right.saturating_add(gap / 2),
            start,
            span: end - start,
            gap,
        },
    )
}

/// The horizontal divider between a pane and a pane below it, if any.
pub fn split_pane_horizontal_divider(before: DocumentViewLayout, after: DocumentViewLayout) -> (r:
    Option<SplitPaneDivider>)
    ensures
        match r {
            Some(d) => horizontal_divider_spec(before, after) == Some(d@),
            None => horizontal_divider_spec(before, after) is None,
        },
{
    let before_bottom = before.area.y.saturating_add(before.area.height);
    if after.area.y < before_bottom {
        return None;
    }
    let gap = after.area.y - before_bottom;
    if gap > SPLIT_PANE_MAX_SEPARATOR_GAP_CELLS {
        return None;
    }
    let start = max_u16(before.area.x, after.area.x);
    let end = min_u16(
        before.area.x.saturating_add(before.area.width),
        after.area.x.saturating_add(after.area.width),
    );
    if end <= start {
        return None;
    }
    Some(
        SplitPaneDivider {
            axis: SplitPaneResizeAxis::Horizontal,
            before_view_ids: single_view_id(before.view_id),
            after_view_ids: single_view_id(after.view_id),
            edge: before_bottom.saturating_add(gap / 2),
            start,
            span: end - start,
            gap,
        },
    )
}


/// The views of a list of dividers.
pub open spec fn dividers_view(v: Seq<SplitPaneDivider>) -> Seq<DividerView> {
    v.map_values(|d: SplitPaneDivider| d@)
}

/// Position of the first divider that can merge with `d`, or the length when none can.
pub open spec fn first_mergeable(ds: Seq<DividerView>, d: DividerView) -> int
    decreases ds.len(),
{
    if ds.len() == 0 {
        0
    } else if dividers_can_merge_spec(ds[0], d) {
        0
    } else {
        1 + first_mergeable(ds.drop_first(), d)
    }
}

/// Adds a divider to a list: while some divider of the list is a segment of
/// the same line, the first such one is taken out and joined with it; the
/// result goes at the end.
pub open spec fn push_or_merge_spec(ds: Seq<DividerView>, d: DividerView) -> Seq<DividerView>
    decreases ds.len(),
{
    let i = first_mergeable(ds, d);
    if i < 0 || i >= ds.len() {
        ds.push(d)
    } else {
        push_or_merge_spec(ds.remove(i), merge_dividers_spec(ds[i], d))
    }
}

proof fn lemma_first_mergeable_at(ds: Seq<DividerView>, d: DividerView, i: int)
    requires
        0 <= i <= ds.len(),
        forall|k: int| 0 <= k < i ==> !dividers_can_merge_spec(#[trigger] ds[k], d),
        i < ds.len() ==> dividers_can_merge_spec(ds[i], d),
    ensures
        first_mergeable(ds, d) == i,
    decreases i,
{
    if i > 0 {
        let t = ds.drop_first();
        assert forall|k: int| 0 <= k < i - 1 implies !dividers_can_merge_spec(#[trigger] t[k], d) by {
            assert(t[k] == ds[k + 1]);
        }
        lemma_first_mergeable_at(t, d, i - 1);
    }
}

/// Adds a divider to the list, joining it first with every segment of the same line.
pub fn push_or_merge_split_pane_divider(
    dividers: &mut Vec<SplitPaneDivider>,
    divider: SplitPaneDivider,
)
    ensures
        dividers_view(final(dividers)@) == push_or_merge_spec(
            dividers_view(old(dividers)@),
            divider@,
        ),
{
    let ghost goal = push_or_merge_spec(dividers_view(dividers@), divider@);
    let mut divider = divider;
    let mut index: usize = 0;
    while index < dividers.len()
        invariant
            index <= dividers.len(),
            goal == push_or_merge_spec(dividers_view(dividers@), divider@),
            forall|k: int|
                0 <= k < index ==> !dividers_can_merge_spec(
                    #[trigger] dividers_view(dividers@)[k],
                    divider@,
                ),
        decreases dividers.len(), dividers.len() - index,
    {
        if split_pane_dividers_can_merge(&dividers[index], &divider) {
            let ghost before = dividers_view(dividers@);
            proof {
                lemma_first_mergeable_at(before, divider@, index as int);
            }
            let existing = dividers.remove(index);
            proof {
                assert(dividers_view(dividers@) =~= before.remove(index as int));
            }
            divider = merge_split_pane_dividers(existing, divider);
            index = 0;
        } else {
            index = index + 1;
        }
    }
    proof {
        lemma_first_mergeable_at(dividers_view(dividers@), divider@, dividers.len() as int);
    }
    let ghost before = dividers_view(dividers@);
    dividers.push(divider);
    assert(dividers_view(dividers@) =~= before.push(divider@));
}

/// The first divider of the two, or the second when there is no first.
pub open spec fn or_else_spec(a: Option<DividerView>, b: Option<DividerView>) -> Option<DividerView> {
    match a {
        Some(_) => a,
        None => b,
    }
}

/// The list after looking for dividers between two panes, in either order.
pub open spec fn pair_step_spec(
    acc: Seq<DividerView>,
    first: DocumentViewLayout,
    second: DocumentViewLayout,
) -> Seq<DividerView> {
    let acc1 = match or_else_spec(
        vertical_divider_spec(first, second),
        vertical_divider_spec(second, first),
    ) {
        Some(d) => push_or_merge_spec(acc, d),
        None => acc,
    };
    match or_else_spec(
        horizontal_divider_spec(first, second),
        horizontal_divider_spec(second, first),
    ) {
        Some(d) => push_or_merge_spec(acc1, d),
        None => acc1,
    }
}

/// The list after pairing one pane with each of the following ones, in order.
pub open spec fn row_fold_spec(
    acc: Seq<DividerView>,
    first: DocumentViewLayout,
    rest: Seq<DocumentViewLayout>,
) -> Seq<DividerView>
    decreases rest.len(),
{
    if rest.len() == 0 {
        acc
    } else {
        row_fold_spec(pair_step_spec(acc, first, rest[0]), first, rest.drop_first())
    }
}

/// The list after pairing every pane with every later pane.
pub open spec fn all_pairs_fold_spec(acc: Seq<DividerView>, layouts: Seq<DocumentViewLayout>) -> Seq<
    DividerView,
>
    decreases layouts.len(),
{
    if layouts.len() == 0 {
        acc
    } else {
        all_pairs_fold_spec(
            row_fold_spec(acc, layouts[0], layouts.drop_first()),
            layouts.drop_first(),
        )
    }
}

/// The dividers between the panes of a layout.
pub open spec fn split_pane_dividers_spec(layouts: Seq<DocumentViewLayout>) -> Seq<DividerView> {
    all_pairs_fold_spec(seq![], layouts)
}

/// The dividers between neighbouring panes, with segments of one line joined.
pub fn split_pane_dividers(layouts: &[DocumentViewLayout]) -> (r: Vec<SplitPaneDivider>)
    ensures
        dividers_view(r@) == split_pane_dividers_spec(layouts@),
{
    let mut dividers: Vec<SplitPaneDivider> = Vec::new();
    assert(dividers_view(dividers@) =~= Seq::<DividerView>::empty());
    assert(layouts@.skip(0) =~= layouts@);
    let mut index: usize = 0;
    while index < layouts.len()
        invariant
            index <= layouts.len(),
            split_pane_dividers_spec(layouts@) == all_pairs_fold_spec(
                dividers_view(dividers@),
                layouts@.skip(index as int),
            ),
        decreases layouts.len() - index,
    {
        let first = layouts[index];
        let ghost row_start = dividers_view(dividers@);
        let mut j: usize = index + 1;
        assert(layouts@.skip(index as int).drop_first() =~= layouts@.skip(j as int));
        while j < layouts.len()
            invariant
                index < j <= layouts.len(),
                first == layouts@[index as int],
                row_fold_spec(row_start, first, layouts@.skip(index + 1)) == row_fold_spec(
                    dividers_view(dividers@),
                    first,
                    layouts@.skip(j as int),
                ),
            decreases layouts.len() - j,
        {
            let second = layouts[j];
            let vertical = match split_pane_vertical_divider(first, second) {
                Some(d) => Some(d),
                None => split_pane_vertical_divider(second, first),
            };
            match vertical {
                Some(d) => push_or_merge_split_pane_divider(&mut dividers, d),
                None => {},
            }
            let horizontal = match split_pane_horizontal_divider(first, second) {
                Some(d) => Some(d),
                None => split_pane_horizontal_divider(second, first),
            };
            match horizontal {
                Some(d) => push_or_merge_split_pane_divider(&mut dividers, d),
                None => {},
            }
            proof {
                assert(layouts@.skip(j as int)[0] == second);
                assert(layouts@.skip(j as int).drop_first() =~= layouts@.skip(j + 1));
            }
            j = j + 1;
        }
        proof {
            assert(layouts@.skip(index as int)[0] == first);
        }
        index = index + 1;
    }
    dividers
}


/// The area after one divider: a pane right of (below) a divider with a
/// separator cell is widened (heightened) over that cell.
pub open spec fn visual_area_step(area: Rect, view_id: ViewId, d: DividerView) -> Rect {
    if d.gap == 0 || !d.after.contains(view_id) {
        area
    } else {
        match d.axis {
            SplitPaneResizeAxis::Vertical => Rect {
                x: area.x.saturating_sub(d.gap),
                width: area.width.saturating_add(d.gap),
                ..area
            },
            SplitPaneResizeAxis::Horizontal => Rect {
                y: area.y.saturating_sub(d.gap),
                height: area.height.saturating_add(d.gap),
                ..area
            },
        }
    }
}

/// The area after each divider in turn.
pub open spec fn visual_area_fold(area: Rect, view_id: ViewId, ds: Seq<DividerView>) -> Rect
    decreases ds.len(),
{
    if ds.len() == 0 {
        area
    } else {
        visual_area_fold(visual_area_step(area, view_id, ds[0]), view_id, ds.drop_first())
    }
}

/// The area a pane covers on screen, including the separator cells before it.
pub fn document_view_visual_area(layout: DocumentViewLayout, dividers: &[SplitPaneDivider]) -> (r:
    Rect)
    ensures
        r == visual_area_fold(layout.area, layout.view_id, dividers_view(dividers@)),
{
    let ghost all = dividers_view(dividers@);
    let mut area = layout.area;
    let mut i: usize = 0;
    assert(all.skip(0) =~= all);
    while i < dividers.len()
        invariant
            i <= dividers.len(),
            all == dividers_view(dividers@),
            visual_area_fold(layout.area, layout.view_id, all) == visual_area_fold(
                area,
                layout.view_id,
                all.skip(i as int),
            ),
        decreases dividers.len() - i,
    {
        let divider = &dividers[i];
        proof {
            assert(all.skip(i as int)[0] == divider@);
            assert(all.skip(i as int).drop_first() =~= all.skip(i + 1));
        }
        if divider.gap != 0 && view_ids_contain(&divider.after_view_ids, layout.view_id) {
            match divider.axis {
                SplitPaneResizeAxis::Vertical => {
                    area.x = area.x.saturating_sub(divider.gap);
                    area.width = area.width.saturating_add(divider.gap);
                },
                SplitPaneResizeAxis::Horizontal => {
                    area.y = area.y.saturating_sub(divider.gap);
                    area.height = area.height.saturating_add(divider.gap);
                },
            }
        }
        i = i + 1;
    }
    area
}

/// Whether every view on either side of `d` lies after `other`.
pub open spec fn shifts_with_spec(d: DividerView, other: DividerView) -> bool {
    forall|id: ViewId| (d.before.contains(id) || d.after.contains(id)) ==> other.after.contains(id)
}

/// The divider line after one crossing divider: a line whose panes all lie
/// after a crossing divider with a separator cell reaches over that cell.
pub open spec fn visual_line_step(d: DividerView, other: DividerView) -> DividerView {
    if d.axis == other.axis || other.gap == 0 || !shifts_with_spec(d, other) {
        d
    } else {
        DividerView {
            start: d.start.saturating_sub(other.gap),
            span: d.span.saturating_add(other.gap),
            ..d
        }
    }
}

/// The divider line after each other divider in turn.
pub open spec fn visual_line_fold(d: DividerView, ds: Seq<DividerView>) -> DividerView
    decreases ds.len(),
{
    if ds.len() == 0 {
        d
    } else {
        visual_line_fold(visual_line_step(d, ds[0]), ds.drop_first())
    }
}

fn all_contained(ids: &Vec<ViewId>, within: &Vec<ViewId>) -> (r: bool)
    ensures
        r == (forall|id: ViewId| ids@.contains(id) ==> within@.contains(id)),
{
    let mut i: usize = 0;
    while i < ids.len()
        invariant
            i <= ids.len(),
            forall|k: int| 0 <= k < i ==> within@.contains(#[trigger] ids@[k]),
        decreases ids.len() - i,
    {
        if !view_ids_contain(within, ids[i]) {
            assert(ids@.contains(ids@[i as int]));
            return false;
        }
        i = i + 1;
    }
    assert forall|id: ViewId| ids@.contains(id) implies within@.contains(id) by {
        let k = choose|k: int| 0 <= k < ids@.len() && ids@[k] == id;
        assert(within@.contains(ids@[k]));
    }
    true
}

/// The divider line as drawn: extended over the separator cells of crossing
/// dividers that all of its panes lie after.
pub fn split_pane_divider_visual_line(divider: SplitPaneDivider, dividers: &[SplitPaneDivider]) -> (r:
    SplitPaneDivider)
    ensures
        r@ == visual_line_fold(divider@, dividers_view(dividers@)),
{
    let ghost all = dividers_view(dividers@);
    let ghost init = divider@;
    let mut divider = divider;
    let mut i: usize = 0;
    assert(all.skip(0) =~= all);
    while i < dividers.len()
        invariant
            i <= dividers.len(),
            all == dividers_view(dividers@),
            visual_line_fold(init, all) == visual_line_fold(
                divider@,
                all.skip(i as int),
            ),
        decreases dividers.len() - i,
    {
        let other = &dividers[i];
        proof {
            assert(all.skip(i as int)[0] == other@);
            assert(all.skip(i as int).drop_first() =~= all.skip(i + 1));
        }
        if divider.axis != other.axis && other.gap != 0 {
            let shifts = all_contained(&divider.before_view_ids, &other.after_view_ids)
                && all_contained(&divider.after_view_ids, &other.after_view_ids);
            if shifts {
                divider.start = divider.start.saturating_sub(other.gap);
                divider.span = divider.span.saturating_add(other.gap);
            }
        }
        i = i + 1;
    }
    divider
}


/// The first layout of the given view, if any.
pub open spec fn find_layout_spec(layouts: Seq<DocumentViewLayout>, id: ViewId) -> Option<
    DocumentViewLayout,
>
    decreases layouts.len(),
{
    if layouts.len() == 0 {
        None
    } else if layouts[0].view_id == id {
        Some(layouts[0])
    } else {
        find_layout_spec(layouts.drop_first(), id)
    }
}

/// For each view id in order that has a layout, the id and the area of its first layout.
pub open spec fn resize_view_states_spec(
    layouts: Seq<DocumentViewLayout>,
    view_ids: Seq<ViewId>,
) -> Seq<SplitPaneResizeViewState>
    decreases view_ids.len(),
{
    if view_ids.len() == 0 {
        seq![]
    } else {
        let rest = resize_view_states_spec(layouts, view_ids.drop_last());
        match find_layout_spec(layouts, view_ids.last()) {
            Some(l) => rest.push(SplitPaneResizeViewState { view_id: view_ids.last(), area: l.area }),
            None => rest,
        }
    }
}

fn find_layout(layouts: &[DocumentViewLayout], id: ViewId) -> (r: Option<DocumentViewLayout>)
    ensures
        r == find_layout_spec(layouts@, id),
{
    let mut i: usize = 0;
    assert(layouts@.skip(0) =~= layouts@);
    while i < layouts.len()
        invariant
            i <= layouts.len(),
            find_layout_spec(layouts@, id) == find_layout_spec(layouts@.skip(i as int), id),
        decreases layouts.len() - i,
    {
        assert(layouts@.skip(i as int)[0] == layouts@[i as int]);
        assert(layouts@.skip(i as int).drop_first() =~= layouts@.skip(i + 1));
        if layouts[i].view_id == id {
            return Some(layouts[i]);
        }
        i = i + 1;
    }
    None
}

/// The areas, at the start of a drag, of the given views.
pub fn split_pane_resize_view_states(layouts: &[DocumentViewLayout], view_ids: &[ViewId]) -> (r:
    Vec<SplitPaneResizeViewState>)
    ensures
        r@ == resize_view_states_spec(layouts@, view_ids@),
{
    let mut r: Vec<SplitPaneResizeViewState> = Vec::new();
    let mut i: usize = 0;
    while i < view_ids.len()
        invariant
            i <= view_ids.len(),
            r@ == resize_view_states_spec(layouts@, view_ids@.subrange(0, i as int)),
        decreases view_ids.len() - i,
    {
        let id = view_ids[i];
        proof {
            assert(view_ids@.subrange(0, i + 1).drop_last() =~= view_ids@.subrange(0, i as int));
        }
        match find_layout(layouts, id) {
            Some(l) => r.push(SplitPaneResizeViewState { view_id: id, area: l.area }),
            None => {},
        }
        i = i + 1;
    }
    assert(view_ids@.subrange(0, view_ids.len() as int) =~= view_ids@);
    r
}

/// Which measure of a pane a drag changes.
pub open spec fn extent(area: Rect, axis: SplitPaneResizeAxis) -> int {
    match axis {
        SplitPaneResizeAxis::Vertical => area.width as int,
        SplitPaneResizeAxis::Horizontal => area.height as int,
    }
}

/// Where a pane starts along the direction of a drag.
pub open spec fn offset(area: Rect, axis: SplitPaneResizeAxis) -> int {
    match axis {
        SplitPaneResizeAxis::Vertical => area.x as int,
        SplitPaneResizeAxis::Horizontal => area.y as int,
    }
}

/// The least move: every pane before the divider keeps at least `min` cells.
pub open spec fn least_delta(views: Seq<SplitPaneResizeViewState>, axis: SplitPaneResizeAxis, min: int) -> int
    decreases views.len(),
{
    if views.len() <= 1 {
        min - extent(views[0].area, axis)
    } else {
        let rest = least_delta(views.drop_last(), axis, min);
        let here = min - extent(views.last().area, axis);
        if here > rest {
            here
        } else {
            rest
        }
    }
}

/// The greatest move: every pane after the divider keeps at least `min` cells.
pub open spec fn greatest_delta(views: Seq<SplitPaneResizeViewState>, axis: SplitPaneResizeAxis, min: int) -> int
    decreases views.len(),
{
    if views.len() <= 1 {
        extent(views[0].area, axis) - min
    } else {
        let rest = greatest_delta(views.drop_last(), axis, min);
        let here = extent(views.last().area, axis) - min;
        if here < rest {
            here
        } else {
            rest
        }
    }
}

/// `v` brought into `[lo, hi]`.
pub open spec fn clamp_spec(v: int, lo: int, hi: int) -> int {
    if v < lo {
        lo
    } else if v > hi {
        hi
    } else {
        v
    }
}

/// A pane before the divider, grown by `delta` along the drag.
pub open spec fn grown_area(area: Rect, axis: SplitPaneResizeAxis, delta: int) -> Rect {
    match axis {
        SplitPaneResizeAxis::Vertical => Rect { width: (area.width + delta) as u16, ..area },
        SplitPaneResizeAxis::Horizontal => Rect { height: (area.height + delta) as u16, ..area },
    }
}

/// A pane after the divider, moved by `delta` and shrunk by as much.
pub open spec fn shifted_area(area: Rect, axis: SplitPaneResizeAxis, delta: int) -> Rect {
    match axis {
        SplitPaneResizeAxis::Vertical => Rect {
            x: (area.x + delta) as u16,
            width: (area.width - delta) as u16,
            ..area
        },
        SplitPaneResizeAxis::Horizontal => Rect {
            y: (area.y + delta) as u16,
            height: (area.height - delta) as u16,
            ..area
        },
    }
}

pub open spec fn fits_u16(v: int) -> bool {
    0 <= v <= u16::MAX
}

/// Whether every resized pane still has coordinates that a cell position can hold.
pub open spec fn resized_fit(
    before: Seq<SplitPaneResizeViewState>,
    after: Seq<SplitPaneResizeViewState>,
    axis: SplitPaneResizeAxis,
    delta: int,
) -> bool {
    &&& forall|k: int| 0 <= k < before.len() ==> fits_u16(#[trigger] extent(before[k].area, axis) + delta)
    &&& forall|k: int| 0 <= k < after.len() ==> fits_u16(#[trigger] offset(after[k].area, axis) + delta)
    &&& forall|k: int| 0 <= k < after.len() ==> fits_u16(#[trigger] extent(after[k].area, axis) - delta)
}

/// The panes after dragging a divider by `delta_cells`: the move is clamped so
/// that every pane keeps at least `min_size` cells (at least one); panes
/// before the divider grow by the move and panes after it move and shrink
/// by it. Nothing when either side is empty, when no move keeps every pane
/// large enough, or when a coordinate would leave the cell range.
pub open spec fn resized_view_areas_spec(
    before: Seq<SplitPaneResizeViewState>,
    after: Seq<SplitPaneResizeViewState>,
    axis: SplitPaneResizeAxis,
    delta_cells: i32,
    min_size: u16,
) -> Option<Seq<(ViewId, Rect)>> {
    let min = if min_size >= 1 { min_size as int } else { 1 };
    if before.len() == 0 || after.len() == 0 {
        None
    } else {
        let lo = least_delta(before, axis, min);
        let hi = greatest_delta(after, axis, min);
        let delta = clamp_spec(delta_cells as int, lo, hi);
        if lo > hi || !resized_fit(before, after, axis, delta) {
            None
        } else {
            Some(
                before.map_values(
                    |v: SplitPaneResizeViewState| (v.view_id, grown_area(v.area, axis, delta)),
                ) + after.map_values(
                    |v: SplitPaneResizeViewState| (v.view_id, shifted_area(v.area, axis, delta)),
                ),
            )
        }
    }
}

fn extent_of(area: Rect, axis: SplitPaneResizeAxis) -> (r: i32)
    ensures
        r == extent(area, axis),
{
    match axis {
        SplitPaneResizeAxis::Vertical => area.width as i32,
        SplitPaneResizeAxis::Horizontal => area.height as i32,
    }
}

fn resized_view_areas(
    before_views: &[SplitPaneResizeViewState],
    after_views: &[SplitPaneResizeViewState],
    axis: SplitPaneResizeAxis,
    delta_cells: i32,
    min_size: u16,
) -> (r: Option<Vec<(ViewId, Rect)>>)
    ensures
        match r {
            Some(v) => resized_view_areas_spec(before_views@, after_views@, axis, delta_cells, min_size)
                == Some(v@),
            None => resized_view_areas_spec(before_views@, after_views@, axis, delta_cells, min_size) is None,
        },
{
    let min: i32 = if min_size >= 1 {
        min_size as i32
    } else {
        1
    };
    if before_views.len() == 0 || after_views.len() == 0 {
        return None;
    }
    // The least move over the panes before the divider.
    let mut lo: i32 = min - extent_of(before_views[0].area, axis);
    let mut i: usize = 1;
    assert(before_views@.subrange(0, 1).len() == 1);
    while i < before_views.len()
        invariant
            1 <= i <= before_views.len(),
            lo == least_delta(before_views@.subrange(0, i as int), axis, min as int),
            min - u16::MAX <= lo <= min,
            1 <= min <= u16::MAX,
        decreases before_views.len() - i,
    {
        proof {
            assert(before_views@.subrange(0, i + 1).drop_last() =~= before_views@.subrange(
                0,
                i as int,
            ));
        }
        let here = min - extent_of(before_views[i].area, axis);
        if here > lo {
            lo = here;
        }
        i = i + 1;
    }
    assert(before_views@.subrange(0, before_views.len() as int) =~= before_views@);
    // The greatest move over the panes after the divider.
    let mut hi: i32 = extent_of(after_views[0].area, axis) - min;
    let mut j: usize = 1;
    assert(after_views@.subrange(0, 1).len() == 1);
    while j < after_views.len()
        invariant
            1 <= j <= after_views.len(),
            hi == greatest_delta(after_views@.subrange(0, j as int), axis, min as int),
            -min <= hi <= u16::MAX - min,
            1 <= min <= u16::MAX,
        decreases after_views.len() - j,
    {
        proof {
            assert(after_views@.subrange(0, j + 1).drop_last() =~= after_views@.subrange(
                0,
                j as int,
            ));
        }
        let here = extent_of(after_views[j].area, axis) - min;
        if here < hi {
            hi = here;
        }
        j = j + 1;
    }
    assert(after_views@.subrange(0, after_views.len() as int) =~= after_views@);
    if lo > hi {
        return None;
    }
    let delta: i32 = if delta_cells < lo {
        lo
    } else if delta_cells > hi {
        hi
    } else {
        delta_cells
    };
    let ghost before_part = before_views@.map_values(
        |v: SplitPaneResizeViewState| (v.view_id, grown_area(v.area, axis, delta as int)),
    );
    let ghost after_part = after_views@.map_values(
        |v: SplitPaneResizeViewState| (v.view_id, shifted_area(v.area, axis, delta as int)),
    );
    let mut resized: Vec<(ViewId, Rect)> = Vec::new();
    let mut k: usize = 0;
    while k < before_views.len()
        invariant
            k <= before_views.len(),
            resized@ == before_part.subrange(0, k as int),
            before_part == before_views@.map_values(
                |v: SplitPaneResizeViewState| (v.view_id, grown_area(v.area, axis, delta as int)),
            ),
            forall|m: int| 0 <= m < k ==> fits_u16(#[trigger] extent(before_views@[m].area, axis) + delta),
            min - u16::MAX <= delta <= u16::MAX - min,
            1 <= min <= u16::MAX,
            min as int == (if min_size >= 1 { min_size as int } else { 1 }),
            before_views.len() > 0,
            after_views.len() > 0,
            least_delta(before_views@, axis, min as int) <= greatest_delta(after_views@, axis, min as int),
            delta == clamp_spec(delta_cells as int, least_delta(before_views@, axis, min as int), greatest_delta(after_views@, axis, min as int)),
        decreases before_views.len() - k,
    {
        let view = before_views[k];
        let size = extent_of(view.area, axis) + delta;
        if size < 0 || size > 65535 {
            return None;
        }
        let area = match axis {
            SplitPaneResizeAxis::Vertical => Rect::new(view.area.x, view.area.y, size as u16, view.area.height),
            SplitPaneResizeAxis::Horizontal => Rect::new(view.area.x, view.area.y, view.area.width, size as u16),
        };
        resized.push((view.view_id, area));
        proof {
            assert(before_part[k as int] == (view.view_id, area));
            assert(resized@ =~= before_part.subrange(0, k + 1));
        }
        k = k + 1;
    }
    let mut m: usize = 0;
    while m < after_views.len()
        invariant
            m <= after_views.len(),
            resized@ == before_part + after_part.subrange(0, m as int),
            after_part == after_views@.map_values(
                |v: SplitPaneResizeViewState| (v.view_id, shifted_area(v.area, axis, delta as int)),
            ),
            before_part.len() == before_views.len(),
            forall|q: int| 0 <= q < before_views.len() ==> fits_u16(#[trigger] extent(before_views@[q].area, axis) + delta),
            forall|q: int| 0 <= q < m ==> fits_u16(#[trigger] offset(after_views@[q].area, axis) + delta),
            forall|q: int| 0 <= q < m ==> fits_u16(#[trigger] extent(after_views@[q].area, axis) - delta),
            min - u16::MAX <= delta <= u16::MAX - min,
            1 <= min <= u16::MAX,
            min as int == (if min_size >= 1 { min_size as int } else { 1 }),
            before_views.len() > 0,
            after_views.len() > 0,
            least_delta(before_views@, axis, min as int) <= greatest_delta(after_views@, axis, min as int),
            delta == clamp_spec(delta_cells as int, least_delta(before_views@, axis, min as int), greatest_delta(after_views@, axis, min as int)),
        decreases after_views.len() - m,
    {
        let view = after_views[m];
        let start: i32 = match axis {
            SplitPaneResizeAxis::Vertical => view.area.x as i32,
            SplitPaneResizeAxis::Horizontal => view.area.y as i32,
        } + delta;
        let size = extent_of(view.area, axis) - delta;
        assert(start == offset(after_views@[m as int].area, axis) + delta);
        if start < 0 || start > 65535 || size < 0 || size > 65535 {
            assert(!fits_u16(offset(after_views@[m as int].area, axis) + delta) || !fits_u16(
                extent(after_views@[m as int].area, axis) - delta,
            ));
            return None;
        }
        let area = match axis {
            SplitPaneResizeAxis::Vertical => Rect::new(start as u16, view.area.y, size as u16, view.area.height),
            SplitPaneResizeAxis::Horizontal => Rect::new(view.area.x, start as u16, view.area.width, size as u16),
        };
        resized.push((view.view_id, area));
        proof {
            assert(after_part[m as int] == (view.view_id, area));
            assert(resized@ =~= before_part + after_part.subrange(0, m + 1));
        }
        m = m + 1;
    }
    assert(before_part.subrange(0, before_views.len() as int) =~= before_part);
    assert(after_part.subrange(0, after_views.len() as int) =~= after_part);
    Some(resized)
}

/// The panes after dragging a vertical divider by `delta_cells` columns.
pub fn resized_vertical_split_pane_view_areas(
    before_views: &[SplitPaneResizeViewState],
    after_views: &[SplitPaneResizeViewState],
    delta_cells: i32,
    min_width: u16,
) -> (r: Option<Vec<(ViewId, Rect)>>)
    ensures
        match r {
            Some(v) => resized_view_areas_spec(before_views@, after_views@, SplitPaneResizeAxis::Vertical, delta_cells, min_width)
                == Some(v@),
            None => resized_view_areas_spec(before_views@, after_views@, SplitPaneResizeAxis::Vertical, delta_cells, min_width) is None,
        },
{
    resized_view_areas(before_views, after_views, SplitPaneResizeAxis::Vertical, delta_cells, min_width)
}

/// The panes after dragging a horizontal divider by `delta_cells` rows.
pub fn resized_horizontal_split_pane_view_areas(
    before_views: &[SplitPaneResizeViewState],
    after_views: &[SplitPaneResizeViewState],
    delta_cells: i32,
    min_height: u16,
) -> (r: Option<Vec<(ViewId, Rect)>>)
    ensures
        match r {
            Some(v) => resized_view_areas_spec(before_views@, after_views@, SplitPaneResizeAxis::Horizontal, delta_cells, min_height)
                == Some(v@),
            None => resized_view_areas_spec(before_views@, after_views@, SplitPaneResizeAxis::Horizontal, delta_cells, min_height) is None,
        },
{
    resized_view_areas(before_views, after_views, SplitPaneResizeAxis::Horizontal, delta_cells, min_height)
}

/// The smallest size a drag along the axis leaves a pane.
pub open spec fn min_size_for(axis: SplitPaneResizeAxis) -> u16 {
    match axis {
        SplitPaneResizeAxis::Vertical => SPLIT_PANE_MIN_WIDTH_CELLS,
        SplitPaneResizeAxis::Horizontal => SPLIT_PANE_MIN_HEIGHT_CELLS,
    }
}

/// The panes after moving the dragged divider by `delta_cells` cells (the
/// pointer movement already converted to cells), keeping every pane at
/// least the minimum size.
pub fn split_pane_resized_areas(state: &SplitPaneResizeState, delta_cells: i32) -> (r: Option<
    Vec<(ViewId, Rect)>,
>)
    ensures
        match r {
            Some(v) => resized_view_areas_spec(state.before_views@, state.after_views@, state.axis, delta_cells, min_size_for(state.axis))
                == Some(v@),
            None => resized_view_areas_spec(state.before_views@, state.after_views@, state.axis, delta_cells, min_size_for(state.axis)) is None,
        },
{
    match state.axis {
        SplitPaneResizeAxis::Vertical => resized_vertical_split_pane_view_areas(
            state.before_views.as_slice(),
            state.after_views.as_slice(),
            delta_cells,
            SPLIT_PANE_MIN_WIDTH_CELLS,
        ),
        SplitPaneResizeAxis::Horizontal => resized_horizontal_split_pane_view_areas(
            state.before_views.as_slice(),
            state.after_views.as_slice(),
            delta_cells,
            SPLIT_PANE_MIN_HEIGHT_CELLS,
        ),
    }
}


/// A rectangle with its position and size along the axis replaced.
pub open spec fn with_span(area: Rect, axis: SplitPaneResizeAxis, start: int, size: int) -> Rect {
    match axis {
        SplitPaneResizeAxis::Vertical => Rect { x: start as u16, width: size as u16, ..area },
        SplitPaneResizeAxis::Horizontal => Rect { y: start as u16, height: size as u16, ..area },
    }
}

/// Two neighbouring panes after dragging the divider between them: the
/// space they share (without the separator) stays the same, the first pane
/// gets its size plus the move, kept between the minimum (at most one less
/// than the shared space, at least one) and what leaves the second pane the
/// minimum; the second pane follows the separator and keeps its far edge.
/// Nothing when the panes overlap or a coordinate leaves the cell range.
pub open spec fn resized_pair_spec(
    before: Rect,
    after: Rect,
    axis: SplitPaneResizeAxis,
    delta_cells: i32,
    min_size: u16,
) -> Option<(Rect, Rect)> {
    let b_start = offset(before, axis);
    let b_end = b_start + extent(before, axis);
    let a_start = offset(after, axis);
    let outer_end = a_start + extent(after, axis);
    if b_end > u16::MAX || outer_end > u16::MAX || a_start < b_end {
        None
    } else {
        let gap = a_start - b_end;
        if outer_end - b_start < gap {
            None
        } else {
            let usable = outer_end - b_start - gap;
            let limit = if usable >= 1 { usable - 1 } else { 0 };
            let min0 = if (min_size as int) <= limit { min_size as int } else { limit };
            let min = if min0 >= 1 { min0 } else { 1 };
            let max_before = if usable >= min { usable - min } else { 0 };
            if max_before < min {
                None
            } else {
                let target = clamp_spec(extent(before, axis) + delta_cells, min, max_before);
                let after_start = b_start + target + gap;
                if after_start > u16::MAX || outer_end < after_start {
                    None
                } else {
                    Some(
                        (
                            with_span(before, axis, b_start, target),
                            with_span(after, axis, after_start, outer_end - after_start),
                        ),
                    )
                }
            }
        }
    }
}

fn offset_of(area: Rect, axis: SplitPaneResizeAxis) -> (r: u16)
    ensures
        r == offset(area, axis),
{
    match axis {
        SplitPaneResizeAxis::Vertical => area.x,
        SplitPaneResizeAxis::Horizontal => area.y,
    }
}

fn size_of(area: Rect, axis: SplitPaneResizeAxis) -> (r: u16)
    ensures
        r == extent(area, axis),
{
    match axis {
        SplitPaneResizeAxis::Vertical => area.width,
        SplitPaneResizeAxis::Horizontal => area.height,
    }
}

fn with_span_of(area: Rect, axis: SplitPaneResizeAxis, start: u16, size: u16) -> (r: Rect)
    ensures
        r == with_span(area, axis, start as int, size as int),
{
    match axis {
        SplitPaneResizeAxis::Vertical => Rect::new(start, area.y, size, area.height),
        SplitPaneResizeAxis::Horizontal => Rect::new(area.x, start, area.width, size),
    }
}

fn resized_pair(before: Rect, after: Rect, axis: SplitPaneResizeAxis, delta_cells: i32, min_size: u16) -> (r: Option<(Rect, Rect)>)
    requires
        i32::MIN <= extent(before, axis) + delta_cells <= i32::MAX,
    ensures
        r == resized_pair_spec(before, after, axis, delta_cells, min_size),
{
    let b_start = offset_of(before, axis);
    let b_size = size_of(before, axis);
    let a_start = offset_of(after, axis);
    let a_size = size_of(after, axis);
    let before_end = match b_start.checked_add(b_size) {
        Some(v) => v,
        None => return None,
    };
    let outer_start = b_start;
    let outer_end = match a_start.checked_add(a_size) {
        Some(v) => v,
        None => return None,
    };
    let gap = match a_start.checked_sub(before_end) {
        Some(v) => v,
        None => return None,
    };
    let usable = match outer_end.checked_sub(outer_start) {
        Some(v) => match v.checked_sub(gap) {
            Some(u) => u,
            None => return None,
        },
        None => return None,
    };
    let min = max_u16(min_u16(min_size, usable.saturating_sub(1)), 1);
    let max_before = usable.saturating_sub(min);
    if max_before < min {
        return None;
    }
    let wanted: i32 = b_size as i32 + delta_cells;
    let target: u16 = if wanted < min as i32 {
        min
    } else if wanted > max_before as i32 {
        max_before
    } else {
        wanted as u16
    };
    let after_start = match outer_start.checked_add(target) {
        Some(v) => match v.checked_add(gap) {
            Some(w) => w,
            None => return None,
        },
        None => return None,
    };
    let after_size = match outer_end.checked_sub(after_start) {
        Some(v) => v,
        None => return None,
    };
    Some((with_span_of(before, axis, b_start, target), with_span_of(after, axis, after_start, after_size)))
}

/// Two panes side by side after dragging the divider between them by `delta_cells` columns.
pub fn resized_vertical_split_pane_areas(before: Rect, after: Rect, delta_cells: i32, min_width: u16) -> (r:
    Option<(Rect, Rect)>)
    requires
        i32::MIN <= before.width + delta_cells <= i32::MAX,
    ensures
        r == resized_pair_spec(before, after, SplitPaneResizeAxis::Vertical, delta_cells, min_width),
{
    resized_pair(before, after, SplitPaneResizeAxis::Vertical, delta_cells, min_width)
}

/// Two panes above each other after dragging the divider between them by `delta_cells` rows.
pub fn resized_horizontal_split_pane_areas(before: Rect, after: Rect, delta_cells: i32, min_height: u16) -> (r:
    Option<(Rect, Rect)>)
    requires
        i32::MIN <= before.height + delta_cells <= i32::MAX,
    ensures
        r == resized_pair_spec(before, after, SplitPaneResizeAxis::Horizontal, delta_cells, min_height),
{
    resized_pair(before, after, SplitPaneResizeAxis::Horizontal, delta_cells, min_height)
}

/// The smallest and largest coordinates seen so far, widened by each layout in turn.
pub open spec fn bounds_fold(
    min_x: u16,
    min_y: u16,
    max_x: u16,
    max_y: u16,
    ls: Seq<DocumentViewLayout>,
) -> (u16, u16, u16, u16)
    decreases ls.len(),
{
    if ls.len() == 0 {
        (min_x, min_y, max_x, max_y)
    } else {
        let a = ls[0].area;
        bounds_fold(
            min16(min_x, a.x),
            min16(min_y, a.y),
            max16(max_x, a.x.saturating_add(a.width)),
            max16(max_y, a.y.saturating_add(a.height)),
            ls.drop_first(),
        )
    }
}

/// The smallest rectangle around all panes (at least one cell wide and high).
pub open spec fn layout_bounds_spec(layouts: Seq<DocumentViewLayout>) -> Option<Rect> {
    if layouts.len() == 0 {
        None
    } else {
        let f = layouts[0].area;
        let (min_x, min_y, max_x, max_y) = bounds_fold(
            f.x,
            f.y,
            f.x.saturating_add(f.width),
            f.y.saturating_add(f.height),
            layouts.drop_first(),
        );
        Some(
            Rect {
                x: min_x,
                y: min_y,
                width: max16(max_x.saturating_sub(min_x), 1),
                height: max16(max_y.saturating_sub(min_y), 1),
            },
        )
    }
}

/// The smallest rectangle around all panes, if there are any.
pub fn document_view_layout_bounds(layouts: &[DocumentViewLayout]) -> (r: Option<Rect>)
    ensures
        r == layout_bounds_spec(layouts@),
{
    if layouts.len() == 0 {
        return None;
    }
    let first = layouts[0];
    let mut min_x = first.area.x;
    let mut min_y = first.area.y;
    let mut max_x = first.area.x.saturating_add(first.area.width);
    let mut max_y = first.area.y.saturating_add(first.area.height);
    let ghost goal = layout_bounds_spec(layouts@);
    let mut i: usize = 1;
    assert(layouts@.skip(1) =~= layouts@.drop_first());
    while i < layouts.len()
        invariant
            1 <= i <= layouts.len(),
            bounds_fold(
                first.area.x,
                first.area.y,
                first.area.x.saturating_add(first.area.width),
                first.area.y.saturating_add(first.area.height),
                layouts@.drop_first(),
            ) == bounds_fold(min_x, min_y, max_x, max_y, layouts@.skip(i as int)),
        decreases layouts.len() - i,
    {
        let a = layouts[i].area;
        proof {
            assert(layouts@.skip(i as int)[0] == layouts@[i as int]);
            assert(layouts@.skip(i as int).drop_first() =~= layouts@.skip(i + 1));
        }
        min_x = min_u16(min_x, a.x);
        min_y = min_u16(min_y, a.y);
        max_x = max_u16(max_x, a.x.saturating_add(a.width));
        max_y = max_u16(max_y, a.y.saturating_add(a.height));
        i = i + 1;
    }
    Some(
        Rect::new(
            min_x,
            min_y,
            max_u16(max_x.saturating_sub(min_x), 1),
            max_u16(max_y.saturating_sub(min_y), 1),
        ),
    )
}

// ---------------------------------------------------------------------
// Laws
// ---------------------------------------------------------------------
proof fn lemma_bounds_fold(min_x: u16, min_y: u16, max_x: u16, max_y: u16, ls: Seq<DocumentViewLayout>)
    ensures
        ({
            let (a, b, c, d) = bounds_fold(min_x, min_y, max_x, max_y, ls);
            &&& a <= min_x && b <= min_y && c >= max_x && d >= max_y
            &&& forall|k: int| 0 <= k < ls.len() ==> {
                &&& a <= (#[trigger] ls[k]).area.x
                &&& b <= ls[k].area.y
                &&& ls[k].area.x.saturating_add(ls[k].area.width) <= c
                &&& ls[k].area.y.saturating_add(ls[k].area.height) <= d
            }
        }),
    decreases ls.len(),
{
    if ls.len() > 0 {
        let f = ls[0].area;
        let t = ls.drop_first();
        lemma_bounds_fold(
            min16(min_x, f.x),
            min16(min_y, f.y),
            max16(max_x, f.x.saturating_add(f.width)),
            max16(max_y, f.y.saturating_add(f.height)),
            t,
        );
        assert forall|k: int| 1 <= k < ls.len() implies #[trigger] ls[k] == t[k - 1] by {}
    }
}

/// The bounds of the panes hold every pane: no pane starts before them or
/// ends after them.
pub proof fn lemma_layout_bounds_cover(layouts: Seq<DocumentViewLayout>)
    requires
        layouts.len() > 0,
    ensures
        layout_bounds_spec(layouts) is Some,
        forall|k: int| 0 <= k < layouts.len() ==> {
            let b = layout_bounds_spec(layouts)->Some_0;
            let a = (#[trigger] layouts[k]).area;
            &&& b.x <= a.x
            &&& b.y <= a.y
            &&& a.x.saturating_add(a.width) <= b.x + b.width
            &&& a.y.saturating_add(a.height) <= b.y + b.height
        },
{
    let f = layouts[0].area;
    let t = layouts.drop_first();
    lemma_bounds_fold(f.x, f.y, f.x.saturating_add(f.width), f.y.saturating_add(f.height), t);
    assert forall|k: int| 1 <= k < layouts.len() implies #[trigger] layouts[k] == t[k - 1] by {}
}

proof fn lemma_least_delta(views: Seq<SplitPaneResizeViewState>, axis: SplitPaneResizeAxis, min: int)
    requires
        views.len() > 0,
    ensures
        forall|k: int| 0 <= k < views.len() ==> least_delta(views, axis, min) >= min - extent(#[trigger] views[k].area, axis),
    decreases views.len(),
{
    if views.len() > 1 {
        let t = views.drop_last();
        lemma_least_delta(t, axis, min);
        assert forall|k: int| 0 <= k < views.len() - 1 implies #[trigger] views[k] == t[k] by {}
    }
}

proof fn lemma_greatest_delta(views: Seq<SplitPaneResizeViewState>, axis: SplitPaneResizeAxis, min: int)
    requires
        views.len() > 0,
    ensures
        forall|k: int| 0 <= k < views.len() ==> greatest_delta(views, axis, min) <= extent(#[trigger] views[k].area, axis) - min,
    decreases views.len(),
{
    if views.len() > 1 {
        let t = views.drop_last();
        lemma_greatest_delta(t, axis, min);
        assert forall|k: int| 0 <= k < views.len() - 1 implies #[trigger] views[k] == t[k] by {}
    }
}

/// The move a drag makes: the requested move clamped so that every pane
/// keeps the minimum size.
pub open spec fn resize_move(
    before: Seq<SplitPaneResizeViewState>,
    after: Seq<SplitPaneResizeViewState>,
    axis: SplitPaneResizeAxis,
    delta_cells: i32,
    min_size: u16,
) -> int {
    let min = if min_size >= 1 { min_size as int } else { 1 };
    clamp_spec(delta_cells as int, least_delta(before, axis, min), greatest_delta(after, axis, min))
}

/// Dragging a divider moves all panes on its two sides together: with the
/// one move of the drag, every pane before the divider keeps its start and
/// grows by the move, every pane after it keeps its far edge and starts the
/// move later; no pane ends smaller than the minimum (or one cell); panes
/// keep their ids and their extent across the drag.
pub proof fn lemma_resize_keeps_min_size_and_edges(
    before: Seq<SplitPaneResizeViewState>,
    after: Seq<SplitPaneResizeViewState>,
    axis: SplitPaneResizeAxis,
    delta_cells: i32,
    min_size: u16,
)
    requires
        resized_view_areas_spec(before, after, axis, delta_cells, min_size) is Some,
    ensures
        ({
            let r = resized_view_areas_spec(before, after, axis, delta_cells, min_size)->Some_0;
            let min = if min_size >= 1 { min_size as int } else { 1 };
            &&& r.len() == before.len() + after.len()
            &&& {
                let d = resize_move(before, after, axis, delta_cells, min_size);
                &&& forall|k: int| 0 <= k < before.len() ==> {
                    &&& (#[trigger] r[k]).0 == before[k].view_id
                    &&& offset(r[k].1, axis) == offset(before[k].area, axis)
                    &&& extent(r[k].1, axis) == extent(before[k].area, axis) + d
                    &&& extent(r[k].1, axis) >= min
                }
                &&& forall|k: int| 0 <= k < after.len() ==> {
                    &&& (#[trigger] r[before.len() + k]).0 == after[k].view_id
                    &&& offset(r[before.len() + k].1, axis) == offset(after[k].area, axis) + d
                    &&& offset(r[before.len() + k].1, axis) + extent(r[before.len() + k].1, axis)
                        == offset(after[k].area, axis) + extent(after[k].area, axis)
                    &&& extent(r[before.len() + k].1, axis) >= min
                }
            }
        }),
{
    let min = if min_size >= 1 { min_size as int } else { 1 };
    let lo = least_delta(before, axis, min);
    let hi = greatest_delta(after, axis, min);
    let delta = clamp_spec(delta_cells as int, lo, hi);
    let r = resized_view_areas_spec(before, after, axis, delta_cells, min_size)->Some_0;
    lemma_least_delta(before, axis, min);
    lemma_greatest_delta(after, axis, min);
    assert forall|k: int| 0 <= k < before.len() implies {
        &&& (#[trigger] r[k]).0 == before[k].view_id
        &&& offset(r[k].1, axis) == offset(before[k].area, axis)
        &&& extent(r[k].1, axis) == extent(before[k].area, axis) + delta
        &&& extent(r[k].1, axis) >= min
    } by {
        assert(fits_u16(extent(before[k].area, axis) + delta));
        assert(min - extent(before[k].area, axis) <= lo);
    }
    assert forall|k: int| 0 <= k < after.len() implies {
        &&& (#[trigger] r[before.len() + k]).0 == after[k].view_id
        &&& offset(r[before.len() + k].1, axis) == offset(after[k].area, axis) + delta
        &&& offset(r[before.len() + k].1, axis) + extent(r[before.len() + k].1, axis)
            == offset(after[k].area, axis) + extent(after[k].area, axis)
        &&& extent(r[before.len() + k].1, axis) >= min
    } by {
        assert(fits_u16(offset(after[k].area, axis) + delta));
        assert(fits_u16(extent(after[k].area, axis) - delta));
        assert(hi <= extent(after[k].area, axis) - min);
    }
}

/// Dragging the divider between two panes keeps the first pane's start, the
/// separator's width and the second pane's far edge, and leaves each pane at
/// least one cell.
pub proof fn lemma_resized_pair_keeps_edges(
    before: Rect,
    after: Rect,
    axis: SplitPaneResizeAxis,
    delta_cells: i32,
    min_size: u16,
)
    requires
        resized_pair_spec(before, after, axis, delta_cells, min_size) is Some,
    ensures
        ({
            let (b, a) = resized_pair_spec(before, after, axis, delta_cells, min_size)->Some_0;
            &&& offset(b, axis) == offset(before, axis)
            &&& offset(a, axis) - (offset(b, axis) + extent(b, axis)) == offset(after, axis) - (
            offset(before, axis) + extent(before, axis))
            &&& offset(a, axis) + extent(a, axis) == offset(after, axis) + extent(after, axis)
            &&& extent(b, axis) >= 1
            &&& extent(a, axis) >= 1
        }),
{
}

/// A divider with a separator of at most one cell, a non-empty range inside
/// the cell range, and at least one view on each side, none listed twice.
pub open spec fn divider_well_formed(d: DividerView) -> bool {
    &&& d.gap <= SPLIT_PANE_MAX_SEPARATOR_GAP_CELLS
    &&& d.span >= 1
    &&& d.start + d.span <= u16::MAX
    &&& d.before.len() >= 1
    &&& d.after.len() >= 1
    &&& d.before.no_duplicates()
    &&& d.after.no_duplicates()
}

pub open spec fn all_well_formed(ds: Seq<DividerView>) -> bool {
    forall|k: int| 0 <= k < ds.len() ==> divider_well_formed(#[trigger] ds[k])
}

proof fn lemma_push_all_unique(ids: Seq<ViewId>, extra: Seq<ViewId>)
    requires
        ids.no_duplicates(),
    ensures
        push_all_unique_spec(ids, extra).no_duplicates(),
        push_all_unique_spec(ids, extra).len() >= ids.len(),
    decreases extra.len(),
{
    if extra.len() > 0 {
        lemma_push_all_unique(ids, extra.drop_last());
        let p = push_all_unique_spec(ids, extra.drop_last());
        let x = extra.last();
        if !p.contains(x) {
            assert forall|i: int, j: int|
                0 <= i < p.push(x).len() && 0 <= j < p.push(x).len() && i != j implies p.push(x)[i]
                != p.push(x)[j] by {
                if i < p.len() && j < p.len() {
                } else if i == p.len() {
                    assert(p.push(x)[j] == p[j]);
                } else {
                    assert(p.push(x)[i] == p[i]);
                }
            }
        }
    }
}

proof fn lemma_merge_well_formed(first: DividerView, second: DividerView)
    requires
        divider_well_formed(first),
        divider_well_formed(second),
    ensures
        divider_well_formed(merge_dividers_spec(first, second)),
{
    lemma_push_all_unique(first.before, second.before);
    lemma_push_all_unique(first.after, second.after);
}

proof fn lemma_push_or_merge_well_formed(ds: Seq<DividerView>, d: DividerView)
    requires
        all_well_formed(ds),
        divider_well_formed(d),
    ensures
        all_well_formed(push_or_merge_spec(ds, d)),
    decreases ds.len(),
{
    let i = first_mergeable(ds, d);
    if i < 0 || i >= ds.len() {
        assert forall|k: int| 0 <= k < ds.push(d).len() implies divider_well_formed(
            #[trigger] ds.push(d)[k],
        ) by {
            if k < ds.len() {
                assert(ds.push(d)[k] == ds[k]);
            }
        }
    } else {
        let rest = ds.remove(i);
        assert forall|k: int| 0 <= k < rest.len() implies divider_well_formed(#[trigger] rest[k]) by {
            if k < i {
                assert(rest[k] == ds[k]);
            } else {
                assert(rest[k] == ds[k + 1]);
            }
        }
        assert(divider_well_formed(ds[i]));
        lemma_merge_well_formed(ds[i], d);
        lemma_push_or_merge_well_formed(rest, merge_dividers_spec(ds[i], d));
    }
}

proof fn lemma_pair_step_well_formed(
    acc: Seq<DividerView>,
    first: DocumentViewLayout,
    second: DocumentViewLayout,
)
    requires
        all_well_formed(acc),
    ensures
        all_well_formed(pair_step_spec(acc, first, second)),
{
    let v = or_else_spec(vertical_divider_spec(first, second), vertical_divider_spec(second, first));
    let acc1 = match v {
        Some(d) => push_or_merge_spec(acc, d),
        None => acc,
    };
    match v {
        Some(d) => {
            assert(seq![first.view_id].no_duplicates());
            assert(seq![second.view_id].no_duplicates());
            lemma_push_or_merge_well_formed(acc, d);
        },
        None => {},
    }
    let h = or_else_spec(
        horizontal_divider_spec(first, second),
        horizontal_divider_spec(second, first),
    );
    match h {
        Some(d) => {
            assert(seq![first.view_id].no_duplicates());
            assert(seq![second.view_id].no_duplicates());
            lemma_push_or_merge_well_formed(acc1, d);
        },
        None => {},
    }
}

proof fn lemma_row_fold_well_formed(
    acc: Seq<DividerView>,
    first: DocumentViewLayout,
    rest: Seq<DocumentViewLayout>,
)
    requires
        all_well_formed(acc),
    ensures
        all_well_formed(row_fold_spec(acc, first, rest)),
    decreases rest.len(),
{
    if rest.len() > 0 {
        lemma_pair_step_well_formed(acc, first, rest[0]);
        lemma_row_fold_well_formed(pair_step_spec(acc, first, rest[0]), first, rest.drop_first());
    }
}

proof fn lemma_all_pairs_well_formed(acc: Seq<DividerView>, layouts: Seq<DocumentViewLayout>)
    requires
        all_well_formed(acc),
    ensures
        all_well_formed(all_pairs_fold_spec(acc, layouts)),
    decreases layouts.len(),
{
    if layouts.len() > 0 {
        lemma_row_fold_well_formed(acc, layouts[0], layouts.drop_first());
        lemma_all_pairs_well_formed(
            row_fold_spec(acc, layouts[0], layouts.drop_first()),
            layouts.drop_first(),
        );
    }
}

/// Every divider found between panes has a separator of at most one cell,
/// a non-empty range, and at least one view on each side, none listed twice.
pub proof fn lemma_dividers_well_formed(layouts: Seq<DocumentViewLayout>)
    ensures
        all_well_formed(split_pane_dividers_spec(layouts)),
{
    lemma_all_pairs_well_formed(seq![], layouts);
}

} // verus!
