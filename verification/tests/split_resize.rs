use nucleotide::split_resize::{
    document_view_layout_bounds, document_view_visual_area, push_unique_view_id,
    resized_horizontal_split_pane_areas, resized_vertical_split_pane_areas,
    resized_vertical_split_pane_view_areas, split_pane_divider_visual_line, split_pane_dividers,
    split_pane_ranges_can_merge, split_pane_resize_view_states, split_pane_resized_areas,
    DocumentViewLayout, Rect, SplitPaneResizeAxis, SplitPaneResizeState,
    SplitPaneResizeViewState, ViewId, SPLIT_PANE_MIN_HEIGHT_CELLS, SPLIT_PANE_MIN_WIDTH_CELLS,
};

fn test_view_id(index: u64) -> ViewId {
    ViewId((1_u64 << 32) | index)
}

/// The pointer movement in pixels converted to cells, as the window layer does it.
fn mouse_delta_cells(total_cells: u16, editor_px: f32, start: f32, now: f32) -> i32 {
    let cells_per_px = f32::from(total_cells).max(1.0) / editor_px.max(1.0);
    ((now - start) * cells_per_px).round() as i32
}

#[test]
fn document_view_layout_bounds_covers_all_view_rects() {
    let layouts = vec![
        DocumentViewLayout {
            view_id: test_view_id(1),
            area: Rect::new(20, 5, 30, 10),
            is_focused: true,
        },
        DocumentViewLayout {
            view_id: test_view_id(2),
            area: Rect::new(0, 0, 20, 15),
            is_focused: false,
        },
        DocumentViewLayout {
            view_id: test_view_id(3),
            area: Rect::new(50, 5, 10, 20),
            is_focused: false,
        },
    ];

    assert_eq!(
        document_view_layout_bounds(&layouts),
        Some(Rect::new(0, 0, 60, 25))
    );
    assert_eq!(document_view_layout_bounds(&[]), None);
}

#[test]
fn split_pane_dividers_detect_vertical_shared_edge() {
    let before_id = test_view_id(1);
    let after_id = test_view_id(2);
    let layouts = vec![
        DocumentViewLayout {
            view_id: before_id,
            area: Rect::new(0, 0, 40, 20),
            is_focused: true,
        },
        DocumentViewLayout {
            view_id: after_id,
            area: Rect::new(40, 0, 40, 20),
            is_focused: false,
        },
    ];

    let dividers = split_pane_dividers(&layouts);

    assert_eq!(dividers.len(), 1);
    assert_eq!(dividers[0].axis, SplitPaneResizeAxis::Vertical);
    assert_eq!(dividers[0].edge, 40);
    assert_eq!(dividers[0].start, 0);
    assert_eq!(dividers[0].span, 20);
    assert_eq!(dividers[0].gap, 0);
    assert_eq!(dividers[0].before_view_ids, vec![before_id]);
    assert_eq!(dividers[0].after_view_ids, vec![after_id]);
}

#[test]
fn split_pane_dividers_detect_horizontal_shared_edge() {
    let before_id = test_view_id(1);
    let after_id = test_view_id(2);
    let layouts = vec![
        DocumentViewLayout {
            view_id: before_id,
            area: Rect::new(0, 0, 80, 10),
            is_focused: true,
        },
        DocumentViewLayout {
            view_id: after_id,
            area: Rect::new(0, 10, 80, 10),
            is_focused: false,
        },
    ];

    let dividers = split_pane_dividers(&layouts);

    assert_eq!(dividers.len(), 1);
    assert_eq!(dividers[0].axis, SplitPaneResizeAxis::Horizontal);
    assert_eq!(dividers[0].edge, 10);
    assert_eq!(dividers[0].start, 0);
    assert_eq!(dividers[0].span, 80);
    assert_eq!(dividers[0].gap, 0);
    assert_eq!(dividers[0].before_view_ids, vec![before_id]);
    assert_eq!(dividers[0].after_view_ids, vec![after_id]);
}

#[test]
fn document_view_visual_area_expands_after_vertical_separator_cell() {
    let before_id = test_view_id(1);
    let after_id = test_view_id(2);
    let layouts = vec![
        DocumentViewLayout {
            view_id: before_id,
            area: Rect::new(0, 0, 40, 20),
            is_focused: true,
        },
        DocumentViewLayout {
            view_id: after_id,
            area: Rect::new(41, 0, 40, 20),
            is_focused: false,
        },
    ];

    let dividers = split_pane_dividers(&layouts);

    assert_eq!(dividers.len(), 1);
    assert_eq!(dividers[0].axis, SplitPaneResizeAxis::Vertical);
    assert_eq!(dividers[0].edge, 40);
    assert_eq!(dividers[0].gap, 1);
    assert_eq!(
        document_view_visual_area(layouts[0], &dividers),
        Rect::new(0, 0, 40, 20)
    );
    assert_eq!(
        document_view_visual_area(layouts[1], &dividers),
        Rect::new(40, 0, 41, 20)
    );
}

#[test]
fn document_view_visual_area_expands_after_horizontal_separator_cell() {
    let before_id = test_view_id(1);
    let after_id = test_view_id(2);
    let layouts = vec![
        DocumentViewLayout {
            view_id: before_id,
            area: Rect::new(0, 0, 80, 10),
            is_focused: true,
        },
        DocumentViewLayout {
            view_id: after_id,
            area: Rect::new(0, 11, 80, 10),
            is_focused: false,
        },
    ];

    let dividers = split_pane_dividers(&layouts);

    assert_eq!(dividers.len(), 1);
    assert_eq!(dividers[0].axis, SplitPaneResizeAxis::Horizontal);
    assert_eq!(dividers[0].edge, 10);
    assert_eq!(dividers[0].gap, 1);
    assert_eq!(
        document_view_visual_area(layouts[0], &dividers),
        Rect::new(0, 0, 80, 10)
    );
    assert_eq!(
        document_view_visual_area(layouts[1], &dividers),
        Rect::new(0, 10, 80, 11)
    );
}

#[test]
fn split_pane_dividers_merge_horizontal_segments_across_vertical_separator_cell() {
    let top_id = test_view_id(1);
    let bottom_left_id = test_view_id(2);
    let bottom_right_id = test_view_id(3);
    let layouts = vec![
        DocumentViewLayout {
            view_id: top_id,
            area: Rect::new(0, 0, 81, 10),
            is_focused: true,
        },
        DocumentViewLayout {
            view_id: bottom_left_id,
            area: Rect::new(0, 11, 40, 10),
            is_focused: false,
        },
        DocumentViewLayout {
            view_id: bottom_right_id,
            area: Rect::new(41, 11, 40, 10),
            is_focused: false,
        },
    ];

    let dividers = split_pane_dividers(&layouts);
    let horizontal = dividers
        .iter()
        .find(|divider| divider.axis == SplitPaneResizeAxis::Horizontal)
        .unwrap();

    assert_eq!(dividers.len(), 2);
    assert_eq!(horizontal.edge, 10);
    assert_eq!(horizontal.start, 0);
    assert_eq!(horizontal.span, 81);
    assert_eq!(horizontal.gap, 1);
    assert_eq!(horizontal.before_view_ids, vec![top_id]);
    assert_eq!(
        horizontal.after_view_ids,
        vec![bottom_left_id, bottom_right_id]
    );
}

#[test]
fn split_pane_dividers_merge_vertical_segments_across_horizontal_separator_cell() {
    let left_id = test_view_id(1);
    let right_top_id = test_view_id(2);
    let right_bottom_id = test_view_id(3);
    let layouts = vec![
        DocumentViewLayout {
            view_id: left_id,
            area: Rect::new(0, 0, 40, 21),
            is_focused: true,
        },
        DocumentViewLayout {
            view_id: right_top_id,
            area: Rect::new(41, 0, 40, 10),
            is_focused: false,
        },
        DocumentViewLayout {
            view_id: right_bottom_id,
            area: Rect::new(41, 11, 40, 10),
            is_focused: false,
        },
    ];

    let dividers = split_pane_dividers(&layouts);
    let vertical = dividers
        .iter()
        .find(|divider| divider.axis == SplitPaneResizeAxis::Vertical)
        .unwrap();

    assert_eq!(dividers.len(), 2);
    assert_eq!(vertical.edge, 40);
    assert_eq!(vertical.start, 0);
    assert_eq!(vertical.span, 21);
    assert_eq!(vertical.gap, 1);
    assert_eq!(vertical.before_view_ids, vec![left_id]);
    assert_eq!(vertical.after_view_ids, vec![right_top_id, right_bottom_id]);
}

#[test]
fn split_pane_divider_visual_line_expands_horizontal_inside_after_vertical_group() {
    let middle_id = test_view_id(1);
    let right_top_id = test_view_id(2);
    let right_bottom_id = test_view_id(3);
    let layouts = vec![
        DocumentViewLayout {
            view_id: middle_id,
            area: Rect::new(0, 0, 40, 21),
            is_focused: true,
        },
        DocumentViewLayout {
            view_id: right_top_id,
            area: Rect::new(41, 0, 40, 10),
            is_focused: false,
        },
        DocumentViewLayout {
            view_id: right_bottom_id,
            area: Rect::new(41, 11, 40, 10),
            is_focused: false,
        },
    ];

    let dividers = split_pane_dividers(&layouts);
    let horizontal = dividers
        .iter()
        .find(|divider| divider.axis == SplitPaneResizeAxis::Horizontal)
        .unwrap();

    assert_eq!(horizontal.edge, 10);
    assert_eq!(horizontal.start, 41);
    assert_eq!(horizontal.span, 40);

    let visual = split_pane_divider_visual_line(horizontal.clone(), &dividers);

    assert_eq!(visual.edge, 10);
    assert_eq!(visual.start, 40);
    assert_eq!(visual.span, 41);
}

#[test]
fn split_pane_divider_visual_line_expands_vertical_inside_after_horizontal_group() {
    let top_id = test_view_id(1);
    let bottom_left_id = test_view_id(2);
    let bottom_right_id = test_view_id(3);
    let layouts = vec![
        DocumentViewLayout {
            view_id: top_id,
            area: Rect::new(0, 0, 81, 10),
            is_focused: true,
        },
        DocumentViewLayout {
            view_id: bottom_left_id,
            area: Rect::new(0, 11, 40, 10),
            is_focused: false,
        },
        DocumentViewLayout {
            view_id: bottom_right_id,
            area: Rect::new(41, 11, 40, 10),
            is_focused: false,
        },
    ];

    let dividers = split_pane_dividers(&layouts);
    let vertical = dividers
        .iter()
        .find(|divider| divider.axis == SplitPaneResizeAxis::Vertical)
        .unwrap();

    assert_eq!(vertical.edge, 40);
    assert_eq!(vertical.start, 11);
    assert_eq!(vertical.span, 10);

    let visual = split_pane_divider_visual_line(vertical.clone(), &dividers);

    assert_eq!(visual.edge, 40);
    assert_eq!(visual.start, 10);
    assert_eq!(visual.span, 11);
}

#[test]
fn split_pane_dividers_merge_nested_leaf_segments() {
    let left_id = test_view_id(1);
    let top_right_id = test_view_id(2);
    let bottom_right_id = test_view_id(3);
    let layouts = vec![
        DocumentViewLayout {
            view_id: left_id,
            area: Rect::new(0, 0, 40, 20),
            is_focused: true,
        },
        DocumentViewLayout {
            view_id: top_right_id,
            area: Rect::new(40, 0, 40, 10),
            is_focused: false,
        },
        DocumentViewLayout {
            view_id: bottom_right_id,
            area: Rect::new(40, 10, 40, 10),
            is_focused: false,
        },
    ];

    let dividers = split_pane_dividers(&layouts);
    let vertical = dividers
        .iter()
        .find(|divider| divider.axis == SplitPaneResizeAxis::Vertical)
        .unwrap();

    assert_eq!(dividers.len(), 2);
    assert_eq!(vertical.edge, 40);
    assert_eq!(vertical.start, 0);
    assert_eq!(vertical.span, 20);
    assert_eq!(vertical.gap, 0);
    assert_eq!(vertical.before_view_ids, vec![left_id]);
    assert_eq!(vertical.after_view_ids, vec![top_right_id, bottom_right_id]);
}

#[test]
fn resized_vertical_split_pane_areas_clamp_to_min_width() {
    let before = Rect::new(0, 0, 40, 20);
    let after = Rect::new(40, 0, 40, 20);

    assert_eq!(
        resized_vertical_split_pane_areas(before, after, 10, SPLIT_PANE_MIN_WIDTH_CELLS),
        Some((Rect::new(0, 0, 50, 20), Rect::new(50, 0, 30, 20)))
    );
    assert_eq!(
        resized_vertical_split_pane_areas(before, after, -100, SPLIT_PANE_MIN_WIDTH_CELLS),
        Some((Rect::new(0, 0, 8, 20), Rect::new(8, 0, 72, 20)))
    );
}

#[test]
fn resized_horizontal_split_pane_areas_clamp_to_min_height() {
    let before = Rect::new(0, 0, 80, 10);
    let after = Rect::new(0, 10, 80, 10);

    assert_eq!(
        resized_horizontal_split_pane_areas(before, after, 4, SPLIT_PANE_MIN_HEIGHT_CELLS),
        Some((Rect::new(0, 0, 80, 14), Rect::new(0, 14, 80, 6)))
    );
    assert_eq!(
        resized_horizontal_split_pane_areas(before, after, -100, SPLIT_PANE_MIN_HEIGHT_CELLS),
        Some((Rect::new(0, 0, 80, 3), Rect::new(0, 3, 80, 17)))
    );
}

#[test]
fn split_pane_resized_areas_convert_mouse_delta_to_cells() {
    let before_id = test_view_id(1);
    let after_id = test_view_id(2);
    let state = SplitPaneResizeState {
        axis: SplitPaneResizeAxis::Vertical,
        before_views: vec![SplitPaneResizeViewState {
            view_id: before_id,
            area: Rect::new(0, 0, 40, 20),
        }],
        after_views: vec![SplitPaneResizeViewState {
            view_id: after_id,
            area: Rect::new(40, 0, 40, 20),
        }],
        total_area: Rect::new(0, 0, 80, 20),
    };
    let (start_mouse_x, editor_width_px) = (200.0_f32, 800.0_f32);
    let delta = mouse_delta_cells(state.total_area.width, editor_width_px, start_mouse_x, 300.0);

    assert_eq!(
        split_pane_resized_areas(&state, delta),
        Some(vec![
            (before_id, Rect::new(0, 0, 50, 20)),
            (after_id, Rect::new(50, 0, 30, 20)),
        ])
    );
}

#[test]
fn split_pane_resized_areas_resize_grouped_panes_together() {
    let before_id = test_view_id(1);
    let top_after_id = test_view_id(2);
    let bottom_after_id = test_view_id(3);
    let state = SplitPaneResizeState {
        axis: SplitPaneResizeAxis::Vertical,
        before_views: vec![SplitPaneResizeViewState {
            view_id: before_id,
            area: Rect::new(0, 0, 40, 20),
        }],
        after_views: vec![
            SplitPaneResizeViewState {
                view_id: top_after_id,
                area: Rect::new(40, 0, 40, 10),
            },
            SplitPaneResizeViewState {
                view_id: bottom_after_id,
                area: Rect::new(40, 10, 40, 10),
            },
        ],
        total_area: Rect::new(0, 0, 80, 20),
    };
    let (start_mouse_x, editor_width_px) = (200.0_f32, 800.0_f32);
    let delta = mouse_delta_cells(state.total_area.width, editor_width_px, start_mouse_x, 300.0);

    assert_eq!(
        split_pane_resized_areas(&state, delta),
        Some(vec![
            (before_id, Rect::new(0, 0, 50, 20)),
            (top_after_id, Rect::new(50, 0, 30, 10)),
            (bottom_after_id, Rect::new(50, 10, 30, 10)),
        ])
    );
}

// Further cases.

#[test]
fn ranges_merge_across_one_separator_cell_only() {
    assert!(split_pane_ranges_can_merge(0, 10, 11, 5));
    assert!(!split_pane_ranges_can_merge(0, 10, 12, 5));
    assert!(split_pane_ranges_can_merge(65530, 10, 0, 65535));
}

#[test]
fn far_apart_panes_have_no_divider() {
    let layouts = vec![
        DocumentViewLayout { view_id: test_view_id(1), area: Rect::new(0, 0, 10, 10), is_focused: true },
        DocumentViewLayout { view_id: test_view_id(2), area: Rect::new(12, 0, 10, 10), is_focused: false },
    ];
    assert!(split_pane_dividers(&layouts).is_empty());
}

#[test]
fn resize_view_states_follow_the_requested_ids() {
    let layouts = vec![
        DocumentViewLayout { view_id: test_view_id(1), area: Rect::new(0, 0, 10, 10), is_focused: true },
        DocumentViewLayout { view_id: test_view_id(2), area: Rect::new(10, 0, 10, 10), is_focused: false },
    ];
    let states = split_pane_resize_view_states(&layouts, &[test_view_id(2), test_view_id(9), test_view_id(1)]);
    assert_eq!(
        states,
        vec![
            SplitPaneResizeViewState { view_id: test_view_id(2), area: Rect::new(10, 0, 10, 10) },
            SplitPaneResizeViewState { view_id: test_view_id(1), area: Rect::new(0, 0, 10, 10) },
        ]
    );
}

#[test]
fn resizing_with_an_empty_side_gives_nothing() {
    let one = [SplitPaneResizeViewState { view_id: test_view_id(1), area: Rect::new(0, 0, 10, 10) }];
    assert_eq!(resized_vertical_split_pane_view_areas(&one, &[], 1, 3), None);
    assert_eq!(resized_vertical_split_pane_view_areas(&[], &one, 1, 3), None);
}

#[test]
fn resizing_too_small_panes_gives_nothing() {
    let before = [SplitPaneResizeViewState { view_id: test_view_id(1), area: Rect::new(0, 0, 4, 10) }];
    let after = [SplitPaneResizeViewState { view_id: test_view_id(2), area: Rect::new(4, 0, 4, 10) }];
    assert_eq!(resized_vertical_split_pane_view_areas(&before, &after, 1, 8), None);
}

#[test]
fn horizontal_state_uses_min_height() {
    let state = SplitPaneResizeState {
        axis: SplitPaneResizeAxis::Horizontal,
        before_views: vec![SplitPaneResizeViewState { view_id: test_view_id(1), area: Rect::new(0, 0, 80, 10) }],
        after_views: vec![SplitPaneResizeViewState { view_id: test_view_id(2), area: Rect::new(0, 10, 80, 10) }],
        total_area: Rect::new(0, 0, 80, 20),
    };
    assert_eq!(
        split_pane_resized_areas(&state, 100),
        Some(vec![
            (test_view_id(1), Rect::new(0, 0, 80, 17)),
            (test_view_id(2), Rect::new(0, 17, 80, 3)),
        ])
    );
}

#[test]
fn overlapping_pair_cannot_be_resized() {
    assert_eq!(
        resized_vertical_split_pane_areas(Rect::new(0, 0, 40, 20), Rect::new(30, 0, 40, 20), 1, 8),
        None
    );
}

#[test]
fn push_unique_skips_known_ids() {
    let mut ids = vec![test_view_id(1)];
    push_unique_view_id(&mut ids, test_view_id(1));
    push_unique_view_id(&mut ids, test_view_id(2));
    assert_eq!(ids, vec![test_view_id(1), test_view_id(2)]);
}
