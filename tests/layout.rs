use yofi::list_view::{highlight_mask, scroll_window, Params, Space};
use yofi::filtered_lines::ContinuousMatch;

// Lengths in half pixels: font 24px, icon 16px, margins 10px and 5px,
// spacing 1.5px.
fn params(hide_actions: bool) -> Params {
    Params {
        font_size: 48,
        icon_size: Some(32),
        margin_top: 20,
        margin_bottom: 10,
        item_spacing: 3,
        hide_actions,
    }
}

#[test]
fn param_entries_fit() {
    let p = params(false);
    for count in [0usize, 1, 2, 10, 100] {
        for scale in [1u16, 2, 3] {
            for has_subname in [false, true] {
                let space = p.space_for_entries(count, scale, has_subname);
                assert_eq!(p.entries_fitted(scale, has_subname, space), count);
            }
        }
    }
}

#[test]
fn space_for_entries_exact() {
    let p = params(false);
    // 3 rows of 48, 2 gaps of 3, margins 30.
    assert_eq!(p.space_for_entries(3, 1, false).height, 3 * 48 + 2 * 3 + 30);
    // One more row and gap for the sub-action line.
    assert_eq!(p.space_for_entries(3, 1, true).height, 4 * 48 + 4 * 3 + 30);
    assert_eq!(p.space_for_entries(0, 1, false).height, 30);
    assert_eq!(p.space_for_entries(2, 2, false).height, 2 * 96 + 6 + 60);
    // Hidden actions take no room.
    let h = params(true);
    assert_eq!(h.space_for_entries(3, 1, true).height, 3 * 48 + 2 * 3 + 30);
}

#[test]
fn entries_fitted_small_spaces() {
    let p = params(false);
    assert_eq!(p.entries_fitted(1, false, Space { width: 0, height: 0 }), 0);
    assert_eq!(p.entries_fitted(1, false, Space { width: 0, height: 29 }), 0);
    assert_eq!(p.entries_fitted(1, false, Space { width: 0, height: 78 }), 1);
    assert_eq!(p.entries_fitted(1, false, Space { width: 0, height: 77 }), 0);
    assert_eq!(p.entries_fitted(1, true, Space { width: 0, height: 78 }), 0);
    let empty = Params { font_size: 0, icon_size: None, margin_top: 0, margin_bottom: 0, item_spacing: 0, hide_actions: false };
    assert_eq!(empty.entries_fitted(1, false, Space { width: 0, height: 100 }), 0);
}

#[test]
fn window_keeps_selection_visible() {
    for displayed in 1usize..5 {
        for skip in 0usize..8 {
            for selected in 0usize..10 {
                let w = scroll_window(displayed, selected, skip);
                assert!(w.skip_offset <= selected && selected < w.skip_offset + displayed);
                assert_eq!(w.selected_row, selected - w.skip_offset);
                if skip <= selected && selected < skip + displayed {
                    assert_eq!(w.skip_offset, skip);
                }
            }
        }
    }
}

#[test]
fn window_moves_one_step_at_a_time() {
    let mut skip = 0;
    let mut prior = 0;
    for selected in [1usize, 2, 3, 4, 3, 2, 1, 0] {
        let w = scroll_window(3, selected, skip);
        let moved = w.skip_offset as i64 - skip as i64;
        let stepped = selected as i64 - prior as i64;
        assert!(moved.abs() <= stepped.abs());
        skip = w.skip_offset;
        prior = selected;
    }
}

#[test]
fn empty_window_does_not_panic() {
    let w = scroll_window(0, 4, 2);
    assert_eq!(w.displayed_count, 0);
    assert_eq!(w.skip_offset, 4);
    assert_eq!(w.selected_row, 0);
}

#[test]
fn fit_window_from_space() {
    let p = params(false);
    let space = p.space_for_entries(2, 1, false);
    let w = p.fit(1, false, space, 3, 0);
    assert_eq!(w.displayed_count, 2);
    assert_eq!(w.skip_offset, 2);
    assert_eq!(w.selected_row, 1);
    // With a sub-action line one row less fits.
    let w = p.fit(1, true, space, 0, 0);
    assert_eq!(w.displayed_count, 1);
}

#[test]
fn highlight_mask_marks_runs() {
    let runs = vec![ContinuousMatch { start: 0, len: 2 }, ContinuousMatch { start: 4, len: 10 }];
    assert_eq!(
        highlight_mask(6, &runs),
        vec![true, true, false, false, true, true]
    );
    assert_eq!(highlight_mask(0, &runs), Vec::<bool>::new());
}

#[test]
fn row_offsets() {
    let p = params(false);
    assert_eq!(p.row_offset(1, 0, 0, false), 0);
    assert_eq!(p.row_offset(1, 2, 0, false), 2 * 51);
    assert_eq!(p.row_offset(1, 2, 0, true), 3 * 51);
    assert_eq!(p.row_offset(1, 0, 1, true), 0);
}
