use oyo_core::display::{reveal_row, settle_scroll};
use oyo_core::display::truncate_path;
use oyo_core::display::ViewMode;
use oyo_core::goto_line::{goto_line_target, pick_split_index, scroll_for_row};
use oyo_core::step::{LineKind, ViewLine};

fn line(kind: LineKind, old_line: Option<usize>, new_line: Option<usize>) -> ViewLine {
    ViewLine {
        content: String::new(),
        spans: vec![],
        kind,
        old_line,
        new_line,
        is_active: false,
        is_active_change: false,
        is_primary_active: false,
        show_hunk_extent: false,
        change_id: 0,
        hunk_index: None,
        has_changes: kind != LineKind::Context,
    }
}

fn sample() -> Vec<ViewLine> {
    vec![
        line(LineKind::Context, Some(1), Some(1)),
        line(LineKind::Deleted, Some(2), None),
        line(LineKind::Inserted, None, Some(2)),
        line(LineKind::Context, Some(3), Some(3)),
    ]
}

#[test]
fn single_pane_rows() {
    let v = sample();
    assert_eq!(goto_line_target(&v, ViewMode::SinglePane, 2, 0), Some(1));
    assert_eq!(goto_line_target(&v, ViewMode::SinglePane, 3, 0), Some(3));
    assert_eq!(goto_line_target(&v, ViewMode::SinglePane, 9, 0), Some(3));
    assert_eq!(goto_line_target(&v, ViewMode::SinglePane, 0, 0), Some(0));
}

#[test]
fn evolution_rows_skip_deleted() {
    let v = sample();
    assert_eq!(goto_line_target(&v, ViewMode::Evolution, 2, 0), Some(1));
    assert_eq!(goto_line_target(&v, ViewMode::Evolution, 3, 0), Some(2));
    assert_eq!(goto_line_target(&v, ViewMode::Evolution, 9, 0), Some(2));
}

#[test]
fn split_rows_pick_nearest_side() {
    let v = sample();
    // old side: rows 0,1,2 for lines 1,2,3; new side: rows 0,1,2 for lines 1,2,3
    assert_eq!(goto_line_target(&v, ViewMode::Split, 3, 0), Some(2));
    assert_eq!(goto_line_target(&v, ViewMode::Split, 0, 5), Some(0));
    assert_eq!(pick_split_index(Some(1), Some(7), 6), Some(7));
    assert_eq!(pick_split_index(Some(5), Some(7), 6), Some(7));
    assert_eq!(pick_split_index(Some(4), Some(7), 5), Some(4));
    assert_eq!(pick_split_index(None, None, 5), None);
}

#[test]
fn scroll_positions() {
    assert_eq!(scroll_for_row(10, 6, true), (7, true));
    assert_eq!(scroll_for_row(1, 6, true), (0, true));
    assert_eq!(scroll_for_row(10, 0, true), (10, true));
    assert_eq!(scroll_for_row(10, 6, false), (10, false));
}

#[test]
fn path_truncation() {
    assert_eq!(truncate_path("src/main.rs", 20), "src/main.rs");
    assert_eq!(truncate_path("a/b", 2), "...");
    assert_eq!(truncate_path("abcdefgh", 5), "...gh");
    assert_eq!(truncate_path("one/two/three/file.rs", 15), "one/.../file.rs");
    assert_eq!(truncate_path("one/two/three/file.rs", 10), ".../ile.rs");
}

#[test]
fn revealing_rows_keeps_a_margin() {
    // viewport of 20 rows: margin 3
    assert_eq!(reveal_row(10, 11, 20), 8);
    assert_eq!(reveal_row(10, 20, 20), 10);
    assert_eq!(reveal_row(10, 27, 20), 11);
    assert_eq!(reveal_row(0, 1, 20), 0);
    // viewport of 4 rows: margin 1
    assert_eq!(reveal_row(5, 9, 4), 7);
    assert_eq!(reveal_row(5, 0, 1), 0);
}

#[test]
fn settling_scroll_after_a_step() {
    assert_eq!(settle_scroll(0, 20, 100, Some(50), true, false), 40);
    assert_eq!(settle_scroll(0, 20, 100, Some(5), true, false), 0);
    assert_eq!(settle_scroll(10, 20, 100, Some(11), false, false), 8);
    assert_eq!(settle_scroll(30, 20, 100, None, false, false), 0);
    assert_eq!(settle_scroll(30, 20, 100, None, true, true), 30);
    assert_eq!(settle_scroll(30, 20, 0, None, false, false), 30);
}
