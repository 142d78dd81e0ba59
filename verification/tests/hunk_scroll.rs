use oyo_core::hunk_scroll::{
    hunk_bounds, hunk_bounds_target, hunk_starts, next_hunk_target, pick_split_start, prev_hunk_target,
    HunkBounds, HunkStart,
};
use oyo_core::hunk_scroll::{
    bounds_of_hunk, cursor_for_scroll, hunk_bounds_split, hunk_starts_split, pick_split_bounds, Pane, ScrollCursor,
};
use oyo_core::step::{LineKind, ViewLine};

fn line(kind: LineKind, change_id: usize, hunk: Option<usize>) -> ViewLine {
    ViewLine {
        content: String::new(),
        spans: vec![],
        kind,
        old_line: None,
        new_line: None,
        is_active: false,
        is_active_change: false,
        is_primary_active: false,
        show_hunk_extent: false,
        change_id,
        hunk_index: hunk,
        has_changes: kind != LineKind::Context,
    }
}

fn view() -> Vec<ViewLine> {
    vec![
        line(LineKind::Context, 0, None),
        line(LineKind::Inserted, 1, Some(0)),
        line(LineKind::Inserted, 2, Some(0)),
        line(LineKind::Context, 3, None),
        line(LineKind::Deleted, 4, Some(1)),
        line(LineKind::Context, 5, None),
        line(LineKind::Inserted, 6, Some(2)),
    ]
}

fn start(idx: usize, change_id: usize) -> Option<HunkStart> {
    Some(HunkStart { idx, change_id: Some(change_id) })
}

#[test]
fn hunk_starts_follow_displayed_rows() {
    assert_eq!(hunk_starts(&view(), Pane::Single, 3), vec![start(1, 1), start(4, 4), start(6, 6)]);
    assert_eq!(hunk_starts(&view(), Pane::Evolution, 3), vec![start(1, 1), None, start(5, 6)]);
    assert_eq!(hunk_starts(&view(), Pane::Single, 2), vec![start(1, 1), start(4, 4)]);
}

#[test]
fn next_hunk_from_offset_and_cursor() {
    let starts = hunk_starts(&view(), Pane::Single, 3);
    assert_eq!(next_hunk_target(&starts, 0, 0, false, false, false), Some((0, start(1, 1).unwrap())));
    assert_eq!(next_hunk_target(&starts, 1, 0, false, true, false), Some((1, start(4, 4).unwrap())));
    assert_eq!(next_hunk_target(&starts, 1, 0, false, false, false), Some((0, start(1, 1).unwrap())));
    assert_eq!(next_hunk_target(&starts, 6, 0, false, true, false), None);
    assert_eq!(next_hunk_target(&starts, 6, 0, false, true, true), Some((0, start(1, 1).unwrap())));
    assert_eq!(next_hunk_target(&starts, 0, 1, true, false, false), Some((2, start(6, 6).unwrap())));
}

#[test]
fn prev_hunk_from_offset_and_cursor() {
    let starts = hunk_starts(&view(), Pane::Single, 3);
    assert_eq!(prev_hunk_target(&starts, 5, 0, false, false), Some((1, start(4, 4).unwrap())));
    assert_eq!(prev_hunk_target(&starts, 1, 0, false, false), None);
    assert_eq!(prev_hunk_target(&starts, 0, 0, true, true), Some((2, start(6, 6).unwrap())));
    assert_eq!(prev_hunk_target(&starts, 0, 2, true, false), Some((1, start(4, 4).unwrap())));
}

#[test]
fn a_lone_hunk_is_always_the_target() {
    let starts = vec![None, start(3, 9), None];
    assert_eq!(next_hunk_target(&starts, 100, 0, false, false, false), Some((1, start(3, 9).unwrap())));
    assert_eq!(prev_hunk_target(&starts, 0, 0, false, false), Some((1, start(3, 9).unwrap())));
    assert_eq!(next_hunk_target(&vec![], 0, 0, true, true, true), None);
}

#[test]
fn split_start_nearer_the_offset() {
    let old = start(3, 1);
    let new = start(8, 2);
    assert_eq!(pick_split_start(old, new, 5), old);
    assert_eq!(pick_split_start(old, new, 6), new);
    assert_eq!(pick_split_start(start(4, 1), start(6, 2), 5), start(6, 2));
    assert_eq!(pick_split_start(None, new, 0), new);
    assert_eq!(pick_split_start(None, None, 0), None);
}

fn bounds(start_idx: usize, start_id: usize, end_idx: usize, end_id: usize) -> Option<HunkBounds> {
    Some(HunkBounds { start: start(start_idx, start_id).unwrap(), end: start(end_idx, end_id).unwrap() })
}

#[test]
fn hunk_bounds_cover_first_and_last_rows() {
    assert_eq!(
        hunk_bounds(&view(), Pane::Single, 3),
        vec![bounds(1, 1, 2, 2), bounds(4, 4, 4, 4), bounds(6, 6, 6, 6)]
    );
    assert_eq!(hunk_bounds(&view(), Pane::Evolution, 3), vec![bounds(1, 1, 2, 2), None, bounds(5, 6, 5, 6)]);
}

#[test]
fn hunk_bounds_target_follows_scope_or_offset() {
    let b = hunk_bounds(&view(), Pane::Single, 3);
    assert_eq!(hunk_bounds_target(&b, 2, true, 0), Some((2, bounds(6, 6, 6, 6).unwrap())));
    assert_eq!(hunk_bounds_target(&b, 2, false, 5), Some((1, bounds(4, 4, 4, 4).unwrap())));
    assert_eq!(hunk_bounds_target(&b, 0, false, 0), Some((0, bounds(1, 1, 2, 2).unwrap())));
    let sparse = vec![None, bounds(3, 3, 5, 5)];
    assert_eq!(hunk_bounds_target(&sparse, 0, true, 0), Some((1, bounds(3, 3, 5, 5).unwrap())));
    assert_eq!(hunk_bounds_target(&vec![None, None], 0, false, 9), None);
}

#[test]
fn cursor_lands_on_the_line_at_the_offset() {
    assert_eq!(cursor_for_scroll(&view(), Pane::Single, 1), ScrollCursor::Hunk(0, 1));
    assert_eq!(cursor_for_scroll(&view(), Pane::Single, 3), ScrollCursor::Change(3));
    assert_eq!(cursor_for_scroll(&view(), Pane::Evolution, 4), ScrollCursor::Change(5));
    assert_eq!(cursor_for_scroll(&view(), Pane::Evolution, 5), ScrollCursor::Hunk(2, 6));
    assert_eq!(cursor_for_scroll(&view(), Pane::Single, 7), ScrollCursor::Clear);
}

fn split_line(kind: LineKind, old: Option<usize>, new: Option<usize>, change_id: usize, hunk: Option<usize>) -> ViewLine {
    let mut l = line(kind, change_id, hunk);
    l.old_line = old;
    l.new_line = new;
    l
}

#[test]
fn split_panes_count_their_own_rows() {
    let view = vec![
        split_line(LineKind::Context, Some(1), Some(1), 0, None),
        split_line(LineKind::Deleted, Some(2), None, 1, Some(0)),
        split_line(LineKind::Inserted, None, Some(2), 2, Some(0)),
        split_line(LineKind::Inserted, None, Some(3), 3, Some(0)),
        split_line(LineKind::Context, Some(3), Some(4), 4, None),
        split_line(LineKind::Inserted, None, Some(5), 5, Some(1)),
    ];
    let (old, new) = hunk_starts_split(&view, 2);
    assert_eq!(old, vec![start(1, 1), None]);
    assert_eq!(new, vec![start(1, 2), start(4, 5)]);
    let (old_b, new_b) = hunk_bounds_split(&view, 2);
    assert_eq!(old_b, vec![bounds(1, 1, 1, 1), None]);
    assert_eq!(new_b, vec![bounds(1, 2, 2, 3), bounds(4, 5, 4, 5)]);
    assert_eq!(pick_split_bounds(old_b[0], new_b[0], 0), new_b[0]);
    assert_eq!(pick_split_bounds(bounds(0, 1, 0, 1), new_b[0], 0), bounds(0, 1, 0, 1));
    assert_eq!(pick_split_bounds(None, new_b[1], 0), new_b[1]);
    assert_eq!(bounds_of_hunk(&new_b, 1), Some((1, bounds(4, 5, 4, 5).unwrap())));
    assert_eq!(bounds_of_hunk(&old_b, 1), None);
    assert_eq!(bounds_of_hunk(&old_b, 9), None);
}
