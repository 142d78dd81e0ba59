use oyo_core::prefetch::{blame_target, plan_blame_prefetch, BlameSide};
use oyo_core::step::{LineKind, ViewLine};

fn line(kind: LineKind, old_line: Option<usize>, new_line: Option<usize>, primary: bool) -> ViewLine {
    ViewLine {
        content: String::new(),
        spans: vec![],
        kind,
        old_line,
        new_line,
        is_active: primary,
        is_active_change: primary,
        is_primary_active: primary,
        show_hunk_extent: false,
        change_id: 0,
        hunk_index: None,
        has_changes: kind != LineKind::Context,
    }
}

#[test]
fn blame_sides_of_lines() {
    assert_eq!(blame_target(&line(LineKind::Deleted, Some(4), None, false)), Some((BlameSide::Old, 4)));
    assert_eq!(blame_target(&line(LineKind::PendingInsert, None, Some(7), false)), Some((BlameSide::New, 7)));
    assert_eq!(blame_target(&line(LineKind::Context, Some(3), Some(5), false)), Some((BlameSide::New, 5)));
    assert_eq!(blame_target(&line(LineKind::Modified, Some(3), None, false)), Some((BlameSide::Old, 3)));
    assert_eq!(blame_target(&line(LineKind::Inserted, Some(3), None, false)), None);
}

fn context_lines() -> Vec<ViewLine> {
    vec![
        line(LineKind::Context, Some(10), Some(10), false),
        line(LineKind::Context, Some(11), Some(11), true),
        line(LineKind::Context, Some(12), Some(12), false),
    ]
}

#[test]
fn plan_covers_missing_lines_with_margin() {
    let lines = context_lines();
    let visible = vec![0, 1, 2];
    let cached = vec![false, false, false];
    assert_eq!(plan_blame_prefetch(&lines, &visible, &cached, 10, false, None, None), (None, Some((1, 32))));
    assert_eq!(plan_blame_prefetch(&lines, &visible, &vec![true, true, true], 10, false, None, None), (None, None));
}

#[test]
fn plan_skips_or_joins_earlier_ranges() {
    let lines = context_lines();
    let visible = vec![0, 1, 2];
    let cached = vec![false, true, false];
    assert_eq!(plan_blame_prefetch(&lines, &visible, &cached, 10, false, None, Some((1, 40))), (None, None));
    assert_eq!(plan_blame_prefetch(&lines, &visible, &cached, 10, false, None, Some((30, 100))), (None, Some((1, 100))));
    assert_eq!(plan_blame_prefetch(&lines, &visible, &cached, 10, false, None, Some((200, 500))), (None, Some((1, 32))));
}

#[test]
fn plan_narrows_to_focus_when_many_are_missing() {
    let lines = context_lines();
    let visible = vec![0, 1, 2];
    let cached = vec![false, false, false];
    assert_eq!(plan_blame_prefetch(&lines, &visible, &cached, 1, false, None, None), (None, Some((7, 15))));
    assert_eq!(plan_blame_prefetch(&lines, &visible, &cached, 1, true, None, None), (None, Some((1, 32))));
}

#[test]
fn plan_reads_deleted_lines_from_the_old_side() {
    let lines = vec![
        line(LineKind::Deleted, Some(50), None, false),
        line(LineKind::Inserted, None, Some(60), false),
    ];
    let visible = vec![0, 1];
    let cached = vec![false, false];
    assert_eq!(plan_blame_prefetch(&lines, &visible, &cached, 10, false, None, None), (Some((30, 70)), Some((40, 80))));
}
