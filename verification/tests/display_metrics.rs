use oyo_core::display::{
    allow_overscroll_state, evolution_display_metrics, max_scroll, split_display_metrics, AnimationPhase,
};
use oyo_core::step::{LineKind, StepDirection, ViewLine};

#[test]
fn tests_test_allow_overscroll_state() {
    assert!(!allow_overscroll_state(false, false, false));
    assert!(allow_overscroll_state(false, false, true));
    assert!(!allow_overscroll_state(false, true, false));
    assert!(!allow_overscroll_state(true, false, false));
    assert!(allow_overscroll_state(true, true, false));
    assert!(allow_overscroll_state(true, true, true));
    assert!(allow_overscroll_state(true, false, true));
}

#[test]
fn tests_test_max_scroll_normal() {
    assert_eq!(max_scroll(100, 20, false), 80);
    assert_eq!(max_scroll(50, 10, false), 40);
    assert_eq!(max_scroll(20, 20, false), 0);
    assert_eq!(max_scroll(5, 20, false), 0);
}

#[test]
fn tests_test_max_scroll_overscroll() {
    assert_eq!(max_scroll(100, 20, true), 89);
    assert_eq!(max_scroll(50, 10, true), 44);
    assert_eq!(max_scroll(5, 20, true), 0);
    assert_eq!(max_scroll(1, 20, true), 0);
}

fn view_line_of(
    kind: LineKind,
    old_line: Option<usize>,
    new_line: Option<usize>,
    is_active: bool,
    is_primary_active: bool,
) -> ViewLine {
    ViewLine {
        content: String::new(),
        spans: vec![],
        kind,
        old_line,
        new_line,
        is_active,
        is_active_change: is_active,
        is_primary_active,
        show_hunk_extent: false,
        change_id: 0,
        hunk_index: None,
        has_changes: kind != LineKind::Context,
    }
}

#[test]
fn tests_test_evolution_metrics_skips_deleted() {
    let view = vec![
        view_line_of(LineKind::Context, Some(1), Some(1), false, false),
        view_line_of(LineKind::Deleted, Some(2), None, false, false),
        view_line_of(LineKind::Deleted, Some(3), None, false, false),
        view_line_of(LineKind::Context, Some(4), Some(2), true, true),
    ];
    let (len, idx) = evolution_display_metrics(&view, AnimationPhase::Idle);
    assert_eq!(len, 2);
    assert_eq!(idx, Some(1));
}

#[test]
fn tests_test_evolution_metrics_pending_delete_visibility() {
    let view = vec![
        view_line_of(LineKind::Context, Some(1), Some(1), false, false),
        view_line_of(LineKind::PendingDelete, Some(2), None, true, true),
        view_line_of(LineKind::Context, Some(3), Some(2), false, false),
    ];

    let (len, idx) = evolution_display_metrics(&view, AnimationPhase::Idle);
    assert_eq!(len, 2);
    assert_eq!(idx, None);

    let (len, idx) = evolution_display_metrics(&view, AnimationPhase::FadeOut);
    assert_eq!(len, 3);
    assert_eq!(idx, Some(1));

    let (len, idx) = evolution_display_metrics(&view, AnimationPhase::FadeIn);
    assert_eq!(len, 3);
    assert_eq!(idx, Some(1));
}

#[test]
fn tests_test_split_metrics_primary_dominates() {
    let view = vec![
        view_line_of(LineKind::Context, Some(1), Some(1), true, false),
        view_line_of(LineKind::Context, Some(2), Some(2), false, false),
        view_line_of(LineKind::Inserted, None, Some(3), true, true),
    ];
    let (len, idx) = split_display_metrics(&view, 0, StepDirection::Forward, false);
    assert_eq!(len, 3);
    assert_eq!(idx, Some(2));
}

#[test]
fn tests_test_split_metrics_minimize_jump() {
    let view = vec![
        view_line_of(LineKind::Context, Some(1), Some(1), false, false),
        view_line_of(LineKind::Context, Some(2), Some(2), false, false),
        view_line_of(LineKind::Modified, Some(3), Some(3), true, true),
        view_line_of(LineKind::Context, Some(4), Some(4), false, false),
    ];
    let (_, idx) = split_display_metrics(&view, 0, StepDirection::Forward, false);
    assert_eq!(idx, Some(2));

    let (_, idx) = split_display_metrics(&view, 0, StepDirection::Backward, false);
    assert_eq!(idx, Some(2));

    let (_, idx) = split_display_metrics(&view, 10, StepDirection::Forward, false);
    assert_eq!(idx, Some(2));
}

#[test]
fn tests_test_split_metrics_fallback_when_no_primary() {
    let view = vec![
        view_line_of(LineKind::Context, Some(1), Some(1), false, false),
        view_line_of(LineKind::Context, Some(2), Some(2), true, false),
        view_line_of(LineKind::Context, Some(3), Some(3), false, false),
    ];
    let (len, idx) = split_display_metrics(&view, 0, StepDirection::Forward, false);
    assert_eq!(len, 3);
    assert_eq!(idx, Some(1));
}
