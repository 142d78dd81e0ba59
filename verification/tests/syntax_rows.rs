use oyo_core::display::{AnimationPhase, ViewMode};
use oyo_core::step::{LineKind, ViewLine};
use oyo_core::syntax::{scope_label, syntax_line_for_display, syntax_probe_row, SyntaxSide};

fn line(kind: LineKind, old: Option<usize>, new: Option<usize>) -> ViewLine {
    ViewLine {
        content: String::new(),
        spans: vec![],
        kind,
        old_line: old,
        new_line: new,
        is_active: false,
        is_active_change: false,
        is_primary_active: false,
        show_hunk_extent: false,
        change_id: 0,
        hunk_index: None,
        has_changes: kind != LineKind::Context,
    }
}

fn view() -> Vec<ViewLine> {
    vec![
        line(LineKind::Context, Some(1), Some(1)),
        line(LineKind::Deleted, Some(2), None),
        line(LineKind::Deleted, Some(3), None),
        line(LineKind::Inserted, None, Some(2)),
        line(LineKind::Context, Some(4), Some(3)),
    ]
}

#[test]
fn single_pane_rows_are_lines() {
    let v = view();
    let idle = AnimationPhase::Idle;
    assert_eq!(syntax_line_for_display(&v, ViewMode::SinglePane, idle, 1), Some((SyntaxSide::Old, 2)));
    assert_eq!(syntax_line_for_display(&v, ViewMode::SinglePane, idle, 4), Some((SyntaxSide::New, 3)));
    assert_eq!(syntax_line_for_display(&v, ViewMode::SinglePane, idle, 5), None);
}

#[test]
fn evolution_rows_skip_deletions() {
    let v = view();
    let idle = AnimationPhase::Idle;
    assert_eq!(syntax_line_for_display(&v, ViewMode::Evolution, idle, 1), Some((SyntaxSide::New, 2)));
    assert_eq!(syntax_line_for_display(&v, ViewMode::Evolution, idle, 2), Some((SyntaxSide::New, 3)));
    assert_eq!(syntax_line_for_display(&v, ViewMode::Evolution, idle, 3), None);
}

#[test]
fn split_rows_prefer_the_new_side() {
    let v = view();
    let idle = AnimationPhase::Idle;
    assert_eq!(syntax_line_for_display(&v, ViewMode::Split, idle, 1), Some((SyntaxSide::New, 2)));
    assert_eq!(syntax_line_for_display(&v, ViewMode::Split, idle, 3), Some((SyntaxSide::Old, 4)));
    assert_eq!(syntax_line_for_display(&v, ViewMode::Split, idle, 4), None);
}

#[test]
fn the_probe_looks_mid_viewport() {
    assert_eq!(syntax_probe_row(10, 20, 100), Some(20));
    assert_eq!(syntax_probe_row(10, 20, 15), Some(14));
    assert_eq!(syntax_probe_row(3, 0, 10), Some(3));
    assert_eq!(syntax_probe_row(0, 20, 0), None);
}

#[test]
fn scope_labels() {
    assert_eq!(scope_label(&vec![]), "scopes: (none)");
    assert_eq!(scope_label(&vec!["source.rust".to_string()]), "scopes: source.rust");
    assert_eq!(
        scope_label(&vec!["source.rust".to_string(), "keyword.control".to_string()]),
        "scopes: source.rust | keyword.control"
    );
}
