use oyo_core::controls::{no_step_snapshot, NoStepEntry};
use oyo_core::mode_memory::{ModeMemory, ToggleOutcome, ViewerPos};
use oyo_core::change::{Change, ChangeSpan};
use oyo_core::diff::{DiffEngine, DiffResult, Hunk};
use oyo_core::display::{
    display_metrics, inline_text_for_change, modified_only_text_for_change, old_text_for_change, AnimationPhase,
    ViewMode,
};
use oyo_core::step::{AnimationFrame, DiffNavigator, StepDirection, StepState};

fn nav_for(old: &str, new: &str, lazy: bool) -> DiffNavigator {
    let diff = DiffEngine::new().diff_strings(old, new);
    DiffNavigator::new(diff, old.to_string(), new.to_string(), lazy)
}

fn prefix(nav: &DiffNavigator) -> bool {
    let applied = &nav.state().applied_changes;
    let sig = &nav.diff().significant_changes;
    applied.len() <= sig.len() && &sig[..applied.len()] == applied.as_slice() && nav.state().current_step == applied.len()
}

#[test]
fn every_move_keeps_applied_prefix() {
    let old = "a\nb\nc\nd\ne\nf\ng\nh\ni\nj\nk\nl\n";
    let new = "A\nB\nc\nd\ne\nf\ng\nH\ni\nj\nK\nl\n";
    let mut nav = nav_for(old, new, false);
    assert!(prefix(&nav));
    nav.next_hunk();
    assert!(prefix(&nav));
    nav.next();
    assert!(prefix(&nav));
    nav.prev();
    assert!(prefix(&nav));
    nav.goto_hunk(1);
    assert!(prefix(&nav));
    nav.goto_hunk_start();
    assert!(prefix(&nav));
    nav.goto_hunk_end();
    assert!(prefix(&nav));
    nav.prev_hunk();
    assert!(prefix(&nav));
    nav.prev_hunk();
    assert!(prefix(&nav));
    nav.goto_end();
    assert!(prefix(&nav));
    nav.prev();
    assert!(prefix(&nav));
    nav.clear_active_change();
    assert!(prefix(&nav));
}

#[test]
fn prev_undoes_next() {
    let mut nav = nav_for("a\nb\nc", "A\nb\nC", false);
    nav.next();
    let before = nav.state().applied_changes.clone();
    nav.next();
    nav.prev();
    assert_eq!(nav.state().applied_changes, before);
    assert_eq!(nav.state().current_step, 1);
}

#[test]
fn goto_reaches_both_ends_lazy_and_not() {
    for lazy in [false, true] {
        let mut nav = nav_for("a\nb\nc\nd", "A\nb\nC\nD", lazy);
        nav.goto_end();
        assert!(nav.state().is_at_end());
        assert_eq!(nav.state().applied_changes, nav.diff().significant_changes);
        assert_eq!(nav.state().step_direction, StepDirection::Forward);
        nav.goto_start();
        assert!(nav.state().is_at_start());
        assert!(nav.state().applied_changes.is_empty());
        let expected = if lazy { StepDirection::Unset } else { StepDirection::Forward };
        assert_eq!(nav.state().step_direction, expected);
    }
}

#[test]
fn set_state_refuses_other_shapes() {
    let mut nav = nav_for("a\nb", "A\nb", false);
    assert!(!nav.set_state(StepState::new(5, 1)));
    let mut other = nav_for("a\nb", "A\nb", false);
    other.next();
    assert!(nav.set_state(other.state().clone()));
    assert_eq!(nav.state().current_step, 1);
    assert!(nav.state().is_applied(nav.diff().significant_changes[0]));
}

#[test]
fn lookups_and_step_ranges() {
    let nav = nav_for("a\nb\nc\nd\ne\nf\ng\nh\ni", "A\nB\nc\nd\ne\nf\ng\nH\ni", false);
    assert_eq!(nav.hunks().len(), 2);
    assert_eq!(nav.hunk_step_range(0), Some((0, 2)));
    assert_eq!(nav.hunk_step_range(1), Some((2, 1)));
    assert_eq!(nav.hunk_step_range(2), None);
    let first = nav.diff().significant_changes[0];
    assert_eq!(nav.hunk_index_for_change_id_exact(first), Some(0));
    assert_eq!(nav.change_index_for(9999), None);
    assert_eq!(nav.old_content(), "a\nb\nc\nd\ne\nf\ng\nh\ni");
    assert!(nav.current_hunk().is_some());
}

#[test]
fn evolution_indices() {
    // line b deleted: hidden in the evolution view
    let mut nav = nav_for("a\nb\nc", "a\nc", false);
    assert_eq!(nav.evolution_visible_len(), 2);
    let deleted = nav.diff().significant_changes[0];
    assert_eq!(nav.evolution_display_index_for_change(deleted), None);
    assert_eq!(nav.evolution_display_index_or_nearest(deleted), Some(0));
    let near = nav.evolution_nearest_visible_change_id(deleted).unwrap();
    assert_ne!(near, deleted);
    assert_eq!(nav.evolution_change_range_for_display(5, 0), Some((2, 2)));
    // before the deletion is applied it still shows at the current step
    assert_eq!(nav.evolution_nearest_visible_change_id_dynamic(deleted, 3), Some(deleted));
    nav.next();
    assert_ne!(nav.evolution_nearest_visible_change_id_dynamic(deleted, 3), Some(deleted));
}

#[test]
fn view_line_for_change_and_windows() {
    let mut nav = nav_for("a\nb\nc\nd\ne", "a\nB\nc\nd\ne", false);
    nav.next();
    let id = nav.diff().significant_changes[0];
    let line = nav.view_line_for_change(AnimationFrame::Idle, id).unwrap();
    assert!(line.is_primary_active);
    assert_eq!(nav.current_view_for_change_window(AnimationFrame::Idle, id, 1).len(), 3);
    assert_eq!(nav.current_view_for_change_range(AnimationFrame::Idle, 3, 1).len(), 0);
    assert_eq!(nav.current_view_for_hunk(AnimationFrame::Idle, 0, 0).len(), 1);
    assert_eq!(nav.current_view_for_hunk(AnimationFrame::Idle, 0, 1).len(), 3);
    assert!(nav.active_change().is_some());
    let status = nav.changes_with_status();
    assert!(status.iter().all(|(_, applied, _)| *applied));
}

#[test]
fn texts_of_a_change() {
    let change = Change::new(
        1,
        vec![
            ChangeSpan::equal("a ".to_string()),
            ChangeSpan::delete("b".to_string()),
            ChangeSpan::insert("c".to_string()),
            ChangeSpan::replace("d".to_string(), "e".to_string()),
        ],
    );
    assert_eq!(old_text_for_change(&change), "a bd");
    assert_eq!(inline_text_for_change(&change), "a bcde");
    assert_eq!(modified_only_text_for_change(&change), "a ce");
}

#[test]
fn single_pane_metrics() {
    let mut nav = nav_for("a\nb\nc", "a\nB\nc", false);
    nav.next();
    let view = nav.current_view();
    let (len, idx) = display_metrics(&view, ViewMode::SinglePane, AnimationPhase::Idle, 0, StepDirection::Forward, false);
    assert_eq!(len, view.len());
    assert!(idx.is_some());
    assert_eq!(ViewMode::SinglePane.next(), ViewMode::Split);
    assert_eq!(ViewMode::Evolution.next(), ViewMode::SinglePane);
}

#[test]
fn manual_diff_without_hunks() {
    let diff = DiffResult {
        changes: vec![Change::single(0, ChangeSpan::equal("x".to_string()))],
        significant_changes: vec![],
        hunks: Vec::<Hunk>::new(),
        insertions: 0,
        deletions: 0,
    };
    let mut nav = DiffNavigator::new(diff, String::new(), String::new(), false);
    assert!(!nav.next());
    assert!(!nav.next_hunk());
    assert!(!nav.prev_hunk());
    assert_eq!(nav.current_view().len(), 1);
}

#[test]
fn toggle_back_restores_navigator_cursor_scope() {
    let old_lines: Vec<String> = (1..=25).map(|i| format!("line{}", i)).collect();
    let mut new_lines = old_lines.clone();
    new_lines[1] = "line2-new".to_string();
    new_lines[19] = "line20-new".to_string();
    let old = old_lines.join("\n");
    let new = new_lines.join("\n");
    let mut nav = nav_for(&old, &new, false);
    nav.goto_end();
    nav.clear_active_change();
    nav.set_cursor_hunk(1, nav.diff().hunks[1].change_ids.first().copied());
    nav.set_hunk_scope(true);
    let before = nav.state().clone();
    let snap = no_step_snapshot(nav.state());
    let mut m = ModeMemory::new(1, false, ViewMode::SinglePane);
    let mut pos = ViewerPos { scroll: 0, hscroll: 0, view_mode: ViewMode::SinglePane, peek: None };
    assert_eq!(m.toggle_stepping(0, &mut pos, snap, false), ToggleOutcome::EnteredStepping);
    nav.goto_start();
    let r = m.toggle_stepping(0, &mut pos, no_step_snapshot(nav.state()), false);
    match r {
        ToggleOutcome::LeftStepping(NoStepEntry::Cursor(h, c)) => {
            nav.goto_end();
            nav.set_cursor_hunk(h, c);
            nav.set_hunk_scope(true);
        }
        other => panic!("unexpected outcome {:?}", other),
    }
    assert_eq!(nav.state().current_hunk, before.current_hunk);
    assert_eq!(nav.state().cursor_change, before.cursor_change);
    assert!(nav.state().last_nav_was_hunk);
}
