use oyo_core::controls::{no_step_entry, NoStepEntry, NoStepState};
use oyo_core::controls::{
    decrease_speed, filtered_file_indices, hunk_index_for_number, hunk_step_info, increase_speed, next_file_target,
    next_file_wrapped_target, next_match, parse_goto_query, prev_file_target, prev_file_wrapped_target, prev_match,
    step_index_for_number, toggle_view_mode, GotoTarget, PendingCount,
};
use oyo_core::controls::{
    base_modified_view_mode, cycle_peek_change, is_peek_override_for_line, peek_mode_for_line, toggle_peek_hunk,
    PeekMode, PeekScope, PeekState,
};
use oyo_core::controls::{auto_step_on_enter, pending_insert_only_in_current_hunk, wrap_file_order};
use oyo_core::step::{LineKind, ViewLine};
use oyo_core::display::ViewMode;
use oyo_core::multi::{FileEntry, FileStatus};
use oyo_core::diff::DiffEngine;
use oyo_core::step::DiffNavigator;

#[test]
fn count_prefix_accumulates_and_caps() {
    let mut count = PendingCount::new();
    assert_eq!(count.take_count(), 1);
    count.push_count_digit(1);
    count.push_count_digit(2);
    assert_eq!(count.take_count(), 12);
    assert_eq!(count.pending, None);
    for _ in 0..6 {
        count.push_count_digit(9);
    }
    assert_eq!(count.take_count(), 9999);
    count.push_count_digit(5);
    count.reset_count();
    assert_eq!(count.take_count(), 1);
}

#[test]
fn speed_steps_and_bounds() {
    assert_eq!(increase_speed(200), 250);
    assert_eq!(increase_speed(1990), 2000);
    assert_eq!(decrease_speed(200), 150);
    assert_eq!(decrease_speed(60), 50);
    assert_eq!(decrease_speed(0), 50);
}

#[test]
fn numbered_targets_clamp() {
    assert_eq!(hunk_index_for_number(0, 5), Some(0));
    assert_eq!(hunk_index_for_number(3, 5), Some(2));
    assert_eq!(hunk_index_for_number(99, 5), Some(4));
    assert_eq!(hunk_index_for_number(1, 0), None);
    assert_eq!(step_index_for_number(7, 4), Some(3));
}

#[test]
fn view_mode_toggle_skips_evolution_without_stepping() {
    assert_eq!(toggle_view_mode(ViewMode::SinglePane, true), ViewMode::Split);
    assert_eq!(toggle_view_mode(ViewMode::Split, true), ViewMode::Evolution);
    assert_eq!(toggle_view_mode(ViewMode::Evolution, true), ViewMode::SinglePane);
    assert_eq!(toggle_view_mode(ViewMode::Split, false), ViewMode::SinglePane);
    assert_eq!(toggle_view_mode(ViewMode::Evolution, false), ViewMode::SinglePane);
    assert_eq!(toggle_view_mode(ViewMode::SinglePane, false), ViewMode::Split);
}

#[test]
fn search_matches_cycle() {
    let matches = vec![3, 8, 15];
    assert_eq!(next_match(&matches, 3), Some(8));
    assert_eq!(next_match(&matches, 15), Some(3));
    assert_eq!(next_match(&matches, 0), Some(3));
    assert_eq!(prev_match(&matches, 8), Some(3));
    assert_eq!(prev_match(&matches, 3), Some(15));
    assert_eq!(prev_match(&matches, 100), Some(15));
    assert_eq!(next_match(&vec![], 1), None);
    assert_eq!(prev_match(&vec![], 1), None);
}

#[test]
fn goto_queries() {
    assert_eq!(parse_goto_query("  42 "), Some(GotoTarget::Line(42)));
    assert_eq!(parse_goto_query("h3"), Some(GotoTarget::Hunk(3)));
    assert_eq!(parse_goto_query("H: 7"), Some(GotoTarget::Hunk(7)));
    assert_eq!(parse_goto_query("s:+2"), Some(GotoTarget::Step(2)));
    assert_eq!(parse_goto_query("S"), None);
    assert_eq!(parse_goto_query("+5"), None);
    assert_eq!(parse_goto_query("x1"), None);
    assert_eq!(parse_goto_query(""), None);
    assert_eq!(parse_goto_query("99999999999999999999999"), None);
}

fn entry(name: &str) -> FileEntry {
    FileEntry {
        path: name.to_string(),
        old_path: None,
        display_name: name.to_string(),
        status: FileStatus::Modified,
        insertions: 0,
        deletions: 0,
    }
}

#[test]
fn file_filter_ignores_ascii_case() {
    let files = vec![entry("src/Main.rs"), entry("README.md"), entry("src/lib.rs")];
    assert_eq!(filtered_file_indices(&files, ""), vec![0, 1, 2]);
    assert_eq!(filtered_file_indices(&files, "SRC"), vec![0, 2]);
    assert_eq!(filtered_file_indices(&files, "main"), vec![0]);
    assert_eq!(filtered_file_indices(&files, "zzz"), Vec::<usize>::new());
}

#[test]
fn file_moves_with_and_without_filter() {
    let shown = vec![1, 4, 6];
    assert_eq!(next_file_target(true, &shown, 4, 8), Some(6));
    assert_eq!(next_file_target(true, &shown, 6, 8), None);
    assert_eq!(next_file_target(true, &shown, 2, 8), Some(1));
    assert_eq!(prev_file_target(true, &shown, 4), Some(1));
    assert_eq!(prev_file_target(true, &shown, 1), None);
    assert_eq!(prev_file_target(true, &shown, 2), Some(6));
    assert_eq!(next_file_target(false, &shown, 2, 3), None);
    assert_eq!(next_file_target(false, &shown, 1, 3), Some(2));
    assert_eq!(prev_file_target(false, &shown, 0), None);
    assert_eq!(next_file_target(true, &vec![], 0, 3), None);
}

#[test]
fn wrapped_file_moves() {
    assert_eq!(next_file_wrapped_target(false, &vec![], 2, 3), Some(0));
    assert_eq!(next_file_wrapped_target(false, &vec![], 0, 1), None);
    assert_eq!(prev_file_wrapped_target(false, &vec![], 0, 3), Some((2, true)));
    assert_eq!(prev_file_wrapped_target(false, &vec![], 0, 1), Some((0, false)));
    assert_eq!(prev_file_wrapped_target(false, &vec![], 0, 0), None);
    let shown = vec![1, 4];
    assert_eq!(next_file_wrapped_target(true, &shown, 4, 8), Some(1));
    assert_eq!(prev_file_wrapped_target(true, &shown, 1, 8), Some((4, true)));
    assert_eq!(next_file_wrapped_target(true, &vec![3], 3, 8), None);
}

#[test]
fn hunk_progress_counts_applied_changes() {
    let diff = DiffEngine::new().diff_strings("a\nc\n", "a\nx\ny\nc\n");
    let mut nav = DiffNavigator::new(diff, "a\nc\n".to_string(), "a\nx\ny\nc\n".to_string(), false);
    assert_eq!(hunk_step_info(&nav), Some((0, 2)));
    assert!(nav.next());
    assert_eq!(hunk_step_info(&nav), Some((1, 2)));
}

fn peek_line(kind: LineKind, primary: bool, hunk: Option<usize>) -> ViewLine {
    ViewLine {
        content: String::new(),
        spans: vec![],
        kind,
        old_line: Some(1),
        new_line: Some(1),
        is_active: primary,
        is_active_change: primary,
        is_primary_active: primary,
        show_hunk_extent: false,
        change_id: 0,
        hunk_index: hunk,
        has_changes: true,
    }
}

#[test]
fn change_peek_cycles_through_modes() {
    let base = base_modified_view_mode(true);
    assert_eq!(base, PeekMode::Modified);
    assert_eq!(base_modified_view_mode(false), PeekMode::Mixed);
    let p1 = cycle_peek_change(None, true, base);
    assert_eq!(p1, Some(PeekState { scope: PeekScope::Change, mode: PeekMode::Old }));
    let p2 = cycle_peek_change(p1, true, base);
    assert_eq!(p2, Some(PeekState { scope: PeekScope::Change, mode: PeekMode::Mixed }));
    assert_eq!(cycle_peek_change(p2, true, base), None);
    assert_eq!(cycle_peek_change(None, false, base), None);
}

#[test]
fn hunk_peek_toggles() {
    let on = toggle_peek_hunk(None, true);
    assert_eq!(on, Some(PeekState { scope: PeekScope::Hunk, mode: PeekMode::Old }));
    assert_eq!(toggle_peek_hunk(on, true), None);
    let change = Some(PeekState { scope: PeekScope::Change, mode: PeekMode::Mixed });
    assert_eq!(toggle_peek_hunk(change, true), on);
    assert_eq!(toggle_peek_hunk(change, false), change);
}

#[test]
fn peek_applies_to_covered_lines() {
    let hunk_peek = Some(PeekState { scope: PeekScope::Hunk, mode: PeekMode::Old });
    let in_hunk = peek_line(LineKind::Context, false, Some(2));
    let other = peek_line(LineKind::Modified, false, Some(1));
    assert!(is_peek_override_for_line(hunk_peek, true, &in_hunk, 2));
    assert!(!is_peek_override_for_line(hunk_peek, true, &other, 2));
    assert!(!is_peek_override_for_line(hunk_peek, false, &in_hunk, 2));
    assert_eq!(peek_mode_for_line(hunk_peek, true, &in_hunk, 2, PeekMode::Mixed), Some(PeekMode::Old));
    assert_eq!(peek_mode_for_line(hunk_peek, true, &other, 2, PeekMode::Mixed), None);
    let cursor = peek_line(LineKind::PendingModify, true, Some(0));
    assert_eq!(peek_mode_for_line(None, true, &cursor, 0, PeekMode::Mixed), Some(PeekMode::Mixed));
    let cursor_insert = peek_line(LineKind::Inserted, true, Some(0));
    assert_eq!(peek_mode_for_line(None, true, &cursor_insert, 0, PeekMode::Mixed), None);
    let change_peek = Some(PeekState { scope: PeekScope::Change, mode: PeekMode::Old });
    assert_eq!(peek_mode_for_line(change_peek, true, &cursor_insert, 0, PeekMode::Mixed), Some(PeekMode::Old));
    assert!(is_peek_override_for_line(change_peek, true, &cursor_insert, 5));
}

fn unified_hunk_two_changes() -> oyo_core::multi::MultiFileDiff {
    let old = "one\ntwo\nthree\nfour".to_string();
    let new = "ONE\nTWO\nthree\nfour".to_string();
    oyo_core::multi::MultiFileDiff::from_file_pair("a.txt".to_string(), "a.txt".to_string(), old, new)
}

#[test]
fn app_test_hunk_step_info_counts_applied_changes() {
    let mut multi = unified_hunk_two_changes();
    let nav = multi.current_navigator().unwrap();
    assert_eq!(hunk_step_info(nav), Some((0, 2)));

    nav.next();
    assert_eq!(hunk_step_info(nav), Some((1, 2)));

    nav.next();
    assert_eq!(hunk_step_info(nav), Some((2, 2)));
}

#[test]
fn tests_test_hunk_step_info_counts_applied_changes() {
    let mut multi = unified_hunk_two_changes();
    let nav = multi.current_navigator().unwrap();
    assert_eq!(hunk_step_info(nav), Some((0, 2)));

    nav.next();
    assert_eq!(hunk_step_info(nav), Some((1, 2)));

    nav.next();
    assert_eq!(hunk_step_info(nav), Some((2, 2)));
}

#[test]
fn pending_inserts_after_the_cursor() {
    let old = "a\nd\n";
    let new = "a\nb\nc\nd\n";
    let diff = DiffEngine::new().diff_strings(old, new);
    let mut nav = DiffNavigator::new(diff, old.to_string(), new.to_string(), false);
    assert_eq!(pending_insert_only_in_current_hunk(&nav), 0);
    assert!(nav.next());
    assert_eq!(pending_insert_only_in_current_hunk(&nav), 1);
    assert!(nav.next());
    assert_eq!(pending_insert_only_in_current_hunk(&nav), 0);

    let old = "a\nb\nd\n";
    let new = "a\nB\nc\nd\n";
    let diff = DiffEngine::new().diff_strings(old, new);
    let mut nav = DiffNavigator::new(diff, old.to_string(), new.to_string(), false);
    assert!(nav.next());
    assert_eq!(pending_insert_only_in_current_hunk(&nav), 0);
}

#[test]
fn entering_a_file_auto_steps() {
    // first visit, at step 0, with changes; blank file steps when enabled
    assert!(auto_step_on_enter(true, true, true, true, false, true, false, ViewMode::Evolution));
    assert!(!auto_step_on_enter(true, true, true, true, false, false, false, ViewMode::Evolution));
    // regular files step when stepping on entry is on, outside evolution
    assert!(auto_step_on_enter(true, true, true, false, false, false, true, ViewMode::Split));
    assert!(!auto_step_on_enter(true, true, true, false, false, false, true, ViewMode::Evolution));
    // not on a later visit, away from step 0, or without changes
    assert!(!auto_step_on_enter(false, true, true, true, false, true, true, ViewMode::Split));
    assert!(!auto_step_on_enter(true, false, true, true, false, true, true, ViewMode::Split));
    assert!(!auto_step_on_enter(true, true, false, true, false, true, true, ViewMode::Split));
}

#[test]
fn wrapping_tries_files_around_the_ring() {
    let shown = vec![1, 4, 6];
    assert_eq!(wrap_file_order(&shown, 4, true), vec![6, 1]);
    assert_eq!(wrap_file_order(&shown, 4, false), vec![1, 6]);
    assert_eq!(wrap_file_order(&shown, 5, true), vec![4, 6, 1]);
    assert_eq!(wrap_file_order(&shown, 1, false), vec![6, 4]);
    assert_eq!(wrap_file_order(&vec![], 0, true), Vec::<usize>::new());
    assert_eq!(wrap_file_order(&vec![3], 3, true), Vec::<usize>::new());
}

#[test]
fn no_step_entry_restores_or_jumps() {
    let kept = NoStepState { current_hunk: 2, cursor_change: Some(7), last_nav_was_hunk: true };
    assert_eq!(no_step_entry(Some(kept), false, true), NoStepEntry::Cursor(2, Some(7)));
    let loose = NoStepState { current_hunk: 2, cursor_change: None, last_nav_was_hunk: true };
    assert_eq!(no_step_entry(Some(loose), true, true), NoStepEntry::FirstHunk);
    assert_eq!(no_step_entry(Some(loose), false, true), NoStepEntry::ClearCursor);
    assert_eq!(no_step_entry(None, true, false), NoStepEntry::FirstHunk);
    assert_eq!(no_step_entry(None, true, true), NoStepEntry::CursorAtScroll);
    assert_eq!(no_step_entry(None, false, false), NoStepEntry::CursorAtScroll);
}
