use oyo_core::change::{Change, ChangeKind, ChangeSpan};
use oyo_core::diff::{DiffEngine, DiffResult, Hunk};
use oyo_core::step::{AnimationFrame, DiffNavigator, LineKind, StepDirection};
fn build_manual_diff(
    changes: Vec<Change>,
    significant_changes: Vec<usize>,
    hunks: Vec<Hunk>,
) -> DiffResult {
    let mut insertions = 0usize;
    let mut deletions = 0usize;
    for change in &changes {
        for span in &change.spans {
            match span.kind {
                ChangeKind::Insert => insertions += 1,
                ChangeKind::Delete => deletions += 1,
                ChangeKind::Replace => {
                    insertions += 1;
                    deletions += 1;
                }
                ChangeKind::Equal => {}
            }
        }
    }
    DiffResult {
        changes,
        significant_changes,
        hunks,
        insertions,
        deletions,
    }
}

fn make_equal_change(id: usize) -> Change {
    let line = id + 1;
    Change::single(
        id,
        ChangeSpan::equal(format!("line{}", id)).with_lines(Some(line), Some(line)),
    )
}

fn make_insert_change(id: usize) -> Change {
    let line = id + 1;
    Change::single(
        id,
        ChangeSpan::insert(format!("ins{}", id)).with_lines(None, Some(line)),
    )
}

fn assert_applied_is_prefix(nav: &DiffNavigator) {
    let applied = &nav.state().applied_changes;
    let sig = &nav.diff().significant_changes;
    assert!(
        applied.len() <= sig.len(),
        "applied changes should not exceed significant changes"
    );
    assert_eq!(
        &sig[..applied.len()],
        applied.as_slice(),
        "applied changes should remain a prefix of significant_changes"
    );
}

#[test]
fn test_navigation() {
    let old = "foo\nbar\nbaz";
    let new = "foo\nqux\nbaz";

    let engine = DiffEngine::new();
    let diff = engine.diff_strings(old, new);
    let mut nav = DiffNavigator::new(diff, old.to_string(), new.to_string(), false);

    assert!(nav.state().is_at_start());
    assert!(!nav.state().is_at_end());

    nav.next();
    assert!(!nav.state().is_at_start());

    nav.goto_end();
    assert!(nav.state().is_at_end());

    nav.prev();
    assert!(!nav.state().is_at_end());

    nav.goto_start();
    assert!(nav.state().is_at_start());
}

#[test]
fn test_word_level_view() {
    let old = "const foo = 4";
    let new = "const bar = 5";

    let engine = DiffEngine::new().with_word_level(true);
    let diff = engine.diff_strings(old, new);
    let mut nav = DiffNavigator::new(diff, old.to_string(), new.to_string(), false);

    // At start, should show the old line
    let view = nav.current_view();
    assert_eq!(view.len(), 1);
    assert_eq!(view[0].content, "const foo = 4");

    // After applying change, should show new line
    nav.next();
    let view = nav.current_view();
    assert_eq!(view.len(), 1);
    assert_eq!(view[0].content, "const bar = 5");
}

#[test]
fn test_prev_hunk_animation_state() {
    // Setup: file with 2 hunks (changes separated by >3 unchanged lines)
    // Hunk proximity threshold is 3, so we need at least 4 unchanged lines between changes
    let old = "a\nb\nc\nd\ne\nf\ng\nh\ni\nj\nk\nl";
    let new = "a\nB\nc\nd\ne\nf\ng\nh\ni\nj\nK\nl";
    //              ^ hunk 0 (line 2)              ^ hunk 1 (line 11)

    let engine = DiffEngine::new();
    let diff = engine.diff_strings(old, new);

    // Verify we have 2 hunks
    assert!(
        diff.hunks.len() >= 2,
        "Expected at least 2 hunks, got {}. Adjust fixture gap.",
        diff.hunks.len()
    );

    let mut nav = DiffNavigator::new(diff, old.to_string(), new.to_string(), false);

    // Apply both hunks
    nav.next_hunk();
    nav.next_hunk();
    assert_eq!(nav.state().current_hunk, 1);

    // Step back one hunk
    nav.prev_hunk();

    // animating_hunk should point to hunk 1 (the one being removed)
    assert_eq!(
        nav.state().animating_hunk,
        Some(1),
        "animating_hunk should stay on the hunk being removed for fade animation"
    );
    // current_hunk should have moved to 0 (cursor position)
    assert_eq!(
        nav.state().current_hunk,
        0,
        "current_hunk should move to destination for status display"
    );

    // View should mark hunk 1 changes as active
    let view = nav.current_view();
    let active_lines: Vec<_> = view.iter().filter(|l| l.is_active).collect();
    assert!(
        !active_lines.is_empty(),
        "Hunk changes should be marked active during fade"
    );

    // After clearing, animating_hunk should be None
    nav.clear_active_change();
    assert_eq!(
        nav.state().animating_hunk,
        None,
        "animating_hunk should be cleared after animation completes"
    );
}

#[test]
fn test_prev_to_start_preserves_animation_state() {
    // Single hunk - stepping back lands on step 0
    // Animation state persists for fade-out, cleared by CLI after animation completes
    let old = "a\nb\nc";
    let new = "a\nB\nc";

    let engine = DiffEngine::new();
    let diff = engine.diff_strings(old, new);
    let mut nav = DiffNavigator::new(diff, old.to_string(), new.to_string(), false);

    // Apply first change (no hunk preview)
    nav.next();
    assert_eq!(nav.state().current_step, 1);

    // Step back to start
    nav.prev();
    assert!(nav.state().is_at_start());

    // Animation state preserved for fade-out rendering
    assert!(
        nav.state().active_change.is_some(),
        "active_change preserved for fade-out"
    );
    assert_eq!(
        nav.state().step_direction,
        StepDirection::Backward,
        "step_direction should be Backward"
    );

    // CLI calls clear_active_change() after animation completes
    nav.clear_active_change();
    assert_eq!(nav.state().active_change, None);
    assert_eq!(nav.state().animating_hunk, None);
    assert_eq!(nav.state().step_direction, StepDirection::Unset);
}

#[test]
fn test_prev_hunk_from_hunk_0_unapplies_changes() {
    // prev_hunk should unapply hunk 0 when it has applied changes
    let old = "a\nb\nc";
    let new = "a\nB\nc";

    let engine = DiffEngine::new();
    let diff = engine.diff_strings(old, new);
    let mut nav = DiffNavigator::new(diff, old.to_string(), new.to_string(), false);

    // Apply first hunk
    nav.next_hunk();
    assert_eq!(nav.state().current_step, 1);
    assert_eq!(nav.state().current_hunk, 0);

    // prev_hunk from hunk 0 should work (unapply the hunk)
    let moved = nav.prev_hunk();
    assert!(
        moved,
        "prev_hunk should succeed when hunk 0 has applied changes"
    );
    assert!(nav.state().is_at_start());
    assert_eq!(nav.state().current_step, 0);

    // animating_hunk should be set for extent markers
    assert_eq!(
        nav.state().animating_hunk,
        Some(0),
        "animating_hunk should point to hunk 0 for fade animation"
    );
    assert_eq!(nav.state().step_direction, StepDirection::Backward);

    // Calling prev_hunk again should return false (nothing to unapply)
    let moved_again = nav.prev_hunk();
    assert!(
        !moved_again,
        "prev_hunk should fail when hunk 0 has no applied changes"
    );
}

#[test]
fn test_backward_primary_marker_on_destination() {
    // Two hunks with >3 lines separation to ensure distinct hunks
    // Stepping back from hunk 1 should put primary on hunk 0's change (destination)
    let old = "line1\nline2\nline3\nline4\nline5\nline6\nline7\nline8";
    let new = "line1\nLINE2\nline3\nline4\nline5\nline6\nLINE7\nline8";

    let engine = DiffEngine::new();
    let diff = engine.diff_strings(old, new);
    assert!(diff.hunks.len() >= 2, "Fixture must produce 2 hunks");

    let mut nav = DiffNavigator::new(diff, old.to_string(), new.to_string(), false);

    // Apply both hunks
    nav.next_hunk(); // hunk 0 (LINE2)
    nav.next_hunk(); // hunk 1 (LINE7)
    assert_eq!(nav.state().current_step, 2);

    // Step back from hunk 1
    nav.prev_hunk();

    let view = nav.current_view_with_frame(AnimationFrame::FadeOut);

    // Find the lines
    let primary_lines: Vec<_> = view.iter().filter(|l| l.is_primary_active).collect();
    let active_lines: Vec<_> = view.iter().filter(|l| l.is_active).collect();

    // Exactly one primary line
    assert_eq!(primary_lines.len(), 1, "exactly one primary line");

    // Fading hunk should have is_active lines
    assert!(!active_lines.is_empty(), "fading line should be active");

    // Primary is on destination (hunk 0 = LINE2), not fading line (hunk 1 = LINE7)
    let primary = primary_lines[0];
    assert!(
        primary.content.contains("LINE2"),
        "primary marker should be on destination (hunk 0)"
    );
    assert!(
        !primary.content.contains("LINE7"),
        "primary marker should not be on fading line (hunk 1)"
    );
}

#[test]
fn test_forward_primary_marker_on_first_change() {
    // Multi-change hunk: next_hunk should put cursor on first change (top of hunk)
    // Hunk 0 has 2 consecutive changes so cursor position matters
    let old = "line1\nline2\nline3\nline4\nline5\nline6\nline7\nline8";
    let new = "line1\nLINE2\nLINE3\nline4\nline5\nline6\nline7\nline8";
    //                 ^ first change  ^ second change (same hunk due to proximity)

    let engine = DiffEngine::new();
    let diff = engine.diff_strings(old, new);
    assert!(
        !diff.hunks.is_empty(),
        "Fixture must produce at least 1 hunk"
    );
    assert!(
        diff.hunks[0].change_ids.len() >= 2,
        "Hunk 0 must have at least 2 changes for this test"
    );

    let mut nav = DiffNavigator::new(diff, old.to_string(), new.to_string(), false);

    // Apply hunk 0
    nav.next_hunk();

    // Use FadeIn to see new content (LINE2/LINE3)
    let view = nav.current_view_with_frame(AnimationFrame::FadeIn);

    let primary_lines: Vec<_> = view.iter().filter(|l| l.is_primary_active).collect();
    assert_eq!(primary_lines.len(), 1, "exactly one primary line");

    // Primary should be on LINE2 (first change), not LINE3 (last change)
    let primary = primary_lines[0];
    assert!(
        primary.content.contains("LINE2"),
        "primary marker should be on first change (LINE2), got: {}",
        primary.content
    );
}

#[test]
fn test_step_down_after_next_hunk() {
    // After next_hunk lands at first change, step down should move to second change
    let old = "line1\nline2\nline3\nline4\nline5\nline6\nline7\nline8";
    let new = "line1\nLINE2\nLINE3\nline4\nline5\nline6\nline7\nline8";

    let engine = DiffEngine::new();
    let diff = engine.diff_strings(old, new);
    assert!(
        diff.hunks[0].change_ids.len() >= 2,
        "Hunk 0 must have at least 2 changes"
    );

    let mut nav = DiffNavigator::new(diff, old.to_string(), new.to_string(), false);

    // next_hunk applies ALL changes (full preview), cursor at first
    nav.next_hunk();
    assert_eq!(
        nav.state().current_step,
        2,
        "Should apply all 2 changes after next_hunk"
    );
    assert!(nav.state().hunk_preview_mode, "Should be in preview mode");

    // Step down dissolves preview: keeps first, applies second, cursor on second
    let moved = nav.next();
    assert!(moved, "next() should succeed");
    assert_eq!(
        nav.state().current_step,
        2,
        "Should still be at step 2 after dissolve"
    );
    assert!(!nav.state().hunk_preview_mode, "Should exit preview mode");

    // Verify cursor is now on LINE3 (second change)
    let view = nav.current_view_with_frame(AnimationFrame::FadeIn);
    let primary = view.iter().find(|l| l.is_primary_active);
    assert!(primary.is_some(), "Should have primary line");
    assert!(
        primary.unwrap().content.contains("LINE3"),
        "Primary should be on LINE3 after stepping"
    );
}

#[test]
fn test_next_hunk_completes_current_then_lands_on_next() {
    // Two hunks separated by >3 lines. next_hunk on hunk 0 applies all,
    // then next_hunk moves to hunk 1 with full preview.
    let old = "line1\nline2\nline3\nline4\nline5\nline6\nline7\nline8";
    let new = "line1\nLINE2\nLINE3\nline4\nline5\nline6\nLINE7\nLINE8";
    //         hunk 0: LINE2, LINE3          hunk 1: LINE7, LINE8

    let engine = DiffEngine::new();
    let diff = engine.diff_strings(old, new);
    assert!(diff.hunks.len() >= 2, "Must have 2 hunks");

    let mut nav = DiffNavigator::new(diff, old.to_string(), new.to_string(), false);

    // First next_hunk: apply all changes in hunk 0 (full preview)
    nav.next_hunk();
    assert_eq!(nav.state().current_hunk, 0);
    assert_eq!(
        nav.state().current_step,
        2,
        "Should apply all 2 changes in hunk 0"
    );
    assert!(nav.state().hunk_preview_mode);

    // Second next_hunk: move to hunk 1 with full preview
    nav.next_hunk();
    assert_eq!(nav.state().current_hunk, 1, "Should be in hunk 1");

    // All of hunk 0 (2 changes) + all of hunk 1 (2 changes) = 4 total
    assert_eq!(nav.state().current_step, 4, "Should have applied 4 changes");
    assert!(nav.state().hunk_preview_mode);

    // Cursor should be on LINE7 (first change of hunk 1)
    let view = nav.current_view_with_frame(AnimationFrame::FadeIn);
    let primary = view.iter().find(|l| l.is_primary_active);
    assert!(primary.is_some());
    assert!(
        primary.unwrap().content.contains("LINE7"),
        "Cursor should be on LINE7"
    );
}

#[test]
fn test_next_hunk_on_last_hunk_stays_at_end() {
    // Single hunk with 2 changes. Calling next_hunk applies all changes.
    // Calling next_hunk again returns false (no next hunk).
    let old = "line1\nline2\nline3";
    let new = "line1\nLINE2\nLINE3";

    let engine = DiffEngine::new();
    let diff = engine.diff_strings(old, new);
    assert_eq!(diff.hunks.len(), 1, "Must have exactly 1 hunk");
    assert_eq!(
        diff.hunks[0].change_ids.len(),
        2,
        "Hunk must have 2 changes"
    );

    let mut nav = DiffNavigator::new(diff, old.to_string(), new.to_string(), false);

    // First next_hunk: apply all changes (full preview)
    let moved1 = nav.next_hunk();
    assert!(moved1);
    assert_eq!(nav.state().current_step, 2, "Should apply all 2 changes");
    assert!(nav.state().hunk_preview_mode);

    // Second next_hunk: no next hunk, returns false
    let moved2 = nav.next_hunk();
    assert!(!moved2, "Should return false when no next hunk");
    assert_eq!(nav.state().current_step, 2, "Should still be at step 2");
}

#[test]
fn test_hunk_change_range_cached_for_large_hunk() {
    let old = "a\nb\nc\nd\ne";
    let new = "A\nB\nC\nD\nE";

    let engine = DiffEngine::new();
    let diff = engine.diff_strings(old, new);
    assert_eq!(diff.hunks.len(), 1, "single hunk for full replace");

    let nav = DiffNavigator::new(diff, old.to_string(), new.to_string(), true);
    let range = nav.hunk_change_index_range(0);
    assert!(range.is_some(), "expected cached range for hunk 0");
    let (start, end) = range.unwrap();
    assert!(start <= end, "range should be valid");
}

#[test]
fn test_no_step_scope_prefers_exact_mapping_for_changes() {
    let changes = (0..8)
        .map(|id| {
            if id == 2 || id == 5 {
                make_insert_change(id)
            } else {
                make_equal_change(id)
            }
        })
        .collect::<Vec<_>>();
    let hunks = vec![
        Hunk {
            id: 0,
            change_ids: vec![2],
            old_start: None,
            new_start: Some(3),
            insertions: 1,
            deletions: 0,
        },
        Hunk {
            id: 1,
            change_ids: vec![5],
            old_start: None,
            new_start: Some(6),
            insertions: 1,
            deletions: 0,
        },
    ];
    let diff = build_manual_diff(changes, vec![2, 5], hunks);
    let mut nav = DiffNavigator::new(diff, "".to_string(), "".to_string(), true);
    nav.goto_end();

    assert_eq!(
        nav.hunk_index_for_change_id(5),
        Some(0),
        "fixture should overlap padded range"
    );
    assert_eq!(
        nav.hunk_index_for_change_id_exact(5),
        Some(1),
        "exact mapping should point to hunk 1"
    );

    nav.set_cursor_hunk(1, Some(5));
    nav.set_hunk_scope(true);

    let view = nav.current_view_with_frame(AnimationFrame::Idle);
    let line_hunk_1 = view.iter().find(|l| l.change_id == 5).unwrap();
    let line_hunk_0 = view.iter().find(|l| l.change_id == 2).unwrap();

    assert!(
        line_hunk_1.show_hunk_extent,
        "change line in scope hunk should show extent"
    );
    assert!(
        !line_hunk_0.show_hunk_extent,
        "change line outside scope hunk should not show extent"
    );
}

#[test]
fn test_no_step_scope_includes_context_lines() {
    let changes = (0..10)
        .map(|id| {
            if id == 4 {
                make_insert_change(id)
            } else {
                make_equal_change(id)
            }
        })
        .collect::<Vec<_>>();
    let hunks = vec![Hunk {
        id: 0,
        change_ids: vec![4],
        old_start: None,
        new_start: Some(5),
        insertions: 1,
        deletions: 0,
    }];
    let diff = build_manual_diff(changes, vec![4], hunks);
    let mut nav = DiffNavigator::new(diff, "".to_string(), "".to_string(), true);
    nav.goto_end();

    nav.set_cursor_hunk(0, Some(4));
    nav.set_hunk_scope(true);

    let view = nav.current_view_with_frame(AnimationFrame::Idle);
    let scope_range = nav
        .hunk_change_index_range(0)
        .expect("expected cached padded range");

    for line in view.iter().filter(|l| !l.has_changes) {
        let idx = nav.change_index_for(line.change_id).unwrap();
        let in_range = idx >= scope_range.0 && idx <= scope_range.1;
        assert_eq!(
            line.show_hunk_extent, in_range,
            "context line {} scope mismatch",
            line.change_id
        );
    }
}

#[test]
fn test_markers_persist_within_hunk() {
    // Stepping within a hunk after next_hunk should preserve extent markers
    let old = "line1\nline2\nline3\nline4\nline5\nline6\nline7\nline8";
    let new = "line1\nLINE2\nLINE3\nline4\nline5\nline6\nline7\nline8";

    let engine = DiffEngine::new();
    let diff = engine.diff_strings(old, new);

    let mut nav = DiffNavigator::new(diff, old.to_string(), new.to_string(), false);

    nav.next_hunk();
    assert!(
        nav.state().last_nav_was_hunk,
        "last_nav_was_hunk should be true after next_hunk"
    );

    // Step within hunk (still in hunk 0)
    nav.next();
    assert!(
        nav.state().last_nav_was_hunk,
        "last_nav_was_hunk should persist within hunk"
    );
}

#[test]
fn test_markers_clear_on_hunk_exit() {
    // Stepping into a different hunk should clear extent markers
    let old = "line1\nline2\nline3\nline4\nline5\nline6\nline7\nline8";
    let new = "line1\nLINE2\nline3\nline4\nline5\nline6\nLINE7\nline8";
    //         hunk 0: LINE2                  hunk 1: LINE7

    let engine = DiffEngine::new();
    let diff = engine.diff_strings(old, new);
    assert!(diff.hunks.len() >= 2, "Must have 2 hunks");

    let mut nav = DiffNavigator::new(diff, old.to_string(), new.to_string(), false);

    // Apply hunk 0 via next_hunk
    nav.next_hunk();
    assert!(nav.state().last_nav_was_hunk);

    // Step into hunk 1 via next() - should clear markers
    nav.next();
    assert!(
        !nav.state().last_nav_was_hunk,
        "Markers should clear when stepping into different hunk"
    );
}

#[test]
fn test_active_change_flag_in_hunk_preview() {
    // Single hunk with 2 changes: hunk preview should mark all lines active,
    // but only the first change is the active change.
    let old = "line1\nline2\nline3\n";
    let new = "LINE1\nLINE2\nline3\n";

    let engine = DiffEngine::new();
    let diff = engine.diff_strings(old, new);
    assert_eq!(diff.hunks.len(), 1, "Expected a single hunk");
    assert!(
        diff.hunks[0].change_ids.len() >= 2,
        "Expected 2 changes in the hunk"
    );

    let mut nav = DiffNavigator::new(diff, old.to_string(), new.to_string(), false);
    nav.next_hunk();

    let view = nav.current_view_with_frame(AnimationFrame::FadeIn);
    let active_changes: Vec<_> = view.iter().filter(|l| l.is_active_change).collect();
    let active_lines: Vec<_> = view.iter().filter(|l| l.is_active).collect();

    assert_eq!(active_changes.len(), 1, "Only one active change expected");
    assert!(
        active_lines.len() >= 2,
        "All hunk lines should be active during preview"
    );
    assert!(
        active_changes[0].is_primary_active,
        "Active change should be primary"
    );
    assert!(
        active_changes[0].content.contains("LINE1"),
        "Active change should be the first change in the hunk"
    );
}

#[test]
fn test_word_level_phase_aware_mixed_change() {
    // Mixed change: has both old (foo, 4) and new (bar, 5) content
    // Should swap old/new at phase boundary
    let old = "const foo = 4";
    let new = "const bar = 5";

    let engine = DiffEngine::new().with_word_level(true);
    let diff = engine.diff_strings(old, new);
    let mut nav = DiffNavigator::new(diff, old.to_string(), new.to_string(), false);

    // Apply the change (makes it active)
    nav.next();
    assert!(nav.state().active_change.is_some());

    // FadeOut (forward): should show OLD content
    let view = nav.current_view_with_frame(AnimationFrame::FadeOut);
    assert_eq!(view.len(), 1);
    assert_eq!(
        view[0].content, "const foo = 4",
        "FadeOut should show old content for mixed word-level change"
    );

    // FadeIn (forward): should show NEW content
    let view = nav.current_view_with_frame(AnimationFrame::FadeIn);
    assert_eq!(view.len(), 1);
    assert_eq!(
        view[0].content, "const bar = 5",
        "FadeIn should show new content for mixed word-level change"
    );

    // Idle: should show applied (new) content
    let view = nav.current_view_with_frame(AnimationFrame::Idle);
    assert_eq!(view.len(), 1);
    assert_eq!(
        view[0].content, "const bar = 5",
        "Idle should show applied (new) content"
    );
}

#[test]
fn test_word_level_insert_only_visible_both_phases() {
    // Insert-only change: should be visible across both FadeOut and FadeIn
    let old = "hello";
    let new = "hello world";

    let engine = DiffEngine::new().with_word_level(true);
    let diff = engine.diff_strings(old, new);
    let mut nav = DiffNavigator::new(diff, old.to_string(), new.to_string(), false);

    // Apply the change
    nav.next();

    // FadeOut: insert-only should still be visible (not hidden)
    let view = nav.current_view_with_frame(AnimationFrame::FadeOut);
    assert_eq!(view.len(), 1);
    assert!(
        view[0].content.contains("world"),
        "Insert-only change should be visible during FadeOut, got: {}",
        view[0].content
    );

    // FadeIn: should also be visible
    let view = nav.current_view_with_frame(AnimationFrame::FadeIn);
    assert_eq!(view.len(), 1);
    assert!(
        view[0].content.contains("world"),
        "Insert-only change should be visible during FadeIn, got: {}",
        view[0].content
    );
}

#[test]
fn test_word_level_delete_only_visible_both_phases() {
    // Delete-only change: should be visible across both FadeOut and FadeIn
    let old = "hello world";
    let new = "hello";

    let engine = DiffEngine::new().with_word_level(true);
    let diff = engine.diff_strings(old, new);
    let mut nav = DiffNavigator::new(diff, old.to_string(), new.to_string(), false);

    // Apply the change
    nav.next();

    // FadeOut: delete-only should still be visible (showing old content being deleted)
    let view = nav.current_view_with_frame(AnimationFrame::FadeOut);
    assert_eq!(view.len(), 1);
    assert!(
        view[0].content.contains("world"),
        "Delete-only change should show deleted content during FadeOut, got: {}",
        view[0].content
    );

    // FadeIn: should also show the deletion
    let view = nav.current_view_with_frame(AnimationFrame::FadeIn);
    assert_eq!(view.len(), 1);
    assert!(
        view[0].content.contains("world"),
        "Delete-only change should show deleted content during FadeIn, got: {}",
        view[0].content
    );
}

#[test]
fn test_word_level_insert_only_idle_respects_applied_state() {
    // Insert-only change: Idle frame should snap to real applied state
    // (no "phantom" inserts when animations are disabled)
    let old = "hello";
    let new = "hello world";

    let engine = DiffEngine::new().with_word_level(true);
    let diff = engine.diff_strings(old, new);
    let mut nav = DiffNavigator::new(diff, old.to_string(), new.to_string(), false);

    // Apply then unapply
    nav.next();
    nav.prev();

    // Idle should NOT contain "world" (it's unapplied)
    let view = nav.current_view_with_frame(AnimationFrame::Idle);
    assert_eq!(view.len(), 1);
    assert!(
        !view[0].content.contains("world"),
        "Idle should not show unapplied insert, got: {}",
        view[0].content
    );
}

#[test]
fn test_word_level_phase_aware_backward_with_multiple_changes() {
    // To properly test backward animation, we need multiple changes
    // so stepping back doesn't land on step 0 (which clears animation state)
    let old = "aaa\nconst foo = 4\nccc\nddd\neee\nfff\nggg\nconst bar = 8\niii\njjj";
    let new = "aaa\nconst bbb = 5\nccc\nddd\neee\nfff\nggg\nconst qux = 9\niii\njjj";
    //              ^ change 1 (word-level)              ^ change 2 (word-level)

    let engine = DiffEngine::new().with_word_level(true);
    let diff = engine.diff_strings(old, new);

    // Verify we have 2 changes
    assert!(
        diff.significant_changes.len() >= 2,
        "Expected at least 2 changes, got {}",
        diff.significant_changes.len()
    );

    let mut nav = DiffNavigator::new(diff, old.to_string(), new.to_string(), false);

    // Apply both changes
    nav.next(); // step 1: first change applied
    nav.next(); // step 2: second change applied
    assert_eq!(nav.state().current_step, 2);

    // Step back from step 2 to step 1 (second change is now active for backward animation)
    nav.prev();
    assert_eq!(nav.state().current_step, 1);
    assert_eq!(nav.state().step_direction, StepDirection::Backward);
    assert!(nav.state().active_change.is_some());

    // Find the line that's active (should be line 8, word-level change being un-applied)
    let view = nav.current_view_with_frame(AnimationFrame::FadeOut);
    let active_line = view.iter().find(|l| l.is_active);
    assert!(active_line.is_some(), "Should have an active line");

    // Backward + FadeOut: should show NEW content (the content being removed)
    // For word-level, this means "const qux = 9"
    let active = active_line.unwrap();
    assert_eq!(
        active.content, "const qux = 9",
        "Backward FadeOut should show new content (being removed)"
    );

    // Backward + FadeIn: should show OLD content (the content being restored)
    // For word-level, this means "const bar = 8"
    let view = nav.current_view_with_frame(AnimationFrame::FadeIn);
    let active_line = view.iter().find(|l| l.is_active);
    assert!(active_line.is_some(), "Should have an active line");
    let active = active_line.unwrap();
    assert_eq!(
        active.content, "const bar = 8",
        "Backward FadeIn should show old content (being restored)"
    );
}

#[test]
fn test_word_level_insert_only_backward_visible_both_phases() {
    // Insert-only word-level change should stay visible during backward animation
    // Test: "hello" -> "hello world" is insert-only (only adds " world")
    // We need 2 changes to avoid landing on step 0
    let old = "aaa\nhello\nccc\nddd\neee\nfff\nggg\nfoo\niii\njjj";
    let new = "aaa\nhello world\nccc\nddd\neee\nfff\nggg\nfoo bar\niii\njjj";
    //              ^ insert-only (add " world")       ^ insert-only (add " bar")

    let engine = DiffEngine::new().with_word_level(true);
    let diff = engine.diff_strings(old, new);

    assert!(
        diff.significant_changes.len() >= 2,
        "Need 2+ changes to avoid landing on step 0, got {}",
        diff.significant_changes.len()
    );

    let mut nav = DiffNavigator::new(diff, old.to_string(), new.to_string(), false);

    // Apply both changes, then step back
    nav.next();
    nav.next();
    nav.prev();

    assert_eq!(nav.state().step_direction, StepDirection::Backward);
    assert!(nav.state().active_change.is_some());

    // FadeOut: insert-only should still be visible (shows the inserted content)
    let view = nav.current_view_with_frame(AnimationFrame::FadeOut);
    let active_line = view.iter().find(|l| l.is_active);
    assert!(
        active_line.is_some(),
        "Should have an active line during FadeOut"
    );
    let active = active_line.unwrap();
    assert!(
        active.content.contains("bar"),
        "Backward FadeOut should show insert-only content, got: {}",
        active.content
    );

    // FadeIn: should also show the inserted content (visible both phases)
    let view = nav.current_view_with_frame(AnimationFrame::FadeIn);
    let active_line = view.iter().find(|l| l.is_active);
    assert!(
        active_line.is_some(),
        "Should have an active line during FadeIn"
    );
    let active = active_line.unwrap();
    assert!(
        active.content.contains("bar"),
        "Backward FadeIn should show insert-only content, got: {}",
        active.content
    );
}

#[test]
fn test_word_level_active_line_kind_pending_modify() {
    // Active word-level lines should have LineKind::PendingModify
    // (evolution view filters on LineKind::PendingDelete, so this prevents drops)
    let old = "const foo = 4";
    let new = "const bar = 5";

    let engine = DiffEngine::new().with_word_level(true);
    let diff = engine.diff_strings(old, new);
    let mut nav = DiffNavigator::new(diff, old.to_string(), new.to_string(), false);

    nav.next(); // active change

    let view = nav.current_view_with_frame(AnimationFrame::FadeOut);
    assert_eq!(view.len(), 1);
    assert_eq!(
        view[0].kind,
        LineKind::PendingModify,
        "Active word-level line should have PendingModify kind during FadeOut"
    );

    let view = nav.current_view_with_frame(AnimationFrame::FadeIn);
    assert_eq!(view.len(), 1);
    assert_eq!(
        view[0].kind,
        LineKind::PendingModify,
        "Active word-level line should have PendingModify kind during FadeIn"
    );
}

#[test]
fn test_primary_active_unique_when_active_change_set() {
    // When active_change is set, exactly one line should be is_primary_active
    // and that line must also be is_active
    let old = "a\nb\nc\n";
    let new = "a\nB\nc\n";
    let diff = DiffEngine::new().diff_strings(old, new);
    let mut nav = DiffNavigator::new(diff, old.to_string(), new.to_string(), false);

    nav.next();
    let view = nav.current_view_with_frame(AnimationFrame::FadeIn);

    let primary: Vec<_> = view.iter().filter(|l| l.is_primary_active).collect();
    assert_eq!(
        primary.len(),
        1,
        "Exactly one line should be primary active"
    );
    assert!(
        primary[0].is_active,
        "Primary active line must also be is_active"
    );
}

#[test]
fn test_hunk_extent_not_primary() {
    // Multi-line hunk: all lines should be active during animation,
    // but only one should be is_primary_active (for gutter marker)
    let old = "a\nb\nc\nd\n";
    let new = "A\nb\nC\nd\n"; // A and C form one hunk (b is unchanged but within proximity)
    let diff = DiffEngine::new().diff_strings(old, new);

    assert_eq!(
        diff.hunks.len(),
        1,
        "Fixture should produce a single hunk; adjust the unchanged gap if this fails"
    );

    let mut nav = DiffNavigator::new(diff, old.to_string(), new.to_string(), false);

    nav.next_hunk();
    let view = nav.current_view_with_frame(AnimationFrame::FadeOut);

    // During animation, whole hunk lights up as active
    let active = view.iter().filter(|l| l.is_active).count();
    let extent = view.iter().filter(|l| l.show_hunk_extent).count();
    let primary = view.iter().filter(|l| l.is_primary_active).count();

    assert!(
        active > 1,
        "Multiple lines should be active during animation, got {}",
        active
    );
    assert!(
        extent > 1,
        "Multiple lines should show extent markers, got {}",
        extent
    );
    assert_eq!(primary, 1, "Exactly one line should be primary active");
}

#[test]
fn test_hunk_extent_while_stepping() {
    // When stepping (not hunk-nav), extent markers should still show
    // if explicitly enabled by the UI.
    let old = "one\ntwo\nthree\nfour\n";
    let new = "ONE\nTWO\nthree\nfour\n";
    let diff = DiffEngine::new().diff_strings(old, new);
    let mut nav = DiffNavigator::new(diff, old.to_string(), new.to_string(), false);

    nav.next();
    nav.set_show_hunk_extent_while_stepping(true);
    let view = nav.current_view_with_frame(AnimationFrame::Idle);

    let extent = view.iter().filter(|l| l.show_hunk_extent).count();
    assert!(
        extent > 0,
        "Extent markers should show while stepping when enabled"
    );
}

#[test]
fn test_applied_changes_stay_prefix_during_hunk_ops() {
    let old = "l1\nl2\nl3\nl4\nl5\nl6\nl7\nl8\nl9\nl10\nl11\nl12\n";
    let new = "l1\nL2\nL3\nl4\nl5\nl6\nl7\nl8\nL9\nl10\nl11\nl12\n";
    let diff = DiffEngine::new().diff_strings(old, new);
    let mut nav = DiffNavigator::new(diff, old.to_string(), new.to_string(), false);

    assert_applied_is_prefix(&nav);

    nav.next_hunk();
    assert_applied_is_prefix(&nav);

    nav.next();
    assert_applied_is_prefix(&nav);

    nav.next_hunk();
    assert_applied_is_prefix(&nav);

    nav.prev_hunk();
    assert_applied_is_prefix(&nav);
}

#[test]
fn test_applied_prefix_after_preview_step_down() {
    // One hunk with multiple changes so preview mode is used.
    let old = "a\nb\nc\n";
    let new = "A\nB\nc\n";
    let diff = DiffEngine::new().diff_strings(old, new);
    let mut nav = DiffNavigator::new(diff, old.to_string(), new.to_string(), false);

    nav.next_hunk();
    assert!(nav.state().hunk_preview_mode);
    assert_applied_is_prefix(&nav);

    nav.next(); // dissolve preview for step down
    assert!(!nav.state().hunk_preview_mode);
    assert_applied_is_prefix(&nav);
}

#[test]
fn test_applied_prefix_after_preview_step_up() {
    // Two hunks so stepping up from preview exits to previous hunk.
    let old = "a\nb\nc\nd\ne\nf\ng\nh\n";
    let new = "A\nb\nc\nd\ne\nf\nG\nh\n";
    let diff = DiffEngine::new().diff_strings(old, new);
    let mut nav = DiffNavigator::new(diff, old.to_string(), new.to_string(), false);

    nav.next_hunk();
    assert!(nav.state().hunk_preview_mode);
    assert_applied_is_prefix(&nav);

    nav.prev(); // dissolve preview for step up
    assert!(!nav.state().hunk_preview_mode);
    assert_applied_is_prefix(&nav);
}

#[test]
fn test_primary_active_fallback_when_active_change_none() {
    // When active_change is None but animating_hunk is set,
    // the first line in the hunk should become primary and be active
    let old = "a\nb\nc\n";
    let new = "A\nb\nC\n"; // two changes in same hunk
    let diff = DiffEngine::new().diff_strings(old, new);
    let mut nav = DiffNavigator::new(diff, old.to_string(), new.to_string(), false);

    // Force animating hunk without active_change
    let mut state = nav.state().clone();
    state.animating_hunk = Some(0);
    state.active_change = None;
    state.step_direction = StepDirection::Forward;
    assert!(nav.set_state(state));

    let view = nav.current_view_with_frame(AnimationFrame::FadeOut);

    let primary: Vec<_> = view.iter().filter(|l| l.is_primary_active).collect();
    assert_eq!(
        primary.len(),
        1,
        "Exactly one line should be primary active"
    );
    assert!(
        primary[0].is_active,
        "Primary active line must also be is_active"
    );

    // Verify it's the first active line in the view
    let first_active_idx = view.iter().position(|l| l.is_active).unwrap();
    let first_primary_idx = view.iter().position(|l| l.is_primary_active).unwrap();
    assert_eq!(
        first_active_idx, first_primary_idx,
        "First active line should be the primary line"
    );
}
