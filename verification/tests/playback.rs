use oyo_core::display::AnimationPhase;
use oyo_core::playback::{
    last_step_hint_text, HunkEdge, Playback, StepEdge, StepWrapMode, TickOutcome, SNAP_PHASE_MS, STEP_EDGE_HINT_MS,
};
use oyo_core::step::AnimationFrame;

#[test]
fn a_fade_runs_out_then_in_then_idles() {
    let mut p = Playback::new(1_000);
    p.start_animation(1_000);
    assert_eq!(p.animation_frame(), AnimationFrame::FadeOut);
    let o = p.tick(1_100, 150, 400, true, false);
    assert_eq!(p.phase, AnimationPhase::FadeOut);
    assert_eq!(o, TickOutcome { clear_active: false, autoplay_step: None });
    p.tick(1_150, 150, 400, true, false);
    assert_eq!(p.phase, AnimationPhase::FadeIn);
    assert_eq!(p.phase_started, 1_150);
    let o = p.tick(1_300, 150, 400, true, true);
    assert_eq!(p.phase, AnimationPhase::Idle);
    assert!(o.clear_active);
    assert_eq!(p.animation_frame(), AnimationFrame::Idle);
}

#[test]
fn a_snap_shows_two_frames_then_clears_backward_steps() {
    let mut p = Playback::new(0);
    p.begin_step(true, false, 10);
    assert_eq!(p.snap, Some(AnimationFrame::FadeOut));
    assert_eq!(p.animation_frame(), AnimationFrame::FadeOut);
    assert!(!p.allow_virtual_lines(false));
    p.tick(10 + SNAP_PHASE_MS - 1, 150, 400, true, true);
    assert_eq!(p.snap, Some(AnimationFrame::FadeOut));
    p.tick(10 + SNAP_PHASE_MS, 150, 400, true, true);
    assert_eq!(p.snap, Some(AnimationFrame::FadeIn));
    let o = p.tick(10 + 2 * SNAP_PHASE_MS, 150, 400, true, true);
    assert_eq!(p.snap, None);
    assert!(o.clear_active);
}

#[test]
fn a_snap_without_start_time_starts_at_first_tick() {
    let mut p = Playback::new(0);
    p.snap = Some(AnimationFrame::FadeOut);
    p.tick(500, 150, 400, true, false);
    assert_eq!(p.snap_started, Some(500));
    assert_eq!(p.snap, Some(AnimationFrame::FadeOut));
}

#[test]
fn autoplay_steps_when_idle_and_due() {
    let mut p = Playback::new(0);
    p.toggle_autoplay(100);
    assert!(p.autoplay && !p.autoplay_reverse);
    let o = p.tick(300, 150, 400, true, false);
    assert_eq!(o.autoplay_step, None);
    let o = p.tick(500, 150, 400, true, false);
    assert_eq!(o.autoplay_step, Some(false));
    let o = p.tick(500, 150, 400, false, false);
    assert_eq!(o.autoplay_step, None);
    p.finish_autoplay_step(false, 500);
    assert!(!p.autoplay);
    p.toggle_autoplay(600);
    assert!(p.autoplay);
    p.toggle_autoplay(700);
    assert!(!p.autoplay);
}

#[test]
fn reverse_autoplay_toggles() {
    let mut p = Playback::new(0);
    p.toggle_autoplay_reverse(5);
    assert!(p.autoplay && p.autoplay_reverse);
    assert_eq!(p.tick(405, 150, 400, true, true).autoplay_step, Some(true));
    p.toggle_autoplay(6);
    assert!(p.autoplay && !p.autoplay_reverse);
    p.toggle_autoplay_reverse(7);
    p.toggle_autoplay_reverse(8);
    assert!(!p.autoplay);
}

#[test]
fn replay_goes_back_then_plays_that_many_steps() {
    let mut p = Playback::new(0);
    assert_eq!(p.replay(0, 3, 10), None);
    assert_eq!(p.replay(5, 3, 10), Some(2));
    assert!(p.autoplay && !p.autoplay_reverse);
    assert_eq!(p.autoplay_remaining, Some(3));
    p.finish_autoplay_step(true, 20);
    assert_eq!(p.autoplay_remaining, Some(2));
    p.finish_autoplay_step(true, 30);
    p.finish_autoplay_step(true, 40);
    assert_eq!(p.autoplay_remaining, None);
    assert!(!p.autoplay);
    assert_eq!(p.replay(2, 10, 50), Some(0));
    assert_eq!(p.autoplay_remaining, Some(2));
}

#[test]
fn replay_waits_for_a_running_fade() {
    let mut p = Playback::new(0);
    p.start_animation(0);
    assert_eq!(p.replay(4, 1, 10), None);
    assert!(!p.autoplay);
}

#[test]
fn blocked_steps_wrap_or_hint() {
    let mut p = Playback::new(0);
    let applied = vec![3, 5, 8];
    assert!(p.step_blocked(StepWrapMode::Step, false, StepEdge::End, &applied, None, 100));
    assert_eq!(p.step_hint, None);
    assert!(p.step_blocked(StepWrapMode::File, true, StepEdge::End, &applied, None, 100));
    assert!(!p.step_blocked(StepWrapMode::File, false, StepEdge::End, &applied, None, 100));
    let hint = p.step_hint.unwrap();
    assert_eq!(hint.change_id, Some(8));
    assert_eq!(hint.until, 100 + STEP_EDGE_HINT_MS);
    assert_eq!(p.step_edge_hint_for_change(8, 200), Some("... end"));
    assert_eq!(p.step_edge_hint_for_change(3, 200), None);
    assert_eq!(p.step_edge_hint_for_change(8, 100 + STEP_EDGE_HINT_MS + 1), None);
    assert!(!p.step_blocked(StepWrapMode::Stop, true, StepEdge::Start, &applied, None, 100));
    assert_eq!(p.step_hint.unwrap().change_id, Some(3));
    assert_eq!(p.step_edge_hint_for_change(3, 150), Some("... start"));
    p.trigger_step_edge_hint(StepEdge::Start, &vec![], Some(11), 0);
    assert_eq!(p.step_hint.unwrap().change_id, Some(11));
}

#[test]
fn hints_expire_at_tick() {
    let mut p = Playback::new(0);
    p.trigger_hunk_edge_hint(HunkEdge::First, 0);
    assert_eq!(p.hunk_edge_hint_text(STEP_EDGE_HINT_MS), Some("first hunk"));
    p.tick(STEP_EDGE_HINT_MS - 1, 150, 400, true, false);
    assert!(p.hunk_hint.is_some());
    p.tick(STEP_EDGE_HINT_MS, 150, 400, true, false);
    assert!(p.hunk_hint.is_none());
    assert_eq!(p.hunk_edge_hint_text(0), None);
    p.trigger_hunk_edge_hint(HunkEdge::Last, 10);
    assert_eq!(p.hunk_edge_hint_text(20), Some("last hunk"));
}

#[test]
fn stepping_clears_hints_and_starts_fades() {
    let mut p = Playback::new(0);
    p.trigger_hunk_edge_hint(HunkEdge::Last, 0);
    p.trigger_step_edge_hint(StepEdge::End, &vec![1], None, 0);
    p.begin_step(false, true, 50);
    assert!(p.hunk_hint.is_none());
    p.step_moved(false, true, 50);
    assert!(p.step_hint.is_none());
    assert_eq!(p.phase, AnimationPhase::FadeOut);
    assert!(p.is_backward_animation(true));
    assert!(!p.is_backward_animation(false));
    let mut q = Playback::new(0);
    q.step_moved(true, false, 5);
    assert!(q.clear_active_on_next_render);
    assert_eq!(q.animation_frame(), AnimationFrame::FadeOut);
}

#[test]
fn last_step_hint_shows_one_step_before_the_end() {
    assert_eq!(last_step_hint_text(true, 5, 3), Some("last step next"));
    assert_eq!(last_step_hint_text(true, 5, 4), None);
    assert_eq!(last_step_hint_text(true, 1, 0), None);
    assert_eq!(last_step_hint_text(false, 5, 3), None);
}
