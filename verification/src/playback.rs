//! The viewer's playback clock: the fade of a step, the short snap shown
//! when animation is off, autoplay, and the hints shown for a moment at
//! the ends of the steps and hunks. Time is a count of milliseconds that
//! the caller's clock gives; each decision is a function of the state and
//! that time, and the caller performs the moves it asks for.

use crate::display::AnimationPhase;
use crate::step::AnimationFrame;
use vstd::prelude::*;

verus! {

/// How long each half of a snap (the one-frame fade shown when animation
/// is off) lasts, in milliseconds.
pub const SNAP_PHASE_MS: u64 = 50;

/// How long an edge hint stays, in milliseconds.
pub const STEP_EDGE_HINT_MS: u64 = 700;

/// Which end of the steps a move ran into.
#[derive(Debug, Clone, Copy, PartialEq, Eq, Structural)]
pub enum StepEdge {
    Start,
    End,
}

/// Which end of the hunks a move ran into.
#[derive(Debug, Clone, Copy, PartialEq, Eq, Structural)]
pub enum HunkEdge {
    First,
    Last,
}

/// A hint at an end of the steps, shown on a change until a time.
#[derive(Debug, Clone, Copy, PartialEq, Eq, Structural)]
pub struct StepEdgeHint {
    pub change_id: Option<usize>,
    pub edge: StepEdge,
    pub until: u64,
}

/// A hint at an end of the hunks, shown until a time.
#[derive(Debug, Clone, Copy, PartialEq, Eq, Structural)]
pub struct HunkEdgeHint {
    pub edge: HunkEdge,
    pub until: u64,
}

/// What stepping past the last (or before the first) step does.
#[derive(Debug, Clone, Copy, PartialEq, Eq, Structural)]
pub enum StepWrapMode {
    /// Stop, with a hint.
    Stop,
    /// Go round to the other end of the same file.
    Step,
    /// Go on into the next (previous) file.
    File,
}

/// The playback state.
#[derive(Debug, Clone, Copy, PartialEq, Eq, Structural)]
pub struct Playback {
    /// Phase of the running fade.
    pub phase: AnimationPhase,
    /// When the current phase began.
    pub phase_started: u64,
    /// The frame of a running snap.
    pub snap: Option<AnimationFrame>,
    /// When the current half of the snap began (set at the first tick).
    pub snap_started: Option<u64>,
    /// Render the next frame as a fade-out once (a backward step without
    /// animation), so that removed insertions still show their markers.
    pub clear_active_on_next_render: bool,
    pub autoplay: bool,
    pub autoplay_reverse: bool,
    /// Steps left for a bounded autoplay (a replay).
    pub autoplay_remaining: Option<usize>,
    /// When autoplay last moved.
    pub last_autoplay: u64,
    pub step_hint: Option<StepEdgeHint>,
    pub hunk_hint: Option<HunkEdgeHint>,
}

/// What a tick asks the caller to do.
#[derive(Debug, Clone, Copy, PartialEq, Eq, Structural)]
pub struct TickOutcome {
    /// Clear the navigator's active change (a backward move has finished
    /// showing).
    pub clear_active: bool,
    /// Take an autoplay step: `Some(true)` backward, `Some(false)` forward;
    /// then report whether it moved with `finish_autoplay_step`.
    pub autoplay_step: Option<bool>,
}

/// Time since `start`, none when `now` is earlier.
pub open spec fn elapsed(now: u64, start: u64) -> int {
    if now >= start { now - start } else { 0 }
}

/// The frame a phase of the fade renders.
pub open spec fn phase_frame(phase: AnimationPhase) -> AnimationFrame {
    match phase {
        AnimationPhase::Idle => AnimationFrame::Idle,
        AnimationPhase::FadeOut => AnimationFrame::FadeOut,
        AnimationPhase::FadeIn => AnimationFrame::FadeIn,
    }
}

/// A step hint that has not expired at `now` (expired from `until` on).
pub open spec fn live_step_hint(h: Option<StepEdgeHint>, now: u64) -> Option<StepEdgeHint> {
    match h {
        Some(x) => if now >= x.until { None } else { Some(x) },
        None => None,
    }
}

/// A hunk hint that has not expired at `now`.
pub open spec fn live_hunk_hint(h: Option<HunkEdgeHint>, now: u64) -> Option<HunkEdgeHint> {
    match h {
        Some(x) => if now >= x.until { None } else { Some(x) },
        None => None,
    }
}

/// The change a step hint is shown on: the last applied change at the
/// end, the first at the start; the active change when none is applied.
pub open spec fn edge_change(edge: StepEdge, applied: Seq<usize>, active: Option<usize>) -> Option<usize> {
    if applied.len() == 0 {
        active
    } else if edge == StepEdge::End {
        Some(applied.last())
    } else {
        Some(applied[0])
    }
}

/// The hint shown when one step is left: "last step next" while stepping
/// through at least two steps with exactly one step after the current one.
pub fn last_step_hint_text(stepping: bool, total_steps: usize, current_step: usize) -> (r: Option<&'static str>)
    ensures
        r is Some <==> (stepping && total_steps >= 2 && total_steps - 1 - current_step == 1),
        r matches Some(t) ==> t@ == "last step next"@,
{
    if !stepping || total_steps < 2 {
        return None;
    }
    let remaining = (total_steps - 1).saturating_sub(current_step);
    if remaining != 1 {
        return None;
    }
    Some("last step next")
}

impl Playback {
    /// Nothing running, no autoplay, no hints; the clock starts at `now`.
    pub fn new(now: u64) -> (p: Self)
        ensures
            p == (Playback {
                phase: AnimationPhase::Idle,
                phase_started: now,
                snap: None,
                snap_started: None,
                clear_active_on_next_render: false,
                autoplay: false,
                autoplay_reverse: false,
                autoplay_remaining: None,
                last_autoplay: now,
                step_hint: None,
                hunk_hint: None,
            }),
    {
        Playback {
            phase: AnimationPhase::Idle,
            phase_started: now,
            snap: None,
            snap_started: None,
            clear_active_on_next_render: false,
            autoplay: false,
            autoplay_reverse: false,
            autoplay_remaining: None,
            last_autoplay: now,
            step_hint: None,
            hunk_hint: None,
        }
    }

    /// The frame to render: the snap's frame while a snap runs; else a
    /// fade-out once after a backward step without animation; else the
    /// frame of the fade's phase.
    pub open spec fn frame_spec(self) -> AnimationFrame {
        match self.snap {
            Some(f) => f,
            None => if self.clear_active_on_next_render { AnimationFrame::FadeOut } else { phase_frame(self.phase) },
        }
    }

    /// The frame to render (see `frame_spec`).
    pub fn animation_frame(&self) -> (f: AnimationFrame)
        ensures
            f == self.frame_spec(),
    {
        if let Some(f) = self.snap {
            return f;
        }
        if self.clear_active_on_next_render {
            return AnimationFrame::FadeOut;
        }
        match self.phase {
            AnimationPhase::Idle => AnimationFrame::Idle,
            AnimationPhase::FadeOut => AnimationFrame::FadeOut,
            AnimationPhase::FadeIn => AnimationFrame::FadeIn,
        }
    }

    /// Whether a fade runs for a backward step (`backward`: the
    /// navigator's last step went backward).
    pub fn is_backward_animation(&self, backward: bool) -> (b: bool)
        ensures
            b == (self.phase != AnimationPhase::Idle && backward),
    {
        !matches!(self.phase, AnimationPhase::Idle) && backward
    }

    /// Whether rows that are not in the file yet may be drawn: not during
    /// a snap, nor while a backward step fades.
    pub fn allow_virtual_lines(&self, backward: bool) -> (b: bool)
        ensures
            b == (self.snap is None && !(self.phase != AnimationPhase::Idle && backward)),
    {
        if self.snap.is_some() {
            return false;
        }
        !self.is_backward_animation(backward)
    }

    /// Starts the fade of a step at `now`.
    pub fn start_animation(&mut self, now: u64)
        ensures
            *final(self) == (Playback { phase: AnimationPhase::FadeOut, phase_started: now, ..*old(self) }),
    {
        self.phase = AnimationPhase::FadeOut;
        self.phase_started = now;
    }

    /// Stops a forward autoplay, or starts a forward one (also in place of
    /// a backward one); the autoplay clock restarts at `now`.
    pub fn toggle_autoplay(&mut self, now: u64)
        ensures
            final(self).autoplay == !(old(self).autoplay && !old(self).autoplay_reverse),
            !final(self).autoplay_reverse,
            final(self).last_autoplay == now,
            *final(self) == (Playback {
                autoplay: final(self).autoplay,
                autoplay_reverse: final(self).autoplay_reverse,
                last_autoplay: now,
                ..*old(self)
            }),
    {
        if self.autoplay && !self.autoplay_reverse {
            self.autoplay = false;
        } else {
            self.autoplay = true;
            self.autoplay_reverse = false;
        }
        self.last_autoplay = now;
    }

    /// Stops a backward autoplay, or starts one without a bound (also in
    /// place of a forward one); the autoplay clock restarts at `now`.
    pub fn toggle_autoplay_reverse(&mut self, now: u64)
        ensures
            old(self).autoplay && old(self).autoplay_reverse ==> *final(self) == (Playback {
                autoplay: false,
                last_autoplay: now,
                ..*old(self)
            }),
            !(old(self).autoplay && old(self).autoplay_reverse) ==> *final(self) == (Playback {
                autoplay: true,
                autoplay_reverse: true,
                autoplay_remaining: None,
                last_autoplay: now,
                ..*old(self)
            }),
    {
        if self.autoplay && self.autoplay_reverse {
            self.autoplay = false;
        } else {
            self.autoplay = true;
            self.autoplay_reverse = true;
            self.autoplay_remaining = None;
        }
        self.last_autoplay = now;
    }

    /// The state after the snap part of a tick, and whether it asks to
    /// clear the active change: a snap's half lasts `SNAP_PHASE_MS` from
    /// its start (the first tick when none is recorded); a fade-out half
    /// is followed by a fade-in half, which ends the snap.
    pub open spec fn after_snap(self, now: u64, backward: bool) -> (Playback, bool) {
        match self.snap {
            None => (self, false),
            Some(f) => {
                let started = match self.snap_started {
                    Some(t) => t,
                    None => now,
                };
                if elapsed(now, started) >= SNAP_PHASE_MS {
                    match f {
                        AnimationFrame::FadeOut => (Playback { snap: Some(AnimationFrame::FadeIn), snap_started: Some(now), ..self }, false),
                        _ => (Playback { snap: None, snap_started: None, ..self }, backward),
                    }
                } else {
                    (Playback { snap_started: Some(started), ..self }, false)
                }
            },
        }
    }

    /// The state after the fade part of a tick, and whether it asks to
    /// clear the active change: a phase lasts `duration` from its start;
    /// the fade-out is followed by the fade-in, which ends the fade.
    pub open spec fn after_fade(self, now: u64, duration: u64, backward: bool) -> (Playback, bool) {
        if self.phase == AnimationPhase::Idle || elapsed(now, self.phase_started) < duration {
            (self, false)
        } else if self.phase == AnimationPhase::FadeOut {
            (Playback { phase: AnimationPhase::FadeIn, phase_started: now, ..self }, false)
        } else {
            (Playback { phase: AnimationPhase::Idle, ..self }, backward)
        }
    }

    /// One tick at `now`: hints expire, the snap and then the fade move on,
    /// and, when stepping with autoplay on and nothing fading, a step is
    /// due once `interval` has passed since the last one. The active change
    /// is to be cleared when a snap or fade of a backward step ends.
    pub open spec fn tick_spec(self, now: u64, duration: u64, interval: u64, stepping: bool, backward: bool) -> (Playback, TickOutcome) {
        let p0 = Playback { step_hint: live_step_hint(self.step_hint, now), hunk_hint: live_hunk_hint(self.hunk_hint, now), ..self };
        let (p1, c1) = p0.after_snap(now, backward);
        let (p2, c2) = p1.after_fade(now, duration, backward);
        let due = stepping && p2.autoplay && p2.phase == AnimationPhase::Idle && elapsed(now, p2.last_autoplay) >= interval;
        (p2, TickOutcome { clear_active: c1 || c2, autoplay_step: if due { Some(p2.autoplay_reverse) } else { None } })
    }

    /// One tick at `now` (see `tick_spec`); `duration` is the length of a
    /// fade phase and `interval` the time between autoplay steps.
    pub fn tick(&mut self, now: u64, duration: u64, interval: u64, stepping: bool, backward: bool) -> (r: TickOutcome)
        ensures
            (*final(self), r) == old(self).tick_spec(now, duration, interval, stepping, backward),
    {
        if let Some(h) = self.step_hint {
            if now >= h.until {
                self.step_hint = None;
            }
        }
        if let Some(h) = self.hunk_hint {
            if now >= h.until {
                self.hunk_hint = None;
            }
        }
        let mut clear = false;
        if let Some(f) = self.snap {
            let started = match self.snap_started {
                Some(t) => t,
                None => now,
            };
            self.snap_started = Some(started);
            if now.saturating_sub(started) >= SNAP_PHASE_MS {
                match f {
                    AnimationFrame::FadeOut => {
                        self.snap = Some(AnimationFrame::FadeIn);
                        self.snap_started = Some(now);
                    },
                    _ => {
                        self.snap = None;
                        self.snap_started = None;
                        clear = backward;
                    },
                }
            }
        }
        let idle = matches!(self.phase, AnimationPhase::Idle);
        if !idle && now.saturating_sub(self.phase_started) >= duration {
            match self.phase {
                AnimationPhase::FadeOut => {
                    self.phase = AnimationPhase::FadeIn;
                    self.phase_started = now;
                },
                _ => {
                    self.phase = AnimationPhase::Idle;
                    clear = clear || backward;
                },
            }
        }
        let mut step = None;
        if stepping && self.autoplay && matches!(self.phase, AnimationPhase::Idle)
            && now.saturating_sub(self.last_autoplay) >= interval {
            step = Some(self.autoplay_reverse);
        }
        TickOutcome { clear_active: clear, autoplay_step: step }
    }

    /// Records the outcome of an autoplay step at `now`: a bounded autoplay
    /// counts the step and stops when none is left or the step did not
    /// move; an unbounded one stops when the step did not move.
    pub fn finish_autoplay_step(&mut self, moved: bool, now: u64)
        ensures
            final(self).last_autoplay == now,
            match old(self).autoplay_remaining {
                Some(n) => {
                    let left = if moved && n > 0 { n - 1 } else { n as int };
                    if !moved || left == 0 {
                        *final(self) == (Playback { autoplay: false, autoplay_remaining: None, last_autoplay: now, ..*old(self) })
                    } else {
                        *final(self) == (Playback { autoplay_remaining: Some(left as usize), last_autoplay: now, ..*old(self) })
                    }
                },
                None => *final(self) == (Playback { autoplay: old(self).autoplay && moved, last_autoplay: now, ..*old(self) }),
            },
    {
        match self.autoplay_remaining {
            Some(n) => {
                let left = if moved && n > 0 { n - 1 } else { n };
                if !moved || left == 0 {
                    self.autoplay_remaining = None;
                    self.autoplay = false;
                } else {
                    self.autoplay_remaining = Some(left);
                }
            },
            None => {
                if !moved {
                    self.autoplay = false;
                }
            },
        }
        self.last_autoplay = now;
    }

    /// Replays the last `count` steps (all of them when fewer were taken):
    /// nothing while a fade or snap runs or at the first step; else the
    /// step to go back to, with a forward autoplay bounded to those steps
    /// starting at `now` and nothing running.
    pub fn replay(&mut self, current_step: usize, count: usize, now: u64) -> (r: Option<usize>)
        ensures
            (old(self).phase != AnimationPhase::Idle || old(self).snap is Some || current_step == 0 || count == 0)
                ==> r is None && *final(self) == *old(self),
            !(old(self).phase != AnimationPhase::Idle || old(self).snap is Some || current_step == 0 || count == 0) ==> {
                let back = if count < current_step { count } else { current_step };
                &&& r == Some((current_step - back) as usize)
                &&& *final(self) == (Playback {
                    phase: AnimationPhase::Idle,
                    snap: None,
                    snap_started: None,
                    clear_active_on_next_render: false,
                    autoplay: true,
                    autoplay_reverse: false,
                    autoplay_remaining: Some(back),
                    last_autoplay: now,
                    ..*old(self)
                })
            },
    {
        if !matches!(self.phase, AnimationPhase::Idle) || self.snap.is_some() {
            return None;
        }
        if current_step == 0 {
            return None;
        }
        let back = if count < current_step { count } else { current_step };
        if back == 0 {
            return None;
        }
        self.snap = None;
        self.snap_started = None;
        self.clear_active_on_next_render = false;
        self.phase = AnimationPhase::Idle;
        self.autoplay = true;
        self.autoplay_reverse = false;
        self.autoplay_remaining = Some(back);
        self.last_autoplay = now;
        Some(current_step - back)
    }

    /// Before a step: the hunk hint and any snap go; a backward step
    /// without animation starts a snap at `now`.
    pub fn begin_step(&mut self, backward: bool, animation_enabled: bool, now: u64)
        ensures
            backward && !animation_enabled ==> *final(self) == (Playback {
                hunk_hint: None,
                snap: Some(AnimationFrame::FadeOut),
                snap_started: Some(now),
                clear_active_on_next_render: false,
                ..*old(self)
            }),
            !(backward && !animation_enabled) ==> *final(self) == (Playback {
                hunk_hint: None,
                snap: None,
                snap_started: None,
                ..*old(self)
            }),
    {
        self.hunk_hint = None;
        self.snap = None;
        self.snap_started = None;
        if backward && !animation_enabled {
            self.snap = Some(AnimationFrame::FadeOut);
            self.snap_started = Some(now);
            self.clear_active_on_next_render = false;
        }
    }

    /// After a step that moved: the step hint goes; with animation the fade
    /// starts at `now`; without, a backward step with no snap renders one
    /// fade-out frame.
    pub fn step_moved(&mut self, backward: bool, animation_enabled: bool, now: u64)
        ensures
            animation_enabled ==> *final(self) == (Playback {
                step_hint: None,
                phase: AnimationPhase::FadeOut,
                phase_started: now,
                ..*old(self)
            }),
            !animation_enabled ==> *final(self) == (Playback {
                step_hint: None,
                clear_active_on_next_render: old(self).clear_active_on_next_render || (backward && old(self).snap is None),
                ..*old(self)
            }),
    {
        self.step_hint = None;
        if animation_enabled {
            self.start_animation(now);
        } else if backward && self.snap.is_none() {
            self.clear_active_on_next_render = true;
        }
    }

    /// After a step that could not move, given how steps wrap and, for
    /// wrapping into files, whether the file moved: whether the step wraps
    /// (the caller then goes to the other end); when it does not, a hint at
    /// `edge` is shown on the change at that end of the applied ones (else
    /// on the active change) until `STEP_EDGE_HINT_MS` after `now`.
    pub fn step_blocked(
        &mut self,
        mode: StepWrapMode,
        file_moved: bool,
        edge: StepEdge,
        applied: &Vec<usize>,
        active: Option<usize>,
        now: u64,
    ) -> (wrapped: bool)
        requires
            now + STEP_EDGE_HINT_MS <= u64::MAX,
        ensures
            wrapped == (mode == StepWrapMode::Step || (mode == StepWrapMode::File && file_moved)),
            wrapped ==> *final(self) == *old(self),
            !wrapped ==> *final(self) == (Playback {
                step_hint: Some(StepEdgeHint {
                    change_id: edge_change(edge, applied@, active),
                    edge,
                    until: (now + STEP_EDGE_HINT_MS) as u64,
                }),
                ..*old(self)
            }),
    {
        let wrapped = match mode {
            StepWrapMode::Step => true,
            StepWrapMode::File => file_moved,
            StepWrapMode::Stop => false,
        };
        if !wrapped {
            self.trigger_step_edge_hint(edge, applied, active, now);
        }
        wrapped
    }

    /// Shows a hint at an end of the steps until `STEP_EDGE_HINT_MS` after
    /// `now` (see `edge_change` for the change it is shown on).
    pub fn trigger_step_edge_hint(&mut self, edge: StepEdge, applied: &Vec<usize>, active: Option<usize>, now: u64)
        requires
            now + STEP_EDGE_HINT_MS <= u64::MAX,
        ensures
            *final(self) == (Playback {
                step_hint: Some(StepEdgeHint {
                    change_id: edge_change(edge, applied@, active),
                    edge,
                    until: (now + STEP_EDGE_HINT_MS) as u64,
                }),
                ..*old(self)
            }),
    {
        let n = applied.len();
        let change_id = if n == 0 {
            active
        } else {
            match edge {
                StepEdge::End => Some(applied[n - 1]),
                StepEdge::Start => Some(applied[0]),
            }
        };
        self.step_hint = Some(StepEdgeHint { change_id, edge, until: now + STEP_EDGE_HINT_MS });
    }

    /// Shows a hint at an end of the hunks until `STEP_EDGE_HINT_MS` after
    /// `now`.
    pub fn trigger_hunk_edge_hint(&mut self, edge: HunkEdge, now: u64)
        requires
            now + STEP_EDGE_HINT_MS <= u64::MAX,
        ensures
            *final(self) == (Playback {
                hunk_hint: Some(HunkEdgeHint { edge, until: (now + STEP_EDGE_HINT_MS) as u64 }),
                ..*old(self)
            }),
    {
        self.hunk_hint = Some(HunkEdgeHint { edge, until: now + STEP_EDGE_HINT_MS });
    }

    /// The step hint's text for a change at `now`: "... start" or
    /// "... end" on the change it was shown on, until it expires (after
    /// `until`).
    pub fn step_edge_hint_for_change(&self, change_id: usize, now: u64) -> (r: Option<&'static str>)
        ensures
            r is Some <==> (self.step_hint matches Some(h) && now <= h.until && h.change_id == Some(change_id)),
            r matches Some(t) ==> (if self.step_hint->0.edge == StepEdge::Start { t@ == "... start"@ } else { t@ == "... end"@ }),
    {
        match self.step_hint {
            Some(h) => {
                if now > h.until {
                    return None;
                }
                match h.change_id {
                    Some(c) => if c == change_id {
                        match h.edge {
                            StepEdge::Start => Some("... start"),
                            StepEdge::End => Some("... end"),
                        }
                    } else {
                        None
                    },
                    None => None,
                }
            },
            None => None,
        }
    }

    /// The hunk hint's text at `now`: "first hunk" or "last hunk", until it
    /// expires (after `until`).
    pub fn hunk_edge_hint_text(&self, now: u64) -> (r: Option<&'static str>)
        ensures
            r is Some <==> (self.hunk_hint matches Some(h) && now <= h.until),
            r matches Some(t) ==> (if self.hunk_hint->0.edge == HunkEdge::First { t@ == "first hunk"@ } else { t@ == "last hunk"@ }),
    {
        match self.hunk_hint {
            Some(h) => {
                if now > h.until {
                    return None;
                }
                match h.edge {
                    HunkEdge::First => Some("first hunk"),
                    HunkEdge::Last => Some("last hunk"),
                }
            },
            None => None,
        }
    }
}

/// A fade started at `t0` ends after two phases of `duration`: the tick at
/// `t1` (at least `duration` later) moves to the fade-in, and the tick at
/// `t2` (at least `duration` after `t1`) ends it, asking to clear the
/// active change exactly when the step went backward.
pub proof fn law_fade_ends_after_two_phases(p: Playback, t0: u64, t1: u64, t2: u64, duration: u64, interval: u64, stepping: bool, backward: bool)
    requires
        p.phase == AnimationPhase::FadeOut,
        p.phase_started == t0,
        p.snap is None,
        t1 >= t0 + duration,
        t2 >= t1 + duration,
    ensures
        ({
            let (p1, o1) = p.tick_spec(t1, duration, interval, stepping, backward);
            let (p2, o2) = p1.tick_spec(t2, duration, interval, stepping, backward);
            &&& p1.phase == AnimationPhase::FadeIn
            &&& o1.autoplay_step is None
            &&& !o1.clear_active
            &&& p2.phase == AnimationPhase::Idle
            &&& o2.clear_active == backward
        }),
{
}

/// A snap started at `t0` ends after two halves of `SNAP_PHASE_MS`, with
/// no fade running: first the fade-in frame, then none, and the active
/// change is to be cleared exactly when the step went backward.
pub proof fn law_snap_ends_after_two_halves(p: Playback, t0: u64, t1: u64, t2: u64, duration: u64, interval: u64, stepping: bool, backward: bool)
    requires
        p.snap == Some(AnimationFrame::FadeOut),
        p.snap_started == Some(t0),
        p.phase == AnimationPhase::Idle,
        t1 >= t0 + SNAP_PHASE_MS,
        t2 >= t1 + SNAP_PHASE_MS,
    ensures
        ({
            let (p1, o1) = p.tick_spec(t1, duration, interval, stepping, backward);
            let (p2, o2) = p1.tick_spec(t2, duration, interval, stepping, backward);
            &&& p1.snap == Some(AnimationFrame::FadeIn)
            &&& p1.frame_spec() == AnimationFrame::FadeIn
            &&& !o1.clear_active
            &&& p2.snap is None
            &&& o2.clear_active == backward
        }),
{
}

} // verus!
