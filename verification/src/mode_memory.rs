//! Switching between stepping and showing the whole diff: each way keeps
//! its own scroll positions per file, stepping keeps its view mode and
//! peek, and showing the whole diff keeps where the cursor stood, so that
//! switching back finds each as it was left. The caller saves and restores
//! the navigator's step state and moves the cursor as asked.

use crate::controls::{no_step_entry, no_step_entry_spec, NoStepEntry, NoStepState, PeekState};
use crate::display::ViewMode;
use vstd::prelude::*;

verus! {

/// Where the viewer stands.
#[derive(Debug, Clone, Copy, PartialEq, Eq, Structural)]
pub struct ViewerPos {
    pub scroll: usize,
    pub hscroll: usize,
    pub view_mode: ViewMode,
    pub peek: Option<PeekState>,
}

/// What a switch asks of the caller.
#[derive(Debug, Clone, Copy, PartialEq, Eq, Structural)]
pub enum ToggleOutcome {
    /// Stepping was left: keep the navigator's step state for the file,
    /// show the whole diff, and put the cursor as the entry says.
    LeftStepping(NoStepEntry),
    /// Stepping was entered: restore the file's kept step state (or go to
    /// the start without one).
    EnteredStepping,
}

/// What each way of viewing keeps, per file.
#[derive(Debug, Clone)]
pub struct ModeMemory {
    pub stepping: bool,
    pub scroll_step: Vec<usize>,
    pub hscroll_step: Vec<usize>,
    pub scroll_no_step: Vec<usize>,
    pub hscroll_no_step: Vec<usize>,
    /// Files already shown whole.
    pub visited: Vec<bool>,
    /// Where the cursor stood in each file shown whole.
    pub no_step_kept: Vec<Option<NoStepState>>,
    /// The view mode and peek of stepping, while it is off.
    pub step_view_mode: ViewMode,
    pub step_peek: Option<PeekState>,
}

/// What each way of viewing keeps, as plain values.
pub struct MemView {
    pub stepping: bool,
    pub scroll_step: Seq<usize>,
    pub hscroll_step: Seq<usize>,
    pub scroll_no_step: Seq<usize>,
    pub hscroll_no_step: Seq<usize>,
    pub visited: Seq<bool>,
    pub no_step_kept: Seq<Option<NoStepState>>,
    pub step_view_mode: ViewMode,
    pub step_peek: Option<PeekState>,
}

impl View for ModeMemory {
    type V = MemView;

    open spec fn view(&self) -> MemView {
        MemView {
            stepping: self.stepping,
            scroll_step: self.scroll_step@,
            hscroll_step: self.hscroll_step@,
            scroll_no_step: self.scroll_no_step@,
            hscroll_no_step: self.hscroll_no_step@,
            visited: self.visited@,
            no_step_kept: self.no_step_kept@,
            step_view_mode: self.step_view_mode,
            step_peek: self.step_peek,
        }
    }
}

/// Switching file `i` between stepping and showing it whole.
///
/// Leaving stepping: the position is kept as stepping's; the first time
/// the file is shown whole, that way starts from the same position; the
/// position then comes from that way's slot, the view mode and peek go to
/// stepping's keeping (evolution becomes the single pane, the peek ends),
/// and the cursor goes where `no_step_entry` says; the file is then seen
/// whole.
///
/// Entering stepping: `current` (where the cursor stands) and the position
/// are kept as the whole view's; stepping's view mode, peek and position
/// come back.
pub open spec fn toggle_spec(m: MemView, p: ViewerPos, i: int, current: NoStepState, auto_jump: bool) -> (MemView, ViewerPos, ToggleOutcome) {
    if m.stepping {
        let sn = if m.visited[i] { m.scroll_no_step } else { m.scroll_no_step.update(i, p.scroll) };
        let hn = if m.visited[i] { m.hscroll_no_step } else { m.hscroll_no_step.update(i, p.hscroll) };
        (
            MemView {
                stepping: false,
                scroll_step: m.scroll_step.update(i, p.scroll),
                hscroll_step: m.hscroll_step.update(i, p.hscroll),
                scroll_no_step: sn,
                hscroll_no_step: hn,
                visited: m.visited.update(i, true),
                no_step_kept: m.no_step_kept,
                step_view_mode: p.view_mode,
                step_peek: p.peek,
            },
            ViewerPos {
                scroll: sn[i],
                hscroll: hn[i],
                view_mode: if p.view_mode == ViewMode::Evolution { ViewMode::SinglePane } else { p.view_mode },
                peek: None,
            },
            ToggleOutcome::LeftStepping(no_step_entry_spec(m.no_step_kept[i], auto_jump, m.visited[i])),
        )
    } else {
        (
            MemView {
                stepping: true,
                scroll_no_step: m.scroll_no_step.update(i, p.scroll),
                hscroll_no_step: m.hscroll_no_step.update(i, p.hscroll),
                no_step_kept: m.no_step_kept.update(i, Some(current)),
                step_peek: None,
                ..m
            },
            ViewerPos { scroll: m.scroll_step[i], hscroll: m.hscroll_step[i], view_mode: m.step_view_mode, peek: m.step_peek },
            ToggleOutcome::EnteredStepping,
        )
    }
}

/// One slot per file in every list.
pub open spec fn mem_wf(m: MemView) -> bool {
    let n = m.visited.len();
    &&& m.scroll_step.len() == n
    &&& m.hscroll_step.len() == n
    &&& m.scroll_no_step.len() == n
    &&& m.hscroll_no_step.len() == n
    &&& m.no_step_kept.len() == n
}

impl ModeMemory {
    /// One slot per file in every list.
    pub open spec fn wf(&self) -> bool {
        mem_wf(self@)
    }

    /// Nothing kept yet for `n` files, stepping on or off.
    pub fn new(n: usize, stepping: bool, view_mode: ViewMode) -> (m: Self)
        ensures
            m.wf(),
            m.visited@.len() == n,
            m.stepping == stepping,
            forall|i: int| 0 <= i < n ==> m.scroll_step@[i] == 0 && m.hscroll_step@[i] == 0 && m.scroll_no_step@[i] == 0
                && m.hscroll_no_step@[i] == 0 && !m.visited@[i] && m.no_step_kept@[i] is None,
            m.step_view_mode == view_mode,
            m.step_peek is None,
    {
        let mut m = ModeMemory {
            stepping,
            scroll_step: Vec::new(),
            hscroll_step: Vec::new(),
            scroll_no_step: Vec::new(),
            hscroll_no_step: Vec::new(),
            visited: Vec::new(),
            no_step_kept: Vec::new(),
            step_view_mode: view_mode,
            step_peek: None,
        };
        let mut k: usize = 0;
        while k < n
            invariant
                k <= n,
                m.wf(),
                m.visited@.len() == k,
                m.stepping == stepping,
                m.step_view_mode == view_mode,
                m.step_peek is None,
                forall|i: int| 0 <= i < k ==> m.scroll_step@[i] == 0 && m.hscroll_step@[i] == 0 && m.scroll_no_step@[i] == 0
                    && m.hscroll_no_step@[i] == 0 && !m.visited@[i] && m.no_step_kept@[i] is None,
            decreases n - k,
        {
            m.scroll_step.push(0);
            m.hscroll_step.push(0);
            m.scroll_no_step.push(0);
            m.hscroll_no_step.push(0);
            m.visited.push(false);
            m.no_step_kept.push(None);
            k = k + 1;
        }
        m
    }

    /// Switches file `i` between stepping and showing it whole (see
    /// `toggle_spec`).
    pub fn toggle_stepping(&mut self, i: usize, pos: &mut ViewerPos, current: NoStepState, auto_jump: bool) -> (r: ToggleOutcome)
        requires
            old(self).wf(),
            i < old(self).visited@.len(),
        ensures
            final(self).wf(),
            (final(self)@, *final(pos), r) == toggle_spec(old(self)@, *old(pos), i as int, current, auto_jump),
    {
        if self.stepping {
            self.scroll_step.set(i, pos.scroll);
            self.hscroll_step.set(i, pos.hscroll);
            self.step_peek = pos.peek;
            pos.peek = None;
            self.step_view_mode = pos.view_mode;
            self.stepping = false;
            if !self.visited[i] {
                self.scroll_no_step.set(i, pos.scroll);
                self.hscroll_no_step.set(i, pos.hscroll);
            }
            pos.scroll = self.scroll_no_step[i];
            pos.hscroll = self.hscroll_no_step[i];
            if matches!(pos.view_mode, ViewMode::Evolution) {
                pos.view_mode = ViewMode::SinglePane;
            }
            let entry = no_step_entry(self.no_step_kept[i], auto_jump, self.visited[i]);
            self.visited.set(i, true);
            ToggleOutcome::LeftStepping(entry)
        } else {
            self.no_step_kept.set(i, Some(current));
            self.scroll_no_step.set(i, pos.scroll);
            self.hscroll_no_step.set(i, pos.hscroll);
            self.stepping = true;
            pos.peek = self.step_peek;
            self.step_peek = None;
            pos.view_mode = self.step_view_mode;
            pos.scroll = self.scroll_step[i];
            pos.hscroll = self.hscroll_step[i];
            ToggleOutcome::EnteredStepping
        }
    }
}

/// Leaving stepping and coming straight back gives back the position, the
/// view mode and the peek that stepping had, whatever the cursor was in
/// between.
pub proof fn law_toggling_twice_restores_the_view(m: MemView, p: ViewerPos, i: int, c1: NoStepState, c2: NoStepState, a1: bool, a2: bool)
    requires
        mem_wf(m),
        m.stepping,
        0 <= i < m.visited.len(),
    ensures
        ({
            let (m1, p1, _) = toggle_spec(m, p, i, c1, a1);
            let (m2, p2, r2) = toggle_spec(m1, p1, i, c2, a2);
            &&& p2 == p
            &&& m2.stepping
            &&& r2 == ToggleOutcome::EnteredStepping
            &&& m2.no_step_kept[i] == Some(c2)
        }),
{
}

/// Entering stepping and leaving it again puts the cursor back where it
/// stood when stepping was entered, when it stood on a hunk's change.
pub proof fn law_whole_view_cursor_comes_back(m: MemView, p: ViewerPos, i: int, c: NoStepState, a1: bool, a2: bool, c2: NoStepState)
    requires
        mem_wf(m),
        !m.stepping,
        0 <= i < m.visited.len(),
        c.last_nav_was_hunk,
        c.cursor_change is Some,
    ensures
        ({
            let (m1, p1, _) = toggle_spec(m, p, i, c, a1);
            let (_, _, r2) = toggle_spec(m1, p1, i, c2, a2);
            r2 == ToggleOutcome::LeftStepping(NoStepEntry::Cursor(c.current_hunk, c.cursor_change))
        }),
{
}

} // verus!
