//! The view lines of the current step: which lines are applied, active,
//! under the cursor and inside the hunk scope.

use super::table::{change_index_spec, exact_hunk_spec, exact_range_spec, hunk_of_change_spec, padded_range_spec};
use super::{DiffNavigator, StepDirection, StepView};
use crate::change::{spans_have_changes, Change, ChangeView};
use crate::diff::{first_change_with_id, DiffView};
use crate::step::AnimationFrame;
use crate::view::{
    build_single_span_line, build_word_level_line, single_line_spec, view_line_models, word_line_spec, LineFlags,
    ViewLine, ViewLineModel,
};
use vstd::prelude::*;

verus! {

/// The change the cursor marker goes to: the cursor change when set with
/// nothing animating; after a step back the last applied change (or the
/// active one); otherwise the active change.
pub open spec fn primary_spec(s: StepView) -> Option<usize> {
    if s.cursor_change is Some && s.active_change is None && s.step_direction == StepDirection::Unset {
        s.cursor_change
    } else if s.step_direction == StepDirection::Backward {
        if s.applied.len() > 0 {
            Some(s.applied.last())
        } else {
            s.active_change
        }
    } else {
        s.active_change
    }
}

/// The hunk whose extent is marked: after a hunk move, the exact hunk of
/// the cursor change (when it has one), else the hunk cursor.
pub open spec fn scope_hunk_spec(d: DiffView, s: StepView) -> usize {
    if s.last_nav_was_hunk {
        match s.cursor_change {
            Some(id) => match exact_hunk_spec(d, id) {
                Some(h) => h,
                None => s.current_hunk,
            },
            None => s.current_hunk,
        }
    } else {
        s.current_hunk
    }
}

/// Whether the change belongs to the hunk being animated.
pub open spec fn in_hunk_spec(d: DiffView, lazy: bool, s: StepView, id: usize) -> bool {
    match s.animating_hunk {
        Some(h) => hunk_of_change_spec(d, lazy, id) == Some(h),
        None => false,
    }
}

/// Whether the change lies in the scope hunk: after a hunk move, within
/// the scope hunk's change range (exact for changed lines, padded for
/// context), else by its hunk.
pub open spec fn in_scope_spec(d: DiffView, lazy: bool, s: StepView, id: usize, has_changes: bool) -> bool {
    let sh = scope_hunk_spec(d, s);
    if s.last_nav_was_hunk {
        let range = if sh < d.hunks.len() {
            if has_changes {
                exact_range_spec(d, sh as int)
            } else {
                padded_range_spec(d, lazy, sh as int)
            }
        } else {
            None
        };
        match (range, change_index_spec(d, id)) {
            (Some((a, b)), Some(i)) => a <= i <= b,
            _ => if has_changes {
                exact_hunk_spec(d, id) == Some(sh)
            } else {
                hunk_of_change_spec(d, lazy, id) == Some(sh)
            },
        }
    } else {
        hunk_of_change_spec(d, lazy, id) == Some(sh)
    }
}

/// The flags of a change's line.
pub open spec fn flags_spec(d: DiffView, lazy: bool, s: StepView, c: ChangeView, is_primary: bool) -> LineFlags {
    let in_hunk = in_hunk_spec(d, lazy, s, c.id);
    let active_change = s.active_change == Some(c.id);
    LineFlags {
        is_applied: s.applied.contains(c.id),
        is_active: active_change || in_hunk,
        is_active_change: active_change,
        is_primary_active: is_primary,
        show_hunk_extent: in_hunk || (in_scope_spec(d, lazy, s, c.id, spans_have_changes(c.spans)) && (s.last_nav_was_hunk
            || s.show_hunk_extent_while_stepping)),
    }
}

/// The line of a change: word-level for several spans, the span's line for
/// one, none for none.
pub open spec fn change_line_spec(
    d: DiffView,
    lazy: bool,
    s: StepView,
    c: ChangeView,
    frame: AnimationFrame,
    is_primary: bool,
) -> Option<ViewLineModel> {
    let f = flags_spec(d, lazy, s, c, is_primary);
    let hunk = hunk_of_change_spec(d, lazy, c.id);
    if c.spans.len() > 1 {
        word_line_spec(c, f, s.step_direction, frame, hunk)
    } else if c.spans.len() == 1 {
        single_line_spec(c.spans[0], c.id, f, s.step_direction, frame, hunk)
    } else {
        None
    }
}

/// The lines of the first `n` changes, and whether the cursor marker has
/// been placed (with no cursor change, the first line of the animated
/// hunk takes it).
pub open spec fn view_fold(
    d: DiffView,
    lazy: bool,
    s: StepView,
    cs: Seq<ChangeView>,
    frame: AnimationFrame,
    n: int,
) -> (Seq<ViewLineModel>, bool)
    decreases n,
{
    if n <= 0 {
        (Seq::empty(), false)
    } else {
        let (lines, assigned) = view_fold(d, lazy, s, cs, frame, n - 1);
        let c = cs[n - 1];
        let p = primary_spec(s);
        let is_primary = p == Some(c.id) || (!assigned && in_hunk_spec(d, lazy, s, c.id) && p is None);
        let lines2 = match change_line_spec(d, lazy, s, c, frame, is_primary) {
            Some(l) => lines.push(l),
            None => lines,
        };
        (lines2, assigned || is_primary)
    }
}

/// The lines of the changes `lo..hi`.
pub open spec fn view_of_range(d: DiffView, lazy: bool, s: StepView, lo: int, hi: int, frame: AnimationFrame) -> Seq<
    ViewLineModel,
> {
    view_fold(d, lazy, s, d.changes.subrange(lo, hi), frame, hi - lo).0
}

impl DiffNavigator {
    /// The cursor marker's change (see `primary_spec`).
    fn primary_change_id(&self) -> (r: Option<usize>)
        requires
            self.inv(),
        ensures
            r == primary_spec(self@.state),
    {
        if self.state.cursor_change.is_some() && self.state.active_change.is_none() && self.state.step_direction
            == StepDirection::Unset {
            self.state.cursor_change
        } else if self.state.step_direction == StepDirection::Backward {
            let n = self.state.applied_changes.len();
            if n > 0 {
                Some(self.state.applied_changes[n - 1])
            } else {
                self.state.active_change
            }
        } else {
            self.state.active_change
        }
    }

    /// The hunk whose extent is marked (see `scope_hunk_spec`).
    fn scope_hunk(&self) -> (r: usize)
        requires
            self.inv(),
        ensures
            r == scope_hunk_spec(self@.diff, self@.state),
    {
        if self.state.last_nav_was_hunk {
            match self.state.cursor_change {
                Some(id) => match self.hunk_index_for_change_exact(id) {
                    Some(h) => h,
                    None => self.state.current_hunk,
                },
                None => self.state.current_hunk,
            }
        } else {
            self.state.current_hunk
        }
    }

    /// Whether a change belongs to the animated hunk.
    fn is_change_in_animating_hunk(&self, change_id: usize) -> (b: bool)
        requires
            self.inv(),
        ensures
            b == in_hunk_spec(self@.diff, self@.lazy_maps, self@.state, change_id),
    {
        match self.state.animating_hunk {
            Some(h) => match self.hunk_index_for_change(change_id) {
                Some(x) => x == h,
                None => false,
            },
            None => false,
        }
    }

    /// Whether a change lies in the scope hunk (see `in_scope_spec`).
    fn in_scope(&self, change_id: usize, has_changes: bool, scope_hunk: usize) -> (b: bool)
        requires
            self.inv(),
            scope_hunk == scope_hunk_spec(self@.diff, self@.state),
        ensures
            b == in_scope_spec(self@.diff, self@.lazy_maps, self@.state, change_id, has_changes),
    {
        if self.state.last_nav_was_hunk {
            let range = if has_changes {
                self.hunk_change_index_range_exact(scope_hunk)
            } else {
                self.hunk_change_index_range(scope_hunk)
            };
            match (range, self.change_index(change_id)) {
                (Some((a, b)), Some(i)) => a <= i && i <= b,
                _ => if has_changes {
                    match self.hunk_index_for_change_exact(change_id) {
                        Some(h) => h == scope_hunk,
                        None => false,
                    }
                } else {
                    match self.hunk_index_for_change(change_id) {
                        Some(h) => h == scope_hunk,
                        None => false,
                    }
                },
            }
        } else {
            match self.hunk_index_for_change(change_id) {
                Some(h) => h == scope_hunk,
                None => false,
            }
        }
    }

    /// The line of a change, its cursor flag given.
    fn change_line(&self, change: &Change, frame: AnimationFrame, is_primary: bool, scope_hunk: usize) -> (r: Option<
        ViewLine,
    >)
        requires
            self.inv(),
            scope_hunk == scope_hunk_spec(self@.diff, self@.state),
        ensures
            match r {
                Some(l) => change_line_spec(self@.diff, self@.lazy_maps, self@.state, change@, frame, is_primary) == Some(l@),
                None => change_line_spec(self@.diff, self@.lazy_maps, self@.state, change@, frame, is_primary) is None,
            },
    {
        let is_applied = self.state.is_applied(change.id);
        let in_hunk = self.is_change_in_animating_hunk(change.id);
        let is_active_change = match self.state.active_change {
            Some(a) => a == change.id,
            None => false,
        };
        let has_changes = change.has_changes();
        let in_scope = self.in_scope(change.id, has_changes, scope_hunk);
        let f = LineFlags {
            is_applied,
            is_active: is_active_change || in_hunk,
            is_active_change,
            is_primary_active: is_primary,
            show_hunk_extent: in_hunk || (in_scope && (self.state.last_nav_was_hunk
                || self.state.show_hunk_extent_while_stepping)),
        };
        let hunk = self.hunk_index_for_change(change.id);
        if change.spans.len() > 1 {
            build_word_level_line(change, &f, self.state.step_direction, frame, hunk)
        } else if change.spans.len() == 1 {
            build_single_span_line(&change.spans[0], change.id, &f, self.state.step_direction, frame, hunk)
        } else {
            None
        }
    }

    /// The lines of the changes `lo..hi` (see `view_fold`).
    fn view_for_changes(&self, lo: usize, hi: usize, frame: AnimationFrame) -> (r: Vec<ViewLine>)
        requires
            self.inv(),
            lo <= hi <= self@.diff.changes.len(),
        ensures
            view_line_models(r@) == view_of_range(self@.diff, self@.lazy_maps, self@.state, lo as int, hi as int, frame),
    {
        let ghost cs = self@.diff.changes.subrange(lo as int, hi as int);
        let primary = self.primary_change_id();
        let scope_hunk = self.scope_hunk();
        let mut lines: Vec<ViewLine> = Vec::new();
        let mut primary_assigned = false;
        let mut i: usize = lo;
        while i < hi
            invariant
                self.inv(),
                lo <= i <= hi <= self@.diff.changes.len(),
                cs == self@.diff.changes.subrange(lo as int, hi as int),
                primary == primary_spec(self@.state),
                scope_hunk == scope_hunk_spec(self@.diff, self@.state),
                (view_line_models(lines@), primary_assigned) == view_fold(
                    self@.diff,
                    self@.lazy_maps,
                    self@.state,
                    cs,
                    frame,
                    i - lo,
                ),
            decreases hi - i,
        {
            let change = &self.diff.changes[i];
            assert(change@ == cs[i - lo]);
            let in_hunk = self.is_change_in_animating_hunk(change.id);
            let is_primary = match primary {
                Some(p) => p == change.id,
                None => false,
            } || (!primary_assigned && in_hunk && primary.is_none());
            if is_primary {
                primary_assigned = true;
            }
            let ghost before = view_line_models(lines@);
            match self.change_line(change, frame, is_primary, scope_hunk) {
                Some(l) => {
                    lines.push(l);
                    assert(view_line_models(lines@) =~= before.push(lines@.last()@));
                },
                None => {},
            }
            i = i + 1;
        }
        lines
    }

    /// The lines of all changes, idle.
    pub fn current_view(&self) -> (r: Vec<ViewLine>)
        requires
            self.inv(),
        ensures
            view_line_models(r@) == view_of_range(
                self@.diff,
                self@.lazy_maps,
                self@.state,
                0,
                self@.diff.changes.len() as int,
                AnimationFrame::Idle,
            ),
    {
        self.current_view_with_frame(AnimationFrame::Idle)
    }

    /// The lines of all changes, for an animation frame.
    pub fn current_view_with_frame(&self, frame: AnimationFrame) -> (r: Vec<ViewLine>)
        requires
            self.inv(),
        ensures
            view_line_models(r@) == view_of_range(
                self@.diff,
                self@.lazy_maps,
                self@.state,
                0,
                self@.diff.changes.len() as int,
                frame,
            ),
    {
        self.view_for_changes(0, self.diff.changes.len(), frame)
    }

    /// The line of one change (the first with the id); its cursor flag
    /// goes by the cursor change alone (or, with none, by the animated
    /// hunk).
    pub fn view_line_for_change(&self, frame: AnimationFrame, change_id: usize) -> (r: Option<ViewLine>)
        requires
            self.inv(),
        ensures
            match first_change_with_id(self@.diff.changes, change_id) {
                Some(i) => {
                    let p = primary_spec(self@.state);
                    let is_primary = p == Some(change_id) || (p is None && in_hunk_spec(
                        self@.diff,
                        self@.lazy_maps,
                        self@.state,
                        change_id,
                    ));
                    match r {
                        Some(l) => change_line_spec(
                            self@.diff,
                            self@.lazy_maps,
                            self@.state,
                            self@.diff.changes[i],
                            frame,
                            is_primary,
                        ) == Some(l@),
                        None => change_line_spec(
                            self@.diff,
                            self@.lazy_maps,
                            self@.state,
                            self@.diff.changes[i],
                            frame,
                            is_primary,
                        ) is None,
                    }
                },
                None => r is None,
            },
    {
        let idx = match crate::diff::find_change(&self.diff.changes, change_id) {
            Some(i) => i,
            None => {
                return None;
            },
        };
        let change = &self.diff.changes[idx];
        let primary = self.primary_change_id();
        let in_hunk = self.is_change_in_animating_hunk(change_id);
        let is_primary = match primary {
            Some(p) => p == change_id,
            None => false,
        } || (primary.is_none() && in_hunk);
        let scope_hunk = self.scope_hunk();
        self.change_line(change, frame, is_primary, scope_hunk)
    }

    /// The lines of a hunk's changes with `context_lines` changes around
    /// them; all lines when the hunk does not exist or has no change.
    pub fn current_view_for_hunk(&self, frame: AnimationFrame, hunk_idx: usize, context_lines: usize) -> (r: Vec<
        ViewLine,
    >)
        requires
            self.inv(),
            context_lines <= usize::MAX - self@.diff.changes.len(),
        ensures
            view_line_models(r@) == (if self@.diff.changes.len() == 0 {
                Seq::empty()
            } else {
                match (if hunk_idx < self@.diff.hunks.len() {
                    exact_range_spec(self@.diff, hunk_idx as int)
                } else {
                    None
                }) {
                    Some((a, b)) => {
                        let top = self@.diff.changes.len() - 1;
                        let lo = if a >= context_lines {
                            a - context_lines
                        } else {
                            0
                        };
                        let hi = if b + context_lines < top {
                            b + context_lines
                        } else {
                            top
                        };
                        view_of_range(self@.diff, self@.lazy_maps, self@.state, lo, hi + 1, frame)
                    },
                    None => view_of_range(
                        self@.diff,
                        self@.lazy_maps,
                        self@.state,
                        0,
                        self@.diff.changes.len() as int,
                        frame,
                    ),
                }
            }),
    {
        let n = self.diff.changes.len();
        if n == 0 {
            return Vec::new();
        }
        match self.hunk_change_index_range_exact(hunk_idx) {
            Some((a, b)) => {
                proof {
                    super::table::lemma_range_bound(
                        self@.diff,
                        self@.diff.hunks[hunk_idx as int].change_ids,
                        self@.diff.hunks[hunk_idx as int].change_ids.len() as int,
                    );
                }
                let lo = a.saturating_sub(context_lines);
                let top = n - 1;
                let hi = if b + context_lines < top {
                    b + context_lines
                } else {
                    top
                };
                self.view_for_changes(lo, hi + 1, frame)
            },
            None => self.current_view_with_frame(frame),
        }
    }

    /// The lines of the changes within `radius` of a change; all lines
    /// when the change id is unknown.
    pub fn current_view_for_change_window(&self, frame: AnimationFrame, change_id: usize, radius: usize) -> (r: Vec<
        ViewLine,
    >)
        requires
            self.inv(),
            radius <= usize::MAX - self@.diff.changes.len(),
        ensures
            view_line_models(r@) == (match change_index_spec(self@.diff, change_id) {
                Some(i) => {
                    let top = self@.diff.changes.len() - 1;
                    let lo = if i >= radius {
                        i - radius
                    } else {
                        0
                    };
                    let hi = if i + radius < top {
                        i + radius
                    } else {
                        top
                    };
                    view_of_range(self@.diff, self@.lazy_maps, self@.state, lo, hi + 1, frame)
                },
                None => view_of_range(
                    self@.diff,
                    self@.lazy_maps,
                    self@.state,
                    0,
                    self@.diff.changes.len() as int,
                    frame,
                ),
            }),
    {
        let idx = match self.change_index(change_id) {
            Some(i) => i,
            None => {
                return self.current_view_with_frame(frame);
            },
        };
        let top = self.diff.changes.len() - 1;
        let lo = idx.saturating_sub(radius);
        let hi = if idx + radius < top {
            idx + radius
        } else {
            top
        };
        self.view_for_changes(lo, hi + 1, frame)
    }

    /// The lines of the changes `start..=end`, both clamped to the last
    /// change; none when `start > end` after clamping.
    pub fn current_view_for_change_range(&self, frame: AnimationFrame, start: usize, end: usize) -> (r: Vec<ViewLine>)
        requires
            self.inv(),
        ensures
            view_line_models(r@) == (if self@.diff.changes.len() == 0 {
                Seq::empty()
            } else {
                let top = self@.diff.changes.len() - 1;
                let lo = if start < top {
                    start as int
                } else {
                    top
                };
                let hi = if end < top {
                    end as int
                } else {
                    top
                };
                if lo > hi {
                    Seq::empty()
                } else {
                    view_of_range(self@.diff, self@.lazy_maps, self@.state, lo, hi + 1, frame)
                }
            }),
    {
        let n = self.diff.changes.len();
        if n == 0 {
            return Vec::new();
        }
        let top = n - 1;
        let lo = if start < top {
            start
        } else {
            top
        };
        let hi = if end < top {
            end
        } else {
            top
        };
        if lo > hi {
            return Vec::new();
        }
        self.view_for_changes(lo, hi + 1, frame)
    }

    /// The active change (the first change with its id).
    pub fn active_change(&self) -> (r: Option<&Change>)
        requires
            self.inv(),
        ensures
            match self@.state.active_change {
                Some(id) => match first_change_with_id(self@.diff.changes, id) {
                    Some(i) => r is Some && r.unwrap()@ == self@.diff.changes[i],
                    None => r is None,
                },
                None => r is None,
            },
    {
        match self.state.active_change {
            Some(id) => match crate::diff::find_change(&self.diff.changes, id) {
                Some(i) => Some(&self.diff.changes[i]),
                None => None,
            },
            None => None,
        }
    }

    /// The changes that change something, each with whether it is applied
    /// and whether it is the active change.
    pub fn changes_with_status(&self) -> (r: Vec<(&Change, bool, bool)>)
        requires
            self.inv(),
        ensures
            r@.map_values(|t: (&Change, bool, bool)| (t.0@, t.1, t.2)) == status_upto(
                self@.diff.changes,
                self@.state,
                self@.diff.changes.len() as int,
            ),
    {
        let ghost cs = self@.diff.changes;
        let mut out: Vec<(&Change, bool, bool)> = Vec::new();
        let mut i: usize = 0;
        while i < self.diff.changes.len()
            invariant
                self.inv(),
                cs == self@.diff.changes,
                i <= cs.len(),
                out@.map_values(|t: (&Change, bool, bool)| (t.0@, t.1, t.2)) == status_upto(cs, self@.state, i as int),
            decreases cs.len() - i,
        {
            let c = &self.diff.changes[i];
            assert(c@ == cs[i as int]);
            if c.has_changes() {
                let applied = self.state.is_applied(c.id);
                let active = match self.state.active_change {
                    Some(a) => a == c.id,
                    None => false,
                };
                let ghost before = out@;
                out.push((c, applied, active));
                assert(out@.map_values(|t: (&Change, bool, bool)| (t.0@, t.1, t.2)) =~= before.map_values(
                    |t: (&Change, bool, bool)| (t.0@, t.1, t.2),
                ).push((c@, applied, active)));
            }
            i = i + 1;
        }
        out
    }
}

/// The first `n` changes that change something, each with whether it is
/// applied and whether it is the active change.
pub open spec fn status_upto(cs: Seq<ChangeView>, s: StepView, n: int) -> Seq<(ChangeView, bool, bool)>
    decreases n,
{
    if n <= 0 {
        Seq::empty()
    } else {
        let prev = status_upto(cs, s, n - 1);
        let c = cs[n - 1];
        if spans_have_changes(c.spans) {
            prev.push((c, s.applied.contains(c.id), s.active_change == Some(c.id)))
        } else {
            prev
        }
    }
}

} // verus!
