//! Stepping: applying and un-applying changes one at a time, and the
//! hunk preview that a step dissolves.

use super::table::step_index_spec;
use super::{distinct, push_new, DiffNavigator, NavView, StepDirection, StepView};
use crate::diff::{first_hunk_holding, DiffView};
use vstd::prelude::*;

verus! {

/// The id of the first hunk that holds the change, or `fallback`.
pub open spec fn hunk_id_of_change(d: DiffView, id: usize, fallback: usize) -> usize {
    match first_hunk_holding(d.hunks, id) {
        Some(h) => d.hunks[h].id,
        None => fallback,
    }
}

/// The smallest step index among the first `n` ids that are applied, have
/// a step index, and are not `keep`.
pub open spec fn min_applied_step(d: DiffView, s: StepView, ids: Seq<usize>, keep: Option<usize>, n: int) -> Option<usize>
    decreases n,
{
    if n <= 0 {
        None
    } else {
        let prev = min_applied_step(d, s, ids, keep, n - 1);
        let id = ids[n - 1];
        if keep == Some(id) || !s.applied.contains(id) {
            prev
        } else {
            match step_index_spec(d, id) {
                Some(k) => match prev {
                    Some(m) => Some(if k < m { k } else { m }),
                    None => Some(k),
                },
                None => prev,
            }
        }
    }
}

/// How many applied changes stay when the changes of hunk `h` are
/// un-applied: up to the step of `keep` (which must be in the hunk and
/// applied), or up to the first step of an applied change of the hunk.
/// `None` when nothing is to be un-applied.
pub open spec fn bulk_new_len(d: DiffView, s: StepView, h: int, keep: Option<usize>) -> Option<usize> {
    if !(0 <= h < d.hunks.len()) {
        None
    } else {
        let ids = d.hunks[h].change_ids;
        match keep {
            Some(kid) => if ids.contains(kid) && s.applied.contains(kid) {
                match step_index_spec(d, kid) {
                    Some(k) => Some((k + 1) as usize),
                    None => None,
                }
            } else {
                None
            },
            None => min_applied_step(d, s, ids, None, ids.len() as int),
        }
    }
}

/// The state with only the first `new_len` applied changes kept, and how
/// many were removed.
pub open spec fn truncated(s: StepView, new_len: usize) -> (StepView, usize) {
    if new_len >= s.applied.len() {
        (s, 0)
    } else {
        (StepView { applied: s.applied.take(new_len as int), ..s }, (s.applied.len() - new_len) as usize)
    }
}

/// Un-applying the changes of hunk `h` (but `keep`): the new state and how
/// many changes were un-applied.
pub open spec fn bulk_spec(d: DiffView, s: StepView, h: int, keep: Option<usize>) -> (StepView, usize) {
    match bulk_new_len(d, s, h, keep) {
        Some(n) => truncated(s, n),
        None => (s, 0),
    }
}

/// One step forward, preview aside: the next significant change is
/// applied and becomes active, the hunk cursor follows it, and the extent
/// markers are cleared when the hunk changes. No move at the last step.
pub open spec fn step_forward(d: DiffView, s: StepView) -> (StepView, bool) {
    if s.current_step >= s.total_steps - 1 {
        (s, false)
    } else {
        let idx = s.current_step as int;
        let s1 = if idx < d.sig.len() {
            let id = d.sig[idx];
            StepView {
                applied: push_new(s.applied, id),
                active_change: Some(id),
                current_hunk: hunk_id_of_change(d, id, s.current_hunk),
                ..s
            }
        } else {
            s
        };
        (
            StepView {
                current_step: (s.current_step + 1) as usize,
                step_direction: StepDirection::Forward,
                animating_hunk: None,
                last_nav_was_hunk: if s1.current_hunk != s.current_hunk {
                    false
                } else {
                    s.last_nav_was_hunk
                },
                ..s1
            },
            true,
        )
    }
}

/// `next`: in a hunk preview entered going forward, a step keeps the
/// hunk's first change, applies its second and moves the cursor there (a
/// hunk of one change is left by a plain step); otherwise a plain step.
pub open spec fn next_spec(d: DiffView, s: StepView) -> (StepView, bool) {
    if s.hunk_preview_mode {
        if s.preview_from_backward {
            step_forward(d, StepView { hunk_preview_mode: false, preview_from_backward: false, ..s })
        } else {
            let h = s.current_hunk as int;
            let hlen = if h < d.hunks.len() {
                d.hunks[h].change_ids.len()
            } else {
                0
            };
            if hlen <= 1 {
                step_forward(d, StepView { hunk_preview_mode: false, ..s })
            } else {
                let ids = d.hunks[h].change_ids;
                let s1 = bulk_spec(d, s, h, Some(ids[0])).0;
                let applied = push_new(s1.applied, ids[1]);
                (
                    StepView {
                        applied,
                        current_step: applied.len() as usize,
                        active_change: Some(ids[1]),
                        step_direction: StepDirection::Forward,
                        hunk_preview_mode: false,
                        preview_from_backward: false,
                        animating_hunk: None,
                        last_nav_was_hunk: true,
                        ..s1
                    },
                    true,
                )
            }
        }
    } else {
        step_forward(d, s)
    }
}

/// One step back, preview aside: the last applied change is un-applied and
/// becomes active, the hunk cursor follows the new last applied change (0
/// at the start), and the extent markers are cleared when the hunk changes
/// or at the start. No move at step 0.
pub open spec fn step_backward(d: DiffView, s: StepView) -> (StepView, bool) {
    if s.current_step == 0 {
        (s, false)
    } else {
        let cs = (s.current_step - 1) as usize;
        let s1 = if s.applied.len() > 0 {
            let a2 = s.applied.drop_last();
            StepView {
                applied: a2,
                active_change: Some(s.applied.last()),
                current_hunk: if a2.len() > 0 {
                    hunk_id_of_change(d, a2.last(), s.current_hunk)
                } else {
                    0
                },
                ..s
            }
        } else {
            StepView { active_change: None, ..s }
        };
        let hunk = if cs == 0 {
            0
        } else {
            s1.current_hunk
        };
        (
            StepView {
                step_direction: StepDirection::Backward,
                animating_hunk: None,
                current_step: cs,
                current_hunk: hunk,
                last_nav_was_hunk: if cs == 0 || hunk != s.current_hunk {
                    false
                } else {
                    s.last_nav_was_hunk
                },
                ..s1
            },
            true,
        )
    }
}

/// `prev`: in a hunk preview entered going forward, a step back un-applies
/// the whole hunk (animated), moves the cursor to the previous hunk and to
/// the last applied change; otherwise a plain step back.
pub open spec fn prev_spec(d: DiffView, s: StepView) -> (StepView, bool) {
    if s.hunk_preview_mode {
        if s.preview_from_backward {
            step_backward(d, StepView { hunk_preview_mode: false, preview_from_backward: false, ..s })
        } else {
            let h = s.current_hunk;
            let s1 = bulk_spec(d, StepView { animating_hunk: Some(h), ..s }, h as int, None).0;
            (
                StepView {
                    current_step: s1.applied.len() as usize,
                    current_hunk: if h > 0 {
                        (h - 1) as usize
                    } else {
                        h
                    },
                    step_direction: StepDirection::Backward,
                    active_change: if s1.applied.len() > 0 {
                        Some(s1.applied.last())
                    } else {
                        None
                    },
                    hunk_preview_mode: false,
                    preview_from_backward: false,
                    last_nav_was_hunk: false,
                    ..s1
                },
                true,
            )
        }
    } else {
        step_backward(d, s)
    }
}

/// The state once an animation has played: after a step back the cursor
/// stays on the last applied change, otherwise no change is active; no
/// hunk is animated and no direction is set.
pub open spec fn cleared_spec(s: StepView) -> StepView {
    StepView {
        active_change: if s.step_direction == StepDirection::Backward {
            if s.applied.len() > 0 {
                Some(s.applied.last())
            } else {
                None
            }
        } else {
            None
        },
        animating_hunk: None,
        step_direction: StepDirection::Unset,
        ..s
    }
}

proof fn lemma_hunk_id_of_change(d: DiffView, id: usize, fallback: usize)
    requires
        forall|i: int| 0 <= i < d.hunks.len() ==> (#[trigger] d.hunks[i]).id == i,
        first_hunk_holding(d.hunks, id) matches Some(h) ==> 0 <= h < d.hunks.len(),
        d.hunks.len() > 0 ==> fallback < d.hunks.len(),
    ensures
        d.hunks.len() > 0 ==> hunk_id_of_change(d, id, fallback) < d.hunks.len(),
{
    if first_hunk_holding(d.hunks, id) is Some {
        let h = first_hunk_holding(d.hunks, id)->0;
        assert(d.hunks[h].id == h);
    }
}

proof fn lemma_push_new_ok(d: DiffView, a: Seq<usize>, id: usize)
    requires
        distinct(a),
        forall|k: int| 0 <= k < a.len() ==> d.sig.contains(#[trigger] a[k]),
        d.sig.contains(id),
    ensures
        distinct(push_new(a, id)),
        forall|k: int| 0 <= k < push_new(a, id).len() ==> d.sig.contains(#[trigger] push_new(a, id)[k]),
        push_new(a, id).len() <= a.len() + 1,
{
    if !a.contains(id) {
        let b = a.push(id);
        assert forall|i: int, j: int| 0 <= i < j < b.len() implies b[i] != b[j] by {
            if j == a.len() {
                assert(a[i] == b[i]);
            }
        }
        assert forall|k: int| 0 <= k < b.len() implies d.sig.contains(#[trigger] b[k]) by {
            if k < a.len() {
                assert(a[k] == b[k]);
            }
        }
    }
}

/// Un-applying nothing leaves the state as it was; un-applying keeps a
/// prefix of the applied changes.
pub proof fn lemma_bulk(d: DiffView, s: StepView, h: int, keep: Option<usize>)
    requires
        s.applied.len() <= usize::MAX,
    ensures
        bulk_spec(d, s, h, keep).1 == 0 ==> bulk_spec(d, s, h, keep).0 == s,
        bulk_spec(d, s, h, keep).0 == (StepView { applied: bulk_spec(d, s, h, keep).0.applied, ..s }),
        bulk_spec(d, s, h, keep).0.applied.len() <= s.applied.len(),
{
}

impl DiffNavigator {
    /// Un-applies the changes of a hunk but `keep`; returns how many were
    /// un-applied (see `bulk_spec`).
    pub(super) fn remove_applied_bulk_for_hunk(&mut self, hunk_idx: usize, keep: Option<usize>) -> (removed: usize)
        requires
            old(self).inv_core(),
        ensures
            final(self).inv_core(),
            final(self)@ == (NavView { state: bulk_spec(old(self)@.diff, old(self)@.state, hunk_idx as int, keep).0, ..old(self)@ }),
            removed == bulk_spec(old(self)@.diff, old(self)@.state, hunk_idx as int, keep).1,
    {
        if hunk_idx >= self.diff.hunks.len() {
            return 0;
        }
        let ghost d = self.diff@;
        let ghost s = self.state@;
        let ids = &self.diff.hunks[hunk_idx].change_ids;
        assert(ids@ == d.hunks[hunk_idx as int].change_ids);
        let mut min_index: Option<usize> = None;
        let mut keep_index: Option<usize> = None;
        let mut j: usize = 0;
        while j < ids.len()
            invariant
                d == self.diff@,
                s == self.state@,
                self.inv_core(),
                ids@ == d.hunks[hunk_idx as int].change_ids,
                j <= ids@.len(),
                min_index == min_applied_step(d, s, ids@, keep, j as int),
                keep_index == (match keep {
                    Some(kid) => if ids@.take(j as int).contains(kid) {
                        step_index_spec(d, kid)
                    } else {
                        None
                    },
                    None => None::<usize>,
                }),
            decreases ids@.len() - j,
        {
            let id = ids[j];
            proof {
                assert(ids@.take(j + 1) =~= ids@.take(j as int).push(id));
                if keep is Some && ids@.take(j as int).contains(keep->0) {
                    let w = choose|w: int| 0 <= w < j && ids@.take(j as int)[w] == keep->0;
                    assert(ids@.take(j + 1)[w] == keep->0);
                }
            }
            let is_keep = match keep {
                Some(kid) => kid == id,
                None => false,
            };
            if is_keep {
                keep_index = self.step_index(id);
                assert(ids@.take(j + 1)[j as int] == id);
            } else if self.state.is_applied(id) {
                match self.step_index(id) {
                    Some(k) => {
                        min_index = Some(
                            match min_index {
                                Some(m) => if k < m {
                                    k
                                } else {
                                    m
                                },
                                None => k,
                            },
                        );
                    },
                    None => {},
                }
            }
            j = j + 1;
        }
        proof {
            assert(ids@.take(ids@.len() as int) =~= ids@);
        }
        let new_len = match keep {
            Some(kid) => match keep_index {
                None => {
                    return 0;
                },
                Some(k) => {
                    if !self.state.is_applied(kid) {
                        return 0;
                    }
                    proof {
                        super::table::lemma_last_pos_bound(d.sig, kid, d.sig.len() as int);
                    }
                    k + 1
                },
            },
            None => match min_index {
                None => {
                    return 0;
                },
                Some(k) => k,
            },
        };
        let removed = self.state.truncate_applied_to(new_len);
        proof {
            let a = self.state@.applied;
            assert forall|i: int, k: int| 0 <= i < k < a.len() implies a[i] != a[k] by {
                assert(a[i] == s.applied[i] && a[k] == s.applied[k]);
            }
            assert forall|k: int| 0 <= k < a.len() implies d.sig.contains(#[trigger] a[k]) by {
                assert(a[k] == s.applied[k]);
            }
        }
        removed
    }

    /// One step forward, preview aside (see `step_forward`).
    #[verifier::rlimit(40)]
    fn step_forward(&mut self) -> (moved: bool)
        requires
            old(self).inv(),
        ensures
            final(self).inv(),
            final(self)@ == (NavView { state: step_forward(old(self)@.diff, old(self)@.state).0, ..old(self)@ }),
            moved == step_forward(old(self)@.diff, old(self)@.state).1,
    {
        if self.state.is_at_end() {
            return false;
        }
        let ghost d = self.diff@;
        let prev_hunk = self.state.current_hunk;
        self.state.step_direction = StepDirection::Forward;
        self.state.animating_hunk = None;
        let change_idx = self.state.current_step;
        if change_idx < self.diff.significant_changes.len() {
            let change_id = self.diff.significant_changes[change_idx];
            proof {
                assert(d.sig.contains(change_id)) by {
                    assert(d.sig[change_idx as int] == change_id);
                }
                lemma_push_new_ok(d, self.state@.applied, change_id);
            }
            self.state.push_applied(change_id);
            self.state.active_change = Some(change_id);
            let found = self.diff.hunk_for_change(change_id);
            proof {
                lemma_hunk_id_of_change(d, change_id, self.state.current_hunk);
            }
            match found {
                Some(hunk) => {
                    self.state.current_hunk = hunk.id;
                },
                None => {},
            }
        }
        self.state.current_step = self.state.current_step + 1;
        if self.state.current_hunk != prev_hunk {
            self.state.last_nav_was_hunk = false;
        }
        true
    }

    /// One step back, preview aside (see `step_backward`).
    #[verifier::rlimit(40)]
    fn step_backward(&mut self) -> (moved: bool)
        requires
            old(self).inv(),
        ensures
            final(self).inv(),
            final(self)@ == (NavView { state: step_backward(old(self)@.diff, old(self)@.state).0, ..old(self)@ }),
            moved == step_backward(old(self)@.diff, old(self)@.state).1,
    {
        if self.state.is_at_start() {
            return false;
        }
        let ghost d = self.diff@;
        let ghost a = self.state@.applied;
        let prev_hunk = self.state.current_hunk;
        self.state.step_direction = StepDirection::Backward;
        self.state.animating_hunk = None;
        self.state.current_step = self.state.current_step - 1;
        match self.state.pop_applied() {
            Some(unapplied) => {
                self.state.active_change = Some(unapplied);
                let n = self.state.applied_changes.len();
                if n > 0 {
                    let last = self.state.applied_changes[n - 1];
                    let found = self.diff.hunk_for_change(last);
                    proof {
                        lemma_hunk_id_of_change(d, last, self.state.current_hunk);
                    }
                    match found {
                        Some(hunk) => {
                            self.state.current_hunk = hunk.id;
                        },
                        None => {},
                    }
                } else {
                    self.state.current_hunk = 0;
                }
                proof {
                    let b = self.state@.applied;
                    assert forall|i: int, k: int| 0 <= i < k < b.len() implies b[i] != b[k] by {
                        assert(a[i] == b[i] && a[k] == b[k]);
                    }
                    assert forall|k: int| 0 <= k < b.len() implies d.sig.contains(#[trigger] b[k]) by {
                        assert(a[k] == b[k]);
                    }
                }
            },
            None => {
                self.state.active_change = None;
            },
        }
        if self.state.current_step == 0 {
            self.state.current_hunk = 0;
        }
        if self.state.current_step == 0 || self.state.current_hunk != prev_hunk {
            self.state.last_nav_was_hunk = false;
        }
        true
    }

    /// Moves to the next step (see `next_spec`); returns whether it moved.
    pub fn next(&mut self) -> (moved: bool)
        requires
            old(self).inv(),
        ensures
            final(self).inv(),
            final(self)@ == (NavView { state: next_spec(old(self)@.diff, old(self)@.state).0, ..old(self)@ }),
            moved == next_spec(old(self)@.diff, old(self)@.state).1,
    {
        if self.state.hunk_preview_mode {
            return self.dissolve_preview_for_step_down();
        }
        self.step_forward()
    }

    /// Leaves a hunk preview on a step forward (see `next_spec`).
    fn dissolve_preview_for_step_down(&mut self) -> (moved: bool)
        requires
            old(self).inv(),
            old(self)@.state.hunk_preview_mode,
        ensures
            final(self).inv(),
            final(self)@ == (NavView { state: next_spec(old(self)@.diff, old(self)@.state).0, ..old(self)@ }),
            moved == next_spec(old(self)@.diff, old(self)@.state).1,
    {
        if self.state.preview_from_backward {
            self.state.hunk_preview_mode = false;
            self.state.preview_from_backward = false;
            return self.step_forward();
        }
        let ghost d = self.diff@;
        let current_hunk_idx = self.state.current_hunk;
        let hunk_len = if current_hunk_idx < self.diff.hunks.len() {
            self.diff.hunks[current_hunk_idx].change_ids.len()
        } else {
            0
        };
        if hunk_len <= 1 {
            self.state.hunk_preview_mode = false;
            return self.step_forward();
        }
        let first_change = self.diff.hunks[current_hunk_idx].change_ids[0];
        let second_change = self.diff.hunks[current_hunk_idx].change_ids[1];
        self.remove_applied_bulk_for_hunk(current_hunk_idx, Some(first_change));
        proof {
            let ids = d.hunks[current_hunk_idx as int].change_ids;
            crate::diff::lemma_hunk_ids_in_sig(d, current_hunk_idx as int, 1);
            lemma_push_new_ok(d, self.state@.applied, second_change);
        }
        self.state.push_applied(second_change);
        self.state.current_step = self.state.applied_changes.len();
        self.state.active_change = Some(second_change);
        self.state.step_direction = StepDirection::Forward;
        self.state.hunk_preview_mode = false;
        self.state.preview_from_backward = false;
        self.state.animating_hunk = None;
        self.state.last_nav_was_hunk = true;
        true
    }

    /// Moves to the previous step (see `prev_spec`); returns whether it
    /// moved.
    pub fn prev(&mut self) -> (moved: bool)
        requires
            old(self).inv(),
        ensures
            final(self).inv(),
            final(self)@ == (NavView { state: prev_spec(old(self)@.diff, old(self)@.state).0, ..old(self)@ }),
            moved == prev_spec(old(self)@.diff, old(self)@.state).1,
    {
        if self.state.hunk_preview_mode {
            return self.dissolve_preview_for_step_up();
        }
        self.step_backward()
    }

    /// Leaves a hunk preview on a step back (see `prev_spec`).
    fn dissolve_preview_for_step_up(&mut self) -> (moved: bool)
        requires
            old(self).inv(),
            old(self)@.state.hunk_preview_mode,
        ensures
            final(self).inv(),
            final(self)@ == (NavView { state: prev_spec(old(self)@.diff, old(self)@.state).0, ..old(self)@ }),
            moved == prev_spec(old(self)@.diff, old(self)@.state).1,
    {
        if self.state.preview_from_backward {
            self.state.hunk_preview_mode = false;
            self.state.preview_from_backward = false;
            return self.step_backward();
        }
        let current_hunk_idx = self.state.current_hunk;
        self.state.animating_hunk = Some(current_hunk_idx);
        self.remove_applied_bulk_for_hunk(current_hunk_idx, None);
        self.state.current_step = self.state.applied_changes.len();
        if current_hunk_idx > 0 {
            self.state.current_hunk = current_hunk_idx - 1;
        }
        self.state.step_direction = StepDirection::Backward;
        let n = self.state.applied_changes.len();
        self.state.active_change = if n > 0 {
            Some(self.state.applied_changes[n - 1])
        } else {
            None
        };
        self.state.hunk_preview_mode = false;
        self.state.preview_from_backward = false;
        self.state.last_nav_was_hunk = false;
        true
    }

    /// Ends the animation of the last move (see `cleared_spec`).
    pub fn clear_active_change(&mut self)
        requires
            old(self).inv(),
        ensures
            final(self).inv(),
            final(self)@ == (NavView { state: cleared_spec(old(self)@.state), ..old(self)@ }),
    {
        if self.state.step_direction == StepDirection::Backward {
            let n = self.state.applied_changes.len();
            self.state.active_change = if n > 0 {
                Some(self.state.applied_changes[n - 1])
            } else {
                None
            };
        } else {
            self.state.active_change = None;
        }
        self.state.animating_hunk = None;
        self.state.step_direction = StepDirection::Unset;
    }
}

} // verus!
