//! Jumps: to a step, to a hunk, within a hunk, and the cursor setters.

use super::nav::{bulk_spec, lemma_bulk};
use super::{distinct, push_new, DiffNavigator, NavView, StepDirection, StepState, StepView};
use crate::diff::{first_hunk_holding, hunk_id_lists, vec_contains, DiffResult, DiffView, Hunk};
use vstd::prelude::*;

verus! {

/// The hunk cursor put on the first hunk holding the last applied change
/// (0 when nothing is applied or no hunk holds it); unchanged without
/// hunks.
pub open spec fn update_spec(d: DiffView, s: StepView) -> StepView {
    if d.hunks.len() == 0 {
        s
    } else {
        StepView {
            current_hunk: if s.applied.len() > 0 {
                match first_hunk_holding(d.hunks, s.applied.last()) {
                    Some(i) => i as usize,
                    None => 0,
                }
            } else {
                0
            },
            ..s
        }
    }
}

/// `goto`: a jump to step `min(step, last step)`: the changes before it are
/// applied in order and the last of them is active; cursor, animation,
/// extent markers and preview are cleared; the hunk cursor follows the
/// last applied change. With no change applied, a large-diff navigator
/// clears the direction, another keeps it.
pub open spec fn goto_spec(d: DiffView, s: StepView, lazy: bool, step: usize) -> StepView {
    let target = if step < s.total_steps - 1 {
        step as int
    } else {
        s.total_steps - 1
    };
    let end = if target < d.sig.len() {
        target
    } else {
        d.sig.len() as int
    };
    update_spec(
        d,
        StepView {
            current_step: end as usize,
            applied: d.sig.take(end),
            active_change: if end > 0 {
                Some(d.sig[end - 1])
            } else {
                None
            },
            cursor_change: None,
            animating_hunk: None,
            current_hunk: 0,
            last_nav_was_hunk: false,
            hunk_preview_mode: false,
            preview_from_backward: false,
            step_direction: if end > 0 {
                StepDirection::Forward
            } else if lazy {
                StepDirection::Unset
            } else {
                s.step_direction
            },
            ..s
        },
    )
}

/// Applying, in order, the first `n` ids not applied yet, one step each.
pub open spec fn apply_new(a: Seq<usize>, cs: int, ids: Seq<usize>, n: int) -> (Seq<usize>, int)
    decreases n,
{
    if n <= 0 {
        (a, cs)
    } else {
        let (a1, c1) = apply_new(a, cs, ids, n - 1);
        if a1.contains(ids[n - 1]) {
            (a1, c1)
        } else {
            (a1.push(ids[n - 1]), c1 + 1)
        }
    }
}

/// `apply_new` over all the ids of a hunk.
pub open spec fn apply_hunk(s: StepView, ids: Seq<usize>) -> StepView {
    let (a, c) = apply_new(s.applied, s.current_step as int, ids, ids.len() as int);
    StepView { applied: a, current_step: c as usize, ..s }
}

/// Whether one of the ids is applied.
pub open spec fn any_applied(a: Seq<usize>, ids: Seq<usize>) -> bool {
    exists|i: int| 0 <= i < ids.len() && a.contains(#[trigger] ids[i])
}

/// The first id, if any.
pub open spec fn first_id(ids: Seq<usize>) -> Option<usize> {
    if ids.len() > 0 {
        Some(ids[0])
    } else {
        None
    }
}

/// The last id, if any.
pub open spec fn last_id(ids: Seq<usize>) -> Option<usize> {
    if ids.len() > 0 {
        Some(ids.last())
    } else {
        None
    }
}

/// `next_hunk`: an untouched current hunk is applied whole and previewed,
/// the cursor on its first change. A touched one is completed; then the
/// next hunk is applied whole and previewed, the cursor on its first
/// change; at the last hunk, a completion puts the cursor on its last
/// change, and nothing to complete is no move (the preview flag is kept).
pub open spec fn next_hunk_spec(d: DiffView, s: StepView) -> (StepView, bool) {
    if d.hunks.len() == 0 {
        (s, false)
    } else {
        let s0 = StepView {
            step_direction: StepDirection::Forward,
            hunk_preview_mode: false,
            preview_from_backward: false,
            ..s
        };
        let h = s.current_hunk as int;
        let cur = d.hunks[h].change_ids;
        if !any_applied(s.applied, cur) {
            let s1 = apply_hunk(s0, cur);
            let moved = s1.current_step > s.current_step;
            (
                StepView {
                    animating_hunk: Some(h as usize),
                    active_change: first_id(cur),
                    last_nav_was_hunk: if moved {
                        true
                    } else {
                        s.last_nav_was_hunk
                    },
                    hunk_preview_mode: moved,
                    ..s1
                },
                moved,
            )
        } else {
            let s1 = apply_hunk(s0, cur);
            let completed = s1.current_step > s.current_step;
            let nh = h + 1;
            if nh >= d.hunks.len() {
                if completed {
                    (
                        StepView {
                            animating_hunk: Some(h as usize),
                            active_change: last_id(cur),
                            last_nav_was_hunk: true,
                            ..s1
                        },
                        true,
                    )
                } else {
                    (StepView { hunk_preview_mode: s.hunk_preview_mode, ..s1 }, false)
                }
            } else {
                let nxt = d.hunks[nh].change_ids;
                let s2 = apply_hunk(s1, nxt);
                let moved = s2.current_step > s1.current_step;
                (
                    StepView {
                        animating_hunk: Some(nh as usize),
                        active_change: first_id(nxt),
                        current_hunk: nh as usize,
                        last_nav_was_hunk: if moved {
                            true
                        } else {
                            s.last_nav_was_hunk
                        },
                        hunk_preview_mode: moved,
                        ..s2
                    },
                    moved,
                )
            }
        }
    }
}

/// `prev_hunk`: the applied changes of the current hunk are un-applied
/// (the hunk animated, the cursor on its first change); when that empties
/// the hunk the cursor moves to the previous hunk, which is then previewed.
/// A hunk with nothing to un-apply passes the move to the previous hunk;
/// at hunk 0 with nothing applied there is no move (the preview flag is
/// kept).
pub open spec fn prev_hunk_spec(d: DiffView, s: StepView) -> (StepView, bool)
    decreases s.current_hunk,
{
    if d.hunks.len() == 0 || s.current_hunk >= d.hunks.len() {
        (s, false)
    } else {
        let s0 = StepView { hunk_preview_mode: false, preview_from_backward: false, ..s };
        let h = s.current_hunk;
        if h == 0 && !any_applied(s.applied, d.hunks[0].change_ids) {
            (StepView { hunk_preview_mode: s.hunk_preview_mode, ..s0 }, false)
        } else {
            let s1 = StepView { step_direction: StepDirection::Backward, ..s0 };
            let (s2, removed) = bulk_spec(d, s1, h as int, None);
            let moved = removed > 0;
            let s3 = if moved {
                StepView { current_step: s2.applied.len() as usize, ..s2 }
            } else {
                s2
            };
            let s4 = StepView {
                animating_hunk: Some(h),
                active_change: first_id(d.hunks[h as int].change_ids),
                ..s3
            };
            if moved {
                let still = any_applied(s4.applied, d.hunks[h as int].change_ids);
                let ch = if !still && h > 0 {
                    (h - 1) as usize
                } else {
                    h
                };
                let s5 = StepView { current_hunk: ch, ..s4 };
                if ch != h {
                    (
                        StepView {
                            hunk_preview_mode: true,
                            preview_from_backward: true,
                            last_nav_was_hunk: true,
                            ..s5
                        },
                        true,
                    )
                } else {
                    (StepView { last_nav_was_hunk: s5.current_step != 0, ..s5 }, true)
                }
            } else if h > 0 {
                prev_hunk_spec(d, StepView { current_hunk: (h - 1) as usize, ..s4 })
            } else {
                (s4, false)
            }
        }
    }
}

/// Pushing the ids of the first `k` hunks, each as a new step.
pub open spec fn push_hunks(a: Seq<usize>, hunks: Seq<Seq<usize>>, k: int) -> Seq<usize>
    decreases k,
{
    if k <= 0 {
        a
    } else {
        push_ids(push_hunks(a, hunks, k - 1), hunks[k - 1], hunks[k - 1].len() as int)
    }
}

/// Pushing the first `n` ids, each unless already there.
pub open spec fn push_ids(a: Seq<usize>, ids: Seq<usize>, n: int) -> Seq<usize>
    decreases n,
{
    if n <= 0 {
        a
    } else {
        push_new(push_ids(a, ids, n - 1), ids[n - 1])
    }
}

/// `goto_hunk(h)`: from the start, every change of hunks `0..=h` is applied
/// (a step each), hunk `h` previewed with the cursor on its first change.
/// Out of range: nothing happens.
pub open spec fn goto_hunk_spec(d: DiffView, s: StepView, lazy: bool, h: usize) -> StepView {
    if h >= d.hunks.len() {
        s
    } else {
        let s0 = goto_spec(d, s, lazy, 0);
        let lists = hunk_id_lists(d.hunks);
        StepView {
            applied: push_hunks(s0.applied, lists, h + 1),
            current_step: (s0.current_step + lists.take(h + 1).flatten().len()) as usize,
            current_hunk: h,
            animating_hunk: Some(h),
            active_change: first_id(d.hunks[h as int].change_ids),
            step_direction: StepDirection::Forward,
            last_nav_was_hunk: true,
            hunk_preview_mode: true,
            preview_from_backward: false,
            ..s0
        }
    }
}

/// `goto_hunk_start`: inside a hunk (its first change applied), the changes
/// after the first are un-applied and the cursor goes to the first; no
/// move when nothing changes and the cursor is already there.
pub open spec fn goto_hunk_start_spec(d: DiffView, s: StepView) -> (StepView, bool) {
    if d.hunks.len() == 0 || s.current_hunk >= d.hunks.len() {
        (s, false)
    } else {
        let h = s.current_hunk as int;
        let ids = d.hunks[h].change_ids;
        if ids.len() == 0 || !s.applied.contains(ids[0]) {
            (s, false)
        } else {
            let first = ids[0];
            let (s1, removed) = bulk_spec(d, s, h, Some(first));
            let s2 = if removed > 0 {
                StepView { current_step: s1.applied.len() as usize, ..s1 }
            } else {
                s1
            };
            if removed == 0 && s2.active_change == Some(first) {
                (s2, false)
            } else {
                (
                    StepView {
                        active_change: Some(first),
                        hunk_preview_mode: false,
                        preview_from_backward: false,
                        last_nav_was_hunk: true,
                        ..s2
                    },
                    true,
                )
            }
        }
    }
}

/// `goto_hunk_end`: inside a hunk (one of its changes applied), the rest is
/// applied and the cursor goes to its last change; no move (but the
/// changes stay applied) when the cursor is already there.
pub open spec fn goto_hunk_end_spec(d: DiffView, s: StepView) -> (StepView, bool) {
    if d.hunks.len() == 0 || s.current_hunk >= d.hunks.len() {
        (s, false)
    } else {
        let ids = d.hunks[s.current_hunk as int].change_ids;
        if !any_applied(s.applied, ids) {
            (s, false)
        } else {
            let s1 = apply_hunk(s, ids);
            if s1.active_change == last_id(ids) {
                (s1, false)
            } else {
                (
                    StepView {
                        active_change: last_id(ids),
                        hunk_preview_mode: false,
                        preview_from_backward: false,
                        last_nav_was_hunk: true,
                        ..s1
                    },
                    true,
                )
            }
        }
    }
}

/// A distinct sequence of significant ids is no longer than the
/// significant ids.
pub proof fn lemma_distinct_sub_len(a: Seq<usize>, sig: Seq<usize>)
    requires
        distinct(a),
        forall|k: int| 0 <= k < a.len() ==> sig.contains(#[trigger] a[k]),
    ensures
        a.len() <= sig.len(),
{
    assert(a.no_duplicates()) by {
        assert forall|i: int, j: int| 0 <= i < a.len() && 0 <= j < a.len() && i != j implies a[i] != a[j] by {
            if i < j {
                assert(a[i] != a[j]);
            } else {
                assert(a[j] != a[i]);
            }
        }
    }
    a.unique_seq_to_set();
    sig.lemma_cardinality_of_set();
    assert(a.to_set().subset_of(sig.to_set())) by {
        assert forall|x: usize| a.to_set().contains(x) implies sig.to_set().contains(x) by {
            let k = choose|k: int| 0 <= k < a.len() && a[k] == x;
            assert(sig.contains(a[k]));
        }
    }
    vstd::set_lib::lemma_len_subset(a.to_set(), sig.to_set());
}

proof fn lemma_push_new_ok(sig: Seq<usize>, a: Seq<usize>, id: usize)
    requires
        distinct(a),
        forall|k: int| 0 <= k < a.len() ==> sig.contains(#[trigger] a[k]),
        sig.contains(id),
    ensures
        distinct(push_new(a, id)),
        forall|k: int| 0 <= k < push_new(a, id).len() ==> sig.contains(#[trigger] push_new(a, id)[k]),
{
    if !a.contains(id) {
        let b = a.push(id);
        assert forall|i: int, j: int| 0 <= i < j < b.len() implies b[i] != b[j] by {
            if j == a.len() {
                assert(a[i] == b[i]);
            }
        }
        assert forall|k: int| 0 <= k < b.len() implies sig.contains(#[trigger] b[k]) by {
            if k < a.len() {
                assert(a[k] == b[k]);
            }
        }
    }
}

impl DiffNavigator {
    /// Applies the not yet applied changes of a hunk, a step each; returns
    /// whether one was applied.
    fn apply_hunk_changes(&mut self, hunk_idx: usize) -> (moved: bool)
        requires
            old(self).inv_core(),
            old(self)@.state.current_step <= old(self)@.state.applied.len() + old(self)@.diff.sig.len(),
            hunk_idx < old(self)@.diff.hunks.len(),
        ensures
            final(self).inv_core(),
            final(self)@.state.current_step <= final(self)@.state.applied.len() + final(self)@.diff.sig.len(),
            final(self)@ == (NavView {
                state: apply_hunk(old(self)@.state, old(self)@.diff.hunks[hunk_idx as int].change_ids),
                ..old(self)@
            }),
            moved == (final(self)@.state.current_step > old(self)@.state.current_step),
    {
        let ghost d = self.diff@;
        let ghost s = self.state@;
        let ghost v = self@;
        let mut moved = false;
        let mut j: usize = 0;
        let n = self.diff.hunks[hunk_idx].change_ids.len();
        let ghost ids = d.hunks[hunk_idx as int].change_ids;
        while j < n
            invariant
                d == self.diff@,
                self.inv_core(),
                hunk_idx < d.hunks.len(),
                ids == d.hunks[hunk_idx as int].change_ids,
                n == ids.len(),
                j <= n,
                self@ == (NavView {
                    state: StepView {
                        applied: apply_new(s.applied, s.current_step as int, ids, j as int).0,
                        current_step: apply_new(s.applied, s.current_step as int, ids, j as int).1 as usize,
                        ..s
                    },
                    ..v
                }),
                v.diff == d,
                v.state == s,
                self@.state.current_step >= s.current_step,
                self@.state.applied == apply_new(s.applied, s.current_step as int, ids, j as int).0,
                self@.state.current_step == apply_new(s.applied, s.current_step as int, ids, j as int).1,
                self@.state.current_step - self@.state.applied.len() == s.current_step - s.applied.len(),
                s.current_step <= s.applied.len() + d.sig.len(),
                moved == (self@.state.current_step > s.current_step),
            decreases n - j,
        {
            let change_id = self.diff.hunks[hunk_idx].change_ids[j];
            proof {
                crate::diff::lemma_hunk_ids_in_sig(d, hunk_idx as int, j as int);
                lemma_distinct_sub_len(self@.state.applied, d.sig);
            }
            if !self.state.is_applied(change_id) {
                proof {
                    lemma_push_new_ok(d.sig, self@.state.applied, change_id);
                }
                self.state.push_applied(change_id);
                self.state.current_step = self.state.current_step + 1;
                moved = true;
            }
            j = j + 1;
        }
        moved
    }

    /// Puts the hunk cursor on the hunk of the last applied change (see
    /// `update_spec`).
    pub fn update_current_hunk(&mut self)
        requires
            old(self).inv(),
        ensures
            final(self).inv(),
            final(self)@ == (NavView { state: update_spec(old(self)@.diff, old(self)@.state), ..old(self)@ }),
    {
        if self.diff.hunks.len() == 0 {
            return;
        }
        let ghost hv = self.diff@.hunks;
        let ghost v = self@;
        let n = self.state.applied_changes.len();
        if n > 0 {
            let last = self.state.applied_changes[n - 1];
            let mut i: usize = 0;
            while i < self.diff.hunks.len()
                invariant
                    hv == self.diff@.hunks,
                    self@ == v,
                    v == old(self)@,
                    self.inv(),
                    hv.len() > 0,
                    last == self@.state.applied.last(),
                    self@.state.applied.len() > 0,
                    i <= hv.len(),
                    forall|j: int| 0 <= j < i ==> !hv[j].change_ids.contains(last),
                decreases hv.len() - i,
            {
                if vec_contains(&self.diff.hunks[i].change_ids, last) {
                    let ghost w = choose|k: int|
                        0 <= k < hv.len() && hv[k].change_ids.contains(last) && forall|j: int|
                            0 <= j < k ==> !hv[j].change_ids.contains(last);
                    assert(0 <= i < hv.len() && hv[i as int].change_ids.contains(last));
                    assert(w == i) by {
                        if w < i {
                            assert(!hv[w].change_ids.contains(last));
                        } else if w > i {
                            assert(!hv[i as int].change_ids.contains(last));
                        }
                    }
                    self.state.current_hunk = i;
                    return;
                }
                i = i + 1;
            }
        }
        self.state.current_hunk = 0;
    }

    /// Jumps to a step (see `goto_spec`).
    pub fn goto(&mut self, step: usize)
        requires
            old(self).inv(),
        ensures
            final(self).inv(),
            final(self)@ == (NavView { state: goto_spec(old(self)@.diff, old(self)@.state, old(self)@.lazy_maps, step), ..old(self)@ }),
    {
        let ghost d = self.diff@;
        let ghost s = self.state@;
        let target_step = if step < self.state.total_steps - 1 {
            step
        } else {
            self.state.total_steps - 1
        };
        self.state.current_step = 0;
        self.state.clear_applied();
        self.state.active_change = None;
        self.state.cursor_change = None;
        self.state.animating_hunk = None;
        self.state.current_hunk = 0;
        self.state.last_nav_was_hunk = false;
        self.state.hunk_preview_mode = false;
        self.state.preview_from_backward = false;
        proof {
            assert(distinct(d.sig)) by {
                assert forall|i: int, j: int| 0 <= i < j < d.sig.len() implies d.sig[i] != d.sig[j] by {
                    assert(d.sig[i] < d.sig[j]);
                }
            }
        }
        if self.lazy_maps {
            if target_step > 0 {
                let end = if target_step < self.diff.significant_changes.len() {
                    target_step
                } else {
                    self.diff.significant_changes.len()
                };
                let mut applied: Vec<usize> = Vec::new();
                let mut k: usize = 0;
                while k < end
                    invariant
                        d.sig == self.diff@.sig,
                        end <= d.sig.len(),
                        k <= end,
                        applied@ == d.sig.take(k as int),
                    decreases end - k,
                {
                    applied.push(self.diff.significant_changes[k]);
                    assert(applied@ =~= d.sig.take(k + 1));
                    k = k + 1;
                }
                self.state.applied_changes = applied;
                self.state.rebuild_applied_set();
                self.state.current_step = end;
                self.state.active_change = Some(self.state.applied_changes[end - 1]);
                self.state.step_direction = StepDirection::Forward;
                proof {
                    let a = self@.state.applied;
                    assert forall|i: int, j: int| 0 <= i < j < a.len() implies a[i] != a[j] by {
                        assert(a[i] == d.sig[i] && a[j] == d.sig[j]);
                    }
                    assert forall|i: int| 0 <= i < a.len() implies d.sig.contains(#[trigger] a[i]) by {
                        assert(a[i] == d.sig[i]);
                    }
                }
            } else {
                self.state.step_direction = StepDirection::Unset;
                assert(d.sig.take(0) =~= Seq::<usize>::empty());
            }
        } else {
            assert(d.sig.take(0) =~= Seq::<usize>::empty());
            let ghost s0 = self@.state;
            let mut k: usize = 0;
            while k < target_step
                invariant
                    d == self.diff@,
                    self.inv(),
                    !self.lazy_maps,
                    self@.old_content == old(self)@.old_content,
                    self@.new_content == old(self)@.new_content,
                    self@.lazy_maps == old(self)@.lazy_maps,
                    d == old(self)@.diff,
                    s == old(self)@.state,
                    distinct(d.sig),
                    target_step <= d.sig.len(),
                    k <= target_step,
                    self@.state == (StepView {
                        current_step: k,
                        applied: d.sig.take(k as int),
                        active_change: if k > 0 {
                            Some(d.sig[k - 1])
                        } else {
                            None
                        },
                        step_direction: if k > 0 {
                            StepDirection::Forward
                        } else {
                            s.step_direction
                        },
                        current_hunk: self@.state.current_hunk,
                        ..s0
                    }),
                    s0.last_nav_was_hunk == false,
                    d.hunks.len() == 0 ==> self@.state.current_hunk == 0,
                    s0.hunk_preview_mode == false,
                    s0.animating_hunk is None,
                    s0.total_steps == d.sig.len() + 1,
                decreases target_step - k,
            {
                proof {
                    assert(!d.sig.take(k as int).contains(d.sig[k as int])) by {
                        if d.sig.take(k as int).contains(d.sig[k as int]) {
                            let w = choose|w: int| 0 <= w < k && d.sig.take(k as int)[w] == d.sig[k as int];
                            assert(d.sig[w] != d.sig[k as int]);
                        }
                    }
                    assert(d.sig.take(k as int).push(d.sig[k as int]) =~= d.sig.take(k + 1));
                }
                self.next();
                k = k + 1;
            }
        }
        self.update_current_hunk();
    }

    /// Jumps to step 0.
    pub fn goto_start(&mut self)
        requires
            old(self).inv(),
        ensures
            final(self).inv(),
            final(self)@ == (NavView { state: goto_spec(old(self)@.diff, old(self)@.state, old(self)@.lazy_maps, 0), ..old(self)@ }),
    {
        self.goto(0);
    }

    /// Jumps to the last step.
    pub fn goto_end(&mut self)
        requires
            old(self).inv(),
        ensures
            final(self).inv(),
            final(self)@ == (NavView {
                state: goto_spec(old(self)@.diff, old(self)@.state, old(self)@.lazy_maps, (old(self)@.state.total_steps - 1) as usize),
                ..old(self)@
            }),
    {
        let last = self.state.total_steps - 1;
        self.goto(last);
    }
}

/// A prefix of the hunks' id lists flattens to no more ids than all of
/// them; one more hunk adds its ids.
proof fn lemma_prefix_flatten(lists: Seq<Seq<usize>>, k: int)
    requires
        0 <= k < lists.len(),
    ensures
        lists.take(k + 1).flatten() == lists.take(k).flatten() + lists[k],
        lists.take(k + 1).flatten().len() <= lists.flatten().len(),
{
    assert(lists.take(k + 1) =~= lists.take(k).push(lists[k]));
    lists.take(k).lemma_flatten_push(lists[k]);
    assert(lists.take(k + 1) + lists.skip(k + 1) =~= lists);
    vstd::seq_lib::lemma_flatten_concat(lists.take(k + 1), lists.skip(k + 1));
}

impl DiffNavigator {
    /// Whether a change of the hunk is applied.
    fn hunk_has_applied(&self, hunk_idx: usize) -> (b: bool)
        requires
            self.inv_core(),
            hunk_idx < self@.diff.hunks.len(),
        ensures
            b == any_applied(self@.state.applied, self@.diff.hunks[hunk_idx as int].change_ids),
    {
        let ghost ids = self@.diff.hunks[hunk_idx as int].change_ids;
        let n = self.diff.hunks[hunk_idx].change_ids.len();
        let mut j: usize = 0;
        while j < n
            invariant
                self.inv_core(),
                hunk_idx < self@.diff.hunks.len(),
                ids == self@.diff.hunks[hunk_idx as int].change_ids,
                n == ids.len(),
                j <= n,
                forall|i: int| 0 <= i < j ==> !self@.state.applied.contains(#[trigger] ids[i]),
            decreases n - j,
        {
            if self.state.is_applied(self.diff.hunks[hunk_idx].change_ids[j]) {
                assert(self@.state.applied.contains(ids[j as int]));
                return true;
            }
            j = j + 1;
        }
        false
    }

    /// The first change id of a hunk, if any.
    fn hunk_first(&self, hunk_idx: usize) -> (r: Option<usize>)
        requires
            hunk_idx < self@.diff.hunks.len(),
        ensures
            r == first_id(self@.diff.hunks[hunk_idx as int].change_ids),
    {
        let ids = &self.diff.hunks[hunk_idx].change_ids;
        if ids.len() > 0 {
            Some(ids[0])
        } else {
            None
        }
    }

    /// The last change id of a hunk, if any.
    fn hunk_last(&self, hunk_idx: usize) -> (r: Option<usize>)
        requires
            hunk_idx < self@.diff.hunks.len(),
        ensures
            r == last_id(self@.diff.hunks[hunk_idx as int].change_ids),
    {
        let ids = &self.diff.hunks[hunk_idx].change_ids;
        if ids.len() > 0 {
            Some(ids[ids.len() - 1])
        } else {
            None
        }
    }

    /// Moves to the next hunk, previewing it whole (see `next_hunk_spec`);
    /// returns whether it moved.
    pub fn next_hunk(&mut self) -> (moved: bool)
        requires
            old(self).inv(),
        ensures
            final(self).inv(),
            final(self)@ == (NavView { state: next_hunk_spec(old(self)@.diff, old(self)@.state).0, ..old(self)@ }),
            moved == next_hunk_spec(old(self)@.diff, old(self)@.state).1,
    {
        if self.diff.hunks.len() == 0 {
            return false;
        }
        let was_in_preview = self.state.hunk_preview_mode;
        self.state.step_direction = StepDirection::Forward;
        self.state.hunk_preview_mode = false;
        self.state.preview_from_backward = false;
        let h = self.state.current_hunk;
        let has_applied_in_current = self.hunk_has_applied(h);
        if !has_applied_in_current {
            let moved = self.apply_hunk_changes(h);
            self.state.animating_hunk = Some(h);
            self.state.active_change = self.hunk_first(h);
            if moved {
                self.state.last_nav_was_hunk = true;
                self.state.hunk_preview_mode = true;
                self.state.preview_from_backward = false;
            }
            return moved;
        }
        let completed_any = self.apply_hunk_changes(h);
        let next_hunk_idx = h + 1;
        if next_hunk_idx >= self.diff.hunks.len() {
            if completed_any {
                self.state.animating_hunk = Some(h);
                self.state.active_change = self.hunk_last(h);
                self.state.last_nav_was_hunk = true;
                return true;
            }
            self.state.hunk_preview_mode = was_in_preview;
            return false;
        }
        let moved = self.apply_hunk_changes(next_hunk_idx);
        self.state.animating_hunk = Some(next_hunk_idx);
        self.state.active_change = self.hunk_first(next_hunk_idx);
        self.state.current_hunk = next_hunk_idx;
        if moved {
            self.state.last_nav_was_hunk = true;
            self.state.hunk_preview_mode = true;
            self.state.preview_from_backward = false;
        }
        moved
    }

    /// Moves to the previous hunk, un-applying changes (see
    /// `prev_hunk_spec`); returns whether it moved.
    #[verifier::rlimit(60)]
    pub fn prev_hunk(&mut self) -> (moved: bool)
        requires
            old(self).inv(),
        ensures
            final(self).inv(),
            final(self)@ == (NavView { state: prev_hunk_spec(old(self)@.diff, old(self)@.state).0, ..old(self)@ }),
            moved == prev_hunk_spec(old(self)@.diff, old(self)@.state).1,
        decreases old(self)@.state.current_hunk,
    {
        if self.diff.hunks.len() == 0 {
            return false;
        }
        let was_in_preview = self.state.hunk_preview_mode;
        self.state.hunk_preview_mode = false;
        self.state.preview_from_backward = false;
        if self.state.current_hunk == 0 {
            if !self.hunk_has_applied(0) {
                self.state.hunk_preview_mode = was_in_preview;
                return false;
            }
        }
        self.state.step_direction = StepDirection::Backward;
        let current_hunk_idx = self.state.current_hunk;
        let mut moved = false;
        let ghost sb = self@.state;
        let removed = self.remove_applied_bulk_for_hunk(current_hunk_idx, None);
        proof {
            lemma_distinct_sub_len(sb.applied, self@.diff.sig);
            lemma_bulk(self@.diff, sb, current_hunk_idx as int, None);
        }
        if removed > 0 {
            self.state.current_step = self.state.applied_changes.len();
            moved = true;
        }
        self.state.animating_hunk = Some(current_hunk_idx);
        self.state.active_change = self.hunk_first(current_hunk_idx);
        if moved {
            let still_has_applied = self.hunk_has_applied(current_hunk_idx);
            if !still_has_applied && self.state.current_hunk > 0 {
                self.state.current_hunk = self.state.current_hunk - 1;
            }
        } else if self.state.current_hunk > 0 {
            self.state.current_hunk = self.state.current_hunk - 1;
            return self.prev_hunk();
        }
        if moved {
            let entered_prev_hunk = self.state.current_hunk != current_hunk_idx;
            if entered_prev_hunk {
                self.state.hunk_preview_mode = true;
                self.state.preview_from_backward = true;
                self.state.last_nav_was_hunk = true;
            } else {
                self.state.last_nav_was_hunk = !self.state.is_at_start();
            }
        }
        moved
    }

    /// Jumps to a hunk, previewing it whole (see `goto_hunk_spec`).
    pub fn goto_hunk(&mut self, hunk_idx: usize)
        requires
            old(self).inv(),
        ensures
            final(self).inv(),
            final(self)@ == (NavView { state: goto_hunk_spec(old(self)@.diff, old(self)@.state, old(self)@.lazy_maps, hunk_idx), ..old(self)@ }),
    {
        if hunk_idx >= self.diff.hunks.len() {
            return;
        }
        self.goto_start();
        let ghost d = self.diff@;
        let ghost s0 = self@.state;
        let ghost v = self@;
        let ghost lists = hunk_id_lists(d.hunks);
        assert(s0.applied.len() == 0 && s0.current_step == 0);
        assert(lists.take(0) =~= Seq::<Seq<usize>>::empty());
        let mut idx: usize = 0;
        while idx <= hunk_idx
            invariant
                d == self.diff@,
                lists == hunk_id_lists(d.hunks),
                hunk_idx < d.hunks.len(),
                self.inv_core(),
                idx <= hunk_idx + 1,
                self@ == (NavView {
                    state: StepView {
                        applied: push_hunks(s0.applied, lists, idx as int),
                        current_step: lists.take(idx as int).flatten().len() as usize,
                        ..s0
                    },
                    ..v
                }),
                self@.state.current_step == lists.take(idx as int).flatten().len(),
                lists.take(idx as int).flatten().len() <= d.sig.len(),
            decreases hunk_idx + 1 - idx,
        {
            let n = self.diff.hunks[idx].change_ids.len();
            proof {
                lemma_prefix_flatten(lists, idx as int);
                assert(lists[idx as int] == d.hunks[idx as int].change_ids);
                assert(lists.flatten() == d.sig);
            }
            let ghost before = self@.state.applied;
            let ghost base = lists.take(idx as int).flatten().len();
            let mut j: usize = 0;
            while j < n
                invariant
                    d == self.diff@,
                    lists == hunk_id_lists(d.hunks),
                    idx <= hunk_idx < d.hunks.len(),
                    n == lists[idx as int].len(),
                    lists[idx as int] == d.hunks[idx as int].change_ids,
                    self.inv_core(),
                    j <= n,
                    base + n <= d.sig.len(),
                    self@ == (NavView {
                        state: StepView {
                            applied: push_ids(before, lists[idx as int], j as int),
                            current_step: (base + j) as usize,
                            ..s0
                        },
                        ..v
                    }),
                decreases n - j,
            {
                let change_id = self.diff.hunks[idx].change_ids[j];
                proof {
                    crate::diff::lemma_hunk_ids_in_sig(d, idx as int, j as int);
                    lemma_push_new_ok(d.sig, self@.state.applied, change_id);
                }
                self.state.push_applied(change_id);
                self.state.current_step = self.state.current_step + 1;
                j = j + 1;
            }
            idx = idx + 1;
        }
        proof {
            lemma_distinct_sub_len(self@.state.applied, d.sig);
        }
        self.state.current_hunk = hunk_idx;
        self.state.animating_hunk = Some(hunk_idx);
        self.state.active_change = self.hunk_first(hunk_idx);
        self.state.step_direction = StepDirection::Forward;
        self.state.last_nav_was_hunk = true;
        self.state.hunk_preview_mode = true;
        self.state.preview_from_backward = false;
    }

    /// Jumps to the first change of the current hunk (see
    /// `goto_hunk_start_spec`); returns whether it moved.
    pub fn goto_hunk_start(&mut self) -> (moved: bool)
        requires
            old(self).inv(),
        ensures
            final(self).inv(),
            final(self)@ == (NavView { state: goto_hunk_start_spec(old(self)@.diff, old(self)@.state).0, ..old(self)@ }),
            moved == goto_hunk_start_spec(old(self)@.diff, old(self)@.state).1,
    {
        if self.diff.hunks.len() == 0 {
            return false;
        }
        let current_hunk_idx = self.state.current_hunk;
        let first_change = match self.hunk_first(current_hunk_idx) {
            Some(id) => id,
            None => {
                return false;
            },
        };
        if !self.state.is_applied(first_change) {
            return false;
        }
        let ghost sb = self@.state;
        let removed = self.remove_applied_bulk_for_hunk(current_hunk_idx, Some(first_change));
        proof {
            lemma_distinct_sub_len(sb.applied, self@.diff.sig);
            lemma_bulk(self@.diff, sb, current_hunk_idx as int, Some(first_change));
        }
        let unapplied_any = removed > 0;
        if removed > 0 {
            self.state.current_step = self.state.applied_changes.len();
        }
        let on_first = match self.state.active_change {
            Some(id) => id == first_change,
            None => false,
        };
        if !unapplied_any && on_first {
            return false;
        }
        self.state.active_change = Some(first_change);
        self.state.hunk_preview_mode = false;
        self.state.preview_from_backward = false;
        self.state.last_nav_was_hunk = true;
        true
    }

    /// Jumps to the last change of the current hunk, applying the rest of
    /// it (see `goto_hunk_end_spec`); returns whether it moved.
    pub fn goto_hunk_end(&mut self) -> (moved: bool)
        requires
            old(self).inv(),
        ensures
            final(self).inv(),
            final(self)@ == (NavView { state: goto_hunk_end_spec(old(self)@.diff, old(self)@.state).0, ..old(self)@ }),
            moved == goto_hunk_end_spec(old(self)@.diff, old(self)@.state).1,
    {
        if self.diff.hunks.len() == 0 {
            return false;
        }
        let h = self.state.current_hunk;
        if !self.hunk_has_applied(h) {
            return false;
        }
        let last_change = self.hunk_last(h);
        self.apply_hunk_changes(h);
        let same = match (self.state.active_change, last_change) {
            (Some(a), Some(b)) => a == b,
            (None, None) => true,
            _ => false,
        };
        if same {
            return false;
        }
        self.state.active_change = last_change;
        self.state.hunk_preview_mode = false;
        self.state.preview_from_backward = false;
        self.state.last_nav_was_hunk = true;
        true
    }
}

/// The state with the non-animated cursor on a hunk (clamped to the last
/// hunk; the hunk cursor is left alone without hunks) and a change.
pub open spec fn cursor_hunk_spec(s: StepView, hunk_idx: usize, change_id: Option<usize>) -> StepView {
    StepView {
        current_hunk: if s.total_hunks > 0 {
            if hunk_idx < s.total_hunks - 1 {
                hunk_idx
            } else {
                (s.total_hunks - 1) as usize
            }
        } else {
            s.current_hunk
        },
        cursor_change: change_id,
        ..s
    }
}

/// The state with the hunk scope (the mark of the last move being a hunk
/// move) set as given.
pub open spec fn hunk_scope_spec(s: StepView, enabled: bool) -> StepView {
    StepView { last_nav_was_hunk: enabled, ..s }
}

impl DiffNavigator {
    /// Puts the non-animated cursor on a hunk and a change (see
    /// `cursor_hunk_spec`).
    pub fn set_cursor_hunk(&mut self, hunk_idx: usize, change_id: Option<usize>)
        requires
            old(self).inv(),
        ensures
            final(self).inv(),
            final(self)@ == (NavView { state: cursor_hunk_spec(old(self)@.state, hunk_idx, change_id), ..old(self)@ }),
    {
        if self.state.total_hunks > 0 {
            let last = self.state.total_hunks - 1;
            self.state.current_hunk = if hunk_idx < last {
                hunk_idx
            } else {
                last
            };
        }
        self.state.cursor_change = change_id;
    }

    /// Overrides the cursor without changing the applied steps: no active
    /// change, no direction, no animated hunk.
    pub fn set_cursor_override(&mut self, change_id: Option<usize>)
        requires
            old(self).inv(),
        ensures
            final(self).inv(),
            final(self)@ == (NavView {
                state: StepView {
                    cursor_change: change_id,
                    active_change: None,
                    step_direction: StepDirection::Unset,
                    animating_hunk: None,
                    ..old(self)@.state
                },
                ..old(self)@
            }),
    {
        self.state.cursor_change = change_id;
        self.state.active_change = None;
        self.state.step_direction = StepDirection::Unset;
        self.state.animating_hunk = None;
    }

    /// Sets the cursor change, the hunk cursor left alone.
    pub fn set_cursor_change(&mut self, change_id: Option<usize>)
        requires
            old(self).inv(),
        ensures
            final(self).inv(),
            final(self)@ == (NavView { state: StepView { cursor_change: change_id, ..old(self)@.state }, ..old(self)@ }),
    {
        self.state.cursor_change = change_id;
    }

    /// Clears the cursor change.
    pub fn clear_cursor_change(&mut self)
        requires
            old(self).inv(),
        ensures
            final(self).inv(),
            final(self)@ == (NavView { state: StepView { cursor_change: None, ..old(self)@.state }, ..old(self)@ }),
    {
        self.state.cursor_change = None;
    }

    /// Shows or hides the hunk extent markers.
    pub fn set_hunk_scope(&mut self, enabled: bool)
        requires
            old(self).inv(),
        ensures
            final(self).inv(),
            final(self)@ == (NavView { state: hunk_scope_spec(old(self)@.state, enabled), ..old(self)@ }),
    {
        self.state.last_nav_was_hunk = enabled;
    }

    /// Whether the hunk extent markers show while stepping.
    pub fn set_show_hunk_extent_while_stepping(&mut self, enabled: bool)
        requires
            old(self).inv(),
        ensures
            final(self).inv(),
            final(self)@ == (NavView {
                state: StepView { show_hunk_extent_while_stepping: enabled, ..old(self)@.state },
                ..old(self)@
            }),
    {
        self.state.show_hunk_extent_while_stepping = enabled;
    }

    /// Replaces the step state (to restore a saved one). A state made for
    /// other numbers of steps or hunks is refused (`false`, nothing
    /// changes).
    pub fn set_state(&mut self, state: StepState) -> (ok: bool)
        requires
            old(self).inv(),
            state@.total_steps == old(self)@.state.total_steps && state@.total_hunks == old(self)@.state.total_hunks
                ==> super::state_ok(old(self)@.diff, state@),
        ensures
            final(self).inv(),
            ok == (state@.total_steps == old(self)@.state.total_steps && state@.total_hunks == old(self)@.state.total_hunks),
            ok ==> final(self)@ == (NavView { state: state@, ..old(self)@ }),
            !ok ==> final(self)@ == old(self)@,
    {
        if state.total_steps != self.state.total_steps || state.total_hunks != self.state.total_hunks {
            return false;
        }
        self.state = state;
        self.state.rebuild_applied_set();
        true
    }

    /// The step state.
    pub fn state(&self) -> (r: &StepState)
        requires
            self.inv(),
        ensures
            r@ == self@.state,
            r.set_mirrors(),
    {
        &self.state
    }

    /// The diff being navigated.
    pub fn diff(&self) -> (r: &DiffResult)
        ensures
            r@ == self@.diff,
    {
        &self.diff
    }

    /// The hunk under the hunk cursor.
    pub fn current_hunk(&self) -> (r: Option<&Hunk>)
        ensures
            match r {
                Some(h) => self@.state.current_hunk < self@.diff.hunks.len() && h@ == self@.diff.hunks[self@.state.current_hunk as int],
                None => self@.state.current_hunk >= self@.diff.hunks.len(),
            },
    {
        if self.state.current_hunk < self.diff.hunks.len() {
            Some(&self.diff.hunks[self.state.current_hunk])
        } else {
            None
        }
    }

    /// All hunks.
    pub fn hunks(&self) -> (r: &[Hunk])
        ensures
            crate::diff::hunk_views(r@) == self@.diff.hunks,
    {
        self.diff.hunks.as_slice()
    }

    /// The old text.
    pub fn old_content(&self) -> (r: &str)
        ensures
            r@ == self@.old_content,
    {
        self.old_content.as_str()
    }

    /// The new text.
    pub fn new_content(&self) -> (r: &str)
        ensures
            r@ == self@.new_content,
    {
        self.new_content.as_str()
    }
}

} // verus!
