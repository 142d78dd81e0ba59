//! What stepping keeps: the applied changes are always the significant
//! changes before the current step, in order, and the hunk cursor sits on
//! the hunk the step is in.

use super::jump::{
    any_applied, cursor_hunk_spec, hunk_scope_spec, apply_new, goto_hunk_end_spec, goto_hunk_spec, goto_hunk_start_spec, goto_spec, next_hunk_spec,
    prev_hunk_spec, push_hunks, push_ids, update_spec,
};
use super::nav::{bulk_spec, cleared_spec, hunk_id_of_change, min_applied_step, next_spec, prev_spec, step_backward, step_forward};
use super::table::{last_pos, max_change_id, max_id_upto, step_index_spec};
use super::{distinct, nav_diff_ok, push_new, state_ok, StepDirection, StepView};
use crate::change::ChangeView;
use crate::controls::{NoStepEntry, NoStepState};
use crate::mode_memory::{law_whole_view_cursor_comes_back, mem_wf, toggle_spec, MemView, ToggleOutcome, ViewerPos};
use crate::diff::{first_hunk_holding, hunk_id_lists, lemma_flatten_index, well_formed, DiffView};
use vstd::prelude::*;

verus! {

/// The number of significant changes in the hunks before hunk `h`: the
/// step at which hunk `h` starts.
pub open spec fn hunk_start(d: DiffView, h: int) -> int {
    hunk_id_lists(d.hunks).take(h).flatten().len() as int
}

/// A state whose steps agree with the diff: the applied changes are the
/// significant changes before the current step, in order; the hunk cursor
/// is on a hunk whose steps reach the current step; a hunk preview shows
/// its whole hunk.
pub open spec fn steps_consistent(d: DiffView, s: StepView) -> bool {
    &&& s.current_step <= d.sig.len()
    &&& s.applied == d.sig.take(s.current_step as int)
    &&& d.hunks.len() > 0 ==> hunk_start(d, s.current_hunk as int) <= s.current_step <= hunk_start(
        d,
        s.current_hunk + 1,
    )
    &&& s.hunk_preview_mode ==> d.hunks.len() > 0 && s.current_step == hunk_start(
        d,
        s.current_hunk + 1,
    )
}

// ---------------------------------------------------------------------
// Positions of the hunks' changes among the steps
// ---------------------------------------------------------------------

proof fn lemma_sig_distinct(d: DiffView)
    requires
        well_formed(d),
    ensures
        distinct(d.sig),
{
    assert forall|i: int, j: int| 0 <= i < j < d.sig.len() implies d.sig[i] != d.sig[j] by {
        assert(d.sig[i] < d.sig[j]);
    }
}

proof fn lemma_start_step(d: DiffView, h: int)
    requires
        well_formed(d),
        0 <= h < d.hunks.len(),
    ensures
        hunk_start(d, h + 1) == hunk_start(d, h) + d.hunks[h].change_ids.len(),
        hunk_start(d, h + 1) <= d.sig.len(),
{
    let lists = hunk_id_lists(d.hunks);
    assert(lists[h] == d.hunks[h].change_ids);
    assert(lists.take(h + 1) =~= lists.take(h).push(lists[h]));
    lists.take(h).lemma_flatten_push(lists[h]);
    assert(lists.take(h + 1) + lists.skip(h + 1) =~= lists);
    vstd::seq_lib::lemma_flatten_concat(lists.take(h + 1), lists.skip(h + 1));
}

proof fn lemma_start_ends(d: DiffView)
    requires
        well_formed(d),
    ensures
        hunk_start(d, 0) == 0,
        hunk_start(d, d.hunks.len() as int) == d.sig.len(),
{
    let lists = hunk_id_lists(d.hunks);
    assert(lists.take(0) =~= Seq::<Seq<usize>>::empty());
    assert(lists.take(lists.len() as int) =~= lists);
}

proof fn lemma_start_mono(d: DiffView, a: int, b: int)
    requires
        well_formed(d),
        0 <= a <= b <= d.hunks.len(),
    ensures
        hunk_start(d, a) <= hunk_start(d, b),
    decreases b - a,
{
    if a < b {
        lemma_start_step(d, b - 1);
        lemma_start_mono(d, a, b - 1);
    }
}

/// The `j`-th change of hunk `h` is the significant change at step
/// `hunk_start(h) + j`.
proof fn lemma_pos(d: DiffView, h: int, j: int)
    requires
        well_formed(d),
        0 <= h < d.hunks.len(),
        0 <= j < d.hunks[h].change_ids.len(),
    ensures
        hunk_start(d, h) + j < hunk_start(d, h + 1),
        hunk_start(d, h + 1) <= d.sig.len(),
        d.sig[hunk_start(d, h) + j] == d.hunks[h].change_ids[j],
{
    let lists = hunk_id_lists(d.hunks);
    assert(lists[h] == d.hunks[h].change_ids);
    lemma_flatten_index(lists, h, j);
    lemma_start_step(d, h);
}

/// The hunk whose steps hold step `p`.
proof fn lemma_locate(d: DiffView, p: int, k: int) -> (h: int)
    requires
        well_formed(d),
        0 <= k < d.hunks.len(),
        hunk_start(d, k) <= p < d.sig.len(),
    ensures
        k <= h < d.hunks.len(),
        hunk_start(d, h) <= p < hunk_start(d, h + 1),
    decreases d.hunks.len() - k,
{
    lemma_start_step(d, k);
    lemma_start_ends(d);
    if p < hunk_start(d, k + 1) {
        k
    } else {
        if k + 1 >= d.hunks.len() {
            assert(hunk_start(d, k + 1) == d.sig.len());
        }
        lemma_locate(d, p, k + 1)
    }
}

/// A change id sits in one hunk at one place.
proof fn lemma_unique(d: DiffView, h: int, j: int, h2: int, j2: int)
    requires
        well_formed(d),
        0 <= h < d.hunks.len(),
        0 <= j < d.hunks[h].change_ids.len(),
        0 <= h2 < d.hunks.len(),
        0 <= j2 < d.hunks[h2].change_ids.len(),
        d.hunks[h].change_ids[j] == d.hunks[h2].change_ids[j2],
    ensures
        h == h2,
        j == j2,
{
    lemma_sig_distinct(d);
    lemma_pos(d, h, j);
    lemma_pos(d, h2, j2);
    let p = hunk_start(d, h) + j;
    let p2 = hunk_start(d, h2) + j2;
    assert(p == p2) by {
        if p < p2 {
            assert(d.sig[p] != d.sig[p2]);
        } else if p2 < p {
            assert(d.sig[p2] != d.sig[p]);
        }
    }
    if h < h2 {
        lemma_start_mono(d, h + 1, h2);
    } else if h2 < h {
        lemma_start_mono(d, h2 + 1, h);
    }
}

/// The hunk that holds the significant change at step `p` is the hunk
/// whose steps hold `p`.
proof fn lemma_hunk_of_step(d: DiffView, p: int) -> (h: int)
    requires
        well_formed(d),
        0 <= p < d.sig.len(),
    ensures
        0 <= h < d.hunks.len(),
        hunk_start(d, h) <= p < hunk_start(d, h + 1),
        first_hunk_holding(d.hunks, d.sig[p]) == Some(h),
        d.hunks[h].id == h,
{
    lemma_start_ends(d);
    if d.hunks.len() == 0 {
        assert(false);
    }
    let h = lemma_locate(d, p, 0);
    let j = p - hunk_start(d, h);
    lemma_start_step(d, h);
    lemma_pos(d, h, j);
    let x = d.sig[p];
    assert(d.hunks[h].change_ids[j] == x);
    assert(d.hunks[h].change_ids.contains(x));
    assert forall|i: int| 0 <= i < d.hunks.len() && d.hunks[i].change_ids.contains(x) implies i == h by {
        let j2 = choose|j2: int| 0 <= j2 < d.hunks[i].change_ids.len() && d.hunks[i].change_ids[j2] == x;
        lemma_unique(d, h, j, i, j2);
    }
    let hs = d.hunks;
    assert(0 <= h < hs.len() && hs[h].change_ids.contains(x) && forall|i: int| 0 <= i < h ==> !hs[i].change_ids.contains(x));
    let w = choose|i: int| 0 <= i < hs.len() && hs[i].change_ids.contains(x) && forall|k: int| 0 <= k < i ==> !hs[k].change_ids.contains(x);
    assert(w == h);
    h
}

/// A significant change is applied exactly when its step is before the
/// current step.
proof fn lemma_applied_iff(d: DiffView, cs: int, p: int)
    requires
        well_formed(d),
        0 <= cs <= d.sig.len(),
        0 <= p < d.sig.len(),
    ensures
        d.sig.take(cs).contains(d.sig[p]) <==> p < cs,
{
    lemma_sig_distinct(d);
    if p < cs {
        assert(d.sig.take(cs)[p] == d.sig[p]);
    }
    if d.sig.take(cs).contains(d.sig[p]) {
        let k = choose|k: int| 0 <= k < cs && d.sig.take(cs)[k] == d.sig[p];
        assert(d.sig[k] == d.sig[p]);
        if k != p {
            if k < p {
                assert(d.sig[k] != d.sig[p]);
            } else {
                assert(d.sig[p] != d.sig[k]);
            }
        }
    }
}

proof fn lemma_max_id_ge(cs: Seq<ChangeView>, n: int, i: int)
    requires
        0 <= i < n <= cs.len(),
    ensures
        cs[i].id <= max_id_upto(cs, n),
    decreases n,
{
    if i < n - 1 {
        lemma_max_id_ge(cs, n - 1, i);
    }
}

proof fn lemma_last_pos_distinct(s: Seq<usize>, p: int, n: int)
    requires
        distinct(s),
        0 <= p < n <= s.len(),
        n <= usize::MAX,
    ensures
        last_pos(s, s[p], n) == Some(p as usize),
    decreases n,
{
    if n - 1 != p {
        assert(s[n - 1] != s[p]) by {
            if p < n - 1 {
                assert(s[p] != s[n - 1]);
            }
        }
        lemma_last_pos_distinct(s, p, n - 1);
    }
}

/// The step index of the significant change at step `p` is `p`.
proof fn lemma_step_index(d: DiffView, p: int)
    requires
        nav_diff_ok(d),
        0 <= p < d.sig.len(),
    ensures
        step_index_spec(d, d.sig[p]) == Some(p as usize),
{
    lemma_sig_distinct(d);
    let x = d.sig[p];
    assert(crate::diff::ids_name_changes(d.sig, d.changes));
    let i = choose|i: int| 0 <= i < d.changes.len() && d.changes[i].id == d.sig[p];
    lemma_max_id_ge(d.changes, d.changes.len() as int, i);
    assert(x <= max_change_id(d));
    lemma_last_pos_distinct(d.sig, p, d.sig.len() as int);
}

/// Over the first `n` changes of hunk `h`, with the changes before step
/// `cs` applied: the smallest step of an applied one is the hunk's start
/// when its first change is applied.
proof fn lemma_min_applied(d: DiffView, s: StepView, h: int, n: int)
    requires
        nav_diff_ok(d),
        0 <= h < d.hunks.len(),
        0 <= n <= d.hunks[h].change_ids.len(),
        s.current_step <= d.sig.len(),
        s.applied == d.sig.take(s.current_step as int),
    ensures
        min_applied_step(d, s, d.hunks[h].change_ids, None, n) == (if n >= 1 && hunk_start(d, h) < s.current_step {
            Some(hunk_start(d, h) as usize)
        } else {
            None
        }),
    decreases n,
{
    if n > 0 {
        lemma_min_applied(d, s, h, n - 1);
        let st = hunk_start(d, h);
        lemma_pos(d, h, n - 1);
        let p = st + n - 1;
        lemma_applied_iff(d, s.current_step as int, p);
        lemma_step_index(d, p);
        if n > 1 && st < s.current_step {
            lemma_pos(d, h, 0);
        }
    }
}

/// Applying the first `n` changes of hunk `h` (each new one a step) from
/// the changes before step `cs` applied gives the changes before
/// `max(cs, hunk_start(h) + n)`.
proof fn lemma_apply(d: DiffView, h: int, cs: int, n: int)
    requires
        well_formed(d),
        0 <= h < d.hunks.len(),
        0 <= n <= d.hunks[h].change_ids.len(),
        hunk_start(d, h) <= cs <= d.sig.len(),
    ensures
        ({
            let m = if cs >= hunk_start(d, h) + n {
                cs
            } else {
                hunk_start(d, h) + n
            };
            apply_new(d.sig.take(cs), cs, d.hunks[h].change_ids, n) == (d.sig.take(m), m)
        }),
    decreases n,
{
    if n > 0 {
        lemma_apply(d, h, cs, n - 1);
        let st = hunk_start(d, h);
        lemma_pos(d, h, n - 1);
        let m1 = if cs >= st + n - 1 {
            cs
        } else {
            st + n - 1
        };
        lemma_applied_iff(d, m1, st + n - 1);
        if !d.sig.take(m1).contains(d.sig[st + n - 1]) {
            assert(m1 == st + n - 1);
            assert(d.sig.take(m1).push(d.sig[m1]) =~= d.sig.take(m1 + 1));
        }
    }
}

/// Pushing the first `j` changes of hunk `h` onto the changes before its
/// start gives the changes before `hunk_start(h) + j`.
proof fn lemma_push_ids(d: DiffView, h: int, j: int)
    requires
        well_formed(d),
        0 <= h < d.hunks.len(),
        0 <= j <= d.hunks[h].change_ids.len(),
    ensures
        push_ids(d.sig.take(hunk_start(d, h)), d.hunks[h].change_ids, j) == d.sig.take(hunk_start(d, h) + j),
    decreases j,
{
    if j > 0 {
        lemma_push_ids(d, h, j - 1);
        let p = hunk_start(d, h) + j - 1;
        lemma_pos(d, h, j - 1);
        lemma_applied_iff(d, p, p);
        assert(d.sig.take(p).push(d.sig[p]) =~= d.sig.take(p + 1));
    }
}

/// Pushing the changes of the first `k` hunks onto nothing gives the
/// changes before the start of hunk `k`.
proof fn lemma_push_hunks(d: DiffView, k: int)
    requires
        well_formed(d),
        0 <= k <= d.hunks.len(),
    ensures
        push_hunks(Seq::empty(), hunk_id_lists(d.hunks), k) == d.sig.take(hunk_start(d, k)),
    decreases k,
{
    let lists = hunk_id_lists(d.hunks);
    if k == 0 {
        lemma_start_ends(d);
        assert(d.sig.take(0) =~= Seq::<usize>::empty());
    } else {
        lemma_push_hunks(d, k - 1);
        assert(lists[k - 1] == d.hunks[k - 1].change_ids);
        lemma_push_ids(d, k - 1, d.hunks[k - 1].change_ids.len() as int);
        lemma_start_step(d, k - 1);
    }
}

// ---------------------------------------------------------------------
// The laws
// ---------------------------------------------------------------------

/// A fresh state (nothing applied, step 0, hunk 0, no preview) is
/// consistent.
pub proof fn law_start_consistent(d: DiffView, s: StepView)
    requires
        nav_diff_ok(d),
        s.current_step == 0,
        s.applied.len() == 0,
        s.current_hunk == 0,
        !s.hunk_preview_mode,
    ensures
        steps_consistent(d, s),
{
    lemma_start_ends(d);
    assert(d.sig.take(0) =~= s.applied);
    if d.hunks.len() > 0 {
        lemma_start_mono(d, 0, 1);
    }
}

proof fn lemma_step_forward(d: DiffView, s: StepView)
    requires
        nav_diff_ok(d),
        state_ok(d, s),
        steps_consistent(d, s),
        !s.hunk_preview_mode,
    ensures
        steps_consistent(d, step_forward(d, s).0),
{
    if s.current_step < s.total_steps - 1 {
        let p = s.current_step as int;
        let h = lemma_hunk_of_step(d, p);
        lemma_applied_iff(d, p, p);
        assert(d.sig.take(p).push(d.sig[p]) =~= d.sig.take(p + 1));
        assert(hunk_id_of_change(d, d.sig[p], s.current_hunk) == h);
    }
}

proof fn lemma_step_backward(d: DiffView, s: StepView)
    requires
        nav_diff_ok(d),
        state_ok(d, s),
        steps_consistent(d, s),
        !s.hunk_preview_mode,
    ensures
        steps_consistent(d, step_backward(d, s).0),
{
    if s.current_step > 0 {
        let cs = s.current_step as int;
        assert(s.applied.drop_last() =~= d.sig.take(cs - 1));
        lemma_start_ends(d);
        if cs - 1 > 0 {
            let h = lemma_hunk_of_step(d, cs - 2);
            assert(s.applied.drop_last().last() == d.sig[cs - 2]);
        } else if d.hunks.len() > 0 {
            lemma_start_mono(d, 0, 1);
        }
    }
}

/// `next` keeps a consistent state consistent.
pub proof fn law_next_consistent(d: DiffView, s: StepView)
    requires
        nav_diff_ok(d),
        state_ok(d, s),
        steps_consistent(d, s),
    ensures
        steps_consistent(d, next_spec(d, s).0),
{
    if s.hunk_preview_mode {
        if s.preview_from_backward {
            lemma_step_forward(d, StepView { hunk_preview_mode: false, preview_from_backward: false, ..s });
        } else {
            let h = s.current_hunk as int;
            let ids = d.hunks[h].change_ids;
            if ids.len() <= 1 {
                lemma_step_forward(d, StepView { hunk_preview_mode: false, ..s });
            } else {
                let st = hunk_start(d, h);
                lemma_pos(d, h, 0);
                lemma_pos(d, h, 1);
                lemma_start_step(d, h);
                lemma_step_index(d, st);
                lemma_applied_iff(d, s.current_step as int, st);
                assert(ids.contains(ids[0]));
                let s1 = bulk_spec(d, s, h, Some(ids[0])).0;
                assert(s1.applied == d.sig.take(st + 1));
                lemma_applied_iff(d, st + 1, st + 1);
                assert(d.sig.take(st + 1).push(d.sig[st + 1]) =~= d.sig.take(st + 2));
            }
        }
    } else {
        lemma_step_forward(d, s);
    }
}

/// `prev` keeps a consistent state consistent.
pub proof fn law_prev_consistent(d: DiffView, s: StepView)
    requires
        nav_diff_ok(d),
        state_ok(d, s),
        steps_consistent(d, s),
    ensures
        steps_consistent(d, prev_spec(d, s).0),
{
    if s.hunk_preview_mode {
        if s.preview_from_backward {
            lemma_step_backward(d, StepView { hunk_preview_mode: false, preview_from_backward: false, ..s });
        } else {
            let h = s.current_hunk as int;
            let st = hunk_start(d, h);
            let s0 = StepView { animating_hunk: Some(h as usize), ..s };
            lemma_start_step(d, h);
            lemma_min_applied(d, s0, h, d.hunks[h].change_ids.len() as int);
            assert(bulk_spec(d, s0, h, None).0.applied == d.sig.take(st));
            if h > 0 {
                lemma_start_step(d, h - 1);
                lemma_start_mono(d, h - 1, h);
            }
        }
    } else {
        lemma_step_backward(d, s);
    }
}

/// Ending an animation keeps a consistent state consistent.
pub proof fn law_clear_consistent(d: DiffView, s: StepView)
    requires
        steps_consistent(d, s),
    ensures
        steps_consistent(d, cleared_spec(s)),
{
}

/// The hunk cursor put by `update_spec` on a state whose applied changes
/// are the first `cs` steps.
proof fn lemma_update(d: DiffView, s: StepView)
    requires
        nav_diff_ok(d),
        s.current_step <= d.sig.len(),
        s.applied == d.sig.take(s.current_step as int),
    ensures
        d.hunks.len() > 0 ==> hunk_start(d, update_spec(d, s).current_hunk as int) <= s.current_step <= hunk_start(
            d,
            update_spec(d, s).current_hunk + 1,
        ),
        update_spec(d, s) == (StepView { current_hunk: update_spec(d, s).current_hunk, ..s }),
{
    lemma_start_ends(d);
    if d.hunks.len() > 0 {
        if s.current_step > 0 {
            let h = lemma_hunk_of_step(d, s.current_step - 1);
            assert(s.applied.last() == d.sig[s.current_step - 1]);
        } else {
            lemma_start_mono(d, 0, 1);
        }
    }
}

/// `goto` leads to a consistent state, from any state.
pub proof fn law_goto_consistent(d: DiffView, s: StepView, lazy: bool, step: usize)
    requires
        nav_diff_ok(d),
        state_ok(d, s),
    ensures
        steps_consistent(d, goto_spec(d, s, lazy, step)),
{
    let target = if step < s.total_steps - 1 {
        step as int
    } else {
        s.total_steps - 1
    };
    let end = if target < d.sig.len() {
        target
    } else {
        d.sig.len() as int
    };
    let base = StepView {
        current_step: end as usize,
        applied: d.sig.take(end),
        active_change: if end > 0 {
            Some(d.sig[end - 1])
        } else {
            None
        },
        cursor_change: None,
        animating_hunk: None,
        current_hunk: 0,
        last_nav_was_hunk: false,
        hunk_preview_mode: false,
        preview_from_backward: false,
        step_direction: if end > 0 {
            StepDirection::Forward
        } else if lazy {
            StepDirection::Unset
        } else {
            s.step_direction
        },
        ..s
    };
    lemma_update(d, base);
    lemma_start_ends(d);
    if d.hunks.len() == 0 {
        assert(d.sig.len() == 0);
    }
}

/// `next_hunk` keeps a consistent state consistent.
pub proof fn law_next_hunk_consistent(d: DiffView, s: StepView)
    requires
        nav_diff_ok(d),
        state_ok(d, s),
        steps_consistent(d, s),
    ensures
        steps_consistent(d, next_hunk_spec(d, s).0),
{
    if d.hunks.len() > 0 {
        let h = s.current_hunk as int;
        let st = hunk_start(d, h);
        let ids = d.hunks[h].change_ids;
        let cs = s.current_step as int;
        lemma_start_step(d, h);
        lemma_apply(d, h, cs, ids.len() as int);
        if !any_applied(s.applied, ids) {
            if cs > st {
                lemma_pos(d, h, 0);
                lemma_applied_iff(d, cs, st);
                assert(s.applied.contains(ids[0]));
            }
        } else {
            if h + 1 < d.hunks.len() {
                let e = hunk_start(d, h + 1);
                lemma_start_step(d, h + 1);
                lemma_apply(d, h + 1, e, d.hunks[h + 1].change_ids.len() as int);
            }
        }
    }
}

/// `goto_hunk` to an existing hunk leads to a consistent state from any
/// state (to another it changes nothing).
pub proof fn law_goto_hunk_consistent(d: DiffView, s: StepView, lazy: bool, h: usize)
    requires
        nav_diff_ok(d),
        state_ok(d, s),
        h < d.hunks.len() || steps_consistent(d, s),
    ensures
        steps_consistent(d, goto_hunk_spec(d, s, lazy, h)),
{
    law_goto_consistent(d, s, lazy, 0);
    if h < d.hunks.len() {
        let s0 = goto_spec(d, s, lazy, 0);
        assert(s0.current_step == 0);
        assert(s0.applied =~= Seq::<usize>::empty());
        lemma_push_hunks(d, h + 1);
        lemma_start_step(d, h as int);
        assert(hunk_start(d, h + 1) <= d.sig.len());
        assert(goto_hunk_spec(d, s, lazy, h).current_step == hunk_start(d, h + 1));
        assert(goto_hunk_spec(d, s, lazy, h).applied == d.sig.take(hunk_start(d, h + 1)));
    }
}

/// `goto_hunk_start` keeps a consistent state consistent.
pub proof fn law_goto_hunk_start_consistent(d: DiffView, s: StepView)
    requires
        nav_diff_ok(d),
        state_ok(d, s),
        steps_consistent(d, s),
    ensures
        steps_consistent(d, goto_hunk_start_spec(d, s).0),
{
    if d.hunks.len() > 0 && s.current_hunk < d.hunks.len() {
        let h = s.current_hunk as int;
        let ids = d.hunks[h].change_ids;
        if ids.len() > 0 && s.applied.contains(ids[0]) {
            let st = hunk_start(d, h);
            lemma_pos(d, h, 0);
            lemma_start_step(d, h);
            lemma_applied_iff(d, s.current_step as int, st);
            lemma_step_index(d, st);
            assert(ids.contains(ids[0]));
            assert(d.sig.take(s.current_step as int).take(st + 1) =~= d.sig.take(st + 1));
        }
    }
}

/// `goto_hunk_end` keeps a consistent state consistent.
pub proof fn law_goto_hunk_end_consistent(d: DiffView, s: StepView)
    requires
        nav_diff_ok(d),
        state_ok(d, s),
        steps_consistent(d, s),
    ensures
        steps_consistent(d, goto_hunk_end_spec(d, s).0),
{
    if d.hunks.len() > 0 && s.current_hunk < d.hunks.len() {
        let h = s.current_hunk as int;
        lemma_start_step(d, h);
        lemma_apply(d, h, s.current_step as int, d.hunks[h].change_ids.len() as int);
    }
}

/// `prev_hunk` keeps a consistent state consistent.
pub proof fn law_prev_hunk_consistent(d: DiffView, s: StepView)
    requires
        nav_diff_ok(d),
        state_ok(d, s),
        steps_consistent(d, s),
    ensures
        steps_consistent(d, prev_hunk_spec(d, s).0),
    decreases s.current_hunk,
{
    if d.hunks.len() > 0 && s.current_hunk < d.hunks.len() {
        let h = s.current_hunk as int;
        let st = hunk_start(d, h);
        let cs = s.current_step as int;
        lemma_start_step(d, h);
        if h == 0 && s.hunk_preview_mode {
            lemma_start_ends(d);
            lemma_pos(d, 0, 0);
            lemma_applied_iff(d, cs, 0);
            assert(s.applied.contains(d.hunks[0].change_ids[0]));
        }
        if !(h == 0 && !any_applied(s.applied, d.hunks[0].change_ids)) {
            let s1 = StepView {
                step_direction: StepDirection::Backward,
                hunk_preview_mode: false,
                preview_from_backward: false,
                ..s
            };
            lemma_min_applied(d, s1, h, d.hunks[h].change_ids.len() as int);
            if st < cs {
                assert(d.sig.take(cs).take(st) =~= d.sig.take(st));
                assert(bulk_spec(d, s1, h, None).0.applied == d.sig.take(st));
                assert(!any_applied(d.sig.take(st), d.hunks[h].change_ids)) by {
                    assert forall|i: int| 0 <= i < d.hunks[h].change_ids.len() implies !d.sig.take(st).contains(
                        #[trigger] d.hunks[h].change_ids[i],
                    ) by {
                        lemma_pos(d, h, i);
                        lemma_applied_iff(d, st, st + i);
                    }
                }
                if h > 0 {
                    lemma_start_step(d, h - 1);
                    lemma_start_mono(d, h - 1, h);
                } else {
                    lemma_start_ends(d);
                }
            } else {
                assert(bulk_spec(d, s1, h, None).1 == 0);
                if h > 0 {
                    lemma_start_step(d, h - 1);
                    let s4 = StepView {
                        animating_hunk: Some(h as usize),
                        active_change: super::jump::first_id(d.hunks[h].change_ids),
                        ..s1
                    };
                    law_prev_hunk_consistent(d, StepView { current_hunk: (h - 1) as usize, ..s4 });
                }
            }
        }
    }
}

/// `goto(0)` reaches the start (nothing applied); a jump to the last step
/// reaches the end (every significant change applied, in order).
pub proof fn law_goto_ends(d: DiffView, s: StepView, lazy: bool)
    requires
        nav_diff_ok(d),
        state_ok(d, s),
    ensures
        goto_spec(d, s, lazy, 0).current_step == 0,
        goto_spec(d, s, lazy, 0).applied.len() == 0,
        goto_spec(d, s, lazy, (s.total_steps - 1) as usize).current_step == s.total_steps - 1,
        goto_spec(d, s, lazy, (s.total_steps - 1) as usize).applied == d.sig,
{
    law_goto_consistent(d, s, lazy, 0);
    law_goto_consistent(d, s, lazy, (s.total_steps - 1) as usize);
    assert(d.sig.take(d.sig.len() as int) =~= d.sig);
}

/// Outside a hunk preview, a step back undoes a step forward: the same
/// changes are applied at the same step.
pub proof fn law_prev_undoes_next(d: DiffView, s: StepView)
    requires
        nav_diff_ok(d),
        state_ok(d, s),
        steps_consistent(d, s),
        !s.hunk_preview_mode,
        s.current_step < d.sig.len(),
    ensures
        next_spec(d, s).1,
        prev_spec(d, next_spec(d, s).0).0.applied == s.applied,
        prev_spec(d, next_spec(d, s).0).0.current_step == s.current_step,
{
    let p = s.current_step as int;
    lemma_applied_iff(d, p, p);
    assert(d.sig.take(p).push(d.sig[p]) =~= d.sig.take(p + 1));
    assert(d.sig.take(p + 1).drop_last() =~= d.sig.take(p));
}


/// `next_hunk` from a consistent state never un-applies: it moves exactly
/// when the step grows, and a move goes forward by hunk; the applied
/// changes before the move stay in front. Without hunks nothing changes.
pub proof fn law_next_hunk_moves_forward(d: DiffView, s: StepView)
    requires
        nav_diff_ok(d),
        state_ok(d, s),
        steps_consistent(d, s),
    ensures
        ({
            let (t, r) = next_hunk_spec(d, s);
            &&& d.hunks.len() == 0 ==> !r && t == s
            &&& t.current_step >= s.current_step
            &&& r <==> t.current_step > s.current_step
            &&& r ==> t.step_direction == StepDirection::Forward && t.last_nav_was_hunk
            &&& t.applied.take(s.current_step as int) == s.applied
        }),
{
    law_next_hunk_consistent(d, s);
    if d.hunks.len() > 0 {
        let h = s.current_hunk as int;
        let st = hunk_start(d, h);
        let ids = d.hunks[h].change_ids;
        let cs = s.current_step as int;
        lemma_start_step(d, h);
        lemma_apply(d, h, cs, ids.len() as int);
        if !any_applied(s.applied, ids) {
            if cs > st {
                lemma_pos(d, h, 0);
                lemma_applied_iff(d, cs, st);
                assert(s.applied.contains(ids[0]));
            }
        } else {
            if h + 1 < d.hunks.len() {
                let e = hunk_start(d, h + 1);
                lemma_start_step(d, h + 1);
                lemma_apply(d, h + 1, e, d.hunks[h + 1].change_ids.len() as int);
            }
        }
        let (t, r) = next_hunk_spec(d, s);
        assert(t.applied.take(s.current_step as int) =~= s.applied);
    }
}


/// `prev_hunk` from a consistent state moves exactly when a change is
/// applied: it un-applies changes from the end (the applied changes after
/// it are those before, cut), goes backward, and leaves the steps alone
/// when it does not move. It lands at the start of the hunk it un-applies
/// and animates that hunk: the current hunk when some of its changes are
/// applied, else the hunk before it.
pub proof fn law_prev_hunk_moves_back(d: DiffView, s: StepView)
    requires
        nav_diff_ok(d),
        state_ok(d, s),
        steps_consistent(d, s),
    ensures
        ({
            let (t, r) = prev_hunk_spec(d, s);
            &&& r <==> s.current_step > 0
            &&& t.current_step <= s.current_step
            &&& r <==> t.current_step < s.current_step
            &&& r ==> t.step_direction == StepDirection::Backward
            &&& t.applied == s.applied.take(t.current_step as int)
            &&& r ==> {
                let g = if s.current_step > hunk_start(d, s.current_hunk as int) {
                    s.current_hunk as int
                } else {
                    s.current_hunk - 1
                };
                &&& 0 <= g < d.hunks.len()
                &&& t.current_step == hunk_start(d, g)
                &&& t.animating_hunk == Some(g as usize)
            }
        }),
    decreases s.current_hunk,
{
    law_prev_hunk_consistent(d, s);
    let (t, r) = prev_hunk_spec(d, s);
    if d.hunks.len() == 0 {
        assert(hunk_id_lists(d.hunks) =~= Seq::<Seq<usize>>::empty());
        assert(d.sig.len() == 0);
    } else if s.current_hunk < d.hunks.len() {
        let h = s.current_hunk as int;
        let st = hunk_start(d, h);
        let cs = s.current_step as int;
        lemma_start_step(d, h);
        if h == 0 && cs > 0 {
            lemma_start_ends(d);
            lemma_pos(d, 0, 0);
            lemma_applied_iff(d, cs, 0);
            assert(s.applied.contains(d.hunks[0].change_ids[0]));
        }
        if h == 0 {
            lemma_start_ends(d);
        }
        if !(h == 0 && !any_applied(s.applied, d.hunks[0].change_ids)) {
            let s1 = StepView {
                step_direction: StepDirection::Backward,
                hunk_preview_mode: false,
                preview_from_backward: false,
                ..s
            };
            lemma_min_applied(d, s1, h, d.hunks[h].change_ids.len() as int);
            if st < cs {
                assert(d.sig.take(cs).take(st) =~= d.sig.take(st));
                assert(bulk_spec(d, s1, h, None).0.applied == d.sig.take(st));
            } else {
                assert(bulk_spec(d, s1, h, None).1 == 0);
                if h > 0 {
                    lemma_start_step(d, h - 1);
                    lemma_pos(d, h - 1, 0);
                    let s4 = StepView {
                        animating_hunk: Some(h as usize),
                        active_change: super::jump::first_id(d.hunks[h].change_ids),
                        ..s1
                    };
                    law_prev_hunk_moves_back(d, StepView { current_hunk: (h - 1) as usize, ..s4 });
                }
            }
        }
        assert(d.sig.take(cs).take(t.current_step as int) =~= d.sig.take(t.current_step as int));
    }
}

/// Entering stepping and leaving it again puts the navigator's hunk
/// cursor, cursor change and hunk scope back as they were when stepping
/// was entered, with the cursor on a hunk's change: leaving stepping asks
/// for that cursor, and the viewer applies it with `set_cursor_hunk` and
/// then `set_hunk_scope` on, on the file's navigator (whose hunk cursor
/// lies among its hunks).
pub proof fn law_no_step_cursor_scope_restored(
    m: MemView,
    p: ViewerPos,
    i: int,
    c: NoStepState,
    a1: bool,
    a2: bool,
    c2: NoStepState,
    s: StepView,
)
    requires
        mem_wf(m),
        !m.stepping,
        0 <= i < m.visited.len(),
        c.last_nav_was_hunk,
        c.cursor_change is Some,
        c.current_hunk < s.total_hunks,
    ensures
        ({
            let (m1, p1, _) = toggle_spec(m, p, i, c, a1);
            let (_, _, r2) = toggle_spec(m1, p1, i, c2, a2);
            match r2 {
                ToggleOutcome::LeftStepping(NoStepEntry::Cursor(h, cc)) => {
                    let t = hunk_scope_spec(cursor_hunk_spec(s, h, cc), true);
                    &&& t.current_hunk == c.current_hunk
                    &&& t.cursor_change == c.cursor_change
                    &&& t.last_nav_was_hunk
                },
                _ => false,
            }
        }),
{
    law_whole_view_cursor_comes_back(m, p, i, c, a1, a2, c2);
}

} // verus!
