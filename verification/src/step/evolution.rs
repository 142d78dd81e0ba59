//! The evolution view: deletion-only changes are hidden, the others are
//! numbered in order; a hidden change is shown through its nearest visible
//! neighbour.

use super::table::{change_index_spec, lemma_last_change_pos_bound, none_table};
use super::{DiffNavigator, EvoCache, StepView};
use crate::change::{Change, ChangeView};
use crate::diff::DiffView;
use crate::view::{change_has_new, change_has_old, scan_sides};
use vstd::prelude::*;

verus! {

/// A change shows in the evolution view unless it only removes text.
pub open spec fn evo_visible(c: ChangeView) -> bool {
    !change_has_old(c.spans) || change_has_new(c.spans)
}

/// A change shows at the current step unless it only removes text and is
/// applied, or only adds text and is not applied.
pub open spec fn evo_visible_state(s: StepView, c: ChangeView) -> bool {
    let applied = s.applied.contains(c.id);
    let has_old = change_has_old(c.spans);
    let has_new = change_has_new(c.spans);
    if has_old && !has_new {
        !applied
    } else if has_new && !has_old {
        applied
    } else {
        true
    }
}

/// The number of visible changes among the first `n`.
pub open spec fn vis_count(cs: Seq<ChangeView>, n: int) -> nat
    decreases n,
{
    if n <= 0 {
        0
    } else {
        vis_count(cs, n - 1) + if evo_visible(cs[n - 1]) {
            1nat
        } else {
            0nat
        }
    }
}

/// The display index of change `i`: how many visible changes come before
/// it, if it is visible.
pub open spec fn display_index_spec(cs: Seq<ChangeView>, i: int) -> Option<usize> {
    if 0 <= i < cs.len() && evo_visible(cs[i]) {
        Some(vis_count(cs, i) as usize)
    } else {
        None
    }
}

/// The indices of the visible changes among the first `n`, in order.
pub open spec fn vis_indices(cs: Seq<ChangeView>, n: int) -> Seq<usize>
    decreases n,
{
    if n <= 0 {
        Seq::empty()
    } else {
        let p = vis_indices(cs, n - 1);
        if evo_visible(cs[n - 1]) {
            p.push((n - 1) as usize)
        } else {
            p
        }
    }
}

/// The last visible change at or before `i`.
pub open spec fn prev_visible(cs: Seq<ChangeView>, i: int) -> Option<usize>
    decreases i + 1,
{
    if i < 0 || i >= cs.len() {
        None
    } else if evo_visible(cs[i]) {
        Some(i as usize)
    } else {
        prev_visible(cs, i - 1)
    }
}

/// The first visible change at or after `i`.
pub open spec fn next_visible(cs: Seq<ChangeView>, i: int) -> Option<usize>
    decreases cs.len() - i,
{
    if i < 0 || i >= cs.len() {
        None
    } else if evo_visible(cs[i]) {
        Some(i as usize)
    } else {
        next_visible(cs, i + 1)
    }
}

/// The visible change nearest to `i` (the earlier one on a tie).
pub open spec fn nearest_spec(cs: Seq<ChangeView>, i: int) -> Option<usize> {
    match (prev_visible(cs, i), next_visible(cs, i)) {
        (Some(p), Some(n)) => if n - i < i - p {
            Some(n)
        } else {
            Some(p)
        },
        (Some(p), None) => Some(p),
        (None, Some(n)) => Some(n),
        (None, None) => None,
    }
}

/// Scanning outward from change `idx`, at distance `off` and beyond (left
/// first), for a change visible at the current step.
pub open spec fn dyn_scan(cs: Seq<ChangeView>, s: StepView, idx: int, max_scan: int, off: int) -> Option<usize>
    decreases max_scan + 1 - off,
{
    if off > max_scan {
        None
    } else {
        let left = idx - off;
        let right = idx + off;
        if left >= 0 && left < cs.len() && evo_visible_state(s, cs[left]) {
            Some(cs[left].id)
        } else if right < cs.len() && evo_visible_state(s, cs[right]) {
            Some(cs[right].id)
        } else {
            dyn_scan(cs, s, idx, max_scan, off + 1)
        }
    }
}

impl EvoCache {
    /// The caches are either all empty or all filled and agree with the
    /// diff.
    pub(crate) closed spec fn ok(&self, d: DiffView) -> bool {
        ||| (self.visible_index is None && self.visible_len is None && self.display_to_change is None
            && self.nearest_visible is None)
        ||| self.filled(d)
    }

    /// The caches are filled and agree with the diff.
    pub(crate) closed spec fn filled(&self, d: DiffView) -> bool {
        let cs = d.changes;
        &&& self.visible_index matches Some(vi) && vi@.len() == cs.len() && forall|i: int|
            0 <= i < cs.len() ==> #[trigger] vi@[i] == display_index_spec(cs, i)
        &&& self.visible_len == Some(vis_count(cs, cs.len() as int) as usize)
        &&& self.display_to_change matches Some(dc) && dc@ == vis_indices(cs, cs.len() as int)
        &&& self.nearest_visible matches Some(nv) && nv@.len() == cs.len() && forall|i: int|
            0 <= i < cs.len() ==> #[trigger] nv@[i] == nearest_spec(cs, i)
    }
}

impl EvoCache {
    /// Empty caches.
    pub(crate) fn empty() -> (e: EvoCache)
        ensures
            forall|d: DiffView| #[trigger] e.ok(d),
    {
        EvoCache { visible_index: None, visible_len: None, display_to_change: None, nearest_visible: None }
    }
}

proof fn lemma_vis_count_bound(cs: Seq<ChangeView>, n: int)
    requires
        0 <= n <= cs.len(),
    ensures
        vis_count(cs, n) <= n,
        vis_indices(cs, n).len() == vis_count(cs, n),
        forall|k: int| 0 <= k < vis_indices(cs, n).len() ==> #[trigger] vis_indices(cs, n)[k] < n,
    decreases n,
{
    if n > 0 {
        lemma_vis_count_bound(cs, n - 1);
    }
}

proof fn lemma_nearest_bound(cs: Seq<ChangeView>, i: int)
    requires
        cs.len() <= usize::MAX,
    ensures
        nearest_spec(cs, i) matches Some(k) ==> k < cs.len(),
{
    lemma_prev_bound(cs, i);
    lemma_next_bound(cs, i);
}

proof fn lemma_prev_bound(cs: Seq<ChangeView>, i: int)
    requires
        cs.len() <= usize::MAX,
    ensures
        prev_visible(cs, i) matches Some(k) ==> k <= i && k < cs.len(),
    decreases i + 1,
{
    if 0 <= i < cs.len() && !evo_visible(cs[i]) {
        lemma_prev_bound(cs, i - 1);
    }
}

proof fn lemma_next_bound(cs: Seq<ChangeView>, i: int)
    requires
        cs.len() <= usize::MAX,
    ensures
        next_visible(cs, i) matches Some(k) ==> i <= k < cs.len(),
    decreases cs.len() - i,
{
    if 0 <= i < cs.len() && !evo_visible(cs[i]) {
        lemma_next_bound(cs, i + 1);
    }
}

/// Whether a change shows in the evolution view.
fn change_visible_in_evolution(change: &Change) -> (b: bool)
    ensures
        b == evo_visible(change@),
{
    let has_old = scan_sides(change, true);
    let has_new = scan_sides(change, false);
    !has_old || has_new
}

impl DiffNavigator {
    /// Whether a change shows at the current step.
    fn change_visible_in_evolution_state(&self, change: &Change) -> (b: bool)
        requires
            self.inv(),
        ensures
            b == evo_visible_state(self@.state, change@),
    {
        let applied = self.state.is_applied(change.id);
        let has_old = scan_sides(change, true);
        let has_new = scan_sides(change, false);
        if has_old && !has_new {
            return !applied;
        }
        if has_new && !has_old {
            return applied;
        }
        true
    }

    /// Fills the evolution caches if they are empty.
    fn ensure_evo_visible_index(&mut self)
        requires
            old(self).inv(),
        ensures
            final(self).inv(),
            final(self)@ == old(self)@,
            final(self).evo.filled(final(self)@.diff),
    {
        if self.evo.visible_index.is_some() {
            return;
        }
        let ghost cs = self@.diff.changes;
        let n = self.diff.changes.len();
        let mut mapping: Vec<Option<usize>> = Vec::new();
        let mut display_to_change: Vec<usize> = Vec::new();
        let mut display_idx: usize = 0;
        let mut i: usize = 0;
        while i < n
            invariant
                cs == self@.diff.changes,
                n == cs.len(),
                i <= n,
                mapping@.len() == i,
                forall|k: int| 0 <= k < i ==> #[trigger] mapping@[k] == display_index_spec(cs, k),
                display_idx == vis_count(cs, i as int),
                display_to_change@ == vis_indices(cs, i as int),
            decreases n - i,
        {
            proof {
                lemma_vis_count_bound(cs, i as int);
            }
            let change = &self.diff.changes[i];
            assert(change@ == cs[i as int]);
            if change_visible_in_evolution(change) {
                mapping.push(Some(display_idx));
                display_to_change.push(i);
                display_idx = display_idx + 1;
            } else {
                mapping.push(None);
            }
            i = i + 1;
        }
        let mut prev = none_table(n);
        let mut last: Option<usize> = None;
        let mut i: usize = 0;
        while i < n
            invariant
                cs == self@.diff.changes,
                n == cs.len(),
                i <= n,
                prev@.len() == n,
                forall|k: int| 0 <= k < i ==> #[trigger] prev@[k] == prev_visible(cs, k),
                last == prev_visible(cs, i - 1),
            decreases n - i,
        {
            let change = &self.diff.changes[i];
            assert(change@ == cs[i as int]);
            if change_visible_in_evolution(change) {
                last = Some(i);
            }
            prev.set(i, last);
            i = i + 1;
        }
        let mut next = none_table(n);
        let mut nxt: Option<usize> = None;
        let mut i: usize = n;
        while i > 0
            invariant
                cs == self@.diff.changes,
                n == cs.len(),
                i <= n,
                next@.len() == n,
                forall|k: int| i <= k < n ==> #[trigger] next@[k] == next_visible(cs, k),
                nxt == next_visible(cs, i as int),
            decreases i,
        {
            i = i - 1;
            let change = &self.diff.changes[i];
            assert(change@ == cs[i as int]);
            if change_visible_in_evolution(change) {
                nxt = Some(i);
            }
            next.set(i, nxt);
        }
        let mut nearest: Vec<Option<usize>> = Vec::new();
        let mut i: usize = 0;
        while i < n
            invariant
                cs == self@.diff.changes,
                n == cs.len(),
                i <= n,
                prev@.len() == n,
                next@.len() == n,
                forall|k: int| 0 <= k < n ==> #[trigger] prev@[k] == prev_visible(cs, k),
                forall|k: int| 0 <= k < n ==> #[trigger] next@[k] == next_visible(cs, k),
                nearest@.len() == i,
                forall|k: int| 0 <= k < i ==> #[trigger] nearest@[k] == nearest_spec(cs, k),
            decreases n - i,
        {
            proof {
                lemma_prev_bound(cs, i as int);
                lemma_next_bound(cs, i as int);
            }
            let v = match (prev[i], next[i]) {
                (Some(p), Some(q)) => {
                    let prev_dist = i - p;
                    let next_dist = q - i;
                    if next_dist < prev_dist {
                        Some(q)
                    } else {
                        Some(p)
                    }
                },
                (Some(p), None) => Some(p),
                (None, Some(q)) => Some(q),
                (None, None) => None,
            };
            nearest.push(v);
            i = i + 1;
        }
        proof {
            lemma_vis_count_bound(cs, n as int);
        }
        self.evo = EvoCache {
            visible_index: Some(mapping),
            visible_len: Some(display_idx),
            display_to_change: Some(display_to_change),
            nearest_visible: Some(nearest),
        };
    }

    /// The display index of a change index (filled caches).
    fn evo_display_of_index(&self, change_idx: usize) -> (r: Option<usize>)
        requires
            self.evo.filled(self@.diff),
        ensures
            r == display_index_spec(self@.diff.changes, change_idx as int),
    {
        match &self.evo.visible_index {
            Some(mapping) => if change_idx < mapping.len() {
                mapping[change_idx]
            } else {
                None
            },
            None => None,
        }
    }

    /// The nearest visible change index of a change index (filled caches).
    fn evo_nearest_of_index(&self, change_idx: usize) -> (r: Option<usize>)
        requires
            self.evo.filled(self@.diff),
            change_idx < self@.diff.changes.len(),
        ensures
            r == nearest_spec(self@.diff.changes, change_idx as int),
    {
        match &self.evo.nearest_visible {
            Some(mapping) => mapping[change_idx],
            None => None,
        }
    }

    /// The evolution display index of a change id.
    pub fn evolution_display_index_for_change(&mut self, change_id: usize) -> (r: Option<usize>)
        requires
            old(self).inv(),
        ensures
            final(self).inv(),
            final(self)@ == old(self)@,
            r == (match change_index_spec(old(self)@.diff, change_id) {
                Some(i) => display_index_spec(old(self)@.diff.changes, i as int),
                None => None,
            }),
    {
        self.ensure_evo_visible_index();
        match self.change_index(change_id) {
            Some(idx) => self.evo_display_of_index(idx),
            None => None,
        }
    }

    /// The evolution display index of a change index.
    pub fn evolution_display_index_for_change_index(&mut self, change_idx: usize) -> (r: Option<usize>)
        requires
            old(self).inv(),
        ensures
            final(self).inv(),
            final(self)@ == old(self)@,
            r == display_index_spec(old(self)@.diff.changes, change_idx as int),
    {
        self.ensure_evo_visible_index();
        self.evo_display_of_index(change_idx)
    }

    /// The evolution display index of a change id, or of its nearest
    /// visible change when it is hidden.
    pub fn evolution_display_index_or_nearest(&mut self, change_id: usize) -> (r: Option<usize>)
        requires
            old(self).inv(),
        ensures
            final(self).inv(),
            final(self)@ == old(self)@,
            r == (match change_index_spec(old(self)@.diff, change_id) {
                Some(i) => match display_index_spec(old(self)@.diff.changes, i as int) {
                    Some(x) => Some(x),
                    None => match nearest_spec(old(self)@.diff.changes, i as int) {
                        Some(k) => display_index_spec(old(self)@.diff.changes, k as int),
                        None => None,
                    },
                },
                None => None,
            }),
    {
        match self.evolution_display_index_for_change(change_id) {
            Some(idx) => {
                return Some(idx);
            },
            None => {},
        }
        self.ensure_evo_visible_index();
        let change_idx = match self.change_index(change_id) {
            Some(i) => i,
            None => {
                return None;
            },
        };
        match self.evo_nearest_of_index(change_idx) {
            Some(k) => self.evolution_display_index_for_change_index(k),
            None => None,
        }
    }

    /// The id of the visible change nearest to a change id.
    pub fn evolution_nearest_visible_change_id(&mut self, change_id: usize) -> (r: Option<usize>)
        requires
            old(self).inv(),
        ensures
            final(self).inv(),
            final(self)@ == old(self)@,
            r == (match change_index_spec(old(self)@.diff, change_id) {
                Some(i) => match nearest_spec(old(self)@.diff.changes, i as int) {
                    Some(k) => Some(old(self)@.diff.changes[k as int].id),
                    None => None,
                },
                None => None,
            }),
    {
        self.ensure_evo_visible_index();
        let change_idx = match self.change_index(change_id) {
            Some(i) => i,
            None => {
                return None;
            },
        };
        proof {
            lemma_nearest_bound(self@.diff.changes, change_idx as int);
        }
        match self.evo_nearest_of_index(change_idx) {
            Some(k) => Some(self.diff.changes[k].id),
            None => None,
        }
    }

    /// The id of the change nearest to a change id (left first, at most
    /// `max_scan` away) that shows at the current step.
    pub fn evolution_nearest_visible_change_id_dynamic(&self, change_id: usize, max_scan: usize) -> (r: Option<usize>)
        requires
            self.inv(),
            max_scan < usize::MAX / 2,
        ensures
            r == (match change_index_spec(self@.diff, change_id) {
                Some(i) => dyn_scan(self@.diff.changes, self@.state, i as int, max_scan as int, 0),
                None => None,
            }),
    {
        let idx = match self.change_index(change_id) {
            Some(i) => i,
            None => {
                return None;
            },
        };
        let ghost cs = self@.diff.changes;
        let n = self.diff.changes.len();
        let mut offset: usize = 0;
        while offset <= max_scan
            invariant
                self.inv(),
                cs == self@.diff.changes,
                n == cs.len(),
                idx < n,
                change_index_spec(self@.diff, change_id) == Some(idx),
                n < usize::MAX / 4,
                max_scan < usize::MAX / 2,
                offset <= max_scan + 1,
                dyn_scan(cs, self@.state, idx as int, max_scan as int, 0) == dyn_scan(
                    cs,
                    self@.state,
                    idx as int,
                    max_scan as int,
                    offset as int,
                ),
            decreases max_scan + 1 - offset,
        {
            if offset <= idx {
                let left = idx - offset;
                let change = &self.diff.changes[left];
                assert(change@ == cs[left as int]);
                if self.change_visible_in_evolution_state(change) {
                    assert(dyn_scan(cs, self@.state, idx as int, max_scan as int, offset as int) == Some(cs[left as int].id));
                    return Some(change.id);
                }
            }
            let right = idx + offset;
            if right < n {
                let change = &self.diff.changes[right];
                assert(change@ == cs[right as int]);
                if self.change_visible_in_evolution_state(change) {
                    assert(dyn_scan(cs, self@.state, idx as int, max_scan as int, offset as int) == Some(cs[right as int].id));
                    return Some(change.id);
                }
            }
            offset = offset + 1;
        }
        None
    }

    /// The number of changes the evolution view shows.
    pub fn evolution_visible_len(&mut self) -> (r: usize)
        requires
            old(self).inv(),
        ensures
            final(self).inv(),
            final(self)@ == old(self)@,
            r == vis_count(old(self)@.diff.changes, old(self)@.diff.changes.len() as int),
    {
        self.ensure_evo_visible_index();
        proof {
            lemma_vis_count_bound(self@.diff.changes, self@.diff.changes.len() as int);
        }
        match self.evo.visible_len {
            Some(n) => n,
            None => 0,
        }
    }

    /// The change indices of the visible changes `radius` display rows
    /// around display row `display_idx` (clamped to the visible rows);
    /// `None` when nothing shows.
    pub fn evolution_change_range_for_display(&mut self, display_idx: usize, radius: usize) -> (r: Option<(usize, usize)>)
        requires
            old(self).inv(),
            radius <= usize::MAX - old(self)@.diff.changes.len(),
        ensures
            final(self).inv(),
            final(self)@ == old(self)@,
            r == ({
                let cs = old(self)@.diff.changes;
                let vl = vis_count(cs, cs.len() as int);
                if vl == 0 {
                    None
                } else {
                    let di = if display_idx < vl - 1 {
                        display_idx as int
                    } else {
                        vl - 1
                    };
                    let st = if di >= radius {
                        di - radius
                    } else {
                        0
                    };
                    let en = if di + radius < vl - 1 {
                        di + radius
                    } else {
                        vl - 1
                    };
                    let vi = vis_indices(cs, cs.len() as int);
                    Some((vi[st], vi[en]))
                }
            }),
    {
        self.ensure_evo_visible_index();
        proof {
            lemma_vis_count_bound(self@.diff.changes, self@.diff.changes.len() as int);
        }
        let visible_len = match self.evo.visible_len {
            Some(n) => n,
            None => {
                return None;
            },
        };
        if visible_len == 0 {
            return None;
        }
        let top = visible_len - 1;
        let di = if display_idx < top {
            display_idx
        } else {
            top
        };
        let start_display = di.saturating_sub(radius);
        let end_display = if di + radius < top {
            di + radius
        } else {
            top
        };
        match &self.evo.display_to_change {
            Some(dc) => Some((dc[start_display], dc[end_display])),
            None => None,
        }
    }
}

} // verus!
