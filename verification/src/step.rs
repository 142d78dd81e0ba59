//! Step-through navigation for diffs.

use crate::foreign::{fx_set_contains, fx_set_insert, fx_set_remove};
use crate::diff::{well_formed, DiffResult, DiffView};
use rustc_hash::FxHashSet;
use vstd::prelude::*;

mod jump;
pub mod laws;
mod nav;
mod evolution;
mod render;
mod table;
pub mod shown;

pub use crate::view::{LineKind, ViewLine, ViewSpan, ViewSpanKind};

verus! {

/// Direction of the last step action.
#[derive(Debug, Clone, Copy, PartialEq, Eq, Structural)]
pub enum StepDirection {
    Unset,
    Forward,
    Backward,
}

impl Default for StepDirection {
    /// No step taken yet.
    fn default() -> (d: Self)
        ensures
            d == StepDirection::Unset,
    {
        StepDirection::Unset
    }
}

/// Animation frame for phase-aware rendering.
#[derive(Debug, Clone, Copy, PartialEq, Eq, Structural)]
pub enum AnimationFrame {
    Idle,
    FadeOut,
    FadeIn,
}

impl Default for AnimationFrame {
    /// No animation.
    fn default() -> (f: Self)
        ensures
            f == AnimationFrame::Idle,
    {
        AnimationFrame::Idle
    }
}

/// The current state of stepping through a diff.
#[derive(Debug)]
pub struct StepState {
    /// Current step index (0 = nothing applied, 1 = first change applied, ...).
    pub current_step: usize,
    /// Number of steps: the significant changes plus one for the start.
    pub total_steps: usize,
    /// Ids of the changes applied up to the current step, in order.
    pub applied_changes: Vec<usize>,
    /// The applied ids as a set, kept equal to `applied_changes`.
    applied_changes_set: FxHashSet<usize>,
    /// The change highlighted/animated at the current step.
    pub active_change: Option<usize>,
    /// Cursor change for navigation without stepping (no animation).
    pub cursor_change: Option<usize>,
    /// Hunk being animated (distinct from the cursor's `current_hunk`).
    pub animating_hunk: Option<usize>,
    /// Direction of the last step action.
    pub step_direction: StepDirection,
    /// Current hunk index.
    pub current_hunk: usize,
    /// Number of hunks.
    pub total_hunks: usize,
    /// Whether the last navigation moved by hunk (extent markers shown).
    pub last_nav_was_hunk: bool,
    /// Set by a hunk-down move (whole hunk previewed), cleared on the next step.
    pub hunk_preview_mode: bool,
    /// Whether the preview was entered by a hunk-up move.
    pub preview_from_backward: bool,
    /// Show hunk extent markers while stepping (set by the viewer).
    pub show_hunk_extent_while_stepping: bool,
}

/// A step state as plain values (the applied set left out: it mirrors the
/// applied list).
pub struct StepView {
    pub current_step: usize,
    pub total_steps: usize,
    pub applied: Seq<usize>,
    pub active_change: Option<usize>,
    pub cursor_change: Option<usize>,
    pub animating_hunk: Option<usize>,
    pub step_direction: StepDirection,
    pub current_hunk: usize,
    pub total_hunks: usize,
    pub last_nav_was_hunk: bool,
    pub hunk_preview_mode: bool,
    pub preview_from_backward: bool,
    pub show_hunk_extent_while_stepping: bool,
}

impl View for StepState {
    type V = StepView;

    closed spec fn view(&self) -> StepView {
        StepView {
            current_step: self.current_step,
            total_steps: self.total_steps,
            applied: self.applied_changes@,
            active_change: self.active_change,
            cursor_change: self.cursor_change,
            animating_hunk: self.animating_hunk,
            step_direction: self.step_direction,
            current_hunk: self.current_hunk,
            total_hunks: self.total_hunks,
            last_nav_was_hunk: self.last_nav_was_hunk,
            hunk_preview_mode: self.hunk_preview_mode,
            preview_from_backward: self.preview_from_backward,
            show_hunk_extent_while_stepping: self.show_hunk_extent_while_stepping,
        }
    }
}

/// No id occurs twice.
pub open spec fn distinct(s: Seq<usize>) -> bool {
    forall|i: int, j: int| 0 <= i < j < s.len() ==> s[i] != s[j]
}

/// `s` with `id` appended unless it already holds it.
pub open spec fn push_new(s: Seq<usize>, id: usize) -> Seq<usize> {
    if s.contains(id) {
        s
    } else {
        s.push(id)
    }
}

impl Clone for StepState {
    /// A copy of the state; its applied set is rebuilt from the applied list.
    fn clone(&self) -> (r: Self)
        ensures
            r@ == self@,
            r.set_mirrors(),
    {
        let mut r = StepState {
            current_step: self.current_step,
            total_steps: self.total_steps,
            applied_changes: self.applied_changes.clone(),
            applied_changes_set: FxHashSet::default(),
            active_change: self.active_change,
            cursor_change: self.cursor_change,
            animating_hunk: self.animating_hunk,
            step_direction: self.step_direction,
            current_hunk: self.current_hunk,
            total_hunks: self.total_hunks,
            last_nav_was_hunk: self.last_nav_was_hunk,
            hunk_preview_mode: self.hunk_preview_mode,
            preview_from_backward: self.preview_from_backward,
            show_hunk_extent_while_stepping: self.show_hunk_extent_while_stepping,
        };
        r.rebuild_applied_set();
        r
    }
}

impl StepState {
    /// The applied set holds exactly the applied ids.
    pub closed spec fn set_mirrors(&self) -> bool {
        forall|x: usize| #[trigger] self.applied_changes_set@.contains(x) <==> self.applied_changes@.contains(x)
    }

    /// Whether the change is applied, by the applied set.
    pub closed spec fn applied_spec(&self, id: usize) -> bool {
        self.applied_changes_set@.contains(id)
    }

    /// A state with nothing applied, for the given numbers of significant
    /// changes and hunks.
    pub fn new(total_changes: usize, total_hunks: usize) -> (s: Self)
        requires
            total_changes < usize::MAX,
        ensures
            s@ == (StepView {
                current_step: 0,
                total_steps: (total_changes + 1) as usize,
                applied: Seq::empty(),
                active_change: None,
                cursor_change: None,
                animating_hunk: None,
                step_direction: StepDirection::Unset,
                current_hunk: 0,
                total_hunks,
                last_nav_was_hunk: false,
                hunk_preview_mode: false,
                preview_from_backward: false,
                show_hunk_extent_while_stepping: false,
            }),
            s.set_mirrors(),
    {
        StepState {
            current_step: 0,
            total_steps: total_changes + 1,
            applied_changes: Vec::new(),
            applied_changes_set: FxHashSet::default(),
            active_change: None,
            cursor_change: None,
            animating_hunk: None,
            step_direction: StepDirection::Unset,
            current_hunk: 0,
            total_hunks,
            last_nav_was_hunk: false,
            hunk_preview_mode: false,
            preview_from_backward: false,
            show_hunk_extent_while_stepping: false,
        }
    }

    /// The direction of the last step action.
    pub fn direction(&self) -> (d: StepDirection)
        ensures
            d == self@.step_direction,
    {
        self.step_direction
    }

    /// The change under the navigation cursor, if set.
    pub fn cursor_change_id(&self) -> (r: Option<usize>)
        ensures
            r == self@.cursor_change,
    {
        self.cursor_change
    }

    /// The hunk the cursor is in.
    pub fn current_hunk_index(&self) -> (r: usize)
        ensures
            r == self@.current_hunk,
    {
        self.current_hunk
    }

    /// Whether the last move was by hunk.
    pub fn moved_by_hunk(&self) -> (r: bool)
        ensures
            r == self@.last_nav_was_hunk,
    {
        self.last_nav_was_hunk
    }

    /// The change animated at the current step, if any.
    pub fn active_change_id(&self) -> (r: Option<usize>)
        ensures
            r == self@.active_change,
    {
        self.active_change
    }

    /// The change applied last, if any.
    pub fn last_applied(&self) -> (r: Option<usize>)
        ensures
            r == (if self@.applied.len() > 0 { Some(self@.applied.last()) } else { None::<usize> }),
    {
        let n = self.applied_changes.len();
        if n > 0 {
            Some(self.applied_changes[n - 1])
        } else {
            None
        }
    }

    /// Whether no change is applied (step 0).
    pub fn is_at_start(&self) -> (b: bool)
        ensures
            b == (self@.current_step == 0),
    {
        self.current_step == 0
    }

    /// Whether all changes are applied (last step).
    pub fn is_at_end(&self) -> (b: bool)
        requires
            self@.total_steps >= 1,
        ensures
            b == (self@.current_step >= self@.total_steps - 1),
    {
        self.current_step >= self.total_steps - 1
    }

    /// Rebuilds the applied set from the applied list.
    pub(crate) fn rebuild_applied_set(&mut self)
        ensures
            final(self)@ == old(self)@,
            final(self).set_mirrors(),
    {
        let mut set: FxHashSet<usize> = FxHashSet::default();
        let mut i: usize = 0;
        while i < self.applied_changes.len()
            invariant
                i <= self.applied_changes@.len(),
                forall|x: usize| #[trigger] set@.contains(x) <==> exists|k: int| 0 <= k < i && self.applied_changes@[k] == x,
            decreases self.applied_changes@.len() - i,
        {
            let id = self.applied_changes[i];
            fx_set_insert(&mut set, id);
            proof {
                assert forall|x: usize| #[trigger] set@.contains(x) <==> exists|k: int| 0 <= k < i + 1 && self.applied_changes@[k] == x by {
                    if x == id {
                        assert(self.applied_changes@[i as int] == x);
                    }
                }
            }
            i = i + 1;
        }
        self.applied_changes_set = set;
        proof {
            assert forall|x: usize| #[trigger] self.applied_changes_set@.contains(x) <==> self.applied_changes@.contains(x) by {
                if self.applied_changes@.contains(x) {
                    let k = choose|k: int| 0 <= k < self.applied_changes@.len() && self.applied_changes@[k] == x;
                }
            }
        }
    }

    /// Whether the change is applied.
    pub fn is_applied(&self, change_id: usize) -> (b: bool)
        ensures
            b == self.applied_spec(change_id),
            self.set_mirrors() ==> b == self@.applied.contains(change_id),
    {
        fx_set_contains(&self.applied_changes_set, change_id)
    }

    /// Applies a change (appended unless already applied).
    pub(crate) fn push_applied(&mut self, change_id: usize)
        requires
            old(self).set_mirrors(),
        ensures
            final(self)@ == (StepView { applied: push_new(old(self)@.applied, change_id), ..old(self)@ }),
            final(self).set_mirrors(),
    {
        let ghost a = self.applied_changes@;
        if fx_set_insert(&mut self.applied_changes_set, change_id) {
            self.applied_changes.push(change_id);
            proof {
                assert(!a.contains(change_id));
                let b = self.applied_changes@;
                assert(b == a.push(change_id));
                assert forall|x: usize| #[trigger] self.applied_changes_set@.contains(x) <==> b.contains(x) by {
                    if b.contains(x) {
                        let k = choose|k: int| 0 <= k < b.len() && b[k] == x;
                        if k < a.len() {
                            assert(a[k] == x);
                        }
                    }
                    if a.contains(x) {
                        let k = choose|k: int| 0 <= k < a.len() && a[k] == x;
                        assert(b[k] == x);
                    }
                    if x == change_id {
                        assert(b[a.len() as int] == x);
                    }
                }
            }
        } else {
            assert(a.contains(change_id));
        }
    }

    /// Un-applies the last applied change and returns it.
    pub(crate) fn pop_applied(&mut self) -> (r: Option<usize>)
        requires
            old(self).set_mirrors(),
            distinct(old(self)@.applied),
        ensures
            old(self)@.applied.len() == 0 ==> r is None && final(self)@ == old(self)@,
            old(self)@.applied.len() > 0 ==> r == Some(old(self)@.applied.last()) && final(self)@ == (StepView {
                applied: old(self)@.applied.drop_last(),
                ..old(self)@
            }),
            final(self).set_mirrors(),
    {
        match self.applied_changes.pop() {
            Some(change_id) => {
                fx_set_remove(&mut self.applied_changes_set, change_id);
                proof {
                    let a = old(self).applied_changes@;
                    assert forall|x: usize| #[trigger] self.applied_changes_set@.contains(x) <==> self.applied_changes@.contains(x) by {
                        if self.applied_changes@.contains(x) {
                            let k = choose|k: int| 0 <= k < self.applied_changes@.len() && self.applied_changes@[k] == x;
                            assert(a[k] == x);
                            assert(a.contains(x));
                            assert(x != change_id);
                        }
                        if x != change_id && a.contains(x) {
                            let k = choose|k: int| 0 <= k < a.len() && a[k] == x;
                            assert(k < a.len() - 1);
                            assert(self.applied_changes@[k] == x);
                        }
                    }
                }
                Some(change_id)
            },
            None => None,
        }
    }

    /// Un-applies the changes after the first `new_len`; returns how many.
    pub(crate) fn truncate_applied_to(&mut self, new_len: usize) -> (removed: usize)
        requires
            old(self).set_mirrors(),
            distinct(old(self)@.applied),
        ensures
            new_len >= old(self)@.applied.len() ==> removed == 0 && final(self)@ == old(self)@,
            new_len < old(self)@.applied.len() ==> removed == old(self)@.applied.len() - new_len && final(self)@ == (StepView {
                applied: old(self)@.applied.take(new_len as int),
                ..old(self)@
            }),
            final(self).set_mirrors(),
    {
        let old_len = self.applied_changes.len();
        if new_len >= old_len {
            return 0;
        }
        let ghost a = self.applied_changes@;
        let ghost v = self@;
        let mut i = new_len;
        while i < old_len
            invariant
                a == self.applied_changes@,
                v == self@,
                old_len == a.len(),
                new_len <= i <= old_len,
                distinct(a),
                forall|x: usize| #[trigger] self.applied_changes_set@.contains(x) <==> (exists|k: int|
                    0 <= k < a.len() && a[k] == x && !(new_len <= k < i)),
            decreases old_len - i,
        {
            let id = self.applied_changes[i];
            fx_set_remove(&mut self.applied_changes_set, id);
            proof {
                assert forall|x: usize| #[trigger] self.applied_changes_set@.contains(x) <==> (exists|k: int|
                    0 <= k < a.len() && a[k] == x && !(new_len <= k < i + 1)) by {
                    if x == id {
                        if exists|k: int| 0 <= k < a.len() && a[k] == x && !(new_len <= k < i + 1) {
                            let k = choose|k: int| 0 <= k < a.len() && a[k] == x && !(new_len <= k < i + 1);
                            assert(a[i as int] == x);
                            assert(k == i);
                        }
                    }
                }
            }
            i = i + 1;
        }
        self.applied_changes.truncate(new_len);
        assert(self.applied_changes@ =~= a.take(new_len as int));
        proof {
            assert forall|x: usize| #[trigger] self.applied_changes_set@.contains(x) <==> self.applied_changes@.contains(x) by {
                if self.applied_changes@.contains(x) {
                    let k = choose|k: int| 0 <= k < self.applied_changes@.len() && self.applied_changes@[k] == x;
                    assert(a[k] == x);
                }
                if self.applied_changes_set@.contains(x) {
                    let k = choose|k: int| 0 <= k < a.len() && a[k] == x && !(new_len <= k < old_len);
                    assert(self.applied_changes@[k] == x);
                }
            }
        }
        old_len - new_len
    }

    /// Un-applies everything.
    pub(crate) fn clear_applied(&mut self)
        ensures
            final(self)@ == (StepView { applied: Seq::empty(), ..old(self)@ }),
            final(self).set_mirrors(),
    {
        self.applied_changes.clear();
        self.applied_changes_set.clear();
    }
}

/// The number of context changes added on each side of a hunk's change
/// range when the lookup tables are built for a large diff.
pub const LARGE_CONTEXT_PAD: usize = 3;

/// The step indices of a hunk's changes: the first and how many.
#[derive(Debug, Clone, Copy)]
pub(crate) struct HunkStepRange {
    pub(crate) start: usize,
    pub(crate) len: usize,
}

/// The navigator's lookup tables, built once from the diff.
pub(crate) struct Tables {
    /// Change index -> hunk index (ranges padded with context for large diffs).
    pub(crate) change_to_hunk: Vec<Option<usize>>,
    /// Change id -> hunk id, exact.
    pub(crate) change_id_to_hunk_exact: Vec<Option<usize>>,
    /// Change id -> change index.
    pub(crate) change_to_index: Vec<Option<usize>>,
    /// Change id -> step index (position among the significant changes).
    pub(crate) change_to_step_index: Vec<Option<usize>>,
    /// Per hunk: first step index and number of steps.
    pub(crate) hunk_step_ranges: Vec<Option<HunkStepRange>>,
    /// Per hunk: change index range (inclusive), padded for large diffs.
    pub(crate) hunk_change_ranges: Vec<Option<(usize, usize)>>,
    /// Per hunk: change index range (inclusive), exact.
    pub(crate) hunk_change_ranges_exact: Vec<Option<(usize, usize)>>,
}

/// Evolution view caches (filled together on first use).
pub(crate) struct EvoCache {
    /// Display index per change (`None` when hidden).
    pub(crate) visible_index: Option<Vec<Option<usize>>>,
    /// Number of visible changes.
    pub(crate) visible_len: Option<usize>,
    /// Change index per display index.
    pub(crate) display_to_change: Option<Vec<usize>>,
    /// Nearest visible change index per change.
    pub(crate) nearest_visible: Option<Vec<Option<usize>>>,
}

/// Navigator for stepping through the changes of a diff.
pub struct DiffNavigator {
    /// The diff being navigated.
    diff: DiffResult,
    /// The current step state.
    state: StepState,
    /// The old text.
    old_content: String,
    /// The new text.
    new_content: String,
    /// Whether the tables are built for a large diff (padded hunk ranges,
    /// direct jumps).
    lazy_maps: bool,
    /// The lookup tables.
    tables: Tables,
    /// Evolution view caches, filled on first use.
    evo: EvoCache,
}

/// A navigator as plain values.
pub struct NavView {
    pub diff: DiffView,
    pub state: StepView,
    pub old_content: Seq<char>,
    pub new_content: Seq<char>,
    pub lazy_maps: bool,
}

/// A navigator at the start of a diff: nothing applied, no direction, the
/// hunk cursor on the first hunk.
pub open spec fn fresh_nav(d: DiffView, old_content: Seq<char>, new_content: Seq<char>, lazy_maps: bool) -> NavView {
    NavView {
        diff: d,
        state: StepView {
            current_step: 0,
            total_steps: (d.sig.len() + 1) as usize,
            applied: Seq::empty(),
            active_change: None,
            cursor_change: None,
            animating_hunk: None,
            step_direction: StepDirection::Unset,
            current_hunk: 0,
            total_hunks: d.hunks.len() as usize,
            last_nav_was_hunk: false,
            hunk_preview_mode: false,
            preview_from_backward: false,
            show_hunk_extent_while_stepping: false,
        },
        old_content,
        new_content,
        lazy_maps,
    }
}

impl View for DiffNavigator {
    type V = NavView;

    closed spec fn view(&self) -> NavView {
        NavView {
            diff: self.diff@,
            state: self.state@,
            old_content: self.old_content@,
            new_content: self.new_content@,
            lazy_maps: self.lazy_maps,
        }
    }
}

/// A diff the navigator accepts: well formed, with room to count.
pub open spec fn nav_diff_ok(d: DiffView) -> bool {
    &&& well_formed(d)
    &&& d.sig.len() < usize::MAX / 4
    &&& d.changes.len() < usize::MAX / 4
    &&& d.hunks.len() < usize::MAX / 4
    &&& forall|i: int| 0 <= i < d.changes.len() ==> (#[trigger] d.changes[i]).id < usize::MAX
}

/// Whether a well-formed diff is one the navigator accepts: the counts
/// leave room, and no change has the largest id.
pub fn navigator_fits(diff: &DiffResult) -> (ok: bool)
    requires
        well_formed(diff@),
    ensures
        ok == nav_diff_ok(diff@),
{
    let quarter: usize = usize::MAX / 4;
    if diff.significant_changes.len() >= quarter || diff.changes.len() >= quarter || diff.hunks.len() >= quarter {
        return false;
    }
    let mut i: usize = 0;
    while i < diff.changes.len()
        invariant
            i <= diff.changes.len(),
            forall|k: int| 0 <= k < i ==> (#[trigger] diff@.changes[k]).id < usize::MAX,
        decreases diff.changes.len() - i,
    {
        if diff.changes[i].id == usize::MAX {
            assert(diff@.changes[i as int].id == usize::MAX);
            return false;
        }
        i = i + 1;
    }
    true
}

/// A step state that fits a diff, but for the bound on the step: the
/// counts match; the applied ids are significant ids, none twice; the hunk
/// cursor names a hunk when there is one.
pub open spec fn state_core_ok(d: DiffView, s: StepView) -> bool {
    &&& s.total_steps == d.sig.len() + 1
    &&& s.total_hunks == d.hunks.len()
    &&& distinct(s.applied)
    &&& forall|k: int| 0 <= k < s.applied.len() ==> d.sig.contains(#[trigger] s.applied[k])
    &&& d.hunks.len() > 0 ==> s.current_hunk < d.hunks.len()
}

/// A step state that fits a diff: `state_core_ok`, and the step is at most
/// the applied count plus the number of significant changes.
pub open spec fn state_ok(d: DiffView, s: StepView) -> bool {
    &&& state_core_ok(d, s)
    &&& s.current_step <= s.applied.len() + d.sig.len()
}

impl DiffNavigator {
    /// The navigator's invariant: an accepted diff, a fitting state, and
    /// lookup tables and caches that agree with the diff.
    pub closed spec fn inv(&self) -> bool {
        &&& nav_diff_ok(self.diff@)
        &&& state_ok(self.diff@, self.state@)
        &&& self.state.set_mirrors()
        &&& self.tables.ok(self.diff@, self.lazy_maps)
        &&& self.evo.ok(self.diff@)
    }

    /// A navigator that keeps its invariant holds an accepted diff and a
    /// state that fits it.
    pub proof fn lemma_inv_diff(&self)
        requires
            self.inv(),
        ensures
            nav_diff_ok(self@.diff),
            state_ok(self@.diff, self@.state),
    {
    }

    /// The invariant but for the bound on the step.
    pub(crate) closed spec fn inv_core(&self) -> bool {
        &&& nav_diff_ok(self.diff@)
        &&& state_core_ok(self.diff@, self.state@)
        &&& self.state.set_mirrors()
        &&& self.tables.ok(self.diff@, self.lazy_maps)
        &&& self.evo.ok(self.diff@)
    }
}

} // verus!
