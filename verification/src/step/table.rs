//! The navigator's lookup tables: where each change sits among the
//! changes, the steps and the hunks, built once from the diff.

use super::{fresh_nav, nav_diff_ok, DiffNavigator, EvoCache, HunkStepRange, NavView, StepState, StepView, Tables, LARGE_CONTEXT_PAD};
use crate::change::{Change, ChangeView};
use crate::diff::{DiffResult, DiffView, Hunk, HunkView};
use vstd::prelude::*;

verus! {

/// The largest change id among the first `n` changes (0 when none).
pub open spec fn max_id_upto(cs: Seq<ChangeView>, n: int) -> usize
    decreases n,
{
    if n <= 0 {
        0
    } else {
        let m = max_id_upto(cs, n - 1);
        if cs[n - 1].id > m {
            cs[n - 1].id
        } else {
            m
        }
    }
}

/// The largest change id of the diff (0 when it has no change).
pub open spec fn max_change_id(d: DiffView) -> usize {
    max_id_upto(d.changes, d.changes.len() as int)
}

/// Position of the last of the first `n` changes with the given id.
pub open spec fn last_change_pos(cs: Seq<ChangeView>, id: usize, n: int) -> Option<usize>
    decreases n,
{
    if n <= 0 {
        None
    } else if cs[n - 1].id == id {
        Some((n - 1) as usize)
    } else {
        last_change_pos(cs, id, n - 1)
    }
}

/// Position of the last of the first `n` entries equal to `id`.
pub open spec fn last_pos(s: Seq<usize>, id: usize, n: int) -> Option<usize>
    decreases n,
{
    if n <= 0 {
        None
    } else if s[n - 1] == id {
        Some((n - 1) as usize)
    } else {
        last_pos(s, id, n - 1)
    }
}

/// Index of the last of the first `n` hunks that holds the change id.
pub open spec fn last_hunk_holding(hunks: Seq<HunkView>, id: usize, n: int) -> Option<int>
    decreases n,
{
    if n <= 0 {
        None
    } else if hunks[n - 1].change_ids.contains(id) {
        Some(n - 1)
    } else {
        last_hunk_holding(hunks, id, n - 1)
    }
}

/// The change index of a change id: the last change with that id. Ids
/// above the largest change id have none.
pub open spec fn change_index_spec(d: DiffView, id: usize) -> Option<usize> {
    if id <= max_change_id(d) {
        last_change_pos(d.changes, id, d.changes.len() as int)
    } else {
        None
    }
}

/// The step index of a change id: its position among the significant
/// ids (the last one). Ids above the largest change id have none.
pub open spec fn step_index_spec(d: DiffView, id: usize) -> Option<usize> {
    if id <= max_change_id(d) {
        last_pos(d.sig, id, d.sig.len() as int)
    } else {
        None
    }
}

/// The id of the (last) hunk that holds a change id. Ids above the largest
/// change id have none.
pub open spec fn exact_hunk_spec(d: DiffView, id: usize) -> Option<usize> {
    if id <= max_change_id(d) {
        match last_hunk_holding(d.hunks, id, d.hunks.len() as int) {
            Some(h) => Some(d.hunks[h].id),
            None => None,
        }
    } else {
        None
    }
}

/// The smallest and largest change index of the first `n` ids that have
/// one.
pub open spec fn range_upto(d: DiffView, ids: Seq<usize>, n: int) -> Option<(usize, usize)>
    decreases n,
{
    if n <= 0 {
        None
    } else {
        let prev = range_upto(d, ids, n - 1);
        match change_index_spec(d, ids[n - 1]) {
            Some(i) => match prev {
                Some((a, b)) => Some((if i < a { i } else { a }, if i > b { i } else { b })),
                None => Some((i, i)),
            },
            None => prev,
        }
    }
}

/// The change index range (inclusive) of a hunk's changes.
pub open spec fn exact_range_spec(d: DiffView, h: int) -> Option<(usize, usize)> {
    range_upto(d, d.hunks[h].change_ids, d.hunks[h].change_ids.len() as int)
}

/// `a - b`, or 0.
pub open spec fn sat_sub(a: usize, b: usize) -> usize {
    if a >= b {
        (a - b) as usize
    } else {
        0
    }
}

/// The change index range of a hunk, padded with `LARGE_CONTEXT_PAD`
/// changes on each side (within the changes) for large diffs.
pub open spec fn padded_range_spec(d: DiffView, lazy: bool, h: int) -> Option<(usize, usize)> {
    match exact_range_spec(d, h) {
        Some((a, b)) => if lazy {
            let top = sat_sub(d.changes.len() as usize, 1);
            Some((sat_sub(a, LARGE_CONTEXT_PAD), if b + LARGE_CONTEXT_PAD < top { (b + LARGE_CONTEXT_PAD) as usize } else { top }))
        } else {
            Some((a, b))
        },
        None => None,
    }
}

/// The first of the first `n` hunks whose padded range covers the change
/// index.
pub open spec fn first_hunk_covering(d: DiffView, lazy: bool, idx: usize, n: int) -> Option<usize>
    decreases n,
{
    if n <= 0 {
        None
    } else {
        let prev = first_hunk_covering(d, lazy, idx, n - 1);
        if prev is Some {
            prev
        } else {
            match padded_range_spec(d, lazy, n - 1) {
                Some((s, e)) => if s <= idx <= e {
                    Some((n - 1) as usize)
                } else {
                    None
                },
                None => None,
            }
        }
    }
}

/// The hunk of a change index: the first hunk whose padded range covers it.
pub open spec fn hunk_of_index_spec(d: DiffView, lazy: bool, idx: usize) -> Option<usize> {
    if idx < d.changes.len() {
        first_hunk_covering(d, lazy, idx, d.hunks.len() as int)
    } else {
        None
    }
}

/// The hunk of a change id, through its change index.
pub open spec fn hunk_of_change_spec(d: DiffView, lazy: bool, id: usize) -> Option<usize> {
    match change_index_spec(d, id) {
        Some(i) => hunk_of_index_spec(d, lazy, i),
        None => None,
    }
}

/// The smallest step index (or `usize::MAX`) and the number of the first
/// `n` ids that have a step index.
pub open spec fn step_min_count(d: DiffView, ids: Seq<usize>, n: int) -> (int, int)
    decreases n,
{
    if n <= 0 {
        (usize::MAX as int, 0)
    } else {
        let (m, c) = step_min_count(d, ids, n - 1);
        match step_index_spec(d, ids[n - 1]) {
            Some(k) => (if k < m { k as int } else { m }, c + 1),
            None => (m, c),
        }
    }
}

/// The steps of a hunk: its first step index and how many of its changes
/// are steps.
pub open spec fn step_range_spec(d: DiffView, h: int) -> Option<(usize, usize)> {
    let ids = d.hunks[h].change_ids;
    let (m, c) = step_min_count(d, ids, ids.len() as int);
    if ids.len() == 0 || c == 0 || m == usize::MAX {
        None
    } else {
        Some((m as usize, c as usize))
    }
}

/// A step range as plain values.
pub(crate) open spec fn step_range_view(r: Option<HunkStepRange>) -> Option<(usize, usize)> {
    match r {
        Some(x) => Some((x.start, x.len)),
        None => None,
    }
}

impl Tables {
    /// The lookup tables agree with the diff.
    pub(crate) closed spec fn ok(&self, d: DiffView, lazy: bool) -> bool {
        let m = max_change_id(d);
        &&& self.change_to_index@.len() == m + 1
        &&& forall|id: int| 0 <= id <= m ==> #[trigger] self.change_to_index@[id] == change_index_spec(d, id as usize)
        &&& self.change_to_step_index@.len() == m + 1
        &&& forall|id: int| 0 <= id <= m ==> #[trigger] self.change_to_step_index@[id] == step_index_spec(d, id as usize)
        &&& self.change_id_to_hunk_exact@.len() == m + 1
        &&& forall|id: int| 0 <= id <= m ==> #[trigger] self.change_id_to_hunk_exact@[id] == exact_hunk_spec(d, id as usize)
        &&& self.hunk_change_ranges_exact@.len() == d.hunks.len()
        &&& forall|h: int| 0 <= h < d.hunks.len() ==> #[trigger] self.hunk_change_ranges_exact@[h] == exact_range_spec(d, h)
        &&& self.hunk_change_ranges@.len() == d.hunks.len()
        &&& forall|h: int| 0 <= h < d.hunks.len() ==> #[trigger] self.hunk_change_ranges@[h] == padded_range_spec(d, lazy, h)
        &&& self.change_to_hunk@.len() == d.changes.len()
        &&& forall|i: int| 0 <= i < d.changes.len() ==> #[trigger] self.change_to_hunk@[i] == hunk_of_index_spec(d, lazy, i as usize)
        &&& self.hunk_step_ranges@.len() == d.hunks.len()
        &&& forall|h: int| 0 <= h < d.hunks.len() ==> #[trigger] step_range_view(self.hunk_step_ranges@[h]) == step_range_spec(d, h)
    }
}

/// A table of `n` empty entries.
pub(crate) fn none_table(n: usize) -> (v: Vec<Option<usize>>)
    ensures
        v@.len() == n,
        forall|i: int| 0 <= i < n ==> v@[i] is None,
{
    let mut v: Vec<Option<usize>> = Vec::new();
    let mut i: usize = 0;
    while i < n
        invariant
            i <= n,
            v@.len() == i,
            forall|j: int| 0 <= j < i ==> v@[j] is None,
        decreases n - i,
    {
        v.push(None);
        i = i + 1;
    }
    v
}

/// The largest change id.
fn max_id_of(changes: &Vec<Change>) -> (m: usize)
    ensures
        m == max_id_upto(crate::change::change_views(changes@), changes@.len() as int),
{
    let ghost cv = crate::change::change_views(changes@);
    let mut m: usize = 0;
    let mut i: usize = 0;
    while i < changes.len()
        invariant
            cv == crate::change::change_views(changes@),
            i <= changes@.len(),
            m == max_id_upto(cv, i as int),
        decreases changes@.len() - i,
    {
        if changes[i].id > m {
            m = changes[i].id;
        }
        i = i + 1;
    }
    m
}

/// Change id -> change index.
fn build_change_to_index(changes: &Vec<Change>, m: usize) -> (v: Vec<Option<usize>>)
    requires
        m < usize::MAX,
    ensures
        v@.len() == m + 1,
        forall|id: int| 0 <= id <= m ==> #[trigger] v@[id] == last_change_pos(crate::change::change_views(changes@), id as usize, changes@.len() as int),
{
    let ghost cv = crate::change::change_views(changes@);
    let mut v = none_table(m + 1);
    let mut i: usize = 0;
    while i < changes.len()
        invariant
            cv == crate::change::change_views(changes@),
            i <= changes@.len(),
            v@.len() == m + 1,
            forall|id: int| 0 <= id <= m ==> #[trigger] v@[id] == last_change_pos(cv, id as usize, i as int),
        decreases changes@.len() - i,
    {
        let id = changes[i].id;
        if id <= m {
            v.set(id, Some(i));
        }
        i = i + 1;
    }
    v
}

/// Change id -> step index.
fn build_step_index(sig: &Vec<usize>, m: usize) -> (v: Vec<Option<usize>>)
    requires
        m < usize::MAX,
    ensures
        v@.len() == m + 1,
        forall|id: int| 0 <= id <= m ==> #[trigger] v@[id] == last_pos(sig@, id as usize, sig@.len() as int),
{
    let mut v = none_table(m + 1);
    let mut i: usize = 0;
    while i < sig.len()
        invariant
            i <= sig@.len(),
            v@.len() == m + 1,
            forall|id: int| 0 <= id <= m ==> #[trigger] v@[id] == last_pos(sig@, id as usize, i as int),
        decreases sig@.len() - i,
    {
        let id = sig[i];
        if id <= m {
            v.set(id, Some(i));
        }
        i = i + 1;
    }
    v
}

/// Change id -> id of the (last) hunk holding it.
fn build_exact_hunks(hunks: &Vec<Hunk>, m: usize) -> (v: Vec<Option<usize>>)
    requires
        m < usize::MAX,
    ensures
        v@.len() == m + 1,
        forall|id: int| 0 <= id <= m ==> #[trigger] v@[id] == (match last_hunk_holding(crate::diff::hunk_views(hunks@), id as usize, hunks@.len() as int) {
            Some(h) => Some(crate::diff::hunk_views(hunks@)[h].id),
            None => None::<usize>,
        }),
{
    let ghost hv = crate::diff::hunk_views(hunks@);
    let mut v = none_table(m + 1);
    let mut h: usize = 0;
    while h < hunks.len()
        invariant
            hv == crate::diff::hunk_views(hunks@),
            h <= hunks@.len(),
            v@.len() == m + 1,
            forall|id: int| 0 <= id <= m ==> #[trigger] v@[id] == (match last_hunk_holding(hv, id as usize, h as int) {
                Some(k) => Some(hv[k].id),
                None => None::<usize>,
            }),
        decreases hunks@.len() - h,
    {
        let ids = &hunks[h].change_ids;
        let hid = hunks[h].id;
        let mut j: usize = 0;
        while j < ids.len()
            invariant
                hv == crate::diff::hunk_views(hunks@),
                h < hunks@.len(),
                ids@ == hv[h as int].change_ids,
                hid == hv[h as int].id,
                j <= ids@.len(),
                v@.len() == m + 1,
                forall|id: int| 0 <= id <= m ==> #[trigger] v@[id] == (if ids@.take(j as int).contains(id as usize) {
                    Some(hid)
                } else {
                    match last_hunk_holding(hv, id as usize, h as int) {
                        Some(k) => Some(hv[k].id),
                        None => None::<usize>,
                    }
                }),
            decreases ids@.len() - j,
        {
            let id = ids[j];
            if id <= m {
                v.set(id, Some(hid));
            }
            proof {
                assert forall|x: int| 0 <= x <= m implies #[trigger] v@[x] == (if ids@.take(j + 1).contains(x as usize) {
                    Some(hid)
                } else {
                    match last_hunk_holding(hv, x as usize, h as int) {
                        Some(k) => Some(hv[k].id),
                        None => None::<usize>,
                    }
                }) by {
                    assert(ids@.take(j + 1) =~= ids@.take(j as int).push(id));
                    if ids@.take(j as int).contains(x as usize) {
                        let w = choose|w: int| 0 <= w < j && ids@.take(j as int)[w] == x as usize;
                        assert(ids@.take(j + 1)[w] == x as usize);
                    }
                    if x as usize == id {
                        assert(ids@.take(j + 1)[j as int] == id);
                    }
                }
            }
            j = j + 1;
        }
        proof {
            assert(ids@.take(ids@.len() as int) =~= ids@);
        }
        h = h + 1;
    }
    v
}

proof fn lemma_max_id_bound(cs: Seq<ChangeView>, n: int)
    requires
        0 <= n <= cs.len(),
        forall|i: int| 0 <= i < cs.len() ==> (#[trigger] cs[i]).id < usize::MAX,
    ensures
        max_id_upto(cs, n) < usize::MAX,
    decreases n,
{
    if n > 0 {
        lemma_max_id_bound(cs, n - 1);
    }
}

pub(crate) proof fn lemma_last_change_pos_bound(cs: Seq<ChangeView>, id: usize, n: int)
    requires
        0 <= n <= cs.len(),
        cs.len() <= usize::MAX,
    ensures
        last_change_pos(cs, id, n) matches Some(i) ==> i < n && cs[i as int].id == id,
    decreases n,
{
    if n > 0 {
        lemma_last_change_pos_bound(cs, id, n - 1);
    }
}

pub(crate) proof fn lemma_range_bound(d: DiffView, ids: Seq<usize>, n: int)
    requires
        0 <= n <= ids.len(),
        d.changes.len() <= usize::MAX,
    ensures
        range_upto(d, ids, n) matches Some((a, b)) ==> a <= b < d.changes.len(),
    decreases n,
{
    if n > 0 {
        lemma_range_bound(d, ids, n - 1);
        lemma_last_change_pos_bound(d.changes, ids[n - 1], d.changes.len() as int);
    }
}

proof fn lemma_step_count_bound(d: DiffView, ids: Seq<usize>, n: int)
    requires
        0 <= n <= ids.len(),
    ensures
        0 <= step_min_count(d, ids, n).1 <= n,
        step_min_count(d, ids, n).0 <= usize::MAX,
        step_min_count(d, ids, n).0 >= 0,
    decreases n,
{
    if n > 0 {
        lemma_step_count_bound(d, ids, n - 1);
    }
}

/// Per hunk: the change index range of its changes.
fn build_exact_ranges(diff: &DiffResult, cti: &Vec<Option<usize>>, m: usize) -> (v: Vec<Option<(usize, usize)>>)
    requires
        m == max_change_id(diff@),
        cti@.len() == m + 1,
        forall|id: int| 0 <= id <= m ==> #[trigger] cti@[id] == change_index_spec(diff@, id as usize),
        diff@.changes.len() < usize::MAX,
    ensures
        v@.len() == diff@.hunks.len(),
        forall|h: int| 0 <= h < diff@.hunks.len() ==> #[trigger] v@[h] == exact_range_spec(diff@, h),
{
    let ghost d = diff@;
    let mut v: Vec<Option<(usize, usize)>> = Vec::new();
    let mut h: usize = 0;
    while h < diff.hunks.len()
        invariant
            d == diff@,
            m == max_change_id(d),
            cti@.len() == m + 1,
            forall|id: int| 0 <= id <= m ==> #[trigger] cti@[id] == change_index_spec(d, id as usize),
            d.changes.len() < usize::MAX,
            h <= d.hunks.len(),
            v@.len() == h,
            forall|k: int| 0 <= k < h ==> #[trigger] v@[k] == exact_range_spec(d, k),
        decreases d.hunks.len() - h,
    {
        let ids = &diff.hunks[h].change_ids;
        assert(ids@ == d.hunks[h as int].change_ids);
        let mut mn: usize = usize::MAX;
        let mut mx: usize = 0;
        let mut j: usize = 0;
        while j < ids.len()
            invariant
                d == diff@,
                m == max_change_id(d),
                cti@.len() == m + 1,
                forall|id: int| 0 <= id <= m ==> #[trigger] cti@[id] == change_index_spec(d, id as usize),
                d.changes.len() < usize::MAX,
                j <= ids@.len(),
                match range_upto(d, ids@, j as int) {
                    Some((a, b)) => mn == a && mx == b,
                    None => mn == usize::MAX && mx == 0,
                },
            decreases ids@.len() - j,
        {
            let id = ids[j];
            let found = if id <= m {
                cti[id]
            } else {
                None
            };
            proof {
                lemma_range_bound(d, ids@, j as int);
                lemma_last_change_pos_bound(d.changes, id, d.changes.len() as int);
            }
            match found {
                Some(idx) => {
                    if idx < mn {
                        mn = idx;
                    }
                    if idx > mx {
                        mx = idx;
                    }
                },
                None => {},
            }
            j = j + 1;
        }
        proof {
            lemma_range_bound(d, ids@, ids@.len() as int);
        }
        if mn == usize::MAX {
            v.push(None);
        } else {
            v.push(Some((mn, mx)));
        }
        h = h + 1;
    }
    v
}

/// Per hunk: the change index range, padded for large diffs.
fn build_padded_ranges(exact: &Vec<Option<(usize, usize)>>, lazy: bool, n_changes: usize) -> (v: Vec<Option<(usize, usize)>>)
    requires
        n_changes < usize::MAX / 4,
        forall|h: int| 0 <= h < exact@.len() ==> (#[trigger] exact@[h] matches Some((a, b)) ==> b < n_changes),
    ensures
        v@.len() == exact@.len(),
        forall|h: int| 0 <= h < exact@.len() ==> #[trigger] v@[h] == (match exact@[h] {
            Some((a, b)) => if lazy {
                let top = sat_sub(n_changes, 1);
                Some((sat_sub(a, LARGE_CONTEXT_PAD), if b + LARGE_CONTEXT_PAD < top { (b + LARGE_CONTEXT_PAD) as usize } else { top }))
            } else {
                Some((a, b))
            },
            None => None::<(usize, usize)>,
        }),
{
    let mut v: Vec<Option<(usize, usize)>> = Vec::new();
    let mut h: usize = 0;
    while h < exact.len()
        invariant
            n_changes < usize::MAX / 4,
            forall|h: int| 0 <= h < exact@.len() ==> (#[trigger] exact@[h] matches Some((a, b)) ==> b < n_changes),
            h <= exact@.len(),
            v@.len() == h,
            forall|k: int| 0 <= k < h ==> #[trigger] v@[k] == (match exact@[k] {
                Some((a, b)) => if lazy {
                    let top = sat_sub(n_changes, 1);
                    Some((sat_sub(a, LARGE_CONTEXT_PAD), if b + LARGE_CONTEXT_PAD < top { (b + LARGE_CONTEXT_PAD) as usize } else { top }))
                } else {
                    Some((a, b))
                },
                None => None::<(usize, usize)>,
            }),
        decreases exact@.len() - h,
    {
        match exact[h] {
            Some((a, b)) => {
                if lazy {
                    let top = n_changes.saturating_sub(1);
                    let end = if b + LARGE_CONTEXT_PAD < top { b + LARGE_CONTEXT_PAD } else { top };
                    v.push(Some((a.saturating_sub(LARGE_CONTEXT_PAD), end)));
                } else {
                    v.push(Some((a, b)));
                }
            },
            None => {
                v.push(None);
            },
        }
        h = h + 1;
    }
    v
}

/// Change index -> first hunk whose padded range covers it.
fn build_change_to_hunk(diff: &DiffResult, padded: &Vec<Option<(usize, usize)>>, lazy: bool) -> (v: Vec<Option<usize>>)
    requires
        padded@.len() == diff@.hunks.len(),
        forall|h: int| 0 <= h < diff@.hunks.len() ==> #[trigger] padded@[h] == padded_range_spec(diff@, lazy, h),
        forall|h: int| 0 <= h < diff@.hunks.len() ==> (#[trigger] padded@[h] matches Some((s, e)) ==> s <= e < diff@.changes.len()),
    ensures
        v@.len() == diff@.changes.len(),
        forall|i: int| 0 <= i < diff@.changes.len() ==> #[trigger] v@[i] == hunk_of_index_spec(diff@, lazy, i as usize),
{
    let ghost d = diff@;
    let n = diff.changes.len();
    let mut v = none_table(n);
    let mut h: usize = 0;
    while h < padded.len()
        invariant
            d == diff@,
            n == d.changes.len(),
            padded@.len() == d.hunks.len(),
            forall|h: int| 0 <= h < d.hunks.len() ==> #[trigger] padded@[h] == padded_range_spec(d, lazy, h),
            forall|h: int| 0 <= h < d.hunks.len() ==> (#[trigger] padded@[h] matches Some((s, e)) ==> s <= e < n),
            h <= padded@.len(),
            v@.len() == n,
            forall|i: int| 0 <= i < n ==> #[trigger] v@[i] == first_hunk_covering(d, lazy, i as usize, h as int),
        decreases padded@.len() - h,
    {
        match padded[h] {
            Some((s, e)) => {
                let mut idx = s;
                while idx <= e
                    invariant
                        d == diff@,
                        n == d.changes.len(),
                        padded@[h as int] == Some((s, e)),
                        padded@[h as int] == padded_range_spec(d, lazy, h as int),
                        h < padded@.len(),
                        s <= e < n,
                        s <= idx <= e + 1,
                        v@.len() == n,
                        forall|i: int| 0 <= i < n ==> #[trigger] v@[i] == (if s <= i < idx {
                            first_hunk_covering(d, lazy, i as usize, h + 1)
                        } else {
                            first_hunk_covering(d, lazy, i as usize, h as int)
                        }),
                    decreases e + 1 - idx,
                {
                    if v[idx].is_none() {
                        v.set(idx, Some(h));
                    }
                    idx = idx + 1;
                }
            },
            None => {},
        }
        h = h + 1;
    }
    v
}

/// Per hunk: its first step index and number of steps.
fn build_step_ranges(diff: &DiffResult, sti: &Vec<Option<usize>>, m: usize) -> (v: Vec<Option<HunkStepRange>>)
    requires
        m == max_change_id(diff@),
        sti@.len() == m + 1,
        forall|id: int| 0 <= id <= m ==> #[trigger] sti@[id] == step_index_spec(diff@, id as usize),
    ensures
        v@.len() == diff@.hunks.len(),
        forall|h: int| 0 <= h < diff@.hunks.len() ==> #[trigger] step_range_view(v@[h]) == step_range_spec(diff@, h),
{
    let ghost d = diff@;
    let mut v: Vec<Option<HunkStepRange>> = Vec::new();
    let mut h: usize = 0;
    while h < diff.hunks.len()
        invariant
            d == diff@,
            m == max_change_id(d),
            sti@.len() == m + 1,
            forall|id: int| 0 <= id <= m ==> #[trigger] sti@[id] == step_index_spec(d, id as usize),
            h <= d.hunks.len(),
            v@.len() == h,
            forall|k: int| 0 <= k < h ==> #[trigger] step_range_view(v@[k]) == step_range_spec(d, k),
        decreases d.hunks.len() - h,
    {
        let ids = &diff.hunks[h].change_ids;
        assert(ids@ == d.hunks[h as int].change_ids);
        if ids.len() == 0 {
            v.push(None);
        } else {
            let mut mn: usize = usize::MAX;
            let mut count: usize = 0;
            let mut j: usize = 0;
            while j < ids.len()
                invariant
                    d == diff@,
                    m == max_change_id(d),
                    sti@.len() == m + 1,
                    forall|id: int| 0 <= id <= m ==> #[trigger] sti@[id] == step_index_spec(d, id as usize),
                    j <= ids@.len(),
                    step_min_count(d, ids@, j as int) == (mn as int, count as int),
                decreases ids@.len() - j,
            {
                proof {
                    lemma_step_count_bound(d, ids@, j as int);
                }
                let id = ids[j];
                let found = if id <= m {
                    sti[id]
                } else {
                    None
                };
                match found {
                    Some(k) => {
                        if k < mn {
                            mn = k;
                        }
                        count = count + 1;
                    },
                    None => {},
                }
                j = j + 1;
            }
            if count > 0 && mn != usize::MAX {
                v.push(Some(HunkStepRange { start: mn, len: count }));
            } else {
                v.push(None);
            }
        }
        h = h + 1;
    }
    v
}

impl DiffNavigator {
    /// A navigator at the start of the diff, with its lookup tables built
    /// (padded hunk ranges and direct jumps when `lazy_maps`).
    pub fn new(diff: DiffResult, old_content: String, new_content: String, lazy_maps: bool) -> (nav: Self)
        requires
            nav_diff_ok(diff@),
        ensures
            nav.inv(),
            nav@ == fresh_nav(diff@, old_content@, new_content@, lazy_maps),
    {
        let ghost d = diff@;
        let total_changes = diff.significant_changes.len();
        let total_hunks = diff.hunks.len();
        let m = max_id_of(&diff.changes);
        proof {
            lemma_max_id_bound(d.changes, d.changes.len() as int);
        }
        let change_to_index = build_change_to_index(&diff.changes, m);
        let change_to_step_index = build_step_index(&diff.significant_changes, m);
        let change_id_to_hunk_exact = build_exact_hunks(&diff.hunks, m);
        let hunk_change_ranges_exact = build_exact_ranges(&diff, &change_to_index, m);
        proof {
            assert forall|h: int| 0 <= h < hunk_change_ranges_exact@.len() implies (#[trigger] hunk_change_ranges_exact@[h] matches Some((a, b)) ==> b < d.changes.len()) by {
                lemma_range_bound(d, d.hunks[h].change_ids, d.hunks[h].change_ids.len() as int);
            }
        }
        let hunk_change_ranges = build_padded_ranges(&hunk_change_ranges_exact, lazy_maps, diff.changes.len());
        proof {
            assert forall|h: int| 0 <= h < d.hunks.len() implies (#[trigger] hunk_change_ranges@[h] matches Some((s, e)) ==> s <= e < d.changes.len()) by {
                lemma_range_bound(d, d.hunks[h].change_ids, d.hunks[h].change_ids.len() as int);
            }
        }
        let change_to_hunk = build_change_to_hunk(&diff, &hunk_change_ranges, lazy_maps);
        let hunk_step_ranges = build_step_ranges(&diff, &change_to_step_index, m);
        let nav = DiffNavigator {
            diff,
            state: StepState::new(total_changes, total_hunks),
            old_content,
            new_content,
            lazy_maps,
            tables: Tables {
                change_to_hunk,
                change_id_to_hunk_exact,
                change_to_index,
                change_to_step_index,
                hunk_step_ranges,
                hunk_change_ranges,
                hunk_change_ranges_exact,
            },
            evo: EvoCache::empty(),
        };
        nav
    }
}

impl DiffNavigator {
    /// The change index of a change id.
    pub(crate) fn change_index(&self, change_id: usize) -> (r: Option<usize>)
        requires
            self.inv_core(),
        ensures
            r == change_index_spec(self@.diff, change_id),
            r matches Some(i) ==> i < self@.diff.changes.len(),
    {
        proof {
            lemma_last_change_pos_bound(self.diff@.changes, change_id, self.diff@.changes.len() as int);
        }
        if change_id < self.tables.change_to_index.len() {
            self.tables.change_to_index[change_id]
        } else {
            None
        }
    }

    /// The hunk of a change id (through its change index; hunk ranges are
    /// padded with context for large diffs).
    pub(crate) fn hunk_index_for_change(&self, change_id: usize) -> (r: Option<usize>)
        requires
            self.inv_core(),
        ensures
            r == hunk_of_change_spec(self@.diff, self@.lazy_maps, change_id),
    {
        match self.change_index(change_id) {
            Some(idx) => self.tables.change_to_hunk[idx],
            None => None,
        }
    }

    /// The hunk of a change id, exactly.
    pub(crate) fn hunk_index_for_change_exact(&self, change_id: usize) -> (r: Option<usize>)
        requires
            self.inv_core(),
        ensures
            r == exact_hunk_spec(self@.diff, change_id),
    {
        if change_id < self.tables.change_id_to_hunk_exact.len() {
            self.tables.change_id_to_hunk_exact[change_id]
        } else {
            None
        }
    }

    /// The change index range (inclusive) of a hunk, padded with context
    /// for large diffs.
    pub fn hunk_change_index_range(&self, hunk_idx: usize) -> (r: Option<(usize, usize)>)
        requires
            self.inv(),
        ensures
            r == (if hunk_idx < self@.diff.hunks.len() {
                padded_range_spec(self@.diff, self@.lazy_maps, hunk_idx as int)
            } else {
                None
            }),
    {
        if hunk_idx < self.tables.hunk_change_ranges.len() {
            self.tables.hunk_change_ranges[hunk_idx]
        } else {
            None
        }
    }

    /// The change index range (inclusive) of a hunk, exactly.
    pub fn hunk_change_index_range_exact(&self, hunk_idx: usize) -> (r: Option<(usize, usize)>)
        requires
            self.inv(),
        ensures
            r == (if hunk_idx < self@.diff.hunks.len() {
                exact_range_spec(self@.diff, hunk_idx as int)
            } else {
                None
            }),
    {
        if hunk_idx < self.tables.hunk_change_ranges_exact.len() {
            self.tables.hunk_change_ranges_exact[hunk_idx]
        } else {
            None
        }
    }

    /// The hunk of a change id (padded ranges for large diffs).
    pub fn hunk_index_for_change_id(&self, change_id: usize) -> (r: Option<usize>)
        requires
            self.inv(),
        ensures
            r == hunk_of_change_spec(self@.diff, self@.lazy_maps, change_id),
    {
        self.hunk_index_for_change(change_id)
    }

    /// The hunk of a change id, exactly.
    pub fn hunk_index_for_change_id_exact(&self, change_id: usize) -> (r: Option<usize>)
        requires
            self.inv(),
        ensures
            r == exact_hunk_spec(self@.diff, change_id),
    {
        self.hunk_index_for_change_exact(change_id)
    }

    /// The change index of a change id.
    pub fn change_index_for(&self, change_id: usize) -> (r: Option<usize>)
        requires
            self.inv(),
        ensures
            r == change_index_spec(self@.diff, change_id),
    {
        self.change_index(change_id)
    }

    /// The first step index of a hunk and its number of steps.
    pub fn hunk_step_range(&self, hunk_idx: usize) -> (r: Option<(usize, usize)>)
        requires
            self.inv(),
        ensures
            r == (if hunk_idx < self@.diff.hunks.len() {
                step_range_spec(self@.diff, hunk_idx as int)
            } else {
                None
            }),
    {
        if hunk_idx < self.tables.hunk_step_ranges.len() {
            assert(step_range_view(self.tables.hunk_step_ranges@[hunk_idx as int]) == step_range_spec(self@.diff, hunk_idx as int));
            match self.tables.hunk_step_ranges[hunk_idx] {
                Some(range) => Some((range.start, range.len)),
                None => None,
            }
        } else {
            None
        }
    }
}

pub(crate) proof fn lemma_last_pos_bound(s: Seq<usize>, id: usize, n: int)
    requires
        0 <= n <= s.len(),
        s.len() <= usize::MAX,
    ensures
        last_pos(s, id, n) matches Some(i) ==> i < n && s[i as int] == id,
    decreases n,
{
    if n > 0 {
        lemma_last_pos_bound(s, id, n - 1);
    }
}

impl DiffNavigator {
    /// The step index of a change id.
    pub(crate) fn step_index(&self, change_id: usize) -> (r: Option<usize>)
        requires
            self.inv_core(),
        ensures
            r == step_index_spec(self@.diff, change_id),
            r matches Some(k) ==> k < self@.diff.sig.len() && self@.diff.sig[k as int] == change_id,
    {
        proof {
            lemma_last_pos_bound(self.diff@.sig, change_id, self.diff@.sig.len() as int);
        }
        if change_id < self.tables.change_to_step_index.len() {
            self.tables.change_to_step_index[change_id]
        } else {
            None
        }
    }
}

} // verus!
