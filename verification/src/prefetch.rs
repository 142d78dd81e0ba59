//! Planning blame prefetches for the visible lines: which lines still lack
//! blame on each side, how wide a window to fetch around them, and how the
//! window joins the one fetched before.

use crate::step::{LineKind, ViewLine};
use vstd::prelude::*;

verus! {

/// The side of the diff a line's blame is read from.
#[derive(Debug, Clone, Copy, PartialEq, Eq, Structural)]
pub enum BlameSide {
    /// The old text (at its previous path).
    Old,
    /// The new text.
    New,
}

/// Where a view line's blame comes from: deleted lines from the old side,
/// inserted lines from the new side; other lines from the new side when
/// they have a new line number, else from the old side.
pub open spec fn blame_target_spec(kind: LineKind, old_line: Option<usize>, new_line: Option<usize>) -> Option<(BlameSide, usize)> {
    match kind {
        LineKind::Deleted | LineKind::PendingDelete => match old_line {
            Some(l) => Some((BlameSide::Old, l)),
            None => None,
        },
        LineKind::Inserted | LineKind::PendingInsert => match new_line {
            Some(l) => Some((BlameSide::New, l)),
            None => None,
        },
        _ => match new_line {
            Some(l) => Some((BlameSide::New, l)),
            None => match old_line {
                Some(l) => Some((BlameSide::Old, l)),
                None => None,
            },
        },
    }
}

/// Where a view line's blame comes from (see `blame_target_spec`).
pub fn blame_target(line: &ViewLine) -> (r: Option<(BlameSide, usize)>)
    ensures
        r == blame_target_spec(line.kind, line.old_line, line.new_line),
{
    match line.kind {
        LineKind::Deleted | LineKind::PendingDelete => match line.old_line {
            Some(l) => Some((BlameSide::Old, l)),
            None => None,
        },
        LineKind::Inserted | LineKind::PendingInsert => match line.new_line {
            Some(l) => Some((BlameSide::New, l)),
            None => None,
        },
        _ => match line.new_line {
            Some(l) => Some((BlameSide::New, l)),
            None => match line.old_line {
                Some(l) => Some((BlameSide::Old, l)),
                None => None,
            },
        },
    }
}

/// The target of the `k`-th visible line.
pub open spec fn visible_target(lines: Seq<ViewLine>, visible: Seq<usize>, k: int) -> Option<(BlameSide, usize)> {
    let line = lines[visible[k] as int];
    blame_target_spec(line.kind, line.old_line, line.new_line)
}

/// The line numbers on one side whose blame is missing, among the first
/// `n` visible lines, in order (`cached[k]`: the `k`-th visible line's
/// blame is known).
pub open spec fn missing_lines(lines: Seq<ViewLine>, visible: Seq<usize>, cached: Seq<bool>, side: BlameSide, n: int) -> Seq<usize>
    decreases n,
{
    if n <= 0 {
        Seq::empty()
    } else {
        let before = missing_lines(lines, visible, cached, side, n - 1);
        match visible_target(lines, visible, n - 1) {
            Some((s, l)) => if s == side && !cached[n - 1] { before.push(l) } else { before },
            None => before,
        }
    }
}

/// The entries of `s` equal to `v`, in order.
pub open spec fn keep_equal(s: Seq<usize>, v: usize) -> Seq<usize>
    decreases s.len(),
{
    if s.len() == 0 {
        Seq::empty()
    } else if s.last() == v {
        keep_equal(s.drop_last(), v).push(v)
    } else {
        keep_equal(s.drop_last(), v)
    }
}

/// The first visible line (by position among the visible ones) that holds
/// the cursor, else the first that is part of the active change.
pub open spec fn focus_spec(lines: Seq<ViewLine>, visible: Seq<usize>) -> Option<int> {
    if exists|k: int| 0 <= k < visible.len() && (#[trigger] lines[visible[k] as int]).is_primary_active {
        Some(choose|k: int| 0 <= k < visible.len() && lines[visible[k] as int].is_primary_active
            && forall|j: int| 0 <= j < k ==> !(#[trigger] lines[visible[j] as int]).is_primary_active)
    } else if exists|k: int| 0 <= k < visible.len() && (#[trigger] lines[visible[k] as int]).is_active_change {
        Some(choose|k: int| 0 <= k < visible.len() && lines[visible[k] as int].is_active_change
            && forall|j: int| 0 <= j < k ==> !(#[trigger] lines[visible[j] as int]).is_active_change)
    } else {
        None
    }
}

/// The smallest entry of a non-empty sequence.
pub open spec fn seq_min(s: Seq<usize>) -> usize
    decreases s.len(),
{
    if s.len() <= 1 {
        s[0]
    } else {
        let m = seq_min(s.drop_last());
        if s.last() < m { s.last() } else { m }
    }
}

/// The largest entry of a non-empty sequence.
pub open spec fn seq_max(s: Seq<usize>) -> usize
    decreases s.len(),
{
    if s.len() <= 1 {
        s[0]
    } else {
        let m = seq_max(s.drop_last());
        if s.last() > m { s.last() } else { m }
    }
}

/// `a - b`, or 0 below zero.
pub open spec fn sat_sub(a: usize, b: usize) -> usize {
    if a >= b { (a - b) as usize } else { 0 }
}

/// `a + b`, or the largest `usize` above it.
pub open spec fn sat_add(a: usize, b: usize) -> usize {
    if a + b > usize::MAX { usize::MAX } else { (a + b) as usize }
}

/// `a * k`, or the largest `usize` above it.
pub open spec fn sat_mul(a: usize, k: usize) -> usize {
    if a * k > usize::MAX { usize::MAX } else { (a * k) as usize }
}

/// The larger of two numbers.
pub open spec fn max_of(a: usize, b: usize) -> usize {
    if a >= b { a } else { b }
}

/// The line range to fetch for the missing lines of one side: from the
/// smallest less the margin (at least line 1) to the largest plus the
/// margin. None when nothing is missing, or when the range lies within the
/// one fetched before; joined with that one when the join spans at most
/// `max_range` lines.
pub open spec fn fetch_range_spec(missing: Seq<usize>, margin: usize, prev: Option<(usize, usize)>, max_range: usize) -> Option<(usize, usize)> {
    if missing.len() == 0 {
        None
    } else {
        let start = max_of(sat_sub(seq_min(missing), margin), 1);
        let end = sat_add(seq_max(missing), margin);
        match prev {
            Some((ps, pe)) => if start >= ps && end <= pe {
                None
            } else {
                let us = if start <= ps { start } else { ps };
                let ue = max_of(end, pe);
                if sat_sub(ue, us) <= max_range { Some((us, ue)) } else { Some((start, end)) }
            },
            None => Some((start, end)),
        }
    }
}

/// The fetch window for `visible_height` rows: normally a margin of two
/// screens (at least 20 lines) and ranges of up to six screens (at least
/// 120); when many lines are missing (more than two screens, outside the
/// blame view), a margin of one screen less a line (at least 4) and ranges
/// of up to two screens (at least 40). Returns the margin, the largest
/// range, and whether many are missing.
pub open spec fn window_spec(visible_height: usize, missing_total: int, allow_full_fetch: bool) -> (usize, usize, bool) {
    let large = !allow_full_fetch && missing_total > sat_mul(visible_height, 2);
    if large {
        (max_of(sat_sub(visible_height, 1), 4), max_of(sat_mul(visible_height, 2), 40), true)
    } else {
        (max_of(sat_mul(visible_height, 2), 20), max_of(sat_mul(visible_height, 6), 120), false)
    }
}

/// The missing lines of both sides once narrowed: when many are missing
/// and a focus line is visible, only the focus line's own numbers are kept
/// (its old line on the old side, its new line, else old line, on the new
/// side); should that leave nothing, the first missing new line, else the
/// first missing old line.
pub open spec fn narrowed_spec(lines: Seq<ViewLine>, visible: Seq<usize>, old_missing: Seq<usize>, new_missing: Seq<usize>, large: bool) -> (Seq<usize>, Seq<usize>) {
    if !large {
        (old_missing, new_missing)
    } else {
        let (o, n) = match focus_spec(lines, visible) {
            Some(k) => {
                let line = lines[visible[k] as int];
                let o = match line.old_line {
                    Some(fo) => keep_equal(old_missing, fo),
                    None => Seq::empty(),
                };
                let focus_new = match line.new_line {
                    Some(l) => Some(l),
                    None => line.old_line,
                };
                let n = match focus_new {
                    Some(fnew) => keep_equal(new_missing, fnew),
                    None => Seq::empty(),
                };
                (o, n)
            },
            None => (old_missing, new_missing),
        };
        if o.len() == 0 && n.len() == 0 {
            if new_missing.len() > 0 {
                (o, seq![new_missing[0]])
            } else if old_missing.len() > 0 {
                (seq![old_missing[0]], n)
            } else {
                (o, n)
            }
        } else {
            (o, n)
        }
    }
}

/// The ranges to fetch on the old and the new side for the visible lines
/// (see `missing_lines`, `window_spec`, `narrowed_spec`, `fetch_range_spec`);
/// nothing when no blame is missing.
pub open spec fn prefetch_plan_spec(
    lines: Seq<ViewLine>,
    visible: Seq<usize>,
    cached: Seq<bool>,
    visible_height: usize,
    allow_full_fetch: bool,
    prev_old: Option<(usize, usize)>,
    prev_new: Option<(usize, usize)>,
) -> (Option<(usize, usize)>, Option<(usize, usize)>) {
    let om = missing_lines(lines, visible, cached, BlameSide::Old, visible.len() as int);
    let nm = missing_lines(lines, visible, cached, BlameSide::New, visible.len() as int);
    let total = om.len() + nm.len();
    if total == 0 {
        (None, None)
    } else {
        let (margin, max_range, large) = window_spec(visible_height, total as int, allow_full_fetch);
        let (o, n) = narrowed_spec(lines, visible, om, nm, large);
        (fetch_range_spec(o, margin, prev_old, max_range), fetch_range_spec(n, margin, prev_new, max_range))
    }
}

/// The missing lines of one side among the visible lines (see
/// `missing_lines`).
fn collect_missing(lines: &Vec<ViewLine>, visible: &Vec<usize>, cached: &Vec<bool>, side: BlameSide) -> (r: Vec<usize>)
    requires
        cached@.len() == visible@.len(),
        forall|k: int| 0 <= k < visible@.len() ==> (#[trigger] visible@[k]) < lines@.len(),
    ensures
        r@ == missing_lines(lines@, visible@, cached@, side, visible@.len() as int),
        r@.len() <= visible@.len(),
{
    let mut out: Vec<usize> = Vec::new();
    let mut k: usize = 0;
    while k < visible.len()
        invariant
            cached@.len() == visible@.len(),
            forall|j: int| 0 <= j < visible@.len() ==> (#[trigger] visible@[j]) < lines@.len(),
            k <= visible@.len(),
            out@ == missing_lines(lines@, visible@, cached@, side, k as int),
            out@.len() <= k,
        decreases visible@.len() - k,
    {
        let line = &lines[visible[k]];
        match blame_target(line) {
            Some((s, l)) => {
                if s == side && !cached[k] {
                    out.push(l);
                }
            },
            None => {},
        }
        k = k + 1;
    }
    out
}

/// The entries equal to `x` (see `keep_equal`).
fn keep_equal_vec(v: &Vec<usize>, x: usize) -> (r: Vec<usize>)
    ensures
        r@ == keep_equal(v@, x),
{
    let mut out: Vec<usize> = Vec::new();
    let mut i: usize = 0;
    while i < v.len()
        invariant
            i <= v@.len(),
            out@ == keep_equal(v@.take(i as int), x),
        decreases v@.len() - i,
    {
        assert(v@.take(i + 1).drop_last() =~= v@.take(i as int));
        if v[i] == x {
            out.push(x);
        }
        i = i + 1;
    }
    assert(v@.take(v@.len() as int) =~= v@);
    out
}

/// The position of the focus line among the visible lines (see
/// `focus_spec`).
fn focus_index(lines: &Vec<ViewLine>, visible: &Vec<usize>) -> (r: Option<usize>)
    requires
        forall|k: int| 0 <= k < visible@.len() ==> (#[trigger] visible@[k]) < lines@.len(),
    ensures
        match r {
            Some(k) => focus_spec(lines@, visible@) == Some(k as int) && k < visible@.len(),
            None => focus_spec(lines@, visible@) is None,
        },
{
    let mut i: usize = 0;
    while i < visible.len()
        invariant
            i <= visible@.len(),
            forall|k: int| 0 <= k < visible@.len() ==> (#[trigger] visible@[k]) < lines@.len(),
            forall|j: int| 0 <= j < i ==> !(#[trigger] lines@[visible@[j] as int]).is_primary_active,
        decreases visible@.len() - i,
    {
        if lines[visible[i]].is_primary_active {
            proof {
                let c = choose|k: int| 0 <= k < visible@.len() && lines@[visible@[k] as int].is_primary_active
                    && forall|j: int| 0 <= j < k ==> !(#[trigger] lines@[visible@[j] as int]).is_primary_active;
                assert(lines@[visible@[i as int] as int].is_primary_active);
                if c < i {
                    assert(!lines@[visible@[c] as int].is_primary_active);
                } else if c > i {
                    assert(!lines@[visible@[i as int] as int].is_primary_active);
                }
            }
            return Some(i);
        }
        i = i + 1;
    }
    let mut i: usize = 0;
    while i < visible.len()
        invariant
            i <= visible@.len(),
            forall|k: int| 0 <= k < visible@.len() ==> (#[trigger] visible@[k]) < lines@.len(),
            forall|j: int| 0 <= j < visible@.len() ==> !(#[trigger] lines@[visible@[j] as int]).is_primary_active,
            forall|j: int| 0 <= j < i ==> !(#[trigger] lines@[visible@[j] as int]).is_active_change,
        decreases visible@.len() - i,
    {
        if lines[visible[i]].is_active_change {
            proof {
                let c = choose|k: int| 0 <= k < visible@.len() && lines@[visible@[k] as int].is_active_change
                    && forall|j: int| 0 <= j < k ==> !(#[trigger] lines@[visible@[j] as int]).is_active_change;
                assert(lines@[visible@[i as int] as int].is_active_change);
                if c < i {
                    assert(!lines@[visible@[c] as int].is_active_change);
                } else if c > i {
                    assert(!lines@[visible@[i as int] as int].is_active_change);
                }
            }
            return Some(i);
        }
        i = i + 1;
    }
    None
}

/// The smallest and the largest entry of a non-empty vector.
fn min_max(v: &Vec<usize>) -> (r: (usize, usize))
    requires
        v@.len() > 0,
    ensures
        r == (seq_min(v@), seq_max(v@)),
{
    let mut lo = v[0];
    let mut hi = v[0];
    let mut i: usize = 1;
    assert(v@.take(1).len() == 1);
    while i < v.len()
        invariant
            1 <= i <= v@.len(),
            lo == seq_min(v@.take(i as int)),
            hi == seq_max(v@.take(i as int)),
        decreases v@.len() - i,
    {
        assert(v@.take(i + 1).drop_last() =~= v@.take(i as int));
        if v[i] < lo {
            lo = v[i];
        }
        if v[i] > hi {
            hi = v[i];
        }
        i = i + 1;
    }
    assert(v@.take(v@.len() as int) =~= v@);
    (lo, hi)
}

/// The range to fetch for one side (see `fetch_range_spec`).
fn fetch_range(missing: &Vec<usize>, margin: usize, prev: Option<(usize, usize)>, max_range: usize) -> (r: Option<(usize, usize)>)
    ensures
        r == fetch_range_spec(missing@, margin, prev, max_range),
{
    if missing.len() == 0 {
        return None;
    }
    let (lo, hi) = min_max(missing);
    let below = lo.saturating_sub(margin);
    let start = if below >= 1 {
        below
    } else {
        1
    };
    let end = hi.saturating_add(margin);
    match prev {
        Some((ps, pe)) => {
            if start >= ps && end <= pe {
                return None;
            }
            let us = if start <= ps {
                start
            } else {
                ps
            };
            let ue = if end >= pe {
                end
            } else {
                pe
            };
            if ue.saturating_sub(us) <= max_range {
                Some((us, ue))
            } else {
                Some((start, end))
            }
        },
        None => Some((start, end)),
    }
}

/// `a * k` saturating (see `sat_mul`).
fn saturating_times(a: usize, k: usize) -> (r: usize)
    requires
        k > 0,
    ensures
        r == sat_mul(a, k),
{
    if a > usize::MAX / k {
        assert(a * k > usize::MAX) by (nonlinear_arith)
            requires
                a > usize::MAX / k,
                k > 0,
        ;
        usize::MAX
    } else {
        assert(a * k <= usize::MAX) by (nonlinear_arith)
            requires
                a <= usize::MAX / k,
                k > 0,
        ;
        a * k
    }
}

/// The fetch window (see `window_spec`).
fn window(visible_height: usize, missing_total: u128, allow_full_fetch: bool) -> (r: (usize, usize, bool))
    ensures
        r == window_spec(visible_height, missing_total as int, allow_full_fetch),
{
    let two = saturating_times(visible_height, 2);
    let large = !allow_full_fetch && missing_total > (two as u128);
    if large {
        let less = visible_height.saturating_sub(1);
        let margin = if less >= 4 {
            less
        } else {
            4
        };
        let max_range = if two >= 40 {
            two
        } else {
            40
        };
        (margin, max_range, true)
    } else {
        let six = saturating_times(visible_height, 6);
        let margin = if two >= 20 {
            two
        } else {
            20
        };
        let max_range = if six >= 120 {
            six
        } else {
            120
        };
        (margin, max_range, false)
    }
}

/// The ranges to fetch on the old and the new side for the visible lines
/// (see `prefetch_plan_spec`): `visible` holds the positions of the
/// visible view lines, `cached[k]` whether the blame of the `k`-th visible
/// line is known, `prev_old` and `prev_new` the ranges fetched before.
pub fn plan_blame_prefetch(
    lines: &Vec<ViewLine>,
    visible: &Vec<usize>,
    cached: &Vec<bool>,
    visible_height: usize,
    allow_full_fetch: bool,
    prev_old: Option<(usize, usize)>,
    prev_new: Option<(usize, usize)>,
) -> (r: (Option<(usize, usize)>, Option<(usize, usize)>))
    requires
        cached@.len() == visible@.len(),
        forall|k: int| 0 <= k < visible@.len() ==> (#[trigger] visible@[k]) < lines@.len(),
    ensures
        r == prefetch_plan_spec(lines@, visible@, cached@, visible_height, allow_full_fetch, prev_old, prev_new),
{
    let old_missing = collect_missing(lines, visible, cached, BlameSide::Old);
    let new_missing = collect_missing(lines, visible, cached, BlameSide::New);
    if old_missing.len() == 0 && new_missing.len() == 0 {
        return (None, None);
    }
    let total: u128 = (old_missing.len() as u128) + (new_missing.len() as u128);
    let (margin, max_range, large) = window(visible_height, total, allow_full_fetch);
    let (old_kept, new_kept) = if !large {
        (old_missing, new_missing)
    } else {
        let (o, n) = match focus_index(lines, visible) {
            Some(k) => {
                let line = &lines[visible[k]];
                let o = match line.old_line {
                    Some(fo) => keep_equal_vec(&old_missing, fo),
                    None => Vec::new(),
                };
                let focus_new = match line.new_line {
                    Some(l) => Some(l),
                    None => line.old_line,
                };
                let n = match focus_new {
                    Some(fnew) => keep_equal_vec(&new_missing, fnew),
                    None => Vec::new(),
                };
                (o, n)
            },
            None => (old_missing.clone(), new_missing.clone()),
        };
        if o.len() == 0 && n.len() == 0 {
            if new_missing.len() > 0 {
                let mut only: Vec<usize> = Vec::new();
                only.push(new_missing[0]);
                assert(only@ =~= seq![new_missing@[0]]);
                (o, only)
            } else if old_missing.len() > 0 {
                let mut only: Vec<usize> = Vec::new();
                only.push(old_missing[0]);
                assert(only@ =~= seq![old_missing@[0]]);
                (only, n)
            } else {
                (o, n)
            }
        } else {
            (o, n)
        }
    };
    (fetch_range(&old_kept, margin, prev_old, max_range), fetch_range(&new_kept, margin, prev_new, max_range))
}

} // verus!
