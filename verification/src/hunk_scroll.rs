//! Moving between hunks by scrolling (the no-step mode): where each hunk
//! starts among the displayed rows, and which hunk the next or previous
//! hunk key scrolls to.

use crate::step::{LineKind, ViewLine};
use vstd::prelude::*;

verus! {

/// Where a hunk starts: its first displayed row, and the change there.
#[derive(Debug, Clone, Copy, PartialEq, Eq, Structural)]
pub struct HunkStart {
    pub idx: usize,
    pub change_id: Option<usize>,
}

/// A column of displayed rows.
#[derive(Debug, Clone, Copy, PartialEq, Eq, Structural)]
pub enum Pane {
    /// The single pane: every line.
    Single,
    /// The evolution view: deleted lines hidden.
    Evolution,
    /// The old side of the split view: lines with an old line number.
    SplitOld,
    /// The new side of the split view: lines with a new line number.
    SplitNew,
}

/// Whether a pane displays a line.
pub open spec fn shown(line: ViewLine, pane: Pane) -> bool {
    match pane {
        Pane::Single => true,
        Pane::Evolution => !(line.kind == LineKind::Deleted || line.kind == LineKind::PendingDelete),
        Pane::SplitOld => line.old_line is Some,
        Pane::SplitNew => line.new_line is Some,
    }
}

/// Whether a pane displays a line (see `shown`).
fn pane_shows(line: &ViewLine, pane: Pane) -> (b: bool)
    ensures
        b == shown(*line, pane),
{
    match pane {
        Pane::Single => true,
        Pane::Evolution => match line.kind {
            LineKind::Deleted | LineKind::PendingDelete => false,
            _ => true,
        },
        Pane::SplitOld => line.old_line.is_some(),
        Pane::SplitNew => line.new_line.is_some(),
    }
}

/// The pane of the single-pane or the evolution view.
pub open spec fn unified_pane(evolution: bool) -> Pane {
    if evolution { Pane::Evolution } else { Pane::Single }
}

/// The displayed row of line `i`: how many lines before it are displayed.
pub open spec fn display_row(view: Seq<ViewLine>, pane: Pane, i: int) -> nat
    decreases i,
{
    if i <= 0 {
        0
    } else {
        display_row(view, pane, i - 1) + if shown(view[i - 1], pane) { 1nat } else { 0nat }
    }
}

/// Whether line `i` is a displayed line of hunk `h`.
pub open spec fn shows_hunk(view: Seq<ViewLine>, pane: Pane, i: int, h: int) -> bool {
    &&& 0 <= i < view.len()
    &&& shown(view[i], pane)
    &&& view[i].hunk_index == Some(h as usize)
}

/// Where each of the `total` hunks starts: its first displayed line's row
/// and change; none for a hunk with no displayed line.
pub open spec fn hunk_starts_ok(view: Seq<ViewLine>, pane: Pane, total: usize, starts: Seq<Option<HunkStart>>) -> bool {
    &&& starts.len() == total
    &&& forall|h: int| 0 <= h < total ==> match #[trigger] starts[h] {
        None => forall|i: int| !shows_hunk(view, pane, i, h),
        Some(s) => exists|i: int| {
            &&& shows_hunk(view, pane, i, h)
            &&& forall|j: int| 0 <= j < i ==> !shows_hunk(view, pane, j, h)
            &&& s.idx == display_row(view, pane, i)
            &&& s.change_id == Some(view[i].change_id)
        },
    }
}

/// Where each hunk starts among the rows of a pane (see
/// `hunk_starts_ok`).
pub fn hunk_starts(view: &Vec<ViewLine>, pane: Pane, total_hunks: usize) -> (r: Vec<Option<HunkStart>>)
    ensures
        hunk_starts_ok(view@, pane, total_hunks, r@),
{
    let mut starts: Vec<Option<HunkStart>> = Vec::new();
    let mut h: usize = 0;
    while h < total_hunks
        invariant
            h <= total_hunks,
            starts@.len() == h,
            forall|k: int| 0 <= k < h ==> starts@[k] is None,
        decreases total_hunks - h,
    {
        starts.push(None);
        h = h + 1;
    }
    let mut row: usize = 0;
    let mut i: usize = 0;
    while i < view.len()
        invariant
            i <= view@.len(),
            row == display_row(view@, pane, i as int),
            row <= i,
            starts@.len() == total_hunks,
            forall|k: int| 0 <= k < total_hunks ==> match #[trigger] starts@[k] {
                None => forall|j: int| j < i ==> !shows_hunk(view@, pane, j, k),
                Some(s) => exists|p: int| {
                    &&& p < i
                    &&& shows_hunk(view@, pane, p, k)
                    &&& forall|j: int| 0 <= j < p ==> !shows_hunk(view@, pane, j, k)
                    &&& s.idx == display_row(view@, pane, p)
                    &&& s.change_id == Some(view@[p].change_id)
                },
            },
        decreases view@.len() - i,
    {
        let line = &view[i];
        let visible = pane_shows(line, pane);
        if visible {
            if let Some(hidx) = line.hunk_index {
                if hidx < total_hunks && starts[hidx].is_none() {
                    starts.set(hidx, Some(HunkStart { idx: row, change_id: Some(line.change_id) }));
                    proof {
                        assert(shows_hunk(view@, pane, i as int, hidx as int));
                    }
                }
            }
            row = row + 1;
        }
        proof {
            assert forall|k: int| 0 <= k < total_hunks implies match #[trigger] starts@[k] {
                None => forall|j: int| j < i + 1 ==> !shows_hunk(view@, pane, j, k),
                Some(s) => exists|p: int| {
                    &&& p < i + 1
                    &&& shows_hunk(view@, pane, p, k)
                    &&& forall|j: int| 0 <= j < p ==> !shows_hunk(view@, pane, j, k)
                    &&& s.idx == display_row(view@, pane, p)
                    &&& s.change_id == Some(view@[p].change_id)
                },
            } by {
                if starts@[k] is None {
                    assert forall|j: int| j < i + 1 implies !shows_hunk(view@, pane, j, k) by {
                        if j == i && shows_hunk(view@, pane, j, k) {
                            assert(view@[i as int].hunk_index == Some(k as usize));
                        }
                    }
                }
            }
        }
        i = i + 1;
    }
    proof {
        assert forall|k: int| 0 <= k < total_hunks implies match #[trigger] starts@[k] {
            None => forall|j: int| !shows_hunk(view@, pane, j, k),
            Some(s) => exists|p: int| {
                &&& shows_hunk(view@, pane, p, k)
                &&& forall|j: int| 0 <= j < p ==> !shows_hunk(view@, pane, j, k)
                &&& s.idx == display_row(view@, pane, p)
                &&& s.change_id == Some(view@[p].change_id)
            },
        } by {
            if starts@[k] is None {
                assert forall|j: int| !shows_hunk(view@, pane, j, k) by {
                    if j >= view@.len() || j < 0 {
                    } else {
                        assert(j < i);
                    }
                }
            }
        }
    }
    starts
}

/// Whether hunk `h` has a start.
pub open spec fn has_start(starts: Seq<Option<HunkStart>>, h: int) -> bool {
    0 <= h < starts.len() && starts[h] is Some
}

/// The first hunk at or after `a` that has a start.
#[verifier::opaque]
pub open spec fn first_start_from(starts: Seq<Option<HunkStart>>, a: int) -> Option<int> {
    if exists|h: int| a <= h && #[trigger] has_start(starts, h) {
        Some(choose|h: int| a <= h && #[trigger] has_start(starts, h) && forall|j: int| a <= j < h ==> !#[trigger] has_start(starts, j))
    } else {
        None
    }
}

/// The last hunk before `b` that has a start.
#[verifier::opaque]
pub open spec fn last_start_before(starts: Seq<Option<HunkStart>>, b: int) -> Option<int> {
    if exists|h: int| h < b && #[trigger] has_start(starts, h) {
        Some(choose|h: int| h < b && #[trigger] has_start(starts, h) && forall|j: int| h < j < b ==> !#[trigger] has_start(starts, j))
    } else {
        None
    }
}

/// Whether hunk `h` starts above the scroll offset (or on it, when
/// `inclusive`).
pub open spec fn starts_above(starts: Seq<Option<HunkStart>>, h: int, offset: usize, inclusive: bool) -> bool {
    has_start(starts, h) && if inclusive { starts[h]->0.idx <= offset } else { starts[h]->0.idx < offset }
}

/// The last hunk that starts above the scroll offset.
#[verifier::opaque]
pub open spec fn last_above(starts: Seq<Option<HunkStart>>, offset: usize, inclusive: bool) -> Option<int> {
    if exists|h: int| #[trigger] starts_above(starts, h, offset, inclusive) {
        Some(choose|h: int| #[trigger] starts_above(starts, h, offset, inclusive)
            && forall|j: int| h < j ==> !#[trigger] starts_above(starts, j, offset, inclusive))
    } else {
        None
    }
}

/// The only hunk with a start, when exactly one has one.
#[verifier::opaque]
pub open spec fn single_start(starts: Seq<Option<HunkStart>>) -> Option<int> {
    if exists|h: int| #[trigger] has_start(starts, h) && forall|j: int| j != h ==> !#[trigger] has_start(starts, j) {
        Some(choose|h: int| #[trigger] has_start(starts, h) && forall|j: int| j != h ==> !#[trigger] has_start(starts, j))
    } else {
        None
    }
}

/// A hunk with its start.
pub open spec fn with_start(starts: Seq<Option<HunkStart>>, h: Option<int>) -> Option<(usize, HunkStart)> {
    match h {
        Some(h) => Some((h as usize, starts[h]->0)),
        None => None,
    }
}

/// The hunk the next-hunk key scrolls to: from the cursor's hunk when the
/// cursor is in use (the first later hunk with a start), else from the
/// scroll offset (the first hunk after the last one starting above it, or
/// at it when `inclusive`); failing that, the only hunk when there is
/// exactly one; failing that, when wrapping within the file, the first.
pub open spec fn next_hunk_target_spec(starts: Seq<Option<HunkStart>>, offset: usize, current_hunk: usize, use_cursor: bool, inclusive: bool, wrap: bool) -> Option<(usize, HunkStart)> {
    let moved = if use_cursor && current_hunk < starts.len() {
        first_start_from(starts, current_hunk + 1)
    } else {
        first_start_from(starts, match last_above(starts, offset, inclusive) {
            Some(c) => c + 1,
            None => 0,
        })
    };
    let target = match moved {
        Some(h) => Some(h),
        None => match single_start(starts) {
            Some(h) => Some(h),
            None => if wrap { first_start_from(starts, 0) } else { None },
        },
    };
    with_start(starts, target)
}

/// The hunk the previous-hunk key scrolls to: from the cursor's hunk when
/// the cursor is in use (the last earlier hunk with a start), else the last
/// hunk starting above the scroll offset; failing that, the only hunk when
/// there is exactly one; failing that, when wrapping within the file, the
/// last.
pub open spec fn prev_hunk_target_spec(starts: Seq<Option<HunkStart>>, offset: usize, current_hunk: usize, use_cursor: bool, wrap: bool) -> Option<(usize, HunkStart)> {
    let moved = if use_cursor && current_hunk < starts.len() {
        last_start_before(starts, current_hunk as int)
    } else {
        last_above(starts, offset, false)
    };
    let target = match moved {
        Some(h) => Some(h),
        None => match single_start(starts) {
            Some(h) => Some(h),
            None => if wrap { last_start_before(starts, starts.len() as int) } else { None },
        },
    };
    with_start(starts, target)
}

fn first_from(starts: &Vec<Option<HunkStart>>, a: usize) -> (r: Option<usize>)
    ensures
        match r {
            Some(h) => first_start_from(starts@, a as int) == Some(h as int) && has_start(starts@, h as int),
            None => first_start_from(starts@, a as int) is None,
        },
{
    reveal(first_start_from);
    let mut h: usize = a;
    while h < starts.len()
        invariant
            a <= h,
            forall|j: int| a <= j < h ==> !#[trigger] has_start(starts@, j),
        decreases starts@.len() - h,
    {
        if starts[h].is_some() {
            proof {
                reveal(first_start_from);
                assert(has_start(starts@, h as int));
                let c = choose|k: int| a <= k && #[trigger] has_start(starts@, k) && forall|j: int| a <= j < k ==> !#[trigger] has_start(starts@, j);
                if c < h {
                    assert(!has_start(starts@, c));
                } else if c > h {
                    assert(!has_start(starts@, h as int));
                }
            }
            return Some(h);
        }
        h = h + 1;
    }
    proof {
        assert forall|k: int| a <= k implies !#[trigger] has_start(starts@, k) by {
            if k < h {
            }
        }
    }
    None
}

fn last_before(starts: &Vec<Option<HunkStart>>, b: usize) -> (r: Option<usize>)
    requires
        b <= starts@.len(),
    ensures
        match r {
            Some(h) => last_start_before(starts@, b as int) == Some(h as int) && has_start(starts@, h as int),
            None => last_start_before(starts@, b as int) is None,
        },
{
    reveal(last_start_before);
    let mut h: usize = b;
    while h > 0
        invariant
            h <= b <= starts@.len(),
            forall|j: int| h <= j < b ==> !#[trigger] has_start(starts@, j),
        decreases h,
    {
        if starts[h - 1].is_some() {
            proof {
                reveal(last_start_before);
                let k = h - 1;
                assert(has_start(starts@, k as int));
                let c = choose|x: int| x < b && #[trigger] has_start(starts@, x) && forall|j: int| x < j < b ==> !#[trigger] has_start(starts@, j);
                if c < k {
                    assert(!has_start(starts@, k as int));
                } else if c > k {
                    assert(!has_start(starts@, c));
                }
            }
            return Some(h - 1);
        }
        h = h - 1;
    }
    proof {
        assert forall|k: int| k < b implies !#[trigger] has_start(starts@, k) by {
            if k < 0 {
            }
        }
    }
    None
}

fn last_above_offset(starts: &Vec<Option<HunkStart>>, offset: usize, inclusive: bool) -> (r: Option<usize>)
    ensures
        match r {
            Some(h) => last_above(starts@, offset, inclusive) == Some(h as int) && h < starts.len() && starts_above(starts@, h as int, offset, inclusive),
            None => last_above(starts@, offset, inclusive) is None,
        },
{
    reveal(last_above);
    let n = starts.len();
    let mut h: usize = n;
    while h > 0
        invariant
            h <= n == starts@.len(),
            forall|j: int| h <= j ==> !#[trigger] starts_above(starts@, j, offset, inclusive),
        decreases h,
    {
        let above = match starts[h - 1] {
            Some(s) => if inclusive {
                s.idx <= offset
            } else {
                s.idx < offset
            },
            None => false,
        };
        if above {
            proof {
                reveal(last_above);
                let k = h - 1;
                assert(starts_above(starts@, k as int, offset, inclusive));
                let c = choose|x: int| #[trigger] starts_above(starts@, x, offset, inclusive)
                    && forall|j: int| x < j ==> !#[trigger] starts_above(starts@, j, offset, inclusive);
                if c < k {
                    assert(!starts_above(starts@, k as int, offset, inclusive));
                } else if c > k {
                    assert(!starts_above(starts@, c, offset, inclusive));
                }
            }
            return Some(h - 1);
        }
        h = h - 1;
    }
    proof {
        assert forall|k: int| !#[trigger] starts_above(starts@, k, offset, inclusive) by {
            if k < 0 {
            }
        }
    }
    None
}

proof fn lemma_two_starts(starts: Seq<Option<HunkStart>>, f: int, h: int)
    requires
        has_start(starts, f),
        has_start(starts, h),
        f != h,
    ensures
        single_start(starts) is None,
{
    reveal(single_start);
    if exists|x: int| #[trigger] has_start(starts, x) && forall|j: int| j != x ==> !#[trigger] has_start(starts, j) {
        let x = choose|x: int| #[trigger] has_start(starts, x) && forall|j: int| j != x ==> !#[trigger] has_start(starts, j);
        if x != f {
            assert(!has_start(starts, f));
        } else {
            assert(!has_start(starts, h));
        }
    }
}

proof fn lemma_one_start(starts: Seq<Option<HunkStart>>, f: int)
    requires
        has_start(starts, f),
        forall|j: int| j != f ==> !#[trigger] has_start(starts, j),
    ensures
        single_start(starts) == Some(f),
{
    reveal(single_start);
    let x = choose|x: int| #[trigger] has_start(starts, x) && forall|j: int| j != x ==> !#[trigger] has_start(starts, j);
    if x != f {
        assert(!has_start(starts, f));
    }
}

proof fn lemma_no_start(starts: Seq<Option<HunkStart>>)
    requires
        forall|j: int| !#[trigger] has_start(starts, j),
    ensures
        single_start(starts) is None,
{
    reveal(single_start);
}

fn only_start(starts: &Vec<Option<HunkStart>>) -> (r: Option<usize>)
    ensures
        match r {
            Some(h) => single_start(starts@) == Some(h as int) && has_start(starts@, h as int),
            None => single_start(starts@) is None,
        },
{
    let mut found: Option<usize> = None;
    let mut h: usize = 0;
    while h < starts.len()
        invariant
            h <= starts@.len(),
            match found {
                Some(f) => f < h && has_start(starts@, f as int) && forall|j: int| 0 <= j < h && j != f ==> !#[trigger] has_start(starts@, j),
                None => forall|j: int| 0 <= j < h ==> !#[trigger] has_start(starts@, j),
            },
        decreases starts@.len() - h,
    {
        if starts[h].is_some() {
            if let Some(f) = found {
                proof {
                    lemma_two_starts(starts@, f as int, h as int);
                }
                return None;
            }
            found = Some(h);
        }
        h = h + 1;
    }
    match found {
        Some(f) => {
            proof {
                assert forall|j: int| j != f implies !#[trigger] has_start(starts@, j) by {
                    if 0 <= j < h {
                    }
                }
                lemma_one_start(starts@, f as int);
            }
            Some(f)
        },
        None => {
            proof {
                assert forall|j: int| !#[trigger] has_start(starts@, j) by {
                    if 0 <= j < h {
                    }
                }
                lemma_no_start(starts@);
            }
            None
        },
    }
}

fn pair_of(starts: &Vec<Option<HunkStart>>, h: Option<usize>) -> (r: Option<(usize, HunkStart)>)
    requires
        h matches Some(k) ==> has_start(starts@, k as int),
    ensures
        r == with_start(starts@, match h {
            Some(k) => Some(k as int),
            None => None,
        }),
{
    match h {
        Some(k) => match starts[k] {
            Some(s) => Some((k, s)),
            None => None,
        },
        None => None,
    }
}

/// The hunk the next-hunk key scrolls to (see `next_hunk_target_spec`).
pub fn next_hunk_target(starts: &Vec<Option<HunkStart>>, offset: usize, current_hunk: usize, use_cursor: bool, inclusive: bool, wrap: bool) -> (r: Option<(usize, HunkStart)>)
    ensures
        r == next_hunk_target_spec(starts@, offset, current_hunk, use_cursor, inclusive, wrap),
{
    let moved = if use_cursor && current_hunk < starts.len() {
        first_from(starts, current_hunk + 1)
    } else {
        let from = match last_above_offset(starts, offset, inclusive) {
            Some(c) => c + 1,
            None => 0,
        };
        first_from(starts, from)
    };
    let target = match moved {
        Some(h) => Some(h),
        None => match only_start(starts) {
            Some(h) => Some(h),
            None => if wrap {
                first_from(starts, 0)
            } else {
                None
            },
        },
    };
    pair_of(starts, target)
}

/// The hunk the previous-hunk key scrolls to (see `prev_hunk_target_spec`).
pub fn prev_hunk_target(starts: &Vec<Option<HunkStart>>, offset: usize, current_hunk: usize, use_cursor: bool, wrap: bool) -> (r: Option<(usize, HunkStart)>)
    ensures
        r == prev_hunk_target_spec(starts@, offset, current_hunk, use_cursor, wrap),
{
    let moved = if use_cursor && current_hunk < starts.len() {
        last_before(starts, current_hunk)
    } else {
        last_above_offset(starts, offset, false)
    };
    let target = match moved {
        Some(h) => Some(h),
        None => match only_start(starts) {
            Some(h) => Some(h),
            None => if wrap {
                last_before(starts, starts.len())
            } else {
                None
            },
        },
    };
    pair_of(starts, target)
}

/// Of a hunk's starts in the two panes of the split view, the one nearer
/// the scroll offset (the new pane's on a tie).
pub open spec fn pick_split_start_spec(old: Option<HunkStart>, new: Option<HunkStart>, offset: usize) -> Option<HunkStart> {
    match (old, new) {
        (Some(o), Some(n)) => {
            let od = if o.idx >= offset { o.idx - offset } else { offset - o.idx };
            let nd = if n.idx >= offset { n.idx - offset } else { offset - n.idx };
            if od < nd { Some(o) } else { Some(n) }
        },
        (Some(o), None) => Some(o),
        (None, Some(n)) => Some(n),
        (None, None) => None,
    }
}

/// The split view's start of a hunk (see `pick_split_start_spec`).
pub fn pick_split_start(old: Option<HunkStart>, new: Option<HunkStart>, offset: usize) -> (r: Option<HunkStart>)
    ensures
        r == pick_split_start_spec(old, new, offset),
{
    match (old, new) {
        (Some(o), Some(n)) => {
            let od = if o.idx >= offset {
                o.idx - offset
            } else {
                offset - o.idx
            };
            let nd = if n.idx >= offset {
                n.idx - offset
            } else {
                offset - n.idx
            };
            if od < nd {
                Some(o)
            } else {
                Some(n)
            }
        },
        (Some(o), None) => Some(o),
        (None, Some(n)) => Some(n),
        (None, None) => None,
    }
}

/// Where a hunk starts and ends among the displayed rows.
#[derive(Debug, Clone, Copy, PartialEq, Eq, Structural)]
pub struct HunkBounds {
    pub start: HunkStart,
    pub end: HunkStart,
}

/// The start of line `i` as a hunk boundary: its row and change.
pub open spec fn row_start(view: Seq<ViewLine>, pane: Pane, i: int) -> HunkStart {
    HunkStart { idx: display_row(view, pane, i) as usize, change_id: Some(view[i].change_id) }
}

/// Each of the `total` hunks' first and last displayed lines, as rows and
/// changes; none for a hunk with no displayed line.
pub open spec fn hunk_bounds_ok(view: Seq<ViewLine>, pane: Pane, total: usize, bounds: Seq<Option<HunkBounds>>) -> bool {
    &&& bounds.len() == total
    &&& forall|h: int| 0 <= h < total ==> match #[trigger] bounds[h] {
        None => forall|i: int| !shows_hunk(view, pane, i, h),
        Some(b) => exists|i: int, k: int| {
            &&& shows_hunk(view, pane, i, h)
            &&& shows_hunk(view, pane, k, h)
            &&& forall|j: int| 0 <= j < i ==> !shows_hunk(view, pane, j, h)
            &&& forall|j: int| k < j ==> !shows_hunk(view, pane, j, h)
            &&& b.start == row_start(view, pane, i)
            &&& b.end == row_start(view, pane, k)
        },
    }
}

/// Where each hunk starts and ends among the rows of a pane (see
/// `hunk_bounds_ok`).
pub fn hunk_bounds(view: &Vec<ViewLine>, pane: Pane, total_hunks: usize) -> (r: Vec<Option<HunkBounds>>)
    ensures
        hunk_bounds_ok(view@, pane, total_hunks, r@),
{
    let mut bounds: Vec<Option<HunkBounds>> = Vec::new();
    let mut h: usize = 0;
    while h < total_hunks
        invariant
            h <= total_hunks,
            bounds@.len() == h,
            forall|k: int| 0 <= k < h ==> bounds@[k] is None,
        decreases total_hunks - h,
    {
        bounds.push(None);
        h = h + 1;
    }
    let mut row: usize = 0;
    let mut i: usize = 0;
    while i < view.len()
        invariant
            i <= view@.len(),
            row == display_row(view@, pane, i as int),
            row <= i,
            bounds@.len() == total_hunks,
            forall|k: int| 0 <= k < total_hunks ==> match #[trigger] bounds@[k] {
                None => forall|j: int| j < i ==> !shows_hunk(view@, pane, j, k),
                Some(b) => exists|p: int, q: int| {
                    &&& q < i
                    &&& shows_hunk(view@, pane, p, k)
                    &&& shows_hunk(view@, pane, q, k)
                    &&& forall|j: int| 0 <= j < p ==> !shows_hunk(view@, pane, j, k)
                    &&& forall|j: int| q < j < i ==> !shows_hunk(view@, pane, j, k)
                    &&& b.start == row_start(view@, pane, p)
                    &&& b.end == row_start(view@, pane, q)
                },
            },
        decreases view@.len() - i,
    {
        let line = &view[i];
        let visible = pane_shows(line, pane);
        let ghost before = bounds@;
        if visible {
            if let Some(hidx) = line.hunk_index {
                if hidx < total_hunks {
                    let here = HunkStart { idx: row, change_id: Some(line.change_id) };
                    proof {
                        assert(shows_hunk(view@, pane, i as int, hidx as int));
                        assert(here == row_start(view@, pane, i as int));
                    }
                    match bounds[hidx] {
                        Some(existing) => {
                            bounds.set(hidx, Some(HunkBounds { start: existing.start, end: here }));
                        },
                        None => {
                            bounds.set(hidx, Some(HunkBounds { start: here, end: here }));
                        },
                    }
                }
            }
            row = row + 1;
        }
        proof {
            assert forall|k: int| 0 <= k < total_hunks implies match #[trigger] bounds@[k] {
                None => forall|j: int| j < i + 1 ==> !shows_hunk(view@, pane, j, k),
                Some(b) => exists|p: int, q: int| {
                    &&& q < i + 1
                    &&& shows_hunk(view@, pane, p, k)
                    &&& shows_hunk(view@, pane, q, k)
                    &&& forall|j: int| 0 <= j < p ==> !shows_hunk(view@, pane, j, k)
                    &&& forall|j: int| q < j < i + 1 ==> !shows_hunk(view@, pane, j, k)
                    &&& b.start == row_start(view@, pane, p)
                    &&& b.end == row_start(view@, pane, q)
                },
            } by {
                let on_line = shows_hunk(view@, pane, i as int, k);
                if !on_line {
                    assert(bounds@[k] == before[k]);
                    if let Some(b) = before[k] {
                        let (p, q) = choose|p: int, q: int| {
                            &&& q < i
                            &&& shows_hunk(view@, pane, p, k)
                            &&& shows_hunk(view@, pane, q, k)
                            &&& forall|j: int| 0 <= j < p ==> !shows_hunk(view@, pane, j, k)
                            &&& forall|j: int| q < j < i ==> !shows_hunk(view@, pane, j, k)
                            &&& b.start == row_start(view@, pane, p)
                            &&& b.end == row_start(view@, pane, q)
                        };
                        assert forall|j: int| q < j < i + 1 implies !shows_hunk(view@, pane, j, k) by {
                            if j == i {
                            }
                        }
                    } else {
                        assert forall|j: int| j < i + 1 implies !shows_hunk(view@, pane, j, k) by {
                            if j == i {
                            }
                        }
                    }
                } else {
                    assert(visible && line.hunk_index == Some(k as usize));
                    if let Some(b) = before[k] {
                        let (p, q) = choose|p: int, q: int| {
                            &&& q < i
                            &&& shows_hunk(view@, pane, p, k)
                            &&& shows_hunk(view@, pane, q, k)
                            &&& forall|j: int| 0 <= j < p ==> !shows_hunk(view@, pane, j, k)
                            &&& forall|j: int| q < j < i ==> !shows_hunk(view@, pane, j, k)
                            &&& b.start == row_start(view@, pane, p)
                            &&& b.end == row_start(view@, pane, q)
                        };
                        assert(bounds@[k] == Some(HunkBounds { start: b.start, end: row_start(view@, pane, i as int) }));
                        assert(shows_hunk(view@, pane, i as int, k));
                    } else {
                        assert(bounds@[k] == Some(HunkBounds { start: row_start(view@, pane, i as int), end: row_start(view@, pane, i as int) }));
                        assert(shows_hunk(view@, pane, i as int, k));
                        assert forall|j: int| 0 <= j < i implies !shows_hunk(view@, pane, j, k) by {
                        }
                    }
                }
            }
        }
        i = i + 1;
    }
    proof {
        assert forall|k: int| 0 <= k < total_hunks implies match #[trigger] bounds@[k] {
            None => forall|j: int| !shows_hunk(view@, pane, j, k),
            Some(b) => exists|p: int, q: int| {
                &&& shows_hunk(view@, pane, p, k)
                &&& shows_hunk(view@, pane, q, k)
                &&& forall|j: int| 0 <= j < p ==> !shows_hunk(view@, pane, j, k)
                &&& forall|j: int| q < j ==> !shows_hunk(view@, pane, j, k)
                &&& b.start == row_start(view@, pane, p)
                &&& b.end == row_start(view@, pane, q)
            },
        } by {
            if let Some(b) = bounds@[k] {
                let (p, q) = choose|p: int, q: int| {
                    &&& q < i
                    &&& shows_hunk(view@, pane, p, k)
                    &&& shows_hunk(view@, pane, q, k)
                    &&& forall|j: int| 0 <= j < p ==> !shows_hunk(view@, pane, j, k)
                    &&& forall|j: int| q < j < i ==> !shows_hunk(view@, pane, j, k)
                    &&& b.start == row_start(view@, pane, p)
                    &&& b.end == row_start(view@, pane, q)
                };
                assert forall|j: int| q < j implies !shows_hunk(view@, pane, j, k) by {
                    if j >= i {
                    }
                }
            } else {
                assert forall|j: int| !shows_hunk(view@, pane, j, k) by {
                    if 0 <= j < i {
                    }
                }
            }
        }
    }
    bounds
}

/// Whether hunk `h` has bounds starting above or on the scroll offset.
pub open spec fn bounds_at_or_above(bounds: Seq<Option<HunkBounds>>, h: int, offset: usize) -> bool {
    0 <= h < bounds.len() && bounds[h] is Some && bounds[h]->0.start.idx <= offset
}

/// The hunk the scroll offset is in: the last one starting above or on it.
#[verifier::opaque]
pub open spec fn current_hunk_from_bounds_spec(bounds: Seq<Option<HunkBounds>>, offset: usize) -> Option<int> {
    if exists|h: int| #[trigger] bounds_at_or_above(bounds, h, offset) {
        Some(choose|h: int| #[trigger] bounds_at_or_above(bounds, h, offset)
            && forall|j: int| h < j ==> !#[trigger] bounds_at_or_above(bounds, j, offset))
    } else {
        None
    }
}

/// Whether hunk `h` has bounds.
pub open spec fn has_bounds(bounds: Seq<Option<HunkBounds>>, h: int) -> bool {
    0 <= h < bounds.len() && bounds[h] is Some
}

/// The first hunk with bounds.
#[verifier::opaque]
pub open spec fn first_bounds(bounds: Seq<Option<HunkBounds>>) -> Option<int> {
    if exists|h: int| #[trigger] has_bounds(bounds, h) {
        Some(choose|h: int| #[trigger] has_bounds(bounds, h) && forall|j: int| 0 <= j < h ==> !#[trigger] has_bounds(bounds, j))
    } else {
        None
    }
}

/// The hunk the go-to-hunk-start or -end key scrolls within: the cursor's
/// hunk when navigation is in hunk scope, else the hunk the scroll offset
/// is in, when that has bounds; else the first hunk with bounds.
pub open spec fn hunk_bounds_target_spec(bounds: Seq<Option<HunkBounds>>, current_hunk: usize, in_hunk_scope: bool, offset: usize) -> Option<(usize, HunkBounds)> {
    let chosen = if in_hunk_scope {
        Some(current_hunk as int)
    } else {
        current_hunk_from_bounds_spec(bounds, offset)
    };
    let picked = match chosen {
        Some(h) => if has_bounds(bounds, h) { Some(h) } else { first_bounds(bounds) },
        None => first_bounds(bounds),
    };
    match picked {
        Some(h) => Some((h as usize, bounds[h]->0)),
        None => None,
    }
}

fn current_from_bounds(bounds: &Vec<Option<HunkBounds>>, offset: usize) -> (r: Option<usize>)
    ensures
        match r {
            Some(h) => current_hunk_from_bounds_spec(bounds@, offset) == Some(h as int),
            None => current_hunk_from_bounds_spec(bounds@, offset) is None,
        },
{
    let n = bounds.len();
    let mut h: usize = n;
    while h > 0
        invariant
            h <= n == bounds@.len(),
            forall|j: int| h <= j ==> !#[trigger] bounds_at_or_above(bounds@, j, offset),
        decreases h,
    {
        let above = match bounds[h - 1] {
            Some(b) => b.start.idx <= offset,
            None => false,
        };
        if above {
            proof {
                reveal(current_hunk_from_bounds_spec);
                let k = h - 1;
                assert(bounds_at_or_above(bounds@, k as int, offset));
                let c = choose|x: int| #[trigger] bounds_at_or_above(bounds@, x, offset)
                    && forall|j: int| x < j ==> !#[trigger] bounds_at_or_above(bounds@, j, offset);
                if c < k {
                    assert(!bounds_at_or_above(bounds@, k as int, offset));
                } else if c > k {
                    assert(!bounds_at_or_above(bounds@, c, offset));
                }
            }
            return Some(h - 1);
        }
        h = h - 1;
    }
    proof {
        reveal(current_hunk_from_bounds_spec);
        assert forall|k: int| !#[trigger] bounds_at_or_above(bounds@, k, offset) by {
            if k < 0 {
            }
        }
    }
    None
}

fn first_with_bounds(bounds: &Vec<Option<HunkBounds>>) -> (r: Option<usize>)
    ensures
        match r {
            Some(h) => first_bounds(bounds@) == Some(h as int) && has_bounds(bounds@, h as int),
            None => first_bounds(bounds@) is None,
        },
{
    let mut h: usize = 0;
    while h < bounds.len()
        invariant
            h <= bounds@.len(),
            forall|j: int| 0 <= j < h ==> !#[trigger] has_bounds(bounds@, j),
        decreases bounds@.len() - h,
    {
        if bounds[h].is_some() {
            proof {
                reveal(first_bounds);
                assert(has_bounds(bounds@, h as int));
                let c = choose|x: int| #[trigger] has_bounds(bounds@, x) && forall|j: int| 0 <= j < x ==> !#[trigger] has_bounds(bounds@, j);
                if c < h {
                    assert(!has_bounds(bounds@, c));
                } else if c > h {
                    assert(!has_bounds(bounds@, h as int));
                }
            }
            return Some(h);
        }
        h = h + 1;
    }
    proof {
        reveal(first_bounds);
        assert forall|k: int| !#[trigger] has_bounds(bounds@, k) by {
            if 0 <= k < h {
            }
        }
    }
    None
}

/// The hunk and bounds the go-to-hunk-start or -end key uses (see
/// `hunk_bounds_target_spec`).
pub fn hunk_bounds_target(bounds: &Vec<Option<HunkBounds>>, current_hunk: usize, in_hunk_scope: bool, offset: usize) -> (r: Option<(usize, HunkBounds)>)
    ensures
        r == hunk_bounds_target_spec(bounds@, current_hunk, in_hunk_scope, offset),
{
    let chosen = if in_hunk_scope {
        Some(current_hunk)
    } else {
        current_from_bounds(bounds, offset)
    };
    let picked = match chosen {
        Some(h) => if h < bounds.len() && bounds[h].is_some() {
            Some(h)
        } else {
            first_with_bounds(bounds)
        },
        None => first_with_bounds(bounds),
    };
    match picked {
        Some(h) => match bounds[h] {
            Some(b) => Some((h, b)),
            None => None,
        },
        None => None,
    }
}

/// Where the cursor goes when scrolling settles: onto the line shown at
/// the scroll offset, with its hunk when it has one; cleared when no line
/// is shown there.
#[derive(Debug, Clone, Copy, PartialEq, Eq, Structural)]
pub enum ScrollCursor {
    /// The cursor on a hunk's change.
    Hunk(usize, usize),
    /// The cursor on a change outside any hunk.
    Change(usize),
    /// No cursor.
    Clear,
}

/// Whether line `i` is displayed at the given row.
pub open spec fn shown_at(view: Seq<ViewLine>, pane: Pane, i: int, row: usize) -> bool {
    0 <= i < view.len() && shown(view[i], pane) && display_row(view, pane, i) == row
}

/// The cursor placement for the scroll offset (see `ScrollCursor`).
pub open spec fn scroll_cursor_spec(view: Seq<ViewLine>, pane: Pane, offset: usize) -> ScrollCursor {
    if exists|i: int| #[trigger] shown_at(view, pane, i, offset) {
        let i = choose|i: int| #[trigger] shown_at(view, pane, i, offset);
        match view[i].hunk_index {
            Some(h) => ScrollCursor::Hunk(h, view[i].change_id),
            None => ScrollCursor::Change(view[i].change_id),
        }
    } else {
        ScrollCursor::Clear
    }
}

/// Rows only grow along the view, by one per displayed line.
proof fn lemma_rows_grow(view: Seq<ViewLine>, pane: Pane, i: int, j: int)
    requires
        0 <= i <= j,
    ensures
        display_row(view, pane, i) <= display_row(view, pane, j),
        i < j && shown(view[i], pane) ==> display_row(view, pane, i) < display_row(view, pane, j),
    decreases j - i,
{
    if i < j {
        lemma_rows_grow(view, pane, i, j - 1);
        if i < j - 1 && shown(view[i], pane) {
            lemma_rows_grow(view, pane, i + 1, j - 1);
        }
    }
}

/// The cursor placement for the scroll offset (see `scroll_cursor_spec`).
pub fn cursor_for_scroll(view: &Vec<ViewLine>, pane: Pane, offset: usize) -> (r: ScrollCursor)
    ensures
        r == scroll_cursor_spec(view@, pane, offset),
{
    let mut row: usize = 0;
    let mut i: usize = 0;
    while i < view.len()
        invariant
            i <= view@.len(),
            row == display_row(view@, pane, i as int),
            row <= i,
            row <= offset,
            forall|j: int| 0 <= j < i ==> !#[trigger] shown_at(view@, pane, j, offset),
        decreases view@.len() - i,
    {
        let line = &view[i];
        let visible = pane_shows(line, pane);
        if visible {
            if row >= offset {
                proof {
                    assert(shown_at(view@, pane, i as int, offset));
                    let c = choose|c: int| #[trigger] shown_at(view@, pane, c, offset);
                    if c < i {
                        assert(!shown_at(view@, pane, c, offset));
                    } else if c > i {
                        lemma_rows_grow(view@, pane, i as int, c);
                    }
                }
                return match line.hunk_index {
                    Some(h) => ScrollCursor::Hunk(h, line.change_id),
                    None => ScrollCursor::Change(line.change_id),
                };
            }
            row = row + 1;
        }
        i = i + 1;
    }
    proof {
        assert forall|j: int| !#[trigger] shown_at(view@, pane, j, offset) by {
            if 0 <= j < view@.len() {
            }
        }
    }
    ScrollCursor::Clear
}

/// Where each hunk starts in the old and in the new side of the split
/// view (see `hunk_starts_ok`).
pub fn hunk_starts_split(view: &Vec<ViewLine>, total_hunks: usize) -> (r: (Vec<Option<HunkStart>>, Vec<Option<HunkStart>>))
    ensures
        hunk_starts_ok(view@, Pane::SplitOld, total_hunks, r.0@),
        hunk_starts_ok(view@, Pane::SplitNew, total_hunks, r.1@),
{
    (hunk_starts(view, Pane::SplitOld, total_hunks), hunk_starts(view, Pane::SplitNew, total_hunks))
}

/// Where each hunk starts and ends in the old and in the new side of the
/// split view (see `hunk_bounds_ok`).
pub fn hunk_bounds_split(view: &Vec<ViewLine>, total_hunks: usize) -> (r: (Vec<Option<HunkBounds>>, Vec<Option<HunkBounds>>))
    ensures
        hunk_bounds_ok(view@, Pane::SplitOld, total_hunks, r.0@),
        hunk_bounds_ok(view@, Pane::SplitNew, total_hunks, r.1@),
{
    (hunk_bounds(view, Pane::SplitOld, total_hunks), hunk_bounds(view, Pane::SplitNew, total_hunks))
}

/// Of a hunk's bounds in the two sides of the split view, those starting
/// nearer the scroll offset (the new side's on a tie).
pub open spec fn pick_split_bounds_spec(old: Option<HunkBounds>, new: Option<HunkBounds>, offset: usize) -> Option<HunkBounds> {
    match (old, new) {
        (Some(o), Some(n)) => {
            let od = if o.start.idx >= offset { o.start.idx - offset } else { offset - o.start.idx };
            let nd = if n.start.idx >= offset { n.start.idx - offset } else { offset - n.start.idx };
            if od < nd { Some(o) } else { Some(n) }
        },
        (Some(o), None) => Some(o),
        (None, Some(n)) => Some(n),
        (None, None) => None,
    }
}

/// The split view's bounds of a hunk (see `pick_split_bounds_spec`).
pub fn pick_split_bounds(old: Option<HunkBounds>, new: Option<HunkBounds>, offset: usize) -> (r: Option<HunkBounds>)
    ensures
        r == pick_split_bounds_spec(old, new, offset),
{
    match (old, new) {
        (Some(o), Some(n)) => {
            let od = if o.start.idx >= offset {
                o.start.idx - offset
            } else {
                offset - o.start.idx
            };
            let nd = if n.start.idx >= offset {
                n.start.idx - offset
            } else {
                offset - n.start.idx
            };
            if od < nd {
                Some(o)
            } else {
                Some(n)
            }
        },
        (Some(o), None) => Some(o),
        (None, Some(n)) => Some(n),
        (None, None) => None,
    }
}

/// The bounds of one hunk among a view's, if it has some.
pub fn bounds_of_hunk(bounds: &Vec<Option<HunkBounds>>, hunk_idx: usize) -> (r: Option<(usize, HunkBounds)>)
    ensures
        r == (if has_bounds(bounds@, hunk_idx as int) { Some((hunk_idx, bounds@[hunk_idx as int]->0)) } else { None }),
{
    if hunk_idx < bounds.len() {
        match bounds[hunk_idx] {
            Some(b) => Some((hunk_idx, b)),
            None => None,
        }
    } else {
        None
    }
}


/// The last row a viewport shows: `viewport_height - 1` rows below the
/// offset, at most `usize::MAX`.
pub open spec fn last_visible_row(scroll_offset: usize, viewport_height: usize) -> int {
    let below = if viewport_height >= 1 { viewport_height - 1 } else { 0 };
    if scroll_offset + below > usize::MAX { usize::MAX as int } else { scroll_offset + below }
}

/// Whether a hunk reaches out of the viewport: above its first row, and
/// below its last row; none without bounds.
pub fn hunk_hint_overflow(bounds: Option<HunkBounds>, scroll_offset: usize, viewport_height: usize) -> (r: Option<(bool, bool)>)
    ensures
        r == (match bounds {
            Some(b) => Some((b.start.idx < scroll_offset, b.end.idx > last_visible_row(scroll_offset, viewport_height))),
            None => None,
        }),
{
    match bounds {
        Some(b) => {
            let visible_end = scroll_offset.saturating_add(viewport_height.saturating_sub(1));
            Some((b.start.idx < scroll_offset, b.end.idx > visible_end))
        },
        None => None,
    }
}

} // verus!
