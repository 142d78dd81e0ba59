//! Which display row a line number jumps to, in each view mode.

use crate::display::{dist, models, ViewMode};
use crate::view::{LineKind, ViewLine, ViewLineModel};
use vstd::prelude::*;

verus! {

/// Of an old-side and a new-side row, the one nearer the scroll offset
/// (the new one on a tie); the one there is when only one is.
pub open spec fn pick_split_spec(old: Option<int>, new: Option<int>, scroll: int) -> Option<int> {
    match (old, new) {
        (Some(o), Some(n)) => if dist(o, scroll) < dist(n, scroll) {
            Some(o)
        } else {
            Some(n)
        },
        (Some(o), None) => Some(o),
        (None, Some(n)) => Some(n),
        (None, None) => None,
    }
}

/// `Option<usize>` as `Option<int>`.
pub open spec fn oi(o: Option<usize>) -> Option<int> {
    match o {
        Some(x) => Some(x as int),
        None => None,
    }
}

/// Of an old-side and a new-side row, the one nearer the scroll offset
/// (see `pick_split_spec`).
pub fn pick_split_index(old: Option<usize>, new: Option<usize>, scroll_offset: usize) -> (r: Option<usize>)
    ensures
        oi(r) == pick_split_spec(oi(old), oi(new), scroll_offset as int),
{
    match (old, new) {
        (Some(o), Some(n)) => {
            let old_dist = if o >= scroll_offset {
                o - scroll_offset
            } else {
                scroll_offset - o
            };
            let new_dist = if n >= scroll_offset {
                n - scroll_offset
            } else {
                scroll_offset - n
            };
            if old_dist < new_dist {
                Some(o)
            } else {
                Some(n)
            }
        },
        (Some(o), None) => Some(o),
        (None, Some(n)) => Some(n),
        (None, None) => None,
    }
}

/// The split view scan for a line number over the first `k` lines: rows
/// on each side, the largest line number on each side, the last row whose
/// line number matches on each side.
pub struct SplitLineScan {
    pub old_rows: int,
    pub new_rows: int,
    pub old_max: int,
    pub new_max: int,
    pub old_match: Option<int>,
    pub new_match: Option<int>,
}

/// The split scan over the first `k` lines.
pub open spec fn split_line_fold(v: Seq<ViewLineModel>, n: usize, k: int) -> SplitLineScan
    decreases k,
{
    if k <= 0 {
        SplitLineScan { old_rows: 0, new_rows: 0, old_max: 0, new_max: 0, old_match: None, new_match: None }
    } else {
        let st = split_line_fold(v, n, k - 1);
        let l = v[k - 1];
        let st1 = match l.old_line {
            Some(x) => SplitLineScan {
                old_max: if x > st.old_max { x as int } else { st.old_max },
                old_match: if x == n { Some(st.old_rows) } else { st.old_match },
                old_rows: st.old_rows + 1,
                ..st
            },
            None => st,
        };
        match l.new_line {
            Some(x) => SplitLineScan {
                new_max: if x > st1.new_max { x as int } else { st1.new_max },
                new_match: if x == n { Some(st1.new_rows) } else { st1.new_match },
                new_rows: st1.new_rows + 1,
                ..st1
            },
            None => st1,
        }
    }
}

/// The row of line `n` in the split view: for 0 the first row; past the
/// largest line number the last row of the side that reaches furthest;
/// otherwise the matching row (the side nearer the scroll offset).
pub open spec fn split_target_spec(v: Seq<ViewLineModel>, n: usize, scroll: int) -> Option<int> {
    let st = split_line_fold(v, n, v.len() as int);
    let old_last = if st.old_rows > 0 { Some(st.old_rows - 1) } else { None };
    let new_last = if st.new_rows > 0 { Some(st.new_rows - 1) } else { None };
    if n == 0 {
        pick_split_spec(
            if st.old_rows > 0 { Some(0) } else { None },
            if st.new_rows > 0 { Some(0) } else { None },
            scroll,
        )
    } else {
        let max = if st.old_max >= st.new_max { st.old_max } else { st.new_max };
        if max > 0 && n > max {
            if st.old_max > st.new_max {
                old_last
            } else if st.new_max > st.old_max {
                new_last
            } else {
                pick_split_spec(old_last, new_last, scroll)
            }
        } else {
            pick_split_spec(st.old_match, st.new_match, scroll)
        }
    }
}

/// Whether the evolution view shows the line (deleted lines are hidden).
pub open spec fn evo_shows(l: ViewLineModel) -> bool {
    !(l.kind == LineKind::Deleted || l.kind == LineKind::PendingDelete)
}

/// The line number a row stands for: in the evolution view the new one
/// first, in the single pane the old one first.
pub open spec fn row_line(l: ViewLineModel, evolution: bool) -> Option<usize> {
    if evolution {
        if l.new_line is Some {
            l.new_line
        } else {
            l.old_line
        }
    } else {
        if l.old_line is Some {
            l.old_line
        } else {
            l.new_line
        }
    }
}

/// The scan for a line number over the first `k` lines of a one-pane
/// view, stopping at the first match: rows shown, the matching row, the
/// last row before it, the largest line number up to it.
pub struct PaneLineScan {
    pub rows: int,
    pub target: Option<int>,
    pub last: Option<int>,
    pub max: int,
}

/// The one-pane scan over the first `k` lines.
pub open spec fn pane_line_fold(v: Seq<ViewLineModel>, n: usize, evolution: bool, k: int) -> PaneLineScan
    decreases k,
{
    if k <= 0 {
        PaneLineScan { rows: 0, target: None, last: None, max: 0 }
    } else {
        let st = pane_line_fold(v, n, evolution, k - 1);
        let l = v[k - 1];
        if st.target is Some || (evolution && !evo_shows(l)) {
            st
        } else {
            let num = row_line(l, evolution);
            let max = match num {
                Some(x) => if x > st.max { x as int } else { st.max },
                None => st.max,
            };
            if num == Some(n) {
                PaneLineScan { target: Some(st.rows), max, rows: st.rows + 1, ..st }
            } else {
                PaneLineScan { last: Some(st.rows), max, rows: st.rows + 1, ..st }
            }
        }
    }
}

/// The row of line `n` in a one-pane view: for 0 the first row (when there
/// is a row before any match); past the largest line number the last row;
/// otherwise the first matching row.
pub open spec fn pane_target_spec(v: Seq<ViewLineModel>, n: usize, evolution: bool) -> Option<int> {
    let st = pane_line_fold(v, n, evolution, v.len() as int);
    if n == 0 {
        if st.last is Some {
            Some(0)
        } else {
            None
        }
    } else if st.max > 0 && n > st.max {
        st.last
    } else {
        st.target
    }
}

/// The row a line number jumps to in a view mode.
pub open spec fn goto_target_spec(v: Seq<ViewLineModel>, mode: ViewMode, n: usize, scroll: int) -> Option<int> {
    match mode {
        ViewMode::Split => split_target_spec(v, n, scroll),
        ViewMode::Evolution => pane_target_spec(v, n, true),
        ViewMode::SinglePane => pane_target_spec(v, n, false),
    }
}

fn split_target(view: &[ViewLine], line_number: usize, scroll_offset: usize) -> (r: Option<usize>)
    ensures
        oi(r) == split_target_spec(models(view), line_number, scroll_offset as int),
{
    let ghost v = models(view);
    let mut old_idx: usize = 0;
    let mut new_idx: usize = 0;
    let mut old_max_line: usize = 0;
    let mut new_max_line: usize = 0;
    let mut old_match: Option<usize> = None;
    let mut new_match: Option<usize> = None;
    let mut i: usize = 0;
    while i < view.len()
        invariant
            v == models(view),
            i <= view@.len(),
            old_idx <= i,
            new_idx <= i,
            split_line_fold(v, line_number, i as int) == (SplitLineScan {
                old_rows: old_idx as int,
                new_rows: new_idx as int,
                old_max: old_max_line as int,
                new_max: new_max_line as int,
                old_match: oi(old_match),
                new_match: oi(new_match),
            }),
        decreases view@.len() - i,
    {
        let line = &view[i];
        assert(line@ == v[i as int]);
        match line.old_line {
            Some(x) => {
                if x > old_max_line {
                    old_max_line = x;
                }
                if x == line_number {
                    old_match = Some(old_idx);
                }
                old_idx = old_idx + 1;
            },
            None => {},
        }
        match line.new_line {
            Some(x) => {
                if x > new_max_line {
                    new_max_line = x;
                }
                if x == line_number {
                    new_match = Some(new_idx);
                }
                new_idx = new_idx + 1;
            },
            None => {},
        }
        i = i + 1;
    }
    let old_last = if old_idx > 0 {
        Some(old_idx - 1)
    } else {
        None
    };
    let new_last = if new_idx > 0 {
        Some(new_idx - 1)
    } else {
        None
    };
    if line_number == 0 {
        let first_old = if old_idx > 0 {
            Some(0)
        } else {
            None
        };
        let first_new = if new_idx > 0 {
            Some(0)
        } else {
            None
        };
        return pick_split_index(first_old, first_new, scroll_offset);
    }
    let max_line = if old_max_line >= new_max_line {
        old_max_line
    } else {
        new_max_line
    };
    if max_line > 0 && line_number > max_line {
        if old_max_line > new_max_line {
            old_last
        } else if new_max_line > old_max_line {
            new_last
        } else {
            pick_split_index(old_last, new_last, scroll_offset)
        }
    } else {
        pick_split_index(old_match, new_match, scroll_offset)
    }
}

fn pane_target(view: &[ViewLine], line_number: usize, evolution: bool) -> (r: Option<usize>)
    ensures
        oi(r) == pane_target_spec(models(view), line_number, evolution),
{
    let ghost v = models(view);
    let mut rows: usize = 0;
    let mut target: Option<usize> = None;
    let mut last_idx: Option<usize> = None;
    let mut max_line: usize = 0;
    let mut i: usize = 0;
    while i < view.len()
        invariant_except_break
            target is None,
            pane_line_fold(v, line_number, evolution, i as int) == (PaneLineScan {
                rows: rows as int,
                target: None,
                last: oi(last_idx),
                max: max_line as int,
            }),
        invariant
            v == models(view),
            i <= view@.len(),
            rows <= i,
        ensures
            pane_line_fold(v, line_number, evolution, view@.len() as int) == (PaneLineScan {
                rows: pane_line_fold(v, line_number, evolution, view@.len() as int).rows,
                target: oi(target),
                last: oi(last_idx),
                max: max_line as int,
            }),
        decreases view@.len() - i,
    {
        let line = &view[i];
        assert(line@ == v[i as int]);
        let shown = !(line.kind == LineKind::Deleted || line.kind == LineKind::PendingDelete);
        if !evolution || shown {
            let num = if evolution {
                if line.new_line.is_some() {
                    line.new_line
                } else {
                    line.old_line
                }
            } else {
                if line.old_line.is_some() {
                    line.old_line
                } else {
                    line.new_line
                }
            };
            match num {
                Some(x) => {
                    if x > max_line {
                        max_line = x;
                    }
                },
                None => {},
            }
            let hit = match num {
                Some(x) => x == line_number,
                None => false,
            };
            if hit {
                target = Some(rows);
                proof {
                    assert(pane_line_fold(v, line_number, evolution, i + 1).target == Some(rows as int));
                    lemma_pane_stops(v, line_number, evolution, i + 1, view@.len() as int);
                }
                break;
            }
            last_idx = Some(rows);
            rows = rows + 1;
        }
        i = i + 1;
    }
    if line_number == 0 {
        match last_idx {
            Some(_) => Some(0),
            None => None,
        }
    } else if max_line > 0 && line_number > max_line {
        last_idx
    } else {
        target
    }
}

proof fn lemma_pane_stops(v: Seq<ViewLineModel>, n: usize, evolution: bool, m: int, k: int)
    requires
        0 <= m <= k <= v.len(),
        pane_line_fold(v, n, evolution, m).target is Some,
    ensures
        pane_line_fold(v, n, evolution, k) == pane_line_fold(v, n, evolution, m),
    decreases k - m,
{
    if k > m {
        lemma_pane_stops(v, n, evolution, m, k - 1);
    }
}

/// The display row that line `line_number` jumps to in a view mode (see
/// `goto_target_spec`).
pub fn goto_line_target(view: &[ViewLine], view_mode: ViewMode, line_number: usize, scroll_offset: usize) -> (r:
    Option<usize>)
    ensures
        oi(r) == goto_target_spec(models(view), view_mode, line_number, scroll_offset as int),
{
    match view_mode {
        ViewMode::Split => split_target(view, line_number, scroll_offset),
        ViewMode::Evolution => pane_target(view, line_number, true),
        ViewMode::SinglePane => pane_target(view, line_number, false),
    }
}

/// The scroll offset that shows a row: centered (half a viewport of at
/// least one line above it) when centering automatically, else at the top;
/// and whether the view is now centered.
pub fn scroll_for_row(row: usize, viewport_height: usize, auto_center: bool) -> (r: (usize, bool))
    ensures
        r == (if auto_center {
            let vh = if viewport_height >= 1 { viewport_height } else { 1 };
            ((if row >= vh / 2 { row - vh / 2 } else { 0 }) as usize, true)
        } else {
            (row, false)
        }),
{
    let viewport = if viewport_height >= 1 {
        viewport_height
    } else {
        1
    };
    if auto_center {
        (row.saturating_sub(viewport / 2), true)
    } else {
        (row, false)
    }
}

/// The rows of the old side of a split view: the lines with an old line
/// number, in order.
pub open spec fn old_side_rows(v: Seq<ViewLineModel>) -> Seq<ViewLineModel> {
    v.filter(|l: ViewLineModel| l.old_line is Some)
}

/// The rows of the new side of a split view: the lines with a new line
/// number, in order.
pub open spec fn new_side_rows(v: Seq<ViewLineModel>) -> Seq<ViewLineModel> {
    v.filter(|l: ViewLineModel| l.new_line is Some)
}

/// Every line number of the view, on either side, is below `n`.
pub open spec fn all_lines_below(v: Seq<ViewLineModel>, n: usize) -> bool {
    forall|i: int|
        0 <= i < v.len() ==> (match (#[trigger] v[i]).old_line {
            Some(x) => x < n,
            None => true,
        }) && (match v[i].new_line {
            Some(x) => x < n,
            None => true,
        })
}

/// Some old line number is positive and above every new line number: the
/// old side reaches furthest.
pub open spec fn old_reaches_furthest(v: Seq<ViewLineModel>) -> bool {
    exists|j: int|
        0 <= j < v.len() && (#[trigger] v[j]).old_line is Some && v[j].old_line->0 > 0 && forall|i: int|
            0 <= i < v.len() ==> match (#[trigger] v[i]).new_line {
                Some(y) => y < v[j].old_line->0,
                None => true,
            }
}

/// Some new line number is positive and above every old line number: the
/// new side reaches furthest.
pub open spec fn new_reaches_furthest(v: Seq<ViewLineModel>) -> bool {
    exists|j: int|
        0 <= j < v.len() && (#[trigger] v[j]).new_line is Some && v[j].new_line->0 > 0 && forall|i: int|
            0 <= i < v.len() ==> match (#[trigger] v[i]).old_line {
                Some(y) => y < v[j].new_line->0,
                None => true,
            }
}

/// What the split scan over the first `k` lines knows: how many rows each
/// side has, and each side's largest line number (0 without lines), which
/// bounds that side's line numbers and is one of them when positive.
proof fn lemma_split_fold_facts(v: Seq<ViewLineModel>, n: usize, k: int)
    requires
        0 <= k <= v.len(),
    ensures
        ({
            let st = split_line_fold(v, n, k);
            &&& st.old_rows == old_side_rows(v.take(k)).len()
            &&& st.new_rows == new_side_rows(v.take(k)).len()
            &&& st.old_max >= 0
            &&& st.new_max >= 0
            &&& forall|i: int|
                0 <= i < k ==> match (#[trigger] v[i]).old_line {
                    Some(x) => x <= st.old_max,
                    None => true,
                }
            &&& forall|i: int|
                0 <= i < k ==> match (#[trigger] v[i]).new_line {
                    Some(x) => x <= st.new_max,
                    None => true,
                }
            &&& st.old_max == 0 || exists|i: int|
                0 <= i < k && (#[trigger] v[i]).old_line is Some && v[i].old_line->0 == st.old_max
            &&& st.new_max == 0 || exists|i: int|
                0 <= i < k && (#[trigger] v[i]).new_line is Some && v[i].new_line->0 == st.new_max
        }),
    decreases k,
{
    reveal(Seq::filter);
    if k == 0 {
        assert(v.take(0) =~= Seq::<ViewLineModel>::empty());
    } else {
        lemma_split_fold_facts(v, n, k - 1);
        assert(v.take(k).drop_last() =~= v.take(k - 1));
        assert(v.take(k).last() == v[k - 1]);
        let st = split_line_fold(v, n, k - 1);
        let st2 = split_line_fold(v, n, k);
        if st.old_max != 0 && st2.old_max == st.old_max {
            let i = choose|i: int| 0 <= i < k - 1 && (#[trigger] v[i]).old_line is Some && v[i].old_line->0 == st.old_max;
            assert(v[i].old_line->0 == st2.old_max);
        }
        if st.new_max != 0 && st2.new_max == st.new_max {
            let i = choose|i: int| 0 <= i < k - 1 && (#[trigger] v[i]).new_line is Some && v[i].new_line->0 == st.new_max;
            assert(v[i].new_line->0 == st2.new_max);
        }
    }
}

/// The split scan's largest line numbers lie below `n` when every line
/// number does.
proof fn lemma_split_max_below(v: Seq<ViewLineModel>, n: usize)
    requires
        all_lines_below(v, n),
        n > 0,
    ensures
        split_line_fold(v, n, v.len() as int).old_max < n,
        split_line_fold(v, n, v.len() as int).new_max < n,
{
    let k = v.len() as int;
    lemma_split_fold_facts(v, n, k);
    let st = split_line_fold(v, n, k);
    if st.old_max != 0 {
        let i = choose|i: int| 0 <= i < k && (#[trigger] v[i]).old_line is Some && v[i].old_line->0 == st.old_max;
        assert(all_lines_below(v, n));
        assert(v[i].old_line->0 < n);
    }
    if st.new_max != 0 {
        let i = choose|i: int| 0 <= i < k && (#[trigger] v[i]).new_line is Some && v[i].new_line->0 == st.new_max;
        assert(v[i].new_line->0 < n);
    }
}

proof fn lemma_old_furthest(v: Seq<ViewLineModel>, n: usize, scroll: int)
    requires
        all_lines_below(v, n),
        old_reaches_furthest(v),
    ensures
        goto_target_spec(v, ViewMode::Split, n, scroll) == Some(old_side_rows(v).len() - 1),
{
    let k = v.len() as int;
    lemma_split_fold_facts(v, n, k);
    assert(v.take(k) =~= v);
    let st = split_line_fold(v, n, k);
    let j = choose|j: int|
        0 <= j < v.len() && (#[trigger] v[j]).old_line is Some && v[j].old_line->0 > 0 && forall|i: int|
            0 <= i < v.len() ==> match (#[trigger] v[i]).new_line {
                Some(y) => y < v[j].old_line->0,
                None => true,
            };
    assert(v[j].old_line->0 < n);
    lemma_split_max_below(v, n);
    assert(v[j].old_line->0 <= st.old_max);
    if st.new_max != 0 {
        let i = choose|i: int| 0 <= i < k && (#[trigger] v[i]).new_line is Some && v[i].new_line->0 == st.new_max;
        assert(st.new_max < v[j].old_line->0);
    }
    assert(st.old_rows > 0) by {
        v.filter_lemma(|l: ViewLineModel| l.old_line is Some);
        assert(old_side_rows(v).contains(v[j]));
    }
}

proof fn lemma_new_furthest(v: Seq<ViewLineModel>, n: usize, scroll: int)
    requires
        all_lines_below(v, n),
        new_reaches_furthest(v),
    ensures
        goto_target_spec(v, ViewMode::Split, n, scroll) == Some(new_side_rows(v).len() - 1),
{
    let k = v.len() as int;
    lemma_split_fold_facts(v, n, k);
    assert(v.take(k) =~= v);
    let st = split_line_fold(v, n, k);
    let j = choose|j: int|
        0 <= j < v.len() && (#[trigger] v[j]).new_line is Some && v[j].new_line->0 > 0 && forall|i: int|
            0 <= i < v.len() ==> match (#[trigger] v[i]).old_line {
                Some(y) => y < v[j].new_line->0,
                None => true,
            };
    assert(v[j].new_line->0 < n);
    lemma_split_max_below(v, n);
    assert(v[j].new_line->0 <= st.new_max);
    if st.old_max != 0 {
        let i = choose|i: int| 0 <= i < k && (#[trigger] v[i]).old_line is Some && v[i].old_line->0 == st.old_max;
        assert(st.old_max < v[j].new_line->0);
    }
    assert(st.new_rows > 0) by {
        v.filter_lemma(|l: ViewLineModel| l.new_line is Some);
        assert(new_side_rows(v).contains(v[j]));
    }
}

/// Going to a line number past every line number of a split view lands on
/// the last row of the side that reaches furthest: the last old-side row
/// when some old line number is above every new one, the last new-side row
/// when some new line number is above every old one.
pub proof fn law_split_past_end_goes_to_furthest_side(v: Seq<ViewLineModel>, n: usize, scroll: int)
    requires
        all_lines_below(v, n),
    ensures
        old_reaches_furthest(v) ==> goto_target_spec(v, ViewMode::Split, n, scroll) == Some(
            old_side_rows(v).len() - 1,
        ),
        new_reaches_furthest(v) ==> goto_target_spec(v, ViewMode::Split, n, scroll) == Some(
            new_side_rows(v).len() - 1,
        ),
{
    if old_reaches_furthest(v) {
        lemma_old_furthest(v, n, scroll);
    }
    if new_reaches_furthest(v) {
        lemma_new_furthest(v, n, scroll);
    }
}

} // verus!
