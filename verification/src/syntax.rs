//! Which line of which side a displayed row shows, for looking up its
//! syntax: the row the scope probe looks at, the side and line number
//! behind a row in each view mode, and the probe's label.

use crate::display::{evo_line_visible, AnimationPhase, ViewMode};
use crate::foreign::push_str;
use crate::step::ViewLine;
use vstd::prelude::*;

verus! {

/// A side of the diff whose text is highlighted.
#[derive(Debug, Clone, Copy, PartialEq, Eq, Structural)]
pub enum SyntaxSide {
    Old,
    New,
}

/// Which lines make up the rows of a column.
#[derive(Debug, Clone, Copy, PartialEq, Eq, Structural)]
pub enum RowFilter {
    /// The evolution view in a phase: deleted lines hidden.
    Evolution(AnimationPhase),
    /// The split view's old side: lines with an old number.
    Old,
    /// The split view's new side: lines with a new number.
    New,
}

/// Whether a line makes a row of the column.
pub open spec fn shown(l: ViewLine, f: RowFilter) -> bool {
    match f {
        RowFilter::Evolution(phase) => evo_line_visible(l@, phase),
        RowFilter::Old => l.old_line is Some,
        RowFilter::New => l.new_line is Some,
    }
}

/// How many of the first `n` lines make rows.
pub open spec fn shown_count(view: Seq<ViewLine>, f: RowFilter, n: int) -> int
    decreases n,
{
    if n <= 0 {
        0
    } else {
        shown_count(view, f, n - 1) + if shown(view[n - 1], f) { 1int } else { 0 }
    }
}

/// Among the first `n` lines, the one that makes row `row`.
pub open spec fn row_line(view: Seq<ViewLine>, f: RowFilter, row: int, n: int) -> Option<int>
    decreases n,
{
    if n <= 0 {
        None
    } else if shown(view[n - 1], f) && shown_count(view, f, n - 1) == row {
        Some(n - 1)
    } else {
        row_line(view, f, row, n - 1)
    }
}

/// The side and number of a line: its new number, else its old one.
pub open spec fn line_number_of(l: ViewLine) -> Option<(SyntaxSide, usize)> {
    match l.new_line {
        Some(n) => Some((SyntaxSide::New, n)),
        None => match l.old_line {
            Some(o) => Some((SyntaxSide::Old, o)),
            None => None,
        },
    }
}

/// The side and line number a displayed row shows: in the single pane, the
/// row's line; in the evolution view, the line of that visible row; in the
/// split view, the new side's line of that row, else the old side's.
pub open spec fn syntax_line_spec(view: Seq<ViewLine>, mode: ViewMode, phase: AnimationPhase, row: usize) -> Option<(SyntaxSide, usize)> {
    match mode {
        ViewMode::SinglePane => if row < view.len() { line_number_of(view[row as int]) } else { None },
        ViewMode::Evolution => match row_line(view, RowFilter::Evolution(phase), row as int, view.len() as int) {
            Some(k) => line_number_of(view[k]),
            None => None,
        },
        ViewMode::Split => match row_line(view, RowFilter::New, row as int, view.len() as int) {
            Some(k) => Some((SyntaxSide::New, view[k].new_line->0)),
            None => match row_line(view, RowFilter::Old, row as int, view.len() as int) {
                Some(k) => Some((SyntaxSide::Old, view[k].old_line->0)),
                None => None,
            },
        },
    }
}

/// Whether a line makes a row of the column (see `shown`).
fn is_shown(l: &ViewLine, f: RowFilter) -> (b: bool)
    ensures
        b == shown(*l, f),
{
    match f {
        RowFilter::Evolution(phase) => match l.kind {
            crate::step::LineKind::Deleted => false,
            crate::step::LineKind::PendingDelete => l.is_active && !matches!(phase, AnimationPhase::Idle),
            _ => true,
        },
        RowFilter::Old => l.old_line.is_some(),
        RowFilter::New => l.new_line.is_some(),
    }
}

/// The line that makes a row of the column (see `row_line`).
fn find_row_line(view: &Vec<ViewLine>, f: RowFilter, row: usize) -> (r: Option<usize>)
    ensures
        match r {
            Some(k) => row_line(view@, f, row as int, view@.len() as int) == Some(k as int) && k < view@.len(),
            None => row_line(view@, f, row as int, view@.len() as int) is None,
        },
{
    let mut found: Option<usize> = None;
    let mut count: usize = 0;
    let mut i: usize = 0;
    while i < view.len()
        invariant
            i <= view@.len(),
            count as int == shown_count(view@, f, i as int),
            count <= i,
            match found {
                Some(k) => row_line(view@, f, row as int, i as int) == Some(k as int) && k < i,
                None => row_line(view@, f, row as int, i as int) is None,
            },
        decreases view@.len() - i,
    {
        if is_shown(&view[i], f) {
            if count == row {
                found = Some(i);
            }
            count = count + 1;
        }
        i = i + 1;
    }
    found
}

/// The side and line number of a line (see `line_number_of`).
fn number_of(l: &ViewLine) -> (r: Option<(SyntaxSide, usize)>)
    ensures
        r == line_number_of(*l),
{
    match l.new_line {
        Some(n) => Some((SyntaxSide::New, n)),
        None => match l.old_line {
            Some(o) => Some((SyntaxSide::Old, o)),
            None => None,
        },
    }
}

/// The side and line number a displayed row shows (see
/// `syntax_line_spec`).
pub fn syntax_line_for_display(view: &Vec<ViewLine>, mode: ViewMode, phase: AnimationPhase, row: usize) -> (r: Option<(SyntaxSide, usize)>)
    ensures
        r == syntax_line_spec(view@, mode, phase, row),
{
    match mode {
        ViewMode::SinglePane => if row < view.len() {
            number_of(&view[row])
        } else {
            None
        },
        ViewMode::Evolution => match find_row_line(view, RowFilter::Evolution(phase), row) {
            Some(k) => number_of(&view[k]),
            None => None,
        },
        ViewMode::Split => match find_row_line(view, RowFilter::New, row) {
            Some(k) => {
                proof {
                    lemma_row_line_shown(view@, RowFilter::New, row as int, view@.len() as int);
                }
                match view[k].new_line {
                    Some(n) => Some((SyntaxSide::New, n)),
                    None => None,
                }
            },
            None => match find_row_line(view, RowFilter::Old, row) {
                Some(k) => {
                    proof {
                        lemma_row_line_shown(view@, RowFilter::Old, row as int, view@.len() as int);
                    }
                    match view[k].old_line {
                        Some(o) => Some((SyntaxSide::Old, o)),
                        None => None,
                    }
                },
                None => None,
            },
        },
    }
}

/// The line found for a row makes a row.
proof fn lemma_row_line_shown(view: Seq<ViewLine>, f: RowFilter, row: int, n: int)
    requires
        n <= view.len(),
    ensures
        row_line(view, f, row, n) matches Some(k) ==> 0 <= k < n && shown(view[k], f),
    decreases n,
{
    if n > 0 {
        lemma_row_line_shown(view, f, row, n - 1);
    }
}

/// The row the scope probe looks at: half a viewport (of at least one
/// row) below the scroll offset, at most the last row; none for an empty
/// view.
pub fn syntax_probe_row(scroll_offset: usize, viewport_height: usize, display_len: usize) -> (r: Option<usize>)
    ensures
        display_len == 0 ==> r is None,
        display_len > 0 ==> ({
            let half = (if viewport_height >= 1 { viewport_height } else { 1 }) / 2;
            let target = if scroll_offset + half > usize::MAX { usize::MAX as int } else { scroll_offset + half };
            r == Some((if target < display_len - 1 { target } else { display_len - 1 }) as usize)
        }),
{
    if display_len == 0 {
        return None;
    }
    let height = if viewport_height >= 1 {
        viewport_height
    } else {
        1
    };
    let target = scroll_offset.saturating_add(height / 2);
    let last = display_len - 1;
    Some(if target < last {
        target
    } else {
        last
    })
}

/// Texts joined with `" | "` between each two.
pub open spec fn join_bar(parts: Seq<Seq<char>>) -> Seq<char>
    decreases parts.len(),
{
    if parts.len() == 0 {
        Seq::empty()
    } else if parts.len() == 1 {
        parts[0]
    } else {
        join_bar(parts.drop_last()) + " | "@ + parts.last()
    }
}

/// The scope probe's label: `"scopes: (none)"` without scopes, else
/// `"scopes: "` and the scopes joined with `" | "`.
pub fn scope_label(scopes: &Vec<String>) -> (r: String)
    ensures
        scopes@.len() == 0 ==> r@ == "scopes: (none)"@,
        scopes@.len() > 0 ==> r@ == "scopes: "@ + join_bar(scopes@.map_values(|s: String| s@)),
{
    let mut r = String::new();
    if scopes.len() == 0 {
        push_str(&mut r, "scopes: (none)");
        return r;
    }
    push_str(&mut r, "scopes: ");
    let ghost parts = scopes@.map_values(|s: String| s@);
    let mut i: usize = 0;
    while i < scopes.len()
        invariant
            i <= scopes@.len(),
            parts == scopes@.map_values(|s: String| s@),
            r@ == "scopes: "@ + join_bar(parts.subrange(0, i as int)),
        decreases scopes@.len() - i,
    {
        let ghost before = parts.subrange(0, i as int);
        let ghost after = parts.subrange(0, i + 1);
        assert(after.drop_last() =~= before);
        if i > 0 {
            push_str(&mut r, " | ");
        } else {
            assert(before.len() == 0);
        }
        push_str(&mut r, scopes[i].as_str());
        proof {
            if i == 0 {
                assert(r@ =~= "scopes: "@ + join_bar(after));
            } else {
                assert(r@ =~= "scopes: "@ + join_bar(after));
            }
        }
        i = i + 1;
    }
    assert(parts.subrange(0, scopes@.len() as int) =~= parts);
    r
}

} // verus!
