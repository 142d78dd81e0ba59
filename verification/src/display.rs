//! Where the active line lands on screen: line counts and the row of the
//! cursor line for each view mode, scroll limits, and the texts a change
//! offers to copy.

use crate::change::{Change, ChangeKind, SpanView};
use crate::foreign::push_str;
use crate::text::to_owned_string;
use vstd::string::StringSliceAdditionalSpecFns;
use vstd::utf8::{decode_utf8, encode_utf8, is_char_boundary};
use crate::step::StepDirection;
use crate::view::{new_or_text, new_text_or_text, LineKind, ViewLine, ViewLineModel};
use vstd::prelude::*;

verus! {

/// Phase of the animation of a move.
#[derive(Debug, Clone, Copy, PartialEq, Eq, Structural)]
pub enum AnimationPhase {
    /// No animation.
    Idle,
    /// The old content fades out.
    FadeOut,
    /// The new content fades in.
    FadeIn,
}

/// How a diff is displayed.
#[derive(Debug, Clone, Copy, PartialEq, Eq, Structural)]
pub enum ViewMode {
    /// One pane with old and new marked.
    SinglePane,
    /// Old on the left, new on the right.
    Split,
    /// The file morphing: deletions disappear.
    Evolution,
}

impl Default for ViewMode {
    /// One pane.
    fn default() -> (m: Self)
        ensures
            m == ViewMode::SinglePane,
    {
        ViewMode::SinglePane
    }
}

impl ViewMode {
    /// The next view mode in the cycle single pane, split, evolution.
    pub fn next(self) -> (m: Self)
        ensures
            m == (match self {
                ViewMode::SinglePane => ViewMode::Split,
                ViewMode::Split => ViewMode::Evolution,
                ViewMode::Evolution => ViewMode::SinglePane,
            }),
    {
        match self {
            ViewMode::SinglePane => ViewMode::Split,
            ViewMode::Split => ViewMode::Evolution,
            ViewMode::Evolution => ViewMode::SinglePane,
        }
    }
}

/// Whether scrolling past the end is allowed: when centering
/// automatically on a pending scroll to the active line, or once centered
/// by hand.
pub fn allow_overscroll_state(auto_center: bool, needs_scroll_to_active: bool, centered_once: bool) -> (b: bool)
    ensures
        b == ((auto_center && needs_scroll_to_active) || centered_once),
{
    (auto_center && needs_scroll_to_active) || centered_once
}

/// `a - b`, or 0.
pub open spec fn sub0(a: int, b: int) -> int {
    if a >= b {
        a - b
    } else {
        0
    }
}

/// The rows kept between the active row and the viewport's edges: three,
/// or a quarter of the viewport when that is less.
pub open spec fn scroll_margin(viewport_height: usize) -> int {
    if viewport_height / 4 < 3 {
        (viewport_height / 4) as int
    } else {
        3
    }
}

/// The scroll offset after making a row visible: when it lies within the
/// margin above, the offset moves up to leave the margin; when within the
/// margin below (or further), it moves down likewise; else it stays.
pub open spec fn reveal_row_spec(offset: usize, row: usize, viewport_height: usize) -> int {
    let m = scroll_margin(viewport_height);
    if row < offset + m {
        sub0(row as int, m)
    } else if row >= offset + sub0(viewport_height as int, m) {
        sub0(row as int, sub0(viewport_height as int, m + 1))
    } else {
        offset as int
    }
}

/// The scroll offset after making a row visible (see `reveal_row_spec`).
pub fn reveal_row(offset: usize, row: usize, viewport_height: usize) -> (r: usize)
    ensures
        r == reveal_row_spec(offset, row, viewport_height),
{
    let quarter = viewport_height / 4;
    let margin: usize = if quarter < 3 {
        quarter
    } else {
        3
    };
    if (row as u128) < (offset as u128) + (margin as u128) {
        row.saturating_sub(margin)
    } else if (row as u128) >= (offset as u128) + (viewport_height.saturating_sub(margin) as u128) {
        row.saturating_sub(viewport_height.saturating_sub(margin + 1))
    } else {
        offset
    }
}

/// A row made visible stays inside a viewport of at least one row.
pub proof fn law_revealed_row_is_visible(offset: usize, row: usize, viewport_height: usize)
    requires
        viewport_height >= 1,
    ensures
        reveal_row_spec(offset, row, viewport_height) <= row < reveal_row_spec(offset, row, viewport_height) + viewport_height,
{
}

/// The scroll offset once a step settles: centered on the active row when
/// centering (half a viewport above it), else the row made visible; with
/// no active row, the top of a non-empty view unless it is held (the
/// evolution view past the first step).
pub open spec fn settle_scroll_spec(offset: usize, viewport_height: usize, display_len: usize, display_idx: Option<usize>, center: bool, hold: bool) -> int {
    match display_idx {
        Some(idx) => if center {
            sub0(idx as int, viewport_height as int / 2)
        } else {
            reveal_row_spec(offset, idx, viewport_height)
        },
        None => if display_len > 0 && !hold { 0 } else { offset as int },
    }
}

/// The scroll offset once a step settles (see `settle_scroll_spec`).
pub fn settle_scroll(offset: usize, viewport_height: usize, display_len: usize, display_idx: Option<usize>, center: bool, hold: bool) -> (r: usize)
    ensures
        r == settle_scroll_spec(offset, viewport_height, display_len, display_idx, center, hold),
{
    match display_idx {
        Some(idx) => if center {
            idx.saturating_sub(viewport_height / 2)
        } else {
            reveal_row(offset, idx, viewport_height)
        },
        None => if display_len > 0 && !hold {
            0
        } else {
            offset
        },
    }
}

/// The largest scroll offset: the last line at the bottom, or with
/// overscroll the last line at the middle of the viewport.
pub fn max_scroll(total_lines: usize, viewport_height: usize, allow_overscroll: bool) -> (m: usize)
    ensures
        m == (if allow_overscroll {
            sub0(sub0(total_lines as int, 1), viewport_height as int / 2)
        } else {
            sub0(total_lines as int, viewport_height as int)
        }),
{
    if allow_overscroll {
        total_lines.saturating_sub(1).saturating_sub(viewport_height / 2)
    } else {
        total_lines.saturating_sub(viewport_height)
    }
}

/// Index of the first of the first `n` lines with the flag (primary when
/// `primary`, active otherwise).
pub open spec fn first_flagged(v: Seq<ViewLineModel>, primary: bool, n: int) -> Option<int>
    decreases n,
{
    if n <= 0 {
        None
    } else {
        match first_flagged(v, primary, n - 1) {
            Some(i) => Some(i),
            None => if (if primary {
                v[n - 1].is_primary_active
            } else {
                v[n - 1].is_active
            }) {
                Some(n - 1)
            } else {
                None
            },
        }
    }
}

/// Whether the evolution view shows a line: deleted lines never, pending
/// deletions only while animating an active line.
pub open spec fn evo_line_visible(l: ViewLineModel, phase: AnimationPhase) -> bool {
    match l.kind {
        LineKind::Deleted => false,
        LineKind::PendingDelete => l.is_active && phase != AnimationPhase::Idle,
        _ => true,
    }
}

/// Whether a line shows in the evolution view in a phase (see
/// `evo_line_visible`).
pub fn evolution_line_visible(line: &ViewLine, phase: AnimationPhase) -> (b: bool)
    ensures
        b == evo_line_visible(line@, phase),
{
    match line.kind {
        LineKind::Deleted => false,
        LineKind::PendingDelete => line.is_active && !matches!(phase, AnimationPhase::Idle),
        _ => true,
    }
}

/// Over the first `n` lines of the evolution view: the number of shown
/// lines, the row of the first shown primary line and of the first shown
/// active line.
pub open spec fn evo_fold(v: Seq<ViewLineModel>, phase: AnimationPhase, n: int) -> (int, Option<int>, Option<int>)
    decreases n,
{
    if n <= 0 {
        (0, None, None)
    } else {
        let (len, p, a) = evo_fold(v, phase, n - 1);
        let l = v[n - 1];
        if evo_line_visible(l, phase) {
            (
                len + 1,
                if l.is_primary_active && p is None {
                    Some(len)
                } else {
                    p
                },
                if l.is_active && a is None {
                    Some(len)
                } else {
                    a
                },
            )
        } else {
            (len, p, a)
        }
    }
}

/// The evolution view's metrics: shown lines, and the row of the primary
/// line (else of an active line).
pub open spec fn evo_metrics_spec(v: Seq<ViewLineModel>, phase: AnimationPhase) -> (int, Option<int>) {
    let (len, p, a) = evo_fold(v, phase, v.len() as int);
    (len, if p is Some {
        p
    } else {
        a
    })
}

/// Counts and rows of the split view over the first `n` lines: old rows,
/// new rows, the last primary row on each side, the first other active
/// row on each side.
pub struct SplitScan {
    pub old_count: int,
    pub new_count: int,
    pub old_primary: Option<int>,
    pub new_primary: Option<int>,
    pub old_fallback: Option<int>,
    pub new_fallback: Option<int>,
}

/// Whether a line has an old row (left pane).
pub open spec fn old_present(l: ViewLineModel) -> bool {
    l.old_line is Some
}

/// Whether a line has a new row (right pane): deleted lines have none.
pub open spec fn new_present(l: ViewLineModel) -> bool {
    l.new_line is Some && !(l.kind == LineKind::Deleted || l.kind == LineKind::PendingDelete)
}

/// The split view scan over the first `n` lines; with aligned lines each
/// line takes a row on both sides.
pub open spec fn split_fold(v: Seq<ViewLineModel>, align: bool, n: int) -> SplitScan
    decreases n,
{
    if n <= 0 {
        SplitScan {
            old_count: 0,
            new_count: 0,
            old_primary: None,
            new_primary: None,
            old_fallback: None,
            new_fallback: None,
        }
    } else {
        let st = split_fold(v, align, n - 1);
        let l = v[n - 1];
        let op = old_present(l);
        let np = new_present(l);
        let st1 = if op || (align && np) {
            SplitScan {
                old_primary: if l.is_primary_active {
                    Some(st.old_count)
                } else {
                    st.old_primary
                },
                old_fallback: if !l.is_primary_active && l.is_active && st.old_fallback is None {
                    Some(st.old_count)
                } else {
                    st.old_fallback
                },
                old_count: st.old_count + 1,
                ..st
            }
        } else {
            st
        };
        if np || (align && op) {
            SplitScan {
                new_primary: if l.is_primary_active {
                    Some(st1.new_count)
                } else {
                    st1.new_primary
                },
                new_fallback: if !l.is_primary_active && l.is_active && st1.new_fallback is None {
                    Some(st1.new_count)
                } else {
                    st1.new_fallback
                },
                new_count: st1.new_count + 1,
                ..st1
            }
        } else {
            st1
        }
    }
}

/// `|a - b|`.
pub open spec fn dist(a: int, b: int) -> int {
    if a >= b {
        a - b
    } else {
        b - a
    }
}

/// The split view's metrics: rows (the longer side), and the cursor row:
/// the primary rows when there are any, else the fallback rows; of two
/// candidates the one nearer the scroll offset, a tie going to the new side
/// unless stepping back.
pub open spec fn split_metrics_spec(v: Seq<ViewLineModel>, scroll: int, dir: StepDirection, align: bool) -> (
    int,
    Option<int>,
) {
    let st = split_fold(v, align, v.len() as int);
    let len = if st.old_count >= st.new_count {
        st.old_count
    } else {
        st.new_count
    };
    let (o, n) = if st.old_primary is Some || st.new_primary is Some {
        (st.old_primary, st.new_primary)
    } else {
        (st.old_fallback, st.new_fallback)
    };
    let idx = match (o, n) {
        (Some(a), Some(b)) => if dist(a, scroll) < dist(b, scroll) {
            Some(a)
        } else if dist(b, scroll) < dist(a, scroll) {
            Some(b)
        } else if dir == StepDirection::Backward {
            Some(a)
        } else {
            Some(b)
        },
        (Some(a), None) => Some(a),
        (None, Some(b)) => Some(b),
        (None, None) => None,
    };
    (len, idx)
}

/// The metrics of a view for a view mode (see the per-mode specs).
pub open spec fn display_metrics_spec(
    v: Seq<ViewLineModel>,
    mode: ViewMode,
    phase: AnimationPhase,
    scroll: int,
    dir: StepDirection,
    align: bool,
) -> (int, Option<int>) {
    match mode {
        ViewMode::SinglePane => (v.len() as int, match first_flagged(v, true, v.len() as int) {
            Some(i) => Some(i),
            None => first_flagged(v, false, v.len() as int),
        }),
        ViewMode::Evolution => evo_metrics_spec(v, phase),
        ViewMode::Split => split_metrics_spec(v, scroll, dir, align),
    }
}

/// The views of a slice of lines.
pub open spec fn models(view: &[ViewLine]) -> Seq<ViewLineModel> {
    view@.map_values(|l: ViewLine| l@)
}

/// `(int, Option<int>)` as the pair a function returns.
pub open spec fn as_metrics(r: (usize, Option<usize>)) -> (int, Option<int>) {
    (r.0 as int, match r.1 {
        Some(i) => Some(i as int),
        None => None,
    })
}

/// The first line with the flag.
fn position_flagged(view: &[ViewLine], primary: bool) -> (r: Option<usize>)
    ensures
        match r {
            Some(i) => first_flagged(models(view), primary, view@.len() as int) == Some(i as int),
            None => first_flagged(models(view), primary, view@.len() as int) is None,
        },
{
    let ghost v = models(view);
    let mut i: usize = 0;
    while i < view.len()
        invariant
            v == models(view),
            i <= view@.len(),
            first_flagged(v, primary, i as int) is None,
        decreases view@.len() - i,
    {
        let hit = if primary {
            view[i].is_primary_active
        } else {
            view[i].is_active
        };
        if hit {
            let ghost k = i as int;
            assert(first_flagged(v, primary, k + 1) == Some(k));
            proof {
                lemma_first_flagged_stays(v, primary, k + 1, view@.len() as int);
            }
            return Some(i);
        }
        i = i + 1;
    }
    None
}

proof fn lemma_first_flagged_stays(v: Seq<ViewLineModel>, primary: bool, m: int, n: int)
    requires
        0 <= m <= n,
        first_flagged(v, primary, m) is Some,
    ensures
        first_flagged(v, primary, n) == first_flagged(v, primary, m),
    decreases n - m,
{
    if n > m {
        lemma_first_flagged_stays(v, primary, m, n - 1);
    }
}

/// The number of display rows of a view and the row of its cursor line
/// (see `display_metrics_spec`).
pub fn display_metrics(
    view: &[ViewLine],
    view_mode: ViewMode,
    animation_phase: AnimationPhase,
    scroll_offset: usize,
    step_direction: StepDirection,
    split_align_lines: bool,
) -> (r: (usize, Option<usize>))
    requires
        scroll_offset <= isize::MAX,
    ensures
        as_metrics(r) == display_metrics_spec(
            models(view),
            view_mode,
            animation_phase,
            scroll_offset as int,
            step_direction,
            split_align_lines,
        ),
{
    match view_mode {
        ViewMode::SinglePane => {
            let idx = match position_flagged(view, true) {
                Some(i) => Some(i),
                None => position_flagged(view, false),
            };
            (view.len(), idx)
        },
        ViewMode::Evolution => evolution_display_metrics(view, animation_phase),
        ViewMode::Split => split_display_metrics(view, scroll_offset, step_direction, split_align_lines),
    }
}

/// The evolution view's rows and cursor row (see `evo_metrics_spec`).
pub fn evolution_display_metrics(view: &[ViewLine], animation_phase: AnimationPhase) -> (r: (usize, Option<usize>))
    ensures
        as_metrics(r) == evo_metrics_spec(models(view), animation_phase),
{
    let ghost v = models(view);
    let mut display_len: usize = 0;
    let mut primary_idx: Option<usize> = None;
    let mut any_active_idx: Option<usize> = None;
    let mut i: usize = 0;
    while i < view.len()
        invariant
            v == models(view),
            i <= view@.len(),
            display_len <= i,
            (display_len as int, as_metrics((0, primary_idx)).1, as_metrics((0, any_active_idx)).1) == evo_fold(
                v,
                animation_phase,
                i as int,
            ),
        decreases view@.len() - i,
    {
        let line = &view[i];
        assert(line@ == v[i as int]);
        let visible = match line.kind {
            LineKind::Deleted => false,
            LineKind::PendingDelete => line.is_active && animation_phase != AnimationPhase::Idle,
            _ => true,
        };
        if visible {
            if line.is_primary_active && primary_idx.is_none() {
                primary_idx = Some(display_len);
            }
            if line.is_active && any_active_idx.is_none() {
                any_active_idx = Some(display_len);
            }
            display_len = display_len + 1;
        }
        i = i + 1;
    }
    let idx = match primary_idx {
        Some(p) => Some(p),
        None => any_active_idx,
    };
    (display_len, idx)
}

/// The split view's rows and cursor row (see `split_metrics_spec`).
pub fn split_display_metrics(
    view: &[ViewLine],
    scroll_offset: usize,
    step_direction: StepDirection,
    split_align_lines: bool,
) -> (r: (usize, Option<usize>))
    requires
        scroll_offset <= isize::MAX,
    ensures
        as_metrics(r) == split_metrics_spec(models(view), scroll_offset as int, step_direction, split_align_lines),
{
    let ghost v = models(view);
    let mut old_count: usize = 0;
    let mut new_count: usize = 0;
    let mut old_primary_idx: Option<usize> = None;
    let mut new_primary_idx: Option<usize> = None;
    let mut old_fallback_idx: Option<usize> = None;
    let mut new_fallback_idx: Option<usize> = None;
    let mut i: usize = 0;
    while i < view.len()
        invariant
            v == models(view),
            i <= view@.len(),
            old_count <= i,
            new_count <= i,
            split_fold(v, split_align_lines, i as int) == (SplitScan {
                old_count: old_count as int,
                new_count: new_count as int,
                old_primary: as_metrics((0, old_primary_idx)).1,
                new_primary: as_metrics((0, new_primary_idx)).1,
                old_fallback: as_metrics((0, old_fallback_idx)).1,
                new_fallback: as_metrics((0, new_fallback_idx)).1,
            }),
        decreases view@.len() - i,
    {
        let line = &view[i];
        assert(line@ == v[i as int]);
        let old_present = line.old_line.is_some();
        let new_present = line.new_line.is_some() && !(line.kind == LineKind::Deleted || line.kind
            == LineKind::PendingDelete);
        if old_present || (split_align_lines && new_present) {
            if line.is_primary_active {
                old_primary_idx = Some(old_count);
            } else if line.is_active && old_fallback_idx.is_none() {
                old_fallback_idx = Some(old_count);
            }
            old_count = old_count + 1;
        }
        if new_present || (split_align_lines && old_present) {
            if line.is_primary_active {
                new_primary_idx = Some(new_count);
            } else if line.is_active && new_fallback_idx.is_none() {
                new_fallback_idx = Some(new_count);
            }
            new_count = new_count + 1;
        }
        i = i + 1;
    }
    let display_len = if old_count >= new_count {
        old_count
    } else {
        new_count
    };
    let (old_idx, new_idx) = if old_primary_idx.is_some() || new_primary_idx.is_some() {
        (old_primary_idx, new_primary_idx)
    } else {
        (old_fallback_idx, new_fallback_idx)
    };
    let active_idx = match (old_idx, new_idx) {
        (Some(old), Some(new)) => {
            let old_dist = if old >= scroll_offset {
                old - scroll_offset
            } else {
                scroll_offset - old
            };
            let new_dist = if new >= scroll_offset {
                new - scroll_offset
            } else {
                scroll_offset - new
            };
            if old_dist < new_dist {
                Some(old)
            } else if new_dist < old_dist {
                Some(new)
            } else {
                match step_direction {
                    StepDirection::Forward | StepDirection::Unset => Some(new),
                    StepDirection::Backward => Some(old),
                }
            }
        },
        (Some(old), None) => Some(old),
        (None, Some(new)) => Some(new),
        (None, None) => None,
    };
    (display_len, active_idx)
}

/// The text a span contributes on the old side (`Insert` none).
pub open spec fn old_piece(s: SpanView) -> Seq<char> {
    match s.kind {
        ChangeKind::Insert => Seq::empty(),
        _ => s.text,
    }
}

/// The text a span contributes inline: both sides (`Replace` its old text
/// then its new text).
pub open spec fn inline_piece(s: SpanView) -> Seq<char> {
    match s.kind {
        ChangeKind::Replace => s.text + new_or_text(s),
        _ => s.text,
    }
}

/// The text a span contributes on the new side (`Delete` none; `Replace`
/// its new text).
pub open spec fn new_piece(s: SpanView) -> Seq<char> {
    match s.kind {
        ChangeKind::Delete => Seq::empty(),
        ChangeKind::Replace => new_or_text(s),
        _ => s.text,
    }
}

/// Which side a change's copied text shows.
pub enum TextSide {
    Old,
    Inline,
    New,
}

/// A span's piece for a side.
pub open spec fn piece(s: SpanView, side: TextSide) -> Seq<char> {
    match side {
        TextSide::Old => old_piece(s),
        TextSide::Inline => inline_piece(s),
        TextSide::New => new_piece(s),
    }
}

/// The pieces of the first `n` spans for a side, laid end to end.
pub open spec fn side_text(spans: Seq<SpanView>, side: TextSide, n: int) -> Seq<char>
    decreases n,
{
    if n <= 0 {
        Seq::empty()
    } else {
        side_text(spans, side, n - 1) + piece(spans[n - 1], side)
    }
}

/// A change's text for a side.
fn text_for_change(change: &Change, side: TextSide) -> (t: String)
    ensures
        t@ == side_text(change@.spans, side, change@.spans.len() as int),
{
    let mut text = String::new();
    let mut i: usize = 0;
    while i < change.spans.len()
        invariant
            i <= change@.spans.len(),
            text@ == side_text(change@.spans, side, i as int),
        decreases change@.spans.len() - i,
    {
        let span = &change.spans[i];
        assert(span@ == change@.spans[i as int]);
        match side {
            TextSide::Old => match span.kind {
                ChangeKind::Insert => {},
                _ => push_str(&mut text, span.text.as_str()),
            },
            TextSide::Inline => match span.kind {
                ChangeKind::Replace => {
                    push_str(&mut text, span.text.as_str());
                    let n = new_text_or_text(span);
                    push_str(&mut text, n.as_str());
                    assert(text@ =~= side_text(change@.spans, side, i as int) + (span@.text + new_or_text(span@)));
                },
                _ => push_str(&mut text, span.text.as_str()),
            },
            TextSide::New => match span.kind {
                ChangeKind::Delete => {},
                ChangeKind::Replace => {
                    let n = new_text_or_text(span);
                    push_str(&mut text, n.as_str());
                },
                _ => push_str(&mut text, span.text.as_str()),
            },
        }
        assert(side_text(change@.spans, side, i + 1) == side_text(change@.spans, side, i as int) + piece(
            change@.spans[i as int],
            side,
        ));
        proof {
            if piece(span@, side) == Seq::<char>::empty() {
                assert(text@ =~= side_text(change@.spans, side, i as int) + piece(span@, side));
            }
        }
        i = i + 1;
    }
    text
}

/// The old side of a change (its text without insertions).
pub fn old_text_for_change(change: &Change) -> (t: String)
    ensures
        t@ == side_text(change@.spans, TextSide::Old, change@.spans.len() as int),
{
    text_for_change(change, TextSide::Old)
}

/// Both sides of a change inline (a replacement's old text then its new
/// text).
pub fn inline_text_for_change(change: &Change) -> (t: String)
    ensures
        t@ == side_text(change@.spans, TextSide::Inline, change@.spans.len() as int),
{
    text_for_change(change, TextSide::Inline)
}

/// The new side of a change (its text without deletions, replacements by
/// their new text).
pub fn modified_only_text_for_change(change: &Change) -> (t: String)
    ensures
        t@ == side_text(change@.spans, TextSide::New, change@.spans.len() as int),
{
    text_for_change(change, TextSide::New)
}

/// The text before the first `'/'` (all of it without one).
pub open spec fn first_segment(s: Seq<char>, n: int) -> Seq<char>
    decreases n,
{
    if n <= 0 {
        Seq::empty()
    } else if s.take(n - 1).contains('/') {
        first_segment(s, n - 1)
    } else if s[n - 1] == '/' {
        s.take(n - 1)
    } else {
        s.take(n)
    }
}

/// The index just after the last `'/'` among the first `n` characters (0
/// without one).
pub open spec fn last_segment_start(s: Seq<char>, n: int) -> int
    decreases n,
{
    if n <= 0 {
        0
    } else if s[n - 1] == '/' {
        n
    } else {
        last_segment_start(s, n - 1)
    }
}

/// The last `k` bytes of a text, decoded.
pub open spec fn byte_tail(s: Seq<char>, k: int) -> Seq<char> {
    let b = encode_utf8(s);
    decode_utf8(b.subrange(if b.len() >= k { b.len() - k } else { 0 }, b.len() as int))
}

/// A path shortened to `max_width` bytes: unchanged when it fits; with at
/// most one `'/'`, `"..."` and its last `max_width - 3` bytes; otherwise
/// `first/.../last` when that fits, else `".../"` and the last
/// `max_width - 4` bytes of the last segment.
pub open spec fn truncate_path_spec(path: Seq<char>, max_width: usize) -> Seq<char> {
    let n = path.len() as int;
    if encode_utf8(path).len() <= max_width {
        path
    } else if !path.subrange(0, n).contains('/') || last_segment_start(path, n) == first_segment(path, n).len() + 1 {
        "..."@ + byte_tail(path, if max_width >= 3 { max_width - 3 } else { 0 })
    } else {
        let first = first_segment(path, n);
        let last = path.subrange(last_segment_start(path, n), n);
        let simple = first + "/.../"@ + last;
        if encode_utf8(simple).len() <= max_width {
            simple
        } else {
            ".../"@ + byte_tail(last, if max_width >= 4 { max_width - 4 } else { 0 })
        }
    }
}

/// The last `k` bytes of a text (the cut falls on a character boundary).
pub(crate) fn tail_bytes(s: &str, k: usize) -> (r: String)
    requires
        is_char_boundary(
            encode_utf8(s@),
            if encode_utf8(s@).len() >= k { encode_utf8(s@).len() - k } else { 0 },
        ),
    ensures
        r@ == byte_tail(s@, k as int),
{
    assert(s.spec_bytes() == encode_utf8(s@));
    let len = s.as_bytes().len();
    let from = if len >= k {
        len - k
    } else {
        0
    };
    let (_, tail) = s.split_at(from);
    proof {
        assert(tail.spec_bytes() == encode_utf8(tail@));
        vstd::utf8::encode_utf8_decode_utf8(tail@);
    }
    to_owned_string(tail)
}

/// The byte cut that `truncate_path_spec` makes falls on a character
/// boundary.
pub open spec fn truncate_path_cut_ok(path: Seq<char>, max_width: usize) -> bool {
    let n = path.len() as int;
    let b = encode_utf8(path);
    if b.len() <= max_width {
        true
    } else if !path.subrange(0, n).contains('/') || last_segment_start(path, n) == first_segment(path, n).len() + 1 {
        let k = if max_width >= 3 { max_width - 3 } else { 0 };
        is_char_boundary(b, if b.len() >= k { b.len() - k } else { 0 })
    } else {
        let last = path.subrange(last_segment_start(path, n), n);
        let lb = encode_utf8(last);
        let k = if max_width >= 4 { max_width - 4 } else { 0 };
        encode_utf8(first_segment(path, n) + "/.../"@ + last).len() <= max_width || is_char_boundary(
            lb,
            if lb.len() >= k { lb.len() - k } else { 0 },
        )
    }
}

proof fn lemma_first_segment(s: Seq<char>, n: int)
    requires
        0 <= n <= s.len(),
    ensures
        s.take(n).contains('/') ==> exists|p: int|
            0 <= p < n && s[p] == '/' && !s.take(p).contains('/') && first_segment(s, n) == s.take(p),
        !s.take(n).contains('/') ==> first_segment(s, n) == s.take(n),
    decreases n,
{
    if n > 0 {
        lemma_first_segment(s, n - 1);
        assert(s.take(n).drop_last() =~= s.take(n - 1));
        if !s.take(n - 1).contains('/') && s[n - 1] == '/' {
            assert(s.take(n)[n - 1] == '/');
        }
        if s.take(n - 1).contains('/') {
            let k = choose|k: int| 0 <= k < n - 1 && #[trigger] s.take(n - 1)[k] == '/';
            assert(s.take(n)[k] == '/');
        }
        if s.take(n).contains('/') && !s.take(n - 1).contains('/') {
            let k = choose|k: int| 0 <= k < n && #[trigger] s.take(n)[k] == '/';
            if k < n - 1 {
                assert(s.take(n - 1)[k] == '/');
            }
        }
    } else {
        assert(s.take(0) =~= Seq::<char>::empty());
    }
}

/// A path shortened to fit `max_width` bytes (see `truncate_path_spec`).
pub fn truncate_path(path: &str, max_width: usize) -> (r: String)
    requires
        truncate_path_cut_ok(path@, max_width),
    ensures
        r@ == truncate_path_spec(path@, max_width),
{
    assert(path.spec_bytes() == encode_utf8(path@));
    if path.as_bytes().len() <= max_width {
        return to_owned_string(path);
    }
    let n = path.unicode_len();
    let ghost s = path@;
    let mut fi: usize = 0;
    while fi < n && path.get_char(fi) != '/'
        invariant
            n == s.len(),
            s == path@,
            fi <= n,
            forall|k: int| 0 <= k < fi ==> s[k] != '/',
        decreases n - fi,
    {
        fi = fi + 1;
    }
    let mut ls: usize = n;
    while ls > 0 && path.get_char(ls - 1) != '/'
        invariant
            n == s.len(),
            s == path@,
            ls <= n,
            forall|k: int| ls <= k < n ==> s[k] != '/',
            last_segment_start(s, n as int) == last_segment_start(s, ls as int),
        decreases ls,
    {
        ls = ls - 1;
    }
    proof {
        assert(s.subrange(0, n as int) =~= s.take(n as int));
        lemma_first_segment(s, n as int);
        if fi < n {
            assert(s.take(n as int).contains('/')) by {
                assert(s.take(n as int)[fi as int] == '/');
            }
            let p = choose|p: int| 0 <= p < n && #[trigger] s[p] == '/' && !s.take(p).contains('/') && first_segment(s, n as int) == s.take(p);
            assert(p == fi) by {
                if p < fi {
                    assert(s[p] != '/');
                } else if p > fi {
                    assert(s.take(p)[fi as int] == '/');
                }
            }
        } else {
            assert(!s.take(n as int).contains('/')) by {
                if s.take(n as int).contains('/') {
                    let k = choose|k: int| 0 <= k < n && #[trigger] s.take(n as int)[k] == '/';
                    assert(s[k] != '/');
                }
            }
            assert(s.take(n as int) =~= s);
        }
        assert(last_segment_start(s, ls as int) == ls as int);
    }
    if fi >= n || ls == fi + 1 {
        let k = max_width.saturating_sub(3);
        let mut r = to_owned_string("...");
        let t = tail_bytes(path, k);
        push_str(&mut r, t.as_str());
        return r;
    }
    let first = path.substring_char(0, fi);
    let last = path.substring_char(ls, n);
    let mut simple = to_owned_string(first);
    push_str(&mut simple, "/.../");
    push_str(&mut simple, last);
    let simple_str = simple.as_str();
    assert(simple_str.spec_bytes() == encode_utf8(simple@));
    if simple_str.as_bytes().len() <= max_width {
        return simple;
    }
    let k = max_width.saturating_sub(4);
    let mut r = to_owned_string(".../");
    let t = tail_bytes(last, k);
    push_str(&mut r, t.as_str());
    r
}

} // verus!
