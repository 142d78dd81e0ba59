//! The lines a viewer draws for a step of a diff, and how one change
//! becomes one line.

use crate::change::{Change, ChangeKind, ChangeSpan, ChangeView, SpanView};
use crate::foreign::push_str;
use crate::step::{AnimationFrame, StepDirection};
use vstd::prelude::*;

verus! {

/// A styled piece of a view line.
#[derive(Debug, Clone)]
pub struct ViewSpan {
    pub text: String,
    pub kind: ViewSpanKind,
}

/// How a span is styled.
#[derive(Debug, Clone, Copy, PartialEq, Eq, Structural)]
pub enum ViewSpanKind {
    Equal,
    Inserted,
    Deleted,
    PendingInsert,
    PendingDelete,
}

/// A line of the view at the current step, with its status.
#[derive(Debug, Clone)]
pub struct ViewLine {
    /// Full text of the line.
    pub content: String,
    /// Styled pieces (for word-level highlighting).
    pub spans: Vec<ViewSpan>,
    /// Overall kind of the line.
    pub kind: LineKind,
    pub old_line: Option<usize>,
    pub new_line: Option<usize>,
    /// Part of the animated change or hunk.
    pub is_active: bool,
    /// The active change itself (not just part of a hunk preview).
    pub is_active_change: bool,
    /// The line the cursor marker sits on.
    pub is_primary_active: bool,
    /// Show the hunk extent marker.
    pub show_hunk_extent: bool,
    /// Id of the change the line belongs to.
    pub change_id: usize,
    /// Index of the hunk the line belongs to.
    pub hunk_index: Option<usize>,
    /// Whether the change has a span that is not `Equal`.
    pub has_changes: bool,
}

/// The kind of a view line.
#[derive(Debug, Clone, Copy, PartialEq, Eq, Structural)]
pub enum LineKind {
    /// Unchanged context.
    Context,
    /// Inserted line.
    Inserted,
    /// Deleted line.
    Deleted,
    /// Modified line.
    Modified,
    /// About to be deleted (animated).
    PendingDelete,
    /// About to be inserted (animated).
    PendingInsert,
    /// About to be modified (animated).
    PendingModify,
}

/// A view span as plain values.
pub struct ViewSpanModel {
    pub text: Seq<char>,
    pub kind: ViewSpanKind,
}

/// A view line as plain values.
pub struct ViewLineModel {
    pub content: Seq<char>,
    pub spans: Seq<ViewSpanModel>,
    pub kind: LineKind,
    pub old_line: Option<usize>,
    pub new_line: Option<usize>,
    pub is_active: bool,
    pub is_active_change: bool,
    pub is_primary_active: bool,
    pub show_hunk_extent: bool,
    pub change_id: usize,
    pub hunk_index: Option<usize>,
    pub has_changes: bool,
}

impl View for ViewSpan {
    type V = ViewSpanModel;

    open spec fn view(&self) -> ViewSpanModel {
        ViewSpanModel { text: self.text@, kind: self.kind }
    }
}

/// The views of a sequence of view spans.
pub open spec fn view_span_models(s: Seq<ViewSpan>) -> Seq<ViewSpanModel> {
    s.map_values(|v: ViewSpan| v@)
}

impl View for ViewLine {
    type V = ViewLineModel;

    open spec fn view(&self) -> ViewLineModel {
        ViewLineModel {
            content: self.content@,
            spans: view_span_models(self.spans@),
            kind: self.kind,
            old_line: self.old_line,
            new_line: self.new_line,
            is_active: self.is_active,
            is_active_change: self.is_active_change,
            is_primary_active: self.is_primary_active,
            show_hunk_extent: self.show_hunk_extent,
            change_id: self.change_id,
            hunk_index: self.hunk_index,
            has_changes: self.has_changes,
        }
    }
}

/// The views of a sequence of view lines.
pub open spec fn view_line_models(s: Seq<ViewLine>) -> Seq<ViewLineModel> {
    s.map_values(|v: ViewLine| v@)
}

/// The flags a line is built with.
pub struct LineFlags {
    pub is_applied: bool,
    pub is_active: bool,
    pub is_active_change: bool,
    pub is_primary_active: bool,
    pub show_hunk_extent: bool,
}

/// Whether a changed span shows its new text, for the frame and the
/// direction of the last step: the final state when idle or when no step
/// was taken; otherwise old text fades out and new text fades in (reversed
/// when stepping back).
pub open spec fn show_new_spec(direction: StepDirection, is_applied: bool, frame: AnimationFrame) -> bool {
    if direction == StepDirection::Unset {
        is_applied
    } else {
        match frame {
            AnimationFrame::Idle => is_applied,
            AnimationFrame::FadeOut => direction == StepDirection::Backward,
            AnimationFrame::FadeIn => direction != StepDirection::Backward,
        }
    }
}

/// Whether a changed span shows its new text (see `show_new_spec`).
pub fn compute_show_new(direction: StepDirection, is_applied: bool, frame: AnimationFrame) -> (b: bool)
    ensures
        b == show_new_spec(direction, is_applied, frame),
{
    if direction == StepDirection::Unset {
        return is_applied;
    }
    match frame {
        AnimationFrame::Idle => is_applied,
        AnimationFrame::FadeOut => direction == StepDirection::Backward,
        AnimationFrame::FadeIn => direction != StepDirection::Backward,
    }
}

/// The new text of a span, or its text when it has none.
pub open spec fn new_or_text(s: SpanView) -> Seq<char> {
    match s.new_text {
        Some(t) => t,
        None => s.text,
    }
}

/// The new text of a span, or its text when it has none.
pub fn new_text_or_text(span: &ChangeSpan) -> (t: String)
    ensures
        t@ == new_or_text(span@),
{
    match &span.new_text {
        Some(t) => t.clone(),
        None => span.text.clone(),
    }
}

/// One span line for a single-span change: `None` for an insertion that is
/// neither applied nor active.
pub open spec fn single_line_spec(
    s: SpanView,
    change_id: usize,
    f: LineFlags,
    direction: StepDirection,
    frame: AnimationFrame,
    hunk_index: Option<usize>,
) -> Option<ViewLineModel> {
    let parts: Option<(ViewSpanKind, LineKind, Seq<char>)> = match s.kind {
        ChangeKind::Equal => Some((ViewSpanKind::Equal, LineKind::Context, s.text)),
        ChangeKind::Delete => if f.is_active {
            Some((ViewSpanKind::PendingDelete, LineKind::PendingDelete, s.text))
        } else if f.is_applied {
            Some((ViewSpanKind::Deleted, LineKind::Deleted, s.text))
        } else {
            Some((ViewSpanKind::Equal, LineKind::Context, s.text))
        },
        ChangeKind::Insert => if f.is_active {
            Some((ViewSpanKind::PendingInsert, LineKind::PendingInsert, s.text))
        } else if f.is_applied {
            Some((ViewSpanKind::Inserted, LineKind::Inserted, s.text))
        } else {
            None
        },
        ChangeKind::Replace => if f.is_active {
            if show_new_spec(direction, f.is_applied, frame) {
                Some((ViewSpanKind::PendingInsert, LineKind::PendingModify, new_or_text(s)))
            } else {
                Some((ViewSpanKind::PendingDelete, LineKind::PendingModify, s.text))
            }
        } else if f.is_applied {
            Some((ViewSpanKind::Inserted, LineKind::Modified, new_or_text(s)))
        } else {
            Some((ViewSpanKind::Equal, LineKind::Context, s.text))
        },
    };
    match parts {
        Some((sk, lk, text)) => Some(
            ViewLineModel {
                content: text,
                spans: seq![ViewSpanModel { text, kind: sk }],
                kind: lk,
                old_line: s.old_line,
                new_line: s.new_line,
                is_active: f.is_active,
                is_active_change: f.is_active_change,
                is_primary_active: f.is_primary_active,
                show_hunk_extent: f.show_hunk_extent,
                change_id,
                hunk_index,
                has_changes: s.kind != ChangeKind::Equal,
            },
        ),
        None => None,
    }
}

/// Builds the line of a single-span change (see `single_line_spec`).
pub fn build_single_span_line(
    span: &ChangeSpan,
    change_id: usize,
    f: &LineFlags,
    direction: StepDirection,
    frame: AnimationFrame,
    hunk_index: Option<usize>,
) -> (r: Option<ViewLine>)
    ensures
        match r {
            Some(l) => single_line_spec(span@, change_id, *f, direction, frame, hunk_index) == Some(l@),
            None => single_line_spec(span@, change_id, *f, direction, frame, hunk_index) is None,
        },
{
    let view_span_kind;
    let line_kind;
    let content: String;
    match span.kind {
        ChangeKind::Equal => {
            view_span_kind = ViewSpanKind::Equal;
            line_kind = LineKind::Context;
            content = span.text.clone();
        },
        ChangeKind::Delete => {
            if f.is_active {
                view_span_kind = ViewSpanKind::PendingDelete;
                line_kind = LineKind::PendingDelete;
            } else if f.is_applied {
                view_span_kind = ViewSpanKind::Deleted;
                line_kind = LineKind::Deleted;
            } else {
                view_span_kind = ViewSpanKind::Equal;
                line_kind = LineKind::Context;
            }
            content = span.text.clone();
        },
        ChangeKind::Insert => {
            if f.is_active {
                view_span_kind = ViewSpanKind::PendingInsert;
                line_kind = LineKind::PendingInsert;
            } else if f.is_applied {
                view_span_kind = ViewSpanKind::Inserted;
                line_kind = LineKind::Inserted;
            } else {
                return None;
            }
            content = span.text.clone();
        },
        ChangeKind::Replace => {
            if f.is_active {
                if compute_show_new(direction, f.is_applied, frame) {
                    view_span_kind = ViewSpanKind::PendingInsert;
                    content = new_text_or_text(span);
                } else {
                    view_span_kind = ViewSpanKind::PendingDelete;
                    content = span.text.clone();
                }
                line_kind = LineKind::PendingModify;
            } else if f.is_applied {
                view_span_kind = ViewSpanKind::Inserted;
                line_kind = LineKind::Modified;
                content = new_text_or_text(span);
            } else {
                view_span_kind = ViewSpanKind::Equal;
                line_kind = LineKind::Context;
                content = span.text.clone();
            }
        },
    }
    let has_changes = span.kind != ChangeKind::Equal;
    let text = content.clone();
    let l = ViewLine {
        content,
        spans: vec![ViewSpan { text, kind: view_span_kind }],
        kind: line_kind,
        old_line: span.old_line,
        new_line: span.new_line,
        is_active: f.is_active,
        is_active_change: f.is_active_change,
        is_primary_active: f.is_primary_active,
        show_hunk_extent: f.show_hunk_extent,
        change_id,
        hunk_index,
        has_changes,
    };
    assert(l@.spans =~= seq![ViewSpanModel { text: l@.content, kind: view_span_kind }]);
    Some(l)
}

/// Whether a span holds old text (`Delete` or `Replace`).
pub open spec fn span_has_old(s: SpanView) -> bool {
    s.kind == ChangeKind::Delete || s.kind == ChangeKind::Replace
}

/// Whether a span holds new text (`Insert` or `Replace`).
pub open spec fn span_has_new(s: SpanView) -> bool {
    s.kind == ChangeKind::Insert || s.kind == ChangeKind::Replace
}

/// Whether any span of the change holds old text.
pub open spec fn change_has_old(spans: Seq<SpanView>) -> bool {
    exists|i: int| 0 <= i < spans.len() && span_has_old(#[trigger] spans[i])
}

/// Whether any span of the change holds new text.
pub open spec fn change_has_new(spans: Seq<SpanView>) -> bool {
    exists|i: int| 0 <= i < spans.len() && span_has_new(#[trigger] spans[i])
}

/// The piece of a word-level line that a span gives, if any. An active
/// change shows its new or old side (an insertion-only change its new
/// side, a deletion-only change its old side while animating); an applied
/// change shows the final text; other changes show the old text.
pub open spec fn word_part(
    s: SpanView,
    f: LineFlags,
    direction: StepDirection,
    frame: AnimationFrame,
    has_old: bool,
    has_new: bool,
) -> Option<ViewSpanModel> {
    if f.is_active {
        let show_new = match frame {
            AnimationFrame::Idle => show_new_spec(direction, f.is_applied, frame),
            _ => if has_old && has_new {
                show_new_spec(direction, f.is_applied, frame)
            } else {
                has_new
            },
        };
        match s.kind {
            ChangeKind::Equal => Some(ViewSpanModel { text: s.text, kind: ViewSpanKind::Equal }),
            ChangeKind::Delete => if show_new {
                None
            } else {
                Some(ViewSpanModel { text: s.text, kind: ViewSpanKind::PendingDelete })
            },
            ChangeKind::Insert => if show_new {
                Some(ViewSpanModel { text: s.text, kind: ViewSpanKind::PendingInsert })
            } else {
                None
            },
            ChangeKind::Replace => if show_new {
                Some(ViewSpanModel { text: new_or_text(s), kind: ViewSpanKind::PendingInsert })
            } else {
                Some(ViewSpanModel { text: s.text, kind: ViewSpanKind::PendingDelete })
            },
        }
    } else if f.is_applied {
        match s.kind {
            ChangeKind::Equal => Some(ViewSpanModel { text: s.text, kind: ViewSpanKind::Equal }),
            ChangeKind::Delete => None,
            ChangeKind::Insert => Some(ViewSpanModel { text: s.text, kind: ViewSpanKind::Inserted }),
            ChangeKind::Replace => Some(ViewSpanModel { text: new_or_text(s), kind: ViewSpanKind::Inserted }),
        }
    } else {
        match s.kind {
            ChangeKind::Insert => None,
            _ => Some(ViewSpanModel { text: s.text, kind: ViewSpanKind::Equal }),
        }
    }
}

/// The pieces that the first `n` spans give.
pub open spec fn word_parts(
    spans: Seq<SpanView>,
    f: LineFlags,
    direction: StepDirection,
    frame: AnimationFrame,
    has_old: bool,
    has_new: bool,
    n: int,
) -> Seq<ViewSpanModel>
    decreases n,
{
    if n <= 0 {
        Seq::empty()
    } else {
        let prev = word_parts(spans, f, direction, frame, has_old, has_new, n - 1);
        match word_part(spans[n - 1], f, direction, frame, has_old, has_new) {
            Some(p) => prev.push(p),
            None => prev,
        }
    }
}

/// The texts of pieces, laid end to end.
pub open spec fn parts_text(parts: Seq<ViewSpanModel>) -> Seq<char>
    decreases parts.len(),
{
    if parts.len() == 0 {
        Seq::empty()
    } else {
        parts_text(parts.drop_last()) + parts.last().text
    }
}

/// The word-level line of a change with several spans: `None` when the
/// change has no span or no span shows.
pub open spec fn word_line_spec(
    c: ChangeView,
    f: LineFlags,
    direction: StepDirection,
    frame: AnimationFrame,
    hunk_index: Option<usize>,
) -> Option<ViewLineModel> {
    let parts = word_parts(
        c.spans,
        f,
        direction,
        frame,
        change_has_old(c.spans),
        change_has_new(c.spans),
        c.spans.len() as int,
    );
    if c.spans.len() == 0 || parts.len() == 0 {
        None
    } else {
        Some(
            ViewLineModel {
                content: parts_text(parts),
                spans: parts,
                kind: if f.is_active {
                    LineKind::PendingModify
                } else if f.is_applied {
                    LineKind::Modified
                } else {
                    LineKind::Context
                },
                old_line: c.spans[0].old_line,
                new_line: c.spans[0].new_line,
                is_active: f.is_active,
                is_active_change: f.is_active_change,
                is_primary_active: f.is_primary_active,
                show_hunk_extent: f.show_hunk_extent,
                change_id: c.id,
                hunk_index,
                has_changes: crate::change::spans_have_changes(c.spans),
            },
        )
    }
}

/// Whether any span of the change satisfies the kind test (old side when
/// `old_side`, new side otherwise).
pub(crate) fn scan_sides(change: &Change, old_side: bool) -> (b: bool)
    ensures
        old_side ==> b == change_has_old(change@.spans),
        !old_side ==> b == change_has_new(change@.spans),
{
    let mut i: usize = 0;
    while i < change.spans.len()
        invariant
            i <= change.spans@.len(),
            old_side ==> forall|j: int| 0 <= j < i ==> !span_has_old(#[trigger] change@.spans[j]),
            !old_side ==> forall|j: int| 0 <= j < i ==> !span_has_new(#[trigger] change@.spans[j]),
        decreases change.spans@.len() - i,
    {
        let k = change.spans[i].kind;
        let hit = if old_side {
            k == ChangeKind::Delete || k == ChangeKind::Replace
        } else {
            k == ChangeKind::Insert || k == ChangeKind::Replace
        };
        if hit {
            assert(old_side ==> span_has_old(change@.spans[i as int]));
            assert(!old_side ==> span_has_new(change@.spans[i as int]));
            return true;
        }
        i = i + 1;
    }
    false
}

/// Builds the word-level line of a change (see `word_line_spec`).
pub fn build_word_level_line(
    change: &Change,
    f: &LineFlags,
    direction: StepDirection,
    frame: AnimationFrame,
    hunk_index: Option<usize>,
) -> (r: Option<ViewLine>)
    ensures
        match r {
            Some(l) => word_line_spec(change@, *f, direction, frame, hunk_index) == Some(l@),
            None => word_line_spec(change@, *f, direction, frame, hunk_index) is None,
        },
{
    if change.spans.len() == 0 {
        return None;
    }
    let old_line = change.spans[0].old_line;
    let new_line = change.spans[0].new_line;
    let has_old = scan_sides(change, true);
    let has_new = scan_sides(change, false);
    let ghost cs = change@.spans;
    let mut view_spans: Vec<ViewSpan> = Vec::new();
    let mut content = String::new();
    let mut i: usize = 0;
    while i < change.spans.len()
        invariant
            cs == change@.spans,
            i <= cs.len(),
            has_old == change_has_old(cs),
            has_new == change_has_new(cs),
            view_span_models(view_spans@) == word_parts(cs, *f, direction, frame, has_old, has_new, i as int),
            content@ == parts_text(view_span_models(view_spans@)),
        decreases cs.len() - i,
    {
        let span = &change.spans[i];
        let show_new = match frame {
            AnimationFrame::Idle => compute_show_new(direction, f.is_applied, frame),
            _ => if has_old && has_new {
                compute_show_new(direction, f.is_applied, frame)
            } else {
                has_new
            },
        };
        let part: Option<(ViewSpanKind, String)> = if f.is_active {
            match span.kind {
                ChangeKind::Equal => Some((ViewSpanKind::Equal, span.text.clone())),
                ChangeKind::Delete => if show_new {
                    None
                } else {
                    Some((ViewSpanKind::PendingDelete, span.text.clone()))
                },
                ChangeKind::Insert => if show_new {
                    Some((ViewSpanKind::PendingInsert, span.text.clone()))
                } else {
                    None
                },
                ChangeKind::Replace => if show_new {
                    Some((ViewSpanKind::PendingInsert, new_text_or_text(span)))
                } else {
                    Some((ViewSpanKind::PendingDelete, span.text.clone()))
                },
            }
        } else if f.is_applied {
            match span.kind {
                ChangeKind::Equal => Some((ViewSpanKind::Equal, span.text.clone())),
                ChangeKind::Delete => None,
                ChangeKind::Insert => Some((ViewSpanKind::Inserted, span.text.clone())),
                ChangeKind::Replace => Some((ViewSpanKind::Inserted, new_text_or_text(span))),
            }
        } else {
            match span.kind {
                ChangeKind::Insert => None,
                _ => Some((ViewSpanKind::Equal, span.text.clone())),
            }
        };
        let ghost before = view_span_models(view_spans@);
        match part {
            Some((kind, text)) => {
                push_str(&mut content, text.as_str());
                view_spans.push(ViewSpan { text, kind });
                assert(view_span_models(view_spans@) =~= before.push(view_spans@.last()@));
                assert(view_span_models(view_spans@).drop_last() =~= before);
            },
            None => {},
        }
        i = i + 1;
    }
    if view_spans.len() == 0 {
        assert(view_span_models(view_spans@).len() == 0);
        return None;
    }
    let line_kind = if f.is_active {
        LineKind::PendingModify
    } else if f.is_applied {
        LineKind::Modified
    } else {
        LineKind::Context
    };
    let has_changes = change.has_changes();
    Some(
        ViewLine {
            content,
            spans: view_spans,
            kind: line_kind,
            old_line,
            new_line,
            is_active: f.is_active,
            is_active_change: f.is_active_change,
            is_primary_active: f.is_primary_active,
            show_hunk_extent: f.show_hunk_extent,
            change_id: change.id,
            hunk_index,
            has_changes,
        },
    )
}

} // verus!
