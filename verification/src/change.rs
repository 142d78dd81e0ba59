//! The unit of a diff: a change made of spans.

use vstd::prelude::*;

verus! {

/// What a span does to the text.
#[derive(Debug, Clone, Copy, PartialEq, Eq, Structural)]
pub enum ChangeKind {
    /// Unchanged text.
    Equal,
    /// Text present only in the new version.
    Insert,
    /// Text present only in the old version.
    Delete,
    /// Old text (`text`) replaced by new text (`new_text`).
    Replace,
}

/// A piece of a change, with the line numbers it belongs to.
#[derive(Debug, Clone)]
pub struct ChangeSpan {
    pub kind: ChangeKind,
    /// The (old) text of the span.
    pub text: String,
    /// The new text, for a `Replace` span.
    pub new_text: Option<String>,
    /// Line number in the old file (1-based), if the span is present there.
    pub old_line: Option<usize>,
    /// Line number in the new file (1-based), if the span is present there.
    pub new_line: Option<usize>,
}

/// A change: one line of the diff, made of one span or of several
/// word-level spans.
#[derive(Debug, Clone)]
pub struct Change {
    /// Identifier of the change, unique within a diff.
    pub id: usize,
    pub spans: Vec<ChangeSpan>,
}

/// A span as plain values.
pub struct SpanView {
    pub kind: ChangeKind,
    pub text: Seq<char>,
    pub new_text: Option<Seq<char>>,
    pub old_line: Option<usize>,
    pub new_line: Option<usize>,
}

/// A change as plain values.
pub struct ChangeView {
    pub id: usize,
    pub spans: Seq<SpanView>,
}

/// The view of an optional string.
pub open spec fn opt_text(t: Option<String>) -> Option<Seq<char>> {
    match t {
        Some(s) => Some(s@),
        None => None,
    }
}

impl View for ChangeSpan {
    type V = SpanView;

    open spec fn view(&self) -> SpanView {
        SpanView {
            kind: self.kind,
            text: self.text@,
            new_text: opt_text(self.new_text),
            old_line: self.old_line,
            new_line: self.new_line,
        }
    }
}

/// The views of a sequence of spans.
pub open spec fn span_views(spans: Seq<ChangeSpan>) -> Seq<SpanView> {
    spans.map_values(|s: ChangeSpan| s@)
}

impl View for Change {
    type V = ChangeView;

    open spec fn view(&self) -> ChangeView {
        ChangeView { id: self.id, spans: span_views(self.spans@) }
    }
}

/// The views of a sequence of changes.
pub open spec fn change_views(changes: Seq<Change>) -> Seq<ChangeView> {
    changes.map_values(|c: Change| c@)
}

/// A span that changes something.
pub open spec fn span_is_change(s: SpanView) -> bool {
    s.kind != ChangeKind::Equal
}

/// Whether any span of the sequence changes something.
pub open spec fn spans_have_changes(spans: Seq<SpanView>) -> bool {
    exists|i: int| 0 <= i < spans.len() && span_is_change(#[trigger] spans[i])
}

impl ChangeSpan {
    /// An unchanged span without line numbers.
    pub fn equal(text: String) -> (s: ChangeSpan)
        ensures
            s@ == (SpanView {
                kind: ChangeKind::Equal,
                text: text@,
                new_text: None,
                old_line: None,
                new_line: None,
            }),
    {
        ChangeSpan { kind: ChangeKind::Equal, text, new_text: None, old_line: None, new_line: None }
    }

    /// An inserted span without line numbers.
    pub fn insert(text: String) -> (s: ChangeSpan)
        ensures
            s@ == (SpanView {
                kind: ChangeKind::Insert,
                text: text@,
                new_text: None,
                old_line: None,
                new_line: None,
            }),
    {
        ChangeSpan { kind: ChangeKind::Insert, text, new_text: None, old_line: None, new_line: None }
    }

    /// A deleted span without line numbers.
    pub fn delete(text: String) -> (s: ChangeSpan)
        ensures
            s@ == (SpanView {
                kind: ChangeKind::Delete,
                text: text@,
                new_text: None,
                old_line: None,
                new_line: None,
            }),
    {
        ChangeSpan { kind: ChangeKind::Delete, text, new_text: None, old_line: None, new_line: None }
    }

    /// A span replacing `old` by `new`, without line numbers.
    pub fn replace(old: String, new: String) -> (s: ChangeSpan)
        ensures
            s@ == (SpanView {
                kind: ChangeKind::Replace,
                text: old@,
                new_text: Some(new@),
                old_line: None,
                new_line: None,
            }),
    {
        ChangeSpan {
            kind: ChangeKind::Replace,
            text: old,
            new_text: Some(new),
            old_line: None,
            new_line: None,
        }
    }

    /// The same span with the given line numbers.
    pub fn with_lines(self, old_line: Option<usize>, new_line: Option<usize>) -> (s: ChangeSpan)
        ensures
            s@ == (SpanView { old_line, new_line, ..self@ }),
    {
        ChangeSpan { old_line, new_line, ..self }
    }
}

impl Change {
    /// A change made of the given spans.
    pub fn new(id: usize, spans: Vec<ChangeSpan>) -> (c: Change)
        ensures
            c@ == (ChangeView { id, spans: span_views(spans@) }),
    {
        Change { id, spans }
    }

    /// A change made of one span.
    pub fn single(id: usize, span: ChangeSpan) -> (c: Change)
        ensures
            c@ == (ChangeView { id, spans: seq![span@] }),
    {
        let c = Change { id, spans: vec![span] };
        assert(c@.spans =~= seq![span@]);
        c
    }

    /// Whether the change holds any span that is not `Equal`.
    pub fn has_changes(&self) -> (b: bool)
        ensures
            b == spans_have_changes(self@.spans),
    {
        let mut i: usize = 0;
        while i < self.spans.len()
            invariant
                i <= self.spans.len(),
                forall|j: int| 0 <= j < i ==> !span_is_change(#[trigger] self@.spans[j]),
            decreases self.spans.len() - i,
        {
            if self.spans[i].kind != ChangeKind::Equal {
                assert(span_is_change(self@.spans[i as int]));
                return true;
            }
            i += 1;
        }
        false
    }
}

} // verus!
