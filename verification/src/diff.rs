//! Diff computation: line diffs with word-level spans, context trimming and
//! grouping of changes into hunks.

use crate::change::{change_views, span_views, Change, ChangeKind, ChangeSpan, ChangeView, SpanView};
use crate::foreign::{
    gap_end_old, gap_pairs, gap_start_new, gap_start_old, gaps_match, histogram_line_hunks, histogram_token_hunks,
    hunks_in_order, lemma_line_end_bounds, line_diff_hunks, line_end, lines_from, str_lines, text_lines,
    token_diff_hunks, unchanged_pair_up,
};
use crate::tokens::{lemma_tokenize_partitions, tokenize_code, tokenize_spec};
use vstd::prelude::*;

verus! {

/// Why a diff could not be made.
#[derive(Debug)]
pub enum DiffError {
    /// A file could not be read; the message says why.
    FileRead(String),
    /// The diff could not be computed; the message says why.
    ComputeFailed(String),
}

/// A hunk: a group of related changes that are close together.
#[derive(Debug, Clone)]
pub struct Hunk {
    /// Index of the hunk among the hunks of its diff.
    pub id: usize,
    /// Ids of the changes in this hunk, in order.
    pub change_ids: Vec<usize>,
    /// First line in the old file.
    pub old_start: Option<usize>,
    /// First line in the new file.
    pub new_start: Option<usize>,
    /// Number of inserted spans in this hunk.
    pub insertions: usize,
    /// Number of deleted spans in this hunk.
    pub deletions: usize,
}

/// A hunk as plain values.
pub struct HunkView {
    pub id: usize,
    pub change_ids: Seq<usize>,
    pub old_start: Option<usize>,
    pub new_start: Option<usize>,
    pub insertions: usize,
    pub deletions: usize,
}

impl View for Hunk {
    type V = HunkView;

    open spec fn view(&self) -> HunkView {
        HunkView {
            id: self.id,
            change_ids: self.change_ids@,
            old_start: self.old_start,
            new_start: self.new_start,
            insertions: self.insertions,
            deletions: self.deletions,
        }
    }
}

/// The views of a sequence of hunks.
pub open spec fn hunk_views(hunks: Seq<Hunk>) -> Seq<HunkView> {
    hunks.map_values(|h: Hunk| h@)
}

impl Hunk {
    /// Number of changes in this hunk.
    pub fn len(&self) -> (n: usize)
        ensures
            n == self.change_ids@.len(),
    {
        self.change_ids.len()
    }

    /// Whether the hunk holds no change.
    pub fn is_empty(&self) -> (b: bool)
        ensures
            b == (self.change_ids@.len() == 0),
    {
        self.change_ids.len() == 0
    }
}

// ---------------------------------------------------------------------
// Word-level spans of a modified line
// ---------------------------------------------------------------------

/// Token `i`, or the empty token outside the sequence.
pub open spec fn tok_at(t: Seq<Seq<char>>, i: int) -> Seq<char> {
    if 0 <= i < t.len() {
        t[i]
    } else {
        Seq::empty()
    }
}

/// A span of one token on a modified line.
pub open spec fn token_span(kind: ChangeKind, text: Seq<char>, ol: usize, nl: usize) -> SpanView {
    SpanView { kind, text, new_text: None, old_line: Some(ol), new_line: Some(nl) }
}

/// Spans of the given kind for tokens `from..to`.
pub open spec fn token_run(kind: ChangeKind, t: Seq<Seq<char>>, from: int, to: int, ol: usize, nl: usize) -> Seq<SpanView> {
    Seq::new(
        if to > from { (to - from) as nat } else { 0 },
        |i: int| token_span(kind, tok_at(t, from + i), ol, nl),
    )
}

/// The word spans for the first `k` hunks, and the old token index reached.
pub open spec fn word_spans_upto(
    o: Seq<Seq<char>>,
    n: Seq<Seq<char>>,
    h: Seq<(usize, usize, usize, usize)>,
    ol: usize,
    nl: usize,
    k: int,
) -> (Seq<SpanView>, int)
    decreases k,
{
    if k <= 0 {
        (Seq::empty(), 0)
    } else {
        let (sp, oi) = word_spans_upto(o, n, h, ol, nl, k - 1);
        let hk = h[k - 1];
        (
            sp + token_run(ChangeKind::Equal, o, oi, hk.0 as int, ol, nl) + token_run(
                ChangeKind::Delete,
                o,
                hk.0 as int,
                hk.1 as int,
                ol,
                nl,
            ) + token_run(ChangeKind::Insert, n, hk.2 as int, hk.3 as int, ol, nl),
            hk.1 as int,
        )
    }
}

/// The word spans given token sequences and the hunks between them:
/// unchanged tokens, then for each hunk its deleted and inserted tokens.
pub open spec fn word_spans(
    o: Seq<Seq<char>>,
    n: Seq<Seq<char>>,
    h: Seq<(usize, usize, usize, usize)>,
    ol: usize,
    nl: usize,
) -> Seq<SpanView> {
    let (sp, oi) = word_spans_upto(o, n, h, ol, nl, h.len() as int);
    sp + token_run(ChangeKind::Equal, o, oi, o.len() as int, ol, nl)
}

/// The word-level spans of a line `o` changed into `n`.
pub open spec fn word_diff_spec(o: Seq<char>, n: Seq<char>, ol: usize, nl: usize) -> Seq<SpanView> {
    let ot = tokenize_spec(o);
    let nt = tokenize_spec(n);
    word_spans(ot, nt, token_diff_hunks(ot, nt), ol, nl)
}

/// Token `i` of the tokens, or the empty string outside them.
fn token_or_empty(t: &Vec<String>, i: usize) -> (r: String)
    ensures
        r@ == tok_at(t.deep_view(), i as int),
{
    if i < t.len() {
        t[i].clone()
    } else {
        String::new()
    }
}

proof fn lemma_token_run_push(kind: ChangeKind, t: Seq<Seq<char>>, from: int, to: int, ol: usize, nl: usize)
    requires
        from <= to,
    ensures
        token_run(kind, t, from, to + 1, ol, nl) =~= token_run(kind, t, from, to, ol, nl).push(
            token_span(kind, tok_at(t, to), ol, nl),
        ),
{
}

/// Pushes the spans of one kind for tokens `from..to` (empty when
/// `to <= from`).
fn push_token_run(
    spans: &mut Vec<ChangeSpan>,
    kind: ChangeKind,
    t: &Vec<String>,
    from: usize,
    to: usize,
    ol: usize,
    nl: usize,
)
    ensures
        span_views(final(spans)@) == span_views(old(spans)@) + token_run(
            kind,
            t.deep_view(),
            from as int,
            to as int,
            ol,
            nl,
        ),
        final(spans)@.len() == old(spans)@.len() + (if to > from { to - from } else { 0 }),
{
    let ghost start = span_views(spans@);
    let mut idx = from;
    if from < to {
        assert(token_run(kind, t.deep_view(), from as int, from as int, ol, nl) =~= Seq::empty());
        assert(span_views(spans@) =~= start + Seq::empty());
        while idx < to
            invariant
                from <= idx <= to,
                span_views(spans@) == start + token_run(kind, t.deep_view(), from as int, idx as int, ol, nl),
            decreases to - idx,
        {
            let text = token_or_empty(t, idx);
            let span = ChangeSpan { kind, text, new_text: None, old_line: Some(ol), new_line: Some(nl) };
            proof {
                lemma_token_run_push(kind, t.deep_view(), from as int, idx as int, ol, nl);
            }
            let ghost prev = spans@;
            spans.push(span);
            assert(spans@ == prev.push(span));
            assert(span_views(spans@) =~= span_views(prev).push(span@));
            assert(span_views(spans@) =~= start + token_run(kind, t.deep_view(), from as int, idx + 1, ol, nl));
            idx = idx + 1;
        }
    } else {
        assert(token_run(kind, t.deep_view(), from as int, to as int, ol, nl) =~= Seq::empty());
        assert(span_views(spans@) =~= start + Seq::empty());
    }
}

/// Computes the word-level spans of a line `old` changed into `new`, both on
/// the given line numbers. There are no more spans than characters in the
/// two lines together.
#[verifier::spinoff_prover]
#[verifier::rlimit(40)]
pub fn compute_word_diff(old: &str, new: &str, old_line: usize, new_line: usize) -> (spans: Vec<ChangeSpan>)
    requires
        old@.len() < 0x7fff_0000,
        new@.len() < 0x7fff_0000,
    ensures
        span_views(spans@) == word_diff_spec(old@, new@, old_line, new_line),
        spans@.len() <= old@.len() + new@.len(),
        tokens_align(old@, new@),
{
    let old_tokens = tokenize_code(old);
    let new_tokens = tokenize_code(new);
    proof {
        lemma_tokenize_partitions(old@);
        lemma_tokenize_partitions(new@);
    }
    let ranges = histogram_token_hunks(&old_tokens, &new_tokens);
    let ghost o = old_tokens.deep_view();
    let ghost n = new_tokens.deep_view();
    let ghost h = ranges@;
    let mut spans: Vec<ChangeSpan> = Vec::new();
    let mut old_idx: usize = 0;
    let mut k: usize = 0;
    assert(span_views(spans@) =~= Seq::empty());
    while k < ranges.len()
        invariant
            o == old_tokens.deep_view(),
            n == new_tokens.deep_view(),
            h == ranges@,
            h == token_diff_hunks(o, n),
            hunks_in_order(h, o.len(), n.len()),
            k <= h.len(),
            word_spans_upto(o, n, h, old_line, new_line, k as int) == (span_views(spans@), old_idx as int),
            old_idx <= o.len(),
            k > 0 ==> old_idx == h[k - 1].1,
            spans@.len() <= old_idx + (if k > 0 { h[k - 1].3 as int } else { 0 }),
        decreases h.len() - k,
    {
        let (b0, b1, a0, a1) = ranges[k];
        assert(h[k as int] == (b0, b1, a0, a1));
        assert(b0 <= b1 <= o.len() && a0 <= a1 <= n.len());
        if k > 0 {
            assert(b0 >= h[k - 1].1 && a0 >= h[k - 1].3);
        }
        push_token_run(&mut spans, ChangeKind::Equal, &old_tokens, old_idx, b0, old_line, new_line);
        push_token_run(&mut spans, ChangeKind::Delete, &old_tokens, b0, b1, old_line, new_line);
        push_token_run(&mut spans, ChangeKind::Insert, &new_tokens, a0, a1, old_line, new_line);
        old_idx = b1;
        k = k + 1;
    }
    let n_old = old_tokens.len();
    push_token_run(&mut spans, ChangeKind::Equal, &old_tokens, old_idx, n_old, old_line, new_line);
    spans
}

} // verus!

verus! {

// ---------------------------------------------------------------------
// The line scan: from the hunks of a line diff to changes
// ---------------------------------------------------------------------

/// Line `i`, or the empty line outside the sequence.
pub open spec fn line_at(lines: Seq<Seq<char>>, i: int) -> Seq<char> {
    if 0 <= i < lines.len() {
        lines[i]
    } else {
        Seq::empty()
    }
}

/// The state of the line scan.
pub struct ScanState {
    /// Changes emitted so far.
    pub changes: Seq<ChangeView>,
    /// Ids of the emitted changes that are not context.
    pub sig: Seq<usize>,
    /// Id of the next change.
    pub next_id: int,
    pub insertions: int,
    pub deletions: int,
    /// Next old line to read.
    pub old_idx: int,
    /// Number of the next old and new line (1-based).
    pub old_ln: int,
    pub new_ln: int,
    /// Deleted and inserted lines waiting to be emitted, with their numbers.
    pub pend_del: Seq<(Seq<char>, usize)>,
    pub pend_ins: Seq<(Seq<char>, usize)>,
}

/// The state before the scan.
pub open spec fn scan_init() -> ScanState {
    ScanState {
        changes: Seq::empty(),
        sig: Seq::empty(),
        next_id: 0,
        insertions: 0,
        deletions: 0,
        old_idx: 0,
        old_ln: 1,
        new_ln: 1,
        pend_del: Seq::empty(),
        pend_ins: Seq::empty(),
    }
}

/// A change made of one span of the given kind and lines.
pub open spec fn single_change(id: int, kind: ChangeKind, text: Seq<char>, ol: Option<usize>, nl: Option<usize>) -> ChangeView {
    ChangeView {
        id: id as usize,
        spans: seq![SpanView { kind, text, new_text: None, old_line: ol, new_line: nl }],
    }
}

/// Ids `start, start + 1, ..` for `n` changes.
pub open spec fn id_run(start: int, n: int) -> Seq<usize> {
    Seq::new(if n > 0 { n as nat } else { 0 }, |i: int| (start + i) as usize)
}

/// Emits the waiting lines: pairs of a deleted and an inserted line become
/// word-level changes when word-level diffing is on and there are as many
/// deletions as insertions; otherwise the deletions, then the insertions,
/// become one change each.
pub open spec fn flush_spec(st: ScanState, word_level: bool) -> ScanState {
    let nd = st.pend_del.len() as int;
    let ni = st.pend_ins.len() as int;
    if nd == 0 && ni == 0 {
        st
    } else if word_level && nd == ni {
        ScanState {
            changes: st.changes + Seq::new(
                nd as nat,
                |i: int|
                    ChangeView {
                        id: (st.next_id + i) as usize,
                        spans: word_diff_spec(
                            st.pend_del[i].0,
                            st.pend_ins[i].0,
                            st.pend_del[i].1,
                            st.pend_ins[i].1,
                        ),
                    },
            ),
            sig: st.sig + id_run(st.next_id, nd),
            next_id: st.next_id + nd,
            insertions: st.insertions + nd,
            deletions: st.deletions + nd,
            pend_del: Seq::empty(),
            pend_ins: Seq::empty(),
            ..st
        }
    } else {
        ScanState {
            changes: st.changes + Seq::new(
                nd as nat,
                |i: int|
                    single_change(
                        st.next_id + i,
                        ChangeKind::Delete,
                        st.pend_del[i].0,
                        Some(st.pend_del[i].1),
                        None,
                    ),
            ) + Seq::new(
                ni as nat,
                |j: int|
                    single_change(
                        st.next_id + nd + j,
                        ChangeKind::Insert,
                        st.pend_ins[j].0,
                        None,
                        Some(st.pend_ins[j].1),
                    ),
            ),
            sig: st.sig + id_run(st.next_id, nd + ni),
            next_id: st.next_id + nd + ni,
            insertions: st.insertions + ni,
            deletions: st.deletions + nd,
            pend_del: Seq::empty(),
            pend_ins: Seq::empty(),
            ..st
        }
    }
}

/// Emits the old lines from the scan position up to `to` as unchanged
/// lines, numbered on both sides.
pub open spec fn equal_lines_spec(st: ScanState, ol: Seq<Seq<char>>, to: int) -> ScanState {
    let cnt = if to > st.old_idx { to - st.old_idx } else { 0 };
    ScanState {
        changes: st.changes + Seq::new(
            cnt as nat,
            |i: int|
                single_change(
                    st.next_id + i,
                    ChangeKind::Equal,
                    line_at(ol, st.old_idx + i),
                    Some((st.old_ln + i) as usize),
                    Some((st.new_ln + i) as usize),
                ),
        ),
        next_id: st.next_id + cnt,
        old_idx: st.old_idx + cnt,
        old_ln: st.old_ln + cnt,
        new_ln: st.new_ln + cnt,
        ..st
    }
}

/// The scan's step on one hunk `(before.start, before.end, after.start,
/// after.end)`: the unchanged lines before it are emitted (after the
/// waiting lines), and its deleted and inserted lines join the waiting
/// lines.
pub open spec fn range_step(st: ScanState, h: (usize, usize, usize, usize), ol: Seq<Seq<char>>, nl: Seq<Seq<char>>, word_level: bool) -> ScanState {
    let st1 = if st.old_idx < h.0 {
        equal_lines_spec(flush_spec(st, word_level), ol, h.0 as int)
    } else {
        st
    };
    let nd = if h.1 > h.0 { h.1 - h.0 } else { 0 };
    let ni = if h.3 > h.2 { h.3 - h.2 } else { 0 };
    ScanState {
        pend_del: st1.pend_del + Seq::new(
            nd as nat,
            |i: int| (line_at(ol, h.0 + i), (st1.old_ln + i) as usize),
        ),
        old_ln: st1.old_ln + nd,
        pend_ins: st1.pend_ins + Seq::new(
            ni as nat,
            |j: int| (line_at(nl, h.2 + j), (st1.new_ln + j) as usize),
        ),
        new_ln: st1.new_ln + ni,
        old_idx: h.1 as int,
        ..st1
    }
}

/// The scan after the first `k` hunks.
pub open spec fn scan_upto(h: Seq<(usize, usize, usize, usize)>, ol: Seq<Seq<char>>, nl: Seq<Seq<char>>, word_level: bool, k: int) -> ScanState
    decreases k,
{
    if k <= 0 {
        scan_init()
    } else {
        range_step(scan_upto(h, ol, nl, word_level, k - 1), h[k - 1], ol, nl, word_level)
    }
}

/// The finished scan: after the hunks, the remaining old lines are
/// unchanged lines, and the last waiting lines are emitted.
pub open spec fn scan_spec(h: Seq<(usize, usize, usize, usize)>, ol: Seq<Seq<char>>, nl: Seq<Seq<char>>, word_level: bool) -> ScanState {
    let st = scan_upto(h, ol, nl, word_level, h.len() as int);
    let st1 = if st.old_idx < ol.len() {
        equal_lines_spec(flush_spec(st, word_level), ol, ol.len() as int)
    } else {
        st
    };
    flush_spec(st1, word_level)
}

} // verus!

verus! {

/// Waiting lines as plain values.
pub open spec fn pend_view(v: Seq<(String, usize)>) -> Seq<(Seq<char>, usize)> {
    v.map_values(|p: (String, usize)| (p.0@, p.1))
}

/// The scan state made of the exec pieces.
pub open spec fn scan_of(
    changes: Seq<Change>,
    sig: Seq<usize>,
    id: usize,
    ins: usize,
    del: usize,
    old_idx: int,
    old_ln: int,
    new_ln: int,
    pd: Seq<(String, usize)>,
    pi: Seq<(String, usize)>,
) -> ScanState {
    ScanState {
        changes: change_views(changes),
        sig,
        next_id: id as int,
        insertions: ins as int,
        deletions: del as int,
        old_idx,
        old_ln,
        new_ln,
        pend_del: pend_view(pd),
        pend_ins: pend_view(pi),
    }
}

/// Every waiting line is short enough for a token diff.
pub open spec fn pending_short(v: Seq<(String, usize)>) -> bool {
    forall|i: int| 0 <= i < v.len() ==> (#[trigger] v[i]).0@.len() < 0x7fff_0000
}

/// The word-diff change of the `i`-th waiting pair.
spec fn word_change(st: ScanState, i: int) -> ChangeView {
    ChangeView {
        id: (st.next_id + i) as usize,
        spans: word_diff_spec(st.pend_del[i].0, st.pend_ins[i].0, st.pend_del[i].1, st.pend_ins[i].1),
    }
}

/// The engine's settings.
pub struct DiffEngine {
    /// Number of context lines kept around each change (`usize::MAX`: all).
    pub context_lines: usize,
    /// Whether a modified line is split into word-level spans.
    pub word_level: bool,
}

impl DiffEngine {
    /// Emits the waiting deleted and inserted lines as changes (see
    /// `flush_spec`), and empties the waiting lists.
    fn flush_pending_changes(
        &self,
        pending_deletes: &mut Vec<(String, usize)>,
        pending_inserts: &mut Vec<(String, usize)>,
        changes: &mut Vec<Change>,
        significant_changes: &mut Vec<usize>,
        change_id: &mut usize,
        insertions: &mut usize,
        deletions: &mut usize,
    )
        requires
            *old(change_id) + old(pending_deletes)@.len() + old(pending_inserts)@.len() <= usize::MAX,
            *old(insertions) + old(pending_deletes)@.len() + old(pending_inserts)@.len() <= usize::MAX,
            *old(deletions) + old(pending_deletes)@.len() + old(pending_inserts)@.len() <= usize::MAX,
            pending_short(old(pending_deletes)@),
            pending_short(old(pending_inserts)@),
        ensures
            scan_of(
                final(changes)@,
                final(significant_changes)@,
                *final(change_id),
                *final(insertions),
                *final(deletions),
                0,
                0,
                0,
                final(pending_deletes)@,
                final(pending_inserts)@,
            ) == flush_spec(
                scan_of(
                    old(changes)@,
                    old(significant_changes)@,
                    *old(change_id),
                    *old(insertions),
                    *old(deletions),
                    0,
                    0,
                    0,
                    old(pending_deletes)@,
                    old(pending_inserts)@,
                ),
                self.word_level,
            ),
            forall|i: int|
                old(changes)@.len() <= i < final(changes)@.len() ==> (#[trigger] final(changes)@[i])@.spans.len()
                    <= 0xffff_ffff,
            final(changes)@.len() >= old(changes)@.len(),
            forall|i: int| 0 <= i < old(changes)@.len() ==> final(changes)@[i] == old(changes)@[i],
            flush_aligned(
                scan_of(
                    old(changes)@,
                    old(significant_changes)@,
                    *old(change_id),
                    *old(insertions),
                    *old(deletions),
                    0,
                    0,
                    0,
                    old(pending_deletes)@,
                    old(pending_inserts)@,
                ),
                self.word_level,
            ),
    {
        let ghost st = scan_of(
            changes@,
            significant_changes@,
            *change_id,
            *insertions,
            *deletions,
            0,
            0,
            0,
            pending_deletes@,
            pending_inserts@,
        );
        let nd = pending_deletes.len();
        let ni = pending_inserts.len();
        if nd == 0 && ni == 0 {
            assert(pend_view(pending_deletes@) =~= Seq::empty());
            assert(pend_view(pending_inserts@) =~= Seq::empty());
            return;
        }
        if !(self.word_level && nd == ni) {
            assert(flush_aligned(st, self.word_level));
        }
        if self.word_level && nd == ni {
            let mut i: usize = 0;
            while i < nd
                invariant
                    nd == pending_deletes@.len(),
                    ni == pending_inserts@.len(),
                    nd == ni,
                    i <= nd,
                    pend_view(pending_deletes@) == st.pend_del,
                    pend_view(pending_inserts@) == st.pend_ins,
                    pending_short(pending_deletes@),
                    pending_short(pending_inserts@),
                    st.next_id + nd <= usize::MAX,
                    st.insertions + nd <= usize::MAX,
                    st.deletions + nd <= usize::MAX,
                    *change_id == st.next_id + i,
                    *insertions == st.insertions + i,
                    *deletions == st.deletions + i,
                    change_views(changes@) == st.changes + Seq::new(i as nat, |k: int| word_change(st, k)),
                    significant_changes@ == st.sig + id_run(st.next_id, i as int),
                    changes@.len() >= old(changes)@.len(),
                    forall|j: int| 0 <= j < old(changes)@.len() ==> changes@[j] == old(changes)@[j],
                    forall|j: int|
                        old(changes)@.len() <= j < changes@.len() ==> (#[trigger] changes@[j])@.spans.len() <= 0xffff_ffff,
                    forall|j: int| 0 <= j < i ==> #[trigger] tokens_align(st.pend_del[j].0, st.pend_ins[j].0),
                decreases nd - i,
            {
                let (old_text, old_line) = (&pending_deletes[i].0, pending_deletes[i].1);
                let (new_text, new_line) = (&pending_inserts[i].0, pending_inserts[i].1);
                assert(pending_deletes@[i as int].0@ == st.pend_del[i as int].0);
                assert(pending_inserts@[i as int].0@ == st.pend_ins[i as int].0);
                assert(pending_deletes@[i as int].0@.len() < 0x7fff_0000);
                assert(pending_inserts@[i as int].0@.len() < 0x7fff_0000);
                let spans = compute_word_diff(old_text.as_str(), new_text.as_str(), old_line, new_line);
                let change = Change::new(*change_id, spans);
                assert(change@ == word_change(st, i as int));
                assert(change@.spans.len() <= 0xffff_ffff);
                let ghost prev = changes@;
                changes.push(change);
                assert(change_views(changes@) =~= change_views(prev).push(change@));
                assert(change_views(changes@) =~= st.changes + Seq::new((i + 1) as nat, |k: int| word_change(st, k)));
                significant_changes.push(*change_id);
                assert(significant_changes@ =~= st.sig + id_run(st.next_id, i + 1));
                *change_id = *change_id + 1;
                *insertions = *insertions + 1;
                *deletions = *deletions + 1;
                i = i + 1;
            }
        } else {
            let mut i: usize = 0;
            while i < nd
                invariant
                    nd == pending_deletes@.len(),
                    ni == pending_inserts@.len(),
                    i <= nd,
                    pend_view(pending_deletes@) == st.pend_del,
                    pend_view(pending_inserts@) == st.pend_ins,
                    st.next_id + nd + ni <= usize::MAX,
                    changes@.len() >= old(changes)@.len(),
                    forall|j: int| 0 <= j < old(changes)@.len() ==> changes@[j] == old(changes)@[j],
                    forall|j: int|
                        old(changes)@.len() <= j < changes@.len() ==> (#[trigger] changes@[j])@.spans.len() <= 0xffff_ffff,
                    st.deletions + nd <= usize::MAX,
                    *change_id == st.next_id + i,
                    *insertions == st.insertions,
                    *deletions == st.deletions + i,
                    change_views(changes@) == st.changes + Seq::new(
                        i as nat,
                        |k: int| single_change(st.next_id + k, ChangeKind::Delete, st.pend_del[k].0, Some(st.pend_del[k].1), None),
                    ),
                    significant_changes@ == st.sig + id_run(st.next_id, i as int),
                decreases nd - i,
            {
                let text = pending_deletes[i].0.clone();
                let line = pending_deletes[i].1;
                assert(text@ == st.pend_del[i as int].0);
                let span = ChangeSpan::delete(text).with_lines(Some(line), None);
                let change = Change::single(*change_id, span);
                let ghost prev = changes@;
                changes.push(change);
                assert(change_views(changes@) =~= change_views(prev).push(change@));
                assert(change_views(changes@) =~= st.changes + Seq::new(
                    (i + 1) as nat,
                    |k: int| single_change(st.next_id + k, ChangeKind::Delete, st.pend_del[k].0, Some(st.pend_del[k].1), None),
                ));
                significant_changes.push(*change_id);
                assert(significant_changes@ =~= st.sig + id_run(st.next_id, i + 1));
                *change_id = *change_id + 1;
                *deletions = *deletions + 1;
                i = i + 1;
            }
            let ghost mid = change_views(changes@);
            let mut j: usize = 0;
            while j < ni
                invariant
                    nd == pending_deletes@.len(),
                    ni == pending_inserts@.len(),
                    j <= ni,
                    pend_view(pending_inserts@) == st.pend_ins,
                    st.next_id + nd + ni <= usize::MAX,
                    changes@.len() >= old(changes)@.len(),
                    forall|j: int| 0 <= j < old(changes)@.len() ==> changes@[j] == old(changes)@[j],
                    forall|j: int|
                        old(changes)@.len() <= j < changes@.len() ==> (#[trigger] changes@[j])@.spans.len() <= 0xffff_ffff,
                    st.insertions + ni <= usize::MAX,
                    *change_id == st.next_id + nd + j,
                    *insertions == st.insertions + j,
                    *deletions == st.deletions + nd,
                    change_views(changes@) == mid + Seq::new(
                        j as nat,
                        |k: int| single_change(st.next_id + nd + k, ChangeKind::Insert, st.pend_ins[k].0, None, Some(st.pend_ins[k].1)),
                    ),
                    significant_changes@ == st.sig + id_run(st.next_id, nd + j),
                decreases ni - j,
            {
                let text = pending_inserts[j].0.clone();
                let line = pending_inserts[j].1;
                assert(text@ == st.pend_ins[j as int].0);
                let span = ChangeSpan::insert(text).with_lines(None, Some(line));
                let change = Change::single(*change_id, span);
                let ghost prev = changes@;
                changes.push(change);
                assert(change_views(changes@) =~= change_views(prev).push(change@));
                assert(change_views(changes@) =~= mid + Seq::new(
                    (j + 1) as nat,
                    |k: int| single_change(st.next_id + nd + k, ChangeKind::Insert, st.pend_ins[k].0, None, Some(st.pend_ins[k].1)),
                ));
                significant_changes.push(*change_id);
                assert(significant_changes@ =~= st.sig + id_run(st.next_id, nd + j + 1));
                *change_id = *change_id + 1;
                *insertions = *insertions + 1;
                j = j + 1;
            }
        }
        pending_deletes.clear();
        pending_inserts.clear();
        assert(pend_view(pending_deletes@) =~= Seq::empty());
        assert(pend_view(pending_inserts@) =~= Seq::empty());
        assert(change_views(changes@) =~= flush_spec(st, self.word_level).changes);
    }
}

} // verus!

verus! {

/// The views of string slices.
pub open spec fn str_views(v: Seq<&str>) -> Seq<Seq<char>> {
    v.map_values(|l: &str| l@)
}

/// A line of a text is no longer than the text.
pub proof fn lemma_lines_from_short(s: Seq<char>, i: int)
    ensures
        forall|k: int| 0 <= k < lines_from(s, i).len() ==> (#[trigger] lines_from(s, i)[k]).len() <= s.len(),
    decreases s.len() + 1 - i,
{
    if 0 <= i < s.len() {
        lemma_line_end_bounds(s, i);
        let j = line_end(s, i);
        lemma_lines_from_short(s, j + 1);
        let rest = lines_from(s, j + 1);
        let raw = s.subrange(i, j);
        let line = if j < s.len() && raw.len() > 0 && raw.last() == '\r' { raw.drop_last() } else { raw };
        assert(lines_from(s, i) == seq![line] + rest);
        assert forall|k: int| 0 <= k < lines_from(s, i).len() implies (#[trigger] lines_from(s, i)[k]).len() <= s.len() by {
            if k > 0 {
                assert(lines_from(s, i)[k] == rest[k - 1]);
            }
        }
    }
}

impl DiffEngine {
    /// Emits old lines `*old_idx..to` as unchanged lines (see
    /// `equal_lines_spec`).
    fn push_equal_lines(
        changes: &mut Vec<Change>,
        old_lines: &Vec<&str>,
        old_idx: &mut usize,
        to: usize,
        change_id: &mut usize,
        old_line_num: &mut usize,
        new_line_num: &mut usize,
    )
        requires
            *old(old_idx) <= to,
            *old(change_id) + (to - *old(old_idx)) <= usize::MAX,
            *old(old_line_num) + (to - *old(old_idx)) <= usize::MAX,
            *old(new_line_num) + (to - *old(old_idx)) <= usize::MAX,
        ensures
            ({
                let st = ScanState {
                    changes: change_views(old(changes)@),
                    sig: Seq::empty(),
                    next_id: *old(change_id) as int,
                    insertions: 0,
                    deletions: 0,
                    old_idx: *old(old_idx) as int,
                    old_ln: *old(old_line_num) as int,
                    new_ln: *old(new_line_num) as int,
                    pend_del: Seq::empty(),
                    pend_ins: Seq::empty(),
                };
                let r = equal_lines_spec(st, str_views(old_lines@), to as int);
                &&& change_views(final(changes)@) == r.changes
                &&& *final(change_id) == r.next_id
                &&& *final(old_idx) == r.old_idx
                &&& *final(old_line_num) == r.old_ln
                &&& *final(new_line_num) == r.new_ln
            }),
            final(changes)@.len() >= old(changes)@.len(),
            forall|i: int| 0 <= i < old(changes)@.len() ==> final(changes)@[i] == old(changes)@[i],
            forall|i: int|
                old(changes)@.len() <= i < final(changes)@.len() ==> (#[trigger] final(changes)@[i])@.spans.len() == 1,
    {
        let ghost start = change_views(changes@);
        let ghost id0 = *change_id as int;
        let ghost i0 = *old_idx as int;
        let ghost o0 = *old_line_num as int;
        let ghost n0 = *new_line_num as int;
        let ghost ol = str_views(old_lines@);
        assert(Seq::new(0, |i: int| single_change(id0 + i, ChangeKind::Equal, line_at(ol, i0 + i), Some((o0 + i) as usize), Some((n0 + i) as usize))) =~= Seq::<ChangeView>::empty());
        assert(change_views(changes@) =~= start + Seq::<ChangeView>::empty());
        while *old_idx < to
            invariant
                i0 <= *old_idx <= to,
                ol == str_views(old_lines@),
                id0 + (to - i0) <= usize::MAX,
                o0 + (to - i0) <= usize::MAX,
                n0 + (to - i0) <= usize::MAX,
                *change_id == id0 + (*old_idx - i0),
                *old_line_num == o0 + (*old_idx - i0),
                *new_line_num == n0 + (*old_idx - i0),
                change_views(changes@) == start + Seq::new(
                    (*old_idx - i0) as nat,
                    |i: int| single_change(id0 + i, ChangeKind::Equal, line_at(ol, i0 + i), Some((o0 + i) as usize), Some((n0 + i) as usize)),
                ),
                changes@.len() >= old(changes)@.len(),
                forall|i: int| 0 <= i < old(changes)@.len() ==> changes@[i] == old(changes)@[i],
                forall|i: int|
                    old(changes)@.len() <= i < changes@.len() ==> (#[trigger] changes@[i])@.spans.len() == 1,
            decreases to - *old_idx,
        {
            let line: &str = if *old_idx < old_lines.len() { old_lines[*old_idx] } else { "" };
            proof {
                if *old_idx >= old_lines@.len() {
                    reveal_strlit("");
                }
            }
            assert(line@ == line_at(ol, *old_idx as int));
            let span = ChangeSpan::equal(line.to_owned()).with_lines(Some(*old_line_num), Some(*new_line_num));
            let change = Change::single(*change_id, span);
            let ghost prev = changes@;
            changes.push(change);
            assert(change_views(changes@) =~= change_views(prev).push(change@));
            assert(change_views(changes@) =~= start + Seq::new(
                (*old_idx + 1 - i0) as nat,
                |i: int| single_change(id0 + i, ChangeKind::Equal, line_at(ol, i0 + i), Some((o0 + i) as usize), Some((n0 + i) as usize)),
            ));
            *change_id = *change_id + 1;
            *old_idx = *old_idx + 1;
            *old_line_num = *old_line_num + 1;
            *new_line_num = *new_line_num + 1;
        }
    }
}

} // verus!

verus! {

/// Structural facts of a scan state: change `i` has id `i`, the next id is
/// the number of changes, the significant ids rise and name emitted
/// changes.
pub open spec fn scan_wf(st: ScanState) -> bool {
    &&& st.next_id == st.changes.len()
    &&& forall|i: int| 0 <= i < st.changes.len() ==> (#[trigger] st.changes[i]).id == i
    &&& forall|i: int, j: int| 0 <= i < j < st.sig.len() ==> st.sig[i] < st.sig[j]
    &&& forall|i: int| 0 <= i < st.sig.len() ==> (#[trigger] st.sig[i]) < st.next_id
    &&& st.insertions <= st.next_id
    &&& st.deletions <= st.next_id
}

proof fn lemma_flush_wf(st: ScanState, wl: bool)
    requires
        scan_wf(st),
        st.next_id + st.pend_del.len() + st.pend_ins.len() <= usize::MAX,
    ensures
        scan_wf(flush_spec(st, wl)),
        flush_spec(st, wl).next_id <= st.next_id + st.pend_del.len() + st.pend_ins.len(),
        flush_spec(st, wl).old_idx == st.old_idx,
        flush_spec(st, wl).old_ln == st.old_ln,
        flush_spec(st, wl).new_ln == st.new_ln,
        flush_spec(st, wl).pend_del.len() == 0,
        flush_spec(st, wl).pend_ins.len() == 0,
{
    let f = flush_spec(st, wl);
    let nd = st.pend_del.len() as int;
    let ni = st.pend_ins.len() as int;
    if nd == 0 && ni == 0 {
    } else {
        let c0 = st.changes.len() as int;
        assert forall|i: int| 0 <= i < f.changes.len() implies (#[trigger] f.changes[i]).id == i by {
            if i >= c0 {
                if wl && nd == ni {
                    assert(f.changes[i].id == (st.next_id + (i - c0)) as usize);
                } else if i < c0 + nd {
                    assert(f.changes[i].id == (st.next_id + (i - c0)) as usize);
                } else {
                    assert(f.changes[i].id == (st.next_id + nd + (i - c0 - nd)) as usize);
                }
            } else {
                assert(f.changes[i] == st.changes[i]);
            }
        }
        let s0 = st.sig.len() as int;
        assert forall|i: int, j: int| 0 <= i < j < f.sig.len() implies f.sig[i] < f.sig[j] by {
            if i < s0 {
                assert(f.sig[i] == st.sig[i]);
                if j < s0 {
                    assert(f.sig[j] == st.sig[j]);
                } else {
                    assert(f.sig[j] == (st.next_id + (j - s0)) as usize);
                }
            } else {
                assert(f.sig[i] == (st.next_id + (i - s0)) as usize);
                assert(f.sig[j] == (st.next_id + (j - s0)) as usize);
            }
        }
        assert forall|i: int| 0 <= i < f.sig.len() implies (#[trigger] f.sig[i]) < f.next_id by {
            if i < s0 {
                assert(f.sig[i] == st.sig[i]);
            } else {
                assert(f.sig[i] == (st.next_id + (i - s0)) as usize);
            }
        }
    }
}

proof fn lemma_equal_wf(st: ScanState, ol: Seq<Seq<char>>, to: int)
    requires
        scan_wf(st),
        st.next_id + (to - st.old_idx) <= usize::MAX,
    ensures
        scan_wf(equal_lines_spec(st, ol, to)),
{
    let e = equal_lines_spec(st, ol, to);
    let c0 = st.changes.len() as int;
    assert forall|i: int| 0 <= i < e.changes.len() implies (#[trigger] e.changes[i]).id == i by {
        if i >= c0 {
            assert(e.changes[i].id == (st.next_id + (i - c0)) as usize);
        } else {
            assert(e.changes[i] == st.changes[i]);
        }
    }
}

/// The views of waiting lines built from text lines.
proof fn lemma_pend_push(v: Seq<(String, usize)>, p: (String, usize))
    ensures
        pend_view(v.push(p)) =~= pend_view(v).push((p.0@, p.1)),
{
}

impl DiffEngine {
    /// Adds lines `from..to` of `lines` to the waiting list, numbered from
    /// `*line_num` on.
    fn push_pending(
        pending: &mut Vec<(String, usize)>,
        lines: &Vec<&str>,
        from: usize,
        to: usize,
        line_num: &mut usize,
    )
        requires
            *old(line_num) + (if to > from { to - from } else { 0 }) <= usize::MAX,
        ensures
            pend_view(final(pending)@) == pend_view(old(pending)@) + Seq::new(
                (if to > from { to - from } else { 0 }) as nat,
                |i: int| (line_at(str_views(lines@), from + i), (*old(line_num) + i) as usize),
            ),
            *final(line_num) == *old(line_num) + (if to > from { to - from } else { 0 }),
            forall|i: int| 0 <= i < old(pending)@.len() ==> final(pending)@[i] == old(pending)@[i],
            final(pending)@.len() == old(pending)@.len() + (if to > from { to - from } else { 0 }),
    {
        let ghost start = pend_view(pending@);
        let ghost n0 = *line_num as int;
        let ghost ls = str_views(lines@);
        if from >= to {
            assert(pend_view(pending@) =~= start + Seq::new(0, |i: int| (line_at(ls, from + i), (n0 + i) as usize)));
            return;
        }
        let mut idx = from;
        assert(pend_view(pending@) =~= start + Seq::new(0, |i: int| (line_at(ls, from + i), (n0 + i) as usize)));
        while idx < to
            invariant
                from <= idx <= to,
                ls == str_views(lines@),
                n0 + (to - from) <= usize::MAX,
                *line_num == n0 + (idx - from),
                pend_view(pending@) == start + Seq::new((idx - from) as nat, |i: int| (line_at(ls, from + i), (n0 + i) as usize)),
                forall|i: int| 0 <= i < old(pending)@.len() ==> pending@[i] == old(pending)@[i],
                pending@.len() == old(pending)@.len() + (idx - from),
            decreases to - idx,
        {
            let line: &str = if idx < lines.len() { lines[idx] } else { "" };
            proof {
                if idx >= lines@.len() {
                    reveal_strlit("");
                }
            }
            assert(line@ == line_at(ls, idx as int));
            let entry = (line.to_owned(), *line_num);
            let ghost prev = pending@;
            pending.push(entry);
            proof {
                lemma_pend_push(prev, entry);
            }
            assert(pend_view(pending@) =~= start + Seq::new((idx + 1 - from) as nat, |i: int| (line_at(ls, from + i), (n0 + i) as usize)));
            *line_num = *line_num + 1;
            idx = idx + 1;
        }
    }
}

} // verus!

verus! {

/// Every line is short enough for a token diff.
pub open spec fn lines_short(v: Seq<&str>) -> bool {
    forall|i: int| 0 <= i < v.len() ==> (#[trigger] v[i])@.len() < 0x7fff_0000
}

/// Facts that bound the counters of the scan after `k` hunks.
spec fn scan_bounds(st: ScanState, h: Seq<(usize, usize, usize, usize)>, k: int, n_old: int, n_new: int) -> bool {
    let last_a1 = if k > 0 { h[k - 1].3 as int } else { 0 };
    &&& 0 <= st.old_idx <= n_old
    &&& k > 0 ==> st.old_idx == h[k - 1].1
    &&& 0 <= last_a1 <= n_new
    &&& st.next_id + st.pend_del.len() + st.pend_ins.len() <= st.old_idx + last_a1
    &&& st.old_ln == st.old_idx + 1
    &&& 1 <= st.new_ln <= st.old_idx + last_a1 + 1
}

/// The mutable state of the line scan.
struct LineScan {
    changes: Vec<Change>,
    significant_changes: Vec<usize>,
    insertions: usize,
    deletions: usize,
    change_id: usize,
    old_line_num: usize,
    new_line_num: usize,
    pending_deletes: Vec<(String, usize)>,
    pending_inserts: Vec<(String, usize)>,
    old_idx: usize,
}

impl LineScan {
    spec fn model(&self) -> ScanState {
        scan_of(
            self.changes@,
            self.significant_changes@,
            self.change_id,
            self.insertions,
            self.deletions,
            self.old_idx as int,
            self.old_line_num as int,
            self.new_line_num as int,
            self.pending_deletes@,
            self.pending_inserts@,
        )
    }

    spec fn spans_bounded(&self) -> bool {
        forall|i: int| 0 <= i < self.changes@.len() ==> (#[trigger] self.changes@[i])@.spans.len() <= 0xffff_ffff
    }

    /// Emits the waiting lines (see `flush_spec`).
    fn flush(&mut self, engine: &DiffEngine)
        requires
            scan_wf(old(self).model()),
            old(self).model().next_id + old(self).model().pend_del.len() + old(self).model().pend_ins.len() <= 0xffff_0000,
            pending_short(old(self).pending_deletes@),
            pending_short(old(self).pending_inserts@),
            old(self).spans_bounded(),
        ensures
            final(self).model() == flush_spec(old(self).model(), engine.word_level),
            scan_wf(final(self).model()),
            final(self).spans_bounded(),
            final(self).pending_deletes@.len() == 0,
            final(self).pending_inserts@.len() == 0,
            flush_aligned(old(self).model(), engine.word_level),
    {
        proof {
            lemma_flush_wf(self.model(), engine.word_level);
        }
        let ghost st = self.model();
        engine.flush_pending_changes(
            &mut self.pending_deletes,
            &mut self.pending_inserts,
            &mut self.changes,
            &mut self.significant_changes,
            &mut self.change_id,
            &mut self.insertions,
            &mut self.deletions,
        );
        assert(pend_view(self.pending_deletes@) =~= Seq::empty());
        assert(pend_view(self.pending_inserts@) =~= Seq::empty());
        assert(self.pending_deletes@.len() == pend_view(self.pending_deletes@).len());
        assert(self.pending_inserts@.len() == pend_view(self.pending_inserts@).len());
        assert(self.model() == flush_spec(st, engine.word_level));
        assert(flush_aligned(st, engine.word_level));
    }

    /// Emits old lines up to `to` as unchanged lines.
    fn equal_to(&mut self, old_lines: &Vec<&str>, to: usize)
        requires
            scan_wf(old(self).model()),
            old(self).old_idx <= to,
            old(self).model().next_id + (to - old(self).old_idx) <= 0xffff_0000,
            old(self).old_line_num + (to - old(self).old_idx) <= 0xffff_0000,
            old(self).new_line_num + (to - old(self).old_idx) <= 0xffff_0000,
            old(self).spans_bounded(),
        ensures
            final(self).model() == equal_lines_spec(old(self).model(), str_views(old_lines@), to as int),
            scan_wf(final(self).model()),
            final(self).spans_bounded(),
            final(self).pending_deletes == old(self).pending_deletes,
            final(self).pending_inserts == old(self).pending_inserts,
    {
        proof {
            lemma_equal_wf(self.model(), str_views(old_lines@), to as int);
        }
        let ghost st = self.model();
        DiffEngine::push_equal_lines(
            &mut self.changes,
            old_lines,
            &mut self.old_idx,
            to,
            &mut self.change_id,
            &mut self.old_line_num,
            &mut self.new_line_num,
        );
        assert(self.model() == equal_lines_spec(st, str_views(old_lines@), to as int));
    }

    /// The scan's step on one hunk (see `range_step`).
    #[verifier::rlimit(50)]
    fn step(
        &mut self,
        engine: &DiffEngine,
        old_lines: &Vec<&str>,
        new_lines: &Vec<&str>,
        ranges: &Vec<(usize, usize, usize, usize)>,
        k: usize,
    )
        requires
            hunks_in_order(ranges@, old_lines@.len(), new_lines@.len()),
            old_lines@.len() + new_lines@.len() < 0xffff_0000,
            lines_short(old_lines@),
            lines_short(new_lines@),
            k < ranges@.len(),
            old(self).model() == scan_upto(ranges@, str_views(old_lines@), str_views(new_lines@), engine.word_level, k as int),
            scan_wf(old(self).model()),
            scan_bounds(old(self).model(), ranges@, k as int, old_lines@.len() as int, new_lines@.len() as int),
            pending_short(old(self).pending_deletes@),
            pending_short(old(self).pending_inserts@),
            old(self).spans_bounded(),
            scan_aligned_upto(ranges@, str_views(old_lines@), str_views(new_lines@), engine.word_level, k as int),
        ensures
            final(self).model() == scan_upto(ranges@, str_views(old_lines@), str_views(new_lines@), engine.word_level, k + 1),
            scan_aligned_upto(ranges@, str_views(old_lines@), str_views(new_lines@), engine.word_level, k + 1),
            scan_wf(final(self).model()),
            scan_bounds(final(self).model(), ranges@, k + 1, old_lines@.len() as int, new_lines@.len() as int),
            pending_short(final(self).pending_deletes@),
            pending_short(final(self).pending_inserts@),
            final(self).spans_bounded(),
    {
        let ghost ol = str_views(old_lines@);
        let ghost nl = str_views(new_lines@);
        let ghost h = ranges@;
        let ghost n_old = old_lines@.len() as int;
        let ghost n_new = new_lines@.len() as int;
        let ghost wl = engine.word_level;
        let (b0, b1, a0, a1) = ranges[k];
        let ghost st = self.model();
        assert(h[k as int] == (b0, b1, a0, a1));
        assert(b0 <= b1 <= n_old && a0 <= a1 <= n_new);
        if k > 0 {
            assert(b0 >= h[k - 1].1 && a0 >= h[k - 1].3);
        }
        let ghost st1 = if st.old_idx < b0 { equal_lines_spec(flush_spec(st, wl), ol, b0 as int) } else { st };
        if self.old_idx < b0 {
            self.flush(engine);
            proof {
                lemma_flush_wf(st, wl);
            }
            self.equal_to(old_lines, b0);
        }
        let ghost pd1 = self.pending_deletes@.len() as int;
        let ghost pi1 = self.pending_inserts@.len() as int;
        assert(self.model() == st1);
        DiffEngine::push_pending(&mut self.pending_deletes, old_lines, b0, b1, &mut self.old_line_num);
        DiffEngine::push_pending(&mut self.pending_inserts, new_lines, a0, a1, &mut self.new_line_num);
        self.old_idx = b1;
        proof {
            let st2 = scan_upto(h, ol, nl, wl, k + 1);
            assert(st2 == range_step(st, h[k as int], ol, nl, wl));
            assert forall|i: int| 0 <= i < self.pending_deletes@.len() implies (#[trigger] self.pending_deletes@[i]).0@.len() < 0x7fff_0000 by {
                if i >= pd1 {
                    assert(pend_view(self.pending_deletes@)[i].0 == line_at(ol, b0 + (i - pd1)));
                    assert(pend_view(self.pending_deletes@)[i].0 == self.pending_deletes@[i].0@);
                    let li = b0 + (i - pd1);
                    if 0 <= li < n_old {
                        assert(ol[li] == old_lines@[li]@);
                    }
                }
            }
            assert forall|i: int| 0 <= i < self.pending_inserts@.len() implies (#[trigger] self.pending_inserts@[i]).0@.len() < 0x7fff_0000 by {
                if i >= pi1 {
                    assert(pend_view(self.pending_inserts@)[i].0 == line_at(nl, a0 + (i - pi1)));
                    assert(pend_view(self.pending_inserts@)[i].0 == self.pending_inserts@[i].0@);
                    let li = a0 + (i - pi1);
                    if 0 <= li < n_new {
                        assert(nl[li] == new_lines@[li]@);
                    }
                }
            }
            assert(self.model() == st2);
            assert(scan_aligned_upto(h, ol, nl, wl, k + 1));
        }
    }
}

impl DiffEngine {
    /// Runs the line scan over the hunks of a line diff (see `scan_spec`).
    fn scan_lines(
        &self,
        old_lines: &Vec<&str>,
        new_lines: &Vec<&str>,
        ranges: &Vec<(usize, usize, usize, usize)>,
    ) -> (r: (Vec<Change>, Vec<usize>, usize, usize))
        requires
            hunks_in_order(ranges@, old_lines@.len(), new_lines@.len()),
            old_lines@.len() + new_lines@.len() < 0xffff_0000,
            lines_short(old_lines@),
            lines_short(new_lines@),
        ensures
            ({
                let st = scan_spec(ranges@, str_views(old_lines@), str_views(new_lines@), self.word_level);
                &&& change_views(r.0@) == st.changes
                &&& r.1@ == st.sig
                &&& r.2 == st.insertions
                &&& r.3 == st.deletions
                &&& scan_wf(st)
                &&& scan_aligned(ranges@, str_views(old_lines@), str_views(new_lines@), self.word_level)
            }),
            r.0@.len() <= old_lines@.len() + new_lines@.len(),
            forall|i: int| 0 <= i < r.0@.len() ==> (#[trigger] r.0@[i])@.spans.len() <= 0xffff_ffff,
    {
        let ghost ol = str_views(old_lines@);
        let ghost nl = str_views(new_lines@);
        let ghost h = ranges@;
        let ghost n_old = old_lines@.len() as int;
        let ghost n_new = new_lines@.len() as int;
        let ghost wl = self.word_level;
        let mut scan = LineScan {
            changes: Vec::new(),
            significant_changes: Vec::new(),
            insertions: 0,
            deletions: 0,
            change_id: 0,
            old_line_num: 1,
            new_line_num: 1,
            pending_deletes: Vec::new(),
            pending_inserts: Vec::new(),
            old_idx: 0,
        };
        assert(change_views(scan.changes@) =~= Seq::empty());
        assert(pend_view(scan.pending_deletes@) =~= Seq::empty());
        assert(pend_view(scan.pending_inserts@) =~= Seq::empty());
        assert(scan.model() == scan_init());
        let mut k: usize = 0;
        while k < ranges.len()
            invariant
                hunks_in_order(ranges@, old_lines@.len(), new_lines@.len()),
                old_lines@.len() + new_lines@.len() < 0xffff_0000,
                lines_short(old_lines@),
                lines_short(new_lines@),
                k <= ranges@.len(),
                scan.model() == scan_upto(ranges@, str_views(old_lines@), str_views(new_lines@), self.word_level, k as int),
                scan_wf(scan.model()),
                scan_bounds(scan.model(), ranges@, k as int, old_lines@.len() as int, new_lines@.len() as int),
                pending_short(scan.pending_deletes@),
                pending_short(scan.pending_inserts@),
                scan.spans_bounded(),
                scan_aligned_upto(ranges@, str_views(old_lines@), str_views(new_lines@), self.word_level, k as int),
            decreases ranges@.len() - k,
        {
            scan.step(self, old_lines, new_lines, ranges, k);
            k = k + 1;
        }
        let ghost st = scan.model();
        let ghost st1 = if st.old_idx < n_old { equal_lines_spec(flush_spec(st, wl), ol, n_old) } else { st };
        if scan.old_idx < old_lines.len() {
            scan.flush(self);
            proof {
                lemma_flush_wf(st, wl);
            }
            let n = old_lines.len();
            scan.equal_to(old_lines, n);
        }
        assert(scan.model() == st1);
        proof {
            lemma_flush_wf(st1, wl);
        }
        scan.flush(self);
        assert(scan_aligned(h, ol, nl, wl));
        (scan.changes, scan.significant_changes, scan.insertions, scan.deletions)
    }
}

} // verus!

verus! {

// ---------------------------------------------------------------------
// Context trimming
// ---------------------------------------------------------------------

/// Change index `i` lies within `ctx` lines of a significant change.
pub open spec fn in_context(i: int, sig: Seq<usize>, ctx: usize) -> bool {
    exists|k: int| 0 <= k < sig.len() && sig[k] - ctx <= i && i <= #[trigger] sig[k] + ctx
}

/// The changes kept around the significant ones (all of them when the
/// context is `usize::MAX`).
pub open spec fn context_keep(changes: Seq<ChangeView>, sig: Seq<usize>, ctx: usize) -> Seq<ChangeView> {
    if ctx == usize::MAX {
        changes
    } else {
        changes.filter(|c: ChangeView| in_context(c.id as int, sig, ctx))
    }
}

/// The significant ids among the kept changes, in order.
pub open spec fn context_sig(changes: Seq<ChangeView>, sig: Seq<usize>, ctx: usize) -> Seq<usize> {
    if ctx == usize::MAX {
        sig
    } else {
        context_keep(changes, sig, ctx).filter(|c: ChangeView| sig.contains(c.id)).map_values(|c: ChangeView| c.id)
    }
}

impl DiffEngine {
    /// Keeps the changes within `context_lines` of a significant change
    /// (see `context_keep` and `context_sig`).
    fn trim_context(&self, changes: Vec<Change>, significant_changes: Vec<usize>) -> (r: (Vec<Change>, Vec<usize>))
        requires
            forall|i: int| 0 <= i < changes@.len() ==> (#[trigger] changes@[i]).id == i,
            forall|k: int| 0 <= k < significant_changes@.len() ==> (#[trigger] significant_changes@[k]) < changes@.len(),
            forall|i: int, j: int|
                0 <= i < j < significant_changes@.len() ==> significant_changes@[i] < significant_changes@[j],
            self.context_lines == usize::MAX || changes@.len() + self.context_lines <= usize::MAX,
            forall|i: int| 0 <= i < changes@.len() ==> (#[trigger] changes@[i])@.spans.len() <= 0xffff_ffff,
        ensures
            change_views(r.0@) == context_keep(change_views(changes@), significant_changes@, self.context_lines),
            r.1@ == context_sig(change_views(changes@), significant_changes@, self.context_lines),
            forall|i: int| 0 <= i < r.0@.len() ==> (#[trigger] r.0@[i])@.spans.len() <= 0xffff_ffff,
            r.0@.len() <= changes@.len(),
            r.1@.len() <= changes@.len(),
    {
        let ctx = self.context_lines;
        if ctx == usize::MAX {
            proof {
                lemma_increasing_bounded(significant_changes@, changes@.len() as int);
            }
            return (changes, significant_changes);
        }
        let n = changes.len();
        let ghost cv = change_views(changes@);
        let ghost sig = significant_changes@;
        let mut id_to_idx = crate::foreign::fx_map_with_capacity(0);
        let mut i: usize = 0;
        while i < n
            invariant
                n == changes@.len(),
                i <= n,
                forall|j: int| 0 <= j < changes@.len() ==> (#[trigger] changes@[j]).id == j,
                forall|x: usize| #[trigger] id_to_idx@.contains_key(x) <==> x < i,
                forall|x: usize| x < i ==> #[trigger] id_to_idx@[x] == x,
            decreases n - i,
        {
            crate::foreign::fx_map_insert(&mut id_to_idx, changes[i].id, i);
            i = i + 1;
        }
        let mut in_window: Vec<bool> = Vec::new();
        let mut i: usize = 0;
        while i < n
            invariant
                i <= n,
                in_window@.len() == i,
                forall|j: int| 0 <= j < i ==> !(#[trigger] in_window@[j]),
            decreases n - i,
        {
            in_window.push(false);
            i = i + 1;
        }
        let mut k: usize = 0;
        while k < significant_changes.len()
            invariant
                n == changes@.len(),
                sig == significant_changes@,
                k <= sig.len(),
                in_window@.len() == n,
                n + ctx <= usize::MAX,
                forall|x: usize| #[trigger] id_to_idx@.contains_key(x) <==> x < n,
                forall|x: usize| x < n ==> #[trigger] id_to_idx@[x] == x,
                forall|q: int| 0 <= q < sig.len() ==> (#[trigger] sig[q]) < n,
                forall|j: int|
                    0 <= j < n ==> (#[trigger] in_window@[j] <==> exists|q: int|
                        0 <= q < k && sig[q] - ctx <= j && j <= #[trigger] sig[q] + ctx),
            decreases sig.len() - k,
        {
            let change_id = significant_changes[k];
            match crate::foreign::fx_map_get(&id_to_idx, change_id) {
                Some(idx) => {
                    let start = idx.saturating_sub(ctx);
                    let end = if idx + ctx < n - 1 { idx + ctx } else { n - 1 };
                    let mut slot = start;
                    let ghost before = in_window@;
                    while slot <= end
                        invariant
                            start <= slot <= end + 1,
                            end < n,
                            in_window@.len() == n,
                            forall|j: int|
                                0 <= j < n ==> (#[trigger] in_window@[j] <==> (before[j] || (start <= j < slot))),
                        decreases end + 1 - slot,
                    {
                        in_window.set(slot, true);
                        slot = slot + 1;
                    }
                    proof {
                        assert(idx == change_id);
                        assert forall|j: int| 0 <= j < n implies (#[trigger] in_window@[j] <==> exists|q: int|
                            0 <= q < k + 1 && sig[q] - ctx <= j && j <= #[trigger] sig[q] + ctx) by {
                            if start <= j <= end {
                                assert(sig[k as int] - ctx <= j && j <= sig[k as int] + ctx);
                            } else if sig[k as int] - ctx <= j && j <= sig[k as int] + ctx {
                                assert(false);
                            }
                        }
                    }
                },
                None => {
                    assert(false);
                },
            }
            k = k + 1;
        }
        let mut significant_set: rustc_hash::FxHashSet<usize> = rustc_hash::FxHashSet::default();
        let mut k: usize = 0;
        while k < significant_changes.len()
            invariant
                sig == significant_changes@,
                k <= sig.len(),
                forall|x: usize| #[trigger] significant_set@.contains(x) <==> exists|q: int| 0 <= q < k && sig[q] == x,
            decreases sig.len() - k,
        {
            crate::foreign::fx_set_insert(&mut significant_set, significant_changes[k]);
            proof {
                assert forall|x: usize| #[trigger] significant_set@.contains(x) <==> exists|q: int| 0 <= q < k + 1 && sig[q] == x by {
                    if x == sig[k as int] {
                        assert(sig[k as int] == x);
                    }
                }
            }
            k = k + 1;
        }
        let ghost keep = |c: ChangeView| in_context(c.id as int, sig, ctx);
        let ghost insig = |c: ChangeView| sig.contains(c.id);
        let mut filtered_changes: Vec<Change> = Vec::new();
        let mut filtered_significant: Vec<usize> = Vec::new();
        let ghost orig = changes@;
        let mut idx: usize = 0;
        assert(cv.take(0).filter(keep) =~= Seq::empty()) by {
            reveal_with_fuel(Seq::<_>::filter, 1);
        }
        assert(change_views(filtered_changes@) =~= Seq::empty());
        assert(cv.take(0).filter(keep).filter(insig).map_values(|c: ChangeView| c.id) =~= Seq::empty()) by {
            reveal_with_fuel(Seq::<_>::filter, 1);
        }
        for change in it: changes.into_iter()
            invariant
                it.seq() == orig,
                cv == change_views(orig),
                keep == (|c: ChangeView| in_context(c.id as int, sig, ctx)),
                insig == (|c: ChangeView| sig.contains(c.id)),
                n == orig.len(),
                in_window@.len() == n,
                forall|j: int| 0 <= j < n ==> (#[trigger] orig[j]).id == j,
                forall|j: int| 0 <= j < n ==> (#[trigger] in_window@[j] <==> in_context(j, sig, ctx)),
                forall|x: usize| #[trigger] significant_set@.contains(x) <==> sig.contains(x),
                change_views(filtered_changes@) == cv.take(it.index() as int).filter(keep),
                filtered_significant@ == cv.take(it.index() as int).filter(keep).filter(insig).map_values(|c: ChangeView| c.id),
                forall|i: int| 0 <= i < filtered_changes@.len() ==> (#[trigger] filtered_changes@[i])@.spans.len() <= 0xffff_ffff,
                forall|i: int| 0 <= i < orig.len() ==> (#[trigger] orig[i])@.spans.len() <= 0xffff_ffff,
                filtered_changes@.len() <= it.index(),
                filtered_significant@.len() <= filtered_changes@.len(),
                idx == it.index(),
        {
            let i = idx;
            let ghost c = change@;
            assert(orig[i as int] == change);
            assert(cv.take(i + 1).drop_last() =~= cv.take(i as int));
            assert(cv.take(i + 1).last() == c);
            assert(change.id == i);
            let ghost prev_f = cv.take(i as int).filter(keep);
            assert(cv.take(i + 1).filter(keep) == if keep(c) { prev_f.push(c) } else { prev_f }) by {
                reveal_with_fuel(Seq::<_>::filter, 1);
            }
            assert(c.id == i);
            assert(keep(c) == in_context(c.id as int, sig, ctx));
            assert(keep(c) == in_context(i as int, sig, ctx));
            let included = if i < in_window.len() { in_window[i] } else { false };
            if included {
                let in_sig = crate::foreign::fx_set_contains(&significant_set, change.id);
                assert(prev_f.push(c).filter(insig) == if insig(c) { prev_f.filter(insig).push(c) } else { prev_f.filter(insig) }) by {
                    reveal_with_fuel(Seq::<_>::filter, 1);
                    assert(prev_f.push(c).drop_last() =~= prev_f);
                }
                let ghost prev_s = prev_f.filter(insig);
                assert(insig(c) == in_sig);
                if in_sig {
                    assert(prev_s.push(c).map_values(|c: ChangeView| c.id) =~= prev_s.map_values(|c: ChangeView| c.id).push(c.id));
                    filtered_significant.push(change.id);
                    assert(filtered_significant@ =~= prev_f.push(c).filter(insig).map_values(|c: ChangeView| c.id));
                } else {
                    assert(filtered_significant@ =~= prev_f.push(c).filter(insig).map_values(|c: ChangeView| c.id));
                }
                let ghost prevc = filtered_changes@;
                filtered_changes.push(change);
                assert(change_views(filtered_changes@) =~= change_views(prevc).push(c));

            }
            idx = idx + 1;
        }
        assert(cv.take(n as int) =~= cv);
        (filtered_changes, filtered_significant)
    }
}

} // verus!

verus! {

// ---------------------------------------------------------------------
// Hunks
// ---------------------------------------------------------------------

/// Strictly rising values below `n` are no more than `n`.
pub proof fn lemma_increasing_bounded(s: Seq<usize>, n: int)
    requires
        forall|i: int, j: int| 0 <= i < j < s.len() ==> s[i] < s[j],
        forall|k: int| 0 <= k < s.len() ==> (#[trigger] s[k]) < n,
        n >= 0,
    ensures
        s.len() <= n,
    decreases s.len(),
{
    if s.len() > 0 {
        let t = s.drop_last();
        assert forall|k: int| 0 <= k < t.len() implies (#[trigger] t[k]) < s.last() by {
            assert(t[k] == s[k]);
        }
        lemma_increasing_bounded(t, s.last() as int);
        assert(s[s.len() - 1] < n);
    }
}

/// Changes closer than this many lines to the previous one join its hunk.
pub const PROXIMITY_THRESHOLD: usize = 3;

/// Map from a change id to the index of the last change with that id among
/// the first `n` changes.
pub open spec fn id_index_map(changes: Seq<ChangeView>, n: int) -> Map<usize, usize>
    decreases n,
{
    if n <= 0 {
        Map::empty()
    } else {
        id_index_map(changes, n - 1).insert(changes[n - 1].id, (n - 1) as usize)
    }
}

/// Number of spans that insert (Insert or Replace) among the first `n`.
pub open spec fn count_ins(spans: Seq<SpanView>, n: int) -> int
    decreases n,
{
    if n <= 0 {
        0
    } else {
        count_ins(spans, n - 1) + (if spans[n - 1].kind == ChangeKind::Insert || spans[n - 1].kind
            == ChangeKind::Replace {
            1int
        } else {
            0
        })
    }
}

/// Number of spans that delete (Delete or Replace) among the first `n`.
pub open spec fn count_del(spans: Seq<SpanView>, n: int) -> int
    decreases n,
{
    if n <= 0 {
        0
    } else {
        count_del(spans, n - 1) + (if spans[n - 1].kind == ChangeKind::Delete || spans[n - 1].kind
            == ChangeKind::Replace {
            1int
        } else {
            0
        })
    }
}

/// `a.saturating_sub(b)`.
pub open spec fn sat_sub(a: usize, b: usize) -> int {
    if a >= b {
        a - b
    } else {
        0
    }
}

/// The state of the hunk grouping.
pub struct HunkScan {
    pub hunks: Seq<HunkView>,
    pub cur: Seq<usize>,
    pub cos: Option<usize>,
    pub cns: Option<usize>,
    pub lol: Option<usize>,
    pub lnl: Option<usize>,
    pub ci: int,
    pub cd: int,
    pub hid: int,
}

/// The first span's line numbers.
pub open spec fn first_lines(spans: Seq<SpanView>) -> (Option<usize>, Option<usize>) {
    if spans.len() > 0 {
        (spans[0].old_line, spans[0].new_line)
    } else {
        (None, None)
    }
}

/// Whether a change on lines `(ol, nl)` joins the current hunk: it is
/// within the threshold of the last old line seen, or else of the last new
/// line seen; with neither to compare, only the very first change starts a
/// hunk that it belongs to.
pub open spec fn is_close(st: HunkScan, ol: Option<usize>, nl: Option<usize>) -> bool {
    if st.lol.is_some() && ol.is_some() {
        sat_sub(ol.unwrap(), st.lol.unwrap()) <= PROXIMITY_THRESHOLD
    } else if st.lnl.is_some() && nl.is_some() {
        sat_sub(nl.unwrap(), st.lnl.unwrap()) <= PROXIMITY_THRESHOLD
    } else {
        st.cur.len() == 0
    }
}

/// The hunk being built, closed.
pub open spec fn close_hunk(st: HunkScan) -> HunkView {
    HunkView {
        id: st.hid as usize,
        change_ids: st.cur,
        old_start: st.cos,
        new_start: st.cns,
        insertions: st.ci as usize,
        deletions: st.cd as usize,
    }
}

/// The grouping's step on one significant change id.
pub open spec fn hunk_step(st: HunkScan, id: usize, changes: Seq<ChangeView>) -> HunkScan {
    let m = id_index_map(changes, changes.len() as int);
    if !m.contains_key(id) || m[id] >= changes.len() {
        st
    } else {
        let c = changes[m[id] as int];
        let (ol, nl) = first_lines(c.spans);
        let st1 = if is_close(st, ol, nl) {
            HunkScan {
                cur: st.cur.push(id),
                cos: if st.cos.is_none() { ol } else { st.cos },
                cns: if st.cns.is_none() { nl } else { st.cns },
                ..st
            }
        } else {
            HunkScan {
                hunks: if st.cur.len() > 0 { st.hunks.push(close_hunk(st)) } else { st.hunks },
                hid: if st.cur.len() > 0 { st.hid + 1 } else { st.hid },
                cur: seq![id],
                cos: ol,
                cns: nl,
                ci: 0,
                cd: 0,
                ..st
            }
        };
        HunkScan {
            lol: if ol.is_some() { ol } else { st1.lol },
            lnl: if nl.is_some() { nl } else { st1.lnl },
            ci: st1.ci + count_ins(c.spans, c.spans.len() as int),
            cd: st1.cd + count_del(c.spans, c.spans.len() as int),
            ..st1
        }
    }
}

/// The grouping after the first `k` significant ids.
pub open spec fn hunk_upto(sig: Seq<usize>, changes: Seq<ChangeView>, k: int) -> HunkScan
    decreases k,
{
    if k <= 0 {
        HunkScan { hunks: Seq::empty(), cur: Seq::empty(), cos: None, cns: None, lol: None, lnl: None, ci: 0, cd: 0, hid: 0 }
    } else {
        hunk_step(hunk_upto(sig, changes, k - 1), sig[k - 1], changes)
    }
}

/// The hunks of a diff: consecutive significant changes are grouped while
/// each is close to the one before.
pub open spec fn hunks_spec(sig: Seq<usize>, changes: Seq<ChangeView>) -> Seq<HunkView> {
    let st = hunk_upto(sig, changes, sig.len() as int);
    if st.cur.len() > 0 {
        st.hunks.push(close_hunk(st))
    } else {
        st.hunks
    }
}

/// Counts the inserting and deleting spans of a change.
fn count_change_spans(spans: &Vec<ChangeSpan>) -> (r: (usize, usize))
    requires
        spans@.len() <= 0xffff_ffff,
    ensures
        r.0 == count_ins(span_views(spans@), spans@.len() as int),
        r.1 == count_del(span_views(spans@), spans@.len() as int),
        r.0 <= spans@.len(),
        r.1 <= spans@.len(),
{
    let ghost sv = span_views(spans@);
    let mut ins: usize = 0;
    let mut del: usize = 0;
    let mut i: usize = 0;
    while i < spans.len()
        invariant
            sv == span_views(spans@),
            i <= spans@.len(),
            spans@.len() <= 0xffff_ffff,
            ins == count_ins(sv, i as int),
            del == count_del(sv, i as int),
            ins <= i,
            del <= i,
        decreases spans@.len() - i,
    {
        assert(sv[i as int] == spans@[i as int]@);
        match spans[i].kind {
            ChangeKind::Insert => ins = ins + 1,
            ChangeKind::Delete => del = del + 1,
            ChangeKind::Replace => {
                ins = ins + 1;
                del = del + 1;
            },
            ChangeKind::Equal => {},
        }
        i = i + 1;
    }
    (ins, del)
}

impl DiffEngine {
    /// Groups the significant changes into hunks (see `hunks_spec`).
    #[verifier::rlimit(60)]
    fn compute_hunks(significant_changes: &Vec<usize>, changes: &Vec<Change>) -> (hunks: Vec<Hunk>)
        requires
            usize::BITS == 64,
            significant_changes@.len() <= 0xffff_0000,
            forall|i: int| 0 <= i < changes@.len() ==> (#[trigger] changes@[i])@.spans.len() <= 0xffff_ffff,
        ensures
            hunk_views(hunks@) == hunks_spec(significant_changes@, change_views(changes@)),
    {
        let ghost cv = change_views(changes@);
        let ghost sig = significant_changes@;
        let mut hunks: Vec<Hunk> = Vec::new();
        if significant_changes.len() == 0 {
            assert(hunk_views(hunks@) =~= Seq::empty());
            return hunks;
        }
        let mut id_to_index = crate::foreign::fx_map_with_capacity(changes.len());
        let mut i: usize = 0;
        while i < changes.len()
            invariant
                cv == change_views(changes@),
                i <= changes@.len(),
                id_to_index@ == id_index_map(cv, i as int),
            decreases changes@.len() - i,
        {
            crate::foreign::fx_map_insert(&mut id_to_index, changes[i].id, i);
            i = i + 1;
        }
        let mut current_hunk_changes: Vec<usize> = Vec::new();
        let mut current_hunk_old_start: Option<usize> = None;
        let mut current_hunk_new_start: Option<usize> = None;
        let mut last_old_line: Option<usize> = None;
        let mut last_new_line: Option<usize> = None;
        let mut current_insertions: usize = 0;
        let mut current_deletions: usize = 0;
        let mut hunk_id: usize = 0;
        let mut k: usize = 0;
        assert(hunk_views(hunks@) =~= Seq::empty());
        while k < significant_changes.len()
            invariant
                cv == change_views(changes@),
                sig == significant_changes@,
                sig.len() <= 0xffff_0000,
                k <= sig.len(),
                usize::BITS == 64,
                id_to_index@ == id_index_map(cv, cv.len() as int),
                forall|i: int| 0 <= i < changes@.len() ==> (#[trigger] changes@[i])@.spans.len() <= 0xffff_ffff,
                ({
                    let st = hunk_upto(sig, cv, k as int);
                    &&& hunk_views(hunks@) == st.hunks
                    &&& current_hunk_changes@ == st.cur
                    &&& current_hunk_old_start == st.cos
                    &&& current_hunk_new_start == st.cns
                    &&& last_old_line == st.lol
                    &&& last_new_line == st.lnl
                    &&& current_insertions == st.ci
                    &&& current_deletions == st.cd
                    &&& hunk_id == st.hid
                }),
                current_insertions <= k * 0xffff_ffff,
                current_deletions <= k * 0xffff_ffff,
                hunk_id <= k,
            decreases sig.len() - k,
        {
            let change_id = significant_changes[k];
            let ghost st = hunk_upto(sig, cv, k as int);
            proof {
                assert(k * 0xffff_ffff + 0xffff_ffff <= 0xffff_0000 * 0xffff_ffff + 0xffff_ffff) by (nonlinear_arith)
                    requires
                        k < 0xffff_0000,
                ;
            }
            let idx_opt = crate::foreign::fx_map_get(&id_to_index, change_id);
            let change_opt: Option<&Change> = match idx_opt {
                Some(idx) => if idx < changes.len() { Some(&changes[idx]) } else { None },
                None => None,
            };
            match change_opt {
                None => {
                    assert(hunk_upto(sig, cv, k + 1) == st);
                },
                Some(change) => {
                    let ghost c = cv[idx_opt.unwrap() as int];
                    assert(change@ == c);
                    let (old_line, new_line) = if change.spans.len() > 0 {
                        (change.spans[0].old_line, change.spans[0].new_line)
                    } else {
                        (None, None)
                    };
                    assert((old_line, new_line) == first_lines(c.spans));
                    let close = match (last_old_line, last_new_line, old_line, new_line) {
                        (Some(lo), _, Some(co), _) => co.saturating_sub(lo) <= PROXIMITY_THRESHOLD,
                        (_, Some(ln), _, Some(cn)) => cn.saturating_sub(ln) <= PROXIMITY_THRESHOLD,
                        _ => current_hunk_changes.len() == 0,
                    };
                    assert(close == is_close(st, old_line, new_line));
                    if close {
                        current_hunk_changes.push(change_id);
                        if current_hunk_old_start.is_none() {
                            current_hunk_old_start = old_line;
                        }
                        if current_hunk_new_start.is_none() {
                            current_hunk_new_start = new_line;
                        }
                    } else {
                        if current_hunk_changes.len() > 0 {
                            let ghost prev = hunks@;
                            let done = Hunk {
                                id: hunk_id,
                                change_ids: current_hunk_changes,
                                old_start: current_hunk_old_start,
                                new_start: current_hunk_new_start,
                                insertions: current_insertions,
                                deletions: current_deletions,
                            };
                            assert(done@ == close_hunk(st));
                            hunks.push(done);
                            assert(hunk_views(hunks@) =~= hunk_views(prev).push(done@));
                            hunk_id = hunk_id + 1;
                        }
                        current_hunk_changes = vec![change_id];
                        current_hunk_old_start = old_line;
                        current_hunk_new_start = new_line;
                        current_insertions = 0;
                        current_deletions = 0;
                    }
                    if old_line.is_some() {
                        last_old_line = old_line;
                    }
                    if new_line.is_some() {
                        last_new_line = new_line;
                    }
                    let (ins, del) = count_change_spans(&change.spans);
                    current_insertions = current_insertions + ins;
                    current_deletions = current_deletions + del;
                    assert(hunk_upto(sig, cv, k + 1) == hunk_step(st, change_id, cv));
                },
            }
            k = k + 1;
        }
        let ghost st = hunk_upto(sig, cv, sig.len() as int);
        if current_hunk_changes.len() > 0 {
            let ghost prev = hunks@;
            let done = Hunk {
                id: hunk_id,
                change_ids: current_hunk_changes,
                old_start: current_hunk_old_start,
                new_start: current_hunk_new_start,
                insertions: current_insertions,
                deletions: current_deletions,
            };
            assert(done@ == close_hunk(st));
            hunks.push(done);
            assert(hunk_views(hunks@) =~= hunk_views(prev).push(done@));
        }
        hunks
    }
}

} // verus!

verus! {

// ---------------------------------------------------------------------
// Diff results
// ---------------------------------------------------------------------

/// Result of a diff operation.
#[derive(Debug, Clone)]
pub struct DiffResult {
    /// All changes in order (context lines included).
    pub changes: Vec<Change>,
    /// Ids of the changes that change something, in order.
    pub significant_changes: Vec<usize>,
    /// Hunks: groups of related significant changes.
    pub hunks: Vec<Hunk>,
    /// Total number of insertions.
    pub insertions: usize,
    /// Total number of deletions.
    pub deletions: usize,
}

/// A diff result as plain values.
pub struct DiffView {
    pub changes: Seq<ChangeView>,
    pub sig: Seq<usize>,
    pub hunks: Seq<HunkView>,
    pub insertions: usize,
    pub deletions: usize,
}

impl View for DiffResult {
    type V = DiffView;

    open spec fn view(&self) -> DiffView {
        DiffView {
            changes: change_views(self.changes@),
            sig: self.significant_changes@,
            hunks: hunk_views(self.hunks@),
            insertions: self.insertions,
            deletions: self.deletions,
        }
    }
}

/// The diff of two texts, given the hunks of their line diff: the line scan,
/// then context trimming, then hunk grouping.
pub open spec fn diff_model(
    old: Seq<char>,
    new: Seq<char>,
    ranges: Seq<(usize, usize, usize, usize)>,
    context_lines: usize,
    word_level: bool,
) -> DiffView {
    let st = scan_spec(ranges, text_lines(old), text_lines(new), word_level);
    let kept = context_keep(st.changes, st.sig, context_lines);
    let ksig = context_sig(st.changes, st.sig, context_lines);
    DiffView {
        changes: kept,
        sig: ksig,
        hunks: hunks_spec(ksig, kept),
        insertions: st.insertions as usize,
        deletions: st.deletions as usize,
    }
}

/// Index of the first change with the given id.
pub open spec fn first_change_with_id(changes: Seq<ChangeView>, id: usize) -> Option<int> {
    if exists|i: int| 0 <= i < changes.len() && changes[i].id == id {
        Some(choose|i: int| 0 <= i < changes.len() && changes[i].id == id && forall|j: int| 0 <= j < i ==> changes[j].id != id)
    } else {
        None
    }
}

/// Index of the first hunk with the given id.
pub open spec fn first_hunk_with_id(hunks: Seq<HunkView>, id: usize) -> Option<int> {
    if exists|i: int| 0 <= i < hunks.len() && hunks[i].id == id {
        Some(choose|i: int| 0 <= i < hunks.len() && hunks[i].id == id && forall|j: int| 0 <= j < i ==> hunks[j].id != id)
    } else {
        None
    }
}

/// Index of the first hunk whose changes hold the given change id.
pub open spec fn first_hunk_holding(hunks: Seq<HunkView>, change_id: usize) -> Option<int> {
    if exists|i: int| 0 <= i < hunks.len() && hunks[i].change_ids.contains(change_id) {
        Some(
            choose|i: int|
                0 <= i < hunks.len() && hunks[i].change_ids.contains(change_id) && forall|j: int|
                    0 <= j < i ==> !hunks[j].change_ids.contains(change_id),
        )
    } else {
        None
    }
}

/// The significant changes that are present, each as the first change with
/// its id, in the order of the significant ids.
pub open spec fn significant_views(d: DiffView) -> Seq<ChangeView> {
    d.sig.filter(|id: usize| first_change_with_id(d.changes, id) is Some).map_values(
        |id: usize| d.changes[first_change_with_id(d.changes, id)->0],
    )
}

/// Position of the first change with id `id`.
pub(crate) fn find_change(changes: &Vec<Change>, id: usize) -> (r: Option<usize>)
    ensures
        match r {
            Some(i) => first_change_with_id(change_views(changes@), id) == Some(i as int) && i < changes@.len(),
            None => first_change_with_id(change_views(changes@), id) is None,
        },
{
    let ghost cv = change_views(changes@);
    let mut i: usize = 0;
    while i < changes.len()
        invariant
            cv == change_views(changes@),
            i <= changes@.len(),
            forall|j: int| 0 <= j < i ==> cv[j].id != id,
        decreases changes@.len() - i,
    {
        if changes[i].id == id {
            assert(cv[i as int].id == id);
            let ghost w = choose|k: int| 0 <= k < cv.len() && cv[k].id == id && forall|j: int| 0 <= j < k ==> cv[j].id != id;
            assert(0 <= i < cv.len() && cv[i as int].id == id && forall|j: int| 0 <= j < i ==> cv[j].id != id);
            assert(w == i) by {
                if w < i {
                    assert(cv[w].id != id);
                } else if w > i {
                    assert(cv[i as int].id != id);
                }
            }
            return Some(i);
        }
        i = i + 1;
    }
    None
}

impl DiffResult {
    /// The significant (non-context) changes, in order.
    #[verifier::spinoff_prover]
    #[verifier::rlimit(30)]
    pub fn get_significant_changes(&self) -> (r: Vec<&Change>)
        ensures
            r@.map_values(|c: &Change| c@) == significant_views(self@),
    {
        let ghost d = self@;
        let ghost has = |id: usize| first_change_with_id(d.changes, id) is Some;
        let ghost pick = |id: usize| d.changes[first_change_with_id(d.changes, id)->0];
        let mut out: Vec<&Change> = Vec::new();
        let mut k: usize = 0;
        assert(d.sig.take(0).filter(has).map_values(pick) =~= Seq::empty()) by {
            reveal_with_fuel(Seq::<_>::filter, 1);
        }
        assert(out@.map_values(|c: &Change| c@) =~= Seq::empty());
        while k < self.significant_changes.len()
            invariant
                d == self@,
                has == (|id: usize| first_change_with_id(d.changes, id) is Some),
                pick == (|id: usize| d.changes[first_change_with_id(d.changes, id)->0]),
                k <= d.sig.len(),
                out@.map_values(|c: &Change| c@) == d.sig.take(k as int).filter(has).map_values(pick),
            decreases d.sig.len() - k,
        {
            let id = self.significant_changes[k];
            let ghost prev = d.sig.take(k as int).filter(has);
            assert(d.sig.take(k + 1).drop_last() =~= d.sig.take(k as int));
            assert(d.sig.take(k + 1).filter(has) == if has(id) { prev.push(id) } else { prev }) by {
                reveal_with_fuel(Seq::<_>::filter, 1);
            }
            match find_change(&self.changes, id) {
                Some(i) => {
                    let ghost before = out@;
                    assert(has(id));
                    assert(pick(id) == d.changes[i as int]);
                    out.push(&self.changes[i]);
                    assert(out@.map_values(|c: &Change| c@) =~= before.map_values(|c: &Change| c@).push(pick(id)));
                    assert(prev.push(id).map_values(pick) =~= prev.map_values(pick).push(pick(id)));
                },
                None => {},
            }
            k = k + 1;
        }
        assert(d.sig.take(d.sig.len() as int) =~= d.sig);
        out
    }

    /// The first hunk with the given id.
    pub fn get_hunk(&self, hunk_id: usize) -> (r: Option<&Hunk>)
        ensures
            match first_hunk_with_id(self@.hunks, hunk_id) {
                Some(i) => r is Some && r.unwrap()@ == self@.hunks[i],
                None => r is None,
            },
    {
        let ghost hv = self@.hunks;
        let mut i: usize = 0;
        while i < self.hunks.len()
            invariant
                hv == self@.hunks,
                i <= self.hunks@.len(),
                forall|j: int| 0 <= j < i ==> hv[j].id != hunk_id,
            decreases self.hunks@.len() - i,
        {
            if self.hunks[i].id == hunk_id {
                let ghost w = choose|k: int| 0 <= k < hv.len() && hv[k].id == hunk_id && forall|j: int| 0 <= j < k ==> hv[j].id != hunk_id;
                assert(0 <= i < hv.len() && hv[i as int].id == hunk_id && forall|j: int| 0 <= j < i ==> hv[j].id != hunk_id);
                assert(w == i) by {
                    if w < i {
                        assert(hv[w].id != hunk_id);
                    } else if w > i {
                        assert(hv[i as int].id != hunk_id);
                    }
                }
                return Some(&self.hunks[i]);
            }
            i = i + 1;
        }
        None
    }

    /// The first hunk that holds the given change id.
    pub fn hunk_for_change(&self, change_id: usize) -> (r: Option<&Hunk>)
        ensures
            match first_hunk_holding(self@.hunks, change_id) {
                Some(i) => 0 <= i < self@.hunks.len() && r is Some && r.unwrap()@ == self@.hunks[i],
                None => r is None,
            },
    {
        let ghost hv = self@.hunks;
        let mut i: usize = 0;
        while i < self.hunks.len()
            invariant
                hv == self@.hunks,
                i <= self.hunks@.len(),
                forall|j: int| 0 <= j < i ==> !hv[j].change_ids.contains(change_id),
            decreases self.hunks@.len() - i,
        {
            if vec_contains(&self.hunks[i].change_ids, change_id) {
                let ghost w = choose|k: int|
                    0 <= k < hv.len() && hv[k].change_ids.contains(change_id) && forall|j: int|
                        0 <= j < k ==> !hv[j].change_ids.contains(change_id);
                assert(0 <= i < hv.len() && hv[i as int].change_ids.contains(change_id));
                assert(w == i) by {
                    if w < i {
                        assert(!hv[w].change_ids.contains(change_id));
                    } else if w > i {
                        assert(!hv[i as int].change_ids.contains(change_id));
                    }
                }
                return Some(&self.hunks[i]);
            }
            i = i + 1;
        }
        None
    }
}

/// Whether `v` holds `x`.
pub fn vec_contains(v: &Vec<usize>, x: usize) -> (b: bool)
    ensures
        b == v@.contains(x),
{
    let mut i: usize = 0;
    while i < v.len()
        invariant
            i <= v@.len(),
            forall|j: int| 0 <= j < i ==> v@[j] != x,
        decreases v@.len() - i,
    {
        if v[i] == x {
            assert(v@[i as int] == x);
            return true;
        }
        i = i + 1;
    }
    false
}

} // verus!

verus! {

/// A diff for a single file.
#[derive(Debug, Clone)]
pub struct FileDiff {
    pub old_path: Option<String>,
    pub new_path: Option<String>,
    pub result: DiffResult,
}

impl Default for DiffEngine {
    /// Three lines of context, word-level diffing on.
    fn default() -> (e: Self)
        ensures
            e.context_lines == 3,
            e.word_level,
    {
        DiffEngine { context_lines: 3, word_level: true }
    }
}

impl DiffEngine {
    /// The default engine: three lines of context, word-level diffing on.
    pub fn new() -> (e: Self)
        ensures
            e.context_lines == 3,
            e.word_level,
    {
        Self::default()
    }

    /// The same engine with the given number of context lines.
    pub fn with_context(self, lines: usize) -> (e: Self)
        ensures
            e.context_lines == lines,
            e.word_level == self.word_level,
    {
        let mut s = self;
        s.context_lines = lines;
        s
    }

    /// The same engine with word-level diffing on or off.
    pub fn with_word_level(self, enabled: bool) -> (e: Self)
        ensures
            e.word_level == enabled,
            e.context_lines == self.context_lines,
    {
        let mut s = self;
        s.word_level = enabled;
        s
    }

    /// Builds the diff of two texts from the hunks of their line diff (see
    /// `diff_model`). The texts are bounded as the line diff needs them, and
    /// the context plus the texts' length must fit in a `usize`.
    pub fn diff_from_ranges(&self, old: &str, new: &str, ranges: &Vec<(usize, usize, usize, usize)>) -> (r: DiffResult)
        requires
            usize::BITS == 64,
            old@.len() < 0x7fff_0000,
            new@.len() < 0x7fff_0000,
            hunks_in_order(ranges@, text_lines(old@).len(), text_lines(new@).len()),
            self.context_lines == usize::MAX || self.context_lines + old@.len() + new@.len() <= usize::MAX,
        ensures
            r@ == diff_model(old@, new@, ranges@, self.context_lines, self.word_level),
            well_formed(r@),
            scan_wf(scan_spec(ranges@, text_lines(old@), text_lines(new@), self.word_level)),
            scan_aligned(ranges@, text_lines(old@), text_lines(new@), self.word_level),
    {
        let old_lines = str_lines(old);
        let new_lines = str_lines(new);
        proof {
            lemma_lines_from_short(old@, 0);
            lemma_lines_from_short(new@, 0);
            assert forall|i: int| 0 <= i < old_lines@.len() implies (#[trigger] old_lines@[i])@.len() < 0x7fff_0000 by {
                assert(str_views(old_lines@)[i] == old_lines@[i]@);
                assert(text_lines(old@)[i] == old_lines@[i]@);
            }
            assert forall|i: int| 0 <= i < new_lines@.len() implies (#[trigger] new_lines@[i])@.len() < 0x7fff_0000 by {
                assert(str_views(new_lines@)[i] == new_lines@[i]@);
                assert(text_lines(new@)[i] == new_lines@[i]@);
            }
        }
        let (changes, significant_changes, insertions, deletions) = self.scan_lines(&old_lines, &new_lines, ranges);
        let ghost st = scan_spec(ranges@, text_lines(old@), text_lines(new@), self.word_level);
        assert(str_views(old_lines@) == text_lines(old@));
        assert(str_views(new_lines@) == text_lines(new@));
        proof {
            assert forall|i: int| 0 <= i < changes@.len() implies (#[trigger] changes@[i]).id == i by {
                assert(change_views(changes@)[i].id == changes@[i].id);
            }
        }
        let n_sig = significant_changes.len();
        let n_changes = changes.len();
        proof {
            lemma_trimmed_well_formed(st, self.context_lines);
        }
        let (changes, significant_changes) = self.trim_context(changes, significant_changes);
        let hunks = Self::compute_hunks(&significant_changes, &changes);
        DiffResult { changes, significant_changes, hunks, insertions, deletions }
    }

    /// Computes the diff between two strings: a histogram line diff, each
    /// run of modified lines paired into word-level changes where possible,
    /// context trimmed, changes grouped into hunks (see `diff_model`).
    pub fn diff_strings(&self, old: &str, new: &str) -> (r: DiffResult)
        requires
            usize::BITS == 64,
            old@.len() < 0x7fff_0000,
            new@.len() < 0x7fff_0000,
            self.context_lines == usize::MAX || self.context_lines + old@.len() + new@.len() <= usize::MAX,
        ensures
            r@ == diff_model(old@, new@, line_diff_hunks(old@, new@), self.context_lines, self.word_level),
            well_formed(r@),
            scan_wf(scan_spec(line_diff_hunks(old@, new@), text_lines(old@), text_lines(new@), self.word_level)),
            hunks_in_order(line_diff_hunks(old@, new@), text_lines(old@).len(), text_lines(new@).len()),
            gaps_match(line_diff_hunks(old@, new@), text_lines(old@).len(), text_lines(new@).len()),
            unchanged_pair_up(line_diff_hunks(old@, new@), text_lines(old@), text_lines(new@)),
            scan_aligned(line_diff_hunks(old@, new@), text_lines(old@), text_lines(new@), self.word_level),
            old@ == new@ ==> r@.sig.len() == 0 && r@.insertions == 0 && r@.deletions == 0 && r@.hunks.len() == 0,
            self.context_lines == usize::MAX ==> old_lines_of(r@.changes) == text_lines(old@) && new_lines_of(r@.changes)
                == text_lines(new@),            old@ != new@ ==> r@.sig.len() > 0 && r@.hunks.len() > 0,
            r@.deletions <= text_lines(old@).len(),
            r@.insertions <= text_lines(new@).len(),
            text_lines(old@).len() - r@.deletions == text_lines(new@).len() - r@.insertions,
    {
        let ranges = histogram_line_hunks(old, new);
        proof {
            if old@ == new@ {
                assert(ranges@ =~= Seq::empty());
                lemma_no_hunks_nothing_changed(text_lines(old@), text_lines(new@), self.word_level, self.context_lines);
                let st = scan_spec(ranges@, text_lines(old@), text_lines(new@), self.word_level);
                let kept = context_keep(st.changes, st.sig, self.context_lines);
                assert(context_sig(st.changes, st.sig, self.context_lines) =~= Seq::empty());
                lemma_no_sig_no_hunks(kept);
            }
        }
        let r = self.diff_from_ranges(old, new, &ranges);
        proof {
            law_changes_rebuild_texts(old@, new@, ranges@, self.word_level);
            lemma_model_counts(old@, new@, ranges@, self.context_lines, self.word_level);
            if old@ != new@ {
                lemma_hunks_give_change(ranges@, text_lines(old@), text_lines(new@), self.word_level);
                law_context_keeps_significant_changes(old@, new@, ranges@, self.context_lines, self.word_level);
                if r@.hunks.len() == 0 {
                    assert(hunk_id_lists(r@.hunks) =~= Seq::<Seq<usize>>::empty());
                }
            }
        }
        r
    }
}

} // verus!

verus! {

// ---------------------------------------------------------------------
// Laws of diff results
// ---------------------------------------------------------------------

/// The change ids of each hunk, in order.
pub open spec fn hunk_id_lists(hunks: Seq<HunkView>) -> Seq<Seq<usize>> {
    hunks.map_values(|h: HunkView| h.change_ids)
}

/// A diff whose parts agree: hunk `i` has id `i`, no hunk is empty, the
/// hunks' changes laid end to end are the significant changes, which rise
/// strictly and each name a change of the diff.
pub open spec fn well_formed(d: DiffView) -> bool {
    &&& forall|i: int| 0 <= i < d.hunks.len() ==> (#[trigger] d.hunks[i]).id == i
    &&& forall|i: int| 0 <= i < d.hunks.len() ==> (#[trigger] d.hunks[i]).change_ids.len() > 0
    &&& hunk_id_lists(d.hunks).flatten() == d.sig
    &&& forall|i: int, j: int| 0 <= i < j < d.sig.len() ==> d.sig[i] < d.sig[j]
    &&& ids_name_changes(d.sig, d.changes)
}

/// Every id names a change.
pub open spec fn ids_name_changes(ids: Seq<usize>, changes: Seq<ChangeView>) -> bool {
    forall|k: int| 0 <= k < ids.len() ==> exists|i: int| 0 <= i < changes.len() && changes[i].id == #[trigger] ids[k]
}

proof fn lemma_id_index_map(cs: Seq<ChangeView>, n: int, x: usize)
    requires
        0 <= n <= cs.len(),
    ensures
        id_index_map(cs, n).contains_key(x) <==> exists|i: int| 0 <= i < n && cs[i].id == x,
        id_index_map(cs, n).contains_key(x) ==> id_index_map(cs, n)[x] < n,
    decreases n,
{
    if n > 0 {
        lemma_id_index_map(cs, n - 1, x);
        if cs[n - 1].id == x {
            assert(exists|i: int| 0 <= i < n && cs[i].id == x) by {
                assert(cs[n - 1].id == x);
            }
        } else if exists|i: int| 0 <= i < n && cs[i].id == x {
            let i = choose|i: int| 0 <= i < n && cs[i].id == x;
            assert(i < n - 1);
        }
    }
}

proof fn lemma_hunk_upto(sig: Seq<usize>, cs: Seq<ChangeView>, k: int)
    requires
        0 <= k <= sig.len(),
        sig.len() <= usize::MAX,
        forall|q: int| 0 <= q < sig.len() ==> exists|i: int| 0 <= i < cs.len() && cs[i].id == #[trigger] sig[q],
    ensures
        ({
            let st = hunk_upto(sig, cs, k);
            &&& hunk_id_lists(st.hunks).flatten() + st.cur == sig.take(k)
            &&& st.hid == st.hunks.len()
            &&& st.hid <= k
            &&& forall|i: int| 0 <= i < st.hunks.len() ==> (#[trigger] st.hunks[i]).id == i
            &&& forall|i: int| 0 <= i < st.hunks.len() ==> (#[trigger] st.hunks[i]).change_ids.len() > 0
            &&& k > 0 ==> st.cur.len() > 0
        }),
    decreases k,
{
    broadcast use Seq::lemma_flatten_push;

    if k == 0 {
        assert(hunk_id_lists(Seq::<HunkView>::empty()) =~= Seq::empty());
        assert(sig.take(0) =~= Seq::<usize>::empty());
    } else {
        lemma_hunk_upto(sig, cs, k - 1);
        let st = hunk_upto(sig, cs, k - 1);
        let id = sig[k - 1];
        let m = id_index_map(cs, cs.len() as int);
        lemma_id_index_map(cs, cs.len() as int, id);
        assert(exists|i: int| 0 <= i < cs.len() && cs[i].id == sig[k - 1]);
        assert(m.contains_key(id) && m[id] < cs.len());
        assert(sig.take(k) =~= sig.take(k - 1).push(id));
        let c = cs[m[id] as int];
        let (ol, nl) = first_lines(c.spans);
        if is_close(st, ol, nl) {
            assert(hunk_id_lists(st.hunks).flatten() + st.cur.push(id) =~= (hunk_id_lists(st.hunks).flatten() + st.cur).push(id));
        } else {
            if st.cur.len() > 0 {
                let hs = st.hunks.push(close_hunk(st));
                assert(hunk_id_lists(hs) =~= hunk_id_lists(st.hunks).push(st.cur));
                assert(hunk_id_lists(hs).flatten() + seq![id] =~= (hunk_id_lists(st.hunks).flatten() + st.cur).push(id));
                assert forall|i: int| 0 <= i < hs.len() implies (#[trigger] hs[i]).id == i by {
                    if i < st.hunks.len() {
                        assert(hs[i] == st.hunks[i]);
                    }
                }
                assert forall|i: int| 0 <= i < hs.len() implies (#[trigger] hs[i]).change_ids.len() > 0 by {
                    if i < st.hunks.len() {
                        assert(hs[i] == st.hunks[i]);
                    }
                }
            } else {
                assert(hunk_id_lists(st.hunks).flatten() + seq![id] =~= (hunk_id_lists(st.hunks).flatten() + st.cur).push(id));
            }
        }
    }
}

/// When every significant id names a change, the hunks lay the significant
/// ids end to end, hunk `i` has id `i`, and no hunk is empty.
pub proof fn lemma_hunks_partition(sig: Seq<usize>, cs: Seq<ChangeView>)
    requires
        sig.len() <= usize::MAX,
        forall|q: int| 0 <= q < sig.len() ==> exists|i: int| 0 <= i < cs.len() && cs[i].id == #[trigger] sig[q],
    ensures
        hunk_id_lists(hunks_spec(sig, cs)).flatten() == sig,
        forall|i: int| 0 <= i < hunks_spec(sig, cs).len() ==> (#[trigger] hunks_spec(sig, cs)[i]).id == i,
        forall|i: int| 0 <= i < hunks_spec(sig, cs).len() ==> (#[trigger] hunks_spec(sig, cs)[i]).change_ids.len() > 0,
{
    broadcast use Seq::lemma_flatten_push;

    lemma_hunk_upto(sig, cs, sig.len() as int);
    let st = hunk_upto(sig, cs, sig.len() as int);
    assert(sig.take(sig.len() as int) =~= sig);
    if st.cur.len() > 0 {
        let hs = st.hunks.push(close_hunk(st));
        assert(hunk_id_lists(hs) =~= hunk_id_lists(st.hunks).push(st.cur));
        assert forall|i: int| 0 <= i < hs.len() implies (#[trigger] hs[i]).id == i by {
            if i < st.hunks.len() {
                assert(hs[i] == st.hunks[i]);
            }
        }
        assert forall|i: int| 0 <= i < hs.len() implies (#[trigger] hs[i]).change_ids.len() > 0 by {
            if i < st.hunks.len() {
                assert(hs[i] == st.hunks[i]);
            }
        }
    } else {
        assert(hunk_id_lists(st.hunks).flatten() + st.cur =~= hunk_id_lists(st.hunks).flatten());
    }
}

/// Keeping the elements that satisfy a predicate keeps ids rising.
pub proof fn lemma_filter_keeps_rising(s: Seq<ChangeView>, p: spec_fn(ChangeView) -> bool)
    requires
        forall|i: int, j: int| 0 <= i < j < s.len() ==> s[i].id < s[j].id,
    ensures
        forall|i: int, j: int| 0 <= i < j < s.filter(p).len() ==> s.filter(p)[i].id < s.filter(p)[j].id,
    decreases s.len(),
{
    reveal(Seq::filter);
    if s.len() > 0 {
        let t = s.drop_last();
        lemma_filter_keeps_rising(t, p);
        let f = t.filter(p);
        if p(s.last()) {
            assert forall|i: int, j: int| 0 <= i < j < s.filter(p).len() implies s.filter(p)[i].id < s.filter(p)[j].id by {
                if j == f.len() {
                    assert(s.filter(p)[i] == f[i]);
                    assert(f.contains(f[i]));
                    t.lemma_filter_contains_rev(p, f[i]);
                    let w = choose|w: int| 0 <= w < t.len() && t[w] == f[i];
                    assert(t[w] == s[w]);
                    assert(s[w].id < s[s.len() - 1].id);
                } else {
                    assert(s.filter(p)[i] == f[i]);
                    assert(s.filter(p)[j] == f[j]);
                }
            }
        }
    }
}

} // verus!

verus! {

/// Context trimming and hunk grouping of a well-formed scan give a
/// well-formed diff.
proof fn lemma_trimmed_well_formed(st: ScanState, ctx: usize)
    requires
        scan_wf(st),
        st.sig.len() <= usize::MAX,
        st.changes.len() <= usize::MAX,
    ensures
        ({
            let kept = context_keep(st.changes, st.sig, ctx);
            let ksig = context_sig(st.changes, st.sig, ctx);
            well_formed(
                DiffView {
                    changes: kept,
                    sig: ksig,
                    hunks: hunks_spec(ksig, kept),
                    insertions: st.insertions as usize,
                    deletions: st.deletions as usize,
                },
            )
        }),
{
    let kept = context_keep(st.changes, st.sig, ctx);
    let ksig = context_sig(st.changes, st.sig, ctx);
    if ctx == usize::MAX {
        assert forall|k: int| 0 <= k < ksig.len() implies exists|i: int| 0 <= i < kept.len() && kept[i].id == #[trigger] ksig[k] by {
            let i = ksig[k] as int;
            assert(kept[i].id == i);
        }
    } else {
        let keep = |c: ChangeView| in_context(c.id as int, st.sig, ctx);
        let insig = |c: ChangeView| st.sig.contains(c.id);
        assert(forall|i: int, j: int| 0 <= i < j < st.changes.len() ==> st.changes[i].id < st.changes[j].id);
        lemma_filter_keeps_rising(st.changes, keep);
        let f = kept.filter(insig);
        lemma_filter_keeps_rising(kept, insig);
        kept.lemma_filter_len(insig);
        st.changes.lemma_filter_len(keep);
        assert forall|k: int| 0 <= k < ksig.len() implies exists|i: int| 0 <= i < kept.len() && kept[i].id == #[trigger] ksig[k] by {
            assert(ksig[k] == f[k].id);
            assert(f.contains(f[k]));
            kept.lemma_filter_contains_rev(insig, f[k]);
        }
        assert forall|i: int, j: int| 0 <= i < j < ksig.len() implies ksig[i] < ksig[j] by {
            assert(ksig[i] == f[i].id);
            assert(ksig[j] == f[j].id);
        }
        assert(ksig.len() <= usize::MAX);
    }
    assert(ids_name_changes(ksig, kept));
    lemma_hunks_partition(ksig, kept);
}

} // verus!

verus! {

/// With no hunk, the line scan reports nothing changed.
proof fn lemma_no_hunks_nothing_changed(ol: Seq<Seq<char>>, nl: Seq<Seq<char>>, wl: bool, ctx: usize)
    ensures
        ({
            let st = scan_spec(Seq::empty(), ol, nl, wl);
            &&& st.sig.len() == 0
            &&& st.insertions == 0
            &&& st.deletions == 0
            &&& context_sig(st.changes, st.sig, ctx).len() == 0
        }),
{
    let st = scan_spec(Seq::empty(), ol, nl, wl);
    assert(scan_upto(Seq::empty(), ol, nl, wl, 0) == scan_init());
    let kept = context_keep(st.changes, st.sig, ctx);
    if ctx != usize::MAX {
        let insig = |c: ChangeView| st.sig.contains(c.id);
        assert(kept.all(|x: ChangeView| !insig(x)));
        kept.lemma_all_neg_filter_empty(insig);
    }
}

/// A diff with no significant change has no hunk.
proof fn lemma_no_sig_no_hunks(cs: Seq<ChangeView>)
    ensures
        hunks_spec(Seq::empty(), cs).len() == 0,
{
}

/// An element of one of the sequences is an element of the flattened
/// sequence, at the offset of that sequence plus its position.
pub proof fn lemma_flatten_index<A>(ss: Seq<Seq<A>>, i: int, k: int)
    requires
        0 <= i < ss.len(),
        0 <= k < ss[i].len(),
    ensures
        ss.take(i).flatten().len() + k < ss.flatten().len(),
        ss.flatten()[ss.take(i).flatten().len() + k] == ss[i][k],
    decreases ss.len(),
{
    if i == 0 {
        assert(ss.take(0) =~= Seq::<Seq<A>>::empty());
        assert(ss.flatten() == ss[0] + ss.drop_first().flatten());
    } else {
        lemma_flatten_index(ss.drop_first(), i - 1, k);
        assert(ss.take(i).drop_first() =~= ss.drop_first().take(i - 1));
        assert(ss.take(i).flatten() == ss.take(i)[0] + ss.take(i).drop_first().flatten());
        assert(ss.flatten() == ss[0] + ss.drop_first().flatten());
    }
}

/// Each change id of a hunk of a well-formed diff is a significant id.
pub proof fn lemma_hunk_ids_in_sig(d: DiffView, h: int, k: int)
    requires
        well_formed(d),
        0 <= h < d.hunks.len(),
        0 <= k < d.hunks[h].change_ids.len(),
    ensures
        d.sig.contains(d.hunks[h].change_ids[k]),
{
    let ss = hunk_id_lists(d.hunks);
    assert(ss[h] == d.hunks[h].change_ids);
    lemma_flatten_index(ss, h, k);
    assert(d.sig[ss.take(h).flatten().len() + k] == d.hunks[h].change_ids[k]);
}


/// The lengths of hunks added up.
pub open spec fn hunk_len_sum(hunks: Seq<HunkView>) -> int
    decreases hunks.len(),
{
    if hunks.len() == 0 {
        0
    } else {
        hunks[0].change_ids.len() + hunk_len_sum(hunks.drop_first())
    }
}

proof fn lemma_flatten_len(hunks: Seq<HunkView>)
    ensures
        hunk_id_lists(hunks).flatten().len() == hunk_len_sum(hunks),
    decreases hunks.len(),
{
    if hunks.len() > 0 {
        lemma_flatten_len(hunks.drop_first());
        assert(hunk_id_lists(hunks).drop_first() =~= hunk_id_lists(hunks.drop_first()));
    }
}

/// Every significant change lies in exactly one hunk: the hunks' lengths
/// add up to the number of significant changes, and no hunk is empty.
pub proof fn law_hunk_lengths_cover_significant_changes(d: DiffView)
    requires
        well_formed(d),
    ensures
        hunk_len_sum(d.hunks) == d.sig.len(),
        forall|i: int| 0 <= i < d.hunks.len() ==> (#[trigger] d.hunks[i]).change_ids.len() > 0,
{
    lemma_flatten_len(d.hunks);
}


/// A change of one span that is an unchanged line (on both sides), a
/// deleted line (old side only) or an inserted line (new side only).
pub open spec fn single_line_change(c: ChangeView) -> bool {
    &&& c.spans.len() == 1
    &&& {
        let sp = c.spans[0];
        ||| sp.kind == ChangeKind::Equal
        ||| sp.kind == ChangeKind::Delete && sp.old_line is Some && sp.new_line is None
        ||| sp.kind == ChangeKind::Insert && sp.old_line is None && sp.new_line is Some
    }
}

/// Every change is a single line (see `single_line_change`).
pub open spec fn all_single_lines(cs: Seq<ChangeView>) -> bool {
    forall|i: int| 0 <= i < cs.len() ==> single_line_change(#[trigger] cs[i])
}

proof fn lemma_single_append(a: Seq<ChangeView>, b: Seq<ChangeView>)
    requires
        all_single_lines(a),
        all_single_lines(b),
    ensures
        all_single_lines(a + b),
{
    assert forall|i: int| 0 <= i < (a + b).len() implies single_line_change(#[trigger] (a + b)[i]) by {
        if i < a.len() {
            assert((a + b)[i] == a[i]);
        } else {
            assert((a + b)[i] == b[i - a.len()]);
        }
    }
}

proof fn lemma_flush_single(st: ScanState)
    requires
        all_single_lines(st.changes),
    ensures
        all_single_lines(flush_spec(st, false).changes),
{
    let nd = st.pend_del.len() as int;
    let ni = st.pend_ins.len() as int;
    if !(nd == 0 && ni == 0) {
        let dels = Seq::new(
            nd as nat,
            |i: int| single_change(st.next_id + i, ChangeKind::Delete, st.pend_del[i].0, Some(st.pend_del[i].1), None),
        );
        let inss = Seq::new(
            ni as nat,
            |j: int| single_change(st.next_id + nd + j, ChangeKind::Insert, st.pend_ins[j].0, None, Some(st.pend_ins[j].1)),
        );
        assert(all_single_lines(dels));
        assert(all_single_lines(inss));
        lemma_single_append(st.changes, dels);
        lemma_single_append(st.changes + dels, inss);
    }
}

proof fn lemma_equal_single(st: ScanState, ol: Seq<Seq<char>>, to: int)
    requires
        all_single_lines(st.changes),
    ensures
        all_single_lines(equal_lines_spec(st, ol, to).changes),
{
    let cnt = if to > st.old_idx { to - st.old_idx } else { 0 };
    let eqs = Seq::new(
        cnt as nat,
        |i: int| single_change(st.next_id + i, ChangeKind::Equal, line_at(ol, st.old_idx + i), Some((st.old_ln + i) as usize), Some((st.new_ln + i) as usize)),
    );
    assert(all_single_lines(eqs));
    lemma_single_append(st.changes, eqs);
}

proof fn lemma_scan_single(h: Seq<(usize, usize, usize, usize)>, ol: Seq<Seq<char>>, nl: Seq<Seq<char>>, k: int)
    ensures
        all_single_lines(scan_upto(h, ol, nl, false, k).changes),
    decreases k,
{
    if k > 0 {
        let st = scan_upto(h, ol, nl, false, k - 1);
        lemma_scan_single(h, ol, nl, k - 1);
        if st.old_idx < h[k - 1].0 {
            lemma_flush_single(st);
            lemma_equal_single(flush_spec(st, false), ol, h[k - 1].0 as int);
        }
    }
}

/// Without word-level diffing, every change of a diff is a single line:
/// an unchanged line, a deleted line (old side only) or an inserted line
/// (new side only), whatever the texts and the context.
pub proof fn law_line_level_changes_are_single_lines(
    old: Seq<char>,
    new: Seq<char>,
    ranges: Seq<(usize, usize, usize, usize)>,
    context_lines: usize,
)
    ensures
        all_single_lines(diff_model(old, new, ranges, context_lines, false).changes),
{
    let ol = text_lines(old);
    let nl = text_lines(new);
    let st = scan_upto(ranges, ol, nl, false, ranges.len() as int);
    lemma_scan_single(ranges, ol, nl, ranges.len() as int);
    let st1 = if st.old_idx < ol.len() {
        lemma_flush_single(st);
        lemma_equal_single(flush_spec(st, false), ol, ol.len() as int);
        equal_lines_spec(flush_spec(st, false), ol, ol.len() as int)
    } else {
        st
    };
    lemma_flush_single(st1);
    let cs = scan_spec(ranges, ol, nl, false).changes;
    assert(all_single_lines(cs));
    if context_lines != usize::MAX {
        let p = |c: ChangeView| in_context(c.id as int, scan_spec(ranges, ol, nl, false).sig, context_lines);
        let f = cs.filter(p);
        assert forall|i: int| 0 <= i < f.len() implies single_line_change(#[trigger] f[i]) by {
            assert(f.contains(f[i]));
            cs.lemma_filter_contains_rev(p, f[i]);
        }
    }
}


/// How many of the significant ids lie below `m`.
spec fn sig_below(sig: Seq<usize>, m: int) -> int
    decreases m,
{
    if m <= 0 {
        0
    } else {
        sig_below(sig, m - 1) + if sig.contains((m - 1) as usize) { 1int } else { 0 }
    }
}

proof fn lemma_sig_below(sig: Seq<usize>, m: int)
    requires
        forall|i: int, j: int| 0 <= i < j < sig.len() ==> sig[i] < sig[j],
        0 <= m <= usize::MAX + 1,
    ensures
        0 <= sig_below(sig, m) <= sig.len(),
        forall|k: int| 0 <= k < sig_below(sig, m) ==> sig[k] < m,
        forall|k: int| sig_below(sig, m) <= k < sig.len() ==> sig[k] >= m,
    decreases m,
{
    if m > 0 {
        lemma_sig_below(sig, m - 1);
        let b = sig_below(sig, m - 1);
        if sig.contains((m - 1) as usize) {
            let k = choose|k: int| 0 <= k < sig.len() && sig[k] == (m - 1) as usize;
            if k > b {
                assert(sig[b] < sig[k]);
            }
            assert(k == b);
        } else {
            assert forall|k: int| b <= k < sig.len() implies sig[k] >= m by {
                if sig[k] == m - 1 {
                    assert(sig.contains(sig[k]));
                }
            }
        }
    }
}

proof fn lemma_sig_ids(cs: Seq<ChangeView>, sig: Seq<usize>, m: int)
    requires
        forall|i: int| 0 <= i < cs.len() ==> (#[trigger] cs[i]).id == i,
        forall|i: int, j: int| 0 <= i < j < sig.len() ==> sig[i] < sig[j],
        0 <= m <= cs.len(),
        m <= usize::MAX + 1,
    ensures
        cs.take(m).filter(|c: ChangeView| sig.contains(c.id)).map_values(|c: ChangeView| c.id) == sig.take(sig_below(sig, m)),
    decreases m,
{
    let p = |c: ChangeView| sig.contains(c.id);
    reveal(Seq::filter);
    lemma_sig_below(sig, m);
    if m == 0 {
        assert(cs.take(0).filter(p) =~= Seq::<ChangeView>::empty());
        assert(sig.take(0) =~= Seq::<usize>::empty());
    } else {
        lemma_sig_ids(cs, sig, m - 1);
        lemma_sig_below(sig, m - 1);
        let t = cs.take(m);
        assert(t.drop_last() =~= cs.take(m - 1));
        assert(t.last() == cs[m - 1]);
        let b = sig_below(sig, m - 1);
        if sig.contains((m - 1) as usize) {
            let k = choose|k: int| 0 <= k < sig.len() && sig[k] == (m - 1) as usize;
            if k > b {
                assert(sig[b] < sig[k]);
            }
            assert(sig.take(b + 1) =~= sig.take(b).push(sig[b]));
            assert(t.filter(p).map_values(|c: ChangeView| c.id) =~= cs.take(m - 1).filter(p).map_values(|c: ChangeView| c.id).push(cs[m - 1].id));
        }
    }
}

proof fn lemma_filter_implied(s: Seq<ChangeView>, p: spec_fn(ChangeView) -> bool, q: spec_fn(ChangeView) -> bool)
    requires
        forall|c: ChangeView| #[trigger] q(c) ==> p(c),
    ensures
        s.filter(p).filter(q) == s.filter(q),
    decreases s.len(),
{
    reveal(Seq::filter);
    if s.len() > 0 {
        lemma_filter_implied(s.drop_last(), p, q);
        if p(s.last()) {
            assert(s.filter(p).drop_last() =~= s.drop_last().filter(p));
        }
    }
}

/// The context kept around the changes takes nothing from the significant
/// changes: under any context setting they are the scan's significant
/// changes, and so are the line counts; the kept changes are those within
/// the context of a significant one (all of them with `usize::MAX`). The
/// scan is well formed for every input `diff_from_ranges` and
/// `diff_strings` take (their `ensures` say so).
pub proof fn law_context_keeps_significant_changes(
    old: Seq<char>,
    new: Seq<char>,
    ranges: Seq<(usize, usize, usize, usize)>,
    context_lines: usize,
    word_level: bool,
)
    requires
        scan_wf(scan_spec(ranges, text_lines(old), text_lines(new), word_level)),
    ensures
        ({
            let st = scan_spec(ranges, text_lines(old), text_lines(new), word_level);
            let d = diff_model(old, new, ranges, context_lines, word_level);
            let all = diff_model(old, new, ranges, usize::MAX, word_level);
            &&& d.sig == all.sig
            &&& d.sig == st.sig
            &&& d.insertions == all.insertions
            &&& d.deletions == all.deletions
            &&& context_lines != usize::MAX ==> d.changes == st.changes.filter(
                |c: ChangeView| in_context(c.id as int, st.sig, context_lines),
            )
        }),
{
    let st = scan_spec(ranges, text_lines(old), text_lines(new), word_level);
    if context_lines != usize::MAX {
        let keep = |c: ChangeView| in_context(c.id as int, st.sig, context_lines);
        let insig = |c: ChangeView| st.sig.contains(c.id);
        assert forall|c: ChangeView| #[trigger] insig(c) implies keep(c) by {
            let k = choose|k: int| 0 <= k < st.sig.len() && st.sig[k] == c.id;
            assert(st.sig[k] - context_lines <= c.id as int && c.id as int <= st.sig[k] + context_lines);
        }
        lemma_filter_implied(st.changes, keep, insig);
        assert(st.changes.len() <= usize::MAX + 1) by {
            if st.changes.len() > usize::MAX + 1 {
                assert(st.changes[usize::MAX + 1].id == usize::MAX + 1);
            }
        }
        lemma_sig_ids(st.changes, st.sig, st.changes.len() as int);
        lemma_sig_below(st.sig, st.changes.len() as int);
        assert(st.changes.take(st.changes.len() as int) =~= st.changes);
        let b = sig_below(st.sig, st.changes.len() as int);
        assert(b == st.sig.len()) by {
            if b < st.sig.len() {
                assert(st.sig[b] < st.next_id);
            }
        }
        assert(st.sig.take(b) =~= st.sig);
    }
}


/// Deleted lines less inserted lines, those still waiting included.
spec fn line_balance(st: ScanState) -> int {
    st.deletions + st.pend_del.len() - st.insertions - st.pend_ins.len()
}

proof fn lemma_scan_balance(
    h: Seq<(usize, usize, usize, usize)>,
    ol: Seq<Seq<char>>,
    nl: Seq<Seq<char>>,
    wl: bool,
    k: int,
)
    requires
        hunks_in_order(h, ol.len(), nl.len()),
        gaps_match(h, ol.len(), nl.len()),
        0 <= k <= h.len(),
    ensures
        line_balance(scan_upto(h, ol, nl, wl, k)) == if k == 0 { 0 } else { h[k - 1].1 - h[k - 1].3 },
    decreases k,
{
    if k > 0 {
        lemma_scan_balance(h, ol, nl, wl, k - 1);
        let st = scan_upto(h, ol, nl, wl, k - 1);
        assert(h[k - 1].0 <= h[k - 1].1 && h[k - 1].2 <= h[k - 1].3);
        if st.old_idx < h[k - 1].0 {
            assert(line_balance(flush_spec(st, wl)) == line_balance(st));
        }
    }
}

/// Unchanged lines are as many on both sides: the old text's lines less
/// the deleted ones equal the new text's lines less the inserted ones, for
/// a line diff whose unchanged lines pair up (as the line diff's `ensures`
/// states of its result) and any context or word-level setting.
pub proof fn law_unchanged_lines_match(
    old: Seq<char>,
    new: Seq<char>,
    ranges: Seq<(usize, usize, usize, usize)>,
    word_level: bool,
)
    requires
        hunks_in_order(ranges, text_lines(old).len(), text_lines(new).len()),
        gaps_match(ranges, text_lines(old).len(), text_lines(new).len()),
    ensures
        ({
            let st = scan_spec(ranges, text_lines(old), text_lines(new), word_level);
            text_lines(old).len() - st.deletions == text_lines(new).len() - st.insertions
        }),
{
    let ol = text_lines(old);
    let nl = text_lines(new);
    let n = ranges.len() as int;
    lemma_scan_balance(ranges, ol, nl, word_level, n);
    let st = scan_upto(ranges, ol, nl, word_level, n);
    let st1 = if st.old_idx < ol.len() {
        equal_lines_spec(flush_spec(st, word_level), ol, ol.len() as int)
    } else {
        st
    };
    assert(line_balance(flush_spec(st, word_level)) == line_balance(st));
    assert(line_balance(st1) == line_balance(st));
    let f = flush_spec(st1, word_level);
    assert(line_balance(f) == line_balance(st1));
    assert(f.pend_del.len() == 0 && f.pend_ins.len() == 0);
    if n > 0 {
        assert(ranges.last() == ranges[n - 1]);
    }
}


/// The change a hunk scan finds for an id.
spec fn lookup_change(cs: Seq<ChangeView>, id: usize) -> Option<ChangeView> {
    let m = id_index_map(cs, cs.len() as int);
    if !m.contains_key(id) || m[id] >= cs.len() { None } else { Some(cs[m[id] as int]) }
}

proof fn lemma_id_index_names(cs: Seq<ChangeView>, n: int, x: usize)
    requires
        0 <= n <= cs.len(),
        n <= usize::MAX + 1,
    ensures
        id_index_map(cs, n).contains_key(x) ==> id_index_map(cs, n)[x] < n && cs[id_index_map(cs, n)[x] as int].id == x,
        id_index_map(cs, n).contains_key(x) <==> exists|i: int| 0 <= i < n && cs[i].id == x,
    decreases n,
{
    if n > 0 {
        lemma_id_index_names(cs, n - 1, x);
        if cs[n - 1].id == x {
            assert(exists|i: int| 0 <= i < n && cs[i].id == x) by {
                assert(cs[n - 1].id == x);
            }
        } else if exists|i: int| 0 <= i < n && cs[i].id == x {
            let i = choose|i: int| 0 <= i < n && cs[i].id == x;
            assert(i < n - 1);
        }
    }
}

/// With rising ids, the change found for an id is the one with that id.
proof fn lemma_lookup_unique(cs: Seq<ChangeView>, x: usize, w: int)
    requires
        forall|i: int, j: int| 0 <= i < j < cs.len() ==> cs[i].id < cs[j].id,
        0 <= w < cs.len(),
        cs[w].id == x,
        cs.len() <= usize::MAX + 1,
    ensures
        lookup_change(cs, x) == Some(cs[w]),
{
    lemma_id_index_names(cs, cs.len() as int, x);
    let m = id_index_map(cs, cs.len() as int);
    assert(m.contains_key(x));
    let j = m[x] as int;
    if j < w {
        assert(cs[j].id < cs[w].id);
    } else if j > w {
        assert(cs[w].id < cs[j].id);
    }
}

proof fn lemma_hunk_upto_same(sig: Seq<usize>, a: Seq<ChangeView>, b: Seq<ChangeView>, k: int)
    requires
        0 <= k <= sig.len(),
        forall|i: int| 0 <= i < sig.len() ==> lookup_change(a, #[trigger] sig[i]) == lookup_change(b, sig[i]),
    ensures
        hunk_upto(sig, a, k) == hunk_upto(sig, b, k),
    decreases k,
{
    if k > 0 {
        lemma_hunk_upto_same(sig, a, b, k - 1);
        assert(lookup_change(a, sig[k - 1]) == lookup_change(b, sig[k - 1]));
        let st = hunk_upto(sig, a, k - 1);
        assert(hunk_step(st, sig[k - 1], a) == hunk_step(st, sig[k - 1], b));
    }
}

/// The hunks do not depend on the context kept: under any context setting
/// a diff has the hunks it has with all context kept (the scan being well
/// formed, as the engine's `ensures` states for every input it takes).
pub proof fn law_context_keeps_hunks(
    old: Seq<char>,
    new: Seq<char>,
    ranges: Seq<(usize, usize, usize, usize)>,
    context_lines: usize,
    word_level: bool,
)
    requires
        scan_wf(scan_spec(ranges, text_lines(old), text_lines(new), word_level)),
    ensures
        diff_model(old, new, ranges, context_lines, word_level).hunks == diff_model(old, new, ranges, usize::MAX, word_level).hunks,
{
    law_context_keeps_significant_changes(old, new, ranges, context_lines, word_level);
    let st = scan_spec(ranges, text_lines(old), text_lines(new), word_level);
    if context_lines != usize::MAX {
        let keep = |c: ChangeView| in_context(c.id as int, st.sig, context_lines);
        let kept = st.changes.filter(keep);
        assert(forall|i: int, j: int| 0 <= i < j < st.changes.len() ==> st.changes[i].id < st.changes[j].id);
        lemma_filter_keeps_rising(st.changes, keep);
        assert(st.changes.len() <= usize::MAX + 1) by {
            if st.changes.len() > usize::MAX + 1 {
                assert(st.changes[usize::MAX + 1].id == usize::MAX + 1);
            }
        }
        st.changes.lemma_filter_len(keep);
        assert forall|i: int| 0 <= i < st.sig.len() implies lookup_change(kept, #[trigger] st.sig[i]) == lookup_change(st.changes, st.sig[i]) by {
            let x = st.sig[i];
            let w = x as int;
            assert(st.changes[w].id == x);
            lemma_lookup_unique(st.changes, x, w);
            assert(keep(st.changes[w])) by {
                assert(st.sig[i] - context_lines <= w && w <= st.sig[i] + context_lines);
            }
            st.changes.lemma_filter_contains(keep, w);
            let j = choose|j: int| 0 <= j < kept.len() && kept[j] == st.changes[w];
            lemma_lookup_unique(kept, x, j);
        }
        lemma_hunk_upto_same(st.sig, kept, st.changes, st.sig.len() as int);
    }
}

} // verus!

verus! {

// ---------------------------------------------------------------------
// What the changes show of the two texts
// ---------------------------------------------------------------------

/// What a span shows of the old text: nothing for an insertion, else its
/// text.
pub open spec fn span_old_text(s: SpanView) -> Seq<char> {
    match s.kind {
        ChangeKind::Insert => Seq::empty(),
        _ => s.text,
    }
}

/// What a span shows of the new text: nothing for a deletion, the new text
/// of a replacement, else its text.
pub open spec fn span_new_text(s: SpanView) -> Seq<char> {
    match s.kind {
        ChangeKind::Delete => Seq::empty(),
        ChangeKind::Replace => match s.new_text {
            Some(t) => t,
            None => Seq::empty(),
        },
        _ => s.text,
    }
}

/// The old text of a change's spans, laid end to end.
pub open spec fn spans_old_text(sp: Seq<SpanView>) -> Seq<char> {
    sp.map_values(|s: SpanView| span_old_text(s)).flatten()
}

/// The new text of a change's spans, laid end to end.
pub open spec fn spans_new_text(sp: Seq<SpanView>) -> Seq<char> {
    sp.map_values(|s: SpanView| span_new_text(s)).flatten()
}

/// A change is a line of the old text when each of its spans has an old
/// line number (so all but a line-level insertion).
pub open spec fn on_old_side(c: ChangeView) -> bool {
    forall|j: int| 0 <= j < c.spans.len() ==> (#[trigger] c.spans[j]).old_line is Some
}

/// A change is a line of the new text when each of its spans has a new
/// line number (so all but a line-level deletion).
pub open spec fn on_new_side(c: ChangeView) -> bool {
    forall|j: int| 0 <= j < c.spans.len() ==> (#[trigger] c.spans[j]).new_line is Some
}

/// The old text's lines as the changes show them.
pub open spec fn old_lines_of(cs: Seq<ChangeView>) -> Seq<Seq<char>> {
    cs.filter(|c: ChangeView| on_old_side(c)).map_values(|c: ChangeView| spans_old_text(c.spans))
}

/// The new text's lines as the changes show them.
pub open spec fn new_lines_of(cs: Seq<ChangeView>) -> Seq<Seq<char>> {
    cs.filter(|c: ChangeView| on_new_side(c)).map_values(|c: ChangeView| spans_new_text(c.spans))
}

/// The token diff of two lines pairs their tokens as a diff should: its
/// hunks lie in order, and the tokens outside them pair up and are equal
/// (what the token diff's `ensures` states of its result).
pub open spec fn tokens_align(o: Seq<char>, n: Seq<char>) -> bool {
    let ot = tokenize_spec(o);
    let nt = tokenize_spec(n);
    let h = token_diff_hunks(ot, nt);
    &&& hunks_in_order(h, ot.len(), nt.len())
    &&& gaps_match(h, ot.len(), nt.len())
    &&& unchanged_pair_up(h, ot, nt)
}

/// A flush that pairs waiting lines into word-level changes pairs lines
/// whose token diffs align.
pub open spec fn flush_aligned(st: ScanState, word_level: bool) -> bool {
    word_level && st.pend_del.len() == st.pend_ins.len() ==> forall|i: int|
        0 <= i < st.pend_del.len() ==> #[trigger] tokens_align(st.pend_del[i].0, st.pend_ins[i].0)
}

/// Every flush of the scan's first `k` hunks paired aligned lines.
pub open spec fn scan_aligned_upto(
    h: Seq<(usize, usize, usize, usize)>,
    ol: Seq<Seq<char>>,
    nl: Seq<Seq<char>>,
    word_level: bool,
    k: int,
) -> bool
    decreases k,
{
    if k <= 0 {
        true
    } else {
        let st = scan_upto(h, ol, nl, word_level, k - 1);
        &&& scan_aligned_upto(h, ol, nl, word_level, k - 1)
        &&& st.old_idx < h[k - 1].0 ==> flush_aligned(st, word_level)
    }
}

/// Every flush of the whole scan paired aligned lines.
pub open spec fn scan_aligned(
    h: Seq<(usize, usize, usize, usize)>,
    ol: Seq<Seq<char>>,
    nl: Seq<Seq<char>>,
    word_level: bool,
) -> bool {
    let st = scan_upto(h, ol, nl, word_level, h.len() as int);
    let st1 = if st.old_idx < ol.len() {
        equal_lines_spec(flush_spec(st, word_level), ol, ol.len() as int)
    } else {
        st
    };
    &&& scan_aligned_upto(h, ol, nl, word_level, h.len() as int)
    &&& st.old_idx < ol.len() ==> flush_aligned(st, word_level)
    &&& flush_aligned(st1, word_level)
}

/// Flattening a sequence of empty sequences gives the empty sequence.
proof fn lemma_flatten_empties<A>(ss: Seq<Seq<A>>)
    requires
        forall|i: int| 0 <= i < ss.len() ==> (#[trigger] ss[i]).len() == 0,
    ensures
        ss.flatten() =~= Seq::<A>::empty(),
    decreases ss.len(),
{
    if ss.len() > 0 {
        lemma_flatten_empties(ss.drop_first());
    }
}

/// Adjacent pieces of a sequence of sequences flatten to the flattened
/// whole.
proof fn lemma_flatten_pieces<A>(t: Seq<Seq<A>>, a: int, b: int, c: int)
    requires
        0 <= a <= b <= c <= t.len(),
    ensures
        t.subrange(a, b).flatten() + t.subrange(b, c).flatten() == t.subrange(a, c).flatten(),
{
    vstd::seq_lib::lemma_flatten_concat(t.subrange(a, b), t.subrange(b, c));
    assert(t.subrange(a, b) + t.subrange(b, c) =~= t.subrange(a, c));
}

/// The texts of spans laid end to end split where the spans split.
proof fn lemma_spans_text_concat(a: Seq<SpanView>, b: Seq<SpanView>)
    ensures
        spans_old_text(a + b) == spans_old_text(a) + spans_old_text(b),
        spans_new_text(a + b) == spans_new_text(a) + spans_new_text(b),
{
    let fo = |s: SpanView| span_old_text(s);
    let fnw = |s: SpanView| span_new_text(s);
    assert((a + b).map_values(fo) =~= a.map_values(fo) + b.map_values(fo));
    assert((a + b).map_values(fnw) =~= a.map_values(fnw) + b.map_values(fnw));
    vstd::seq_lib::lemma_flatten_concat(a.map_values(fo), b.map_values(fo));
    vstd::seq_lib::lemma_flatten_concat(a.map_values(fnw), b.map_values(fnw));
}

/// What a run of token spans shows of each text.
proof fn lemma_run_text(kind: ChangeKind, t: Seq<Seq<char>>, from: int, to: int, ol: usize, nl: usize)
    requires
        0 <= from <= to <= t.len(),
        kind != ChangeKind::Replace,
    ensures
        spans_old_text(token_run(kind, t, from, to, ol, nl)) == if kind == ChangeKind::Insert {
            Seq::<char>::empty()
        } else {
            t.subrange(from, to).flatten()
        },
        spans_new_text(token_run(kind, t, from, to, ol, nl)) == if kind == ChangeKind::Delete {
            Seq::<char>::empty()
        } else {
            t.subrange(from, to).flatten()
        },
{
    let r = token_run(kind, t, from, to, ol, nl);
    let mo = r.map_values(|s: SpanView| span_old_text(s));
    let mn = r.map_values(|s: SpanView| span_new_text(s));
    if kind == ChangeKind::Insert {
        lemma_flatten_empties(mo);
        assert(mn =~= t.subrange(from, to));
    } else if kind == ChangeKind::Delete {
        lemma_flatten_empties(mn);
        assert(mo =~= t.subrange(from, to));
    } else {
        assert(mo =~= t.subrange(from, to));
        assert(mn =~= t.subrange(from, to));
    }
}

/// The word spans of the first `k` hunks show the old tokens up to the end
/// of hunk `k - 1` and the new tokens up to the end of its new side, and
/// every span lies on both lines.
proof fn lemma_word_spans_upto(
    ot: Seq<Seq<char>>,
    nt: Seq<Seq<char>>,
    h: Seq<(usize, usize, usize, usize)>,
    ol: usize,
    nl: usize,
    k: int,
)
    requires
        hunks_in_order(h, ot.len(), nt.len()),
        gaps_match(h, ot.len(), nt.len()),
        unchanged_pair_up(h, ot, nt),
        0 <= k <= h.len(),
    ensures
        ({
            let (sp, oi) = word_spans_upto(ot, nt, h, ol, nl, k);
            &&& oi == gap_start_old(h, k)
            &&& spans_old_text(sp) == ot.subrange(0, oi).flatten()
            &&& spans_new_text(sp) == nt.subrange(0, gap_start_new(h, k)).flatten()
            &&& forall|j: int| 0 <= j < sp.len() ==> (#[trigger] sp[j]).old_line == Some(ol) && sp[j].new_line == Some(nl)
        }),
    decreases k,
{
    if k == 0 {
        assert(ot.subrange(0, 0) =~= Seq::<Seq<char>>::empty());
        assert(nt.subrange(0, 0) =~= Seq::<Seq<char>>::empty());
        assert(spans_old_text(Seq::empty()) =~= Seq::<char>::empty());
        assert(spans_new_text(Seq::empty()) =~= Seq::<char>::empty());
    } else {
        lemma_word_spans_upto(ot, nt, h, ol, nl, k - 1);
        let (sp, oi) = word_spans_upto(ot, nt, h, ol, nl, k - 1);
        let hk = h[k - 1];
        let ns = gap_start_new(h, k - 1);
        assert(hk.0 <= hk.1 <= ot.len() && hk.2 <= hk.3 <= nt.len());
        if k - 1 > 0 {
            assert(hk.0 >= h[k - 2].1 && hk.2 >= h[k - 2].3);
        }
        let e = token_run(ChangeKind::Equal, ot, oi, hk.0 as int, ol, nl);
        let d = token_run(ChangeKind::Delete, ot, hk.0 as int, hk.1 as int, ol, nl);
        let ins = token_run(ChangeKind::Insert, nt, hk.2 as int, hk.3 as int, ol, nl);
        lemma_run_text(ChangeKind::Equal, ot, oi, hk.0 as int, ol, nl);
        lemma_run_text(ChangeKind::Delete, ot, hk.0 as int, hk.1 as int, ol, nl);
        lemma_run_text(ChangeKind::Insert, nt, hk.2 as int, hk.3 as int, ol, nl);
        lemma_spans_text_concat(sp, e);
        lemma_spans_text_concat(sp + e, d);
        lemma_spans_text_concat(sp + e + d, ins);
        lemma_flatten_pieces(ot, 0, oi, hk.0 as int);
        lemma_flatten_pieces(ot, 0, hk.0 as int, hk.1 as int);
        assert(gap_pairs(h, ot, nt, k - 1));
        assert(gap_end_old(h, k - 1, ot.len() as int) == hk.0);
        assert(hk.0 - oi == hk.2 - ns);
        assert(ot.subrange(oi, hk.0 as int) =~= nt.subrange(ns, hk.2 as int));
        lemma_flatten_pieces(nt, 0, ns, hk.2 as int);
        lemma_flatten_pieces(nt, 0, hk.2 as int, hk.3 as int);
        assert(Seq::<char>::empty() + nt.subrange(hk.2 as int, hk.3 as int).flatten() =~= nt.subrange(
            hk.2 as int,
            hk.3 as int,
        ).flatten());
        assert(ot.subrange(hk.0 as int, hk.1 as int).flatten() + Seq::<char>::empty() =~= ot.subrange(
            hk.0 as int,
            hk.1 as int,
        ).flatten());
        let sp2 = sp + e + d + ins;
        assert forall|j: int| 0 <= j < sp2.len() implies (#[trigger] sp2[j]).old_line == Some(ol) && sp2[j].new_line
            == Some(nl) by {
            if j < sp.len() {
                assert(sp2[j] == sp[j]);
            } else if j < sp.len() + e.len() {
                assert(sp2[j] == e[j - sp.len()]);
            } else if j < sp.len() + e.len() + d.len() {
                assert(sp2[j] == d[j - sp.len() - e.len()]);
            } else {
                assert(sp2[j] == ins[j - sp.len() - e.len() - d.len()]);
            }
        }
    }
}

/// A word-level change of aligned lines shows the old line on the old
/// side and the new line on the new side, and lies on both.
proof fn lemma_word_change_sides(o: Seq<char>, n: Seq<char>, ol: usize, nl: usize)
    requires
        tokens_align(o, n),
    ensures
        ({
            let sp = word_diff_spec(o, n, ol, nl);
            &&& spans_old_text(sp) == o
            &&& spans_new_text(sp) == n
            &&& forall|j: int| 0 <= j < sp.len() ==> (#[trigger] sp[j]).old_line == Some(ol) && sp[j].new_line == Some(nl)
        }),
{
    let ot = tokenize_spec(o);
    let nt = tokenize_spec(n);
    let h = token_diff_hunks(ot, nt);
    lemma_tokenize_partitions(o);
    lemma_tokenize_partitions(n);
    let k = h.len() as int;
    lemma_word_spans_upto(ot, nt, h, ol, nl, k);
    let (sp, oi) = word_spans_upto(ot, nt, h, ol, nl, k);
    let ns = gap_start_new(h, k);
    if k > 0 {
        assert(h[k - 1].0 <= h[k - 1].1 <= ot.len() && h[k - 1].2 <= h[k - 1].3 <= nt.len());
        assert(h.last() == h[k - 1]);
    }
    let e = token_run(ChangeKind::Equal, ot, oi, ot.len() as int, ol, nl);
    lemma_run_text(ChangeKind::Equal, ot, oi, ot.len() as int, ol, nl);
    lemma_spans_text_concat(sp, e);
    lemma_flatten_pieces(ot, 0, oi, ot.len() as int);
    assert(gap_pairs(h, ot, nt, k));
    assert(ot.len() - oi == nt.len() - ns);
    assert(ot.subrange(oi, ot.len() as int) =~= nt.subrange(ns, nt.len() as int));
    lemma_flatten_pieces(nt, 0, ns, nt.len() as int);
    assert(ot.subrange(0, ot.len() as int) =~= ot);
    assert(nt.subrange(0, nt.len() as int) =~= nt);
    let sp2 = sp + e;
    assert forall|j: int| 0 <= j < sp2.len() implies (#[trigger] sp2[j]).old_line == Some(ol) && sp2[j].new_line == Some(
        nl,
    ) by {
        if j < sp.len() {
            assert(sp2[j] == sp[j]);
        } else {
            assert(sp2[j] == e[j - sp.len()]);
        }
    }
}

/// A filter that every element passes keeps the whole sequence.
proof fn lemma_filter_keeps_all<A>(s: Seq<A>, p: spec_fn(A) -> bool)
    requires
        forall|i: int| 0 <= i < s.len() ==> p(#[trigger] s[i]),
    ensures
        s.filter(p) == s,
    decreases s.len(),
{
    reveal(Seq::filter);
    if s.len() > 0 {
        lemma_filter_keeps_all(s.drop_last(), p);
        assert(p(s[s.len() - 1]));
        assert(s.drop_last().push(s.last()) =~= s);
    }
}

/// The lines the changes show split where the changes split.
proof fn lemma_lines_of_concat(a: Seq<ChangeView>, b: Seq<ChangeView>)
    ensures
        old_lines_of(a + b) == old_lines_of(a) + old_lines_of(b),
        new_lines_of(a + b) == new_lines_of(a) + new_lines_of(b),
{
    let po = |c: ChangeView| on_old_side(c);
    let pn = |c: ChangeView| on_new_side(c);
    let fo = |c: ChangeView| spans_old_text(c.spans);
    let fnw = |c: ChangeView| spans_new_text(c.spans);
    Seq::filter_distributes_over_add(a, b, po);
    Seq::filter_distributes_over_add(a, b, pn);
    assert((a.filter(po) + b.filter(po)).map_values(fo) =~= a.filter(po).map_values(fo) + b.filter(po).map_values(fo));
    assert((a.filter(pn) + b.filter(pn)).map_values(fnw) =~= a.filter(pn).map_values(fnw) + b.filter(pn).map_values(
        fnw,
    ));
}

/// The texts of the waiting lines.
pub open spec fn pend_texts(p: Seq<(Seq<char>, usize)>) -> Seq<Seq<char>> {
    p.map_values(|x: (Seq<char>, usize)| x.0)
}

/// The scan has shown the old lines before its old position, and the new
/// lines before its new position, counting the waiting lines.
pub open spec fn rebuild_inv(st: ScanState, ol: Seq<Seq<char>>, nl: Seq<Seq<char>>) -> bool {
    &&& 0 <= st.old_idx <= ol.len()
    &&& 1 <= st.new_ln <= nl.len() + 1
    &&& old_lines_of(st.changes) + pend_texts(st.pend_del) == ol.subrange(0, st.old_idx)
    &&& new_lines_of(st.changes) + pend_texts(st.pend_ins) == nl.subrange(0, st.new_ln - 1)
}

/// A change of one span shows that span's texts.
proof fn lemma_one_span_texts(s: SpanView)
    ensures
        spans_old_text(seq![s]) == span_old_text(s),
        spans_new_text(seq![s]) == span_new_text(s),
{
    let mo = seq![s].map_values(|x: SpanView| span_old_text(x));
    let mn = seq![s].map_values(|x: SpanView| span_new_text(x));
    mo.lemma_flatten_one_element();
    mn.lemma_flatten_one_element();
}

/// Emitting the waiting lines keeps the shown lines in step with the
/// texts, when a word-level pairing pairs aligned lines.
proof fn lemma_flush_rebuild(st: ScanState, wl: bool, ol: Seq<Seq<char>>, nl: Seq<Seq<char>>)
    requires
        rebuild_inv(st, ol, nl),
        flush_aligned(st, wl),
    ensures
        rebuild_inv(flush_spec(st, wl), ol, nl),
{
    let nd = st.pend_del.len() as int;
    let ni = st.pend_ins.len() as int;
    let f = flush_spec(st, wl);
    let po = |c: ChangeView| on_old_side(c);
    let pn = |c: ChangeView| on_new_side(c);
    if nd == 0 && ni == 0 {
    } else if wl && nd == ni {
        let w = Seq::new(
            nd as nat,
            |i: int|
                ChangeView {
                    id: (st.next_id + i) as usize,
                    spans: word_diff_spec(st.pend_del[i].0, st.pend_ins[i].0, st.pend_del[i].1, st.pend_ins[i].1),
                },
        );
        assert(f.changes == st.changes + w);
        assert forall|i: int| 0 <= i < w.len() implies on_old_side(#[trigger] w[i]) && on_new_side(w[i])
            && spans_old_text(w[i].spans) == st.pend_del[i].0 && spans_new_text(w[i].spans) == st.pend_ins[i].0 by {
            assert(tokens_align(st.pend_del[i].0, st.pend_ins[i].0));
            lemma_word_change_sides(st.pend_del[i].0, st.pend_ins[i].0, st.pend_del[i].1, st.pend_ins[i].1);
        }
        lemma_filter_keeps_all(w, po);
        lemma_filter_keeps_all(w, pn);
        lemma_lines_of_concat(st.changes, w);
        assert(old_lines_of(w) =~= pend_texts(st.pend_del));
        assert(new_lines_of(w) =~= pend_texts(st.pend_ins));
        assert(pend_texts(f.pend_del) =~= Seq::<Seq<char>>::empty());
        assert(pend_texts(f.pend_ins) =~= Seq::<Seq<char>>::empty());
        assert(old_lines_of(f.changes) + pend_texts(f.pend_del) =~= old_lines_of(st.changes) + pend_texts(st.pend_del));
        assert(new_lines_of(f.changes) + pend_texts(f.pend_ins) =~= new_lines_of(st.changes) + pend_texts(st.pend_ins));
    } else {
        let a = Seq::new(
            nd as nat,
            |i: int| single_change(st.next_id + i, ChangeKind::Delete, st.pend_del[i].0, Some(st.pend_del[i].1), None),
        );
        let b = Seq::new(
            ni as nat,
            |j: int|
                single_change(st.next_id + nd + j, ChangeKind::Insert, st.pend_ins[j].0, None, Some(st.pend_ins[j].1)),
        );
        assert(f.changes == st.changes + a + b);
        assert forall|i: int| 0 <= i < a.len() implies on_old_side(#[trigger] a[i]) && !on_new_side(a[i])
            && spans_old_text(a[i].spans) == st.pend_del[i].0 by {
            lemma_one_span_texts(a[i].spans[0]);
            assert(a[i].spans =~= seq![a[i].spans[0]]);
        }
        assert forall|j: int| 0 <= j < b.len() implies !on_old_side(#[trigger] b[j]) && on_new_side(b[j])
            && spans_new_text(b[j].spans) == st.pend_ins[j].0 by {
            lemma_one_span_texts(b[j].spans[0]);
            assert(b[j].spans =~= seq![b[j].spans[0]]);
        }
        lemma_filter_keeps_all(a, po);
        lemma_filter_keeps_all(b, pn);
        assert(a.all(|x: ChangeView| !pn(x)));
        assert(b.all(|x: ChangeView| !po(x)));
        a.lemma_all_neg_filter_empty(pn);
        b.lemma_all_neg_filter_empty(po);
        lemma_lines_of_concat(st.changes, a);
        lemma_lines_of_concat(st.changes + a, b);
        assert(old_lines_of(a) =~= pend_texts(st.pend_del));
        assert(new_lines_of(b) =~= pend_texts(st.pend_ins));
        assert(old_lines_of(b) =~= Seq::<Seq<char>>::empty());
        assert(new_lines_of(a) =~= Seq::<Seq<char>>::empty());
        assert(pend_texts(f.pend_del) =~= Seq::<Seq<char>>::empty());
        assert(pend_texts(f.pend_ins) =~= Seq::<Seq<char>>::empty());
        assert(old_lines_of(f.changes) + pend_texts(f.pend_del) =~= old_lines_of(st.changes) + pend_texts(st.pend_del));
        assert(new_lines_of(f.changes) + pend_texts(f.pend_ins) =~= new_lines_of(st.changes) + pend_texts(st.pend_ins));
    }
}

/// Emitting unchanged lines, equal on both sides, keeps the shown lines in
/// step with the texts.
proof fn lemma_equal_rebuild(st: ScanState, ol: Seq<Seq<char>>, nl: Seq<Seq<char>>, to: int)
    requires
        rebuild_inv(st, ol, nl),
        st.pend_del.len() == 0,
        st.pend_ins.len() == 0,
        st.old_idx <= to <= ol.len(),
        st.new_ln - 1 + (to - st.old_idx) <= nl.len(),
        forall|i: int| st.old_idx <= i < to ==> #[trigger] ol[i] == nl[st.new_ln - 1 + (i - st.old_idx)],
    ensures
        rebuild_inv(equal_lines_spec(st, ol, to), ol, nl),
{
    let cnt = to - st.old_idx;
    let e = Seq::new(
        cnt as nat,
        |i: int|
            single_change(
                st.next_id + i,
                ChangeKind::Equal,
                line_at(ol, st.old_idx + i),
                Some((st.old_ln + i) as usize),
                Some((st.new_ln + i) as usize),
            ),
    );
    let f = equal_lines_spec(st, ol, to);
    assert(f.changes == st.changes + e);
    let po = |c: ChangeView| on_old_side(c);
    let pn = |c: ChangeView| on_new_side(c);
    assert forall|i: int| 0 <= i < e.len() implies on_old_side(#[trigger] e[i]) && on_new_side(e[i])
        && spans_old_text(e[i].spans) == ol[st.old_idx + i] && spans_new_text(e[i].spans) == ol[st.old_idx + i] by {
        lemma_one_span_texts(e[i].spans[0]);
        assert(e[i].spans =~= seq![e[i].spans[0]]);
    }
    lemma_filter_keeps_all(e, po);
    lemma_filter_keeps_all(e, pn);
    lemma_lines_of_concat(st.changes, e);
    assert(pend_texts(st.pend_del) =~= Seq::<Seq<char>>::empty());
    assert(pend_texts(st.pend_ins) =~= Seq::<Seq<char>>::empty());
    assert(old_lines_of(e) =~= ol.subrange(st.old_idx, to));
    assert forall|i: int| 0 <= i < cnt implies #[trigger] new_lines_of(e)[i] == nl[st.new_ln - 1 + i] by {
        assert(ol[st.old_idx + i] == nl[st.new_ln - 1 + (st.old_idx + i - st.old_idx)]);
    }
    assert(new_lines_of(e) =~= nl.subrange(st.new_ln - 1, st.new_ln - 1 + cnt));
    assert(old_lines_of(st.changes) =~= ol.subrange(0, st.old_idx));
    assert(new_lines_of(st.changes) =~= nl.subrange(0, st.new_ln - 1));
    assert(old_lines_of(f.changes) + pend_texts(f.pend_del) =~= ol.subrange(0, to));
    assert(new_lines_of(f.changes) + pend_texts(f.pend_ins) =~= nl.subrange(0, f.new_ln - 1));
}

/// The scan's step on a hunk keeps the shown lines in step with the texts
/// and moves both positions to the hunk's ends, when the unchanged lines
/// before the hunk pair up equal.
proof fn lemma_range_step_rebuild(
    st: ScanState,
    hk: (usize, usize, usize, usize),
    ol: Seq<Seq<char>>,
    nl: Seq<Seq<char>>,
    wl: bool,
)
    requires
        rebuild_inv(st, ol, nl),
        st.old_idx <= hk.0 <= hk.1 <= ol.len(),
        st.new_ln - 1 <= hk.2 <= hk.3 <= nl.len(),
        hk.0 - st.old_idx == hk.2 - (st.new_ln - 1),
        forall|i: int| st.old_idx <= i < hk.0 ==> #[trigger] ol[i] == nl[st.new_ln - 1 + (i - st.old_idx)],
        st.old_idx < hk.0 ==> flush_aligned(st, wl),
    ensures
        ({
            let st2 = range_step(st, hk, ol, nl, wl);
            &&& st2.old_idx == hk.1
            &&& st2.new_ln - 1 == hk.3
            &&& rebuild_inv(st2, ol, nl)
        }),
{
    let st1 = if st.old_idx < hk.0 {
        equal_lines_spec(flush_spec(st, wl), ol, hk.0 as int)
    } else {
        st
    };
    if st.old_idx < hk.0 {
        lemma_flush_rebuild(st, wl, ol, nl);
        lemma_equal_rebuild(flush_spec(st, wl), ol, nl, hk.0 as int);
    }
    assert(st1.old_idx == hk.0);
    assert(st1.new_ln - 1 == hk.2);
    let nd = hk.1 - hk.0;
    let ni = hk.3 - hk.2;
    let st2 = range_step(st, hk, ol, nl, wl);
    let dels = Seq::new(nd as nat, |i: int| (line_at(ol, hk.0 + i), (st1.old_ln + i) as usize));
    let inss = Seq::new(ni as nat, |j: int| (line_at(nl, hk.2 + j), (st1.new_ln + j) as usize));
    assert(st2.pend_del == st1.pend_del + dels);
    assert(st2.pend_ins == st1.pend_ins + inss);
    assert(st2.changes == st1.changes);
    assert(pend_texts(st1.pend_del + dels) =~= pend_texts(st1.pend_del) + ol.subrange(hk.0 as int, hk.1 as int));
    assert(pend_texts(st1.pend_ins + inss) =~= pend_texts(st1.pend_ins) + nl.subrange(hk.2 as int, hk.3 as int));
    assert(ol.subrange(0, hk.0 as int) + ol.subrange(hk.0 as int, hk.1 as int) =~= ol.subrange(0, hk.1 as int));
    assert(nl.subrange(0, hk.2 as int) + nl.subrange(hk.2 as int, hk.3 as int) =~= nl.subrange(0, hk.3 as int));
    assert(old_lines_of(st2.changes) + pend_texts(st2.pend_del) =~= ol.subrange(0, hk.1 as int));
    assert(new_lines_of(st2.changes) + pend_texts(st2.pend_ins) =~= nl.subrange(0, hk.3 as int));
}

/// After the first `k` hunks the scan stands at the end of hunk `k - 1` on
/// both sides, and has shown (or holds waiting) exactly the lines before.
proof fn lemma_scan_upto_rebuild(
    h: Seq<(usize, usize, usize, usize)>,
    ol: Seq<Seq<char>>,
    nl: Seq<Seq<char>>,
    wl: bool,
    k: int,
)
    requires
        hunks_in_order(h, ol.len(), nl.len()),
        gaps_match(h, ol.len(), nl.len()),
        unchanged_pair_up(h, ol, nl),
        scan_aligned_upto(h, ol, nl, wl, k),
        0 <= k <= h.len(),
    ensures
        ({
            let st = scan_upto(h, ol, nl, wl, k);
            &&& st.old_idx == gap_start_old(h, k)
            &&& st.new_ln - 1 == gap_start_new(h, k)
            &&& rebuild_inv(st, ol, nl)
        }),
    decreases k,
{
    if k == 0 {
        let st = scan_init();
        assert(old_lines_of(st.changes) =~= Seq::<Seq<char>>::empty()) by {
            reveal(Seq::filter);
        }
        assert(new_lines_of(st.changes) =~= Seq::<Seq<char>>::empty()) by {
            reveal(Seq::filter);
        }
        assert(pend_texts(st.pend_del) =~= Seq::<Seq<char>>::empty());
        assert(pend_texts(st.pend_ins) =~= Seq::<Seq<char>>::empty());
        assert(ol.subrange(0, 0) =~= Seq::<Seq<char>>::empty());
        assert(nl.subrange(0, 0) =~= Seq::<Seq<char>>::empty());
    } else {
        lemma_scan_upto_rebuild(h, ol, nl, wl, k - 1);
        let st = scan_upto(h, ol, nl, wl, k - 1);
        let hk = h[k - 1];
        assert(hk.0 <= hk.1 <= ol.len() && hk.2 <= hk.3 <= nl.len());
        if k - 1 > 0 {
            assert(hk.0 >= h[k - 2].1 && hk.2 >= h[k - 2].3);
        }
        assert(gap_pairs(h, ol, nl, k - 1));
        assert(gap_end_old(h, k - 1, ol.len() as int) == hk.0);
        lemma_range_step_rebuild(st, hk, ol, nl, wl);
        assert(scan_upto(h, ol, nl, wl, k) == range_step(st, hk, ol, nl, wl));
    }
}

/// The end of the scan: the remaining old lines, paired equal with the
/// remaining new lines, and the last waiting lines are emitted, after which
/// the changes show both texts whole.
proof fn lemma_finish_rebuild(st: ScanState, ol: Seq<Seq<char>>, nl: Seq<Seq<char>>, wl: bool)
    requires
        rebuild_inv(st, ol, nl),
        st.new_ln - 1 + (ol.len() - st.old_idx) == nl.len(),
        forall|i: int| st.old_idx <= i < ol.len() ==> #[trigger] ol[i] == nl[st.new_ln - 1 + (i - st.old_idx)],
        st.old_idx < ol.len() ==> flush_aligned(st, wl),
        flush_aligned(
            if st.old_idx < ol.len() {
                equal_lines_spec(flush_spec(st, wl), ol, ol.len() as int)
            } else {
                st
            },
            wl,
        ),
    ensures
        ({
            let st1 = if st.old_idx < ol.len() {
                equal_lines_spec(flush_spec(st, wl), ol, ol.len() as int)
            } else {
                st
            };
            &&& old_lines_of(flush_spec(st1, wl).changes) == ol
            &&& new_lines_of(flush_spec(st1, wl).changes) == nl
        }),
{
    let st1 = if st.old_idx < ol.len() {
        equal_lines_spec(flush_spec(st, wl), ol, ol.len() as int)
    } else {
        st
    };
    if st.old_idx < ol.len() {
        lemma_flush_rebuild(st, wl, ol, nl);
        lemma_equal_rebuild(flush_spec(st, wl), ol, nl, ol.len() as int);
    }
    assert(st1.old_idx == ol.len());
    assert(st1.new_ln - 1 == nl.len());
    lemma_flush_rebuild(st1, wl, ol, nl);
    let f = flush_spec(st1, wl);
    assert(pend_texts(f.pend_del) =~= Seq::<Seq<char>>::empty());
    assert(pend_texts(f.pend_ins) =~= Seq::<Seq<char>>::empty());
    assert(old_lines_of(f.changes) + pend_texts(f.pend_del) =~= old_lines_of(f.changes));
    assert(new_lines_of(f.changes) + pend_texts(f.pend_ins) =~= new_lines_of(f.changes));
    assert(ol.subrange(0, ol.len() as int) =~= ol);
    assert(nl.subrange(0, nl.len() as int) =~= nl);
}

/// Changes rebuild both texts: with all context kept, the changes that lie
/// on the old text show, in order, exactly the old text's lines (an
/// unchanged line, a deleted line, or the old side of a modified line), and
/// those that lie on the new text show exactly the new text's lines. This
/// holds of a line diff whose hunks lie in order and whose unchanged lines
/// pair up equal, when each modified line's token diff pairs its tokens in
/// the same way: what the line and token diffs' `ensures` state of their
/// results, and what `diff_strings` and `diff_from_ranges` state of the
/// scan.
pub proof fn law_changes_rebuild_texts(
    old: Seq<char>,
    new: Seq<char>,
    ranges: Seq<(usize, usize, usize, usize)>,
    word_level: bool,
)
    requires
        hunks_in_order(ranges, text_lines(old).len(), text_lines(new).len()),
        gaps_match(ranges, text_lines(old).len(), text_lines(new).len()),
        unchanged_pair_up(ranges, text_lines(old), text_lines(new)),
        scan_aligned(ranges, text_lines(old), text_lines(new), word_level),
    ensures
        ({
            let d = diff_model(old, new, ranges, usize::MAX, word_level);
            &&& old_lines_of(d.changes) == text_lines(old)
            &&& new_lines_of(d.changes) == text_lines(new)
        }),
{
    let ol = text_lines(old);
    let nl = text_lines(new);
    let n = ranges.len() as int;
    lemma_scan_upto_rebuild(ranges, ol, nl, word_level, n);
    let st = scan_upto(ranges, ol, nl, word_level, n);
    if n > 0 {
        assert(ranges.last() == ranges[n - 1]);
        assert(ranges[n - 1].0 <= ranges[n - 1].1 <= ol.len() && ranges[n - 1].2 <= ranges[n - 1].3 <= nl.len());
    }
    assert(gap_pairs(ranges, ol, nl, n));
    assert(gap_end_old(ranges, n, ol.len() as int) == ol.len());
    lemma_finish_rebuild(st, ol, nl, word_level);
}

/// A diff whose line diff has a hunk, none of them empty, has a
/// significant change: the last hunk's lines wait at the end of the scan,
/// and the final emission makes at least one change of them.
proof fn lemma_hunks_give_change(h: Seq<(usize, usize, usize, usize)>, ol: Seq<Seq<char>>, nl: Seq<Seq<char>>, wl: bool)
    requires
        h.len() > 0,
        forall|k: int| 0 <= k < h.len() ==> (#[trigger] h[k]).0 < h[k].1 || h[k].2 < h[k].3,
    ensures
        scan_spec(h, ol, nl, wl).sig.len() > 0,
{
    let n = h.len() as int;
    let st = scan_upto(h, ol, nl, wl, n);
    assert(st == range_step(scan_upto(h, ol, nl, wl, n - 1), h[n - 1], ol, nl, wl));
    assert(h[n - 1].0 < h[n - 1].1 || h[n - 1].2 < h[n - 1].3);
    assert(st.pend_del.len() + st.pend_ins.len() > 0);
    let st1 = if st.old_idx < ol.len() {
        equal_lines_spec(flush_spec(st, wl), ol, ol.len() as int)
    } else {
        st
    };
    assert(st1.sig.len() > 0 || st1.pend_del.len() + st1.pend_ins.len() > 0);
}

/// Whether a change shows anything of the old text: some span of it is
/// not an insertion.
pub open spec fn shows_old(c: ChangeView) -> bool {
    exists|j: int| 0 <= j < c.spans.len() && (#[trigger] c.spans[j]).kind != ChangeKind::Insert
}

/// Whether a change shows anything of the new text: some span of it is
/// not a deletion.
pub open spec fn shows_new(c: ChangeView) -> bool {
    exists|j: int| 0 <= j < c.spans.len() && (#[trigger] c.spans[j]).kind != ChangeKind::Delete
}

/// The shape of a change that a diff makes: no replacement span; off the
/// old text only as a line-level insertion, off the new text only as a
/// line-level deletion.
pub open spec fn change_shaped(c: ChangeView) -> bool {
    &&& forall|j: int| 0 <= j < c.spans.len() ==> (#[trigger] c.spans[j]).kind != ChangeKind::Replace
    &&& on_old_side(c) || (c.spans.len() == 1 && c.spans[0].kind == ChangeKind::Insert)
    &&& on_new_side(c) || (c.spans.len() == 1 && c.spans[0].kind == ChangeKind::Delete)
}

/// Every change has the shape of a diff's change.
pub open spec fn all_shaped(cs: Seq<ChangeView>) -> bool {
    forall|i: int| 0 <= i < cs.len() ==> change_shaped(#[trigger] cs[i])
}

proof fn lemma_shaped_append(a: Seq<ChangeView>, b: Seq<ChangeView>)
    requires
        all_shaped(a),
        all_shaped(b),
    ensures
        all_shaped(a + b),
{
    assert forall|i: int| 0 <= i < (a + b).len() implies change_shaped(#[trigger] (a + b)[i]) by {
        if i < a.len() {
            assert((a + b)[i] == a[i]);
        } else {
            assert((a + b)[i] == b[i - a.len()]);
        }
    }
}

/// Every word span lies on both lines and is no replacement.
proof fn lemma_word_spans_lines(
    ot: Seq<Seq<char>>,
    nt: Seq<Seq<char>>,
    h: Seq<(usize, usize, usize, usize)>,
    ol: usize,
    nl: usize,
    k: int,
)
    requires
        0 <= k <= h.len(),
    ensures
        forall|j: int| 0 <= j < word_spans_upto(ot, nt, h, ol, nl, k).0.len() ==> {
            let sp = #[trigger] word_spans_upto(ot, nt, h, ol, nl, k).0[j];
            sp.old_line == Some(ol) && sp.new_line == Some(nl) && sp.kind != ChangeKind::Replace
        },
    decreases k,
{
    if k > 0 {
        lemma_word_spans_lines(ot, nt, h, ol, nl, k - 1);
        let (sp, oi) = word_spans_upto(ot, nt, h, ol, nl, k - 1);
        let hk = h[k - 1];
        let e = token_run(ChangeKind::Equal, ot, oi, hk.0 as int, ol, nl);
        let d = token_run(ChangeKind::Delete, ot, hk.0 as int, hk.1 as int, ol, nl);
        let ins = token_run(ChangeKind::Insert, nt, hk.2 as int, hk.3 as int, ol, nl);
        let sp2 = sp + e + d + ins;
        assert forall|j: int| 0 <= j < sp2.len() implies (#[trigger] sp2[j]).old_line == Some(ol) && sp2[j].new_line
            == Some(nl) && sp2[j].kind != ChangeKind::Replace by {
            if j < sp.len() {
                assert(sp2[j] == sp[j]);
            } else if j < sp.len() + e.len() {
                assert(sp2[j] == e[j - sp.len()]);
            } else if j < sp.len() + e.len() + d.len() {
                assert(sp2[j] == d[j - sp.len() - e.len()]);
            } else {
                assert(sp2[j] == ins[j - sp.len() - e.len() - d.len()]);
            }
        }
    }
}

/// Every span of a word-level line lies on both lines and is no
/// replacement.
proof fn lemma_word_spans_all_lines(
    ot: Seq<Seq<char>>,
    nt: Seq<Seq<char>>,
    h: Seq<(usize, usize, usize, usize)>,
    ol: usize,
    nl: usize,
)
    ensures
        forall|j: int| 0 <= j < word_spans(ot, nt, h, ol, nl).len() ==> {
            let sp = #[trigger] word_spans(ot, nt, h, ol, nl)[j];
            sp.old_line == Some(ol) && sp.new_line == Some(nl) && sp.kind != ChangeKind::Replace
        },
{
    let k = h.len() as int;
    lemma_word_spans_lines(ot, nt, h, ol, nl, k);
    let (sp, oi) = word_spans_upto(ot, nt, h, ol, nl, k);
    let e = token_run(ChangeKind::Equal, ot, oi, ot.len() as int, ol, nl);
    let sp2 = sp + e;
    assert forall|j: int| 0 <= j < sp2.len() implies (#[trigger] sp2[j]).old_line == Some(ol) && sp2[j].new_line == Some(
        nl,
    ) && sp2[j].kind != ChangeKind::Replace by {
        if j < sp.len() {
            assert(sp2[j] == sp[j]);
        } else {
            assert(sp2[j] == e[j - sp.len()]);
        }
    }
}

proof fn lemma_flush_shaped(st: ScanState, wl: bool)
    requires
        all_shaped(st.changes),
    ensures
        all_shaped(flush_spec(st, wl).changes),
{
    let nd = st.pend_del.len() as int;
    let ni = st.pend_ins.len() as int;
    if nd == 0 && ni == 0 {
    } else if wl && nd == ni {
        let w = Seq::new(
            nd as nat,
            |i: int|
                ChangeView {
                    id: (st.next_id + i) as usize,
                    spans: word_diff_spec(st.pend_del[i].0, st.pend_ins[i].0, st.pend_del[i].1, st.pend_ins[i].1),
                },
        );
        assert forall|i: int| 0 <= i < w.len() implies change_shaped(#[trigger] w[i]) by {
            let o = st.pend_del[i].0;
            let n = st.pend_ins[i].0;
            let ot = tokenize_spec(o);
            let nt = tokenize_spec(n);
            lemma_word_spans_all_lines(ot, nt, token_diff_hunks(ot, nt), st.pend_del[i].1, st.pend_ins[i].1);
        }
        lemma_shaped_append(st.changes, w);
        assert(flush_spec(st, wl).changes == st.changes + w);
    } else {
        let a = Seq::new(
            nd as nat,
            |i: int| single_change(st.next_id + i, ChangeKind::Delete, st.pend_del[i].0, Some(st.pend_del[i].1), None),
        );
        let b = Seq::new(
            ni as nat,
            |j: int|
                single_change(st.next_id + nd + j, ChangeKind::Insert, st.pend_ins[j].0, None, Some(st.pend_ins[j].1)),
        );
        assert forall|i: int| 0 <= i < a.len() implies change_shaped(#[trigger] a[i]) by {
            assert(a[i].spans[0].kind == ChangeKind::Delete);
        }
        assert forall|i: int| 0 <= i < b.len() implies change_shaped(#[trigger] b[i]) by {
            assert(b[i].spans[0].kind == ChangeKind::Insert);
        }
        lemma_shaped_append(st.changes, a);
        lemma_shaped_append(st.changes + a, b);
        assert(flush_spec(st, wl).changes == st.changes + a + b);
    }
}

proof fn lemma_equal_shaped(st: ScanState, ol: Seq<Seq<char>>, to: int)
    requires
        all_shaped(st.changes),
    ensures
        all_shaped(equal_lines_spec(st, ol, to).changes),
{
    let cnt = if to > st.old_idx { to - st.old_idx } else { 0 };
    let e = Seq::new(
        cnt as nat,
        |i: int|
            single_change(
                st.next_id + i,
                ChangeKind::Equal,
                line_at(ol, st.old_idx + i),
                Some((st.old_ln + i) as usize),
                Some((st.new_ln + i) as usize),
            ),
    );
    assert forall|i: int| 0 <= i < e.len() implies change_shaped(#[trigger] e[i]) by {
        assert(e[i].spans[0].kind == ChangeKind::Equal);
    }
    lemma_shaped_append(st.changes, e);
    assert(equal_lines_spec(st, ol, to).changes == st.changes + e);
}

proof fn lemma_scan_upto_shaped(
    h: Seq<(usize, usize, usize, usize)>,
    ol: Seq<Seq<char>>,
    nl: Seq<Seq<char>>,
    wl: bool,
    k: int,
)
    requires
        0 <= k <= h.len(),
    ensures
        all_shaped(scan_upto(h, ol, nl, wl, k).changes),
    decreases k,
{
    if k > 0 {
        lemma_scan_upto_shaped(h, ol, nl, wl, k - 1);
        let st = scan_upto(h, ol, nl, wl, k - 1);
        if st.old_idx < h[k - 1].0 {
            lemma_flush_shaped(st, wl);
            lemma_equal_shaped(flush_spec(st, wl), ol, h[k - 1].0 as int);
        }
    }
}

/// Every change of the scan has the shape of a diff's change.
pub proof fn lemma_scan_shaped(
    h: Seq<(usize, usize, usize, usize)>,
    ol: Seq<Seq<char>>,
    nl: Seq<Seq<char>>,
    wl: bool,
)
    ensures
        all_shaped(scan_spec(h, ol, nl, wl).changes),
{
    let n = h.len() as int;
    lemma_scan_upto_shaped(h, ol, nl, wl, n);
    let st = scan_upto(h, ol, nl, wl, n);
    if st.old_idx < ol.len() {
        lemma_flush_shaped(st, wl);
        lemma_equal_shaped(flush_spec(st, wl), ol, ol.len() as int);
        lemma_flush_shaped(equal_lines_spec(flush_spec(st, wl), ol, ol.len() as int), wl);
    } else {
        lemma_flush_shaped(st, wl);
    }
}

/// An unchanged line: one `Equal` span.
pub open spec fn unchanged_line(c: ChangeView) -> bool {
    c.spans.len() == 1 && c.spans[0].kind == ChangeKind::Equal
}

/// Every change is an unchanged line or a significant one.
pub open spec fn unchanged_or_significant(cs: Seq<ChangeView>, sig: Seq<usize>) -> bool {
    forall|i: int| 0 <= i < cs.len() ==> unchanged_line(#[trigger] cs[i]) || sig.contains(cs[i].id)
}

proof fn lemma_uos_grow(a: Seq<ChangeView>, sig: Seq<usize>, b: Seq<ChangeView>, more: Seq<usize>)
    requires
        unchanged_or_significant(a, sig),
        forall|i: int| 0 <= i < b.len() ==> unchanged_line(#[trigger] b[i]) || more.contains(b[i].id),
    ensures
        unchanged_or_significant(a + b, sig + more),
{
    assert forall|i: int| 0 <= i < (a + b).len() implies unchanged_line(#[trigger] (a + b)[i]) || (sig + more).contains(
        (a + b)[i].id,
    ) by {
        if i < a.len() {
            assert((a + b)[i] == a[i]);
            if !unchanged_line(a[i]) {
                let k = choose|k: int| 0 <= k < sig.len() && sig[k] == a[i].id;
                assert((sig + more)[k] == sig[k]);
            }
        } else {
            assert((a + b)[i] == b[i - a.len()]);
            if !unchanged_line(b[i - a.len()]) {
                let k = choose|k: int| 0 <= k < more.len() && more[k] == b[i - a.len()].id;
                assert((sig + more)[sig.len() + k] == more[k]);
            }
        }
    }
}

proof fn lemma_flush_uos(st: ScanState, wl: bool)
    requires
        unchanged_or_significant(st.changes, st.sig),
    ensures
        unchanged_or_significant(flush_spec(st, wl).changes, flush_spec(st, wl).sig),
{
    let nd = st.pend_del.len() as int;
    let ni = st.pend_ins.len() as int;
    if nd == 0 && ni == 0 {
    } else if wl && nd == ni {
        let w = Seq::new(
            nd as nat,
            |i: int|
                ChangeView {
                    id: (st.next_id + i) as usize,
                    spans: word_diff_spec(st.pend_del[i].0, st.pend_ins[i].0, st.pend_del[i].1, st.pend_ins[i].1),
                },
        );
        let more = id_run(st.next_id, nd);
        assert forall|i: int| 0 <= i < w.len() implies unchanged_line(#[trigger] w[i]) || more.contains(w[i].id) by {
            assert(more[i] == w[i].id);
        }
        lemma_uos_grow(st.changes, st.sig, w, more);
        assert(flush_spec(st, wl).changes == st.changes + w);
    } else {
        let a = Seq::new(
            nd as nat,
            |i: int| single_change(st.next_id + i, ChangeKind::Delete, st.pend_del[i].0, Some(st.pend_del[i].1), None),
        );
        let b = Seq::new(
            ni as nat,
            |j: int|
                single_change(st.next_id + nd + j, ChangeKind::Insert, st.pend_ins[j].0, None, Some(st.pend_ins[j].1)),
        );
        let more = id_run(st.next_id, nd + ni);
        assert forall|i: int| 0 <= i < (a + b).len() implies unchanged_line(#[trigger] (a + b)[i]) || more.contains(
            (a + b)[i].id,
        ) by {
            if i < a.len() {
                assert((a + b)[i] == a[i]);
            } else {
                assert((a + b)[i] == b[i - a.len()]);
            }
            assert(more[i] == (a + b)[i].id);
        }
        lemma_uos_grow(st.changes, st.sig, a + b, more);
        assert(flush_spec(st, wl).changes =~= st.changes + (a + b));
    }
}

proof fn lemma_equal_uos(st: ScanState, ol: Seq<Seq<char>>, to: int)
    requires
        unchanged_or_significant(st.changes, st.sig),
    ensures
        unchanged_or_significant(equal_lines_spec(st, ol, to).changes, equal_lines_spec(st, ol, to).sig),
{
    let cnt = if to > st.old_idx { to - st.old_idx } else { 0 };
    let e = Seq::new(
        cnt as nat,
        |i: int|
            single_change(
                st.next_id + i,
                ChangeKind::Equal,
                line_at(ol, st.old_idx + i),
                Some((st.old_ln + i) as usize),
                Some((st.new_ln + i) as usize),
            ),
    );
    assert forall|i: int| 0 <= i < e.len() implies unchanged_line(#[trigger] e[i]) || Seq::<usize>::empty().contains(
        e[i].id,
    ) by {}
    lemma_uos_grow(st.changes, st.sig, e, Seq::empty());
    assert(st.sig + Seq::<usize>::empty() =~= st.sig);
    assert(equal_lines_spec(st, ol, to).changes == st.changes + e);
}

proof fn lemma_scan_upto_uos(
    h: Seq<(usize, usize, usize, usize)>,
    ol: Seq<Seq<char>>,
    nl: Seq<Seq<char>>,
    wl: bool,
    k: int,
)
    requires
        0 <= k <= h.len(),
    ensures
        unchanged_or_significant(scan_upto(h, ol, nl, wl, k).changes, scan_upto(h, ol, nl, wl, k).sig),
    decreases k,
{
    if k > 0 {
        lemma_scan_upto_uos(h, ol, nl, wl, k - 1);
        let st = scan_upto(h, ol, nl, wl, k - 1);
        if st.old_idx < h[k - 1].0 {
            lemma_flush_uos(st, wl);
            lemma_equal_uos(flush_spec(st, wl), ol, h[k - 1].0 as int);
        }
    }
}

/// Every change of the scan is an unchanged line or a significant change.
pub proof fn lemma_scan_uos(
    h: Seq<(usize, usize, usize, usize)>,
    ol: Seq<Seq<char>>,
    nl: Seq<Seq<char>>,
    wl: bool,
)
    ensures
        unchanged_or_significant(scan_spec(h, ol, nl, wl).changes, scan_spec(h, ol, nl, wl).sig),
{
    let n = h.len() as int;
    lemma_scan_upto_uos(h, ol, nl, wl, n);
    let st = scan_upto(h, ol, nl, wl, n);
    if st.old_idx < ol.len() {
        lemma_flush_uos(st, wl);
        lemma_equal_uos(flush_spec(st, wl), ol, ol.len() as int);
        lemma_flush_uos(equal_lines_spec(flush_spec(st, wl), ol, ol.len() as int), wl);
    } else {
        lemma_flush_uos(st, wl);
    }
}

/// The scan has counted no more deleted lines than old lines read, and no
/// more inserted lines than new lines read, those waiting included.
spec fn counts_within(st: ScanState) -> bool {
    &&& st.deletions >= 0
    &&& st.insertions >= 0
    &&& st.deletions + st.pend_del.len() <= st.old_idx
    &&& st.insertions + st.pend_ins.len() <= st.new_ln - 1
}

proof fn lemma_scan_upto_counts(
    h: Seq<(usize, usize, usize, usize)>,
    ol: Seq<Seq<char>>,
    nl: Seq<Seq<char>>,
    wl: bool,
    k: int,
)
    requires
        hunks_in_order(h, ol.len(), nl.len()),
        gaps_match(h, ol.len(), nl.len()),
        0 <= k <= h.len(),
    ensures
        ({
            let st = scan_upto(h, ol, nl, wl, k);
            &&& st.old_idx == gap_start_old(h, k)
            &&& st.new_ln - 1 == gap_start_new(h, k)
            &&& counts_within(st)
        }),
    decreases k,
{
    if k > 0 {
        lemma_scan_upto_counts(h, ol, nl, wl, k - 1);
        let st = scan_upto(h, ol, nl, wl, k - 1);
        let hk = h[k - 1];
        assert(hk.0 <= hk.1 && hk.2 <= hk.3);
        if k - 1 > 0 {
            assert(hk.0 >= h[k - 2].1 && hk.2 >= h[k - 2].3);
        }
        assert(scan_upto(h, ol, nl, wl, k) == range_step(st, hk, ol, nl, wl));
    }
}

/// The line counts of a diff stay within the texts: no more deleted lines
/// than old lines, no more inserted lines than new lines.
proof fn lemma_scan_counts(h: Seq<(usize, usize, usize, usize)>, ol: Seq<Seq<char>>, nl: Seq<Seq<char>>, wl: bool)
    requires
        hunks_in_order(h, ol.len(), nl.len()),
        gaps_match(h, ol.len(), nl.len()),
    ensures
        0 <= scan_spec(h, ol, nl, wl).deletions <= ol.len(),
        0 <= scan_spec(h, ol, nl, wl).insertions <= nl.len(),
{
    let n = h.len() as int;
    lemma_scan_upto_counts(h, ol, nl, wl, n);
    if n > 0 {
        assert(h.last() == h[n - 1]);
        assert(h[n - 1].1 <= ol.len() && h[n - 1].3 <= nl.len());
    }
}

/// A text has no more lines from position `i` than characters from there.
proof fn lemma_lines_count(s: Seq<char>, i: int)
    requires
        0 <= i,
    ensures
        lines_from(s, i).len() <= if i <= s.len() { s.len() - i } else { 0 },
    decreases s.len() + 1 - i,
{
    if i < s.len() {
        lemma_line_end_bounds(s, i);
        lemma_lines_count(s, line_end(s, i) + 1);
    }
}

/// The line counts of a diff: no more deleted lines than old lines, no
/// more inserted lines than new lines, and as many unchanged lines on both
/// sides.
proof fn lemma_model_counts(
    old: Seq<char>,
    new: Seq<char>,
    ranges: Seq<(usize, usize, usize, usize)>,
    ctx: usize,
    wl: bool,
)
    requires
        old.len() < 0x7fff_0000,
        new.len() < 0x7fff_0000,
        hunks_in_order(ranges, text_lines(old).len(), text_lines(new).len()),
        gaps_match(ranges, text_lines(old).len(), text_lines(new).len()),
    ensures
        ({
            let d = diff_model(old, new, ranges, ctx, wl);
            &&& d.deletions <= text_lines(old).len()
            &&& d.insertions <= text_lines(new).len()
            &&& text_lines(old).len() - d.deletions == text_lines(new).len() - d.insertions
        }),
{
    lemma_lines_count(old, 0);
    lemma_lines_count(new, 0);
    lemma_scan_counts(ranges, text_lines(old), text_lines(new), wl);
    law_unchanged_lines_match(old, new, ranges, wl);
}

/// Whether a change's first span is of the given kind.
pub open spec fn first_kind_is(c: ChangeView, k: ChangeKind) -> bool {
    c.spans.len() > 0 && c.spans[0].kind == k
}

/// How many changes start with a span of the given kind.
pub open spec fn count_kind(cs: Seq<ChangeView>, k: ChangeKind) -> nat {
    cs.filter(|c: ChangeView| first_kind_is(c, k)).len()
}

/// The id names a change that is a deleted or an inserted line.
pub open spec fn names_edit(cs: Seq<ChangeView>, id: usize) -> bool {
    exists|i: int|
        #![trigger cs[i]]
        0 <= i < cs.len() && cs[i].id == id && (first_kind_is(cs[i], ChangeKind::Delete) || first_kind_is(
            cs[i],
            ChangeKind::Insert,
        ))
}

/// Every significant id names a change that is a deleted or an inserted
/// line.
pub open spec fn sig_names_edits(sig: Seq<usize>, cs: Seq<ChangeView>) -> bool {
    forall|k: int| 0 <= k < sig.len() ==> names_edit(cs, #[trigger] sig[k])
}

/// The line-level scan's counters count its deleted and inserted lines,
/// and its significant ids name them.
spec fn line_counts_ok(st: ScanState) -> bool {
    &&& st.deletions == count_kind(st.changes, ChangeKind::Delete)
    &&& st.insertions == count_kind(st.changes, ChangeKind::Insert)
    &&& sig_names_edits(st.sig, st.changes)
}

proof fn lemma_count_kind_concat(a: Seq<ChangeView>, b: Seq<ChangeView>, k: ChangeKind)
    ensures
        count_kind(a + b, k) == count_kind(a, k) + count_kind(b, k),
{
    Seq::filter_distributes_over_add(a, b, |c: ChangeView| first_kind_is(c, k));
}

/// A run of changes all of one kind counts its length for that kind and
/// nothing for another.
proof fn lemma_count_kind_run(r: Seq<ChangeView>, k: ChangeKind, other: ChangeKind)
    requires
        k != other,
        forall|i: int| 0 <= i < r.len() ==> first_kind_is(#[trigger] r[i], k),
    ensures
        count_kind(r, k) == r.len(),
        count_kind(r, other) == 0,
{
    lemma_filter_keeps_all(r, |c: ChangeView| first_kind_is(c, k));
    assert(r.all(|c: ChangeView| !first_kind_is(c, other)));
    r.lemma_all_neg_filter_empty(|c: ChangeView| first_kind_is(c, other));
}

proof fn lemma_names_grow(sig: Seq<usize>, cs: Seq<ChangeView>, more: Seq<usize>, b: Seq<ChangeView>)
    requires
        sig_names_edits(sig, cs),
        more.len() == b.len(),
        forall|i: int|
            0 <= i < b.len() ==> b[i].id == more[i] && (first_kind_is(#[trigger] b[i], ChangeKind::Delete)
                || first_kind_is(b[i], ChangeKind::Insert)),
    ensures
        sig_names_edits(sig + more, cs + b),
{
    let s2 = sig + more;
    let c2 = cs + b;
    assert forall|k: int| 0 <= k < s2.len() implies names_edit(c2, #[trigger] s2[k]) by {
        if k < sig.len() {
            assert(s2[k] == sig[k]);
            assert(names_edit(cs, sig[k]));
            let i = choose|i: int|
                #![trigger cs[i]]
                0 <= i < cs.len() && cs[i].id == sig[k] && (first_kind_is(cs[i], ChangeKind::Delete) || first_kind_is(
                    cs[i],
                    ChangeKind::Insert,
                ));
            assert(c2[i] == cs[i]);
        } else {
            let j = k - sig.len();
            assert(s2[k] == more[j]);
            assert(c2[cs.len() + j] == b[j]);
            assert(first_kind_is(b[j], ChangeKind::Delete) || first_kind_is(b[j], ChangeKind::Insert));
        }
    }
}

proof fn lemma_flush_counts(st: ScanState)
    requires
        line_counts_ok(st),
    ensures
        line_counts_ok(flush_spec(st, false)),
{
    let nd = st.pend_del.len() as int;
    let ni = st.pend_ins.len() as int;
    if !(nd == 0 && ni == 0) {
        let a = Seq::new(
            nd as nat,
            |i: int| single_change(st.next_id + i, ChangeKind::Delete, st.pend_del[i].0, Some(st.pend_del[i].1), None),
        );
        let b = Seq::new(
            ni as nat,
            |j: int|
                single_change(st.next_id + nd + j, ChangeKind::Insert, st.pend_ins[j].0, None, Some(st.pend_ins[j].1)),
        );
        let f = flush_spec(st, false);
        assert(f.changes =~= st.changes + (a + b));
        assert forall|i: int| 0 <= i < a.len() implies first_kind_is(#[trigger] a[i], ChangeKind::Delete) by {}
        assert forall|i: int| 0 <= i < b.len() implies first_kind_is(#[trigger] b[i], ChangeKind::Insert) by {}
        lemma_count_kind_run(a, ChangeKind::Delete, ChangeKind::Insert);
        lemma_count_kind_run(b, ChangeKind::Insert, ChangeKind::Delete);
        lemma_count_kind_concat(a, b, ChangeKind::Delete);
        lemma_count_kind_concat(a, b, ChangeKind::Insert);
        lemma_count_kind_concat(st.changes, a + b, ChangeKind::Delete);
        lemma_count_kind_concat(st.changes, a + b, ChangeKind::Insert);
        let more = id_run(st.next_id, nd + ni);
        assert forall|i: int| 0 <= i < (a + b).len() implies (a + b)[i].id == more[i] && (first_kind_is(
            #[trigger] (a + b)[i],
            ChangeKind::Delete,
        ) || first_kind_is((a + b)[i], ChangeKind::Insert)) by {
            if i < a.len() {
                assert((a + b)[i] == a[i]);
            } else {
                assert((a + b)[i] == b[i - a.len()]);
            }
        }
        lemma_names_grow(st.sig, st.changes, more, a + b);
    }
}

proof fn lemma_equal_counts(st: ScanState, ol: Seq<Seq<char>>, to: int)
    requires
        line_counts_ok(st),
    ensures
        line_counts_ok(equal_lines_spec(st, ol, to)),
{
    let cnt = if to > st.old_idx { to - st.old_idx } else { 0 };
    let e = Seq::new(
        cnt as nat,
        |i: int|
            single_change(
                st.next_id + i,
                ChangeKind::Equal,
                line_at(ol, st.old_idx + i),
                Some((st.old_ln + i) as usize),
                Some((st.new_ln + i) as usize),
            ),
    );
    assert(equal_lines_spec(st, ol, to).changes == st.changes + e);
    assert forall|i: int| 0 <= i < e.len() implies first_kind_is(#[trigger] e[i], ChangeKind::Equal) by {}
    lemma_count_kind_run(e, ChangeKind::Equal, ChangeKind::Delete);
    lemma_count_kind_run(e, ChangeKind::Equal, ChangeKind::Insert);
    lemma_count_kind_concat(st.changes, e, ChangeKind::Delete);
    lemma_count_kind_concat(st.changes, e, ChangeKind::Insert);
    let c2 = st.changes + e;
    assert forall|k: int| 0 <= k < st.sig.len() implies names_edit(c2, #[trigger] st.sig[k]) by {
        assert(names_edit(st.changes, st.sig[k]));
        let i = choose|i: int|
            #![trigger st.changes[i]]
            0 <= i < st.changes.len() && st.changes[i].id == st.sig[k] && (first_kind_is(
                st.changes[i],
                ChangeKind::Delete,
            ) || first_kind_is(st.changes[i], ChangeKind::Insert));
        assert(c2[i] == st.changes[i]);
    }
}

proof fn lemma_scan_upto_counts_line(
    h: Seq<(usize, usize, usize, usize)>,
    ol: Seq<Seq<char>>,
    nl: Seq<Seq<char>>,
    k: int,
)
    requires
        0 <= k <= h.len(),
    ensures
        line_counts_ok(scan_upto(h, ol, nl, false, k)),
    decreases k,
{
    if k == 0 {
        let st = scan_init();
        assert(count_kind(st.changes, ChangeKind::Delete) == 0) by {
            reveal(Seq::filter);
        }
        assert(count_kind(st.changes, ChangeKind::Insert) == 0) by {
            reveal(Seq::filter);
        }
    } else {
        lemma_scan_upto_counts_line(h, ol, nl, k - 1);
        let st = scan_upto(h, ol, nl, false, k - 1);
        if st.old_idx < h[k - 1].0 {
            lemma_flush_counts(st);
            lemma_equal_counts(flush_spec(st, false), ol, h[k - 1].0 as int);
        }
    }
}

/// Without word-level diffing, with all context kept, the deletion and
/// insertion counts are the numbers of deleted and of inserted lines among
/// the changes, and every significant change is one of those: a deleted or
/// an inserted line, never an unchanged one.
pub proof fn law_line_level_counts(old: Seq<char>, new: Seq<char>, ranges: Seq<(usize, usize, usize, usize)>)
    ensures
        ({
            let st = scan_spec(ranges, text_lines(old), text_lines(new), false);
            let d = diff_model(old, new, ranges, usize::MAX, false);
            &&& st.deletions == count_kind(d.changes, ChangeKind::Delete)
            &&& st.insertions == count_kind(d.changes, ChangeKind::Insert)
            &&& sig_names_edits(d.sig, d.changes)
        }),
{
    let ol = text_lines(old);
    let nl = text_lines(new);
    let n = ranges.len() as int;
    lemma_scan_upto_counts_line(ranges, ol, nl, n);
    let st = scan_upto(ranges, ol, nl, false, n);
    if st.old_idx < ol.len() {
        lemma_flush_counts(st);
        lemma_equal_counts(flush_spec(st, false), ol, ol.len() as int);
        lemma_flush_counts(equal_lines_spec(flush_spec(st, false), ol, ol.len() as int));
    } else {
        lemma_flush_counts(st);
    }
}

} // verus!
