//! What the view shows of the two texts: at the first step the old text,
//! at the last step the new text, line by line.

use super::render::{change_line_spec, flags_spec, in_hunk_spec, view_fold, view_of_range};
use super::StepView;
use crate::change::{ChangeKind, ChangeView, SpanView};
use crate::diff::{
    diff_model, lemma_scan_shaped, lemma_scan_uos, law_changes_rebuild_texts, on_new_side,
    on_old_side, scan_aligned, scan_spec, shows_new, shows_old, span_new_text, span_old_text, spans_new_text,
    spans_old_text, unchanged_line, DiffView,
};
use crate::foreign::{gaps_match, hunks_in_order, text_lines, unchanged_pair_up};
use crate::step::AnimationFrame;
use crate::view::{parts_text, word_part, word_parts, LineFlags, LineKind, ViewLineModel};
use vstd::prelude::*;

verus! {

/// The texts of view lines, in order.
pub open spec fn view_contents(lines: Seq<ViewLineModel>) -> Seq<Seq<char>> {
    lines.map_values(|l: ViewLineModel| l.content)
}

/// A line that is neither applied nor animated shows the old text of its
/// spans: each span but an insertion gives a piece.
proof fn lemma_parts_at_rest(
    spans: Seq<SpanView>,
    f: LineFlags,
    direction: super::StepDirection,
    frame: AnimationFrame,
    ho: bool,
    hn: bool,
    n: int,
)
    requires
        !f.is_applied,
        !f.is_active,
        0 <= n <= spans.len(),
    ensures
        parts_text(word_parts(spans, f, direction, frame, ho, hn, n)) == spans_old_text(spans.take(n)),
        word_parts(spans, f, direction, frame, ho, hn, n).len() > 0 <==> exists|j: int|
            0 <= j < n && (#[trigger] spans[j]).kind != ChangeKind::Insert,
    decreases n,
{
    broadcast use Seq::lemma_flatten_push;

    if n == 0 {
        assert(spans.take(0) =~= Seq::<SpanView>::empty());
        assert(spans.take(0).map_values(|s: SpanView| span_old_text(s)) =~= Seq::<Seq<char>>::empty());
    } else {
        lemma_parts_at_rest(spans, f, direction, frame, ho, hn, n - 1);
        let prev = word_parts(spans, f, direction, frame, ho, hn, n - 1);
        let sp = spans[n - 1];
        let fo = |s: SpanView| span_old_text(s);
        assert(spans.take(n) =~= spans.take(n - 1).push(sp));
        assert(spans.take(n).map_values(fo) =~= spans.take(n - 1).map_values(fo).push(span_old_text(sp)));
        match word_part(sp, f, direction, frame, ho, hn) {
            Some(p) => {
                assert(prev.push(p).drop_last() =~= prev);
                assert(sp.kind != ChangeKind::Insert);
            },
            None => {
                assert(sp.kind == ChangeKind::Insert);
                assert(spans_old_text(spans.take(n)) =~= spans_old_text(spans.take(n - 1)));
            },
        }
    }
}

/// The line of a change that is neither applied nor animated: present
/// exactly when the change shows something of the old text, and then its
/// text is the change's old text.
proof fn lemma_line_at_rest(d: DiffView, lazy: bool, s: StepView, c: ChangeView, frame: AnimationFrame, p: bool)
    requires
        !s.applied.contains(c.id),
        s.active_change is None,
        s.animating_hunk is None,
    ensures
        change_line_spec(d, lazy, s, c, frame, p) is Some <==> shows_old(c),
        change_line_spec(d, lazy, s, c, frame, p) is Some ==> change_line_spec(d, lazy, s, c, frame, p)->0.content
            == spans_old_text(c.spans),
{
    let f = flags_spec(d, lazy, s, c, p);
    assert(!in_hunk_spec(d, lazy, s, c.id));
    assert(!f.is_applied && !f.is_active);
    if c.spans.len() > 1 {
        lemma_parts_at_rest(
            c.spans,
            f,
            s.step_direction,
            frame,
            crate::view::change_has_old(c.spans),
            crate::view::change_has_new(c.spans),
            c.spans.len() as int,
        );
        assert(c.spans.take(c.spans.len() as int) =~= c.spans);
    } else if c.spans.len() == 1 {
        let sp = c.spans[0];
        assert(c.spans =~= seq![sp]);
        let mo = seq![sp].map_values(|x: SpanView| span_old_text(x));
        mo.lemma_flatten_one_element();
        if sp.kind != ChangeKind::Insert {
            assert(shows_old(c));
        }
    }
}

/// Folding the changes at rest: the lines are those of the changes that
/// show something of the old text, each with that change's old text.
proof fn lemma_fold_at_rest(d: DiffView, lazy: bool, s: StepView, cs: Seq<ChangeView>, frame: AnimationFrame, n: int)
    requires
        s.applied.len() == 0,
        s.active_change is None,
        s.animating_hunk is None,
        0 <= n <= cs.len(),
    ensures
        view_contents(view_fold(d, lazy, s, cs, frame, n).0) == cs.take(n).filter(|c: ChangeView| shows_old(c)).map_values(
            |c: ChangeView| spans_old_text(c.spans),
        ),
    decreases n,
{
    let p = |c: ChangeView| shows_old(c);
    let g = |c: ChangeView| spans_old_text(c.spans);
    reveal(Seq::filter);
    if n == 0 {
        assert(cs.take(0) =~= Seq::<ChangeView>::empty());
        assert(view_contents(view_fold(d, lazy, s, cs, frame, 0).0) =~= Seq::<Seq<char>>::empty());
    } else {
        lemma_fold_at_rest(d, lazy, s, cs, frame, n - 1);
        let (lines, assigned) = view_fold(d, lazy, s, cs, frame, n - 1);
        let c = cs[n - 1];
        let is_primary = super::render::primary_spec(s) == Some(c.id) || (!assigned && in_hunk_spec(d, lazy, s, c.id)
            && super::render::primary_spec(s) is None);
        assert(!s.applied.contains(c.id));
        lemma_line_at_rest(d, lazy, s, c, frame, is_primary);
        assert(cs.take(n).drop_last() =~= cs.take(n - 1));
        assert(cs.take(n).last() == c);
        match change_line_spec(d, lazy, s, c, frame, is_primary) {
            Some(l) => {
                assert(view_contents(lines.push(l)) =~= view_contents(lines).push(l.content));
                assert(cs.take(n).filter(p) == cs.take(n - 1).filter(p).push(c));
                assert(cs.take(n - 1).filter(p).push(c).map_values(g) =~= cs.take(n - 1).filter(p).map_values(g).push(
                    g(c),
                ));
            },
            None => {
                assert(cs.take(n).filter(p) == cs.take(n - 1).filter(p));
            },
        }
    }
}

/// Two tests that agree on every element filter alike.
proof fn lemma_filter_alike<A>(s: Seq<A>, p: spec_fn(A) -> bool, q: spec_fn(A) -> bool)
    requires
        forall|i: int| 0 <= i < s.len() ==> p(#[trigger] s[i]) == q(s[i]),
    ensures
        s.filter(p) == s.filter(q),
    decreases s.len(),
{
    reveal(Seq::filter);
    if s.len() > 0 {
        lemma_filter_alike(s.drop_last(), p, q);
        assert(p(s[s.len() - 1]) == q(s[s.len() - 1]));
    }
}

/// Every line of the old text that a diff's change lies on shows
/// something of it: false only of a modified line whose old side is
/// empty, which the word-level view leaves out.
pub open spec fn old_lines_visible(cs: Seq<ChangeView>) -> bool {
    forall|i: int| 0 <= i < cs.len() ==> on_old_side(#[trigger] cs[i]) ==> shows_old(cs[i])
}

/// At the first step the view shows the old text: before any change is
/// applied or animated (the start of a navigator, or a jump to step 0),
/// the lines of the whole diff, for any animation frame, are the old
/// text's lines in order. This holds of a diff made with all context from
/// a line diff and token diffs that align (what `diff_strings` states of
/// its result), leaving out diffs with a modified line whose old side is
/// empty (see `old_lines_visible`).
pub proof fn law_first_step_shows_old_text(
    old: Seq<char>,
    new: Seq<char>,
    ranges: Seq<(usize, usize, usize, usize)>,
    word_level: bool,
    lazy: bool,
    s: StepView,
    frame: AnimationFrame,
)
    requires
        hunks_in_order(ranges, text_lines(old).len(), text_lines(new).len()),
        gaps_match(ranges, text_lines(old).len(), text_lines(new).len()),
        unchanged_pair_up(ranges, text_lines(old), text_lines(new)),
        scan_aligned(ranges, text_lines(old), text_lines(new), word_level),
        old_lines_visible(diff_model(old, new, ranges, usize::MAX, word_level).changes),
        s.applied.len() == 0,
        s.active_change is None,
        s.animating_hunk is None,
    ensures
        ({
            let d = diff_model(old, new, ranges, usize::MAX, word_level);
            view_contents(view_of_range(d, lazy, s, 0, d.changes.len() as int, frame)) == text_lines(old)
        }),
{
    let d = diff_model(old, new, ranges, usize::MAX, word_level);
    let cs = d.changes;
    law_changes_rebuild_texts(old, new, ranges, word_level);
    lemma_scan_shaped(ranges, text_lines(old), text_lines(new), word_level);
    assert(cs == scan_spec(ranges, text_lines(old), text_lines(new), word_level).changes);
    assert(cs.subrange(0, cs.len() as int) =~= cs);
    lemma_fold_at_rest(d, lazy, s, cs, frame, cs.len() as int);
    assert(cs.take(cs.len() as int) =~= cs);
    let p = |c: ChangeView| shows_old(c);
    let q = |c: ChangeView| on_old_side(c);
    assert forall|i: int| 0 <= i < cs.len() implies p(#[trigger] cs[i]) == q(cs[i]) by {
        assert(crate::diff::change_shaped(cs[i]));
        if !on_old_side(cs[i]) {
            assert(cs[i].spans.len() == 1 && cs[i].spans[0].kind == ChangeKind::Insert);
            if shows_old(cs[i]) {
                let j = choose|j: int| 0 <= j < cs[i].spans.len() && (#[trigger] cs[i].spans[j]).kind != ChangeKind::Insert;
                assert(j == 0);
            }
        }
    }
    lemma_filter_alike(cs, p, q);
}

/// The lines that stay in the final text: all but deleted ones (applied
/// or being deleted).
pub open spec fn kept_lines(lines: Seq<ViewLineModel>) -> Seq<ViewLineModel> {
    lines.filter(|l: ViewLineModel| l.kind != LineKind::Deleted && l.kind != LineKind::PendingDelete)
}

/// An applied line of several spans, at rest, shows the new text of its
/// spans: each span but a deletion gives a piece.
proof fn lemma_parts_applied(
    spans: Seq<SpanView>,
    f: LineFlags,
    direction: super::StepDirection,
    ho: bool,
    hn: bool,
    n: int,
)
    requires
        f.is_applied,
        0 <= n <= spans.len(),
        forall|j: int| 0 <= j < spans.len() ==> (#[trigger] spans[j]).kind != ChangeKind::Replace,
    ensures
        parts_text(word_parts(spans, f, direction, AnimationFrame::Idle, ho, hn, n)) == spans_new_text(spans.take(n)),
        word_parts(spans, f, direction, AnimationFrame::Idle, ho, hn, n).len() > 0 <==> exists|j: int|
            0 <= j < n && (#[trigger] spans[j]).kind != ChangeKind::Delete,
    decreases n,
{
    broadcast use Seq::lemma_flatten_push;

    if n == 0 {
        assert(spans.take(0) =~= Seq::<SpanView>::empty());
        assert(spans.take(0).map_values(|s: SpanView| span_new_text(s)) =~= Seq::<Seq<char>>::empty());
    } else {
        lemma_parts_applied(spans, f, direction, ho, hn, n - 1);
        let prev = word_parts(spans, f, direction, AnimationFrame::Idle, ho, hn, n - 1);
        let sp = spans[n - 1];
        let fnw = |s: SpanView| span_new_text(s);
        assert(sp.kind != ChangeKind::Replace);
        assert(spans.take(n) =~= spans.take(n - 1).push(sp));
        assert(spans.take(n).map_values(fnw) =~= spans.take(n - 1).map_values(fnw).push(span_new_text(sp)));
        match word_part(sp, f, direction, AnimationFrame::Idle, ho, hn) {
            Some(p) => {
                assert(prev.push(p).drop_last() =~= prev);
                assert(sp.kind != ChangeKind::Delete);
            },
            None => {
                assert(sp.kind == ChangeKind::Delete);
                assert(spans_new_text(spans.take(n)) =~= spans_new_text(spans.take(n - 1)));
            },
        }
    }
}

/// The line of a change at the last step, at rest: kept in the final text
/// exactly when the change shows something of the new text, and then its
/// text is the change's new text.
proof fn lemma_line_applied(d: DiffView, lazy: bool, s: StepView, c: ChangeView, p: bool)
    requires
        unchanged_line(c) || s.applied.contains(c.id),
        forall|j: int| 0 <= j < c.spans.len() ==> (#[trigger] c.spans[j]).kind != ChangeKind::Replace,
    ensures
        ({
            let r = change_line_spec(d, lazy, s, c, AnimationFrame::Idle, p);
            &&& (r is Some && r->0.kind != LineKind::Deleted && r->0.kind != LineKind::PendingDelete) <==> shows_new(c)
            &&& r is Some && shows_new(c) ==> r->0.content == spans_new_text(c.spans)
        }),
{
    let f = flags_spec(d, lazy, s, c, p);
    if c.spans.len() > 1 {
        assert(!unchanged_line(c));
        lemma_parts_applied(
            c.spans,
            f,
            s.step_direction,
            crate::view::change_has_old(c.spans),
            crate::view::change_has_new(c.spans),
            c.spans.len() as int,
        );
        assert(c.spans.take(c.spans.len() as int) =~= c.spans);
    } else if c.spans.len() == 1 {
        let sp = c.spans[0];
        assert(sp.kind != ChangeKind::Replace);
        assert(c.spans =~= seq![sp]);
        let mn = seq![sp].map_values(|x: SpanView| span_new_text(x));
        mn.lemma_flatten_one_element();
        if sp.kind != ChangeKind::Delete {
            assert(shows_new(c));
        }
    }
}

/// Folding the changes at the last step: the kept lines are those of the
/// changes that show something of the new text, each with that change's
/// new text.
proof fn lemma_fold_applied(d: DiffView, lazy: bool, s: StepView, cs: Seq<ChangeView>, n: int)
    requires
        forall|i: int| 0 <= i < cs.len() ==> unchanged_line(#[trigger] cs[i]) || s.applied.contains(cs[i].id),
        forall|i: int, j: int|
            0 <= i < cs.len() && 0 <= j < cs[i].spans.len() ==> (#[trigger] cs[i].spans[j]).kind != ChangeKind::Replace,
        0 <= n <= cs.len(),
    ensures
        view_contents(kept_lines(view_fold(d, lazy, s, cs, AnimationFrame::Idle, n).0)) == cs.take(n).filter(
            |c: ChangeView| shows_new(c),
        ).map_values(|c: ChangeView| spans_new_text(c.spans)),
    decreases n,
{
    let p = |c: ChangeView| shows_new(c);
    let g = |c: ChangeView| spans_new_text(c.spans);
    let keep = |l: ViewLineModel| l.kind != LineKind::Deleted && l.kind != LineKind::PendingDelete;
    reveal(Seq::filter);
    if n == 0 {
        assert(cs.take(0) =~= Seq::<ChangeView>::empty());
        assert(view_contents(kept_lines(view_fold(d, lazy, s, cs, AnimationFrame::Idle, 0).0)) =~= Seq::<
            Seq<char>,
        >::empty());
    } else {
        lemma_fold_applied(d, lazy, s, cs, n - 1);
        let (lines, assigned) = view_fold(d, lazy, s, cs, AnimationFrame::Idle, n - 1);
        let c = cs[n - 1];
        let is_primary = super::render::primary_spec(s) == Some(c.id) || (!assigned && in_hunk_spec(d, lazy, s, c.id)
            && super::render::primary_spec(s) is None);
        assert(unchanged_line(c) || s.applied.contains(c.id));
        assert forall|j: int| 0 <= j < c.spans.len() implies (#[trigger] c.spans[j]).kind != ChangeKind::Replace by {
            assert(cs[n - 1].spans[j].kind != ChangeKind::Replace);
        }
        lemma_line_applied(d, lazy, s, c, is_primary);
        assert(cs.take(n).drop_last() =~= cs.take(n - 1));
        assert(cs.take(n).last() == c);
        match change_line_spec(d, lazy, s, c, AnimationFrame::Idle, is_primary) {
            Some(l) => {
                assert(lines.push(l).drop_last() =~= lines);
                if keep(l) {
                    assert(kept_lines(lines.push(l)) == kept_lines(lines).push(l));
                    assert(view_contents(kept_lines(lines).push(l)) =~= view_contents(kept_lines(lines)).push(l.content));
                    assert(cs.take(n).filter(p) == cs.take(n - 1).filter(p).push(c));
                    assert(cs.take(n - 1).filter(p).push(c).map_values(g) =~= cs.take(n - 1).filter(p).map_values(
                        g,
                    ).push(g(c)));
                } else {
                    assert(kept_lines(lines.push(l)) == kept_lines(lines));
                    assert(cs.take(n).filter(p) == cs.take(n - 1).filter(p));
                }
            },
            None => {
                assert(cs.take(n).filter(p) == cs.take(n - 1).filter(p));
            },
        }
    }
}

/// Every line of the new text that a diff's change lies on shows
/// something of it: false only of a modified line whose new side is
/// empty, which the word-level view leaves out.
pub open spec fn new_lines_visible(cs: Seq<ChangeView>) -> bool {
    forall|i: int| 0 <= i < cs.len() ==> on_new_side(#[trigger] cs[i]) ==> shows_new(cs[i])
}

/// At the last step the view shows the new text: once every significant
/// change is applied (the last step of a navigator whose applied changes
/// are the significant changes before its step), the lines of the whole
/// diff at rest, less the deleted ones, are the new text's lines in order,
/// whatever change is still marked active. This holds of a diff made with
/// all context from a line diff and token diffs that align (what
/// `diff_strings` states of its result), leaving out diffs with a modified
/// line whose new side is empty (see `new_lines_visible`).
pub proof fn law_last_step_shows_new_text(
    old: Seq<char>,
    new: Seq<char>,
    ranges: Seq<(usize, usize, usize, usize)>,
    word_level: bool,
    lazy: bool,
    s: StepView,
)
    requires
        hunks_in_order(ranges, text_lines(old).len(), text_lines(new).len()),
        gaps_match(ranges, text_lines(old).len(), text_lines(new).len()),
        unchanged_pair_up(ranges, text_lines(old), text_lines(new)),
        scan_aligned(ranges, text_lines(old), text_lines(new), word_level),
        new_lines_visible(diff_model(old, new, ranges, usize::MAX, word_level).changes),
        forall|k: int|
            0 <= k < diff_model(old, new, ranges, usize::MAX, word_level).sig.len() ==> s.applied.contains(
                #[trigger] diff_model(old, new, ranges, usize::MAX, word_level).sig[k],
            ),
    ensures
        ({
            let d = diff_model(old, new, ranges, usize::MAX, word_level);
            view_contents(kept_lines(view_of_range(d, lazy, s, 0, d.changes.len() as int, AnimationFrame::Idle)))
                == text_lines(new)
        }),
{
    let d = diff_model(old, new, ranges, usize::MAX, word_level);
    let cs = d.changes;
    let st = scan_spec(ranges, text_lines(old), text_lines(new), word_level);
    law_changes_rebuild_texts(old, new, ranges, word_level);
    lemma_scan_shaped(ranges, text_lines(old), text_lines(new), word_level);
    lemma_scan_uos(ranges, text_lines(old), text_lines(new), word_level);
    assert(cs == st.changes);
    assert(d.sig == st.sig);
    assert(cs.subrange(0, cs.len() as int) =~= cs);
    assert forall|i: int| 0 <= i < cs.len() implies unchanged_line(#[trigger] cs[i]) || s.applied.contains(cs[i].id) by {
        if !unchanged_line(cs[i]) {
            let k = choose|k: int| 0 <= k < d.sig.len() && d.sig[k] == cs[i].id;
            assert(s.applied.contains(d.sig[k]));
        }
    }
    assert forall|i: int, j: int| 0 <= i < cs.len() && 0 <= j < cs[i].spans.len() implies (
    #[trigger] cs[i].spans[j]).kind != ChangeKind::Replace by {
        assert(crate::diff::change_shaped(cs[i]));
    }
    lemma_fold_applied(d, lazy, s, cs, cs.len() as int);
    assert(cs.take(cs.len() as int) =~= cs);
    let p = |c: ChangeView| shows_new(c);
    let q = |c: ChangeView| on_new_side(c);
    assert forall|i: int| 0 <= i < cs.len() implies p(#[trigger] cs[i]) == q(cs[i]) by {
        assert(crate::diff::change_shaped(cs[i]));
        if !on_new_side(cs[i]) {
            assert(cs[i].spans.len() == 1 && cs[i].spans[0].kind == ChangeKind::Delete);
            if shows_new(cs[i]) {
                let j = choose|j: int| 0 <= j < cs[i].spans.len() && (#[trigger] cs[i].spans[j]).kind != ChangeKind::Delete;
                assert(j == 0);
            }
        }
    }
    lemma_filter_alike(cs, p, q);
}

} // verus!
