//! Searching the diff: a query compiled as a case-insensitive regular
//! expression (literally, when it is not one), the text each displayed
//! line is searched in, and the rows that match.

use crate::foreign::{
    ci_pattern_compiles, ci_pattern_matches, compile_ci_pattern, query_is_match, regex_escape, regex_escaped, str_trim,
    trim_spec,
};
use crate::change::{Change, ChangeView};
use crate::controls::{peek_mode_for_line, peek_mode_spec, PeekMode, PeekState};
use crate::display::{
    evo_line_visible, inline_text_for_change, modified_only_text_for_change, old_text_for_change, side_text,
    AnimationPhase, TextSide, ViewMode,
};
use crate::foreign::push_str;
use crate::step::{LineKind, ViewLine};
use regex::Regex;
use vstd::prelude::*;

verus! {

/// A compiled search query, kept with the pattern it was compiled from.
pub struct SearchQuery {
    pub(crate) pattern: String,
    pub(crate) regex: Regex,
}

impl SearchQuery {
    /// The pattern the query was compiled from.
    pub closed spec fn pattern_text(&self) -> Seq<char> {
        self.pattern@
    }

    /// The pattern the query was compiled from.
    pub fn pattern(&self) -> (r: &str)
        ensures
            r@ == self.pattern_text(),
    {
        self.pattern.as_str()
    }
}

/// The pattern a search query compiles to, once trimmed: none for an empty
/// query; the query itself when it is a regular expression; else the query
/// matched literally (escaped), when that compiles.
pub open spec fn search_pattern_spec(query: Seq<char>) -> Option<Seq<char>> {
    let q = trim_spec(query);
    if q.len() == 0 {
        None
    } else if ci_pattern_compiles(q) {
        Some(q)
    } else if ci_pattern_compiles(regex_escaped(q)) {
        Some(regex_escaped(q))
    } else {
        None
    }
}

/// Compiles a search query (see `search_pattern_spec`).
pub fn compile_search(query: &str) -> (r: Option<SearchQuery>)
    ensures
        match r {
            Some(q) => search_pattern_spec(query@) == Some(q.pattern_text()),
            None => search_pattern_spec(query@) is None,
        },
{
    let q = str_trim(query);
    if q.unicode_len() == 0 {
        return None;
    }
    let mut pattern = String::new();
    crate::foreign::push_str(&mut pattern, q);
    assert(pattern@ == q@);
    match compile_ci_pattern(pattern) {
        Some(c) => Some(c),
        None => compile_ci_pattern(regex_escape(q)),
    }
}

/// Whether a line's text matches the query.
pub fn line_has_query(text: &str, query: &SearchQuery) -> (b: bool)
    ensures
        b == ci_pattern_matches(query.pattern_text(), text@),
{
    query_is_match(query, text)
}

/// Whether a line shows a modified change.
pub open spec fn is_modified_line(kind: LineKind) -> bool {
    kind == LineKind::Modified || kind == LineKind::PendingModify
}

/// One side's text of the change a line shows (the change at the line's
/// change id), when that change exists and the text is not empty.
pub open spec fn change_text(changes: Seq<ChangeView>, change_id: usize, side: TextSide) -> Option<Seq<char>> {
    if change_id < changes.len() {
        let t = side_text(changes[change_id as int].spans, side, changes[change_id as int].spans.len() as int);
        if t.len() > 0 { Some(t) } else { None }
    } else {
        None
    }
}

/// The text of a line's change as a peek shows it: old text and new-only
/// text for modified lines only, mixed text for any line.
pub open spec fn peek_text(changes: Seq<ChangeView>, line: ViewLine, mode: PeekMode) -> Option<Seq<char>> {
    match mode {
        PeekMode::Old => if is_modified_line(line.kind) { change_text(changes, line.change_id, TextSide::Old) } else { None },
        PeekMode::Modified => if is_modified_line(line.kind) { change_text(changes, line.change_id, TextSide::New) } else { None },
        PeekMode::Mixed => change_text(changes, line.change_id, TextSide::Inline),
    }
}

/// The text a line of the single-pane or evolution view is searched in:
/// the text its peek shows, when it has one; else, without stepping, a
/// modified line's mixed text; else the line's content.
pub open spec fn search_text_spec(changes: Seq<ChangeView>, line: ViewLine, peek: Option<PeekMode>, stepping: bool) -> Seq<char> {
    let peeked = match peek {
        Some(m) => peek_text(changes, line, m),
        None => None,
    };
    match peeked {
        Some(t) => t,
        None => {
            let mixed = if !stepping && is_modified_line(line.kind) {
                change_text(changes, line.change_id, TextSide::Inline)
            } else {
                None
            };
            match mixed {
                Some(t) => t,
                None => line.content@,
            }
        },
    }
}

/// One side's text of a line's change (see `change_text`).
fn change_text_of(changes: &Vec<Change>, change_id: usize, side: TextSide) -> (r: Option<String>)
    ensures
        match r {
            Some(t) => change_text(crate::change::change_views(changes@), change_id, side) == Some(t@),
            None => change_text(crate::change::change_views(changes@), change_id, side) is None,
        },
{
    if change_id >= changes.len() {
        return None;
    }
    let c = &changes[change_id];
    let t = match side {
        TextSide::Old => old_text_for_change(c),
        TextSide::Inline => inline_text_for_change(c),
        TextSide::New => modified_only_text_for_change(c),
    };
    if t.unicode_len() > 0 {
        Some(t)
    } else {
        None
    }
}

/// The text a line of the single-pane or evolution view is searched in
/// (see `search_text_spec`); `peek` is how a peek shows the line.
pub fn search_text_unified(changes: &Vec<Change>, line: &ViewLine, peek: Option<PeekMode>, stepping: bool) -> (r: String)
    ensures
        r@ == search_text_spec(crate::change::change_views(changes@), *line, peek, stepping),
{
    let modified = match line.kind {
        LineKind::Modified | LineKind::PendingModify => true,
        _ => false,
    };
    let peeked = match peek {
        Some(PeekMode::Old) => if modified {
            change_text_of(changes, line.change_id, TextSide::Old)
        } else {
            None
        },
        Some(PeekMode::Modified) => if modified {
            change_text_of(changes, line.change_id, TextSide::New)
        } else {
            None
        },
        Some(PeekMode::Mixed) => change_text_of(changes, line.change_id, TextSide::Inline),
        None => None,
    };
    if let Some(t) = peeked {
        return t;
    }
    if !stepping && modified {
        if let Some(t) = change_text_of(changes, line.change_id, TextSide::Inline) {
            return t;
        }
    }
    line.content.clone()
}

/// The text a line of the split view's old side is searched in: a modified
/// line's old text when not empty, else its content; none for a line
/// without an old line number.
pub open spec fn split_old_text_spec(changes: Seq<ChangeView>, line: ViewLine) -> Option<Seq<char>> {
    if line.old_line is None {
        None
    } else {
        let old = if is_modified_line(line.kind) { change_text(changes, line.change_id, TextSide::Old) } else { None };
        match old {
            Some(t) => Some(t),
            None => Some(line.content@),
        }
    }
}

/// The text a line of the split view's old side is searched in (see
/// `split_old_text_spec`).
pub fn search_text_split_old(changes: &Vec<Change>, line: &ViewLine) -> (r: Option<String>)
    ensures
        match r {
            Some(t) => split_old_text_spec(crate::change::change_views(changes@), *line) == Some(t@),
            None => split_old_text_spec(crate::change::change_views(changes@), *line) is None,
        },
{
    if line.old_line.is_none() {
        return None;
    }
    let modified = match line.kind {
        LineKind::Modified | LineKind::PendingModify => true,
        _ => false,
    };
    if modified {
        if let Some(t) = change_text_of(changes, line.change_id, TextSide::Old) {
            return Some(t);
        }
    }
    Some(line.content.clone())
}

/// The text a line of the split view's new side is searched in: its
/// content; none for a line without a new line number.
pub fn search_text_split_new(line: &ViewLine) -> (r: Option<String>)
    ensures
        match r {
            Some(t) => line.new_line is Some && t@ == line.content@,
            None => line.new_line is None,
        },
{
    if line.new_line.is_none() {
        return None;
    }
    Some(line.content.clone())
}

/// How the search sees the viewer: the peek in force, whether it steps,
/// the current hunk, and how modified cursor lines show by default.
#[derive(Debug, Clone, Copy)]
pub struct SearchContext {
    pub peek: Option<PeekState>,
    pub stepping: bool,
    pub current_hunk: usize,
    pub base: PeekMode,
}

/// Whether the query matches a line of the single-pane or evolution view.
pub open spec fn unified_hit(changes: Seq<ChangeView>, line: ViewLine, ctx: SearchContext, pattern: Seq<char>) -> bool {
    let peek = peek_mode_spec(ctx.peek, ctx.stepping, line.kind, line.is_primary_active, line.hunk_index, ctx.current_hunk, ctx.base);
    ci_pattern_matches(pattern, search_text_spec(changes, line, peek, ctx.stepping))
}

/// Over the first `k` lines of the single-pane view (`evolution` false)
/// or the evolution view: the rows that match, and the rows displayed.
pub open spec fn unified_rows(view: Seq<ViewLine>, changes: Seq<ChangeView>, ctx: SearchContext, pattern: Seq<char>, evolution: bool, phase: AnimationPhase, k: int) -> (Seq<usize>, nat)
    decreases k,
{
    if k <= 0 {
        (Seq::empty(), 0)
    } else {
        let (rows, n) = unified_rows(view, changes, ctx, pattern, evolution, phase, k - 1);
        let line = view[k - 1];
        if evolution && !evo_line_visible(line@, phase) {
            (rows, n)
        } else if unified_hit(changes, line, ctx, pattern) {
            (rows.push(n as usize), n + 1)
        } else {
            (rows, n + 1)
        }
    }
}

/// Over the first `k` lines of the split view: the matching rows of the
/// old side and of the new side, and the rows each side displays (the new
/// side leaves deleted lines out).
pub open spec fn split_rows(view: Seq<ViewLine>, changes: Seq<ChangeView>, pattern: Seq<char>, k: int) -> (Seq<usize>, Seq<usize>, nat, nat)
    decreases k,
{
    if k <= 0 {
        (Seq::empty(), Seq::empty(), 0, 0)
    } else {
        let (olds, news, on, nn) = split_rows(view, changes, pattern, k - 1);
        let line = view[k - 1];
        let (olds2, on2) = match split_old_text_spec(changes, line) {
            Some(t) => (if ci_pattern_matches(pattern, t) { olds.push(on as usize) } else { olds }, on + 1),
            None => (olds, on),
        };
        let new_shown = line.new_line is Some && !(line.kind == LineKind::Deleted || line.kind == LineKind::PendingDelete);
        let (news2, nn2) = if new_shown {
            (if ci_pattern_matches(pattern, line.content@) { news.push(nn as usize) } else { news }, nn + 1)
        } else {
            (news, nn)
        };
        (olds2, news2, on2, nn2)
    }
}

/// Two sequences merged: repeatedly the smaller front element (the first
/// sequence's on a tie).
pub open spec fn merge_rows(a: Seq<usize>, b: Seq<usize>) -> Seq<usize>
    decreases a.len() + b.len(),
{
    if a.len() == 0 {
        b
    } else if b.len() == 0 {
        a
    } else if a[0] <= b[0] {
        seq![a[0]] + merge_rows(a.drop_first(), b)
    } else {
        seq![b[0]] + merge_rows(a, b.drop_first())
    }
}

/// The rows where the query matches in a view mode: in order of the
/// displayed rows; in the split view, both sides' rows merged in order.
pub open spec fn search_rows_spec(view: Seq<ViewLine>, changes: Seq<ChangeView>, ctx: SearchContext, pattern: Seq<char>, mode: ViewMode, phase: AnimationPhase) -> Seq<usize> {
    match mode {
        ViewMode::SinglePane => unified_rows(view, changes, ctx, pattern, false, phase, view.len() as int).0,
        ViewMode::Evolution => unified_rows(view, changes, ctx, pattern, true, phase, view.len() as int).0,
        ViewMode::Split => {
            let (olds, news, _, _) = split_rows(view, changes, pattern, view.len() as int);
            merge_rows(olds, news)
        },
    }
}

/// Two row lists merged (see `merge_rows`).
fn merge_row_lists(a: &Vec<usize>, b: &Vec<usize>) -> (r: Vec<usize>)
    ensures
        r@ == merge_rows(a@, b@),
{
    let mut out: Vec<usize> = Vec::new();
    let mut i: usize = 0;
    let mut j: usize = 0;
    proof {
        assert(a@.subrange(0, a@.len() as int) =~= a@);
        assert(b@.subrange(0, b@.len() as int) =~= b@);
        assert(out@ + merge_rows(a@, b@) =~= merge_rows(a@, b@));
    }
    while i < a.len() || j < b.len()
        invariant
            i <= a@.len(),
            j <= b@.len(),
            out@ + merge_rows(a@.subrange(i as int, a@.len() as int), b@.subrange(j as int, b@.len() as int)) == merge_rows(a@, b@),
        decreases a@.len() - i + b@.len() - j,
    {
        let ghost ra = a@.subrange(i as int, a@.len() as int);
        let ghost rb = b@.subrange(j as int, b@.len() as int);
        if i < a.len() && (j >= b.len() || a[i] <= b[j]) {
            proof {
                assert(ra.drop_first() =~= a@.subrange(i + 1, a@.len() as int));
                if rb.len() == 0 {
                    assert(merge_rows(ra, rb) == ra);
                    assert(ra =~= seq![ra[0]] + ra.drop_first());
                    assert(merge_rows(ra.drop_first(), rb) == ra.drop_first());
                }
            }
            out.push(a[i]);
            i = i + 1;
            proof {
                assert(out@ + merge_rows(a@.subrange(i as int, a@.len() as int), rb) =~= out@.drop_last() + merge_rows(ra, rb));
            }
        } else {
            proof {
                assert(rb.drop_first() =~= b@.subrange(j + 1, b@.len() as int));
                if ra.len() == 0 {
                    assert(merge_rows(ra, rb) == rb);
                    assert(rb =~= seq![rb[0]] + rb.drop_first());
                    assert(merge_rows(ra, rb.drop_first()) == rb.drop_first());
                }
            }
            out.push(b[j]);
            j = j + 1;
            proof {
                assert(out@ + merge_rows(ra, b@.subrange(j as int, b@.len() as int)) =~= out@.drop_last() + merge_rows(ra, rb));
            }
        }
    }
    proof {
        assert(a@.subrange(i as int, a@.len() as int).len() == 0);
        assert(out@ + merge_rows(Seq::empty(), Seq::empty()) =~= out@);
    }
    out
}

/// The rows where the query matches in a view mode (see
/// `search_rows_spec`).
pub fn collect_search_matches(
    view: &Vec<ViewLine>,
    changes: &Vec<Change>,
    ctx: SearchContext,
    query: &SearchQuery,
    mode: ViewMode,
    phase: AnimationPhase,
) -> (r: Vec<usize>)
    ensures
        r@ == search_rows_spec(view@, crate::change::change_views(changes@), ctx, query.pattern_text(), mode, phase),
{
    let ghost cv = crate::change::change_views(changes@);
    let ghost pattern = query.pattern_text();
    match mode {
        ViewMode::Split => {
            let mut olds: Vec<usize> = Vec::new();
            let mut news: Vec<usize> = Vec::new();
            let mut on: usize = 0;
            let mut nn: usize = 0;
            let mut k: usize = 0;
            while k < view.len()
                invariant
                    k <= view@.len(),
                    cv == crate::change::change_views(changes@),
                    pattern == query.pattern_text(),
                    (olds@, news@, on as nat, nn as nat) == split_rows(view@, cv, pattern, k as int),
                    on <= k,
                    nn <= k,
                decreases view@.len() - k,
            {
                let line = &view[k];
                if let Some(t) = search_text_split_old(changes, line) {
                    if line_has_query(t.as_str(), query) {
                        olds.push(on);
                    }
                    on = on + 1;
                }
                let deleted = match line.kind {
                    LineKind::Deleted | LineKind::PendingDelete => true,
                    _ => false,
                };
                if line.new_line.is_some() && !deleted {
                    if line_has_query(line.content.as_str(), query) {
                        news.push(nn);
                    }
                    nn = nn + 1;
                }
                k = k + 1;
            }
            merge_row_lists(&olds, &news)
        },
        _ => {
            let evolution = match mode {
                ViewMode::Evolution => true,
                _ => false,
            };
            let mut rows: Vec<usize> = Vec::new();
            let mut n: usize = 0;
            let mut k: usize = 0;
            while k < view.len()
                invariant
                    k <= view@.len(),
                    cv == crate::change::change_views(changes@),
                    pattern == query.pattern_text(),
                    (rows@, n as nat) == unified_rows(view@, cv, ctx, pattern, evolution, phase, k as int),
                    n <= k,
                decreases view@.len() - k,
            {
                let line = &view[k];
                let visible = if evolution {
                    match line.kind {
                        LineKind::Deleted => false,
                        LineKind::PendingDelete => line.is_active && match phase {
                            AnimationPhase::Idle => false,
                            _ => true,
                        },
                        _ => true,
                    }
                } else {
                    true
                };
                if visible {
                    let peek = peek_mode_for_line(ctx.peek, ctx.stepping, line, ctx.current_hunk, ctx.base);
                    let text = search_text_unified(changes, line, peek, ctx.stepping);
                    if line_has_query(text.as_str(), query) {
                        rows.push(n);
                    }
                    n = n + 1;
                }
                k = k + 1;
            }
            rows
        },
    }
}


/// The text copied for a line: what its peek shows, when it has one; else
/// its content.
pub open spec fn yank_text_spec(changes: Seq<ChangeView>, line: ViewLine, peek: Option<PeekMode>) -> Seq<char> {
    let peeked = match peek {
        Some(m) => peek_text(changes, line, m),
        None => None,
    };
    match peeked {
        Some(t) => t,
        None => line.content@,
    }
}

/// The text copied for a line (see `yank_text_spec`); `peek` is how a peek
/// shows the line.
pub fn text_for_yank(changes: &Vec<Change>, line: &ViewLine, peek: Option<PeekMode>) -> (r: String)
    ensures
        r@ == yank_text_spec(crate::change::change_views(changes@), *line, peek),
{
    let modified = match line.kind {
        LineKind::Modified | LineKind::PendingModify => true,
        _ => false,
    };
    let peeked = match peek {
        Some(PeekMode::Old) => if modified {
            change_text_of(changes, line.change_id, TextSide::Old)
        } else {
            None
        },
        Some(PeekMode::Modified) => if modified {
            change_text_of(changes, line.change_id, TextSide::New)
        } else {
            None
        },
        Some(PeekMode::Mixed) => change_text_of(changes, line.change_id, TextSide::Inline),
        None => None,
    };
    match peeked {
        Some(t) => t,
        None => line.content.clone(),
    }
}

/// The copied texts of the first `k` lines that belong to hunk `hunk`.
pub open spec fn hunk_yank_lines(view: Seq<ViewLine>, changes: Seq<ChangeView>, ctx: SearchContext, hunk: usize, k: int) -> Seq<Seq<char>>
    decreases k,
{
    if k <= 0 {
        Seq::empty()
    } else {
        let before = hunk_yank_lines(view, changes, ctx, hunk, k - 1);
        let line = view[k - 1];
        if line.hunk_index == Some(hunk) {
            let peek = peek_mode_spec(ctx.peek, ctx.stepping, line.kind, line.is_primary_active, line.hunk_index, ctx.current_hunk, ctx.base);
            before.push(yank_text_spec(changes, line, peek))
        } else {
            before
        }
    }
}

/// Texts joined with a newline between each two.
pub open spec fn join_lines(lines: Seq<Seq<char>>) -> Seq<char>
    decreases lines.len(),
{
    if lines.len() == 0 {
        Seq::empty()
    } else if lines.len() == 1 {
        lines[0]
    } else {
        join_lines(lines.drop_last()) + "\n"@ + lines.last()
    }
}

/// The text copied for a hunk: the copied texts of its lines, in order,
/// one per line; none when no line belongs to it.
pub fn yank_hunk_text(view: &Vec<ViewLine>, changes: &Vec<Change>, ctx: SearchContext, hunk: usize) -> (r: Option<String>)
    ensures
        ({
            let lines = hunk_yank_lines(view@, crate::change::change_views(changes@), ctx, hunk, view@.len() as int);
            match r {
                Some(t) => lines.len() > 0 && t@ == join_lines(lines),
                None => lines.len() == 0,
            }
        }),
{
    let ghost cv = crate::change::change_views(changes@);
    let mut out = String::new();
    let mut count: usize = 0;
    let mut k: usize = 0;
    while k < view.len()
        invariant
            k <= view@.len(),
            cv == crate::change::change_views(changes@),
            count as int == hunk_yank_lines(view@, cv, ctx, hunk, k as int).len(),
            count <= k,
            out@ == join_lines(hunk_yank_lines(view@, cv, ctx, hunk, k as int)),
        decreases view@.len() - k,
    {
        let line = &view[k];
        if line.hunk_index == Some(hunk) {
            let peek = peek_mode_for_line(ctx.peek, ctx.stepping, line, ctx.current_hunk, ctx.base);
            let t = text_for_yank(changes, line, peek);
            let ghost before = hunk_yank_lines(view@, cv, ctx, hunk, k as int);
            let ghost after = before.push(t@);
            assert(after.drop_last() =~= before);
            if count > 0 {
                push_str(&mut out, "\n");
            } else {
                assert(before.len() == 0);
            }
            push_str(&mut out, t.as_str());
            count = count + 1;
            proof {
                if before.len() == 0 {
                    assert(out@ =~= t@);
                } else {
                    assert(out@ =~= join_lines(before) + "\n"@ + t@);
                }
            }
        }
        k = k + 1;
    }
    if count == 0 {
        None
    } else {
        Some(out)
    }
}

} // verus!
