use oyo_core::change::{Change, ChangeSpan};
use oyo_core::controls::{PeekMode, PeekScope, PeekState};
use oyo_core::display::{AnimationPhase, ViewMode};
use oyo_core::search::{
    collect_search_matches, compile_search, line_has_query, search_text_split_new, search_text_split_old,
    search_text_unified, text_for_yank, yank_hunk_text, SearchContext,
};
use oyo_core::step::{LineKind, ViewLine};

fn line(content: &str, kind: LineKind, old: Option<usize>, new: Option<usize>, change_id: usize) -> ViewLine {
    ViewLine {
        content: content.to_string(),
        spans: vec![],
        kind,
        old_line: old,
        new_line: new,
        is_active: false,
        is_active_change: false,
        is_primary_active: false,
        show_hunk_extent: false,
        change_id,
        hunk_index: None,
        has_changes: kind != LineKind::Context,
    }
}

fn plain_context() -> SearchContext {
    SearchContext { peek: None, stepping: true, current_hunk: 0, base: PeekMode::Mixed }
}

#[test]
fn empty_query_compiles_to_nothing() {
    assert!(compile_search("").is_none());
    assert!(compile_search("   ").is_none());
}

#[test]
fn query_is_trimmed_before_compiling() {
    let q = compile_search("  Foo ").unwrap();
    assert_eq!(q.pattern(), "Foo");
}

#[test]
fn invalid_regex_falls_back_to_literal() {
    let q = compile_search("a(").unwrap();
    assert_eq!(q.pattern(), "a\\(");
    assert!(line_has_query("call a(b)", &q));
    assert!(!line_has_query("call ab", &q));
}

#[test]
fn search_is_case_insensitive_regex() {
    let q = compile_search("fo+").unwrap();
    assert!(line_has_query("xxFOOOxx", &q));
    assert!(!line_has_query("f o", &q));
}

#[test]
fn single_pane_rows_in_view_order() {
    let view = vec![
        line("Hello", LineKind::Context, Some(1), Some(1), 0),
        line("world", LineKind::Context, Some(2), Some(2), 1),
        line("HELLO again", LineKind::Context, Some(3), Some(3), 2),
    ];
    let q = compile_search("hello").unwrap();
    let rows = collect_search_matches(&view, &vec![], plain_context(), &q, ViewMode::SinglePane, AnimationPhase::Idle);
    assert_eq!(rows, vec![0, 2]);
}

#[test]
fn evolution_skips_deleted_rows() {
    let view = vec![
        line("hello gone", LineKind::Deleted, Some(1), None, 0),
        line("kept", LineKind::Context, Some(2), Some(1), 1),
        line("hello kept", LineKind::Inserted, None, Some(2), 2),
    ];
    let q = compile_search("hello").unwrap();
    let rows = collect_search_matches(&view, &vec![], plain_context(), &q, ViewMode::Evolution, AnimationPhase::Idle);
    assert_eq!(rows, vec![1]);
    let single = collect_search_matches(&view, &vec![], plain_context(), &q, ViewMode::SinglePane, AnimationPhase::Idle);
    assert_eq!(single, vec![0, 2]);
}

#[test]
fn split_rows_merge_both_panes_in_order() {
    let view = vec![
        line("match old", LineKind::Deleted, Some(1), None, 0),
        line("other", LineKind::Context, Some(2), Some(1), 1),
        line("match new", LineKind::Inserted, None, Some(2), 2),
        line("match both", LineKind::Context, Some(3), Some(3), 3),
    ];
    let q = compile_search("match").unwrap();
    let rows = collect_search_matches(&view, &vec![], plain_context(), &q, ViewMode::Split, AnimationPhase::Idle);
    // old pane rows: 0 (match old), 1 (other), 2 (match both) -> [0, 2]
    // new pane rows: 0 (other), 1 (match new), 2 (match both) -> [1, 2]
    assert_eq!(rows, vec![0, 1, 2, 2]);
}

fn modified_change() -> Change {
    Change::new(
        0,
        vec![
            ChangeSpan::equal("let x = ".to_string()),
            ChangeSpan::replace("alpha".to_string(), "beta".to_string()),
        ],
    )
}

#[test]
fn modified_line_text_depends_on_peek_and_stepping() {
    let changes = vec![modified_change()];
    let l = line("let x = beta", LineKind::Modified, Some(1), Some(1), 0);
    assert_eq!(search_text_unified(&changes, &l, None, true), "let x = beta");
    assert_eq!(search_text_unified(&changes, &l, None, false), "let x = alphabeta");
    assert_eq!(search_text_unified(&changes, &l, Some(PeekMode::Old), true), "let x = alpha");
    assert_eq!(search_text_unified(&changes, &l, Some(PeekMode::Modified), true), "let x = beta");
    assert_eq!(search_text_unified(&changes, &l, Some(PeekMode::Mixed), true), "let x = alphabeta");
}

#[test]
fn split_texts_of_each_side() {
    let changes = vec![modified_change()];
    let l = line("let x = beta", LineKind::Modified, Some(1), Some(1), 0);
    assert_eq!(search_text_split_old(&changes, &l), Some("let x = alpha".to_string()));
    assert_eq!(search_text_split_new(&l), Some("let x = beta".to_string()));
    let ins = line("new", LineKind::Inserted, None, Some(2), 1);
    assert_eq!(search_text_split_old(&changes, &ins), None);
}

#[test]
fn peek_on_the_cursor_line_finds_old_text() {
    let changes = vec![modified_change()];
    let mut l = line("let x = beta", LineKind::Modified, Some(1), Some(1), 0);
    l.is_primary_active = true;
    let view = vec![l];
    let q = compile_search("alpha").unwrap();
    let ctx = SearchContext {
        peek: Some(PeekState { scope: PeekScope::Change, mode: PeekMode::Old }),
        stepping: true,
        current_hunk: 0,
        base: PeekMode::Mixed,
    };
    let rows = collect_search_matches(&view, &changes, ctx, &q, ViewMode::SinglePane, AnimationPhase::Idle);
    assert_eq!(rows, vec![0]);
    let modified_only = SearchContext { peek: None, stepping: true, current_hunk: 0, base: PeekMode::Modified };
    let rows = collect_search_matches(&view, &changes, modified_only, &q, ViewMode::SinglePane, AnimationPhase::Idle);
    assert_eq!(rows, Vec::<usize>::new());
    let rows = collect_search_matches(&view, &changes, plain_context(), &q, ViewMode::SinglePane, AnimationPhase::Idle);
    assert_eq!(rows, vec![0]);
}

#[test]
fn yanked_text_follows_the_peek() {
    let changes = vec![modified_change()];
    let l = line("let x = beta", LineKind::Modified, Some(1), Some(1), 0);
    assert_eq!(text_for_yank(&changes, &l, None), "let x = beta");
    assert_eq!(text_for_yank(&changes, &l, Some(PeekMode::Old)), "let x = alpha");
    assert_eq!(text_for_yank(&changes, &l, Some(PeekMode::Mixed)), "let x = alphabeta");
    let c = line("plain", LineKind::Context, Some(2), Some(2), 1);
    assert_eq!(text_for_yank(&changes, &c, Some(PeekMode::Old)), "plain");
}

#[test]
fn yanked_hunk_joins_its_lines() {
    let mut a = line("one", LineKind::Inserted, None, Some(1), 1);
    a.hunk_index = Some(0);
    let mut b = line("two", LineKind::Inserted, None, Some(2), 2);
    b.hunk_index = Some(0);
    let c = line("ctx", LineKind::Context, Some(1), Some(3), 3);
    let mut d = line("three", LineKind::Deleted, Some(2), None, 4);
    d.hunk_index = Some(1);
    let view = vec![a, b, c, d];
    assert_eq!(yank_hunk_text(&view, &vec![], plain_context(), 0), Some("one\ntwo".to_string()));
    assert_eq!(yank_hunk_text(&view, &vec![], plain_context(), 1), Some("three".to_string()));
    assert_eq!(yank_hunk_text(&view, &vec![], plain_context(), 2), None);
}

#[test]
fn literal_fallback_escapes_every_meta_character() {
    let q = compile_search("[a-b]+ (x#~&").unwrap();
    assert_eq!(q.pattern(), "\\[a\\-b\\]\\+ \\(x\\#\\~\\&");
    assert!(line_has_query("see [A-B]+ (X#~& here", &q));
}

#[test]
fn query_trims_unicode_whitespace() {
    let q = compile_search("\u{3000}\u{2003}Foo\u{a0}\t").unwrap();
    assert_eq!(q.pattern(), "Foo");
}
