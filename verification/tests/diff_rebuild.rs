use oyo_core::change::{Change, ChangeKind};
use oyo_core::diff::{DiffEngine, DiffResult};
use oyo_core::step::{AnimationFrame, DiffNavigator};
use oyo_core::view::LineKind;

fn side_text(c: &Change, old_side: bool) -> Option<String> {
    let mut on_side = true;
    let mut text = String::new();
    for s in &c.spans {
        let line = if old_side { s.old_line } else { s.new_line };
        if line.is_none() {
            on_side = false;
        }
        let shown = match s.kind {
            ChangeKind::Insert => !old_side,
            ChangeKind::Delete => old_side,
            _ => true,
        };
        if shown {
            text.push_str(&s.text);
        }
    }
    if on_side {
        Some(text)
    } else {
        None
    }
}

fn sides(d: &DiffResult, old_side: bool) -> Vec<String> {
    d.changes.iter().filter_map(|c| side_text(c, old_side)).collect()
}

fn full(word_level: bool) -> DiffEngine {
    DiffEngine::new().with_context(usize::MAX).with_word_level(word_level)
}

#[test]
fn changes_rebuild_both_texts_word_level() {
    let old = "fn main() {\n    let x = 1;\n    println!(\"{}\", x);\n}\n";
    let new = "fn main() {\n    let y = 2;\n    println!(\"{}\", y);\n    done();\n}\n";
    let d = full(true).diff_strings(old, new);
    assert_eq!(sides(&d, true), old.lines().map(String::from).collect::<Vec<_>>());
    assert_eq!(sides(&d, false), new.lines().map(String::from).collect::<Vec<_>>());
}

#[test]
fn changes_rebuild_both_texts_line_level() {
    let old = "a\nb\nc\nd\n";
    let new = "a\nB\nc\nd\ne\n";
    let d = full(false).diff_strings(old, new);
    assert_eq!(sides(&d, true), vec!["a", "b", "c", "d"]);
    assert_eq!(sides(&d, false), vec!["a", "B", "c", "d", "e"]);
}

#[test]
fn different_texts_give_a_change() {
    let d = DiffEngine::new().diff_strings("a", "b");
    assert!(!d.significant_changes.is_empty());
    assert!(!d.hunks.is_empty());
    let same_lines = DiffEngine::new().diff_strings("a", "a\n");
    assert!(!same_lines.significant_changes.is_empty());
}

#[test]
fn counts_stay_within_the_texts() {
    let old = "a\nb\nc\n";
    let new = "x\ny\n";
    let d = DiffEngine::new().with_word_level(false).diff_strings(old, new);
    assert_eq!(d.deletions, 3);
    assert_eq!(d.insertions, 2);
    assert!(d.deletions <= old.lines().count());
    assert_eq!(old.lines().count() - d.deletions, new.lines().count() - d.insertions);
}

#[test]
fn line_level_counters_count_edit_lines() {
    let old = "a\nb\nc\nd\n";
    let new = "a\nX\nc\nY\nZ\n";
    let d = full(false).diff_strings(old, new);
    let dels = d.changes.iter().filter(|c| c.spans[0].kind == ChangeKind::Delete).count();
    let ins = d.changes.iter().filter(|c| c.spans[0].kind == ChangeKind::Insert).count();
    assert_eq!(d.deletions, dels);
    assert_eq!(d.insertions, ins);
    for id in &d.significant_changes {
        let c = d.changes.iter().find(|c| c.id == *id).unwrap();
        assert_eq!(c.spans.len(), 1);
        assert!(c.spans[0].kind == ChangeKind::Delete || c.spans[0].kind == ChangeKind::Insert);
    }
}

#[test]
fn first_step_shows_old_last_step_shows_new() {
    let old = "one\ntwo\nthree\nfour\n";
    let new = "one\ntoo\nthree\nfive\nsix\n";
    let diff = full(true).diff_strings(old, new);
    let mut nav = DiffNavigator::new(diff, old.to_string(), new.to_string(), false);
    let start: Vec<String> = nav.current_view().into_iter().map(|l| l.content).collect();
    assert_eq!(start, vec!["one", "two", "three", "four"]);
    nav.goto_end();
    let end: Vec<String> = nav
        .current_view_with_frame(AnimationFrame::Idle)
        .into_iter()
        .filter(|l| l.kind != LineKind::Deleted && l.kind != LineKind::PendingDelete)
        .map(|l| l.content)
        .collect();
    assert_eq!(end, vec!["one", "too", "three", "five", "six"]);
}

#[test]
fn prev_hunk_lands_at_hunk_start_and_animates_it() {
    let old = "a\nb\nc\nd\ne\nf\ng\nh\ni\nj\n";
    let new = "A\nb\nc\nd\ne\nf\ng\nh\ni\nJ\n";
    let diff = DiffEngine::new().diff_strings(old, new);
    let mut nav = DiffNavigator::new(diff, old.to_string(), new.to_string(), false);
    nav.goto_end();
    let hunk = nav.state().current_hunk;
    let start = nav.hunk_step_range(hunk).unwrap().0;
    assert!(nav.prev_hunk());
    assert_eq!(nav.state().current_step, start);
    assert_eq!(nav.state().animating_hunk, Some(hunk));
}
