use oyo_core::change::ChangeKind;
use oyo_core::diff::DiffEngine;
use oyo_core::tokens::tokenize_code;
#[test]
fn test_simple_diff() {
    let engine = DiffEngine::new();
    let old = "foo\nbar\nbaz";
    let new = "foo\nqux\nbaz";

    let result = engine.diff_strings(old, new);

    assert_eq!(result.insertions, 1);
    assert_eq!(result.deletions, 1);
    assert!(!result.significant_changes.is_empty());
}

#[test]
fn test_no_changes() {
    let engine = DiffEngine::new();
    let text = "foo\nbar\nbaz";

    let result = engine.diff_strings(text, text);

    assert_eq!(result.insertions, 0);
    assert_eq!(result.deletions, 0);
    assert!(result.significant_changes.is_empty());
}

#[test]
fn test_word_level_diff() {
    let engine = DiffEngine::new().with_word_level(true);
    let old = "const foo = 4";
    let new = "const bar = 4";

    let result = engine.diff_strings(old, new);

    // Should have a single change with word-level spans
    assert_eq!(result.significant_changes.len(), 1);
}

#[test]
fn test_tokenize_code_basic() {
    let tokens = tokenize_code("KeyModifiers, MouseEventKind}");
    assert_eq!(
        tokens,
        vec!["KeyModifiers", ",", " ", "MouseEventKind", "}"]
    );
}

#[test]
fn test_tokenize_code_identifiers() {
    let tokens = tokenize_code("foo_bar baz123");
    assert_eq!(tokens, vec!["foo_bar", " ", "baz123"]);
}

#[test]
fn test_tokenize_code_punctuation() {
    let tokens = tokenize_code("use foo::{A, B};");
    assert_eq!(
        tokens,
        vec!["use", " ", "foo", ":", ":", "{", "A", ",", " ", "B", "}", ";"]
    );
}

#[test]
fn test_word_diff_punctuation_separation() {
    // This is the exact bug case: adding MouseEventKind to an import list
    let engine = DiffEngine::new().with_word_level(true);
    let old = "use foo::{KeyModifiers};";
    let new = "use foo::{KeyModifiers, MouseEventKind};";

    let result = engine.diff_strings(old, new);

    // Should have one change
    assert_eq!(result.significant_changes.len(), 1);

    let change = &result.changes[result.significant_changes[0]];

    // Find spans by kind
    let equal_content: String = change
        .spans
        .iter()
        .filter(|s| s.kind == ChangeKind::Equal)
        .map(|s| s.text.as_str())
        .collect();
    let insert_content: String = change
        .spans
        .iter()
        .filter(|s| s.kind == ChangeKind::Insert)
        .map(|s| s.text.as_str())
        .collect();

    // KeyModifiers should be in equal spans (unchanged)
    assert!(
        equal_content.contains("KeyModifiers"),
        "KeyModifiers should be equal, got equal: '{}', insert: '{}'",
        equal_content,
        insert_content
    );

    // MouseEventKind should be in insert spans (new)
    assert!(
        insert_content.contains("MouseEventKind"),
        "MouseEventKind should be inserted, got equal: '{}', insert: '{}'",
        equal_content,
        insert_content
    );

    // KeyModifiers should NOT be in insert spans
    assert!(
        !insert_content.contains("KeyModifiers"),
        "KeyModifiers should not be inserted, got insert: '{}'",
        insert_content
    );
}

#[test]
fn test_hunks_are_contiguous_in_significant_changes() {
    let engine = DiffEngine::new();
    let old = "a\nb\nc\nd\ne\nf\ng\nh\ni\nj\nk\nl\nm\nn\n";
    let new = "a\nB\nc\nd\ne\nf\ng\nh\nI\nj\nk\nL\nm\nn\n";

    let result = engine.diff_strings(old, new);

    assert!(
        result.hunks.len() >= 2,
        "expected multiple hunks for contiguity test"
    );

    for hunk in &result.hunks {
        if hunk.change_ids.is_empty() {
            continue;
        }
        let mut positions = Vec::new();
        for id in &hunk.change_ids {
            let pos = result
                .significant_changes
                .iter()
                .position(|sid| sid == id)
                .expect("hunk change id should exist in significant_changes");
            positions.push(pos);
        }
        for pair in positions.windows(2) {
            assert_eq!(
                pair[1],
                pair[0] + 1,
                "hunk change ids should be contiguous in significant_changes"
            );
        }
        let start = positions[0];
        for (offset, id) in hunk.change_ids.iter().enumerate() {
            assert_eq!(
                result.significant_changes[start + offset],
                *id,
                "hunk change order should match significant_changes"
            );
        }
    }
}

#[test]
fn unchanged_lines_match_on_both_sides() {
    for (old, new) in [
        ("a\nb\nc\n", "a\nx\ny\nc\n"),
        ("", "one\ntwo\n"),
        ("same\n", "same\n"),
        ("a\nb\nc\nd\ne\n", "b\nc\nE\nf\n"),
    ] {
        for context in [0usize, 1, 3, usize::MAX] {
            let d = DiffEngine::new().with_context(context).diff_strings(old, new);
            assert_eq!(old.lines().count() - d.deletions, new.lines().count() - d.insertions);
            let all = DiffEngine::new().with_context(usize::MAX).diff_strings(old, new);
            assert_eq!(d.significant_changes, all.significant_changes);
            assert_eq!((d.insertions, d.deletions), (all.insertions, all.deletions));
            assert_eq!(d.hunks.len(), all.hunks.len());
            for (a, b) in d.hunks.iter().zip(all.hunks.iter()) {
                assert_eq!(a.change_ids, b.change_ids);
                assert_eq!((a.old_start, a.new_start, a.insertions, a.deletions), (b.old_start, b.new_start, b.insertions, b.deletions));
            }
        }
    }
}

#[test]
fn without_word_level_every_change_is_one_line() {
    let d = DiffEngine::new().with_word_level(false).diff_strings("let a = 1;\nkeep\n", "let a = 2;\nkeep\n");
    for change in &d.changes {
        assert_eq!(change.spans.len(), 1);
    }
    assert_eq!((d.insertions, d.deletions), (1, 1));
}
