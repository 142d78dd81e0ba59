use oyo_core::blame::{
    blame_display_from_info, blame_key_for_line, blame_uncommitted_display, should_force_uncommitted_blame,
    widen_time_range, BlameInfo,
};
use oyo_core::prefetch::BlameSide;
use oyo_core::step::{LineKind, ViewLine};

fn line(kind: LineKind, old: Option<usize>, new: Option<usize>, has_changes: bool) -> ViewLine {
    ViewLine {
        content: String::new(),
        spans: vec![],
        kind,
        old_line: old,
        new_line: new,
        is_active: false,
        is_active_change: false,
        is_primary_active: false,
        show_hunk_extent: false,
        change_id: 0,
        hunk_index: None,
        has_changes,
    }
}

#[test]
fn blame_keys_pick_the_side_of_each_line() {
    assert_eq!(blame_key_for_line(&line(LineKind::Deleted, Some(4), None, true)), Some((BlameSide::Old, 4)));
    assert_eq!(blame_key_for_line(&line(LineKind::Context, Some(4), None, false)), Some((BlameSide::Old, 4)));
    assert_eq!(blame_key_for_line(&line(LineKind::Inserted, None, Some(7), true)), Some((BlameSide::New, 7)));
    assert_eq!(blame_key_for_line(&line(LineKind::Modified, Some(3), Some(5), true)), Some((BlameSide::New, 5)));
    assert_eq!(blame_key_for_line(&line(LineKind::Context, Some(3), Some(5), true)), Some((BlameSide::Old, 3)));
    assert_eq!(blame_key_for_line(&line(LineKind::Context, Some(3), Some(5), false)), Some((BlameSide::New, 5)));
    assert_eq!(blame_key_for_line(&line(LineKind::Deleted, None, Some(5), true)), None);
    assert_eq!(blame_key_for_line(&line(LineKind::Context, None, None, false)), None);
}

#[test]
fn changed_lines_of_uncommitted_text_are_uncommitted() {
    assert!(should_force_uncommitted_blame(true, LineKind::Inserted));
    assert!(should_force_uncommitted_blame(true, LineKind::PendingDelete));
    assert!(!should_force_uncommitted_blame(true, LineKind::Context));
    assert!(!should_force_uncommitted_blame(false, LineKind::Modified));
}

#[test]
fn time_ranges_widen() {
    assert_eq!(widen_time_range(None, 50), (50, 50));
    assert_eq!(widen_time_range(Some((10, 20)), 5), (5, 20));
    assert_eq!(widen_time_range(Some((10, 20)), 25), (10, 25));
    assert_eq!(widen_time_range(Some((10, 20)), 15), (10, 20));
}

#[test]
fn blame_displays() {
    let d = blame_uncommitted_display();
    assert_eq!(d.group_key, "uncommitted");
    assert_eq!(d.text, "Uncommitted");
    assert!(d.uncommitted && d.author_time.is_none());
    let info = BlameInfo {
        author: "Ann".to_string(),
        commit: "0123456789abcdef".to_string(),
        uncommitted: false,
        author_time: Some(1_700_000_000),
        summary: "Fix it".to_string(),
    };
    let d = blame_display_from_info(&info, None, "2 days ago");
    assert_eq!(d.group_key, "0123456789abcdef");
    assert_eq!(d.text, "Ann, 2 days ago 01234567 Fix it");
    assert_eq!(d.author_time, Some(1_700_000_000));
    assert!(!d.uncommitted);
    let mine = blame_display_from_info(&info, Some("Ann"), "now");
    assert_eq!(mine.text, "You, now 01234567 Fix it");
    let local = BlameInfo { uncommitted: true, ..info };
    let d = blame_display_from_info(&local, None, "now");
    assert_eq!(d.group_key, "uncommitted");
    assert_eq!(d.text, "Uncommitted");
}
