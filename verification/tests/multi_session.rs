use oyo_core::multi::{
    reads_new_side, reads_old_side, skips_dir_entry, ChangedFile, FileStatus, MultiDiffError, MultiFileDiff,
};
use oyo_core::step::StepDirection;

fn s(text: &str) -> String {
    text.to_string()
}

#[test]
fn file_pair_session_has_one_modified_file() {
    let multi = MultiFileDiff::from_file_pair(s("a.txt"), s("b.txt"), s("one\ntwo\n"), s("one\n2\n"));
    assert_eq!(multi.file_count(), 1);
    assert!(!multi.is_multi_file());
    let file = multi.current_file().unwrap();
    assert_eq!(file.path, "b.txt");
    assert_eq!(file.display_name, "b.txt");
    assert_eq!(file.old_path, None);
    assert_eq!(file.status, FileStatus::Modified);
    assert_eq!((file.insertions, file.deletions), (1, 1));
    assert_eq!(multi.total_stats(), (1, 1));
    assert!(!multi.current_old_is_empty());
    assert!(!multi.current_new_is_empty());
    assert!(!multi.is_git_mode());
    assert_eq!(multi.repo_root(), None);
    assert_eq!(multi.git_range_display(), None);
}

#[test]
fn navigator_is_built_once_and_kept() {
    let mut multi = MultiFileDiff::from_file_pair(s("a"), s("a"), s("x\ny\n"), s("x\nz\nw\n"));
    assert_eq!(multi.current_step_direction(), StepDirection::Unset);
    {
        let nav = multi.current_navigator().unwrap();
        assert_eq!(nav.state().current_step, 0);
        assert!(nav.next());
    }
    assert_eq!(multi.current_step_direction(), StepDirection::Forward);
    let nav = multi.current_navigator().unwrap();
    assert_eq!(nav.state().current_step, 1);
}

#[test]
fn moving_between_files() {
    let pairs = vec![
        (s("a"), s("1\n"), s("2\n")),
        (s("b"), s("1\n"), s("1\n3\n")),
        (s("c"), s("4\n5\n"), s("")),
    ];
    let mut multi = MultiFileDiff::from_file_pairs(pairs);
    assert_eq!(multi.file_count(), 3);
    assert!(multi.is_multi_file());
    assert_eq!(multi.total_stats(), (2, 3));
    assert!(multi.next_file());
    assert!(multi.next_file());
    assert!(!multi.next_file());
    assert_eq!(multi.selected_index, 2);
    assert!(multi.current_new_is_empty());
    assert!(multi.prev_file());
    assert_eq!(multi.selected_index, 1);
    multi.select_file(10);
    assert_eq!(multi.selected_index, 1);
    multi.select_file(0);
    assert!(!multi.prev_file());
    assert_eq!(multi.current_file().unwrap().path, "a");
}

#[test]
fn next_then_prev_returns_to_the_same_file() {
    let pairs = vec![(s("a"), s("1\n"), s("2\n")), (s("b"), s("1\n"), s("3\n"))];
    let mut multi = MultiFileDiff::from_file_pairs(pairs);
    assert!(multi.next_file());
    assert!(multi.prev_file());
    assert_eq!(multi.selected_index, 0);
}

#[test]
fn empty_session_selects_nothing() {
    let mut multi = MultiFileDiff::from_file_pairs(vec![]);
    assert_eq!(multi.file_count(), 0);
    assert!(multi.current_file().is_none());
    assert!(!multi.next_file());
    assert!(!multi.prev_file());
    assert!(multi.current_old_is_empty());
    assert_eq!(multi.total_stats(), (0, 0));
}

#[test]
fn refreshing_the_current_file_updates_stats_and_resets_navigator() {
    let mut multi = MultiFileDiff::from_file_pair(s("a"), s("a"), s("x\n"), s("y\n"));
    {
        let nav = multi.current_navigator().unwrap();
        assert!(nav.next());
    }
    multi.refresh_current_file(s("x\n"), s("x\ny\nz\n"));
    let file = multi.current_file().unwrap();
    assert_eq!((file.insertions, file.deletions), (2, 0));
    assert_eq!(multi.current_step_direction(), StepDirection::Unset);
    let nav = multi.current_navigator().unwrap();
    assert_eq!(nav.state().current_step, 0);
}

fn change(path: &str, status: FileStatus) -> ChangedFile {
    ChangedFile { path: s(path), old_path: None, status }
}

#[test]
fn git_sessions_keep_root_and_show_ranges() {
    let changes = vec![change("src/lib.rs", FileStatus::Modified)];
    let contents = vec![(s("a\n"), s("b\n"))];
    let multi = MultiFileDiff::from_git_range(s("/repo"), changes, contents, s("abcdef123456"), s("HEAD"));
    assert!(multi.is_git_mode());
    assert_eq!(multi.repo_root(), Some("/repo"));
    assert_eq!(multi.git_range_display(), Some((s("abcdef1"), s("HEAD"))));

    let changes = vec![change("x", FileStatus::Added)];
    let contents = vec![(s(""), s("b\n"))];
    let multi = MultiFileDiff::from_git_index_range(s("/repo"), changes, contents, s("0123456789"), true);
    assert_eq!(multi.git_range_display(), Some((s("0123456"), s("STAGED"))));
    assert_eq!(multi.total_stats(), (1, 0));

    let multi = MultiFileDiff::from_git_index_range(s("/repo"), vec![], vec![], s("INDEX"), false);
    assert_eq!(multi.git_range_display(), Some((s("STAGED"), s("STAGED"))));

    let multi = MultiFileDiff::from_git_staged(s("/repo"), vec![], vec![]);
    assert_eq!(multi.git_range_display(), None);
}

#[test]
fn refresh_all_rebuilds_git_sessions_only() {
    let mut plain = MultiFileDiff::from_file_pair(s("a"), s("a"), s("x\n"), s("y\n"));
    assert!(!plain.refresh_all_from_git(vec![], vec![]));
    assert_eq!(plain.file_count(), 1);

    let changes = vec![
        change("a", FileStatus::Modified),
        change("b", FileStatus::Deleted),
        change("c", FileStatus::Untracked),
    ];
    let contents = vec![(s("1\n"), s("2\n")), (s("1\n"), s("")), (s(""), s("n\n"))];
    let mut multi = MultiFileDiff::from_git_changes(s("/repo"), changes, contents);
    multi.select_file(2);
    let changes = vec![ChangedFile { path: s("d"), old_path: Some(s("a")), status: FileStatus::Renamed }];
    let contents = vec![(s("1\n"), s("1\n"))];
    assert!(multi.refresh_all_from_git(changes, contents));
    assert_eq!(multi.file_count(), 1);
    assert_eq!(multi.selected_index, 0);
    let file = multi.current_file().unwrap();
    assert_eq!(file.old_path, Some(s("a")));
    assert_eq!(file.status, FileStatus::Renamed);
    assert_eq!((file.insertions, file.deletions), (0, 0));
}

#[test]
fn directory_listing_skips_equal_files() {
    let listing = vec![
        (s("added.txt"), None, Some(s("new\n"))),
        (s("same.txt"), Some(s("x\n")), Some(s("x\n"))),
        (s("gone.txt"), Some(s("old\n")), None),
        (s("edit.txt"), Some(s("a\n")), Some(s("b\n"))),
    ];
    let multi = MultiFileDiff::from_directory_listing(listing);
    assert_eq!(multi.file_count(), 3);
    let names: Vec<&str> = multi.files.iter().map(|f| f.path.as_str()).collect();
    assert_eq!(names, vec!["added.txt", "gone.txt", "edit.txt"]);
    assert_eq!(multi.files[0].status, FileStatus::Added);
    assert_eq!(multi.files[1].status, FileStatus::Deleted);
    assert_eq!(multi.files[2].status, FileStatus::Modified);
    assert!(multi.current_old_is_empty());
}

#[test]
fn which_sides_are_read() {
    assert!(!reads_old_side(FileStatus::Added));
    assert!(!reads_old_side(FileStatus::Untracked));
    assert!(reads_old_side(FileStatus::Deleted));
    assert!(reads_new_side(FileStatus::Added));
    assert!(!reads_new_side(FileStatus::Deleted));
    assert!(reads_new_side(FileStatus::Renamed));
}

#[test]
fn directory_walk_skips_hidden_and_build_dirs() {
    assert!(skips_dir_entry(".git"));
    assert!(skips_dir_entry("node_modules"));
    assert!(skips_dir_entry("target"));
    assert!(!skips_dir_entry("src"));
    assert!(!skips_dir_entry("targets"));
    assert!(!skips_dir_entry(""));
}

#[test]
fn error_messages() {
    assert_eq!(MultiDiffError::Io(s("denied")).message(), "IO error: denied");
    assert_eq!(MultiDiffError::Git(s("not a repo")).message(), "Git error: not a repo");
}
