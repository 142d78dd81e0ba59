use oyo_core::file_panel::{
    file_group, file_leaf, file_list_rows, file_status_counts, fit_file_name, FileCountMode, FileListRow, ListLayout,
};
use oyo_core::multi::{FileEntry, FileStatus};

fn entry(name: &str, status: FileStatus, ins: usize, del: usize) -> FileEntry {
    FileEntry {
        path: name.to_string(),
        old_path: None,
        display_name: name.to_string(),
        status,
        insertions: ins,
        deletions: del,
    }
}

fn files() -> Vec<FileEntry> {
    vec![
        entry("README.md", FileStatus::Modified, 1, 1),
        entry("src/a.rs", FileStatus::Added, 10, 0),
        entry("src/b.rs", FileStatus::Untracked, 0, 0),
        entry("docs/c.md", FileStatus::Deleted, 0, 4),
        entry("x.txt", FileStatus::Renamed, 0, 0),
    ]
}

#[test]
fn status_counts_group_untracked_with_added() {
    assert_eq!(file_status_counts(&files()), (2, 1, 1, 1));
    assert_eq!(file_status_counts(&vec![]), (0, 0, 0, 0));
}

#[test]
fn groups_and_leaves() {
    assert_eq!(file_group("src/app/main.rs"), "src/app");
    assert_eq!(file_group("main.rs"), "Root Path");
    assert_eq!(file_leaf("src/app/main.rs"), "main.rs");
    assert_eq!(file_leaf("main.rs"), "main.rs");
}

fn describe(rows: &[FileListRow]) -> Vec<String> {
    rows.iter()
        .map(|r| match r {
            FileListRow::Blank => "-".to_string(),
            FileListRow::Group(g) => format!("[{}]", g),
            FileListRow::File(f) => format!(
                "{}{}:{}:{}:{:?}",
                if f.selected { "*" } else { "" },
                f.file,
                f.name,
                f.name_max,
                f.signs
            ),
        })
        .collect()
}

#[test]
fn rows_group_files_under_their_directories() {
    let layout = ListLayout { selected: 1, width: 30, focused: false, count_mode: FileCountMode::Active };
    let shown: Vec<usize> = (0..5).collect();
    let rows = file_list_rows(&files(), &shown, layout, 0, 20);
    assert_eq!(
        describe(&rows),
        vec![
            "[Root Path]",
            "0:README.md:26:None",
            "-",
            "[src]",
            "*1:a.rs:19:Some((10, 0))",
            "2:b.rs:26:None",
            "-",
            "[docs]",
            "3:c.md:26:None",
            "-",
            "[Root Path]",
            "4:x.txt:26:None",
        ]
    );
}

#[test]
fn rows_stop_when_the_list_is_full() {
    let layout = ListLayout { selected: 0, width: 30, focused: true, count_mode: FileCountMode::All };
    let shown: Vec<usize> = (0..5).collect();
    let rows = file_list_rows(&files(), &shown, layout, 1, 6);
    assert_eq!(describe(&rows), vec!["[src]", "1:a.rs:19:Some((10, 0))", "2:b.rs:26:None", "-"]);
    assert!(file_list_rows(&files(), &shown, layout, 0, 2).is_empty());
    let off = ListLayout { count_mode: FileCountMode::Off, ..layout };
    assert_eq!(describe(&file_list_rows(&files(), &shown, off, 0, 4)), vec!["[Root Path]", "*0:README.md:26:None"]);
}

#[test]
fn names_are_cut_from_the_left() {
    assert_eq!(fit_file_name("main.rs", 10), "main.rs");
    assert_eq!(fit_file_name("a_long_name.rs", 5), "…e.rs");
    assert_eq!(fit_file_name("a_long_name.rs", 1), "…");
}
