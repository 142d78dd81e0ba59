use oyo_core::color::{color_rgba, Color};
use oyo_core::config::{config_candidates, join_path};
use oyo_core::controls::{NoStepEntry, NoStepState, PeekMode, PeekScope, PeekState};
use oyo_core::display::ViewMode;
use oyo_core::mode_memory::{ModeMemory, ToggleOutcome, ViewerPos};
use oyo_core::status_bar::{status_line, StatusInput};

fn input() -> StatusInput {
    StatusInput {
        view_mode: ViewMode::SinglePane,
        stepping: true,
        autoplay: false,
        autoplay_reverse: false,
        search: None,
        current_step: 2,
        total_steps: 9,
        insertions: 12,
        deletions: 3,
        current_hunk: 1,
        total_hunks: 4,
        file_index: 0,
        file_count: 2,
        path: "src/main.rs".to_string(),
        branch: Some("dev".to_string()),
        width: 80,
    }
}

#[test]
fn status_bar_texts_and_padding() {
    let s = status_line(&input());
    assert_eq!(s.mode, " SINGLE ");
    assert_eq!(s.scope, "src/main.rs@dev");
    assert_eq!(s.center, "  step 3/9");
    assert_eq!(s.right, "+12 -3  hunk 1/4  file 1/2 ");
    // middle starts at 40 - 5 = 35; left is 8 + 1 + 15 = 24 bytes.
    assert_eq!(s.left_pad, 11);
    assert_eq!(s.right_pad, 80 - (35 + 10 + 27));
}

#[test]
fn status_bar_search_and_narrow_bars() {
    let mut i = input();
    i.search = Some(String::new());
    i.width = 50;
    i.total_hunks = 0;
    i.view_mode = ViewMode::Evolution;
    let s = status_line(&i);
    assert_eq!(s.mode, " EVOLUTION ");
    assert_eq!(s.center, "/ Search");
    assert_eq!(s.right, "+12 -3  file 1/2 ");
    // room: 50 - (8 + 17 + 11 + 1 + 4) = 9 bytes.
    assert_eq!(s.scope, "...rs@dev");
    i.search = None;
    i.autoplay = true;
    i.autoplay_reverse = true;
    assert_eq!(status_line(&i).center, "◀ step 3/9");
}

#[test]
fn named_colors_for_the_highlighter() {
    assert_eq!(color_rgba(Color::Rgb(1, 2, 3)), (1, 2, 3, 255));
    assert_eq!(color_rgba(Color::Blue), (0, 0, 238, 255));
    assert_eq!(color_rgba(Color::LightBlue), (92, 92, 255, 255));
    assert_eq!(color_rgba(Color::DarkGray), (127, 127, 127, 255));
    assert_eq!(color_rgba(Color::Indexed(5)), (255, 255, 255, 255));
    assert_eq!(color_rgba(Color::Reset), (255, 255, 255, 255));
}

#[test]
fn config_file_candidates_in_order() {
    assert_eq!(join_path("/home/u/", "x"), "/home/u/x");
    assert_eq!(join_path("", "x"), "x");
    assert_eq!(
        config_candidates(Some("/x"), Some("/home/u"), Some("/home/u/.config")),
        vec!["/x/oyo/config.toml", "/home/u/.config/oyo/config.toml"]
    );
    assert_eq!(
        config_candidates(None, Some("/Users/u"), Some("/Users/u/Library/Application Support")),
        vec!["/Users/u/.config/oyo/config.toml", "/Users/u/Library/Application Support/oyo/config.toml"]
    );
    assert!(config_candidates(None, None, None).is_empty());
}

#[test]
fn toggling_stepping_keeps_each_ways_view() {
    let mut m = ModeMemory::new(2, true, ViewMode::SinglePane);
    let peek = Some(PeekState { scope: PeekScope::Change, mode: PeekMode::Old });
    let start = ViewerPos { scroll: 12, hscroll: 4, view_mode: ViewMode::Evolution, peek };
    let mut pos = start;
    let here = NoStepState { current_hunk: 3, cursor_change: Some(9), last_nav_was_hunk: true };
    let r = m.toggle_stepping(1, &mut pos, here, true);
    assert_eq!(r, ToggleOutcome::LeftStepping(NoStepEntry::FirstHunk));
    assert_eq!(pos, ViewerPos { scroll: 12, hscroll: 4, view_mode: ViewMode::SinglePane, peek: None });
    pos.scroll = 40;
    let r = m.toggle_stepping(1, &mut pos, here, true);
    assert_eq!(r, ToggleOutcome::EnteredStepping);
    assert_eq!(pos, start);
    let r = m.toggle_stepping(1, &mut pos, here, true);
    assert_eq!(r, ToggleOutcome::LeftStepping(NoStepEntry::Cursor(3, Some(9))));
    assert_eq!(pos.scroll, 40);
}
