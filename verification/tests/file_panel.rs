use oyo_core::file_panel::{
    clamp_file_panel_width, ensure_selection_matches_filter, update_file_list_scroll, FilePanel, ListClick,
};

#[test]
fn panel_width_stays_in_bounds() {
    assert_eq!(clamp_file_panel_width(30, 120), 30);
    assert_eq!(clamp_file_panel_width(10, 120), 24);
    assert_eq!(clamp_file_panel_width(100, 120), 70);
    assert_eq!(clamp_file_panel_width(100, 60), 24);
}

#[test]
fn resizing_by_keys_and_drag() {
    let mut p = FilePanel::new();
    p.resize_file_panel(5, 120);
    assert_eq!(p.width, 35);
    assert!(p.manually_set);
    p.resize_file_panel(-100, 120);
    assert_eq!(p.width, 24);
    p.panel_rect = Some((0, 1, 24, 30));
    assert!(!p.start_file_panel_resize(10, 5));
    assert!(p.start_file_panel_resize(23, 5));
    assert!(p.resizing);
    assert!(p.drag_file_panel_resize(39, 120));
    assert_eq!(p.width, 40);
    p.end_file_panel_resize();
    assert!(!p.drag_file_panel_resize(60, 120));
    assert_eq!(p.width, 40);
}

#[test]
fn toggling_the_panel() {
    let mut p = FilePanel::new();
    p.list_focused = true;
    p.toggle_file_panel();
    assert!(!p.visible);
    assert!(!p.list_focused);
    p.toggle_file_panel();
    assert!(p.visible);
    let mut q = FilePanel::new();
    q.auto_hidden = true;
    q.toggle_file_panel();
    assert!(q.visible);
}

#[test]
fn clicks_in_the_file_list() {
    let mut p = FilePanel::new();
    p.filter_area = Some((0, 0, 30, 1));
    p.list_area = Some((0, 1, 30, 10));
    p.list_rows = vec![Some(0), None, Some(2)];
    assert_eq!(p.handle_file_list_click(5, 0), ListClick::StartFilter);
    assert!(p.list_focused);
    assert_eq!(p.handle_file_list_click(5, 1), ListClick::Handled);
    assert_eq!(p.handle_file_list_click(5, 2), ListClick::Select(0));
    assert_eq!(p.handle_file_list_click(5, 3), ListClick::Handled);
    assert_eq!(p.handle_file_list_click(5, 4), ListClick::Select(2));
    assert_eq!(p.handle_file_list_click(5, 8), ListClick::Handled);
    p.filter_active = true;
    assert_eq!(p.handle_file_list_click(50, 4), ListClick::Handled);
    assert!(!p.list_focused);
    assert!(!p.filter_active);
    assert_eq!(p.handle_file_list_click(50, 4), ListClick::Outside);
}

#[test]
fn list_scroll_follows_the_selection() {
    let shown: Vec<usize> = (0..50).collect();
    assert_eq!(update_file_list_scroll(&shown, 5, 10), 5);
    assert_eq!(update_file_list_scroll(&shown, 25, 0), 6);
    assert_eq!(update_file_list_scroll(&shown, 12, 0), 0);
    assert_eq!(update_file_list_scroll(&vec![], 3, 7), 0);
    assert_eq!(update_file_list_scroll(&vec![4, 9], 7, 3), 0);
}

#[test]
fn selection_moves_into_the_filtered_files() {
    assert_eq!(ensure_selection_matches_filter(true, &vec![2, 5], 3), Some(2));
    assert_eq!(ensure_selection_matches_filter(true, &vec![2, 5], 5), None);
    assert_eq!(ensure_selection_matches_filter(false, &vec![2, 5], 3), None);
    assert_eq!(ensure_selection_matches_filter(true, &vec![], 3), None);
}
