//! The file panel of a multi-file view: its width, showing and hiding it,
//! resizing it with the mouse, clicks in the file list, and the scrolling
//! that keeps the selected file in sight. Areas are given as column, row,
//! width and height on the screen.

use crate::controls::{find_position, position_of};
use crate::display::{byte_tail, last_segment_start, tail_bytes};
use crate::foreign::push_str;
use vstd::utf8::{encode_utf8, is_char_boundary};
use vstd::string::StringSliceAdditionalSpecFns;
use crate::multi::{FileEntry, FileStatus};
use crate::text::{decimal, decimal_spec, str_equals, to_owned_string};
use vstd::prelude::*;

verus! {

/// The narrowest the file panel gets.
pub const FILE_PANEL_MIN_WIDTH: u16 = 24;

/// The narrowest the diff view beside the panel gets.
pub const DIFF_VIEW_MIN_WIDTH: u16 = 50;

/// How many files the list is taken to show at once.
pub const FILE_LIST_VISIBLE_ROWS: usize = 20;

/// `a + b`, at most `u16::MAX`.
pub open spec fn sat_add16(a: u16, b: u16) -> int {
    if a + b > u16::MAX { u16::MAX as int } else { a + b }
}

/// `a - b`, at least 0.
pub open spec fn sat_sub16(a: u16, b: u16) -> int {
    if a >= b { a - b } else { 0 }
}

/// An area's first column.
pub open spec fn area_left(area: (u16, u16, u16, u16)) -> u16 {
    area.0
}

/// An area's first row.
pub open spec fn area_top(area: (u16, u16, u16, u16)) -> u16 {
    area.1
}

/// Whether a cell lies in an area (its far edges cut at `u16::MAX`).
pub open spec fn in_area(area: (u16, u16, u16, u16), column: u16, row: u16) -> bool {
    &&& area.0 <= column
    &&& column < sat_add16(area.0, area.2)
    &&& area.1 <= row
    &&& row < sat_add16(area.1, area.3)
}

/// Whether a cell lies in an area (see `in_area`).
fn area_contains(area: (u16, u16, u16, u16), column: u16, row: u16) -> (b: bool)
    ensures
        b == in_area(area, column, row),
{
    let end_x = area.0.saturating_add(area.2);
    let end_y = area.1.saturating_add(area.3);
    column >= area.0 && column < end_x && row >= area.1 && row < end_y
}

/// A panel width kept between the minimum and what leaves the diff view
/// its minimum (never below the panel's minimum).
pub open spec fn clamp_width_spec(width: u16, viewport_width: u16) -> int {
    let room = sat_sub16(viewport_width, DIFF_VIEW_MIN_WIDTH);
    let max_panel = if room > FILE_PANEL_MIN_WIDTH { room } else { FILE_PANEL_MIN_WIDTH as int };
    if width < FILE_PANEL_MIN_WIDTH {
        FILE_PANEL_MIN_WIDTH as int
    } else if width > max_panel {
        max_panel
    } else {
        width as int
    }
}

/// A panel width kept in its bounds (see `clamp_width_spec`).
pub fn clamp_file_panel_width(width: u16, viewport_width: u16) -> (w: u16)
    ensures
        w == clamp_width_spec(width, viewport_width),
        FILE_PANEL_MIN_WIDTH <= w,
{
    let room = viewport_width.saturating_sub(DIFF_VIEW_MIN_WIDTH);
    let max_panel = if room > FILE_PANEL_MIN_WIDTH {
        room
    } else {
        FILE_PANEL_MIN_WIDTH
    };
    if width < FILE_PANEL_MIN_WIDTH {
        FILE_PANEL_MIN_WIDTH
    } else if width > max_panel {
        max_panel
    } else {
        width
    }
}

/// What a click in the file panel asks of the caller.
#[derive(Debug, Clone, Copy, PartialEq, Eq, Structural)]
pub enum ListClick {
    /// Not the panel's click.
    Outside,
    /// Taken by the panel; nothing more to do.
    Handled,
    /// Open the file filter.
    StartFilter,
    /// Select the file at this position.
    Select(usize),
}

/// The file panel's state, with the areas of the last drawing.
#[derive(Debug, Clone)]
pub struct FilePanel {
    pub visible: bool,
    /// Shown or hidden by hand (no longer by the screen's width).
    pub manually_set: bool,
    /// Hidden for want of room at the last drawing.
    pub auto_hidden: bool,
    pub width: u16,
    /// A mouse drag of the panel's edge is under way.
    pub resizing: bool,
    pub list_focused: bool,
    pub filter_active: bool,
    pub filter_area: Option<(u16, u16, u16, u16)>,
    pub list_area: Option<(u16, u16, u16, u16)>,
    pub panel_rect: Option<(u16, u16, u16, u16)>,
    /// The file shown on each row of the list below its title (none for a
    /// row without a file).
    pub list_rows: Vec<Option<usize>>,
}

impl FilePanel {
    /// A visible panel of the default width, nothing drawn yet.
    pub fn new() -> (p: Self)
        ensures
            p.visible,
            !p.manually_set && !p.auto_hidden && !p.resizing && !p.list_focused && !p.filter_active,
            p.width == 30,
            p.filter_area is None && p.list_area is None && p.panel_rect is None,
            p.list_rows@.len() == 0,
    {
        FilePanel {
            visible: true,
            manually_set: false,
            auto_hidden: false,
            width: 30,
            resizing: false,
            list_focused: false,
            filter_active: false,
            filter_area: None,
            list_area: None,
            panel_rect: None,
            list_rows: Vec::new(),
        }
    }

    /// Shows or hides the panel by hand: the first time, it shows a panel
    /// hidden for want of room and else hides it; after that it flips. A
    /// hidden panel loses the focus.
    pub fn toggle_file_panel(&mut self)
        ensures
            final(self).manually_set,
            final(self).visible == (if old(self).manually_set { !old(self).visible } else { old(self).auto_hidden }),
            final(self).list_focused == (old(self).list_focused && final(self).visible),
            final(self).width == old(self).width,
            final(self).resizing == old(self).resizing,
            final(self).filter_active == old(self).filter_active,
            final(self).auto_hidden == old(self).auto_hidden,
    {
        if self.manually_set {
            self.visible = !self.visible;
        } else {
            self.manually_set = true;
            self.visible = self.auto_hidden;
        }
        if !self.visible {
            self.list_focused = false;
        }
    }

    /// Widens (or narrows) the panel by `delta` columns, within its bounds
    /// for the viewport; the panel is then set by hand.
    pub fn resize_file_panel(&mut self, delta: i16, viewport_width: u16)
        ensures
            ({
                let grown = (old(self).width as i16) + delta;
                let next = if grown > i16::MAX { i16::MAX as int } else if grown < i16::MIN { i16::MIN as int } else { grown };
                let floor = if next < FILE_PANEL_MIN_WIDTH { FILE_PANEL_MIN_WIDTH as int } else { next };
                final(self).width == clamp_width_spec(floor as u16, viewport_width)
            }),
            final(self).manually_set,
            final(self).visible == old(self).visible,
            final(self).resizing == old(self).resizing,
    {
        let grown: i32 = (self.width as i16) as i32 + delta as i32;
        let next: i16 = if grown > 32767 {
            32767
        } else if grown < -32768 {
            -32768
        } else {
            grown as i16
        };
        let floor: i16 = if next < 24i16 {
            24i16
        } else {
            next
        };
        self.width = clamp_file_panel_width(floor as u16, viewport_width);
        self.manually_set = true;
    }

    /// Starts a drag of the panel's right edge when the press is on it.
    pub fn start_file_panel_resize(&mut self, column: u16, row: u16) -> (started: bool)
        ensures
            started == (old(self).panel_rect matches Some(r) && column == sat_add16(r.0, sat_sub16(r.2, 1) as u16)
                && r.1 <= row && row < sat_add16(r.1, r.3)),
            started ==> final(self).resizing && final(self).manually_set,
            !started ==> final(self).resizing == old(self).resizing && final(self).manually_set == old(self).manually_set,
            final(self).width == old(self).width,
            final(self).visible == old(self).visible,
    {
        let (x, y, width, height) = match self.panel_rect {
            Some(r) => r,
            None => return false,
        };
        let sep_x = x.saturating_add(width.saturating_sub(1));
        let end_y = y.saturating_add(height);
        if column == sep_x && row >= y && row < end_y {
            self.resizing = true;
            self.manually_set = true;
            return true;
        }
        false
    }

    /// While a drag runs, moves the panel's right edge to `column` (the
    /// width within its bounds for the viewport).
    pub fn drag_file_panel_resize(&mut self, column: u16, viewport_width: u16) -> (moved: bool)
        ensures
            moved == (old(self).resizing && old(self).panel_rect is Some),
            moved ==> final(self).width == clamp_width_spec(
                sat_add16(sat_sub16(column, area_left(old(self).panel_rect->0)) as u16, 1) as u16,
                viewport_width,
            ),
            !moved ==> final(self).width == old(self).width,
            final(self).resizing == old(self).resizing,
            final(self).manually_set == old(self).manually_set,
    {
        if !self.resizing {
            return false;
        }
        match self.panel_rect {
            Some(r) => {
                let width = column.saturating_sub(r.0).saturating_add(1);
                self.width = clamp_file_panel_width(width, viewport_width);
                true
            },
            None => false,
        }
    }

    /// Ends a drag of the panel's edge.
    pub fn end_file_panel_resize(&mut self)
        ensures
            !final(self).resizing,
            final(self).width == old(self).width,
    {
        self.resizing = false;
    }

    /// The outcome of a click at a cell (see `handle_file_list_click`).
    pub open spec fn click_spec(self, column: u16, row: u16) -> (bool, bool, ListClick) {
        if self.filter_area matches Some(a) && in_area(a, column, row) {
            (true, self.filter_active, ListClick::StartFilter)
        } else if !(self.list_area matches Some(a) && in_area(a, column, row)) {
            if self.list_focused {
                (false, false, ListClick::Handled)
            } else {
                (false, self.filter_active, ListClick::Outside)
            }
        } else {
            let item_start = sat_add16(area_top(self.list_area->0), 1);
            if row < item_start {
                (true, self.filter_active, ListClick::Handled)
            } else {
                let k = row - item_start;
                if 0 <= k < self.list_rows@.len() && self.list_rows@[k] is Some {
                    (true, self.filter_active, ListClick::Select(self.list_rows@[k]->0))
                } else {
                    (true, self.filter_active, ListClick::Handled)
                }
            }
        }
    }

    /// A click at a cell: in the filter box it focuses the list and asks to
    /// open the filter; outside the list it takes the focus away (and
    /// closes the filter) when the list had it, and is not the panel's
    /// click otherwise; on the list's title it focuses the list; on a row
    /// it focuses the list and asks to select the row's file, if any. The
    /// result is the focus, whether the filter stays open, and the request.
    pub fn handle_file_list_click(&mut self, column: u16, row: u16) -> (r: ListClick)
        ensures
            (final(self).list_focused, final(self).filter_active, r) == old(self).click_spec(column, row),
            final(self).width == old(self).width,
            final(self).visible == old(self).visible,
            final(self).list_rows@ == old(self).list_rows@,
            final(self).list_area == old(self).list_area,
            final(self).filter_area == old(self).filter_area,
    {
        if let Some(a) = self.filter_area {
            if area_contains(a, column, row) {
                self.list_focused = true;
                return ListClick::StartFilter;
            }
        }
        let inside = match self.list_area {
            Some(a) => area_contains(a, column, row),
            None => false,
        };
        if !inside {
            if self.list_focused {
                self.list_focused = false;
                self.filter_active = false;
                return ListClick::Handled;
            }
            return ListClick::Outside;
        }
        let y = match self.list_area {
            Some(a) => a.1,
            None => 0,
        };
        let item_start = y.saturating_add(1);
        self.list_focused = true;
        if row < item_start {
            return ListClick::Handled;
        }
        let k = (row - item_start) as usize;
        if k < self.list_rows.len() {
            if let Some(f) = self.list_rows[k] {
                return ListClick::Select(f);
            }
        }
        ListClick::Handled
    }
}

/// The list's scroll that keeps the selected file in sight: none without
/// shown files; else the scroll moves up to the selected file's position
/// (the first, when it is not shown) when that is above, and down so that
/// it is the last of `FILE_LIST_VISIBLE_ROWS` rows when it is below.
pub open spec fn file_list_scroll_spec(shown: Seq<usize>, selected: usize, scroll: usize) -> int {
    if shown.len() == 0 {
        0
    } else {
        let pos = match position_of(shown, selected) {
            Some(p) => p,
            None => 0,
        };
        let s = if pos < scroll { pos } else { scroll as int };
        if pos >= s + FILE_LIST_VISIBLE_ROWS { pos - (FILE_LIST_VISIBLE_ROWS - 1) } else { s }
    }
}

/// The list's scroll that keeps the selected file in sight (see
/// `file_list_scroll_spec`).
pub fn update_file_list_scroll(shown: &Vec<usize>, selected: usize, scroll: usize) -> (r: usize)
    ensures
        r == file_list_scroll_spec(shown@, selected, scroll),
{
    if shown.len() == 0 {
        return 0;
    }
    let pos = match find_position(shown, selected) {
        Some(p) => p,
        None => 0,
    };
    let s = if pos < scroll {
        pos
    } else {
        scroll
    };
    if pos >= s && pos - s >= FILE_LIST_VISIBLE_ROWS {
        pos - (FILE_LIST_VISIBLE_ROWS - 1)
    } else {
        s
    }
}

/// The file to select so that the selection is among the shown files: the
/// first shown file, when a filter is set, some files are shown, and the
/// selected one is not among them; none otherwise.
pub fn ensure_selection_matches_filter(filter_set: bool, shown: &Vec<usize>, selected: usize) -> (r: Option<usize>)
    ensures
        r == (if filter_set && shown@.len() > 0 && !shown@.contains(selected) { Some(shown@[0]) } else { None }),
{
    if !filter_set || shown.len() == 0 {
        return None;
    }
    match find_position(shown, selected) {
        Some(_) => None,
        None => {
            proof {
                if shown@.contains(selected) {
                    let k = choose|k: int| 0 <= k < shown@.len() && shown@[k] == selected;
                    assert(exists|k: int| 0 <= k < shown@.len() && shown@[k] == selected);
                }
            }
            Some(shown[0])
        },
    }
}


/// How many files of each kind a multi-file diff holds: added (untracked
/// ones too), modified, deleted and renamed, among the first `n`.
pub open spec fn status_counts_spec(files: Seq<FileEntry>, n: int) -> (int, int, int, int)
    decreases n,
{
    if n <= 0 {
        (0, 0, 0, 0)
    } else {
        let (a, m, d, r) = status_counts_spec(files, n - 1);
        match files[n - 1].status {
            FileStatus::Added | FileStatus::Untracked => (a + 1, m, d, r),
            FileStatus::Modified => (a, m + 1, d, r),
            FileStatus::Deleted => (a, m, d + 1, r),
            FileStatus::Renamed => (a, m, d, r + 1),
        }
    }
}

/// How many files of each kind the panel's header counts (see
/// `status_counts_spec`).
pub fn file_status_counts(files: &Vec<FileEntry>) -> (r: (usize, usize, usize, usize))
    ensures
        (r.0 as int, r.1 as int, r.2 as int, r.3 as int) == status_counts_spec(files@, files@.len() as int),
{
    let mut a: usize = 0;
    let mut m: usize = 0;
    let mut d: usize = 0;
    let mut r: usize = 0;
    let mut i: usize = 0;
    while i < files.len()
        invariant
            i <= files@.len(),
            (a as int, m as int, d as int, r as int) == status_counts_spec(files@, i as int),
            a + m + d + r == i,
        decreases files@.len() - i,
    {
        match files[i].status {
            FileStatus::Added | FileStatus::Untracked => a = a + 1,
            FileStatus::Modified => m = m + 1,
            FileStatus::Deleted => d = d + 1,
            FileStatus::Renamed => r = r + 1,
        }
        i = i + 1;
    }
    (a, m, d, r)
}

/// The group a file is listed under: the directory part of its name
/// (before the last `/`), or `Root Path` without one.
pub open spec fn file_group_spec(name: Seq<char>) -> Seq<char> {
    let ls = last_segment_start(name, name.len() as int);
    if ls == 0 { "Root Path"@ } else { name.subrange(0, ls - 1) }
}

/// The part of a file's name after its last `/`.
pub open spec fn file_leaf_spec(name: Seq<char>) -> Seq<char> {
    name.subrange(last_segment_start(name, name.len() as int), name.len() as int)
}

/// The index just after the last `/` of a text (see `last_segment_start`).
fn leaf_start(name: &str) -> (k: usize)
    ensures
        k as int == last_segment_start(name@, name@.len() as int),
        k <= name@.len(),
{
    let n = name.unicode_len();
    let mut k: usize = n;
    while k > 0 && name.get_char(k - 1) != '/'
        invariant
            k <= n,
            n == name@.len(),
            last_segment_start(name@, n as int) == last_segment_start(name@, k as int),
        decreases k,
    {
        k = k - 1;
    }
    proof {
        lemma_last_segment_bound(name@, k as int);
    }
    k
}

proof fn lemma_last_segment_bound(s: Seq<char>, n: int)
    ensures
        n >= 0 ==> 0 <= last_segment_start(s, n) <= n,
        n >= 1 && s[n - 1] == '/' ==> last_segment_start(s, n) == n,
    decreases n,
{
    if n > 0 {
        lemma_last_segment_bound(s, n - 1);
    }
}

/// The group a file is listed under (see `file_group_spec`).
pub fn file_group(name: &str) -> (g: String)
    ensures
        g@ == file_group_spec(name@),
{
    let k = leaf_start(name);
    if k == 0 {
        proof {
            reveal_strlit("Root Path");
        }
        to_owned_string("Root Path")
    } else {
        proof {
            lemma_last_segment_bound(name@, name@.len() as int);
        }
        to_owned_string(name.substring_char(0, k - 1))
    }
}

/// The part of a file's name after its last `/` (see `file_leaf_spec`).
pub fn file_leaf(name: &str) -> (l: String)
    ensures
        l@ == file_leaf_spec(name@),
{
    let k = leaf_start(name);
    to_owned_string(name.substring_char(k, name.unicode_len()))
}

/// Which rows of the file list show their line counts.
#[derive(Debug, Clone, Copy, PartialEq, Eq, Structural)]
pub enum FileCountMode {
    /// The selected file's row.
    Active,
    /// Every row while the list has the focus.
    Focused,
    /// Every row.
    All,
    /// No row.
    Off,
}

/// A file's row in the list.
#[derive(Debug, Clone)]
pub struct FileRow {
    /// The file's position among all files.
    pub file: usize,
    pub selected: bool,
    pub status: FileStatus,
    /// The name after its last `/`.
    pub name: String,
    /// The bytes the name may take (it is cut from the left beyond them).
    pub name_max: usize,
    /// The line counts shown, inserted and deleted.
    pub signs: Option<(usize, usize)>,
}

/// A row of the file list.
#[derive(Debug, Clone)]
pub enum FileListRow {
    /// A gap before a new group.
    Blank,
    /// A group's heading: its directory.
    Group(String),
    File(FileRow),
}

/// A file row as plain values.
pub struct FileRowView {
    pub file: usize,
    pub selected: bool,
    pub status: FileStatus,
    pub name: Seq<char>,
    pub name_max: usize,
    pub signs: Option<(usize, usize)>,
}

/// A row as plain values.
pub enum FileListRowView {
    Blank,
    Group(Seq<char>),
    File(FileRowView),
}

impl View for FileListRow {
    type V = FileListRowView;

    open spec fn view(&self) -> FileListRowView {
        match self {
            FileListRow::Blank => FileListRowView::Blank,
            FileListRow::Group(g) => FileListRowView::Group(g@),
            FileListRow::File(f) => FileListRowView::File(FileRowView {
                file: f.file,
                selected: f.selected,
                status: f.status,
                name: f.name@,
                name_max: f.name_max,
                signs: f.signs,
            }),
        }
    }
}

/// What the list needs to lay out its rows.
#[derive(Debug, Clone, Copy, PartialEq, Eq, Structural)]
pub struct ListLayout {
    pub selected: usize,
    /// The list area's width.
    pub width: u16,
    pub focused: bool,
    pub count_mode: FileCountMode,
}

/// The row of file `k`: selected when it is the selected file; its line
/// counts shown (when one is not zero) on the rows the count mode picks;
/// the name may take the width less 4 columns and the counts' text
/// (`" +i -d"`), at least 1.
pub open spec fn file_row_spec(files: Seq<FileEntry>, k: usize, layout: ListLayout) -> FileListRowView {
    let f = files[k as int];
    let selected = k == layout.selected;
    let show = match layout.count_mode {
        FileCountMode::Active => selected,
        FileCountMode::Focused => layout.focused,
        FileCountMode::All => true,
        FileCountMode::Off => false,
    };
    let shown = show && (f.insertions > 0 || f.deletions > 0);
    let signs_len: int = if shown {
        (2 + decimal_spec(f.insertions as nat).len() + 2 + decimal_spec(f.deletions as nat).len()) as int
    } else {
        0
    };
    let room = layout.width - (4 + signs_len);
    FileListRowView::File(FileRowView {
        file: k,
        selected,
        status: f.status,
        name: file_leaf_spec(f.display_name@),
        name_max: if room >= 1 { room as usize } else { 1 },
        signs: if shown { Some((f.insertions, f.deletions)) } else { None },
    })
}

/// The rows from the `idx`-th shown file on, with `remaining` rows left
/// and `current` the group of the rows above: a file of another group is
/// preceded by a gap (unless it is the first) and its group's heading;
/// the list stops when no row is left.
pub open spec fn rows_from(files: Seq<FileEntry>, shown: Seq<usize>, layout: ListLayout, idx: int, remaining: int, current: Option<Seq<char>>) -> Seq<FileListRowView>
    decreases shown.len() - idx,
{
    if idx < 0 || idx >= shown.len() || remaining <= 0 {
        Seq::empty()
    } else {
        let k = shown[idx];
        let g = file_group_spec(files[k as int].display_name@);
        let row = file_row_spec(files, k, layout);
        if current == Some(g) {
            seq![row] + rows_from(files, shown, layout, idx + 1, remaining - 1, current)
        } else if current is Some {
            if remaining == 1 {
                seq![FileListRowView::Blank]
            } else if remaining == 2 {
                seq![FileListRowView::Blank, FileListRowView::Group(g)]
            } else {
                seq![FileListRowView::Blank, FileListRowView::Group(g), row] + rows_from(files, shown, layout, idx + 1, remaining - 3, Some(g))
            }
        } else {
            if remaining == 1 {
                seq![FileListRowView::Group(g)]
            } else {
                seq![FileListRowView::Group(g), row] + rows_from(files, shown, layout, idx + 1, remaining - 2, Some(g))
            }
        }
    }
}

/// The rows of a list area `height` rows high (two go to its padding),
/// from the shown file at `scroll` on (see `rows_from`).
pub open spec fn file_list_rows_spec(files: Seq<FileEntry>, shown: Seq<usize>, layout: ListLayout, scroll: usize, height: u16) -> Seq<FileListRowView> {
    rows_from(files, shown, layout, scroll as int, if height >= 2 { height - 2 } else { 0 }, None)
}

/// A file's row (see `file_row_spec`).
fn file_row(files: &Vec<FileEntry>, k: usize, layout: ListLayout) -> (r: FileListRow)
    requires
        k < files@.len(),
    ensures
        r@ == file_row_spec(files@, k, layout),
{
    let f = &files[k];
    let selected = k == layout.selected;
    let show = match layout.count_mode {
        FileCountMode::Active => selected,
        FileCountMode::Focused => layout.focused,
        FileCountMode::All => true,
        FileCountMode::Off => false,
    };
    let shown = show && (f.insertions > 0 || f.deletions > 0);
    let signs_len: u128 = if shown {
        let i = decimal(f.insertions as u64);
        let d = decimal(f.deletions as u64);
        2 + i.as_str().unicode_len() as u128 + 2 + d.as_str().unicode_len() as u128
    } else {
        0
    };
    let w = layout.width as u128;
    let name_max: usize = if w >= 4 + signs_len && w - (4 + signs_len) >= 1 {
        (w - (4 + signs_len)) as usize
    } else {
        1
    };
    FileListRow::File(FileRow {
        file: k,
        selected,
        status: f.status,
        name: file_leaf(f.display_name.as_str()),
        name_max,
        signs: if shown { Some((f.insertions, f.deletions)) } else { None },
    })
}

/// The rows of the file list (see `file_list_rows_spec`).
pub fn file_list_rows(files: &Vec<FileEntry>, shown: &Vec<usize>, layout: ListLayout, scroll: usize, height: u16) -> (rows: Vec<FileListRow>)
    requires
        forall|i: int| 0 <= i < shown@.len() ==> shown@[i] < files@.len(),
    ensures
        rows@.map_values(|r: FileListRow| r@) == file_list_rows_spec(files@, shown@, layout, scroll, height),
{
    let ghost total = file_list_rows_spec(files@, shown@, layout, scroll, height);
    let mut out: Vec<FileListRow> = Vec::new();
    let mut remaining: usize = if height >= 2 {
        (height - 2) as usize
    } else {
        0
    };
    let mut current: Option<String> = None;
    let mut idx: usize = scroll;
    while idx < shown.len() && remaining > 0
        invariant
            forall|i: int| 0 <= i < shown@.len() ==> shown@[i] < files@.len(),
            total == file_list_rows_spec(files@, shown@, layout, scroll, height),
            out@.map_values(|r: FileListRow| r@) + rows_from(files@, shown@, layout, idx as int, remaining as int, opt_view(current)) == total,
        ensures
            idx >= shown@.len() || remaining == 0,
            out@.map_values(|r: FileListRow| r@) + rows_from(files@, shown@, layout, idx as int, remaining as int, opt_view(current)) == total,
        decreases shown@.len() - idx,
    {
        let k = shown[idx];
        let g = file_group(files[k].display_name.as_str());
        let same = match &current {
            Some(c) => str_equals(c.as_str(), g.as_str()),
            None => false,
        };
        let ghost before = out@.map_values(|r: FileListRow| r@);
        let ghost cur = opt_view(current);
        let ghost gv = g@;
        let row = file_row(files, k, layout);
        if same {
            out.push(row);
            remaining = remaining - 1;
            proof {
                assert(out@.map_values(|r: FileListRow| r@) =~= before.push(row@));
            }
        } else {
            if current.is_some() {
                out.push(FileListRow::Blank);
                remaining = remaining - 1;
                if remaining == 0 {
                    proof {
                        assert(out@.map_values(|r: FileListRow| r@) =~= before + seq![FileListRowView::Blank]);
                    }
                    break;
                }
            }
            out.push(FileListRow::Group(g));
            remaining = remaining - 1;
            current = Some(file_group(files[k].display_name.as_str()));
            if remaining == 0 {
                proof {
                    if cur is Some {
                        assert(out@.map_values(|r: FileListRow| r@) =~= before + seq![FileListRowView::Blank, FileListRowView::Group(gv)]);
                    } else {
                        assert(out@.map_values(|r: FileListRow| r@) =~= before + seq![FileListRowView::Group(gv)]);
                    }
                }
                break;
            }
            out.push(row);
            remaining = remaining - 1;
            proof {
                if cur is Some {
                    assert(out@.map_values(|r: FileListRow| r@) =~= before + seq![FileListRowView::Blank, FileListRowView::Group(gv), row@]);
                } else {
                    assert(out@.map_values(|r: FileListRow| r@) =~= before + seq![FileListRowView::Group(gv), row@]);
                }
            }
        }
        idx = idx + 1;
    }
    proof {
        assert(out@.map_values(|r: FileListRow| r@) + Seq::<FileListRowView>::empty() =~= out@.map_values(|r: FileListRow| r@));
    }
    out
}

/// An optional text as plain values.
pub open spec fn opt_view(s: Option<String>) -> Option<Seq<char>> {
    match s {
        Some(t) => Some(t@),
        None => None,
    }
}


/// A file name fitted to `max_len` bytes: as it is when it fits; else an
/// ellipsis and its last `max_len - 1` bytes (the ellipsis alone for 1).
pub open spec fn fit_name_spec(name: Seq<char>, max_len: usize) -> Seq<char> {
    if encode_utf8(name).len() <= max_len {
        name
    } else if max_len == 1 {
        "…"@
    } else {
        "…"@ + byte_tail(name, max_len - 1)
    }
}

/// A file name fitted to its room in the list (see `fit_name_spec`; the
/// cut falls on a character boundary).
pub fn fit_file_name(name: &str, max_len: usize) -> (r: String)
    requires
        max_len >= 1,
        encode_utf8(name@).len() > max_len && max_len > 1 ==> is_char_boundary(
            encode_utf8(name@),
            encode_utf8(name@).len() - (max_len - 1),
        ),
    ensures
        r@ == fit_name_spec(name@, max_len),
{
    assert(name.spec_bytes() == encode_utf8(name@));
    if name.as_bytes().len() <= max_len {
        return to_owned_string(name);
    }
    let mut r = to_owned_string("…");
    if max_len == 1 {
        return r;
    }
    let t = tail_bytes(name, max_len - 1);
    push_str(&mut r, t.as_str());
    r
}

} // verus!
