//! The status bar's texts: the view mode and the file (with its branch) on
//! the left, the search prompt or the step counter in the middle, and the
//! line counts, hunk and file counters on the right, with the padding that
//! centers the middle. The caller styles and draws them.

use crate::display::{truncate_path, truncate_path_cut_ok, truncate_path_spec, ViewMode};
use crate::file_panel::{file_leaf, file_leaf_spec};
use crate::foreign::push_str;
use crate::text::{decimal, decimal_spec, to_owned_string};
use vstd::prelude::*;
use vstd::string::StringSliceAdditionalSpecFns;
use vstd::utf8::encode_utf8;

verus! {

/// What the status bar shows.
#[derive(Debug, Clone)]
pub struct StatusInput {
    pub view_mode: ViewMode,
    pub stepping: bool,
    pub autoplay: bool,
    pub autoplay_reverse: bool,
    /// The search query, while the search prompt is open.
    pub search: Option<String>,
    pub current_step: usize,
    pub total_steps: usize,
    pub insertions: usize,
    pub deletions: usize,
    pub current_hunk: usize,
    pub total_hunks: usize,
    /// The selected file's position among the files, and their number.
    pub file_index: usize,
    pub file_count: usize,
    pub path: String,
    pub branch: Option<String>,
    /// The bar's width in columns.
    pub width: usize,
}

/// The status bar's texts, in order; each pad is a run of spaces.
#[derive(Debug, Clone)]
pub struct StatusLine {
    pub mode: String,
    pub scope: String,
    pub left_pad: usize,
    pub center: String,
    pub right_pad: usize,
    pub right: String,
}

/// The label of a view mode.
pub open spec fn mode_label_spec(m: ViewMode) -> Seq<char> {
    match m {
        ViewMode::SinglePane => " SINGLE "@,
        ViewMode::Split => " SPLIT "@,
        ViewMode::Evolution => " EVOLUTION "@,
    }
}

/// A number written in decimal.
pub open spec fn dec(n: usize) -> Seq<char> {
    decimal_spec(n as nat)
}

/// The middle: the search prompt (`/ ` and the query, `Search` while it is
/// empty) while searching; else, while stepping, the autoplay arrow (a
/// space without autoplay), ` step ` and `current/total` (counted from 1);
/// else nothing.
pub open spec fn status_center_spec(inp: StatusInput) -> Seq<char> {
    match inp.search {
        Some(q) => "/ "@ + (if q@.len() == 0 { "Search"@ } else { q@ }),
        None => if inp.stepping {
            (if inp.autoplay { if inp.autoplay_reverse { "◀"@ } else { "▶"@ } } else { " "@ }) + " step "@
                + dec((inp.current_step + 1) as usize) + "/"@ + dec(inp.total_steps)
        } else {
            Seq::empty()
        },
    }
}

/// The right: `+insertions -deletions`, `  hunk current/total` when there
/// are hunks, `  file index/count` (counted from 1) and a space.
pub open spec fn status_right_spec(inp: StatusInput) -> Seq<char> {
    "+"@ + dec(inp.insertions) + " -"@ + dec(inp.deletions) + (if inp.total_hunks > 0 {
        "  hunk "@ + dec(inp.current_hunk) + "/"@ + dec(inp.total_hunks)
    } else {
        Seq::empty()
    }) + "  file "@ + dec((inp.file_index + 1) as usize) + "/"@ + dec(inp.file_count) + " "@
}

/// The file shown before it is fitted: its whole path on a bar of 60
/// columns or more, else the part after its last `/`; then `@` and the
/// branch, when there is one.
pub open spec fn status_scope_base(inp: StatusInput) -> Seq<char> {
    let name = if inp.width < 60 { file_leaf_spec(inp.path@) } else { inp.path@ };
    match inp.branch {
        Some(b) => name + "@"@ + b@,
        None => name,
    }
}

/// The bytes of a text.
pub open spec fn blen(s: Seq<char>) -> int {
    encode_utf8(s).len() as int
}

/// `a - b`, at least 0.
pub open spec fn sub0(a: int, b: int) -> int {
    if a >= b { a - b } else { 0 }
}

/// The room left for the file: the width less the middle, the right, the
/// mode label with its space, and 2 columns of padding on each side.
pub open spec fn status_scope_room(inp: StatusInput) -> int {
    sub0(
        inp.width as int,
        blen(status_center_spec(inp)) + blen(status_right_spec(inp)) + blen(mode_label_spec(inp.view_mode)) + 1 + 4,
    )
}

/// The status bar's texts: the mode label; the file fitted to its room
/// (see `truncate_path_spec`); the right; and the pads (at least one
/// space each) that start the middle at half the width less half its
/// length and push the right to the edge.
pub open spec fn status_line_ok(inp: StatusInput, r: StatusLine) -> bool {
    let center = status_center_spec(inp);
    let right = status_right_spec(inp);
    let scope = truncate_path_spec(status_scope_base(inp), status_scope_room(inp) as usize);
    let left_w = blen(mode_label_spec(inp.view_mode)) + 1 + blen(scope);
    let start = inp.width / 2 - blen(center) / 2;
    let lp = sub0(start, left_w);
    let rp = sub0(inp.width as int, start + blen(center) + blen(right));
    &&& r.mode@ == mode_label_spec(inp.view_mode)
    &&& r.scope@ == scope
    &&& r.center@ == center
    &&& r.right@ == right
    &&& r.left_pad == (if lp >= 1 { lp } else { 1 })
    &&& r.right_pad == (if rp >= 1 { rp } else { 1 })
}

fn push_dec(s: &mut String, n: usize)
    ensures
        final(s)@ == old(s)@ + dec(n),
{
    let d = decimal(n as u64);
    push_str(s, d.as_str());
}

fn byte_len(s: &String) -> (n: usize)
    ensures
        n == blen(s@),
{
    let t = s.as_str();
    assert(t.spec_bytes() == encode_utf8(t@));
    t.as_bytes().len()
}

/// The status bar's texts (see `status_line_ok`).
pub fn status_line(inp: &StatusInput) -> (r: StatusLine)
    requires
        inp.current_step < usize::MAX,
        inp.file_index < usize::MAX,
        blen(status_center_spec(*inp)) / 2 <= inp.width / 2,
        truncate_path_cut_ok(status_scope_base(*inp), status_scope_room(*inp) as usize),
    ensures
        status_line_ok(*inp, r),
{
    let mode = match inp.view_mode {
        ViewMode::SinglePane => to_owned_string(" SINGLE "),
        ViewMode::Split => to_owned_string(" SPLIT "),
        ViewMode::Evolution => to_owned_string(" EVOLUTION "),
    };
    let mut center = String::new();
    match &inp.search {
        Some(q) => {
            push_str(&mut center, "/ ");
            if q.as_str().unicode_len() == 0 {
                push_str(&mut center, "Search");
            } else {
                push_str(&mut center, q.as_str());
            }
        },
        None => {
            if inp.stepping {
                if inp.autoplay {
                    if inp.autoplay_reverse {
                        push_str(&mut center, "◀");
                    } else {
                        push_str(&mut center, "▶");
                    }
                } else {
                    push_str(&mut center, " ");
                }
                push_str(&mut center, " step ");
                push_dec(&mut center, inp.current_step + 1);
                push_str(&mut center, "/");
                push_dec(&mut center, inp.total_steps);
            }
        },
    }
    assert(center@ =~= status_center_spec(*inp));
    let mut right = String::new();
    push_str(&mut right, "+");
    push_dec(&mut right, inp.insertions);
    push_str(&mut right, " -");
    push_dec(&mut right, inp.deletions);
    let ghost head = right@;
    if inp.total_hunks > 0 {
        push_str(&mut right, "  hunk ");
        push_dec(&mut right, inp.current_hunk);
        push_str(&mut right, "/");
        push_dec(&mut right, inp.total_hunks);
    }
    push_str(&mut right, "  file ");
    push_dec(&mut right, inp.file_index + 1);
    push_str(&mut right, "/");
    push_dec(&mut right, inp.file_count);
    push_str(&mut right, " ");
    assert(right@ =~= status_right_spec(*inp));
    let mut base = if inp.width < 60 {
        file_leaf(inp.path.as_str())
    } else {
        to_owned_string(inp.path.as_str())
    };
    if let Some(b) = &inp.branch {
        push_str(&mut base, "@");
        push_str(&mut base, b.as_str());
    }
    assert(base@ =~= status_scope_base(*inp));
    let cw = byte_len(&center) as u128;
    let rw = byte_len(&right) as u128;
    let mw = byte_len(&mode) as u128;
    let w = inp.width as u128;
    let fixed = cw + rw + mw + 1 + 4;
    let room: usize = if w >= fixed {
        (w - fixed) as usize
    } else {
        0
    };
    let scope = truncate_path(base.as_str(), room);
    let sw = byte_len(&scope) as u128;
    let left_w = mw + 1 + sw;
    let start: u128 = w / 2 - cw / 2;
    let lp: u128 = if start >= left_w {
        start - left_w
    } else {
        0
    };
    let used = start + cw + rw;
    let rp: u128 = if w >= used {
        w - used
    } else {
        0
    };
    StatusLine {
        mode,
        scope,
        left_pad: if lp >= 1 {
            lp as usize
        } else {
            1
        },
        center,
        right_pad: if rp >= 1 {
            rp as usize
        } else {
            1
        },
        right,
    }
}

} // verus!
