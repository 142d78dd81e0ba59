//! The viewer's decisions on key input: the pending count prefix, playback
//! speed, goto queries, cycling through search matches and through the
//! (filtered) file list.

use crate::blame::{all_digits, parse_usize, parse_usize_spec};
use crate::display::ViewMode;
use crate::foreign::{char_is_whitespace, str_trim, trim_spec, unicode_whitespace};
use crate::change::{ChangeKind, ChangeView};
use crate::diff::{find_change, first_change_with_id};
use crate::multi::FileEntry;
use crate::step::{DiffNavigator, LineKind, NavView, StepView, ViewLine};
use crate::text::{lower_seq, lowercase_chars};
use vstd::prelude::*;

verus! {

// ---------------------------------------------------------------------
// Count prefix
// ---------------------------------------------------------------------

/// The largest count a prefix reaches.
pub const MAX_COUNT: usize = 9999;

/// The pending count after typing a digit: the count so far (none: 0)
/// times ten plus the digit, each step saturating, capped at `MAX_COUNT`.
pub open spec fn push_digit_spec(pending: Option<usize>, digit: u8) -> usize {
    let cur: int = match pending {
        Some(c) => c as int,
        None => 0,
    };
    let times = if cur * 10 > usize::MAX { usize::MAX as int } else { cur * 10 };
    let plus = if times + digit > usize::MAX { usize::MAX as int } else { times + digit };
    if plus > MAX_COUNT { MAX_COUNT } else { plus as usize }
}

/// A vim-style count typed before a command.
#[derive(Debug, Clone, Copy, PartialEq, Eq, Structural)]
pub struct PendingCount {
    pub pending: Option<usize>,
}

impl PendingCount {
    /// No count typed.
    pub fn new() -> (r: Self)
        ensures
            r.pending is None,
    {
        PendingCount { pending: None }
    }

    /// Adds a typed digit to the count (see `push_digit_spec`).
    pub fn push_count_digit(&mut self, digit: u8)
        ensures
            final(self).pending == Some(push_digit_spec(old(self).pending, digit)),
    {
        let current: usize = match self.pending {
            Some(c) => c,
            None => 0,
        };
        let times: usize = if current > usize::MAX / 10 {
            usize::MAX
        } else {
            current * 10
        };
        let plus: usize = times.saturating_add(digit as usize);
        self.pending = Some(if plus > MAX_COUNT {
            MAX_COUNT
        } else {
            plus
        });
    }

    /// The count for a command (1 when none was typed); the count is then
    /// cleared.
    pub fn take_count(&mut self) -> (n: usize)
        ensures
            n == (match old(self).pending {
                Some(c) => c,
                None => 1,
            }),
            final(self).pending is None,
    {
        let n = match self.pending {
            Some(c) => c,
            None => 1,
        };
        self.pending = None;
        n
    }

    /// Drops the typed count.
    pub fn reset_count(&mut self)
        ensures
            final(self).pending is None,
    {
        self.pending = None;
    }
}

/// Typing digits into an empty count and taking it gives their decimal
/// value while it stays under the cap.
pub proof fn law_count_digits_accumulate(a: u8, b: u8)
    requires
        a <= 9,
        b <= 9,
    ensures
        push_digit_spec(Some(push_digit_spec(None, a)), b) == a * 10 + b,
{
}

// ---------------------------------------------------------------------
// Playback speed
// ---------------------------------------------------------------------

/// The delay between steps after a speed-up key: 50 ms more, at most
/// 2000 ms.
pub open spec fn increase_speed_spec(speed: u64) -> u64 {
    if speed + 50 > 2000 { 2000 } else { (speed + 50) as u64 }
}

/// The delay between steps after a slow-down key: 50 ms less, at least
/// 50 ms.
pub open spec fn decrease_speed_spec(speed: u64) -> u64 {
    if speed < 100 { 50 } else { (speed - 50) as u64 }
}

/// The delay after a speed-up key (see `increase_speed_spec`).
pub fn increase_speed(speed: u64) -> (r: u64)
    requires
        speed + 50 <= u64::MAX,
    ensures
        r == increase_speed_spec(speed),
{
    let s = speed + 50;
    if s > 2000 {
        2000
    } else {
        s
    }
}

/// The delay after a slow-down key (see `decrease_speed_spec`).
pub fn decrease_speed(speed: u64) -> (r: u64)
    ensures
        r == decrease_speed_spec(speed),
{
    let s = speed.saturating_sub(50);
    if s < 50 {
        50
    } else {
        s
    }
}

// ---------------------------------------------------------------------
// Numbered targets
// ---------------------------------------------------------------------

/// The 0-based index for a 1-based number among `total`, clamped to the
/// first and last; none when there is nothing.
pub open spec fn clamped_index_spec(number: usize, total: usize) -> Option<usize> {
    if total == 0 {
        None
    } else if number <= 1 {
        Some(0usize)
    } else if number >= total {
        Some((total - 1) as usize)
    } else {
        Some((number - 1) as usize)
    }
}

/// The hunk a "go to hunk n" lands on (see `clamped_index_spec`).
pub fn hunk_index_for_number(hunk_number: usize, total_hunks: usize) -> (r: Option<usize>)
    ensures
        r == clamped_index_spec(hunk_number, total_hunks),
{
    clamped_index(hunk_number, total_hunks)
}

/// The step a "go to step n" lands on (see `clamped_index_spec`).
pub fn step_index_for_number(step_number: usize, total_steps: usize) -> (r: Option<usize>)
    ensures
        r == clamped_index_spec(step_number, total_steps),
{
    clamped_index(step_number, total_steps)
}

fn clamped_index(number: usize, total: usize) -> (r: Option<usize>)
    ensures
        r == clamped_index_spec(number, total),
{
    if total == 0 {
        return None;
    }
    let clamped = if number < 1 {
        1
    } else if number > total {
        total
    } else {
        number
    };
    Some(clamped - 1)
}

// ---------------------------------------------------------------------
// View mode
// ---------------------------------------------------------------------

/// The view mode after the toggle key: the next in the cycle while
/// stepping; without stepping only single pane and split alternate.
pub open spec fn toggle_view_mode_spec(mode: ViewMode, stepping: bool) -> ViewMode {
    if stepping {
        match mode {
            ViewMode::SinglePane => ViewMode::Split,
            ViewMode::Split => ViewMode::Evolution,
            ViewMode::Evolution => ViewMode::SinglePane,
        }
    } else {
        match mode {
            ViewMode::SinglePane => ViewMode::Split,
            _ => ViewMode::SinglePane,
        }
    }
}

/// The view mode after the toggle key (see `toggle_view_mode_spec`).
pub fn toggle_view_mode(mode: ViewMode, stepping: bool) -> (r: ViewMode)
    ensures
        r == toggle_view_mode_spec(mode, stepping),
{
    if stepping {
        mode.next()
    } else {
        match mode {
            ViewMode::SinglePane => ViewMode::Split,
            _ => ViewMode::SinglePane,
        }
    }
}

// ---------------------------------------------------------------------
// Entering a file
// ---------------------------------------------------------------------

/// Whether entering a file while stepping steps to its first change: only
/// on the first visit, at step 0 of a file with changes; a file blank at
/// step 0 (empty old text, some new text) steps when blank files do; any
/// other file when stepping on entry is on, outside the evolution view.
pub open spec fn auto_step_on_enter_spec(first_visit: bool, at_step_0: bool, has_steps: bool, old_empty: bool, new_empty: bool, step_blank_files: bool, step_on_enter: bool, mode: ViewMode) -> bool {
    first_visit && at_step_0 && has_steps && (
        (step_blank_files && old_empty && !new_empty) || (step_on_enter && mode != ViewMode::Evolution))
}

/// Whether entering a file steps to its first change (see
/// `auto_step_on_enter_spec`).
pub fn auto_step_on_enter(first_visit: bool, at_step_0: bool, has_steps: bool, old_empty: bool, new_empty: bool, step_blank_files: bool, step_on_enter: bool, mode: ViewMode) -> (b: bool)
    ensures
        b == auto_step_on_enter_spec(first_visit, at_step_0, has_steps, old_empty, new_empty, step_blank_files, step_on_enter, mode),
{
    if !first_visit || !at_step_0 || !has_steps {
        return false;
    }
    if step_blank_files && old_empty && !new_empty {
        return true;
    }
    let evolution = match mode {
        ViewMode::Evolution => true,
        _ => false,
    };
    step_on_enter && !evolution
}

// ---------------------------------------------------------------------
// Search matches
// ---------------------------------------------------------------------

/// The next search match after `start`: the first match beyond it, else
/// (wrapping) the first match; none without matches.
pub open spec fn next_match_spec(matches: Seq<usize>, start: usize) -> Option<usize> {
    if matches.len() == 0 {
        None
    } else if exists|k: int| 0 <= k < matches.len() && matches[k] > start {
        let k = choose|k: int| 0 <= k < matches.len() && matches[k] > start && forall|j: int| 0 <= j < k ==> matches[j] <= start;
        Some(matches[k])
    } else {
        Some(matches[0])
    }
}

/// The previous search match before `start`: the last match before it,
/// else (wrapping) the last match; none without matches.
pub open spec fn prev_match_spec(matches: Seq<usize>, start: usize) -> Option<usize> {
    if matches.len() == 0 {
        None
    } else if exists|k: int| 0 <= k < matches.len() && matches[k] < start {
        let k = choose|k: int| 0 <= k < matches.len() && matches[k] < start && forall|j: int| k < j < matches.len() ==> matches[j] >= start;
        Some(matches[k])
    } else {
        Some(matches.last())
    }
}

/// The match a "next match" key moves to (see `next_match_spec`).
pub fn next_match(matches: &Vec<usize>, start: usize) -> (r: Option<usize>)
    ensures
        r == next_match_spec(matches@, start),
{
    if matches.len() == 0 {
        return None;
    }
    let mut i: usize = 0;
    while i < matches.len()
        invariant
            i <= matches@.len(),
            forall|j: int| 0 <= j < i ==> matches@[j] <= start,
        decreases matches@.len() - i,
    {
        if matches[i] > start {
            let ghost k = i as int;
            proof {
                let c = choose|k: int| 0 <= k < matches@.len() && matches@[k] > start && forall|j: int| 0 <= j < k ==> matches@[j] <= start;
                assert(0 <= k < matches@.len() && matches@[k] > start && forall|j: int| 0 <= j < k ==> matches@[j] <= start);
                if c < k {
                    assert(matches@[c] <= start);
                } else if c > k {
                    assert(matches@[k] <= start);
                }
            }
            return Some(matches[i]);
        }
        i = i + 1;
    }
    Some(matches[0])
}

/// The match a "previous match" key moves to (see `prev_match_spec`).
pub fn prev_match(matches: &Vec<usize>, start: usize) -> (r: Option<usize>)
    ensures
        r == prev_match_spec(matches@, start),
{
    let n = matches.len();
    if n == 0 {
        return None;
    }
    let mut i: usize = n;
    while i > 0
        invariant
            i <= n,
            n == matches@.len(),
            forall|j: int| i <= j < n ==> matches@[j] >= start,
        decreases i,
    {
        if matches[i - 1] < start {
            let ghost k = i - 1;
            proof {
                let c = choose|k: int| 0 <= k < matches@.len() && matches@[k] < start && forall|j: int| k < j < matches@.len() ==> matches@[j] >= start;
                assert(0 <= k < matches@.len() && matches@[k] < start && forall|j: int| k < j < matches@.len() ==> matches@[j] >= start);
                if c < k {
                    assert(matches@[k] >= start);
                } else if c > k {
                    assert(matches@[c] >= start);
                }
            }
            return Some(matches[i - 1]);
        }
        i = i - 1;
    }
    Some(matches[n - 1])
}

// ---------------------------------------------------------------------
// Goto queries
// ---------------------------------------------------------------------

/// Where a goto query leads.
#[derive(Debug, Clone, Copy, PartialEq, Eq, Structural)]
pub enum GotoTarget {
    /// Hunk number (1-based).
    Hunk(usize),
    /// Step number (1-based).
    Step(usize),
    /// Line number.
    Line(usize),
}

/// A text without its leading `:` and whitespace.
pub open spec fn strip_goto_separator(s: Seq<char>) -> Seq<char>
    decreases s.len(),
{
    if s.len() > 0 && (s[0] == ':' || unicode_whitespace(s[0])) {
        strip_goto_separator(s.drop_first())
    } else {
        s
    }
}

/// What a goto query asks for, once trimmed: `h` or `H` then a number
/// (after any `:` and spaces) is a hunk, `s` or `S` likewise a step, all
/// digits a line; anything else, or a number that does not parse, nothing.
pub open spec fn goto_query_spec(query: Seq<char>) -> Option<GotoTarget> {
    let q = trim_spec(query);
    if q.len() == 0 {
        None
    } else if q[0] == 'h' || q[0] == 'H' {
        match parse_usize_spec(strip_goto_separator(q.drop_first())) {
            Some(n) => Some(GotoTarget::Hunk(n)),
            None => None,
        }
    } else if q[0] == 's' || q[0] == 'S' {
        match parse_usize_spec(strip_goto_separator(q.drop_first())) {
            Some(n) => Some(GotoTarget::Step(n)),
            None => None,
        }
    } else if all_digits(q) {
        match parse_usize_spec(q) {
            Some(n) => Some(GotoTarget::Line(n)),
            None => None,
        }
    } else {
        None
    }
}

/// The text after its leading `:` and whitespace (see
/// `strip_goto_separator`).
fn strip_separator(s: &str) -> (r: &str)
    ensures
        r@ == strip_goto_separator(s@),
{
    let n = s.unicode_len();
    let mut i: usize = 0;
    let mut done = false;
    assert(s@.subrange(0, n as int) =~= s@);
    while i < n && !done
        invariant
            n == s@.len(),
            i <= n,
            strip_goto_separator(s@) == strip_goto_separator(s@.subrange(i as int, n as int)),
            done ==> i < n && !(s@[i as int] == ':' || unicode_whitespace(s@[i as int])),
        decreases n - i + (if done { 0int } else { 1int }),
    {
        let c = s.get_char(i);
        if c != ':' && !char_is_whitespace(c) {
            done = true;
        } else {
            assert(s@.subrange(i as int, n as int).drop_first() =~= s@.subrange(i + 1, n as int));
            i = i + 1;
        }
    }
    let r = s.substring_char(i, n);
    proof {
        if !done {
            assert(r@.len() == 0);
        }
    }
    r
}

/// Whether every character is an ASCII digit.
fn is_all_digits(s: &str) -> (b: bool)
    ensures
        b == all_digits(s@),
{
    let n = s.unicode_len();
    let mut i: usize = 0;
    while i < n
        invariant
            n == s@.len(),
            i <= n,
            forall|k: int| 0 <= k < i ==> '0' <= #[trigger] s@[k] <= '9',
        decreases n - i,
    {
        let c = s.get_char(i);
        if !('0' <= c && c <= '9') {
            return false;
        }
        i = i + 1;
    }
    true
}

/// What a goto query asks for (see `goto_query_spec`).
pub fn parse_goto_query(query: &str) -> (r: Option<GotoTarget>)
    ensures
        r == goto_query_spec(query@),
{
    let q = str_trim(query);
    let n = q.unicode_len();
    if n == 0 {
        return None;
    }
    let first = q.get_char(0);
    if first == 'h' || first == 'H' || first == 's' || first == 'S' {
        let rest = q.substring_char(1, n);
        assert(rest@ =~= q@.drop_first());
        let number = parse_usize(strip_separator(rest));
        return match number {
            Some(k) => {
                if first == 'h' || first == 'H' {
                    Some(GotoTarget::Hunk(k))
                } else {
                    Some(GotoTarget::Step(k))
                }
            },
            None => None,
        };
    }
    if is_all_digits(q) {
        match parse_usize(q) {
            Some(k) => Some(GotoTarget::Line(k)),
            None => None,
        }
    } else {
        None
    }
}

// ---------------------------------------------------------------------
// File list
// ---------------------------------------------------------------------

/// Whether `needle` occurs in `hay`.
pub open spec fn contains_sub(hay: Seq<char>, needle: Seq<char>) -> bool {
    exists|i: int| 0 <= i && i + needle.len() <= hay.len() && #[trigger] hay.subrange(i, i + needle.len()) == needle
}

/// Whether `needle` occurs in `hay` at `i`.
fn occurs_at(hay: &Vec<char>, needle: &Vec<char>, i: usize) -> (b: bool)
    requires
        i + needle@.len() <= hay@.len(),
    ensures
        b == (hay@.subrange(i as int, i + needle@.len()) == needle@),
{
    let m = needle.len();
    let n = hay.len();
    let mut k: usize = 0;
    while k < m
        invariant
            m == needle@.len(),
            n == hay@.len(),
            i + m <= n,
            k <= m,
            forall|j: int| 0 <= j < k ==> hay@[i + j] == needle@[j],
        decreases m - k,
    {
        if hay[i + k] != needle[k] {
            assert(hay@.subrange(i as int, i + m)[k as int] != needle@[k as int]);
            return false;
        }
        k = k + 1;
    }
    assert(hay@.subrange(i as int, i + m) =~= needle@);
    true
}

/// Whether `needle` occurs in `hay` (see `contains_sub`).
fn vec_contains_sub(hay: &Vec<char>, needle: &Vec<char>) -> (b: bool)
    ensures
        b == contains_sub(hay@, needle@),
{
    let m = needle.len();
    let n = hay.len();
    if m > n {
        return false;
    }
    if m == 0 {
        assert(hay@.subrange(0, 0int + needle@.len()) =~= needle@);
        return true;
    }
    let mut i: usize = 0;
    while i <= n - m
        invariant
            m == needle@.len(),
            n == hay@.len(),
            0 < m <= n,
            i <= n - m + 1,
            forall|j: int| 0 <= j < i ==> #[trigger] hay@.subrange(j, j + m) != needle@,
        decreases n - m + 1 - i,
    {
        if occurs_at(hay, needle, i) {
            return true;
        }
        i = i + 1;
    }
    false
}

/// Whether a file's display name holds the filter, ignoring ASCII case.
pub open spec fn file_matches(name: Seq<char>, filter: Seq<char>) -> bool {
    contains_sub(lower_seq(name), lower_seq(filter))
}

/// The positions among the first `n` files whose names match the filter,
/// in order.
pub open spec fn matching_files(files: Seq<FileEntry>, filter: Seq<char>, n: int) -> Seq<usize>
    decreases n,
{
    if n <= 0 {
        Seq::empty()
    } else if file_matches(files[n - 1].display_name@, filter) {
        matching_files(files, filter, n - 1).push((n - 1) as usize)
    } else {
        matching_files(files, filter, n - 1)
    }
}

/// The files shown under a filter: all of them for an empty filter, else
/// those whose display name holds the filter, ignoring ASCII case; in
/// order.
pub open spec fn filtered_files_spec(files: Seq<FileEntry>, filter: Seq<char>) -> Seq<usize> {
    if filter.len() == 0 {
        Seq::new(files.len(), |i: int| i as usize)
    } else {
        matching_files(files, filter, files.len() as int)
    }
}

/// The positions of the files shown under a filter (see
/// `filtered_files_spec`).
pub fn filtered_file_indices(files: &Vec<FileEntry>, filter: &str) -> (r: Vec<usize>)
    ensures
        r@ == filtered_files_spec(files@, filter@),
{
    let mut out: Vec<usize> = Vec::new();
    let n = files.len();
    if filter.unicode_len() == 0 {
        let mut i: usize = 0;
        while i < n
            invariant
                n == files@.len(),
                i <= n,
                out@ == Seq::new(i as nat, |k: int| k as usize),
            decreases n - i,
        {
            out.push(i);
            i = i + 1;
        }
        assert(out@ =~= Seq::new(files@.len(), |k: int| k as usize));
        return out;
    }
    let query = lowercase_chars(filter);
    let mut i: usize = 0;
    while i < n
        invariant
            n == files@.len(),
            i <= n,
            query@ == lower_seq(filter@),
            out@ == matching_files(files@, filter@, i as int),
        decreases n - i,
    {
        let name = lowercase_chars(files[i].display_name.as_str());
        if vec_contains_sub(&name, &query) {
            out.push(i);
        }
        i = i + 1;
    }
    out
}

/// The position of `x` in `v`, if it is there.
pub open spec fn position_of(v: Seq<usize>, x: usize) -> Option<int> {
    if exists|k: int| 0 <= k < v.len() && v[k] == x {
        Some(choose|k: int| 0 <= k < v.len() && v[k] == x && forall|j: int| 0 <= j < k ==> v[j] != x)
    } else {
        None
    }
}

pub(crate) fn find_position(v: &Vec<usize>, x: usize) -> (r: Option<usize>)
    ensures
        match r {
            Some(k) => position_of(v@, x) == Some(k as int) && k < v@.len() && v@[k as int] == x,
            None => position_of(v@, x) is None,
        },
{
    let mut i: usize = 0;
    while i < v.len()
        invariant
            i <= v@.len(),
            forall|j: int| 0 <= j < i ==> v@[j] != x,
        decreases v@.len() - i,
    {
        if v[i] == x {
            proof {
                lemma_first_occurrence(v@, i as int, x);
            }
            return Some(i);
        }
        i = i + 1;
    }
    None
}

/// The file a "next file" key selects: under a filter, the shown file
/// after the selected one (the first shown when the selected one is
/// hidden), none after the last; without a filter, the following file if
/// there is one.
pub open spec fn next_file_spec(filtering: bool, shown: Seq<usize>, current: usize, count: usize) -> Option<usize> {
    if filtering {
        if shown.len() == 0 {
            None
        } else {
            match position_of(shown, current) {
                Some(p) => if p + 1 < shown.len() { Some(shown[p + 1]) } else { None },
                None => Some(shown[0]),
            }
        }
    } else if current + 1 < count {
        Some((current + 1) as usize)
    } else {
        None
    }
}

/// The file a "previous file" key selects: under a filter, the shown file
/// before the selected one (the last shown when the selected one is
/// hidden), none before the first; without a filter, the preceding file if
/// there is one.
pub open spec fn prev_file_spec(filtering: bool, shown: Seq<usize>, current: usize) -> Option<usize> {
    if filtering {
        if shown.len() == 0 {
            None
        } else {
            match position_of(shown, current) {
                Some(p) => if p > 0 { Some(shown[p - 1]) } else { None },
                None => Some(shown.last()),
            }
        }
    } else if current > 0 {
        Some((current - 1) as usize)
    } else {
        None
    }
}

/// The file a "next file" key selects (see `next_file_spec`).
pub fn next_file_target(filtering: bool, shown: &Vec<usize>, current: usize, count: usize) -> (r: Option<usize>)
    ensures
        r == next_file_spec(filtering, shown@, current, count),
{
    if filtering {
        if shown.len() == 0 {
            return None;
        }
        match find_position(shown, current) {
            Some(p) => if p + 1 < shown.len() {
                Some(shown[p + 1])
            } else {
                None
            },
            None => Some(shown[0]),
        }
    } else if count > 0 && current < count - 1 {
        Some(current + 1)
    } else {
        None
    }
}

/// The file a "previous file" key selects (see `prev_file_spec`).
pub fn prev_file_target(filtering: bool, shown: &Vec<usize>, current: usize) -> (r: Option<usize>)
    ensures
        r == prev_file_spec(filtering, shown@, current),
{
    if filtering {
        if shown.len() == 0 {
            return None;
        }
        match find_position(shown, current) {
            Some(p) => if p > 0 {
                Some(shown[p - 1])
            } else {
                None
            },
            None => Some(shown[shown.len() - 1]),
        }
    } else if current > 0 {
        Some(current - 1)
    } else {
        None
    }
}

/// The move of a wrapping "next file" (autoplay across files): the file to
/// select and whether that is a move. Under a filter: the shown file after
/// the selected one, wrapping to the first (the selected one counts as
/// first when hidden); without: the following file, wrapping to the first.
/// Nothing is selected when nothing is shown or the target is the
/// selected file.
pub open spec fn next_file_wrapped_spec(filtering: bool, shown: Seq<usize>, current: usize, count: usize) -> Option<usize> {
    let target = if filtering {
        if shown.len() == 0 {
            None
        } else {
            let p = match position_of(shown, current) {
                Some(p) => p,
                None => 0,
            };
            Some(if p + 1 < shown.len() { shown[p + 1] } else { shown[0] })
        }
    } else if count == 0 {
        None
    } else {
        Some(if current + 1 < count { (current + 1) as usize } else { 0usize })
    };
    match target {
        Some(t) => if t == current { None } else { Some(t) },
        None => None,
    }
}

/// The file a wrapping "next file" selects (see `next_file_wrapped_spec`).
pub fn next_file_wrapped_target(filtering: bool, shown: &Vec<usize>, current: usize, count: usize) -> (r: Option<usize>)
    ensures
        r == next_file_wrapped_spec(filtering, shown@, current, count),
{
    let target = if filtering {
        if shown.len() == 0 {
            return None;
        }
        let p = match find_position(shown, current) {
            Some(p) => p,
            None => 0,
        };
        if p + 1 < shown.len() {
            shown[p + 1]
        } else {
            shown[0]
        }
    } else {
        if count == 0 {
            return None;
        }
        if current < count - 1 {
            current + 1
        } else {
            0
        }
    };
    if target == current {
        None
    } else {
        Some(target)
    }
}

/// The move of a wrapping "previous file": the file to select, and
/// whether the key counts as a move. Under a filter: the shown file before
/// the selected one, wrapping to the last (the selected one counts as first
/// when hidden), nothing when that is the selected file. Without a filter:
/// the preceding file; from the first, the last file, a move only when
/// there are several.
pub open spec fn prev_file_wrapped_spec(filtering: bool, shown: Seq<usize>, current: usize, count: usize) -> Option<(usize, bool)> {
    if filtering {
        if shown.len() == 0 {
            None
        } else {
            let p = match position_of(shown, current) {
                Some(p) => p,
                None => 0,
            };
            let t = if p > 0 { shown[p - 1] } else { shown.last() };
            if t == current { None } else { Some((t, true)) }
        }
    } else if count == 0 {
        None
    } else if current == 0 {
        Some(((count - 1) as usize, count > 1))
    } else {
        Some(((current - 1) as usize, true))
    }
}

/// The move of a wrapping "previous file" (see `prev_file_wrapped_spec`).
pub fn prev_file_wrapped_target(filtering: bool, shown: &Vec<usize>, current: usize, count: usize) -> (r: Option<(usize, bool)>)
    ensures
        r == prev_file_wrapped_spec(filtering, shown@, current, count),
{
    if filtering {
        if shown.len() == 0 {
            return None;
        }
        let p = match find_position(shown, current) {
            Some(p) => p,
            None => 0,
        };
        let t = if p > 0 {
            shown[p - 1]
        } else {
            shown[shown.len() - 1]
        };
        if t == current {
            None
        } else {
            Some((t, true))
        }
    } else if count == 0 {
        None
    } else if current == 0 {
        Some((count - 1, count > 1))
    } else {
        Some((current - 1, true))
    }
}

/// The position `offset` steps from `start` around a ring of `len`
/// positions, forward or backward.
pub open spec fn ring_position(start: int, offset: int, len: int, forward: bool) -> int {
    if forward {
        (start + offset) % len
    } else {
        (start + (len - offset)) % len
    }
}

/// The files in the order a wrapping hunk move tries them: around the
/// shown files from the selected one (the first when it is not shown),
/// forward or backward, up to but not including the selected file.
pub open spec fn wrap_file_order_spec(shown: Seq<usize>, current: usize, forward: bool) -> Seq<usize> {
    let ring = wrap_ring(shown, ring_start(shown, current), forward);
    match position_of(ring, current) {
        Some(k) => ring.take(k),
        None => ring,
    }
}

/// Where the ring of shown files starts: at the selected file, or at the
/// first when it is not shown.
pub open spec fn ring_start(shown: Seq<usize>, current: usize) -> int {
    match position_of(shown, current) {
        Some(p) => p,
        None => 0,
    }
}

/// The shown files one step, two steps, ... around the ring from `start`.
pub open spec fn wrap_ring(shown: Seq<usize>, start: int, forward: bool) -> Seq<usize> {
    Seq::new(shown.len(), |o: int| shown[ring_position(start, o + 1, shown.len() as int, forward)])
}

/// The files a wrapping hunk move tries, in order (see
/// `wrap_file_order_spec`).
#[verifier::rlimit(40)]
pub fn wrap_file_order(shown: &Vec<usize>, current: usize, forward: bool) -> (r: Vec<usize>)
    ensures
        r@ == wrap_file_order_spec(shown@, current, forward),
{
    let n = shown.len();
    let mut out: Vec<usize> = Vec::new();
    if n == 0 {
        assert(out@ =~= wrap_file_order_spec(shown@, current, forward));
        return out;
    }
    let start: usize = match find_position(shown, current) {
        Some(p) => p,
        None => 0,
    };
    let ghost ring = wrap_ring(shown@, start as int, forward);
    assert(ring_start(shown@, current) == start as int);
    let mut k: usize = 0;
    while k < n
        invariant
            n == shown@.len(),
            n > 0,
            start < n,
            k <= n,
            ring == wrap_ring(shown@, start as int, forward),
            ring_start(shown@, current) == start as int,
            out@ == ring.take(k as int),
            forall|j: int| 0 <= j < k ==> ring[j] != current,
        decreases n - k,
    {
        let pos = ring_step(start, k + 1, n, forward);
        let index = shown[pos];
        assert(ring[k as int] == index);
        if index == current {
            proof {
                lemma_first_occurrence(ring, k as int, current);
            }
            return out;
        }
        out.push(index);
        assert(out@ =~= ring.take(k + 1));
        k = k + 1;
    }
    proof {
        assert(ring.take(n as int) =~= ring);
        lemma_no_occurrence(ring, current);
    }
    out
}

/// The position `offset` steps around a ring of `n` from `start`.
fn ring_step(start: usize, offset: usize, n: usize, forward: bool) -> (r: usize)
    requires
        0 < n,
        start < n,
        1 <= offset <= n,
    ensures
        r as int == ring_position(start as int, offset as int, n as int, forward),
        r < n,
{
    let wide: u128 = if forward {
        (start as u128) + (offset as u128)
    } else {
        (start as u128) + ((n - offset) as u128)
    };
    assert(wide % (n as u128) < n as u128) by (nonlinear_arith)
        requires
            n > 0,
    ;
    (wide % (n as u128)) as usize
}

/// The first occurrence of a value in a sequence.
proof fn lemma_first_occurrence(v: Seq<usize>, k: int, x: usize)
    requires
        0 <= k < v.len(),
        v[k] == x,
        forall|j: int| 0 <= j < k ==> v[j] != x,
    ensures
        position_of(v, x) == Some(k),
{
    let c = choose|c: int| 0 <= c < v.len() && v[c] == x && forall|j: int| 0 <= j < c ==> v[j] != x;
    if c < k {
        assert(v[c] != x);
    } else if c > k {
        assert(v[k] != x);
    }
}

/// A value nowhere in a sequence has no position.
proof fn lemma_no_occurrence(v: Seq<usize>, x: usize)
    requires
        forall|j: int| 0 <= j < v.len() ==> v[j] != x,
    ensures
        position_of(v, x) is None,
{
}

// ---------------------------------------------------------------------
// Hunk progress
// ---------------------------------------------------------------------

/// How many of the first `n` ids are applied.
pub open spec fn applied_count(ids: Seq<usize>, applied: Seq<usize>, n: int) -> nat
    decreases n,
{
    if n <= 0 {
        0
    } else {
        applied_count(ids, applied, n - 1) + if applied.contains(ids[n - 1]) { 1nat } else { 0nat }
    }
}

/// Progress through the hunk under the cursor: how many of its changes are
/// applied, and how many it has; none without a hunk (or for an empty
/// one).
pub fn hunk_step_info(nav: &DiffNavigator) -> (r: Option<(usize, usize)>)
    requires
        nav.inv(),
    ensures
        match r {
            Some((applied, total)) => {
                let h = nav@.diff.hunks[nav@.state.current_hunk as int];
                &&& nav@.state.current_hunk < nav@.diff.hunks.len()
                &&& total == h.change_ids.len()
                &&& total > 0
                &&& applied == applied_count(h.change_ids, nav@.state.applied, total as int)
            },
            None => nav@.state.current_hunk >= nav@.diff.hunks.len() || nav@.diff.hunks[nav@.state.current_hunk as int].change_ids.len() == 0,
        },
{
    let state = nav.state();
    let hunk = match nav.current_hunk() {
        Some(h) => h,
        None => return None,
    };
    let total = hunk.change_ids.len();
    if total == 0 {
        return None;
    }
    let mut applied: usize = 0;
    let mut i: usize = 0;
    while i < total
        invariant
            total == hunk.change_ids@.len(),
            i <= total,
            state.set_mirrors(),
            applied == applied_count(hunk.change_ids@, state@.applied, i as int),
            applied <= i,
        decreases total - i,
    {
        if state.is_applied(hunk.change_ids[i]) {
            applied = applied + 1;
        }
        i = i + 1;
    }
    Some((applied, total))
}

// ---------------------------------------------------------------------
// Peeking at old text
// ---------------------------------------------------------------------

/// What a peek covers.
#[derive(Debug, Clone, Copy, PartialEq, Eq, Structural)]
pub enum PeekScope {
    /// The change under the cursor.
    Change,
    /// The hunk under the cursor.
    Hunk,
}

/// How a peeked modified line is shown.
#[derive(Debug, Clone, Copy, PartialEq, Eq, Structural)]
pub enum PeekMode {
    /// Its old text.
    Old,
    /// Its new text only.
    Modified,
    /// Old and new words together.
    Mixed,
}

/// A peek in force.
#[derive(Debug, Clone, Copy, PartialEq, Eq, Structural)]
pub struct PeekState {
    pub scope: PeekScope,
    pub mode: PeekMode,
}

/// How a modified line under the cursor is shown without a peek: its new
/// text only when the viewer steps modified lines that way, else mixed.
pub fn base_modified_view_mode(modified_only: bool) -> (m: PeekMode)
    ensures
        m == (if modified_only { PeekMode::Modified } else { PeekMode::Mixed }),
{
    if modified_only {
        PeekMode::Modified
    } else {
        PeekMode::Mixed
    }
}

/// The next mode in the cycle modified, old, mixed.
pub open spec fn next_peek_mode(m: PeekMode) -> PeekMode {
    match m {
        PeekMode::Modified => PeekMode::Old,
        PeekMode::Old => PeekMode::Mixed,
        PeekMode::Mixed => PeekMode::Modified,
    }
}

/// The peek after the change-peek key: only while stepping; the current
/// change peek's mode (or the base mode) moves one along the cycle; landing
/// on the base mode ends the peek.
pub open spec fn cycle_peek_change_spec(peek: Option<PeekState>, stepping: bool, base: PeekMode) -> Option<PeekState> {
    if !stepping {
        peek
    } else {
        let current = match peek {
            Some(p) => if p.scope == PeekScope::Change { p.mode } else { base },
            None => base,
        };
        let next = next_peek_mode(current);
        if next == base {
            None
        } else {
            Some(PeekState { scope: PeekScope::Change, mode: next })
        }
    }
}

/// The peek after the change-peek key (see `cycle_peek_change_spec`).
pub fn cycle_peek_change(peek: Option<PeekState>, stepping: bool, base: PeekMode) -> (r: Option<PeekState>)
    ensures
        r == cycle_peek_change_spec(peek, stepping, base),
{
    if !stepping {
        return peek;
    }
    let current = match peek {
        Some(p) => match p.scope {
            PeekScope::Change => p.mode,
            PeekScope::Hunk => base,
        },
        None => base,
    };
    let next = match current {
        PeekMode::Modified => PeekMode::Old,
        PeekMode::Old => PeekMode::Mixed,
        PeekMode::Mixed => PeekMode::Modified,
    };
    if next == base {
        None
    } else {
        Some(PeekState { scope: PeekScope::Change, mode: next })
    }
}

/// The peek after the hunk-peek key: only while stepping; it shows the
/// hunk's old text, or ends that peek when it is in force.
pub open spec fn toggle_peek_hunk_spec(peek: Option<PeekState>, stepping: bool) -> Option<PeekState> {
    let hunk_old = PeekState { scope: PeekScope::Hunk, mode: PeekMode::Old };
    if !stepping {
        peek
    } else if peek == Some(hunk_old) {
        None
    } else {
        Some(hunk_old)
    }
}

/// The peek after the hunk-peek key (see `toggle_peek_hunk_spec`).
pub fn toggle_peek_hunk(peek: Option<PeekState>, stepping: bool) -> (r: Option<PeekState>)
    ensures
        r == toggle_peek_hunk_spec(peek, stepping),
{
    if !stepping {
        return peek;
    }
    let is_hunk_old = match peek {
        Some(p) => p.scope == PeekScope::Hunk && p.mode == PeekMode::Old,
        None => false,
    };
    if is_hunk_old {
        None
    } else {
        Some(PeekState { scope: PeekScope::Hunk, mode: PeekMode::Old })
    }
}

/// Whether a peek changes how a line is shown: while stepping, a change
/// peek covers the cursor line, a hunk peek the lines of the current hunk.
pub open spec fn peek_override_spec(peek: Option<PeekState>, stepping: bool, primary: bool, hunk_index: Option<usize>, current_hunk: usize) -> bool {
    stepping && match peek {
        Some(p) => match p.scope {
            PeekScope::Change => primary,
            PeekScope::Hunk => hunk_index == Some(current_hunk),
        },
        None => false,
    }
}

/// Whether a peek changes how a line is shown (see `peek_override_spec`).
pub fn is_peek_override_for_line(peek: Option<PeekState>, stepping: bool, line: &ViewLine, current_hunk: usize) -> (b: bool)
    ensures
        b == peek_override_spec(peek, stepping, line.is_primary_active, line.hunk_index, current_hunk),
{
    if !stepping {
        return false;
    }
    match peek {
        Some(p) => match p.scope {
            PeekScope::Change => line.is_primary_active,
            PeekScope::Hunk => match line.hunk_index {
                Some(h) => h == current_hunk,
                None => false,
            },
        },
        None => false,
    }
}

/// How a line is shown while stepping: under a peek that covers it, the
/// peek's mode (a hunk peek shows old text); under a peek that does not,
/// as usual; with no peek, a modified cursor line in the base mode.
pub open spec fn peek_mode_spec(peek: Option<PeekState>, stepping: bool, kind: LineKind, primary: bool, hunk_index: Option<usize>, current_hunk: usize, base: PeekMode) -> Option<PeekMode> {
    if !stepping {
        None
    } else {
        match peek {
            Some(p) => match p.scope {
                PeekScope::Change => if primary { Some(p.mode) } else { None },
                PeekScope::Hunk => if hunk_index == Some(current_hunk) { Some(PeekMode::Old) } else { None },
            },
            None => if primary && (kind == LineKind::Modified || kind == LineKind::PendingModify) {
                Some(base)
            } else {
                None
            },
        }
    }
}

/// How a line is shown (see `peek_mode_spec`).
pub fn peek_mode_for_line(peek: Option<PeekState>, stepping: bool, line: &ViewLine, current_hunk: usize, base: PeekMode) -> (r: Option<PeekMode>)
    ensures
        r == peek_mode_spec(peek, stepping, line.kind, line.is_primary_active, line.hunk_index, current_hunk, base),
{
    if !stepping {
        return None;
    }
    match peek {
        Some(p) => match p.scope {
            PeekScope::Change => if line.is_primary_active {
                Some(p.mode)
            } else {
                None
            },
            PeekScope::Hunk => {
                let in_hunk = match line.hunk_index {
                    Some(h) => h == current_hunk,
                    None => false,
                };
                if in_hunk {
                    Some(PeekMode::Old)
                } else {
                    None
                }
            },
        },
        None => {
            let modified = match line.kind {
                LineKind::Modified | LineKind::PendingModify => true,
                _ => false,
            };
            if line.is_primary_active && modified {
                Some(base)
            } else {
                None
            }
        },
    }
}

/// Pressing the change-peek key three times from no peek, while stepping,
/// comes back to no peek.
pub proof fn law_change_peek_cycles_back(base: PeekMode)
    ensures
        cycle_peek_change_spec(cycle_peek_change_spec(cycle_peek_change_spec(None, true, base), true, base), true, base) is None,
{
}

/// Pressing the hunk-peek key twice, while stepping, comes back to where
/// it started, unless a change peek was in force (the first press
/// replaces it).
pub proof fn law_hunk_peek_toggles_back(peek: Option<PeekState>)
    requires
        peek is None || peek == Some(PeekState { scope: PeekScope::Hunk, mode: PeekMode::Old }),
    ensures
        toggle_peek_hunk_spec(toggle_peek_hunk_spec(peek, true), true) == peek,
{
}

// ---------------------------------------------------------------------
// Pending inserted lines
// ---------------------------------------------------------------------

/// Whether a change only inserts.
pub open spec fn insert_only(c: ChangeView) -> bool {
    forall|k: int| 0 <= k < c.spans.len() ==> (#[trigger] c.spans[k]).kind == ChangeKind::Insert
}

/// The change a cursor-relative count starts from: the cursor's, else the
/// animated one, else the last applied.
pub open spec fn anchor_change(s: StepView) -> Option<usize> {
    match s.cursor_change {
        Some(c) => Some(c),
        None => match s.active_change {
            Some(a) => Some(a),
            None => if s.applied.len() > 0 { Some(s.applied.last()) } else { None },
        },
    }
}

/// How many of the hunk's changes from position `k` on are pending
/// inserts: the run of insert-only changes (ids naming no change are passed
/// over), counting those not applied yet.
pub open spec fn pending_inserts_from(changes: Seq<ChangeView>, applied: Seq<usize>, ids: Seq<usize>, k: int) -> nat
    decreases ids.len() - k,
{
    if k < 0 || k >= ids.len() {
        0
    } else {
        match first_change_with_id(changes, ids[k]) {
            None => pending_inserts_from(changes, applied, ids, k + 1),
            Some(i) => if !insert_only(changes[i]) {
                0
            } else if applied.contains(ids[k]) {
                pending_inserts_from(changes, applied, ids, k + 1)
            } else {
                1 + pending_inserts_from(changes, applied, ids, k + 1)
            },
        }
    }
}

/// The number of inserted lines still to come right after the anchor
/// change in the current hunk: none without a hunk, an anchor in it, or
/// when the anchor is not itself insert-only; else the pending inserts that
/// follow it (see `pending_inserts_from`).
pub open spec fn pending_insert_only_spec(n: NavView) -> nat {
    let s = n.state;
    let d = n.diff;
    if s.current_hunk >= d.hunks.len() {
        0
    } else {
        let ids = d.hunks[s.current_hunk as int].change_ids;
        match anchor_change(s) {
            None => 0,
            Some(c) => match crate::controls::position_of(ids, c) {
                None => 0,
                Some(p) => match first_change_with_id(d.changes, c) {
                    None => 0,
                    Some(i) => if !insert_only(d.changes[i]) {
                        0
                    } else {
                        pending_inserts_from(d.changes, s.applied, ids, p + 1)
                    },
                },
            },
        }
    }
}

/// Whether a change only inserts (see `insert_only`).
fn change_inserts_only(c: &crate::change::Change) -> (b: bool)
    ensures
        b == insert_only(c@),
{
    let mut k: usize = 0;
    while k < c.spans.len()
        invariant
            k <= c.spans@.len(),
            forall|j: int| 0 <= j < k ==> (#[trigger] c@.spans[j]).kind == ChangeKind::Insert,
        decreases c.spans@.len() - k,
    {
        let is_insert = match c.spans[k].kind {
            ChangeKind::Insert => true,
            _ => false,
        };
        if !is_insert {
            assert(c@.spans[k as int].kind != ChangeKind::Insert);
            return false;
        }
        k = k + 1;
    }
    true
}

/// The number of inserted lines still to come after the anchor change in
/// the current hunk (see `pending_insert_only_spec`).
#[verifier::rlimit(40)]
pub fn pending_insert_only_in_current_hunk(nav: &DiffNavigator) -> (r: usize)
    requires
        nav.inv(),
    ensures
        r == pending_insert_only_spec(nav@),
{
    let state = nav.state();
    let hunk = match nav.current_hunk() {
        Some(h) => h,
        None => return 0,
    };
    let anchor = match state.cursor_change_id() {
        Some(c) => Some(c),
        None => match state.active_change_id() {
            Some(a) => Some(a),
            None => state.last_applied(),
        },
    };
    let cursor_id = match anchor {
        Some(id) => id,
        None => return 0,
    };
    let ids = &hunk.change_ids;
    let p = match find_position(ids, cursor_id) {
        Some(p) => p,
        None => return 0,
    };
    let changes = &nav.diff().changes;
    let ghost cv = nav@.diff.changes;
    let cursor_idx = match find_change(changes, cursor_id) {
        Some(i) => i,
        None => return 0,
    };
    if !change_inserts_only(&changes[cursor_idx]) {
        return 0;
    }
    assert(p < ids.len());
    count_pending_inserts(changes, state, ids, p + 1)
}

/// The pending inserts of a hunk's changes from position `from` on (see
/// `pending_inserts_from`).
fn count_pending_inserts(changes: &Vec<crate::change::Change>, state: &crate::step::StepState, ids: &Vec<usize>, from: usize) -> (r: usize)
    requires
        state.set_mirrors(),
        from <= ids@.len(),
    ensures
        r == pending_inserts_from(crate::change::change_views(changes@), state@.applied, ids@, from as int),
{
    let ghost cv = crate::change::change_views(changes@);
    let ghost applied = state@.applied;
    let mut pending: usize = 0;
    let mut k: usize = from;
    let mut stopped = false;
    while k < ids.len() && !stopped
        invariant
            from <= k <= ids@.len(),
            cv == crate::change::change_views(changes@),
            state.set_mirrors(),
            state@.applied == applied,
            pending <= k,
            stopped ==> pending == pending_inserts_from(cv, applied, ids@, from as int),
            !stopped ==> pending + pending_inserts_from(cv, applied, ids@, k as int) == pending_inserts_from(cv, applied, ids@, from as int),
        decreases ids@.len() - k + (if stopped { 0int } else { 1int }),
    {
        match find_change(changes, ids[k]) {
            None => {},
            Some(i) => {
                if !change_inserts_only(&changes[i]) {
                    stopped = true;
                } else if !state.is_applied(ids[k]) {
                    pending = pending + 1;
                }
            },
        }
        if !stopped {
            k = k + 1;
        }
    }
    pending
}


/// Where the cursor stood in a file while not stepping, kept for when the
/// file is shown that way again.
#[derive(Debug, Clone, Copy, PartialEq, Eq, Structural)]
pub struct NoStepState {
    pub current_hunk: usize,
    pub cursor_change: Option<usize>,
    pub last_nav_was_hunk: bool,
}

/// The no-step position of a navigator's state.
pub fn no_step_snapshot(state: &crate::step::StepState) -> (s: NoStepState)
    ensures
        s == (NoStepState {
            current_hunk: state@.current_hunk,
            cursor_change: state@.cursor_change,
            last_nav_was_hunk: state@.last_nav_was_hunk,
        }),
{
    NoStepState {
        current_hunk: state.current_hunk_index(),
        cursor_change: state.cursor_change_id(),
        last_nav_was_hunk: state.moved_by_hunk(),
    }
}

/// Where the cursor goes when a file is shown without stepping.
#[derive(Debug, Clone, Copy, PartialEq, Eq, Structural)]
pub enum NoStepEntry {
    /// Back on a hunk and change, in hunk scope.
    Cursor(usize, Option<usize>),
    /// To the first hunk, scrolled to it.
    FirstHunk,
    /// No cursor, outside hunk scope.
    ClearCursor,
    /// On the line at the scroll offset, outside hunk scope.
    CursorAtScroll,
}

/// Where the cursor goes when a file is shown without stepping: with a
/// kept position, back on its hunk and change when the last move was by
/// hunk and a change was set; else to the first hunk when jumping there
/// on entry, else nowhere. Without a kept position: to the first hunk when
/// jumping there on entry into a file not seen this way yet; else on the
/// line at the scroll offset.
pub open spec fn no_step_entry_spec(kept: Option<NoStepState>, auto_jump: bool, visited: bool) -> NoStepEntry {
    match kept {
        Some(s) => if s.last_nav_was_hunk && s.cursor_change is Some {
            NoStepEntry::Cursor(s.current_hunk, s.cursor_change)
        } else if auto_jump {
            NoStepEntry::FirstHunk
        } else {
            NoStepEntry::ClearCursor
        },
        None => if auto_jump && !visited { NoStepEntry::FirstHunk } else { NoStepEntry::CursorAtScroll },
    }
}

/// Where the cursor goes when a file is shown without stepping (see
/// `no_step_entry_spec`).
pub fn no_step_entry(kept: Option<NoStepState>, auto_jump: bool, visited: bool) -> (e: NoStepEntry)
    ensures
        e == no_step_entry_spec(kept, auto_jump, visited),
{
    match kept {
        Some(s) => {
            if s.last_nav_was_hunk && s.cursor_change.is_some() {
                NoStepEntry::Cursor(s.current_hunk, s.cursor_change)
            } else if auto_jump {
                NoStepEntry::FirstHunk
            } else {
                NoStepEntry::ClearCursor
            }
        },
        None => {
            if auto_jump && !visited {
                NoStepEntry::FirstHunk
            } else {
                NoStepEntry::CursorAtScroll
            }
        },
    }
}

} // verus!
