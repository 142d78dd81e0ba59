//! What a key press or a mouse event does in the viewer: the decision,
//! from the key, the pending count, what overlays show and where the focus
//! is, of the action to take and the count left pending. The caller reads
//! the events, performs the action and keeps the pending count.

use vstd::prelude::*;

verus! {

/// The largest count digits build up.
pub const MAX_COUNT: usize = 9999;

/// A key press or mouse event, as the viewer tells them apart.
#[derive(Debug, Clone, Copy, PartialEq, Eq, Structural)]
pub enum KeyInput {
    /// A character key, with whether Control was held.
    Char { c: char, ctrl: bool },
    Down,
    Up,
    Left,
    Right,
    Home,
    End,
    Tab,
    BackTab,
    Enter,
    Esc,
    /// Another key.
    OtherKey,
    /// The mouse wheel turned up.
    WheelUp,
    /// The mouse wheel turned down.
    WheelDown,
    /// Another mouse event.
    OtherMouse,
}

/// The overlays shown over the diff.
#[derive(Debug, Clone, Copy, PartialEq, Eq, Structural)]
pub struct Overlay {
    pub help: bool,
    pub path_popup: bool,
}

/// What an event asks the viewer to do; a number is how many times.
#[derive(Debug, Clone, Copy, PartialEq, Eq, Structural)]
pub enum KeyAction {
    /// Nothing.
    Idle,
    LineStart,
    LineEnd,
    CloseHelp,
    ClosePathPopup,
    Quit,
    NextStep(usize),
    PrevStep(usize),
    NextHunk(usize),
    PrevHunk(usize),
    HunkStart,
    HunkEnd,
    TogglePathPopup,
    GotoStart,
    GotoEnd,
    FirstStep,
    LastStep,
    PrevFile(usize),
    NextFile(usize),
    ToggleAutoplay,
    ToggleViewMode,
    ScrollUp(usize),
    ScrollDown(usize),
    HalfPageUp,
    HalfPageDown,
    ToggleFileFocus,
    IncreaseSpeed,
    DecreaseSpeed,
    ToggleAnimation,
    ToggleLineWrap,
    ToggleStrikethrough,
    ScrollLeft(usize),
    ScrollRight(usize),
    Center,
    ToggleZen,
    RefreshAll,
    RefreshCurrent,
    ToggleFilePanel,
    ToggleHelp,
}

/// The pending count after typing a digit: ten times the count so far
/// (none counts as 0) plus the digit, at most `MAX_COUNT`.
pub open spec fn count_after_digit(pending: Option<usize>, d: u8) -> usize {
    let cur: int = match pending {
        Some(n) => n as int,
        None => 0,
    };
    let next = cur * 10 + d;
    if next > MAX_COUNT { MAX_COUNT } else { next as usize }
}

/// What an event does, and the count left pending. A digit builds the
/// count (a `0` with no count pending goes to the start of the line);
/// the moving keys take the count (1 when none is pending); every other
/// key clears it. `q` and Esc close the help, else the path popup, else
/// quit. The wheel moves by one file when the file list has the focus, else
/// by one step; mouse events do nothing while an overlay shows.
pub open spec fn key_action_spec(key: KeyInput, pending: Option<usize>, overlay: Overlay, multi_file: bool, file_list_focused: bool) -> (KeyAction, Option<usize>) {
    let count: usize = match pending {
        Some(n) => n,
        None => 1,
    };
    match key {
        KeyInput::Char { c, ctrl: _ } if '0' <= c && c <= '9' => if c == '0' && pending is None {
            (KeyAction::LineStart, None)
        } else {
            (KeyAction::Idle, Some(count_after_digit(pending, (c as u32 - '0' as u32) as u8)))
        },
        KeyInput::Char { c: '$', ctrl: _ } => (KeyAction::LineEnd, None),
        KeyInput::Char { c: 'q', ctrl: _ } | KeyInput::Esc => if overlay.help {
            (KeyAction::CloseHelp, None)
        } else if overlay.path_popup {
            (KeyAction::ClosePathPopup, None)
        } else {
            (KeyAction::Quit, None)
        },
        KeyInput::Down | KeyInput::Char { c: 'j', ctrl: _ } => (KeyAction::NextStep(count), None),
        KeyInput::Up | KeyInput::Char { c: 'k', ctrl: _ } => (KeyAction::PrevStep(count), None),
        KeyInput::Right | KeyInput::Char { c: 'l', ctrl: _ } => (KeyAction::NextHunk(count), None),
        KeyInput::Left | KeyInput::Char { c: 'h', ctrl: _ } => (KeyAction::PrevHunk(count), None),
        KeyInput::Char { c: 'b', ctrl: _ } => (KeyAction::HunkStart, None),
        KeyInput::Char { c: 'e', ctrl: _ } => (KeyAction::HunkEnd, None),
        KeyInput::Char { c: 'g', ctrl: true } => (KeyAction::TogglePathPopup, None),
        KeyInput::Home | KeyInput::Char { c: 'g', ctrl: false } => (KeyAction::GotoStart, None),
        KeyInput::End | KeyInput::Char { c: 'G', ctrl: _ } => (KeyAction::GotoEnd, None),
        KeyInput::Char { c: '<', ctrl: _ } => (KeyAction::FirstStep, None),
        KeyInput::Char { c: '>', ctrl: _ } => (KeyAction::LastStep, None),
        KeyInput::Char { c: '[', ctrl: _ } | KeyInput::BackTab => (KeyAction::PrevFile(count), None),
        KeyInput::Char { c: ']', ctrl: _ } => (KeyAction::NextFile(count), None),
        KeyInput::Char { c: ' ', ctrl: _ } => (KeyAction::ToggleAutoplay, None),
        KeyInput::Tab => (KeyAction::ToggleViewMode, None),
        KeyInput::Char { c: 'K', ctrl: _ } => (KeyAction::ScrollUp(count), None),
        KeyInput::Char { c: 'J', ctrl: _ } => (KeyAction::ScrollDown(count), None),
        KeyInput::Char { c: 'u', ctrl: true } => (KeyAction::HalfPageUp, None),
        KeyInput::Char { c: 'd', ctrl: true } => (KeyAction::HalfPageDown, None),
        KeyInput::Enter => (if multi_file { KeyAction::ToggleFileFocus } else { KeyAction::Idle }, None),
        KeyInput::Char { c: '+', ctrl: _ } | KeyInput::Char { c: '=', ctrl: _ } => (KeyAction::IncreaseSpeed, None),
        KeyInput::Char { c: '-', ctrl: _ } => (KeyAction::DecreaseSpeed, None),
        KeyInput::Char { c: 'a', ctrl: true } => (if multi_file { KeyAction::ToggleFileFocus } else { KeyAction::Idle }, None),
        KeyInput::Char { c: 'a', ctrl: false } => (KeyAction::ToggleAnimation, None),
        KeyInput::Char { c: 'w', ctrl: _ } => (KeyAction::ToggleLineWrap, None),
        KeyInput::Char { c: 's', ctrl: _ } => (KeyAction::ToggleStrikethrough, None),
        KeyInput::Char { c: 'H', ctrl: _ } => (KeyAction::ScrollLeft(count), None),
        KeyInput::Char { c: 'L', ctrl: _ } => (KeyAction::ScrollRight(count), None),
        KeyInput::Char { c: 'z', ctrl: _ } => (KeyAction::Center, None),
        KeyInput::Char { c: 'Z', ctrl: _ } => (KeyAction::ToggleZen, None),
        KeyInput::Char { c: 'r', ctrl: _ } => (if file_list_focused { KeyAction::RefreshAll } else { KeyAction::RefreshCurrent }, None),
        KeyInput::Char { c: 'f', ctrl: _ } => (if multi_file { KeyAction::ToggleFilePanel } else { KeyAction::Idle }, None),
        KeyInput::Char { c: '?', ctrl: _ } => (KeyAction::ToggleHelp, None),
        KeyInput::WheelUp => if overlay.help || overlay.path_popup {
            (KeyAction::Idle, pending)
        } else if file_list_focused {
            (KeyAction::PrevFile(1), None)
        } else {
            (KeyAction::PrevStep(1), None)
        },
        KeyInput::WheelDown => if overlay.help || overlay.path_popup {
            (KeyAction::Idle, pending)
        } else if file_list_focused {
            (KeyAction::NextFile(1), None)
        } else {
            (KeyAction::NextStep(1), None)
        },
        KeyInput::OtherMouse => if overlay.help || overlay.path_popup { (KeyAction::Idle, pending) } else { (KeyAction::Idle, None) },
        _ => (KeyAction::Idle, None),
    }
}

/// What an event does (see `key_action_spec`).
pub fn key_action(key: KeyInput, pending: Option<usize>, overlay: Overlay, multi_file: bool, file_list_focused: bool) -> (r: (KeyAction, Option<usize>))
    ensures
        r == key_action_spec(key, pending, overlay, multi_file, file_list_focused),
{
    let count: usize = match pending {
        Some(n) => n,
        None => 1,
    };
    match key {
        KeyInput::Char { c, ctrl: _ } if '0' <= c && c <= '9' => if c == '0' && pending.is_none() {
            (KeyAction::LineStart, None)
        } else {
            let d: u8 = (c as u32 - '0' as u32) as u8;
            let cur: usize = match pending {
                Some(n) => n,
                None => 0,
            };
            let next: usize = if cur > MAX_COUNT {
                MAX_COUNT
            } else {
                let v = cur * 10 + d as usize;
                if v > MAX_COUNT {
                    MAX_COUNT
                } else {
                    v
                }
            };
            (KeyAction::Idle, Some(next))
        },
        KeyInput::Char { c: '$', ctrl: _ } => (KeyAction::LineEnd, None),
        KeyInput::Char { c: 'q', ctrl: _ } | KeyInput::Esc => if overlay.help {
            (KeyAction::CloseHelp, None)
        } else if overlay.path_popup {
            (KeyAction::ClosePathPopup, None)
        } else {
            (KeyAction::Quit, None)
        },
        KeyInput::Down | KeyInput::Char { c: 'j', ctrl: _ } => (KeyAction::NextStep(count), None),
        KeyInput::Up | KeyInput::Char { c: 'k', ctrl: _ } => (KeyAction::PrevStep(count), None),
        KeyInput::Right | KeyInput::Char { c: 'l', ctrl: _ } => (KeyAction::NextHunk(count), None),
        KeyInput::Left | KeyInput::Char { c: 'h', ctrl: _ } => (KeyAction::PrevHunk(count), None),
        KeyInput::Char { c: 'b', ctrl: _ } => (KeyAction::HunkStart, None),
        KeyInput::Char { c: 'e', ctrl: _ } => (KeyAction::HunkEnd, None),
        KeyInput::Char { c: 'g', ctrl: true } => (KeyAction::TogglePathPopup, None),
        KeyInput::Home | KeyInput::Char { c: 'g', ctrl: false } => (KeyAction::GotoStart, None),
        KeyInput::End | KeyInput::Char { c: 'G', ctrl: _ } => (KeyAction::GotoEnd, None),
        KeyInput::Char { c: '<', ctrl: _ } => (KeyAction::FirstStep, None),
        KeyInput::Char { c: '>', ctrl: _ } => (KeyAction::LastStep, None),
        KeyInput::Char { c: '[', ctrl: _ } | KeyInput::BackTab => (KeyAction::PrevFile(count), None),
        KeyInput::Char { c: ']', ctrl: _ } => (KeyAction::NextFile(count), None),
        KeyInput::Char { c: ' ', ctrl: _ } => (KeyAction::ToggleAutoplay, None),
        KeyInput::Tab => (KeyAction::ToggleViewMode, None),
        KeyInput::Char { c: 'K', ctrl: _ } => (KeyAction::ScrollUp(count), None),
        KeyInput::Char { c: 'J', ctrl: _ } => (KeyAction::ScrollDown(count), None),
        KeyInput::Char { c: 'u', ctrl: true } => (KeyAction::HalfPageUp, None),
        KeyInput::Char { c: 'd', ctrl: true } => (KeyAction::HalfPageDown, None),
        KeyInput::Enter => (if multi_file { KeyAction::ToggleFileFocus } else { KeyAction::Idle }, None),
        KeyInput::Char { c: '+', ctrl: _ } | KeyInput::Char { c: '=', ctrl: _ } => (KeyAction::IncreaseSpeed, None),
        KeyInput::Char { c: '-', ctrl: _ } => (KeyAction::DecreaseSpeed, None),
        KeyInput::Char { c: 'a', ctrl: true } => (if multi_file { KeyAction::ToggleFileFocus } else { KeyAction::Idle }, None),
        KeyInput::Char { c: 'a', ctrl: false } => (KeyAction::ToggleAnimation, None),
        KeyInput::Char { c: 'w', ctrl: _ } => (KeyAction::ToggleLineWrap, None),
        KeyInput::Char { c: 's', ctrl: _ } => (KeyAction::ToggleStrikethrough, None),
        KeyInput::Char { c: 'H', ctrl: _ } => (KeyAction::ScrollLeft(count), None),
        KeyInput::Char { c: 'L', ctrl: _ } => (KeyAction::ScrollRight(count), None),
        KeyInput::Char { c: 'z', ctrl: _ } => (KeyAction::Center, None),
        KeyInput::Char { c: 'Z', ctrl: _ } => (KeyAction::ToggleZen, None),
        KeyInput::Char { c: 'r', ctrl: _ } => (if file_list_focused { KeyAction::RefreshAll } else { KeyAction::RefreshCurrent }, None),
        KeyInput::Char { c: 'f', ctrl: _ } => (if multi_file { KeyAction::ToggleFilePanel } else { KeyAction::Idle }, None),
        KeyInput::Char { c: '?', ctrl: _ } => (KeyAction::ToggleHelp, None),
        KeyInput::WheelUp => if overlay.help || overlay.path_popup {
            (KeyAction::Idle, pending)
        } else if file_list_focused {
            (KeyAction::PrevFile(1), None)
        } else {
            (KeyAction::PrevStep(1), None)
        },
        KeyInput::WheelDown => if overlay.help || overlay.path_popup {
            (KeyAction::Idle, pending)
        } else if file_list_focused {
            (KeyAction::NextFile(1), None)
        } else {
            (KeyAction::NextStep(1), None)
        },
        KeyInput::OtherMouse => if overlay.help || overlay.path_popup { (KeyAction::Idle, pending) } else { (KeyAction::Idle, None) },
        _ => (KeyAction::Idle, None),
    }
}

} // verus!
