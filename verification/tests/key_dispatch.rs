use oyo_core::keys::{key_action, KeyAction, KeyInput, Overlay};

const CLEAR: Overlay = Overlay { help: false, path_popup: false };

fn ch(c: char) -> KeyInput {
    KeyInput::Char { c, ctrl: false }
}

fn ctrl(c: char) -> KeyInput {
    KeyInput::Char { c, ctrl: true }
}

#[test]
fn digits_build_a_count_that_moves_take() {
    assert_eq!(key_action(ch('1'), None, CLEAR, false, false), (KeyAction::Idle, Some(1)));
    assert_eq!(key_action(ch('0'), Some(1), CLEAR, false, false), (KeyAction::Idle, Some(10)));
    assert_eq!(key_action(ch('j'), Some(10), CLEAR, false, false), (KeyAction::NextStep(10), None));
    assert_eq!(key_action(ch('j'), None, CLEAR, false, false), (KeyAction::NextStep(1), None));
    assert_eq!(key_action(ch('9'), Some(9999), CLEAR, false, false), (KeyAction::Idle, Some(9999)));
}

#[test]
fn zero_without_a_count_goes_to_line_start() {
    assert_eq!(key_action(ch('0'), None, CLEAR, false, false), (KeyAction::LineStart, None));
}

#[test]
fn other_keys_clear_the_count() {
    assert_eq!(key_action(ch('b'), Some(3), CLEAR, false, false), (KeyAction::HunkStart, None));
    assert_eq!(key_action(ch('x'), Some(3), CLEAR, false, false), (KeyAction::Idle, None));
    assert_eq!(key_action(KeyInput::OtherKey, Some(3), CLEAR, false, false), (KeyAction::Idle, None));
}

#[test]
fn quit_closes_overlays_first() {
    let help = Overlay { help: true, path_popup: true };
    let popup = Overlay { help: false, path_popup: true };
    assert_eq!(key_action(ch('q'), None, help, false, false).0, KeyAction::CloseHelp);
    assert_eq!(key_action(KeyInput::Esc, None, popup, false, false).0, KeyAction::ClosePathPopup);
    assert_eq!(key_action(ch('q'), None, CLEAR, false, false).0, KeyAction::Quit);
}

#[test]
fn control_keys() {
    assert_eq!(key_action(ctrl('g'), None, CLEAR, false, false).0, KeyAction::TogglePathPopup);
    assert_eq!(key_action(ch('g'), None, CLEAR, false, false).0, KeyAction::GotoStart);
    assert_eq!(key_action(ctrl('u'), None, CLEAR, false, false).0, KeyAction::HalfPageUp);
    assert_eq!(key_action(ch('u'), None, CLEAR, false, false).0, KeyAction::Idle);
    assert_eq!(key_action(ctrl('a'), None, CLEAR, true, false).0, KeyAction::ToggleFileFocus);
    assert_eq!(key_action(ch('a'), None, CLEAR, true, false).0, KeyAction::ToggleAnimation);
    assert_eq!(key_action(ctrl('j'), Some(2), CLEAR, false, false).0, KeyAction::NextStep(2));
}

#[test]
fn keys_that_need_several_files() {
    assert_eq!(key_action(KeyInput::Enter, None, CLEAR, false, false).0, KeyAction::Idle);
    assert_eq!(key_action(KeyInput::Enter, None, CLEAR, true, false).0, KeyAction::ToggleFileFocus);
    assert_eq!(key_action(ch('f'), None, CLEAR, true, false).0, KeyAction::ToggleFilePanel);
    assert_eq!(key_action(ch('f'), None, CLEAR, false, false).0, KeyAction::Idle);
    assert_eq!(key_action(ch('r'), None, CLEAR, true, true).0, KeyAction::RefreshAll);
    assert_eq!(key_action(ch('r'), None, CLEAR, true, false).0, KeyAction::RefreshCurrent);
}

#[test]
fn movement_keys() {
    assert_eq!(key_action(KeyInput::Right, Some(2), CLEAR, false, false).0, KeyAction::NextHunk(2));
    assert_eq!(key_action(ch('h'), None, CLEAR, false, false).0, KeyAction::PrevHunk(1));
    assert_eq!(key_action(KeyInput::BackTab, Some(3), CLEAR, true, false).0, KeyAction::PrevFile(3));
    assert_eq!(key_action(ch(']'), None, CLEAR, true, false).0, KeyAction::NextFile(1));
    assert_eq!(key_action(ch('G'), None, CLEAR, false, false).0, KeyAction::GotoEnd);
    assert_eq!(key_action(KeyInput::Tab, None, CLEAR, false, false).0, KeyAction::ToggleViewMode);
    assert_eq!(key_action(ch('='), None, CLEAR, false, false).0, KeyAction::IncreaseSpeed);
    assert_eq!(key_action(ch('L'), Some(4), CLEAR, false, false).0, KeyAction::ScrollRight(4));
}

#[test]
fn the_wheel_moves_files_or_steps() {
    assert_eq!(key_action(KeyInput::WheelDown, Some(5), CLEAR, true, true), (KeyAction::NextFile(1), None));
    assert_eq!(key_action(KeyInput::WheelUp, None, CLEAR, true, false), (KeyAction::PrevStep(1), None));
    let help = Overlay { help: true, path_popup: false };
    assert_eq!(key_action(KeyInput::WheelUp, Some(5), help, true, false), (KeyAction::Idle, Some(5)));
    assert_eq!(key_action(KeyInput::OtherMouse, Some(5), CLEAR, true, false), (KeyAction::Idle, None));
}
