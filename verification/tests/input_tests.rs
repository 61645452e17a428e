use neuterm::input::{action_from_key, key_to_pty_bytes, Action, KeyInput, LogicalKey, Modifiers, NamedKey};

fn mods(shift: bool, control: bool, alt: bool, super_key: bool) -> Modifiers {
    Modifiers { shift, control, alt, super_key }
}

fn press(key: LogicalKey) -> KeyInput {
    KeyInput { pressed: true, repeat: false, key }
}

fn ch(s: &str) -> LogicalKey {
    LogicalKey::Character(s.to_string())
}

const NONE: Modifiers = Modifiers { shift: false, control: false, alt: false, super_key: false };

#[test]
fn clipboard_chords() {
    assert_eq!(action_from_key(&press(ch("C")), mods(true, true, false, false)), Some(Action::Copy));
    assert_eq!(action_from_key(&press(ch("c")), mods(false, false, false, true)), Some(Action::Copy));
    assert_eq!(action_from_key(&press(ch("v")), mods(false, false, false, true)), Some(Action::Paste));
    assert_eq!(action_from_key(&press(ch("V")), mods(true, true, false, false)), Some(Action::Paste));
    assert_eq!(action_from_key(&press(ch("c")), mods(false, true, false, false)), None);
}

#[test]
fn super_arrows() {
    let left = || press(LogicalKey::Named(NamedKey::ArrowLeft));
    assert_eq!(action_from_key(&left(), mods(false, false, false, true)), Some(Action::TabPrev));
    assert_eq!(action_from_key(&left(), mods(true, false, false, true)), Some(Action::TabMoveLeft));
    assert_eq!(action_from_key(&left(), mods(false, false, true, true)), Some(Action::PaneFocusLeft));
    assert_eq!(action_from_key(&left(), mods(true, false, true, true)), None);
    let right = press(LogicalKey::Named(NamedKey::ArrowRight));
    assert_eq!(action_from_key(&right, mods(false, false, false, true)), Some(Action::TabNext));
    let up = press(LogicalKey::Named(NamedKey::ArrowUp));
    assert_eq!(action_from_key(&up, mods(true, false, true, true)), Some(Action::PaneFocusUp));
    assert_eq!(action_from_key(&up, mods(false, false, false, true)), None);
}

#[test]
fn super_letters() {
    let s = mods(false, false, false, true);
    let ss = mods(true, false, false, true);
    assert_eq!(action_from_key(&press(ch("t")), s), Some(Action::TabNew));
    assert_eq!(action_from_key(&press(ch("w")), s), Some(Action::TabClose));
    assert_eq!(action_from_key(&press(ch("w")), ss), Some(Action::PaneClose));
    assert_eq!(action_from_key(&press(ch("d")), s), Some(Action::PaneSplitHorizontal));
    assert_eq!(action_from_key(&press(ch("d")), ss), Some(Action::PaneSplitVertical));
    assert_eq!(action_from_key(&press(ch("/")), s), Some(Action::AiCommandHelp));
    assert_eq!(action_from_key(&press(ch("a")), ss), Some(Action::AiChatToggle));
    assert_eq!(action_from_key(&press(ch("r")), ss), Some(Action::ReloadConfig));
    assert_eq!(action_from_key(&press(ch("i")), s), Some(Action::TabRename));
    assert_eq!(action_from_key(&press(ch("t")), ss), None);
    assert_eq!(action_from_key(&press(ch("t")), NONE), None);
}

#[test]
fn releases_and_repeats_are_not_actions() {
    let mut k = press(ch("t"));
    k.repeat = true;
    assert_eq!(action_from_key(&k, mods(false, false, false, true)), None);
    k.repeat = false;
    k.pressed = false;
    assert_eq!(action_from_key(&k, mods(false, false, false, true)), None);
}

#[test]
fn named_keys_send_escape_sequences() {
    assert_eq!(key_to_pty_bytes(&press(LogicalKey::Named(NamedKey::Enter)), NONE), Some(b"\r".to_vec()));
    assert_eq!(key_to_pty_bytes(&press(LogicalKey::Named(NamedKey::Backspace)), NONE), Some(vec![0x7f]));
    assert_eq!(key_to_pty_bytes(&press(LogicalKey::Named(NamedKey::ArrowUp)), NONE), Some(b"\x1b[A".to_vec()));
    assert_eq!(key_to_pty_bytes(&press(LogicalKey::Named(NamedKey::PageDown)), NONE), Some(b"\x1b[6~".to_vec()));
    assert_eq!(key_to_pty_bytes(&press(LogicalKey::Named(NamedKey::Delete)), NONE), Some(b"\x1b[3~".to_vec()));
    assert_eq!(key_to_pty_bytes(&press(LogicalKey::Unidentified), NONE), None);
}

#[test]
fn characters_and_control_codes() {
    assert_eq!(key_to_pty_bytes(&press(ch("é")), NONE), Some("é".as_bytes().to_vec()));
    assert_eq!(key_to_pty_bytes(&press(ch("C")), mods(false, true, false, false)), Some(vec![3]));
    assert_eq!(key_to_pty_bytes(&press(ch("[")), mods(false, true, false, false)), Some(b"[".to_vec()));
    assert_eq!(key_to_pty_bytes(&press(ch("")), mods(false, true, false, false)), None);
    assert_eq!(key_to_pty_bytes(&press(ch("")), NONE), Some(Vec::new()));
}

#[test]
fn chords_of_the_application_are_not_sent() {
    assert_eq!(key_to_pty_bytes(&press(ch("c")), mods(false, false, false, true)), None);
    assert_eq!(key_to_pty_bytes(&press(ch("c")), mods(true, true, false, false)), None);
    let mut k = press(ch("x"));
    k.pressed = false;
    assert_eq!(key_to_pty_bytes(&k, NONE), None);
    k.pressed = true;
    k.repeat = true;
    assert_eq!(key_to_pty_bytes(&k, NONE), Some(b"x".to_vec()));
}
