//! Keybinding dispatch and the bytes that keys send to the shell.
//!
//! Key events are described by the library's own [`KeyInput`] and
//! [`Modifiers`]; the windowing layer converts its events into them.

use vstd::prelude::*;

use crate::text::{ascii_lower, chars_of, to_ascii_lower};

verus! {

/// Named (non-character) keys the terminal reacts to.
#[derive(Debug, Clone, Copy, PartialEq, Eq, Structural)]
pub enum NamedKey {
    Enter,
    Backspace,
    Tab,
    Escape,
    ArrowUp,
    ArrowDown,
    ArrowLeft,
    ArrowRight,
    Home,
    End,
    PageUp,
    PageDown,
    Delete,
}

/// The logical key of an event: a named key, the text a key produces, or
/// something the terminal does not handle.
#[derive(Debug, Clone)]
pub enum LogicalKey {
    Named(NamedKey),
    Character(String),
    Unidentified,
}

/// A keyboard event.
#[derive(Debug, Clone)]
pub struct KeyInput {
    pub pressed: bool,
    pub repeat: bool,
    pub key: LogicalKey,
}

/// Modifier keys held during an event.
#[derive(Debug, Clone, Copy, PartialEq, Eq, Structural)]
pub struct Modifiers {
    pub shift: bool,
    pub control: bool,
    pub alt: bool,
    pub super_key: bool,
}

#[derive(Debug, Clone, Copy, PartialEq, Eq, Structural)]
pub enum Action {
    TabPrev,
    TabNext,
    TabMoveLeft,
    TabMoveRight,
    TabNew,
    TabClose,
    TabRename,
    PaneClose,
    PaneSplitHorizontal,
    PaneSplitVertical,
    PaneFocusLeft,
    PaneFocusRight,
    PaneFocusUp,
    PaneFocusDown,
    AiCommandHelp,
    AiChatToggle,
    ReloadConfig,
    Copy,
    Paste,
}

/// `c` is the one letter given, in either case.
pub open spec fn is_letter_ci(c: Seq<char>, lower: char, upper: char) -> bool {
    c == seq![lower] || c == seq![upper]
}

/// The action of a Super chord on a character key.
pub open spec fn chord_action(c: Seq<char>, shift: bool, alt: bool) -> Option<Action> {
    if alt {
        None
    } else if c == seq!['t'] && !shift {
        Some(Action::TabNew)
    } else if c == seq!['w'] {
        if shift {
            Some(Action::PaneClose)
        } else {
            Some(Action::TabClose)
        }
    } else if c == seq!['i'] && !shift {
        Some(Action::TabRename)
    } else if c == seq!['d'] {
        if shift {
            Some(Action::PaneSplitVertical)
        } else {
            Some(Action::PaneSplitHorizontal)
        }
    } else if (c == seq![';'] || c == seq!['/']) && !shift {
        Some(Action::AiCommandHelp)
    } else if c == seq!['a'] && shift {
        Some(Action::AiChatToggle)
    } else if c == seq!['r'] && shift {
        Some(Action::ReloadConfig)
    } else {
        None
    }
}

/// The action of a Super chord: arrows move between and reorder tabs, with
/// Alt they move pane focus; letters are [`chord_action`].
pub open spec fn super_action(k: LogicalKey, shift: bool, alt: bool) -> Option<Action> {
    match k {
        LogicalKey::Named(NamedKey::ArrowLeft) => if shift && !alt {
            Some(Action::TabMoveLeft)
        } else if alt && !shift {
            Some(Action::PaneFocusLeft)
        } else if !shift && !alt {
            Some(Action::TabPrev)
        } else {
            None
        },
        LogicalKey::Named(NamedKey::ArrowRight) => if shift && !alt {
            Some(Action::TabMoveRight)
        } else if alt && !shift {
            Some(Action::PaneFocusRight)
        } else if !shift && !alt {
            Some(Action::TabNext)
        } else {
            None
        },
        LogicalKey::Named(NamedKey::ArrowUp) => if alt {
            Some(Action::PaneFocusUp)
        } else {
            None
        },
        LogicalKey::Named(NamedKey::ArrowDown) => if alt {
            Some(Action::PaneFocusDown)
        } else {
            None
        },
        LogicalKey::Character(c) => chord_action(c@, shift, alt),
        _ => None,
    }
}

/// Copy and paste chords: Ctrl+Shift or Super (without Shift) with C / V.
pub open spec fn clipboard_chord(m: Modifiers) -> bool {
    (m.control && m.shift) || (m.super_key && !m.shift)
}

/// The action a key press stands for, if any. Releases and auto-repeats
/// trigger nothing.
pub open spec fn key_action(e: KeyInput, m: Modifiers) -> Option<Action> {
    if !e.pressed || e.repeat {
        None
    } else if e.key is Character && clipboard_chord(m) && is_letter_ci(e.key->Character_0@, 'c', 'C') {
        Some(Action::Copy)
    } else if e.key is Character && clipboard_chord(m) && is_letter_ci(e.key->Character_0@, 'v', 'V') {
        Some(Action::Paste)
    } else if m.super_key {
        super_action(e.key, m.shift, m.alt)
    } else {
        None
    }
}

/// `s` is exactly the character `ch`.
fn is_single(s: &str, ch: char) -> (b: bool)
    ensures
        b == (s@ == seq![ch]),
{
    let v = chars_of(s);
    let r = v.len() == 1 && v[0] == ch;
    proof {
        if v@.len() == 1 && v@[0] == ch {
            assert(v@ =~= seq![ch]);
        }
    }
    r
}

/// The action of a Super chord on a character key.
fn chord_action_exec(c: &str, shift: bool, alt: bool) -> (r: Option<Action>)
    ensures
        r == chord_action(c@, shift, alt),
{
    if alt {
        None
    } else if is_single(c, 't') && !shift {
        Some(Action::TabNew)
    } else if is_single(c, 'w') {
        if shift {
            Some(Action::PaneClose)
        } else {
            Some(Action::TabClose)
        }
    } else if is_single(c, 'i') && !shift {
        Some(Action::TabRename)
    } else if is_single(c, 'd') {
        if shift {
            Some(Action::PaneSplitVertical)
        } else {
            Some(Action::PaneSplitHorizontal)
        }
    } else if (is_single(c, ';') || is_single(c, '/')) && !shift {
        Some(Action::AiCommandHelp)
    } else if is_single(c, 'a') && shift {
        Some(Action::AiChatToggle)
    } else if is_single(c, 'r') && shift {
        Some(Action::ReloadConfig)
    } else {
        None
    }
}

/// The application action bound to a key press, if any.
pub fn action_from_key(event: &KeyInput, mods: Modifiers) -> (r: Option<Action>)
    ensures
        r == key_action(*event, mods),
{
    if !event.pressed || event.repeat {
        return None;
    }
    let super_key = mods.super_key;
    let shift = mods.shift;
    let alt = mods.alt;
    let ctrl = mods.control;

    // Terminal copy/paste: Ctrl+Shift+C/V and Super+C/V.
    if let LogicalKey::Character(c) = &event.key {
        let c = c.as_str();
        let chord = (ctrl && shift) || (super_key && !shift);
        if chord && (is_single(c, 'c') || is_single(c, 'C')) {
            return Some(Action::Copy);
        }
        if chord && (is_single(c, 'v') || is_single(c, 'V')) {
            return Some(Action::Paste);
        }
    }
    if !super_key {
        return None;
    }
    match &event.key {
        LogicalKey::Named(NamedKey::ArrowLeft) => if shift && !alt {
            Some(Action::TabMoveLeft)
        } else if alt && !shift {
            Some(Action::PaneFocusLeft)
        } else if !shift && !alt {
            Some(Action::TabPrev)
        } else {
            None
        },
        LogicalKey::Named(NamedKey::ArrowRight) => if shift && !alt {
            Some(Action::TabMoveRight)
        } else if alt && !shift {
            Some(Action::PaneFocusRight)
        } else if !shift && !alt {
            Some(Action::TabNext)
        } else {
            None
        },
        LogicalKey::Named(NamedKey::ArrowUp) => if alt {
            Some(Action::PaneFocusUp)
        } else {
            None
        },
        LogicalKey::Named(NamedKey::ArrowDown) => if alt {
            Some(Action::PaneFocusDown)
        } else {
            None
        },
        LogicalKey::Character(c) => chord_action_exec(c.as_str(), shift, alt),
        _ => None,
    }
}

/// The escape sequence a named key sends.
pub open spec fn named_key_bytes(k: NamedKey) -> Seq<u8> {
    match k {
        NamedKey::Enter => seq![0x0du8],
        NamedKey::Backspace => seq![0x7fu8],
        NamedKey::Tab => seq![0x09u8],
        NamedKey::Escape => seq![0x1bu8],
        NamedKey::ArrowUp => seq![0x1bu8, 0x5bu8, 0x41u8],
        NamedKey::ArrowDown => seq![0x1bu8, 0x5bu8, 0x42u8],
        NamedKey::ArrowRight => seq![0x1bu8, 0x5bu8, 0x43u8],
        NamedKey::ArrowLeft => seq![0x1bu8, 0x5bu8, 0x44u8],
        NamedKey::Home => seq![0x1bu8, 0x5bu8, 0x48u8],
        NamedKey::End => seq![0x1bu8, 0x5bu8, 0x46u8],
        NamedKey::PageUp => seq![0x1bu8, 0x5bu8, 0x35u8, 0x7eu8],
        NamedKey::PageDown => seq![0x1bu8, 0x5bu8, 0x36u8, 0x7eu8],
        NamedKey::Delete => seq![0x1bu8, 0x5bu8, 0x33u8, 0x7eu8],
    }
}

/// What a character key sends: with Ctrl, a letter becomes its control
/// code (Ctrl+A is 1); otherwise the text, UTF-8 encoded. Ctrl with no
/// text sends nothing.
pub open spec fn character_bytes(c: Seq<char>, ctrl: bool) -> Option<Seq<u8>> {
    if ctrl && c.len() == 0 {
        None
    } else if ctrl && 'a' <= ascii_lower(c[0]) <= 'z' {
        Some(seq![((ascii_lower(c[0]) as u32) - 96) as u8])
    } else {
        Some(vstd::utf8::encode_utf8(c))
    }
}

/// The bytes a key press sends to the shell, if any: nothing for releases,
/// Super chords and Ctrl+Shift chords (those are the application's).
pub open spec fn key_bytes(e: KeyInput, m: Modifiers) -> Option<Seq<u8>> {
    if !e.pressed || m.super_key || (m.control && m.shift) {
        None
    } else {
        match e.key {
            LogicalKey::Named(k) => Some(named_key_bytes(k)),
            LogicalKey::Character(c) => character_bytes(c@, m.control),
            LogicalKey::Unidentified => None,
        }
    }
}

/// The escape sequence of a named key.
fn named_key_bytes_exec(k: NamedKey) -> (v: Vec<u8>)
    ensures
        v@ == named_key_bytes(k),
{
    let v = match k {
        NamedKey::Enter => vec![0x0du8],
        NamedKey::Backspace => vec![0x7fu8],
        NamedKey::Tab => vec![0x09u8],
        NamedKey::Escape => vec![0x1bu8],
        NamedKey::ArrowUp => vec![0x1bu8, 0x5bu8, 0x41u8],
        NamedKey::ArrowDown => vec![0x1bu8, 0x5bu8, 0x42u8],
        NamedKey::ArrowRight => vec![0x1bu8, 0x5bu8, 0x43u8],
        NamedKey::ArrowLeft => vec![0x1bu8, 0x5bu8, 0x44u8],
        NamedKey::Home => vec![0x1bu8, 0x5bu8, 0x48u8],
        NamedKey::End => vec![0x1bu8, 0x5bu8, 0x46u8],
        NamedKey::PageUp => vec![0x1bu8, 0x5bu8, 0x35u8, 0x7eu8],
        NamedKey::PageDown => vec![0x1bu8, 0x5bu8, 0x36u8, 0x7eu8],
        NamedKey::Delete => vec![0x1bu8, 0x5bu8, 0x33u8, 0x7eu8],
    };
    proof {
        assert(v@ =~= named_key_bytes(k));
    }
    v
}

/// Bytes to send to the shell for a key press that is not an action.
pub fn key_to_pty_bytes(event: &KeyInput, mods: Modifiers) -> (r: Option<Vec<u8>>)
    ensures
        match r {
            Some(v) => key_bytes(*event, mods) == Some(v@),
            None => key_bytes(*event, mods) is None,
        },
{
    if !event.pressed {
        return None;
    }
    // Super chords and Ctrl+Shift (copy/paste) are not for the shell.
    if mods.super_key {
        return None;
    }
    if mods.control && mods.shift {
        return None;
    }
    match &event.key {
        LogicalKey::Named(k) => Some(named_key_bytes_exec(*k)),
        LogicalKey::Character(c) => {
            let s = c.as_str();
            if mods.control {
                let cs = chars_of(s);
                if cs.len() == 0 {
                    return None;
                }
                let lower = to_ascii_lower(cs[0]);
                if 'a' <= lower && lower <= 'z' {
                    let code = ((lower as u32) - 96) as u8;
                    let v = vec![code];
                    proof {
                        assert(v@ =~= seq![code]);
                    }
                    return Some(v);
                }
            }
            let bytes = s.as_bytes();
            Some(vstd::slice::slice_to_vec(bytes))
        },
        LogicalKey::Unidentified => None,
    }
}

/// A press of a named key that reaches the shell sends the key's xterm
/// sequence, whatever else is held: Enter CR, Backspace DEL, Tab HT, Escape
/// ESC; the cursor keys ESC [ A (up), ESC [ B (down), ESC [ C (right) and
/// ESC [ D (left); Home ESC [ H, End ESC [ F; Page Up ESC [ 5 ~, Page Down
/// ESC [ 6 ~ and Delete ESC [ 3 ~.
pub proof fn lemma_named_keys_send_xterm_sequences(e: KeyInput, m: Modifiers, k: NamedKey)
    requires
        e.pressed,
        !m.super_key,
        !(m.control && m.shift),
        e.key == LogicalKey::Named(k),
    ensures
        k == NamedKey::Enter ==> key_bytes(e, m) == Some(seq![13u8]),
        k == NamedKey::Backspace ==> key_bytes(e, m) == Some(seq![127u8]),
        k == NamedKey::Tab ==> key_bytes(e, m) == Some(seq![9u8]),
        k == NamedKey::Escape ==> key_bytes(e, m) == Some(seq![27u8]),
        k == NamedKey::ArrowUp ==> key_bytes(e, m) == Some(seq![27u8, 91u8, 65u8]),
        k == NamedKey::ArrowDown ==> key_bytes(e, m) == Some(seq![27u8, 91u8, 66u8]),
        k == NamedKey::ArrowRight ==> key_bytes(e, m) == Some(seq![27u8, 91u8, 67u8]),
        k == NamedKey::ArrowLeft ==> key_bytes(e, m) == Some(seq![27u8, 91u8, 68u8]),
        k == NamedKey::Home ==> key_bytes(e, m) == Some(seq![27u8, 91u8, 72u8]),
        k == NamedKey::End ==> key_bytes(e, m) == Some(seq![27u8, 91u8, 70u8]),
        k == NamedKey::PageUp ==> key_bytes(e, m) == Some(seq![27u8, 91u8, 53u8, 126u8]),
        k == NamedKey::PageDown ==> key_bytes(e, m) == Some(seq![27u8, 91u8, 54u8, 126u8]),
        k == NamedKey::Delete ==> key_bytes(e, m) == Some(seq![27u8, 91u8, 51u8, 126u8]),
{
}

/// Different named keys send different bytes; in particular the four arrow
/// keys send four different sequences.
pub proof fn lemma_named_keys_distinct(a: NamedKey, b: NamedKey)
    requires
        a != b,
    ensures
        named_key_bytes(a) != named_key_bytes(b),
{
    let x = named_key_bytes(a);
    let y = named_key_bytes(b);
    if x == y {
        assert(x.len() == y.len());
        if x.len() == 1 {
            assert(x[0] == y[0]);
        } else if x.len() == 3 {
            assert(x[2] == y[2]);
        } else {
            assert(x[2] == y[2]);
        }
    }
}

/// With Ctrl (without Shift or Super) a letter key sends its control code,
/// whatever its case: `a` or `A` sends 1, `b` or `B` 2, up to 26 for `z` or
/// `Z`. Without Ctrl a character key sends its text, UTF-8 encoded.
pub proof fn lemma_character_keys(e: KeyInput, m: Modifiers, s: String, c: char)
    requires
        e.pressed,
        !m.super_key,
        !(m.control && m.shift),
        e.key == LogicalKey::Character(s),
    ensures
        m.control && s@ == seq![c] && 'a' <= c <= 'z' ==> key_bytes(e, m) == Some(
            seq![((c as u32) - 96) as u8],
        ),
        m.control && s@ == seq![c] && 'A' <= c <= 'Z' ==> key_bytes(e, m) == Some(
            seq![((c as u32) - 64) as u8],
        ),
        !m.control ==> key_bytes(e, m) == Some(vstd::utf8::encode_utf8(s@)),
{
}

/// Releases, Super chords and Ctrl+Shift chords send nothing to the shell.
pub proof fn lemma_chords_send_nothing(e: KeyInput, m: Modifiers)
    ensures
        !e.pressed ==> key_bytes(e, m) is None,
        m.super_key ==> key_bytes(e, m) is None,
        m.control && m.shift ==> key_bytes(e, m) is None,
{
}

} // verus!
