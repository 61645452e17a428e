//! The input overlays of the window: renaming a tab and asking the model
//! for a command. Keys edit the overlay; confirming it yields what the
//! application does next.

use vstd::prelude::*;

use crate::ai::{
    find_newline, lemma_line_end, lemma_line_end_at, line_end, lines_of, push_str_chars, starts_with, strip_cr,
    strip_cr_exec, CommandSuggestion,
};
use crate::input::Modifiers;
use crate::text::{chars_of, owned, slice_chars, string_of, trim, trim_chars};

verus! {

#[derive(Debug, Clone, Copy, PartialEq, Eq, Structural)]
pub enum OverlayKind {
    RenameTab,
    CommandHelp,
}

impl OverlayKind {
    /// The heading the overlay is drawn with.
    pub fn title(self) -> (t: &'static str)
        ensures
            t@ == (match self {
                OverlayKind::RenameTab => "Rename tab"@,
                OverlayKind::CommandHelp => "Command help"@,
            }),
    {
        match self {
            OverlayKind::RenameTab => "Rename tab",
            OverlayKind::CommandHelp => "Command help",
        }
    }
}

/// An open overlay: what was typed, the text shown under it, and whether a
/// request is under way.
#[derive(Debug)]
pub struct OverlayState {
    pub kind: OverlayKind,
    pub input: String,
    pub body: String,
    pub busy: bool,
}

/// The overlay for renaming the active tab.
pub fn rename_overlay() -> (o: OverlayState)
    ensures
        o.kind == OverlayKind::RenameTab,
        o.input@.len() == 0,
        o.body@ == "Leave blank to reset to auto title"@,
        !o.busy,
{
    OverlayState {
        kind: OverlayKind::RenameTab,
        input: String::new(),
        body: owned("Leave blank to reset to auto title"),
        busy: false,
    }
}

/// The overlay for asking the model for a command; it says so when AI is
/// switched off.
pub fn command_help_overlay(ai_enabled: bool, model: &str) -> (o: OverlayState)
    ensures
        o.kind == OverlayKind::CommandHelp,
        o.input@.len() == 0,
        o.body@ == (if ai_enabled {
            "Ask for a command (model "@ + model@ + ")"@
        } else {
            "AI disabled — set ai.enabled: true in config.yaml"@
        }),
        !o.busy,
{
    let body = if ai_enabled {
        let mut b: Vec<char> = Vec::new();
        push_str_chars(&mut b, "Ask for a command (model ");
        push_str_chars(&mut b, model);
        push_str_chars(&mut b, ")");
        string_of(b.as_slice())
    } else {
        owned("AI disabled — set ai.enabled: true in config.yaml")
    };
    OverlayState { kind: OverlayKind::CommandHelp, input: String::new(), body, busy: false }
}

/// A key pressed while an overlay is open.
#[derive(Debug, Clone)]
pub enum OverlayKey {
    Escape,
    Enter,
    Backspace,
    Space,
    Text(String),
    Other,
}

/// What a key did to an overlay.
#[derive(Debug, Clone, Copy, PartialEq, Eq, Structural)]
pub enum OverlayKeyEffect {
    /// Close the overlay.
    Close,
    /// Confirm the overlay (see [`confirm_overlay`]).
    Confirm,
    /// The input changed.
    Edited,
    /// Nothing happened.
    Ignored,
}

/// `s` without its last character, if any.
pub open spec fn drop_last_char(s: Seq<char>) -> Seq<char> {
    if s.len() > 0 {
        s.drop_last()
    } else {
        s
    }
}

/// Apply a key press to an overlay: Escape closes it, Enter confirms it,
/// Backspace deletes the last character, and a space or text is typed when
/// neither Ctrl nor Super is held.
pub fn overlay_key(ov: &mut OverlayState, key: &OverlayKey, mods: Modifiers) -> (e: OverlayKeyEffect)
    ensures
        final(ov).kind == old(ov).kind,
        final(ov).body == old(ov).body,
        final(ov).busy == old(ov).busy,
        ({
            let typing = !mods.control && !mods.super_key;
            match *key {
                OverlayKey::Escape => e == OverlayKeyEffect::Close && final(ov).input == old(ov).input,
                OverlayKey::Enter => e == OverlayKeyEffect::Confirm && final(ov).input == old(ov).input,
                OverlayKey::Backspace => e == OverlayKeyEffect::Edited && final(ov).input@ == drop_last_char(
                    old(ov).input@,
                ),
                OverlayKey::Space => if typing {
                    e == OverlayKeyEffect::Edited && final(ov).input@ == old(ov).input@.push(' ')
                } else {
                    e == OverlayKeyEffect::Ignored && final(ov).input == old(ov).input
                },
                OverlayKey::Text(t) => if typing {
                    e == OverlayKeyEffect::Edited && final(ov).input@ == old(ov).input@ + t@
                } else {
                    e == OverlayKeyEffect::Ignored && final(ov).input == old(ov).input
                },
                OverlayKey::Other => e == OverlayKeyEffect::Ignored && final(ov).input == old(ov).input,
            }
        }),
{
    let typing = !mods.control && !mods.super_key;
    match key {
        OverlayKey::Escape => OverlayKeyEffect::Close,
        OverlayKey::Enter => OverlayKeyEffect::Confirm,
        OverlayKey::Backspace => {
            let cs = chars_of(ov.input.as_str());
            let n = cs.len();
            let kept = if n > 0 {
                slice_chars(cs.as_slice(), 0, n - 1)
            } else {
                cs
            };
            ov.input = string_of(kept.as_slice());
            proof {
                if n > 0 {
                    assert(old(ov).input@.subrange(0, n - 1) == old(ov).input@.drop_last());
                }
            }
            OverlayKeyEffect::Edited
        },
        OverlayKey::Space => if typing {
            let mut cs = chars_of(ov.input.as_str());
            cs.push(' ');
            ov.input = string_of(cs.as_slice());
            OverlayKeyEffect::Edited
        } else {
            OverlayKeyEffect::Ignored
        },
        OverlayKey::Text(t) => if typing {
            let mut cs = chars_of(ov.input.as_str());
            push_str_chars(&mut cs, t.as_str());
            ov.input = string_of(cs.as_slice());
            OverlayKeyEffect::Edited
        } else {
            OverlayKeyEffect::Ignored
        },
        OverlayKey::Other => OverlayKeyEffect::Ignored,
    }
}

/// What the application does once an overlay is confirmed.
#[derive(Debug)]
pub enum ConfirmEffect {
    Nothing,
    /// Pin (`Some`) or unpin (`None`) the active tab's title.
    SetTabTitle(Option<String>),
    /// Write these bytes to the active shell.
    SendToShell(Vec<u8>),
    /// Ask the model for a command; the overlay waits for the answer.
    AskCommandHelp(String),
}

/// The first line of `s` (empty when `s` is).
pub open spec fn first_line(s: Seq<char>) -> Seq<char> {
    if s.len() == 0 {
        seq![]
    } else {
        lines_of(s)[0]
    }
}

/// The command shown by a command-help overlay whose body is `body`, if its
/// first line is a suggestion.
pub open spec fn shown_suggestion(body: Seq<char>) -> Option<Seq<char>> {
    let l = first_line(body);
    if starts_with(l, "Suggested:"@) {
        Some(trim(l.skip("Suggested:"@.len() as int)))
    } else {
        None
    }
}

/// The first line of `s`.
fn first_line_exec(s: &[char]) -> (l: Vec<char>)
    ensures
        l@ == first_line(s@),
{
    if s.len() == 0 {
        return Vec::new();
    }
    let k = find_newline(s, 0);
    proof {
        lemma_line_end_at(s@, 0, k as int);
        assert(s@.skip(0) == s@);
        assert(s@.subrange(0, k as int) == s@.take(k as int));
    }
    let seg = slice_chars(s, 0, k);
    if k < s.len() {
        strip_cr_exec(seg)
    } else {
        proof {
            assert(seg@ == s@);
        }
        seg
    }
}

/// Confirm an overlay. Renaming pins the typed title, trimmed (an empty one
/// unpins). Command help does nothing while AI is off or a request is under
/// way; when a suggestion is shown it is typed into the shell (after Ctrl+U
/// clears the line) and the overlay closes; otherwise a non-empty question
/// is sent to the model and the overlay shows that it is thinking. Returns
/// the overlay as it stays open, if it does, and what to do.
pub fn confirm_overlay(ov: OverlayState, ai_enabled: bool) -> (r: (Option<OverlayState>, ConfirmEffect))
    ensures
        ov.kind == OverlayKind::RenameTab ==> r.0 is None && (r.1 matches ConfirmEffect::SetTabTitle(
            t,
        ) && (if trim(ov.input@).len() == 0 {
            t is None
        } else {
            t matches Some(s) && s@ == trim(ov.input@)
        })),
        ov.kind == OverlayKind::CommandHelp ==> {
            if !ai_enabled || ov.busy {
                r.0 == Some(ov) && r.1 is Nothing
            } else if starts_with(ov.body@, "Suggested:"@) {
                &&& r.0 is None
                &&& match shown_suggestion(ov.body@) {
                    Some(cmd) => r.1 matches ConfirmEffect::SendToShell(b) && b@ == seq![0x15u8]
                        + vstd::utf8::encode_utf8(cmd),
                    None => r.1 is Nothing,
                }
            } else if ov.input@.len() == 0 {
                r.0 == Some(ov) && r.1 is Nothing
            } else {
                &&& r.0 matches Some(o) && o.kind == OverlayKind::CommandHelp && o.busy && o.input
                    == ov.input && o.body@ == "Thinking…"@
                &&& r.1 matches ConfirmEffect::AskCommandHelp(q) && q@ == ov.input@
            }
        },
{
    match ov.kind {
        OverlayKind::RenameTab => {
            let t = trim_chars(chars_of(ov.input.as_str()).as_slice());
            if t.len() == 0 {
                (None, ConfirmEffect::SetTabTitle(None))
            } else {
                (None, ConfirmEffect::SetTabTitle(Some(string_of(t.as_slice()))))
            }
        },
        OverlayKind::CommandHelp => {
            if !ai_enabled || ov.busy {
                return (Some(ov), ConfirmEffect::Nothing);
            }
            let body = chars_of(ov.body.as_str());
            let prefix = chars_of("Suggested:");
            if crate::text::occurs_at_exec(body.as_slice(), prefix.as_slice(), 0) {
                proof {
                    assert(body@.subrange(0, prefix@.len() as int) == body@.take(prefix@.len() as int));
                }
                let line = first_line_exec(body.as_slice());
                if crate::text::occurs_at_exec(line.as_slice(), prefix.as_slice(), 0) {
                    proof {
                        assert(line@.subrange(0, prefix@.len() as int) == line@.take(
                            prefix@.len() as int,
                        ));
                        assert(line@.subrange(prefix@.len() as int, line@.len() as int) == line@.skip(
                            prefix@.len() as int,
                        ));
                    }
                    let rest = slice_chars(line.as_slice(), prefix.len(), line.len());
                    let cmd = string_of(trim_chars(rest.as_slice()).as_slice());
                    let mut keys: Vec<u8> = vec![0x15u8];
                    let bytes = cmd.as_str().as_bytes();
                    let mut tail = vstd::slice::slice_to_vec(bytes);
                    keys.append(&mut tail);
                    return (None, ConfirmEffect::SendToShell(keys));
                } else {
                    proof {
                        if starts_with(line@, "Suggested:"@) {
                            assert(line@.subrange(0, prefix@.len() as int) == line@.take(
                                prefix@.len() as int,
                            ));
                        }
                    }
                    return (None, ConfirmEffect::Nothing);
                }
            }
            proof {
                if starts_with(ov.body@, "Suggested:"@) {
                    assert(body@.subrange(0, prefix@.len() as int) == body@.take(prefix@.len() as int));
                }
            }
            if ov.input.as_str().is_empty() {
                return (Some(ov), ConfirmEffect::Nothing);
            }
            let question = ov.input.clone();
            let waiting = OverlayState {
                kind: OverlayKind::CommandHelp,
                input: ov.input,
                body: owned("Thinking…"),
                busy: true,
            };
            (Some(waiting), ConfirmEffect::AskCommandHelp(question))
        },
    }
}

/// Show the model's answer (or the error) in a command-help overlay that
/// was waiting for it; a suggestion clears the typed question.
pub fn command_help_answered(ov: &mut OverlayState, answer: Result<CommandSuggestion, String>)
    ensures
        final(ov).kind == old(ov).kind,
        !final(ov).busy,
        match answer {
            Ok(s) => final(ov).body@ == "Suggested: "@ + s.command@ + "\n"@ + s.explanation@
                && final(ov).input@.len() == 0,
            Err(e) => final(ov).body@ == "Error: "@ + e@ && final(ov).input == old(ov).input,
        },
{
    ov.busy = false;
    match answer {
        Ok(s) => {
            let mut b: Vec<char> = Vec::new();
            push_str_chars(&mut b, "Suggested: ");
            push_str_chars(&mut b, s.command.as_str());
            push_str_chars(&mut b, "\n");
            push_str_chars(&mut b, s.explanation.as_str());
            ov.body = string_of(b.as_slice());
            ov.input = String::new();
        },
        Err(e) => {
            let mut b: Vec<char> = Vec::new();
            push_str_chars(&mut b, "Error: ");
            push_str_chars(&mut b, e.as_str());
            ov.body = string_of(b.as_slice());
        },
    }
}

/// The first line of a text holds no line feed.
pub proof fn lemma_first_line_single(s: Seq<char>)
    ensures
        !first_line(s).contains('\n'),
{
    if s.len() > 0 {
        lemma_line_end(s);
        let k = line_end(s);
        if k < s.len() {
            assert(lines_of(s)[0] == strip_cr(s.take(k)));
            assert forall|j: int| 0 <= j < strip_cr(s.take(k)).len() implies strip_cr(s.take(k))[j] != '\n' by {
                assert(strip_cr(s.take(k))[j] == s[j]);
            }
        } else {
            assert(lines_of(s)[0] == s);
        }
    }
}

/// Confirming a shown suggestion types a single line (no line feed) after
/// Ctrl+U: the command is put on the prompt, never run.
pub proof fn lemma_suggestion_not_executed(body: Seq<char>)
    ensures
        shown_suggestion(body) matches Some(cmd) ==> !cmd.contains('\n'),
{
    lemma_first_line_single(body);
    let l = first_line(body);
    if starts_with(l, "Suggested:"@) {
        let rest = l.skip("Suggested:"@.len() as int);
        assert forall|j: int| 0 <= j < rest.len() implies rest[j] != '\n' by {
            assert(rest[j] == l[j + "Suggested:"@.len()]);
        }
        crate::text::lemma_trim_keeps_absent(rest, '\n');
    }
}

} // verus!
