use neuterm::ai::CommandSuggestion;
use neuterm::input::Modifiers;
use neuterm::overlay::{
    command_help_answered, command_help_overlay, confirm_overlay, overlay_key, rename_overlay, ConfirmEffect,
    OverlayKey, OverlayKeyEffect, OverlayKind,
};

const PLAIN: Modifiers = Modifiers { shift: false, control: false, alt: false, super_key: false };
const CTRL: Modifiers = Modifiers { shift: false, control: true, alt: false, super_key: false };

#[test]
fn typing_edits_the_input() {
    let mut ov = rename_overlay();
    assert_eq!(ov.body, "Leave blank to reset to auto title");
    assert_eq!(overlay_key(&mut ov, &OverlayKey::Text("ab".into()), PLAIN), OverlayKeyEffect::Edited);
    assert_eq!(overlay_key(&mut ov, &OverlayKey::Space, PLAIN), OverlayKeyEffect::Edited);
    assert_eq!(overlay_key(&mut ov, &OverlayKey::Text("é".into()), PLAIN), OverlayKeyEffect::Edited);
    assert_eq!(ov.input, "ab é");
    assert_eq!(overlay_key(&mut ov, &OverlayKey::Backspace, PLAIN), OverlayKeyEffect::Edited);
    assert_eq!(ov.input, "ab ");
    assert_eq!(overlay_key(&mut ov, &OverlayKey::Text("x".into()), CTRL), OverlayKeyEffect::Ignored);
    assert_eq!(overlay_key(&mut ov, &OverlayKey::Space, CTRL), OverlayKeyEffect::Ignored);
    assert_eq!(ov.input, "ab ");
    assert_eq!(overlay_key(&mut ov, &OverlayKey::Escape, PLAIN), OverlayKeyEffect::Close);
    assert_eq!(overlay_key(&mut ov, &OverlayKey::Enter, PLAIN), OverlayKeyEffect::Confirm);
    let mut empty = rename_overlay();
    assert_eq!(overlay_key(&mut empty, &OverlayKey::Backspace, PLAIN), OverlayKeyEffect::Edited);
    assert_eq!(empty.input, "");
}

#[test]
fn rename_pins_trimmed_title() {
    let mut ov = rename_overlay();
    ov.input = "  logs  ".into();
    match confirm_overlay(ov, true) {
        (None, ConfirmEffect::SetTabTitle(Some(t))) => assert_eq!(t, "logs"),
        _ => panic!("expected a pinned title"),
    }
    let mut ov = rename_overlay();
    ov.input = "   ".into();
    assert!(matches!(confirm_overlay(ov, false), (None, ConfirmEffect::SetTabTitle(None))));
}

#[test]
fn command_help_asks_then_shows_the_answer() {
    let mut ov = command_help_overlay(true, "llama3");
    assert_eq!(ov.body, "Ask for a command (model llama3)");
    assert_eq!(ov.kind.title(), "Command help");
    assert!(matches!(confirm_overlay(ov, true), (Some(_), ConfirmEffect::Nothing)));
    ov = command_help_overlay(true, "llama3");
    ov.input = "disk usage".into();
    let (kept, effect) = confirm_overlay(ov, true);
    let mut ov = kept.unwrap();
    assert!(ov.busy);
    assert_eq!(ov.body, "Thinking…");
    match effect {
        ConfirmEffect::AskCommandHelp(q) => assert_eq!(q, "disk usage"),
        _ => panic!("expected a question"),
    }
    let (still, nothing) = confirm_overlay(ov, true);
    assert!(matches!(nothing, ConfirmEffect::Nothing));
    ov = still.unwrap();
    command_help_answered(&mut ov, Ok(CommandSuggestion::parse("du -sh .\nsize of this folder")));
    assert!(!ov.busy);
    assert_eq!(ov.body, "Suggested: du -sh .\nsize of this folder");
    assert_eq!(ov.input, "");
    match confirm_overlay(ov, true) {
        (None, ConfirmEffect::SendToShell(bytes)) => assert_eq!(bytes, b"\x15du -sh .".to_vec()),
        _ => panic!("expected the command to be typed"),
    }
}

#[test]
fn command_help_errors_and_disabled_ai() {
    let mut ov = command_help_overlay(false, "m");
    assert_eq!(ov.body, "AI disabled — set ai.enabled: true in config.yaml");
    ov.input = "x".into();
    let (kept, effect) = confirm_overlay(ov, false);
    assert!(matches!(effect, ConfirmEffect::Nothing));
    let mut ov = kept.unwrap();
    assert_eq!(ov.kind, OverlayKind::CommandHelp);
    command_help_answered(&mut ov, Err("HTTP error: refused".into()));
    assert_eq!(ov.body, "Error: HTTP error: refused");
    assert_eq!(ov.input, "x");
}
