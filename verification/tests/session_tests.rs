use neuterm::schema::BellMode;
use neuterm::session::{
    display_title, events_after_read, interactive_args, process_name, resolve_shell, shell_args, ReadOutcome,
    ShellError,
};
use neuterm::vt::PtyEvent;

#[test]
fn title_falls_back_to_program_name() {
    assert_eq!(display_title("vim notes.md", "zsh"), "vim notes.md");
    assert_eq!(display_title("", "zsh"), "zsh");
}

#[test]
fn shell_choice_order() {
    assert_eq!(resolve_shell(Some("/usr/bin/fish"), Some("/bin/zsh"), true, true), Ok("/usr/bin/fish".to_string()));
    assert_eq!(resolve_shell(None, Some("/bin/zsh"), true, true), Ok("/bin/zsh".to_string()));
    assert_eq!(resolve_shell(None, None, true, true), Ok("/bin/bash".to_string()));
    assert_eq!(resolve_shell(None, None, false, true), Ok("/bin/sh".to_string()));
    let err = resolve_shell(None, None, false, false).unwrap_err();
    assert_eq!(err, ShellError::NotFound);
    assert_eq!(err.message(), "could not find a shell");
}

#[test]
fn fish_runs_without_interactive_flag() {
    assert!(shell_args("Fish").is_empty());
    assert_eq!(shell_args("bash"), vec!["-i".to_string()]);
    assert!(interactive_args("/usr/local/bin/fish").is_empty());
    assert_eq!(interactive_args("/bin/zsh"), vec!["-i".to_string()]);
}

#[test]
fn process_names() {
    assert_eq!(process_name("/bin/zsh"), "zsh");
    assert_eq!(process_name("/"), "shell");
}

#[test]
fn reader_events() {
    let ev = events_after_read(ReadOutcome::Data, true);
    assert_eq!(ev.len(), 2);
    assert!(matches!(ev[0], PtyEvent::Output));
    assert!(matches!(ev[1], PtyEvent::Bell));
    let ev = events_after_read(ReadOutcome::Data, false);
    assert_eq!(ev.len(), 1);
    assert!(matches!(events_after_read(ReadOutcome::Closed, true)[0], PtyEvent::Exit));
    assert!(matches!(events_after_read(ReadOutcome::Failed, false)[0], PtyEvent::Exit));
}

#[test]
fn visual_bells_pulse() {
    assert!(BellMode::Pulse.pulses());
    assert!(BellMode::Visual.pulses());
    assert!(BellMode::Both.pulses());
    assert!(!BellMode::Audible.pulses());
    assert!(!BellMode::Off.pulses());
}
