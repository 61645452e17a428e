use neuterm::ai::{command_help_request, ChatSession, CommandSuggestion, StreamLineBuffer, DEFAULT_COMMAND_HELP_PROMPT};

#[test]
fn parse_plain_two_lines() {
    let s = CommandSuggestion::parse("ls -la\nLists all files, hidden ones too.");
    assert_eq!(s.command, "ls -la");
    assert_eq!(s.explanation, "Lists all files, hidden ones too.");
    assert_eq!(s.raw, "ls -la\nLists all files, hidden ones too.");
}

#[test]
fn parse_strips_fences_prompt_and_blank_lines() {
    let raw = "  ```bash\n$ du -sh *\n\n   shows sizes\r\nper entry\n```  ";
    let s = CommandSuggestion::parse(raw);
    assert_eq!(s.command, "du -sh *");
    assert_eq!(s.explanation, "shows sizes per entry");
    assert_eq!(s.raw, raw);
}

#[test]
fn parse_sh_fence_and_only_command() {
    let s = CommandSuggestion::parse("```sh\npwd\n```");
    assert_eq!(s.command, "pwd");
    assert_eq!(s.explanation, "");
}

#[test]
fn parse_empty_reply() {
    let s = CommandSuggestion::parse("   \n  ");
    assert_eq!(s.command, "");
    assert_eq!(s.explanation, "");
}

#[test]
fn command_help_messages() {
    let m = command_help_request("list files", "linux", "bash", None);
    assert_eq!(m.len(), 2);
    assert_eq!(m[0].role, "system");
    assert_eq!(m[0].content, DEFAULT_COMMAND_HELP_PROMPT);
    assert!(m[0].content.starts_with("You are a command-line assistant."));
    assert_eq!(m[1].role, "user");
    assert_eq!(m[1].content, "OS: linux\nShell: bash\nRequest: list files");
    let m = command_help_request("q", "macos", "zsh", Some("Be brief."));
    assert_eq!(m[0].content, "Be brief.");
}

#[test]
fn chat_transcript_grows() {
    let mut c = ChatSession::default();
    c.push_user("hi".to_string());
    c.push_assistant("hello".to_string());
    assert_eq!(c.messages.len(), 2);
    assert_eq!(c.messages[0].role, "user");
    assert_eq!(c.messages[1].role, "assistant");
    assert_eq!(c.messages[1].content, "hello");
}

#[test]
fn stream_lines_wait_for_line_feeds() {
    let mut b = StreamLineBuffer::new();
    assert!(b.push("{\"a\":").is_empty());
    let lines = b.push("1}\n  \n{\"b\":2}\r\n{\"c\"");
    assert_eq!(lines, vec!["{\"a\":1}".to_string(), "{\"b\":2}".to_string()]);
    let lines = b.push(":3}\n");
    assert_eq!(lines, vec!["{\"c\":3}".to_string()]);
    assert!(b.push("").is_empty());
}

#[test]
fn stream_pieces_do_not_matter() {
    let text = "{\"a\":1}\n{\"b\"\n:2}\r\n  \ntail";
    let mut whole = StreamLineBuffer::new();
    let all_at_once = whole.push(text);
    for cut in 0..text.len() {
        if !text.is_char_boundary(cut) {
            continue;
        }
        let mut pieces = StreamLineBuffer::new();
        let mut got = pieces.push(&text[..cut]);
        got.extend(pieces.push(&text[cut..]));
        assert_eq!(got, all_at_once);
        assert_eq!(pieces.push("\n"), vec!["tail".to_string()]);
    }
    assert_eq!(all_at_once, vec!["{\"a\":1}".to_string(), "{\"b\"".to_string(), ":2}".to_string()]);
}
