use chat_cli::error::ChatError;
use chat_cli::message::Message;
use chat_cli::session::{
    check_credential, classify_input, classify_trimmed, commit_turn, parse_command, Command,
    InputAction,
};

#[test]
fn commands_and_their_aliases() {
    assert_eq!(parse_command(None), Command::Usage);
    assert_eq!(parse_command(Some("chat")), Command::Chat);
    assert_eq!(parse_command(Some("history")), Command::History);
    assert_eq!(parse_command(Some("list")), Command::History);
    assert_eq!(parse_command(Some("clear")), Command::Clear);
    assert_eq!(parse_command(Some("delete")), Command::Clear);
    assert_eq!(parse_command(Some("Chat")), Command::Unknown);
}

#[test]
fn empty_credential_is_refused() {
    assert_eq!(check_credential(""), Err(ChatError::MissingCredential));
    assert_eq!(check_credential("SECRET-REDACTED"), Ok(()));
}

#[test]
fn sentinels_and_end_of_input_quit() {
    assert!(matches!(classify_input(None), InputAction::Quit));
    assert!(matches!(classify_input(Some("exit\n")), InputAction::Quit));
    assert!(matches!(classify_input(Some("  quit  ")), InputAction::Quit));
    assert!(matches!(classify_trimmed("exit"), InputAction::Quit));
    assert!(matches!(classify_trimmed("Exit"), InputAction::Send(_)));
}

#[test]
fn other_input_is_sent_trimmed() {
    match classify_input(Some("  hello world \n")) {
        InputAction::Send(t) => assert_eq!(t, "hello world"),
        InputAction::Quit => panic!("expected a message"),
    }
}

#[test]
fn successful_turn_appends_both_messages() {
    let mut history = vec![Message::new("user", "a"), Message::new("assistant", "b")];
    assert_eq!(commit_turn(&mut history, "c", Ok("d".to_string())), Ok(()));
    assert_eq!(history.len(), 4);
    assert_eq!(history[2].role, "user");
    assert_eq!(history[2].content, "c");
    assert_eq!(history[3].role, "assistant");
    assert_eq!(history[3].content, "d");
}

#[test]
fn failed_turn_appends_nothing() {
    let mut history = vec![Message::new("user", "a")];
    let err = ChatError::RemoteError("rate limited".to_string());
    assert_eq!(commit_turn(&mut history, "c", Err(err.clone())), Err(err));
    assert_eq!(history.len(), 1);
    assert_eq!(history[0].content, "a");
}

#[test]
fn unicode_white_space_is_trimmed() {
    assert!(matches!(classify_input(Some("\u{3000}exit\u{a0}\r\n")), InputAction::Quit));
    match classify_input(Some("\u{c}hi\u{2003}")) {
        InputAction::Send(t) => assert_eq!(t, "hi"),
        InputAction::Quit => panic!("expected a message"),
    }
}
