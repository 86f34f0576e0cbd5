use chat_cli::message::{escape, Message};

#[test]
fn test_escape() {
    assert_eq!(escape("hello"), "hello");
    assert_eq!(escape("hello \"world\""), "hello \\\"world\\\"");
    assert_eq!(escape("\""), "\\\"");
}

#[test]
fn test_message_struct() {
    let msg = Message {
        role: "user".to_string(),
        content: "Hello".to_string(),
    };
    assert_eq!(msg.role, "user");
    assert_eq!(msg.content, "Hello");
}

#[test]
fn escape_leaves_other_characters() {
    assert_eq!(escape(""), "");
    assert_eq!(escape("a é"), "a é");
    assert_eq!(escape("a\\b"), "a\\\\b");
    assert_eq!(escape("\n\t"), "\\u000a\\u0009");
    assert_eq!(escape("\u{1f}"), "\\u001f");
    assert_eq!(escape("\"\""), "\\\"\\\"");
}

#[test]
fn message_new_keeps_fields() {
    let m = Message::new("assistant", "Hi there");
    assert_eq!(m.role, "assistant");
    assert_eq!(m.content, "Hi there");
}
