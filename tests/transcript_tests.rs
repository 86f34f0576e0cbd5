use chat_cli::error::ChatError;
use chat_cli::message::Message;
use chat_cli::transcript::{format_history, load_transcript, parse_history};

#[test]
fn test_save_and_load_history() {
    let msgs = vec![
        Message { role: "user".into(), content: "Hello".into() },
        Message { role: "assistant".into(), content: "Hi there".into() },
    ];
    let data = format_history(&msgs);
    let loaded_msgs = parse_history(&data).unwrap();
    assert_eq!(loaded_msgs.len(), 2);
    assert_eq!(loaded_msgs[0].role, "user");
    assert_eq!(loaded_msgs[0].content, "Hello");
    assert_eq!(loaded_msgs[1].role, "assistant");
    assert_eq!(loaded_msgs[1].content, "Hi there");
}

#[test]
fn stored_text_of_two_messages_loads_in_order() {
    let loaded = parse_history("user:Hello\nassistant:Hi there\n").unwrap();
    assert_eq!(loaded.len(), 2);
    assert_eq!(loaded[0].role, "user");
    assert_eq!(loaded[0].content, "Hello");
    assert_eq!(loaded[1].role, "assistant");
    assert_eq!(loaded[1].content, "Hi there");
}

#[test]
fn format_writes_one_line_per_message() {
    let msgs = vec![
        Message::new("user", "Hello"),
        Message::new("assistant", "Hi there"),
    ];
    assert_eq!(format_history(&msgs), "user:Hello\nassistant:Hi there\n");
    assert_eq!(format_history(&[]), "");
}

#[test]
fn round_trip_keeps_colons_in_content() {
    let msgs = vec![
        Message::new("user", "time: 10:30"),
        Message::new("assistant", ""),
        Message::new("user", "\"quoted\" é"),
    ];
    let back = parse_history(&format_history(&msgs)).unwrap();
    assert_eq!(back.len(), 3);
    for (a, b) in msgs.iter().zip(back.iter()) {
        assert_eq!(a.role, b.role);
        assert_eq!(a.content, b.content);
    }
}

#[test]
fn content_splits_at_first_colon() {
    let loaded = parse_history("user:a:b").unwrap();
    assert_eq!(loaded.len(), 1);
    assert_eq!(loaded[0].role, "user");
    assert_eq!(loaded[0].content, "a:b");
}

#[test]
fn empty_and_blank_text_load_as_empty() {
    assert_eq!(parse_history("").unwrap().len(), 0);
    assert_eq!(parse_history("  \n\t\r\n\n").unwrap().len(), 0);
    assert_eq!(parse_history("\u{c}").unwrap().len(), 0);
    assert_eq!(parse_history("\u{a0}\u{3000}\n\u{b}").unwrap().len(), 0);
}

#[test]
fn missing_store_loads_as_empty() {
    assert_eq!(load_transcript(None).unwrap().len(), 0);
    assert_eq!(load_transcript(Some("user:x\n")).unwrap().len(), 1);
}

#[test]
fn blank_lines_between_messages_are_skipped() {
    let loaded = parse_history("user:a\n\n  \nassistant:b").unwrap();
    assert_eq!(loaded.len(), 2);
    assert_eq!(loaded[1].content, "b");
}

#[test]
fn line_without_separator_is_malformed() {
    assert_eq!(parse_history("user:a\nnonsense\n").unwrap_err(), ChatError::MalformedData);
    assert_eq!(load_transcript(Some("x")).unwrap_err(), ChatError::MalformedData);
}

#[test]
fn unknown_role_is_malformed() {
    assert_eq!(parse_history("foo:bar").unwrap_err(), ChatError::MalformedData);
    assert_eq!(parse_history("user:a\nUser:b\n").unwrap_err(), ChatError::MalformedData);
}

#[test]
fn carriage_return_before_line_feed_is_dropped() {
    let loaded = parse_history("user:hi\r\nassistant:there\r\n").unwrap();
    assert_eq!(loaded.len(), 2);
    assert_eq!(loaded[0].content, "hi");
    assert_eq!(loaded[1].content, "there");
}

#[test]
fn content_escapes_are_written_and_read() {
    let msgs = vec![Message::new("user", "a\nb\\c\rd")];
    assert_eq!(format_history(&msgs), "user:a\\nb\\\\c\\rd\n");
    let loaded = parse_history("assistant:x\\ny\\qz\\").unwrap();
    assert_eq!(loaded[0].content, "x\ny\\qz\\");
}

#[test]
fn round_trip_keeps_line_feeds_and_backslashes() {
    let msgs = vec![
        Message::new("user", "a\nb"),
        Message::new("assistant", "\\n\r\n"),
        Message::new("user", "ends with cr\r"),
    ];
    let back = parse_history(&format_history(&msgs)).unwrap();
    assert_eq!(back.len(), 3);
    for (a, b) in msgs.iter().zip(back.iter()) {
        assert_eq!(a.role, b.role);
        assert_eq!(a.content, b.content);
    }
}
