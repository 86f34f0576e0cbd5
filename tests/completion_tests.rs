use chat_cli::completion::{
    auth_header, completion_from, interpret_reply, request_body, turn_request,
};
use chat_cli::error::ChatError;
use chat_cli::message::Message;

#[test]
fn request_body_of_empty_conversation() {
    assert_eq!(request_body(&[]), "{\"model\":\"gpt-4o\",\"messages\":[]}");
}

#[test]
fn request_body_lists_messages_and_escapes_content() {
    let msgs = vec![
        Message::new("user", "say \"hi\""),
        Message::new("assistant", "hi"),
    ];
    assert_eq!(
        request_body(&msgs),
        "{\"model\":\"gpt-4o\",\"messages\":[{\"role\":\"user\",\"content\":\"say \\\"hi\\\"\"},{\"role\":\"assistant\",\"content\":\"hi\"}]}"
    );
}

#[test]
fn turn_request_adds_the_user_message() {
    let history = vec![Message::new("user", "a"), Message::new("assistant", "b")];
    let mut expected = history.clone();
    expected.push(Message::new("user", "c"));
    assert_eq!(turn_request(&history, "c"), request_body(&expected));
    assert_eq!(history.len(), 2);
}

#[test]
fn request_body_escapes_backslashes_and_control_characters() {
    let msgs = vec![Message::new("us\"er", "a\\\n")];
    assert_eq!(
        request_body(&msgs),
        "{\"model\":\"gpt-4o\",\"messages\":[{\"role\":\"us\\\"er\",\"content\":\"a\\\\\\u000a\"}]}"
    );
}

#[test]
fn failed_call_is_remote_error_with_body() {
    assert_eq!(
        interpret_reply(false, "rate limited", None),
        Err(ChatError::RemoteError("rate limited".to_string()))
    );
}

#[test]
fn first_candidate_content_is_the_reply() {
    assert_eq!(interpret_reply(true, "{}", Some("Hello there")), Ok("Hello there".to_string()));
    assert_eq!(interpret_reply(true, "{}", Some("")), Ok(String::new()));
    assert_eq!(completion_from(Some("null")), Ok("null".to_string()));
}

#[test]
fn no_candidate_is_no_completion() {
    assert_eq!(interpret_reply(true, "{\"choices\":[]}", None), Err(ChatError::NoCompletion));
    assert_eq!(completion_from(None), Err(ChatError::NoCompletion));
}

#[test]
fn header_carries_the_credential() {
    assert_eq!(auth_header("k-1"), "Authorization: Bearer k-1");
}
