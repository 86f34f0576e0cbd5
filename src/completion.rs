//! What is sent to the completion endpoint, and what its answer means.
use vstd::prelude::*;
use vstd::string::*;
use crate::error::ChatError;
use crate::message::{Message, MessageModel, escape, escaped, models};

verus! {

/// The JSON object of one message; role and content are escaped as JSON
/// strings.
pub open spec fn message_json(m: MessageModel) -> Seq<char> {
    "{\"role\":\""@ + escaped(m.role) + "\",\"content\":\""@ + escaped(m.content) + "\"}"@
}

/// The JSON objects of the messages, separated by commas.
pub open spec fn messages_json(ms: Seq<MessageModel>) -> Seq<char>
    decreases ms.len(),
{
    if ms.len() == 0 {
        Seq::empty()
    } else if ms.len() == 1 {
        message_json(ms[0])
    } else {
        messages_json(ms.drop_last()) + ","@ + message_json(ms.last())
    }
}

/// The request body: the model's name and the whole conversation.
pub open spec fn request_json(ms: Seq<MessageModel>) -> Seq<char> {
    "{\"model\":\"gpt-4o\",\"messages\":["@ + messages_json(ms) + "]}"@
}

/// Appends the JSON object of the message at `i`, after a comma unless it is
/// the first.
fn append_message_json(out: &mut String, ms: Ghost<Seq<MessageModel>>, i: usize, m: &Message)
    requires
        i < ms@.len(),
        ms@[i as int] == m@,
        old(out)@ == messages_json(ms@.take(i as int)),
    ensures
        final(out)@ == messages_json(ms@.take(i + 1)),
{
    if i > 0 {
        out.append(",");
    }
    out.append("{\"role\":\"");
    let r = escape(m.role.as_str());
    out.append(r.as_str());
    out.append("\",\"content\":\"");
    let c = escape(m.content.as_str());
    out.append(c.as_str());
    out.append("\"}");
    let ghost t = ms@.take(i + 1);
    assert(t.drop_last() =~= ms@.take(i as int));
    assert(t.last() == m@);
    if i == 0 {
        assert(out@ =~= message_json(m@));
    } else {
        assert(out@ =~= messages_json(t.drop_last()) + ","@ + message_json(m@));
    }
}

/// The request body for the given conversation.
pub fn request_body(msgs: &[Message]) -> (r: String)
    ensures
        r@ == request_json(models(msgs@)),
{
    let ghost ms = models(msgs@);
    let mut out = String::new();
    out.append("{\"model\":\"gpt-4o\",\"messages\":[");
    let mut list = String::new();
    let mut i: usize = 0;
    assert(ms.take(0) =~= Seq::<MessageModel>::empty());
    while i < msgs.len()
        invariant
            i <= msgs@.len(),
            ms == models(msgs@),
            list@ == messages_json(ms.take(i as int)),
        decreases msgs.len() - i,
    {
        append_message_json(&mut list, Ghost(ms), i, &msgs[i]);
        i = i + 1;
    }
    assert(ms.take(i as int) =~= ms);
    out.append(list.as_str());
    out.append("]}");
    out
}

/// The request body for the conversation followed by one more user message.
pub fn turn_request(history: &[Message], user_text: &str) -> (r: String)
    ensures
        r@ == request_json(
            models(history@).push(MessageModel { role: "user"@, content: user_text@ }),
        ),
{
    let mut msgs: Vec<Message> = Vec::new();
    let mut i: usize = 0;
    while i < history.len()
        invariant
            i <= history@.len(),
            models(msgs@) =~= models(history@.take(i as int)),
        decreases history.len() - i,
    {
        let m = Message::new(history[i].role.as_str(), history[i].content.as_str());
        assert(m@ == history@[i as int]@);
        let ghost before = msgs@;
        msgs.push(m);
        assert(msgs@ == before.push(m));
        assert(history@.take(i + 1) =~= history@.take(i as int).push(history@[i as int]));
        assert(models(msgs@) =~= models(before).push(m@));
        assert(models(history@.take(i + 1)) =~= models(history@.take(i as int)).push(
            history@[i as int]@,
        ));
        assert(models(msgs@) =~= models(history@.take(i + 1)));
        i = i + 1;
    }
    assert(history@.take(i as int) =~= history@);
    msgs.push(Message::new("user", user_text));
    assert(models(msgs@) =~= models(history@).push(
        MessageModel { role: "user"@, content: user_text@ },
    ));
    request_body(msgs.as_slice())
}

/// What the first candidate's content means: no candidate is no completion,
/// any content (the empty one too) is the completion.
pub fn completion_from(first: Option<&str>) -> (r: Result<String, ChatError>)
    ensures
        first is None ==> r == Err::<String, ChatError>(ChatError::NoCompletion),
        first matches Some(c) ==> (r matches Ok(t) && t@ == c@),
{
    match first {
        None => Err(ChatError::NoCompletion),
        Some(c) => Ok(String::from_str(c)),
    }
}

/// What the endpoint's answer means: where it failed, a `RemoteError` with
/// the body it sent; else the content of the first candidate, if there is one.
pub fn interpret_reply(success: bool, body: &str, first: Option<&str>) -> (r: Result<
    String,
    ChatError,
>)
    ensures
        !success ==> (r matches Err(ChatError::RemoteError(b)) && b@ == body@),
        success && first is None ==> r == Err::<String, ChatError>(ChatError::NoCompletion),
        success && first is Some ==> (r matches Ok(t) && t@ == first->Some_0@),
{
    if !success {
        Err(ChatError::RemoteError(String::from_str(body)))
    } else {
        completion_from(first)
    }
}

/// The header line that carries the credential.
pub fn auth_header(key: &str) -> (r: String)
    ensures
        r@ == "Authorization: Bearer "@ + key@,
{
    let mut h = String::from_str("Authorization: Bearer ");
    h.append(key);
    h
}

} // verus!
