//! The decisions of the command line and of the interactive session; the
//! caller reads input, calls the endpoint, and hands back what came of it.
use vstd::prelude::*;
use vstd::string::*;
use crate::error::ChatError;
use crate::message::{Message, MessageModel, models};
use crate::text::{same_text, trim_text, trimmed};

verus! {

/// What the command line asks for.
#[derive(Debug, Clone, Copy, PartialEq, Eq, Structural)]
pub enum Command {
    /// Enter the interactive session.
    Chat,
    /// Print the stored transcript.
    History,
    /// Remove the stored transcript.
    Clear,
    /// No subcommand was given: print how to call the program.
    Usage,
    /// A subcommand that is not known.
    Unknown,
}

/// The command that a first argument names.
pub open spec fn command_of(arg: Option<Seq<char>>) -> Command {
    match arg {
        None => Command::Usage,
        Some(a) => if a == "chat"@ {
            Command::Chat
        } else if a == "history"@ || a == "list"@ {
            Command::History
        } else if a == "clear"@ || a == "delete"@ {
            Command::Clear
        } else {
            Command::Unknown
        },
    }
}

/// The command named by the first argument, if any.
pub fn parse_command(arg: Option<&str>) -> (r: Command)
    ensures
        r == command_of(
            match arg {
                None => None,
                Some(a) => Some(a@),
            },
        ),
{
    match arg {
        None => Command::Usage,
        Some(a) => {
            if same_text(a, "chat") {
                Command::Chat
            } else if same_text(a, "history") || same_text(a, "list") {
                Command::History
            } else if same_text(a, "clear") || same_text(a, "delete") {
                Command::Clear
            } else {
                Command::Unknown
            }
        },
    }
}

/// Refuses an empty credential.
pub fn check_credential(key: &str) -> (r: Result<(), ChatError>)
    ensures
        key@.len() == 0 <==> r == Err::<(), ChatError>(ChatError::MissingCredential),
        key@.len() > 0 <==> r is Ok,
{
    if key.unicode_len() == 0 {
        Err(ChatError::MissingCredential)
    } else {
        Ok(())
    }
}

/// What to do with one line of input.
#[derive(Debug, Clone)]
pub enum InputAction {
    /// End the session.
    Quit,
    /// Send this text as the next user message.
    Send(String),
}

/// Whether a trimmed line ends the session.
pub open spec fn is_sentinel(t: Seq<char>) -> bool {
    t == "exit"@ || t == "quit"@
}

/// What a trimmed line of input asks for: `exit` and `quit` end the session,
/// any other text is sent.
pub fn classify_trimmed(text: &str) -> (r: InputAction)
    ensures
        is_sentinel(text@) ==> r is Quit,
        !is_sentinel(text@) ==> (r matches InputAction::Send(t) && t@ == text@),
{
    if same_text(text, "exit") || same_text(text, "quit") {
        InputAction::Quit
    } else {
        InputAction::Send(String::from_str(text))
    }
}

/// What a line of input asks for; `None` is the end of input, which ends the
/// session. The line is trimmed first.
pub fn classify_input(line: Option<&str>) -> (r: InputAction)
    ensures
        line is None ==> r is Quit,
        line matches Some(l) ==> {
            let t = trimmed(l@);
            &&& is_sentinel(t) ==> r is Quit
            &&& !is_sentinel(t) ==> (r matches InputAction::Send(s) && s@ == t)
        },
{
    match line {
        None => InputAction::Quit,
        Some(l) => {
            let t = trim_text(l);
            classify_trimmed(t.as_str())
        },
    }
}

/// Records one exchange: where the endpoint gave a reply, the user's message
/// and the reply are appended in that order; where it failed, the transcript
/// stays as it was and the failure is handed back.
pub fn commit_turn(history: &mut Vec<Message>, user_text: &str, reply: Result<String, ChatError>) -> (r: Result<(), ChatError>)
    ensures
        match reply {
            Ok(t) => r is Ok && models(final(history)@) == models(old(history)@).push(
                MessageModel { role: "user"@, content: user_text@ },
            ).push(MessageModel { role: "assistant"@, content: t@ }),
            Err(e) => r == Err::<(), ChatError>(e) && final(history)@ == old(history)@,
        },
{
    match reply {
        Ok(t) => {
            let u = Message::new("user", user_text);
            let a = Message::new("assistant", t.as_str());
            history.push(u);
            history.push(a);
            assert(models(history@) =~= models(old(history)@).push(u@).push(a@));
            Ok(())
        },
        Err(e) => Err(e),
    }
}

} // verus!
