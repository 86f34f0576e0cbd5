use vstd::prelude::*;
use vstd::string::*;

verus! {

/// One message of a conversation: who spoke, and what was said.
#[derive(Debug, Clone)]
pub struct Message {
    pub role: String,
    pub content: String,
}

/// A message as plain text values.
pub struct MessageModel {
    pub role: Seq<char>,
    pub content: Seq<char>,
}

impl View for Message {
    type V = MessageModel;

    open spec fn view(&self) -> MessageModel {
        MessageModel { role: self.role@, content: self.content@ }
    }
}

/// The models of a sequence of messages, in order.
pub open spec fn models(s: Seq<Message>) -> Seq<MessageModel> {
    s.map_values(|m: Message| m@)
}

impl Message {
    /// A message with the given role and content.
    pub fn new(role: &str, content: &str) -> (r: Message)
        ensures
            r.role@ == role@,
            r.content@ == content@,
    {
        Message { role: String::from_str(role), content: String::from_str(content) }
    }
}

/// The hexadecimal digit of `d`, for `d` below 16.
pub open spec fn hex_digit(d: u32) -> char {
    "0123456789abcdef"@[d as int]
}

/// What `escape` puts in place of one character inside a JSON string: a
/// backslash before a double quote or a backslash, a `\u00XX` form for a
/// control character below U+0020, the character itself otherwise.
pub open spec fn escaped_char(c: char) -> Seq<char> {
    if c == '"' {
        seq!['\\', '"']
    } else if c == '\\' {
        seq!['\\', '\\']
    } else if (c as u32) < 32 {
        seq!['\\', 'u', '0', '0', hex_digit((c as u32) / 16), hex_digit((c as u32) % 16)]
    } else {
        seq![c]
    }
}

/// The text as the inside of a JSON string literal.
pub open spec fn escaped(s: Seq<char>) -> Seq<char>
    decreases s.len(),
{
    if s.len() == 0 {
        Seq::empty()
    } else {
        escaped(s.drop_last()) + escaped_char(s.last())
    }
}

/// Writes `s` as the inside of a JSON string literal.
pub fn escape(s: &str) -> (r: String)
    ensures
        r@ == escaped(s@),
{
    let n = s.unicode_len();
    let mut out = String::new();
    let mut i: usize = 0;
    while i < n
        invariant
            n == s@.len(),
            i <= n,
            out@ == escaped(s@.subrange(0, i as int)),
        decreases n - i,
    {
        let c = s.get_char(i);
        let u = c as u32;
        if c == '"' {
            out.append("\\\"");
        } else if c == '\\' {
            out.append("\\\\");
        } else if u < 32 {
            let hex = "0123456789abcdef";
            proof {
                reveal_strlit("0123456789abcdef");
                reveal_strlit("\\u00");
            }
            out.append("\\u00");
            out.append(hex.substring_char((u / 16) as usize, (u / 16 + 1) as usize));
            out.append(hex.substring_char((u % 16) as usize, (u % 16 + 1) as usize));
        } else {
            out.append(s.substring_char(i, i + 1));
        }
        proof {
            reveal_strlit("\\\"");
            reveal_strlit("\\\\");
            assert(s@.subrange(0, i + 1).drop_last() =~= s@.subrange(0, i as int));
        }
        assert(out@ =~= escaped(s@.subrange(0, i + 1)));
        i = i + 1;
    }
    assert(s@.subrange(0, n as int) =~= s@);
    out
}

} // verus!
