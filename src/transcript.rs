//! The stored form of a transcript: one `role:content` line per message. The
//! role, `user` or `assistant`, ends at the first colon of the line. In the
//! content a backslash is written `\\`, a line feed `\n` and a carriage return
//! `\r`; on reading, a backslash followed by any other character stands for
//! itself. Lines end with a line feed, optionally preceded by a carriage return.
use vstd::prelude::*;
use vstd::string::*;
use crate::error::ChatError;
use crate::message::{Message, MessageModel, models};
use crate::text::{is_white, same_text, white_char};

verus! {

/// The index of the first `c` in `s`, or the length of `s` where there is none.
pub open spec fn first_index(s: Seq<char>, c: char) -> nat
    decreases s.len(),
{
    if s.len() == 0 {
        0
    } else if s[0] == c {
        0
    } else {
        1 + first_index(s.drop_first(), c)
    }
}

proof fn lemma_first_index_bound(s: Seq<char>, c: char)
    ensures
        first_index(s, c) <= s.len(),
    decreases s.len(),
{
    if s.len() > 0 && s[0] != c {
        lemma_first_index_bound(s.drop_first(), c);
    }
}

proof fn lemma_first_index_before(s: Seq<char>, c: char, j: int)
    requires
        0 <= j < first_index(s, c),
    ensures
        s[j] != c,
    decreases s.len(),
{
    lemma_first_index_bound(s, c);
    if j > 0 {
        lemma_first_index_before(s.drop_first(), c, j - 1);
        assert(s.drop_first()[j - 1] == s[j]);
    }
}

/// `i` is the first index of `c` when nothing before it is `c`, and it is
/// either the end or a `c` itself.
proof fn lemma_first_index_at(s: Seq<char>, c: char, i: int)
    requires
        0 <= i <= s.len(),
        forall|j: int| 0 <= j < i ==> s[j] != c,
        i == s.len() || s[i] == c,
    ensures
        first_index(s, c) == i,
    decreases s.len(),
{
    if s.len() > 0 && s[0] != c {
        let t = s.drop_first();
        assert forall|j: int| 0 <= j < i - 1 implies t[j] != c by {
            assert(t[j] == s[j + 1]);
        }
        if i < s.len() {
            assert(t[i - 1] == s[i]);
        }
        lemma_first_index_at(t, c, i - 1);
    }
}

/// `l` without one carriage return at its end.
pub open spec fn strip_cr(l: Seq<char>) -> Seq<char> {
    if l.len() > 0 && l.last() == '\r' {
        l.drop_last()
    } else {
        l
    }
}

/// The lines of `s`: the pieces between line feeds, each without a carriage
/// return just before its line feed, where a last empty piece does not count.
pub open spec fn lines(s: Seq<char>) -> Seq<Seq<char>>
    decreases s.len(),
{
    if s.len() == 0 {
        Seq::empty()
    } else {
        let k = first_index(s, '\n') as int;
        if k >= s.len() {
            seq![s]
        } else {
            seq![strip_cr(s.take(k))] + lines(s.skip(k + 1))
        }
    }
}

/// A line of nothing but white space.
pub open spec fn is_blank(l: Seq<char>) -> bool {
    forall|i: int| 0 <= i < l.len() ==> is_white(#[trigger] l[i])
}

/// A role that a stored line may carry.
pub open spec fn valid_role(r: Seq<char>) -> bool {
    r == "user"@ || r == "assistant"@
}

/// What a backslash and the character `c` after it stand for in stored content.
pub open spec fn unescaped_pair(c: char) -> Seq<char> {
    if c == 'n' {
        seq!['\n']
    } else if c == 'r' {
        seq!['\r']
    } else if c == '\\' {
        seq!['\\']
    } else {
        seq!['\\', c]
    }
}

/// The content that stored content stands for.
pub open spec fn unescaped(s: Seq<char>) -> Seq<char>
    decreases s.len(),
{
    if s.len() == 0 {
        Seq::empty()
    } else if s[0] == '\\' && s.len() >= 2 {
        unescaped_pair(s[1]) + unescaped(s.skip(2))
    } else {
        seq![s[0]] + unescaped(s.drop_first())
    }
}

/// How one character of content is stored.
pub open spec fn stored_char(c: char) -> Seq<char> {
    if c == '\\' {
        seq!['\\', '\\']
    } else if c == '\n' {
        seq!['\\', 'n']
    } else if c == '\r' {
        seq!['\\', 'r']
    } else {
        seq![c]
    }
}

/// How content is stored.
pub open spec fn stored(s: Seq<char>) -> Seq<char>
    decreases s.len(),
{
    if s.len() == 0 {
        Seq::empty()
    } else {
        stored(s.drop_last()) + stored_char(s.last())
    }
}

/// The message that a line stands for: what precedes its first colon is the
/// role, which must be `user` or `assistant`; what follows it the stored content.
pub open spec fn parse_line(l: Seq<char>) -> Option<MessageModel> {
    let k = first_index(l, ':') as int;
    if k >= l.len() {
        None
    } else if !valid_role(l.take(k)) {
        None
    } else {
        Some(MessageModel { role: l.take(k), content: unescaped(l.skip(k + 1)) })
    }
}

/// Reading one more line after `acc`: a message line adds its message, a blank
/// line adds nothing, any other line (an unknown role among them) is malformed.
pub open spec fn read_step(acc: Option<Seq<MessageModel>>, l: Seq<char>) -> Option<
    Seq<MessageModel>,
> {
    match acc {
        None => None,
        Some(ms) => match parse_line(l) {
            Some(m) => Some(ms.push(m)),
            None => if is_blank(l) {
                Some(ms)
            } else {
                None
            },
        },
    }
}

/// The messages that a sequence of lines stands for, or `None` where one line
/// is malformed.
pub open spec fn read_lines(ls: Seq<Seq<char>>) -> Option<Seq<MessageModel>>
    decreases ls.len(),
{
    if ls.len() == 0 {
        Some(Seq::empty())
    } else {
        read_step(read_lines(ls.drop_last()), ls.last())
    }
}

/// The messages that a stored text stands for, or `None` where it is malformed.
pub open spec fn parsed(s: Seq<char>) -> Option<Seq<MessageModel>> {
    read_lines(lines(s))
}

/// The stored line of one message, line feed included.
pub open spec fn line_of(m: MessageModel) -> Seq<char> {
    m.role + seq![':'] + stored(m.content) + seq!['\n']
}

/// The stored text of a sequence of messages.
pub open spec fn formatted(ms: Seq<MessageModel>) -> Seq<char>
    decreases ms.len(),
{
    if ms.len() == 0 {
        Seq::empty()
    } else {
        formatted(ms.drop_last()) + line_of(ms.last())
    }
}

/// A message whose role is `user` or `assistant`.
pub open spec fn storable(m: MessageModel) -> bool {
    valid_role(m.role)
}

/// The index of the first `c` in `s`, or the length of `s` where there is none.
fn find_char(s: &str, c: char) -> (k: usize)
    ensures
        k == first_index(s@, c),
{
    let n = s.unicode_len();
    let mut i: usize = 0;
    while i < n
        invariant
            n == s@.len(),
            i <= n,
            forall|j: int| 0 <= j < i ==> s@[j] != c,
        decreases n - i,
    {
        if s.get_char(i) == c {
            proof {
                lemma_first_index_at(s@, c, i as int);
            }
            return i;
        }
        i = i + 1;
    }
    proof {
        lemma_first_index_at(s@, c, i as int);
    }
    i
}

/// Whether the line holds only white space.
fn blank_line(s: &str) -> (r: bool)
    ensures
        r == is_blank(s@),
{
    let n = s.unicode_len();
    let mut i: usize = 0;
    while i < n
        invariant
            n == s@.len(),
            i <= n,
            forall|j: int| 0 <= j < i ==> is_white(#[trigger] s@[j]),
        decreases n - i,
    {
        if !white_char(s.get_char(i)) {
            return false;
        }
        i = i + 1;
    }
    true
}

/// The content that stored content stands for.
fn unescape_text(s: &str) -> (r: String)
    ensures
        r@ == unescaped(s@),
{
    let n = s.unicode_len();
    let mut out = String::new();
    let mut i: usize = 0;
    assert(s@.skip(0) =~= s@);
    while i < n
        invariant
            n == s@.len(),
            i <= n,
            unescaped(s@) == out@ + unescaped(s@.skip(i as int)),
        decreases n - i,
    {
        let ghost t = s@.skip(i as int);
        let ghost before = out@;
        let c = s.get_char(i);
        if c == '\\' && i + 1 < n {
            let d = s.get_char(i + 1);
            if d == 'n' {
                out.append("\n");
            } else if d == 'r' {
                out.append("\r");
            } else if d == '\\' {
                out.append("\\");
            } else {
                out.append(s.substring_char(i, i + 2));
            }
            proof {
                reveal_strlit("\n");
                reveal_strlit("\r");
                reveal_strlit("\\");
                assert(s@.subrange(i as int, i + 2) =~= seq![c, d]);
                assert(t[0] == c && t[1] == d);
                assert(t.skip(2) =~= s@.skip(i + 2));
                assert(out@ =~= before + unescaped_pair(d));
                assert(unescaped(t) == unescaped_pair(d) + unescaped(t.skip(2)));
                assert(unescaped(s@) =~= out@ + unescaped(s@.skip(i + 2)));
            }
            i = i + 2;
        } else {
            out.append(s.substring_char(i, i + 1));
            proof {
                assert(t[0] == c);
                assert(t.drop_first() =~= s@.skip(i + 1));
                assert(out@ =~= before + seq![c]);
                assert(unescaped(t) == seq![c] + unescaped(t.drop_first()));
                assert(unescaped(s@) =~= out@ + unescaped(s@.skip(i + 1)));
            }
            i = i + 1;
        }
    }
    proof {
        assert(s@.skip(i as int) =~= Seq::<char>::empty());
        assert(out@ + Seq::<char>::empty() =~= out@);
    }
    out
}

/// How content is stored.
fn store_text(s: &str) -> (r: String)
    ensures
        r@ == stored(s@),
{
    let n = s.unicode_len();
    let mut out = String::new();
    let mut i: usize = 0;
    while i < n
        invariant
            n == s@.len(),
            i <= n,
            out@ == stored(s@.subrange(0, i as int)),
        decreases n - i,
    {
        let c = s.get_char(i);
        if c == '\\' {
            out.append("\\\\");
        } else if c == '\n' {
            out.append("\\n");
        } else if c == '\r' {
            out.append("\\r");
        } else {
            out.append(s.substring_char(i, i + 1));
        }
        proof {
            reveal_strlit("\\\\");
            reveal_strlit("\\n");
            reveal_strlit("\\r");
            assert(s@.subrange(0, i + 1).drop_last() =~= s@.subrange(0, i as int));
        }
        assert(out@ =~= stored(s@.subrange(0, i + 1)));
        i = i + 1;
    }
    assert(s@.subrange(0, n as int) =~= s@);
    out
}

/// Whether `r` is `user` or `assistant`.
fn role_is_valid(r: &str) -> (b: bool)
    ensures
        b == valid_role(r@),
{
    same_text(r, "user") || same_text(r, "assistant")
}

/// Reads one line onto `out`; false where the line is malformed.
fn read_line_onto(line: &str, out: &mut Vec<Message>) -> (ok: bool)
    ensures
        ok ==> read_step(Some(models(old(out)@)), line@) == Some(models(final(out)@)),
        !ok ==> read_step(Some(models(old(out)@)), line@) is None,
{
    let n = line.unicode_len();
    let k = find_char(line, ':');
    proof {
        lemma_first_index_bound(line@, ':');
    }
    if k < n {
        let role = line.substring_char(0, k);
        if !role_is_valid(role) {
            return blank_line(line);
        }
        let content = unescape_text(line.substring_char(k + 1, n));
        let m = Message { role: String::from_str(role), content };
        out.push(m);
        proof {
            assert(line@.skip(k + 1) =~= line@.subrange(k + 1, n as int));
            assert(models(final(out)@) =~= models(old(out)@).push(m@));
        }
        true
    } else {
        blank_line(line)
    }
}

proof fn lemma_read_lines_stays_none(a: Seq<Seq<char>>, b: Seq<Seq<char>>)
    requires
        read_lines(a) is None,
    ensures
        read_lines(a + b) is None,
    decreases b.len(),
{
    if b.len() > 0 {
        assert((a + b).drop_last() =~= a + b.drop_last());
        lemma_read_lines_stays_none(a, b.drop_last());
    } else {
        assert(a + b =~= a);
    }
}

/// Reads the stored text of a transcript. Blank lines are passed over; a text
/// with no other lines gives no messages.
pub fn parse_history(data: &str) -> (r: Result<Vec<Message>, ChatError>)
    ensures
        match r {
            Ok(v) => parsed(data@) == Some(models(v@)),
            Err(e) => parsed(data@) is None && e == ChatError::MalformedData,
        },
{
    let n = data.unicode_len();
    let mut out: Vec<Message> = Vec::new();
    let mut start: usize = 0;
    let mut i: usize = 0;
    let ghost mut done: Seq<Seq<char>> = Seq::empty();
    assert(data@.skip(0) =~= data@);
    assert(models(out@) =~= Seq::<MessageModel>::empty());
    while i < n
        invariant
            n == data@.len(),
            start <= i <= n,
            forall|j: int| start <= j < i ==> data@[j] != '\n',
            lines(data@) == done + lines(data@.skip(start as int)),
            read_lines(done) == Some(models(out@)),
        decreases n - i,
    {
        if data.get_char(i) == '\n' {
            let end = if i > start && data.get_char(i - 1) == '\r' {
                i - 1
            } else {
                i
            };
            let line = data.substring_char(start, end);
            proof {
                let rest = data@.skip(start as int);
                lemma_first_index_at(rest, '\n', i - start);
                assert(strip_cr(rest.take(i - start)) =~= line@);
                assert(rest.skip(i - start + 1) =~= data@.skip(i + 1));
                assert(lines(data@) =~= done.push(line@) + lines(data@.skip(i + 1)));
                assert(done.push(line@).drop_last() =~= done);
            }
            let ok = read_line_onto(line, &mut out);
            if !ok {
                proof {
                    lemma_read_lines_stays_none(done.push(line@), lines(data@.skip(i + 1)));
                }
                return Err(ChatError::MalformedData);
            }
            proof {
                done = done.push(line@);
            }
            start = i + 1;
        }
        i = i + 1;
    }
    if start < n {
        let line = data.substring_char(start, n);
        proof {
            let rest = data@.skip(start as int);
            lemma_first_index_at(rest, '\n', rest.len() as int);
            assert(rest =~= line@);
            assert(lines(data@) =~= done.push(line@));
            assert(done.push(line@).drop_last() =~= done);
        }
        let ok = read_line_onto(line, &mut out);
        if !ok {
            return Err(ChatError::MalformedData);
        }
    } else {
        assert(data@.skip(start as int) =~= Seq::<char>::empty());
        assert(lines(data@) =~= done);
    }
    Ok(out)
}

/// Reads a transcript from what its store holds: `None` where nothing has been
/// stored yet, which gives an empty transcript.
pub fn load_transcript(stored: Option<&str>) -> (r: Result<Vec<Message>, ChatError>)
    ensures
        match stored {
            None => r matches Ok(v) && v@.len() == 0,
            Some(d) => match r {
                Ok(v) => parsed(d@) == Some(models(v@)),
                Err(e) => parsed(d@) is None && e == ChatError::MalformedData,
            },
        },
{
    match stored {
        None => Ok(Vec::new()),
        Some(d) => parse_history(d),
    }
}

/// Writes the stored text of a transcript: the role, a colon, the stored
/// content and a line feed for each message, in order.
pub fn format_history(msgs: &[Message]) -> (r: String)
    ensures
        r@ == formatted(models(msgs@)),
{
    let mut data = String::new();
    let mut i: usize = 0;
    while i < msgs.len()
        invariant
            i <= msgs@.len(),
            data@ == formatted(models(msgs@.take(i as int))),
        decreases msgs.len() - i,
    {
        let m = &msgs[i];
        data.append(m.role.as_str());
        data.append(":");
        let c = store_text(m.content.as_str());
        data.append(c.as_str());
        data.append("\n");
        proof {
            reveal_strlit(":");
            reveal_strlit("\n");
            let ms = models(msgs@.take(i + 1));
            assert(ms.drop_last() =~= models(msgs@.take(i as int)));
            assert(data@ =~= formatted(ms));
        }
        i = i + 1;
    }
    assert(msgs@.take(i as int) =~= msgs@);
    data
}

/// The text of a message's stored line, line feed left out.
pub open spec fn text_of(m: MessageModel) -> Seq<char> {
    m.role + seq![':'] + stored(m.content)
}

proof fn lemma_formatted_front(ms: Seq<MessageModel>)
    requires
        ms.len() > 0,
    ensures
        formatted(ms) =~= line_of(ms[0]) + formatted(ms.drop_first()),
    decreases ms.len(),
{
    if ms.len() > 1 {
        lemma_formatted_front(ms.drop_last());
        assert(ms.drop_last().drop_first() =~= ms.drop_first().drop_last());
    } else {
        assert(ms.drop_last() =~= Seq::<MessageModel>::empty());
        assert(ms.drop_first() =~= Seq::<MessageModel>::empty());
    }
}

proof fn lemma_stored_front(s: Seq<char>)
    requires
        s.len() > 0,
    ensures
        stored(s) =~= stored_char(s[0]) + stored(s.drop_first()),
    decreases s.len(),
{
    if s.len() > 1 {
        lemma_stored_front(s.drop_last());
        assert(s.drop_last().drop_first() =~= s.drop_first().drop_last());
    } else {
        assert(s.drop_last() =~= Seq::<char>::empty());
        assert(s.drop_first() =~= Seq::<char>::empty());
    }
}

/// Stored content holds no line feed and no carriage return.
proof fn lemma_stored_plain(s: Seq<char>)
    ensures
        forall|i: int|
            0 <= i < stored(s).len() ==> #[trigger] stored(s)[i] != '\n' && stored(s)[i] != '\r',
    decreases s.len(),
{
    if s.len() > 0 {
        lemma_stored_plain(s.drop_last());
        let a = stored(s.drop_last());
        let b = stored_char(s.last());
        assert forall|i: int| 0 <= i < stored(s).len() implies #[trigger] stored(s)[i] != '\n'
            && stored(s)[i] != '\r' by {
            if i < a.len() {
                assert(stored(s)[i] == a[i]);
            } else {
                assert(stored(s)[i] == b[i - a.len()]);
            }
        }
    }
}

proof fn lemma_unescape_stored(s: Seq<char>)
    ensures
        unescaped(stored(s)) == s,
    decreases s.len(),
{
    if s.len() > 0 {
        lemma_stored_front(s);
        lemma_unescape_stored(s.drop_first());
        let c = s[0];
        let t = stored(s.drop_first());
        let x = stored_char(c) + t;
        if c == '\\' || c == '\n' || c == '\r' {
            assert(x.skip(2) =~= t);
        } else {
            assert(x.drop_first() =~= t);
        }
        assert(s =~= seq![c] + s.drop_first());
    } else {
        assert(stored(s) =~= Seq::<char>::empty());
        assert(s =~= Seq::<char>::empty());
    }
}

proof fn lemma_lines_cons(l: Seq<char>, rest: Seq<char>)
    requires
        !l.contains('\n'),
    ensures
        lines(l + seq!['\n'] + rest) =~= seq![strip_cr(l)] + lines(rest),
{
    let s = l + seq!['\n'] + rest;
    assert forall|j: int| 0 <= j < l.len() implies s[j] != '\n' by {
        assert(s[j] == l[j]);
    }
    lemma_first_index_at(s, '\n', l.len() as int);
    assert(s.take(l.len() as int) =~= l);
    assert(s.skip(l.len() as int + 1) =~= rest);
}

proof fn lemma_text_of_plain(m: MessageModel)
    requires
        storable(m),
    ensures
        !text_of(m).contains('\n'),
        strip_cr(text_of(m)) == text_of(m),
{
    let t = text_of(m);
    let r = m.role;
    reveal_strlit("user");
    reveal_strlit("assistant");
    assert(!r.contains('\n'));
    lemma_stored_plain(m.content);
    assert forall|j: int| 0 <= j < t.len() && r.len() < j implies t[j] == stored(m.content)[j
        - r.len() - 1] by {}
    if t.contains('\n') {
        let j = choose|j: int| 0 <= j < t.len() && t[j] == '\n';
        if j < r.len() {
            assert(r[j] == '\n');
        } else if j > r.len() {
            assert(stored(m.content)[j - r.len() - 1] == '\n');
        }
    }
    if stored(m.content).len() > 0 {
        assert(t.last() == stored(m.content)[stored(m.content).len() - 1]);
    }
}

proof fn lemma_lines_formatted(ms: Seq<MessageModel>)
    requires
        forall|i: int| 0 <= i < ms.len() ==> storable(#[trigger] ms[i]),
    ensures
        lines(formatted(ms)) =~= ms.map_values(|m: MessageModel| text_of(m)),
    decreases ms.len(),
{
    if ms.len() > 0 {
        lemma_formatted_front(ms);
        let m = ms[0];
        assert(storable(m));
        lemma_text_of_plain(m);
        assert(line_of(m) + formatted(ms.drop_first()) =~= text_of(m) + seq!['\n'] + formatted(
            ms.drop_first(),
        ));
        lemma_lines_cons(text_of(m), formatted(ms.drop_first()));
        assert forall|i: int| 0 <= i < ms.drop_first().len() implies storable(
            #[trigger] ms.drop_first()[i],
        ) by {
            assert(ms.drop_first()[i] == ms[i + 1]);
        }
        lemma_lines_formatted(ms.drop_first());
    }
}

proof fn lemma_parse_text_of(m: MessageModel)
    requires
        storable(m),
    ensures
        parse_line(text_of(m)) == Some(m),
{
    reveal_strlit("user");
    reveal_strlit("assistant");
    let t = text_of(m);
    assert(!m.role.contains(':'));
    assert forall|j: int| 0 <= j < m.role.len() implies t[j] != ':' by {
        assert(t[j] == m.role[j]);
    }
    lemma_first_index_at(t, ':', m.role.len() as int);
    assert(t.take(m.role.len() as int) =~= m.role);
    assert(t.skip(m.role.len() as int + 1) =~= stored(m.content));
    lemma_unescape_stored(m.content);
}

proof fn lemma_read_texts(ms: Seq<MessageModel>)
    requires
        forall|i: int| 0 <= i < ms.len() ==> storable(#[trigger] ms[i]),
    ensures
        read_lines(ms.map_values(|m: MessageModel| text_of(m))) == Some(ms),
    decreases ms.len(),
{
    let ts = ms.map_values(|m: MessageModel| text_of(m));
    if ms.len() > 0 {
        assert(ts.drop_last() =~= ms.drop_last().map_values(|m: MessageModel| text_of(m)));
        lemma_read_texts(ms.drop_last());
        assert(storable(ms.last()));
        lemma_parse_text_of(ms.last());
        assert(ms.drop_last().push(ms.last()) =~= ms);
    } else {
        assert(ms =~= Seq::<MessageModel>::empty());
    }
}

/// Storing messages and reading the text back gives the same messages, in the
/// same order, whatever their contents, wherever each role is `user` or
/// `assistant`.
pub proof fn lemma_round_trip(ms: Seq<MessageModel>)
    requires
        forall|i: int| 0 <= i < ms.len() ==> storable(#[trigger] ms[i]),
    ensures
        parsed(formatted(ms)) == Some(ms),
{
    lemma_lines_formatted(ms);
    lemma_read_texts(ms);
}

proof fn lemma_read_blank_lines(ls: Seq<Seq<char>>)
    requires
        forall|i: int|
            0 <= i < ls.len() ==> is_blank(#[trigger] ls[i]) && parse_line(ls[i]) is None,
    ensures
        read_lines(ls) == Some(Seq::<MessageModel>::empty()),
    decreases ls.len(),
{
    if ls.len() > 0 {
        lemma_read_blank_lines(ls.drop_last());
        assert(is_blank(ls[ls.len() - 1]));
    }
}

proof fn lemma_lines_of_blank_text(s: Seq<char>)
    requires
        forall|i: int| 0 <= i < s.len() ==> is_white(#[trigger] s[i]),
    ensures
        forall|i: int|
            0 <= i < lines(s).len() ==> is_blank(#[trigger] lines(s)[i]) && parse_line(
                lines(s)[i],
            ) is None,
    decreases s.len(),
{
    if s.len() > 0 {
        let k = first_index(s, '\n') as int;
        lemma_first_index_bound(s, '\n');
        let first = if k >= s.len() {
            s
        } else {
            strip_cr(s.take(k))
        };
        assert forall|j: int| 0 <= j < first.len() implies first[j] != ':' && is_white(
            #[trigger] first[j],
        ) by {
            assert(first[j] == s[j]);
        }
        lemma_first_index_at(first, ':', first.len() as int);
        if k < s.len() {
            let rest = s.skip(k + 1);
            assert forall|i: int| 0 <= i < rest.len() implies is_white(#[trigger] rest[i]) by {
                assert(rest[i] == s[i + k + 1]);
            }
            lemma_lines_of_blank_text(rest);
            assert(lines(s) == seq![first] + lines(rest));
            assert forall|i: int| 0 <= i < lines(s).len() implies is_blank(#[trigger] lines(s)[i])
                && parse_line(lines(s)[i]) is None by {
                if i > 0 {
                    assert(lines(s)[i] == lines(rest)[i - 1]);
                }
            }
        }
    }
}

/// A text of nothing but white space, the empty text among them, stands for
/// no messages.
pub proof fn lemma_blank_text_is_empty(s: Seq<char>)
    requires
        forall|i: int| 0 <= i < s.len() ==> is_white(#[trigger] s[i]),
    ensures
        parsed(s) == Some(Seq::<MessageModel>::empty()),
{
    lemma_lines_of_blank_text(s);
    lemma_read_blank_lines(lines(s));
}

} // verus!
