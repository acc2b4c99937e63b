use vstd::prelude::*;

use crate::escape::{
    lemma_read_quoted_complete, lemma_read_quoted_sound, push_quoted, quoted, read_quoted,
    read_quoted_spec,
};
use crate::text::{chars_of, equals_text, matches_at, push_all, string_of};

verus! {

/// A chat event as it travels between clients and the broker.
#[allow(inconsistent_fields)]
#[derive(Clone, Debug, PartialEq, Eq)]
pub enum ChatMessage {
    /// Text written by a user; the username is filled by the server when absent.
    UserMessage { username: Option<String>, content: String },
    /// A user joined.
    UserOnline { username: String },
    /// A user left.
    UserOffline { username: String },
    /// One assembled chunk of bot output.
    BotMessage { content: String },
}

/// The mathematical value of a [`ChatMessage`]: its texts as character sequences.
#[allow(inconsistent_fields)]
pub enum MessageView {
    UserMessage { username: Option<Seq<char>>, content: Seq<char> },
    UserOnline { username: Seq<char> },
    UserOffline { username: Seq<char> },
    BotMessage { content: Seq<char> },
}

impl View for ChatMessage {
    type V = MessageView;

    open spec fn view(&self) -> MessageView {
        match self {
            ChatMessage::UserMessage { username, content } => MessageView::UserMessage {
                username: match username {
                    Some(u) => Some(u@),
                    None => None,
                },
                content: content@,
            },
            ChatMessage::UserOnline { username } => MessageView::UserOnline { username: username@ },
            ChatMessage::UserOffline { username } => MessageView::UserOffline { username: username@ },
            ChatMessage::BotMessage { content } => MessageView::BotMessage { content: content@ },
        }
    }
}

/// A text frame that holds no envelope.
#[derive(Clone, Copy, Debug, PartialEq, Eq)]
pub enum DecodeError {
    Malformed,
}

/// The tag of a user message.
pub open spec fn user_message_tag() -> Seq<char> {
    seq!['U', 's', 'e', 'r', 'M', 'e', 's', 's', 'a', 'g', 'e']
}

/// The tag of a join event.
pub open spec fn user_online_tag() -> Seq<char> {
    seq!['U', 's', 'e', 'r', 'O', 'n', 'l', 'i', 'n', 'e']
}

/// The tag of a leave event.
pub open spec fn user_offline_tag() -> Seq<char> {
    seq!['U', 's', 'e', 'r', 'O', 'f', 'f', 'l', 'i', 'n', 'e']
}

/// The tag of a bot message.
pub open spec fn bot_message_tag() -> Seq<char> {
    seq!['B', 'o', 't', 'M', 'e', 's', 's', 'a', 'g', 'e']
}

/// The key of a username field.
pub open spec fn username_key() -> Seq<char> {
    seq!['u', 's', 'e', 'r', 'n', 'a', 'm', 'e']
}

/// The key of a content field.
pub open spec fn content_name() -> Seq<char> {
    seq!['c', 'o', 'n', 't', 'e', 'n', 't']
}

/// The JSON null that stands for an absent username.
pub open spec fn null_lit() -> Seq<char> {
    seq!['n', 'u', 'l', 'l']
}

/// A field of an envelope's inner object: its key, and its value, a string
/// or null.
pub type Field = (Seq<char>, Option<Seq<char>>);

/// The JSON text of a field's value.
pub open spec fn value_text(v: Option<Seq<char>>) -> Seq<char> {
    match v {
        Some(s) => quoted(s),
        None => null_lit(),
    }
}

/// The JSON text of one member `"key":value`.
pub open spec fn member_text(k: Seq<char>, v: Option<Seq<char>>) -> Seq<char> {
    quoted(k) + (seq![':'] + value_text(v))
}

/// The JSON text of an inner object of one or two fields.
pub open spec fn fields_text(fs: Seq<Field>) -> Seq<char> {
    if fs.len() == 1 {
        seq!['{'] + (member_text(fs[0].0, fs[0].1) + seq!['}'])
    } else {
        seq!['{'] + (member_text(fs[0].0, fs[0].1) + (seq![','] + (member_text(fs[1].0, fs[1].1)
            + seq!['}'])))
    }
}

/// The tag that names a message's variant.
pub open spec fn tag_of(m: MessageView) -> Seq<char> {
    match m {
        MessageView::UserMessage { .. } => user_message_tag(),
        MessageView::UserOnline { .. } => user_online_tag(),
        MessageView::UserOffline { .. } => user_offline_tag(),
        MessageView::BotMessage { .. } => bot_message_tag(),
    }
}

/// The fields that a message is written with.
pub open spec fn fields_of(m: MessageView) -> Seq<Field> {
    match m {
        MessageView::UserMessage { username, content } => seq![
            (username_key(), username),
            (content_name(), Some(content)),
        ],
        MessageView::UserOnline { username } => seq![(username_key(), Some(username))],
        MessageView::UserOffline { username } => seq![(username_key(), Some(username))],
        MessageView::BotMessage { content } => seq![(content_name(), Some(content))],
    }
}

/// The wire text of a message: a JSON object whose one key is the tag of
/// the variant and whose value holds the fields, with no blanks.
pub open spec fn encode_spec(m: MessageView) -> Seq<char> {
    seq!['{'] + (quoted(tag_of(m)) + (seq![':'] + (fields_text(fields_of(m)) + seq!['}'])))
}

/// JSON whitespace.
pub open spec fn is_ws(c: char) -> bool {
    c == ' ' || c == '\n' || c == '\r' || c == '\t'
}

/// The first position at or after `i` that holds no whitespace.
pub open spec fn skip_ws(t: Seq<char>, i: int) -> int
    decreases t.len() - i,
{
    if 0 <= i < t.len() && is_ws(t[i]) {
        skip_ws(t, i + 1)
    } else {
        i
    }
}

/// Whether position `i` of `t` holds `c`.
pub open spec fn char_at(t: Seq<char>, i: int, c: char) -> bool {
    0 <= i < t.len() && t[i] == c
}

/// A field value at `i`: `null` or a string, and the position after it.
pub open spec fn parse_value(t: Seq<char>, i: int) -> Option<(Option<Seq<char>>, int)> {
    if 0 <= i && i + 4 <= t.len() && t.subrange(i, i + 4) == null_lit() {
        Some((None, i + 4))
    } else {
        match read_quoted_spec(t, i) {
            Some((s, j)) => Some((Some(s), j)),
            None => None,
        }
    }
}

/// A member `"key" : value` at `i`, and the position after it.
pub open spec fn parse_member(t: Seq<char>, i: int) -> Option<(Seq<char>, Option<Seq<char>>, int)> {
    match read_quoted_spec(t, i) {
        Some((k, j)) => {
            let c = skip_ws(t, j);
            if char_at(t, c, ':') {
                match parse_value(t, skip_ws(t, c + 1)) {
                    Some((v, e)) => Some((k, v, e)),
                    None => None,
                }
            } else {
                None
            }
        },
        None => None,
    }
}

/// An inner object of at most two members at `i`, and the position after
/// its closing brace.
pub open spec fn parse_fields(t: Seq<char>, i: int) -> Option<(Seq<Field>, int)> {
    if !char_at(t, i, '{') {
        None
    } else {
        let a = skip_ws(t, i + 1);
        if char_at(t, a, '}') {
            Some((seq![], a + 1))
        } else {
            match parse_member(t, a) {
                Some((k1, v1, e1)) => {
                    let b = skip_ws(t, e1);
                    if char_at(t, b, '}') {
                        Some((seq![(k1, v1)], b + 1))
                    } else if char_at(t, b, ',') {
                        match parse_member(t, skip_ws(t, b + 1)) {
                            Some((k2, v2, e2)) => {
                                let c = skip_ws(t, e2);
                                if char_at(t, c, '}') {
                                    Some((seq![(k1, v1), (k2, v2)], c + 1))
                                } else {
                                    None
                                }
                            },
                            None => None,
                        }
                    } else {
                        None
                    }
                },
                None => None,
            }
        }
    }
}

/// The message that a tag and its fields stand for. A user message needs a
/// string content and takes an optional username, null or absent; the
/// other variants need their one string field. Fields may come in either
/// order; unknown or repeated keys are refused.
pub open spec fn message_of(tag: Seq<char>, fs: Seq<Field>) -> Option<MessageView> {
    if tag == user_message_tag() {
        if fs.len() == 1 && fs[0].0 == content_name() && fs[0].1 is Some {
            Some(MessageView::UserMessage { username: None, content: fs[0].1->Some_0 })
        } else if fs.len() == 2 && fs[0].0 == username_key() && fs[1].0 == content_name()
            && fs[1].1 is Some {
            Some(MessageView::UserMessage { username: fs[0].1, content: fs[1].1->Some_0 })
        } else if fs.len() == 2 && fs[0].0 == content_name() && fs[1].0 == username_key()
            && fs[0].1 is Some {
            Some(MessageView::UserMessage { username: fs[1].1, content: fs[0].1->Some_0 })
        } else {
            None
        }
    } else if fs.len() == 1 && fs[0].1 is Some {
        let s = fs[0].1->Some_0;
        if tag == user_online_tag() && fs[0].0 == username_key() {
            Some(MessageView::UserOnline { username: s })
        } else if tag == user_offline_tag() && fs[0].0 == username_key() {
            Some(MessageView::UserOffline { username: s })
        } else if tag == bot_message_tag() && fs[0].0 == content_name() {
            Some(MessageView::BotMessage { content: s })
        } else {
            None
        }
    } else {
        None
    }
}

/// The message that a text holds: a JSON object, with whitespace allowed
/// between tokens, whose one key is a tag and whose value is an object of
/// the tag's fields.
#[verifier::opaque]
pub open spec fn decode_spec(t: Seq<char>) -> Option<MessageView> {
    let a = skip_ws(t, 0);
    if !char_at(t, a, '{') {
        None
    } else {
        match read_quoted_spec(t, skip_ws(t, a + 1)) {
            Some((tag, j)) => {
                let b = skip_ws(t, j);
                if !char_at(t, b, ':') {
                    None
                } else {
                    match parse_fields(t, skip_ws(t, b + 1)) {
                        Some((fs, e)) => {
                            let c = skip_ws(t, e);
                            if char_at(t, c, '}') && skip_ws(t, c + 1) == t.len() {
                                message_of(tag, fs)
                            } else {
                                None
                            }
                        },
                        None => None,
                    }
                }
            },
            None => None,
        }
    }
}

proof fn lemma_suffix(t: Seq<char>, p: int, a: Seq<char>, b: Seq<char>)
    requires
        0 <= p <= t.len(),
        t.subrange(p, t.len() as int) == a + b,
    ensures
        p + a.len() <= t.len(),
        t.subrange(p + a.len(), t.len() as int) == b,
        a.len() > 0 ==> t[p] == a[0],
{
    assert(t.subrange(p + a.len(), t.len() as int) =~= (a + b).subrange(a.len() as int, (a + b).len() as int));
    if a.len() > 0 {
        assert(t[p] == t.subrange(p, t.len() as int)[0]);
    }
}

proof fn lemma_no_ws(t: Seq<char>, p: int)
    requires
        0 <= p <= t.len(),
        p < t.len() ==> !is_ws(t[p]),
    ensures
        skip_ws(t, p) == p,
{
}

proof fn lemma_value(t: Seq<char>, p: int, v: Option<Seq<char>>, rest: Seq<char>)
    requires
        0 <= p <= t.len(),
        t.subrange(p, t.len() as int) == value_text(v) + rest,
    ensures
        parse_value(t, p) == Some((v, p + value_text(v).len())),
{
    lemma_suffix(t, p, value_text(v), rest);
    match v {
        Some(s) => {
            assert(t[p] == '"');
            if p + 4 <= t.len() {
                assert(t.subrange(p, p + 4)[0] != null_lit()[0]);
            }
            lemma_read_quoted_complete(t, p, s, rest);
        },
        None => {
            assert(t.subrange(p, p + 4) =~= t.subrange(p, t.len() as int).subrange(0, 4));
            assert((null_lit() + rest).subrange(0, 4) =~= null_lit());
        },
    }
}

proof fn lemma_member(t: Seq<char>, p: int, k: Seq<char>, v: Option<Seq<char>>, rest: Seq<char>)
    requires
        0 <= p <= t.len(),
        t.subrange(p, t.len() as int) == member_text(k, v) + rest,
    ensures
        parse_member(t, p) == Some((k, v, p + member_text(k, v).len())),
{
    let after_key = seq![':'] + (value_text(v) + rest);
    assert(member_text(k, v) + rest =~= quoted(k) + after_key);
    lemma_read_quoted_complete(t, p, k, after_key);
    let c: int = p + quoted(k).len() as int;
    lemma_suffix(t, p, quoted(k), after_key);
    lemma_suffix(t, c, seq![':'], value_text(v) + rest);
    lemma_no_ws(t, c);
    lemma_suffix(t, c + 1, value_text(v), rest);
    assert(value_text(v).len() > 0 ==> value_text(v)[0] == '"' || value_text(v)[0] == 'n');
    lemma_no_ws(t, c + 1);
    lemma_value(t, c + 1, v, rest);
}

proof fn lemma_fields(t: Seq<char>, p: int, fs: Seq<Field>, rest: Seq<char>)
    requires
        0 <= p <= t.len(),
        fs.len() == 1 || fs.len() == 2,
        t.subrange(p, t.len() as int) == fields_text(fs) + rest,
    ensures
        parse_fields(t, p) == Some((fs, p + fields_text(fs).len())),
{
    let m1 = member_text(fs[0].0, fs[0].1);
    if fs.len() == 1 {
        let r1 = seq!['}'] + rest;
        assert(fields_text(fs) + rest =~= seq!['{'] + (m1 + r1));
        lemma_suffix(t, p, seq!['{'], m1 + r1);
        lemma_suffix(t, p + 1, m1, r1);
        lemma_no_ws(t, p + 1);
        lemma_member(t, p + 1, fs[0].0, fs[0].1, r1);
        let e1: int = p + 1 + m1.len() as int;
        lemma_suffix(t, e1, seq!['}'], rest);
        lemma_no_ws(t, e1);
        assert(seq![(fs[0].0, fs[0].1)] =~= fs);
    } else {
        let m2 = member_text(fs[1].0, fs[1].1);
        let r2 = seq!['}'] + rest;
        let r1 = seq![','] + (m2 + r2);
        assert(fields_text(fs) + rest =~= seq!['{'] + (m1 + r1));
        lemma_suffix(t, p, seq!['{'], m1 + r1);
        lemma_suffix(t, p + 1, m1, r1);
        lemma_no_ws(t, p + 1);
        lemma_member(t, p + 1, fs[0].0, fs[0].1, r1);
        let e1: int = p + 1 + m1.len() as int;
        lemma_suffix(t, e1, seq![','], m2 + r2);
        lemma_no_ws(t, e1);
        lemma_suffix(t, e1 + 1, m2, r2);
        lemma_no_ws(t, e1 + 1);
        lemma_member(t, e1 + 1, fs[1].0, fs[1].1, r2);
        let e2: int = e1 + 1 + m2.len() as int;
        lemma_suffix(t, e2, seq!['}'], rest);
        lemma_no_ws(t, e2);
        assert(seq![(fs[0].0, fs[0].1), (fs[1].0, fs[1].1)] =~= fs);
    }
}

proof fn lemma_names_distinct()
    ensures
        user_message_tag() != user_online_tag(),
        user_message_tag() != user_offline_tag(),
        user_message_tag() != bot_message_tag(),
        user_online_tag() != user_offline_tag(),
        user_online_tag() != bot_message_tag(),
        user_offline_tag() != bot_message_tag(),
        username_key() != content_name(),
{
    assert(user_message_tag()[4] != user_online_tag()[4]);
    assert(user_message_tag()[4] != user_offline_tag()[4]);
    assert(user_message_tag()[0] != bot_message_tag()[0]);
    assert(user_online_tag()[5] != user_offline_tag()[5]);
    assert(user_online_tag()[0] != bot_message_tag()[0]);
    assert(user_offline_tag()[0] != bot_message_tag()[0]);
    assert(username_key()[0] != content_name()[0]);
}

proof fn lemma_fields_of(m: MessageView)
    ensures
        message_of(tag_of(m), fields_of(m)) == Some(m),
        fields_of(m).len() == 1 || fields_of(m).len() == 2,
{
    lemma_names_distinct();
}

proof fn lemma_fields_open(fs: Seq<Field>)
    requires
        fs.len() == 1 || fs.len() == 2,
    ensures
        fields_text(fs).len() > 0,
        fields_text(fs)[0] == '{',
{
}

#[verifier::rlimit(50)]
proof fn lemma_decode_text(tag: Seq<char>, fs: Seq<Field>)
    requires
        fs.len() == 1 || fs.len() == 2,
    ensures
        decode_spec(seq!['{'] + (quoted(tag) + (seq![':'] + (fields_text(fs) + seq!['}']))))
            == message_of(tag, fs),
{
    reveal(decode_spec);
    let r3 = seq!['}'];
    let r2 = fields_text(fs) + r3;
    let r1 = seq![':'] + r2;
    let t = seq!['{'] + (quoted(tag) + r1);
    assert(t.subrange(0, t.len() as int) =~= t);
    lemma_suffix(t, 0, seq!['{'], quoted(tag) + r1);
    lemma_no_ws(t, 0);
    lemma_suffix(t, 1, quoted(tag), r1);
    lemma_no_ws(t, 1);
    lemma_read_quoted_complete(t, 1, tag, r1);
    let j: int = 1 + quoted(tag).len() as int;
    lemma_suffix(t, j, seq![':'], r2);
    lemma_no_ws(t, j);
    lemma_suffix(t, j + 1, fields_text(fs), r3);
    lemma_fields_open(fs);
    lemma_no_ws(t, j + 1);
    lemma_fields(t, j + 1, fs, r3);
    let e: int = j + 1 + fields_text(fs).len() as int;
    lemma_suffix(t, e, r3, seq![]);
    lemma_no_ws(t, e);
    lemma_no_ws(t, e + 1);
}

/// Decoding the wire text of a message gives that message back.
pub proof fn lemma_round_trip(m: MessageView)
    ensures
        decode_spec(encode_spec(m)) == Some(m),
{
    lemma_fields_of(m);
    lemma_decode_text(tag_of(m), fields_of(m));
}

/// Two messages with the same wire text are the same message.
pub proof fn lemma_encode_injective(a: MessageView, b: MessageView)
    requires
        encode_spec(a) == encode_spec(b),
    ensures
        a == b,
{
    lemma_round_trip(a);
    lemma_round_trip(b);
}

fn user_message_tag_chars() -> (r: Vec<char>)
    ensures
        r@ == user_message_tag(),
{
    let r: Vec<char> = vec!['U', 's', 'e', 'r', 'M', 'e', 's', 's', 'a', 'g', 'e'];
    assert(r@ =~= user_message_tag());
    r
}

fn user_online_tag_chars() -> (r: Vec<char>)
    ensures
        r@ == user_online_tag(),
{
    let r: Vec<char> = vec!['U', 's', 'e', 'r', 'O', 'n', 'l', 'i', 'n', 'e'];
    assert(r@ =~= user_online_tag());
    r
}

fn user_offline_tag_chars() -> (r: Vec<char>)
    ensures
        r@ == user_offline_tag(),
{
    let r: Vec<char> = vec!['U', 's', 'e', 'r', 'O', 'f', 'f', 'l', 'i', 'n', 'e'];
    assert(r@ =~= user_offline_tag());
    r
}

fn bot_message_tag_chars() -> (r: Vec<char>)
    ensures
        r@ == bot_message_tag(),
{
    let r: Vec<char> = vec!['B', 'o', 't', 'M', 'e', 's', 's', 'a', 'g', 'e'];
    assert(r@ =~= bot_message_tag());
    r
}

fn username_key_chars() -> (r: Vec<char>)
    ensures
        r@ == username_key(),
{
    let r: Vec<char> = vec!['u', 's', 'e', 'r', 'n', 'a', 'm', 'e'];
    assert(r@ =~= username_key());
    r
}

fn content_name_chars() -> (r: Vec<char>)
    ensures
        r@ == content_name(),
{
    let r: Vec<char> = vec!['c', 'o', 'n', 't', 'e', 'n', 't'];
    assert(r@ =~= content_name());
    r
}

fn null_lit_chars() -> (r: Vec<char>)
    ensures
        r@ == null_lit(),
{
    let r: Vec<char> = vec!['n', 'u', 'l', 'l'];
    assert(r@ =~= null_lit());
    r
}


/// The view of an optional text.
pub open spec fn opt_view(u: Option<Vec<char>>) -> Option<Seq<char>> {
    match u {
        Some(x) => Some(x@),
        None => None,
    }
}

/// The view of a field read from text.
pub open spec fn field_view(f: (Vec<char>, Option<Vec<char>>)) -> Field {
    (f.0@, opt_view(f.1))
}

fn is_ws_char(c: char) -> (r: bool)
    ensures
        r == is_ws(c),
{
    c == ' ' || c == '\n' || c == '\r' || c == '\t'
}

fn skip_ws_at(t: &Vec<char>, i: usize) -> (r: usize)
    requires
        i <= t@.len(),
    ensures
        r as int == skip_ws(t@, i as int),
        i <= r <= t@.len(),
{
    let mut k = i;
    while k < t.len() && is_ws_char(t[k])
        invariant
            i <= k <= t@.len(),
            skip_ws(t@, i as int) == skip_ws(t@, k as int),
        decreases t.len() - k,
    {
        k = k + 1;
    }
    k
}

fn read_quoted_at(t: &Vec<char>, i: usize) -> (r: Option<(Vec<char>, usize)>)
    ensures
        r matches Some((s, j)) ==> read_quoted_spec(t@, i as int) == Some((s@, j as int)) && j
            <= t@.len(),
        r is None ==> read_quoted_spec(t@, i as int) is None,
{
    proof {
        lemma_read_quoted_sound(t@, i as int);
    }
    read_quoted(t, i)
}

fn parse_value_at(t: &Vec<char>, i: usize) -> (r: Option<(Option<Vec<char>>, usize)>)
    requires
        i <= t@.len(),
    ensures
        r matches Some((v, j)) ==> parse_value(t@, i as int) == Some((opt_view(v), j as int)) && j
            <= t@.len(),
        r is None ==> parse_value(t@, i as int) is None,
{
    let null = null_lit_chars();
    if matches_at(t, i, &null) {
        assert(null@.len() == 4 && t@.len() == t.len());
        assert(i + 4 <= t.len());
        return Some((None, i + 4));
    }
    match read_quoted_at(t, i) {
        Some((s, j)) => Some((Some(s), j)),
        None => None,
    }
}

fn parse_member_at(t: &Vec<char>, i: usize) -> (r: Option<(Vec<char>, Option<Vec<char>>, usize)>)
    requires
        i <= t@.len(),
    ensures
        r matches Some((k, v, e)) ==> parse_member(t@, i as int) == Some((k@, opt_view(v), e as int))
            && e <= t@.len(),
        r is None ==> parse_member(t@, i as int) is None,
{
    let (k, j) = match read_quoted_at(t, i) {
        Some(x) => x,
        None => return None,
    };
    let c = skip_ws_at(t, j);
    if c >= t.len() || t[c] != ':' {
        return None;
    }
    let d = skip_ws_at(t, c + 1);
    match parse_value_at(t, d) {
        Some((v, e)) => Some((k, v, e)),
        None => None,
    }
}

fn parse_fields_at(t: &Vec<char>, i: usize) -> (r: Option<(Vec<(Vec<char>, Option<Vec<char>>)>, usize)>)
    requires
        i <= t@.len(),
    ensures
        r matches Some((fs, e)) ==> parse_fields(t@, i as int) == Some((fs@.map_values(|f| field_view(f)), e as int))
            && e <= t@.len(),
        r is None ==> parse_fields(t@, i as int) is None,
{
    if i >= t.len() || t[i] != '{' {
        return None;
    }
    let a = skip_ws_at(t, i + 1);
    let mut fs: Vec<(Vec<char>, Option<Vec<char>>)> = Vec::new();
    if a < t.len() && t[a] == '}' {
        assert(fs@.map_values(|f| field_view(f)) =~= Seq::<Field>::empty());
        return Some((fs, a + 1));
    }
    let (k1, v1, e1) = match parse_member_at(t, a) {
        Some(x) => x,
        None => return None,
    };
    let ghost f1 = (k1@, opt_view(v1));
    fs.push((k1, v1));
    let b = skip_ws_at(t, e1);
    if b < t.len() && t[b] == '}' {
        assert(fs@.map_values(|f| field_view(f)) =~= seq![f1]);
        return Some((fs, b + 1));
    }
    if b >= t.len() || t[b] != ',' {
        return None;
    }
    let d = skip_ws_at(t, b + 1);
    let (k2, v2, e2) = match parse_member_at(t, d) {
        Some(x) => x,
        None => return None,
    };
    let ghost f2 = (k2@, opt_view(v2));
    fs.push((k2, v2));
    let c = skip_ws_at(t, e2);
    if c < t.len() && t[c] == '}' {
        assert(fs@.map_values(|f| field_view(f)) =~= seq![f1, f2]);
        return Some((fs, c + 1));
    }
    None
}

fn chars_of_string(s: &String) -> (r: Vec<char>)
    ensures
        r@ == s@,
{
    chars_of(s.as_str())
}

fn push_member(out: &mut Vec<char>, key: &Vec<char>, v: &Option<String>)
    ensures
        final(out)@ == old(out)@ + member_text(
            key@,
            match v {
                Some(s) => Some(s@),
                None => None,
            },
        ),
{
    push_quoted(out, key);
    out.push(':');
    match v {
        Some(s) => push_quoted(out, &chars_of_string(s)),
        None => push_all(out, &null_lit_chars()),
    }
    assert(final(out)@ =~= old(out)@ + member_text(
        key@,
        match v {
            Some(s) => Some(s@),
            None => None,
        },
    ));
}

/// Builds the message that a tag and its fields stand for.
fn message_from(tag: &Vec<char>, fs: Vec<(Vec<char>, Option<Vec<char>>)>) -> (r: Option<ChatMessage>)
    ensures
        r matches Some(m) ==> message_of(tag@, fs@.map_values(|f| field_view(f))) == Some(m@),
        r is None ==> message_of(tag@, fs@.map_values(|f| field_view(f))) is None,
{
    let ghost fv = fs@.map_values(|f| field_view(f));
    let username = username_key_chars();
    let content = content_name_chars();
    let n = fs.len();
    if equals_text(tag, &user_message_tag_chars()) {
        if n == 1 && equals_text(&fs[0].0, &content) {
            if let Some(c) = &fs[0].1 {
                return Some(ChatMessage::UserMessage { username: None, content: string_of(c) });
            }
            return None;
        }
        if n == 2 {
            let first_user = equals_text(&fs[0].0, &username);
            let first_content = equals_text(&fs[0].0, &content);
            let second_user = equals_text(&fs[1].0, &username);
            let second_content = equals_text(&fs[1].0, &content);
            let (u, c) = if first_user && second_content {
                (&fs[0].1, &fs[1].1)
            } else if first_content && second_user {
                (&fs[1].1, &fs[0].1)
            } else {
                return None;
            };
            if let Some(c) = c {
                let name = match u {
                    Some(x) => Some(string_of(x)),
                    None => None,
                };
                return Some(ChatMessage::UserMessage { username: name, content: string_of(c) });
            }
        }
        return None;
    }
    if n != 1 {
        return None;
    }
    let s = match &fs[0].1 {
        Some(s) => string_of(s),
        None => return None,
    };
    let key = &fs[0].0;
    if equals_text(tag, &user_online_tag_chars()) && equals_text(key, &username) {
        Some(ChatMessage::UserOnline { username: s })
    } else if equals_text(tag, &user_offline_tag_chars()) && equals_text(key, &username) {
        Some(ChatMessage::UserOffline { username: s })
    } else if equals_text(tag, &bot_message_tag_chars()) && equals_text(key, &content) {
        Some(ChatMessage::BotMessage { content: s })
    } else {
        None
    }
}

impl ChatMessage {
    /// A join event for `username`.
    pub fn new_user_online(username: &str) -> (r: ChatMessage)
        ensures
            r@ == (MessageView::UserOnline { username: username@ }),
    {
        ChatMessage::UserOnline { username: username.to_owned() }
    }

    /// A leave event for `username`.
    pub fn new_user_offline(username: &str) -> (r: ChatMessage)
        ensures
            r@ == (MessageView::UserOffline { username: username@ }),
    {
        ChatMessage::UserOffline { username: username.to_owned() }
    }

    /// A bot message holding `content`.
    pub fn new_bot_msg(content: &str) -> (r: ChatMessage)
        ensures
            r@ == (MessageView::BotMessage { content: content@ }),
    {
        ChatMessage::BotMessage { content: content.to_owned() }
    }

    /// The wire text of this message.
    pub fn to_json_str(&self) -> (r: String)
        ensures
            r@ == encode_spec(self@),
    {
        let mut out: Vec<char> = Vec::new();
        out.push('{');
        let ghost start = out@;
        let tag = match self {
            ChatMessage::UserMessage { .. } => user_message_tag_chars(),
            ChatMessage::UserOnline { .. } => user_online_tag_chars(),
            ChatMessage::UserOffline { .. } => user_offline_tag_chars(),
            ChatMessage::BotMessage { .. } => bot_message_tag_chars(),
        };
        push_quoted(&mut out, &tag);
        out.push(':');
        out.push('{');
        let ghost open = out@;
        match self {
            ChatMessage::UserMessage { username, content } => {
                push_member(&mut out, &username_key_chars(), username);
                out.push(',');
                push_member(&mut out, &content_name_chars(), &Some(content.clone()));
            },
            ChatMessage::UserOnline { username } => {
                push_member(&mut out, &username_key_chars(), &Some(username.clone()));
            },
            ChatMessage::UserOffline { username } => {
                push_member(&mut out, &username_key_chars(), &Some(username.clone()));
            },
            ChatMessage::BotMessage { content } => {
                push_member(&mut out, &content_name_chars(), &Some(content.clone()));
            },
        }
        out.push('}');
        out.push('}');
        assert(out@ =~= encode_spec(self@));
        string_of(&out)
    }

    /// The message that `text` holds; an error where it holds none.
    pub fn from_json_str(text: &str) -> (r: Result<ChatMessage, DecodeError>)
        ensures
            r matches Ok(m) ==> decode_spec(text@) == Some(m@),
            r is Err ==> decode_spec(text@) is None,
    {
        reveal(decode_spec);
        let t = chars_of(text);
        let a = skip_ws_at(&t, 0);
        if a >= t.len() || t[a] != '{' {
            return Err(DecodeError::Malformed);
        }
        let b0 = skip_ws_at(&t, a + 1);
        let (tag, j) = match read_quoted_at(&t, b0) {
            Some(x) => x,
            None => return Err(DecodeError::Malformed),
        };
        let b = skip_ws_at(&t, j);
        if b >= t.len() || t[b] != ':' {
            return Err(DecodeError::Malformed);
        }
        let d = skip_ws_at(&t, b + 1);
        let (fs, e) = match parse_fields_at(&t, d) {
            Some(x) => x,
            None => return Err(DecodeError::Malformed),
        };
        let c = skip_ws_at(&t, e);
        if c >= t.len() || t[c] != '}' {
            return Err(DecodeError::Malformed);
        }
        if skip_ws_at(&t, c + 1) != t.len() {
            return Err(DecodeError::Malformed);
        }
        match message_from(&tag, fs) {
            Some(m) => Ok(m),
            None => Err(DecodeError::Malformed),
        }
    }
}

} // verus!
