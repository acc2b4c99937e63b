use vstd::prelude::*;

use crate::message::{encode_spec, ChatMessage, MessageView};
use crate::relay::{texts_view, Frame, FrameView};
use crate::text::{chars_of, push_all, string_of};

verus! {

/// The most tokens that one outbound bot frame gathers.
pub const BATCH_CAP: usize = 32;

/// The texts of `parts` joined with nothing between them.
pub open spec fn concat_all(parts: Seq<Seq<char>>) -> Seq<char>
    decreases parts.len(),
{
    if parts.len() == 0 {
        seq![]
    } else {
        concat_all(parts.drop_last()) + parts.last()
    }
}

/// The tokens `from..to` of `tokens`, joined.
pub open spec fn joined(tokens: Seq<String>, from: int, to: int) -> Seq<char> {
    concat_all(texts_view(tokens).subrange(from, to))
}

/// The wire text of the bot frame for the tokens `from..to` of `tokens`.
pub open spec fn bot_frame(tokens: Seq<String>, from: int, to: int) -> Seq<char> {
    encode_spec(MessageView::BotMessage { content: joined(tokens, from, to) })
}

/// Joins every token of `tokens` into one text.
pub fn join_tokens(tokens: &Vec<String>) -> (r: String)
    ensures
        r@ == joined(tokens@, 0, tokens@.len() as int),
{
    let mut out: Vec<char> = Vec::new();
    let mut k: usize = 0;
    while k < tokens.len()
        invariant
            k <= tokens.len(),
            out@ == joined(tokens@, 0, k as int),
        decreases tokens.len() - k,
    {
        let ghost before = texts_view(tokens@).subrange(0, k as int);
        push_all(&mut out, &chars_of(tokens[k].as_str()));
        k = k + 1;
        assert(texts_view(tokens@).subrange(0, k as int).drop_last() =~= before);
    }
    string_of(&out)
}

/// The streaming side of one bot connection: a buffer of at most
/// [`BATCH_CAP`] tokens, filled from what the generator has ready and
/// flushed as one bot frame.
pub struct BotSession {
    buf: Vec<String>,
}

impl BotSession {
    /// The tokens waiting to be flushed.
    pub closed spec fn buffered(&self) -> Seq<String> {
        self.buf@
    }

    /// A session with an empty buffer.
    pub fn new() -> (r: BotSession)
        ensures
            r.buffered().len() == 0,
    {
        BotSession { buf: Vec::new() }
    }

    /// Moves up to [`BATCH_CAP`] of the ready tokens, from position `from`
    /// on, into the empty buffer, and returns the position after the last
    /// one moved. Moving none means that the stream has ended.
    pub fn drain(&mut self, ready: &Vec<String>, from: usize) -> (end: usize)
        requires
            old(self).buffered().len() == 0,
            from <= ready@.len(),
        ensures
            end == (if ready@.len() - from <= BATCH_CAP {
                ready@.len() as int
            } else {
                from + BATCH_CAP
            }),
            final(self).buffered() == ready@.subrange(from as int, end as int),
    {
        let end = if ready.len() - from <= BATCH_CAP {
            ready.len()
        } else {
            from + BATCH_CAP
        };
        let mut k: usize = from;
        while k < end
            invariant
                from <= k <= end <= ready@.len(),
                self.buf@ == ready@.subrange(from as int, k as int),
            decreases end - k,
        {
            self.buf.push(ready[k].clone());
            k = k + 1;
            assert(self.buf@ =~= ready@.subrange(from as int, k as int));
        }
        end
    }

    /// One step of streaming: drains up to [`BATCH_CAP`] of the tokens that
    /// one wait on the generator made ready, and returns the frame to write,
    /// or `None` where nothing was drained, which means the answer is over.
    pub fn next_frame(&mut self, ready: &Vec<String>) -> (r: Option<String>)
        requires
            old(self).buffered().len() == 0,
        ensures
            final(self).buffered().len() == 0,
            ready@.len() == 0 ==> r is None,
            ready@.len() > 0 ==> (r matches Some(f) && f@ == bot_frame(
                ready@,
                0,
                if ready@.len() <= BATCH_CAP {
                    ready@.len() as int
                } else {
                    BATCH_CAP as int
                },
            )),
    {
        let end = self.drain(ready, 0);
        if end == 0 {
            return None;
        }
        proof {
            lemma_joined_sub(ready@, 0, end as int);
        }
        Some(self.flush())
    }

    /// The wire text of the bot frame for the buffered tokens, joined; the
    /// buffer is emptied.
    pub fn flush(&mut self) -> (r: String)
        ensures
            r@ == encode_spec(
                MessageView::BotMessage {
                    content: joined(old(self).buffered(), 0, old(self).buffered().len() as int),
                },
            ),
            final(self).buffered().len() == 0,
    {
        let text = join_tokens(&self.buf);
        self.buf = Vec::new();
        ChatMessage::new_bot_msg(text.as_str()).to_json_str()
    }
}

/// The prompt that a socket frame gives the bot: the text of a text frame;
/// any other frame ends the bot session.
pub fn prompt_of(frame: Frame) -> (r: Option<String>)
    ensures
        r matches Some(t) ==> frame@ == FrameView::Text(t@),
        r is None ==> !(frame@ is Text),
{
    match frame {
        Frame::Text(t) => Some(t),
        _ => None,
    }
}

/// Joining a run of tokens, taken from a list, is joining that part of the list.
proof fn lemma_joined_sub(tokens: Seq<String>, from: int, to: int)
    requires
        0 <= from <= to <= tokens.len(),
    ensures
        joined(tokens.subrange(from, to), 0, to - from) == joined(tokens, from, to),
{
    assert(texts_view(tokens.subrange(from, to)).subrange(0, to - from) =~= texts_view(
        tokens,
    ).subrange(from, to));
}

/// The bot frames sent for `tokens` when all of them are ready before the
/// first drain: frame `k` joins the tokens `k * BATCH_CAP` up to the next
/// multiple of the cap or the end.
pub fn batch_frames(tokens: &Vec<String>) -> (r: Vec<String>)
    ensures
        r@.len() * BATCH_CAP >= tokens@.len(),
        r@.len() > 0 ==> (r@.len() - 1) * BATCH_CAP < tokens@.len(),
        forall|k: int|
            0 <= k < r@.len() ==> #[trigger] r@[k]@ == bot_frame(
                tokens@,
                k * BATCH_CAP,
                if (k + 1) * BATCH_CAP <= tokens@.len() {
                    (k + 1) * BATCH_CAP
                } else {
                    tokens@.len() as int
                },
            ),
{
    let mut session = BotSession::new();
    let mut out: Vec<String> = Vec::new();
    let mut from: usize = 0;
    while from < tokens.len()
        invariant
            from <= tokens@.len(),
            session.buffered().len() == 0,
            from == tokens@.len() || from == out@.len() * BATCH_CAP,
            from <= out@.len() * BATCH_CAP,
            out@.len() > 0 ==> (out@.len() - 1) * BATCH_CAP < tokens@.len(),
            forall|k: int|
                0 <= k < out@.len() ==> #[trigger] out@[k]@ == bot_frame(
                    tokens@,
                    k * BATCH_CAP,
                    if (k + 1) * BATCH_CAP <= tokens@.len() {
                        (k + 1) * BATCH_CAP
                    } else {
                        tokens@.len() as int
                    },
                ),
        decreases tokens.len() - from,
    {
        let end = session.drain(tokens, from);
        proof {
            lemma_joined_sub(tokens@, from as int, end as int);
        }
        let frame = session.flush();
        let ghost n = out@.len();
        let ghost prev = out@;
        assert((n + 1) * BATCH_CAP == n * BATCH_CAP + BATCH_CAP) by (nonlinear_arith);
        out.push(frame);
        from = end;
        assert(forall|k: int| 0 <= k < n ==> out@[k] == prev[k]);
    }
    out
}

} // verus!
