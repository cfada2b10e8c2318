//! Chat messages, and the decisions of a streaming chat call: splitting the
//! server-sent event stream into data lines, folding the decoded deltas into
//! the reply, and choosing the fallback after a failed attempt.

use vstd::prelude::*;
use crate::codec::{decode_utf8_lossy, utf8_lossy};
use crate::cost::TokenUsage;
use crate::text::{
    chars_of, extend_all, extend_range, find, find_from_exec, push_str, same_chars, starts_with,
    string_of, trim, trim_bounds,
};

verus! {

/// One chat message.
#[derive(Clone, Debug)]
pub struct Message {
    pub role: String,
    pub content: String,
}

impl Message {
    /// A system message.
    pub fn system(content: String) -> (m: Message)
        ensures
            m.role@ == "system"@,
            m.content@ == content@,
    {
        Message { role: "system".to_owned(), content }
    }

    /// A user message.
    pub fn user(content: String) -> (m: Message)
        ensures
            m.role@ == "user"@,
            m.content@ == content@,
    {
        Message { role: "user".to_owned(), content }
    }

    /// An assistant message.
    pub fn assistant(content: String) -> (m: Message)
        ensures
            m.role@ == "assistant"@,
            m.content@ == content@,
    {
        Message { role: "assistant".to_owned(), content }
    }
}

/// A model reply and what it cost.
pub struct LlmResponse {
    pub content: String,
    pub usage: TokenUsage,
}

/// Characters received so far while streaming: answer and reasoning.
#[derive(Clone, Copy, Default, Debug)]
pub struct StreamProgress {
    pub content: usize,
    pub reasoning: usize,
}

/// The message of a call made without an API key.
pub fn missing_api_key_message() -> (m: String)
    ensures
        m@ == "未配置 API Key，请在网页右上角「设置」中填写 API Key 后重试"@,
{
    "未配置 API Key，请在网页右上角「设置」中填写 API Key 后重试".to_owned()
}

/// The text of a non-streamed reply: the answer, or, when that is empty, the
/// reasoning text, or else nothing.
pub fn response_text(content: String, reasoning: Option<String>) -> (r: String)
    ensures
        content@.len() > 0 ==> r@ == content@,
        content@.len() == 0 ==> r@ == (match reasoning {
            Some(x) => x@,
            None => Seq::<char>::empty(),
        }),
{
    if content.as_str().is_empty() {
        match reasoning {
            Some(x) => x,
            None => String::new(),
        }
    } else {
        content
    }
}

/// The text of a non-streamed reply whose answer is `content` and whose
/// reasoning is `reasoning`.
pub open spec fn reply_answer(content: Seq<char>, reasoning: Option<Seq<char>>) -> Seq<char> {
    if content.len() > 0 {
        content
    } else {
        match reasoning {
            Some(x) => x,
            None => Seq::empty(),
        }
    }
}

/// One choice of a non-streamed reply: its answer and its reasoning text.
pub struct ChoiceText {
    pub content: String,
    pub reasoning: Option<String>,
}

/// The reply of a non-streamed call: the text of its first choice (see
/// `response_text`) and the usage reported; an error when there is no choice.
pub fn plain_reply(choices: Vec<ChoiceText>, usage: TokenUsage) -> (r: Result<LlmResponse, String>)
    ensures
        choices@.len() == 0 ==> (r matches Err(m) && m@ == "响应中没有 choices"@),
        choices@.len() > 0 ==> (r matches Ok(x) && x.usage == usage && x.content@ == reply_answer(
            choices@[0].content@,
            match choices@[0].reasoning {
                Some(t) => Some(t@),
                None => None,
            },
        )),
{
    let mut choices = choices;
    if choices.len() == 0 {
        return Err("响应中没有 choices".to_owned());
    }
    let first = choices.remove(0);
    let content = response_text(first.content, first.reasoning);
    Ok(LlmResponse { content, usage })
}

// ---------------------------------------------------------------------------
// The event stream
// ---------------------------------------------------------------------------

/// `s` without its trailing carriage returns.
pub open spec fn strip_trailing_crs(s: Seq<char>) -> Seq<char>
    decreases s.len(),
{
    if s.len() > 0 && s.last() == '\r' {
        strip_trailing_crs(s.drop_last())
    } else {
        s
    }
}

/// `data:`, the prefix of a data line.
pub open spec fn data_prefix() -> Seq<char> {
    seq!['d', 'a', 't', 'a', ':']
}

/// `[DONE]`, the payload that ends the stream.
pub open spec fn done_marker() -> Seq<char> {
    seq!['[', 'D', 'O', 'N', 'E', ']']
}

/// What one complete line of the stream means.
pub enum LineEvent {
    /// No complete line is buffered yet.
    NeedMore,
    /// A line that carries no data.
    Skip,
    /// The end-of-stream marker.
    Done,
    /// The payload of a data line, trimmed, to be decoded as JSON.
    Data(String),
}

/// The meaning of a line (without its line feed): a line starting with
/// `data:` carries the trimmed rest, `[DONE]` ending the stream; any other
/// line is skipped.
pub open spec fn line_payload(line: Seq<char>) -> Option<Seq<char>> {
    let l = strip_trailing_crs(line);
    if starts_with(l, data_prefix()) {
        Some(trim(l.skip(5)))
    } else {
        None
    }
}

/// A delta decoded from one data payload.
pub struct StreamDelta {
    pub usage: Option<TokenUsage>,
    pub content: Option<String>,
    pub reasoning: Option<String>,
}

/// The state of a streamed reply: text received but not yet split into
/// lines, the answer and reasoning so far, and the last usage reported.
pub struct StreamDecoder {
    pending: Vec<char>,
    content: String,
    reasoning: String,
    usage: TokenUsage,
    got_usage: bool,
}

impl StreamDecoder {
    /// Received text not yet consumed as lines.
    pub closed spec fn pending(&self) -> Seq<char> {
        self.pending@
    }

    /// The answer so far.
    pub closed spec fn content(&self) -> Seq<char> {
        self.content@
    }

    /// The reasoning so far.
    pub closed spec fn reasoning(&self) -> Seq<char> {
        self.reasoning@
    }

    /// The usage the reply will carry: the last one reported, or zeros.
    pub closed spec fn final_usage(&self) -> TokenUsage {
        if self.got_usage {
            self.usage
        } else {
            TokenUsage { prompt_tokens: 0, completion_tokens: 0, total_tokens: 0 }
        }
    }

    /// Nothing received yet.
    pub fn new() -> (d: StreamDecoder)
        ensures
            d.pending() == Seq::<char>::empty(),
            d.content() == Seq::<char>::empty(),
            d.reasoning() == Seq::<char>::empty(),
            d.final_usage() == TokenUsage::zero_spec(),
    {
        StreamDecoder {
            pending: Vec::new(),
            content: String::new(),
            reasoning: String::new(),
            usage: TokenUsage::zero(),
            got_usage: false,
        }
    }

    /// Appends a received chunk, decoded as UTF-8 with invalid sequences replaced.
    pub fn feed(&mut self, bytes: &[u8])
        ensures
            final(self).pending() == old(self).pending() + utf8_lossy(bytes@),
            final(self).content() == old(self).content(),
            final(self).reasoning() == old(self).reasoning(),
            final(self).final_usage() == old(self).final_usage(),
    {
        let text = decode_utf8_lossy(bytes);
        let v = chars_of(text.as_str());
        extend_all(&mut self.pending, &v);
    }

    /// Takes the next complete line out of the pending text and says what it means.
    pub fn next_line(&mut self) -> (e: LineEvent)
        ensures
            final(self).content() == old(self).content(),
            final(self).reasoning() == old(self).reasoning(),
            final(self).final_usage() == old(self).final_usage(),
            match find(old(self).pending(), seq!['\n']) {
                None => e is NeedMore && final(self).pending() == old(self).pending(),
                Some(k) => final(self).pending() == old(self).pending().skip(k + 1) && match line_payload(
                    old(self).pending().take(k),
                ) {
                    None => e is Skip,
                    Some(d) => if d == done_marker() {
                        e is Done
                    } else {
                        e matches LineEvent::Data(x) && x@ == d
                    },
                },
            },
    {
        let nl = vec!['\n'];
        assert(nl@ =~= seq!['\n']);
        let k = match find_from_exec(&self.pending, &nl, 0) {
            Some(k) => k,
            None => {
                return LineEvent::NeedMore;
            },
        };
        let ghost old_pending = self.pending@;
        let mut end = k;
        while end > 0 && self.pending[end - 1] == '\r'
            invariant
                end <= k < self.pending@.len(),
                self.pending@ == old_pending,
                strip_trailing_crs(old_pending.take(k as int)) == strip_trailing_crs(old_pending.take(end as int)),
            decreases end,
        {
            assert(old_pending.take(end as int).drop_last() =~= old_pending.take(end - 1));
            end = end - 1;
        }
        let mut line: Vec<char> = Vec::new();
        extend_range(&mut line, &self.pending, 0, end);
        assert(line@ =~= old_pending.take(end as int));
        assert(strip_trailing_crs(line@) == line@);
        let mut rest: Vec<char> = Vec::new();
        extend_range(&mut rest, &self.pending, k + 1, self.pending.len());
        assert(rest@ =~= old_pending.skip(k + 1));
        self.pending = rest;
        let prefix = vec!['d', 'a', 't', 'a', ':'];
        assert(prefix@ =~= data_prefix());
        if line.len() < 5 || !crate::text::starts_with_exec(&line, &prefix) {
            return LineEvent::Skip;
        }
        let mut after: Vec<char> = Vec::new();
        extend_range(&mut after, &line, 5, line.len());
        assert(after@ =~= line@.skip(5));
        let (a, b) = trim_bounds(&after);
        let mut payload: Vec<char> = Vec::new();
        extend_range(&mut payload, &after, a, b);
        let done = vec!['[', 'D', 'O', 'N', 'E', ']'];
        assert(done@ =~= done_marker());
        if same_chars(&payload, &done) {
            LineEvent::Done
        } else {
            LineEvent::Data(string_of(&payload))
        }
    }

    /// Folds one decoded delta into the reply: a reported usage replaces the
    /// previous one, answer and reasoning texts are appended. Returns the new
    /// character counts when either text grew.
    pub fn apply(&mut self, delta: StreamDelta) -> (p: Option<StreamProgress>)
        ensures
            final(self).pending() == old(self).pending(),
            final(self).content() == old(self).content() + (match delta.content {
                Some(c) => c@,
                None => Seq::<char>::empty(),
            }),
            final(self).reasoning() == old(self).reasoning() + (match delta.reasoning {
                Some(c) => c@,
                None => Seq::<char>::empty(),
            }),
            final(self).final_usage() == (match delta.usage {
                Some(u) => u,
                None => old(self).final_usage(),
            }),
            (delta.content is Some || delta.reasoning is Some) ==> p == Some(StreamProgress {
                content: final(self).content().len() as usize,
                reasoning: final(self).reasoning().len() as usize,
            }),
            (delta.content is None && delta.reasoning is None) ==> p is None,
    {
        if let Some(u) = delta.usage {
            self.usage = u;
            self.got_usage = true;
        }
        let mut changed = false;
        if let Some(c) = delta.content {
            push_str(&mut self.content, c.as_str());
            changed = true;
        }
        if let Some(r) = delta.reasoning {
            push_str(&mut self.reasoning, r.as_str());
            changed = true;
        }
        if changed {
            let cc = chars_of(self.content.as_str()).len();
            let rc = chars_of(self.reasoning.as_str()).len();
            Some(StreamProgress { content: cc, reasoning: rc })
        } else {
            None
        }
    }

    /// Characters of the answer received so far.
    pub fn content_chars(&self) -> (n: usize)
        ensures
            n == self.content().len(),
    {
        chars_of(self.content.as_str()).len()
    }

    /// The reply: the answer so far and the usage (zeros if none was reported).
    pub fn finish(self) -> (r: LlmResponse)
        ensures
            r.content@ == self.content(),
            r.usage == self.final_usage(),
    {
        let usage = if self.got_usage { self.usage } else { TokenUsage::zero() };
        LlmResponse { content: self.content, usage }
    }
}

// ---------------------------------------------------------------------------
// Fallbacks
// ---------------------------------------------------------------------------

/// Whether an error status means the endpoint refused the stream options:
/// only when they were sent and the status is 400 or 422.
pub fn rejects_stream_options(sent_options: bool, status: u16) -> (b: bool)
    ensures
        b == (sent_options && (status == 400 || status == 422)),
{
    sent_options && (status == 400 || status == 422)
}

/// How a streaming attempt ended.
#[derive(Clone, Copy, Debug, PartialEq, Eq)]
pub enum StreamAttempt {
    /// The reply was received.
    Completed,
    /// The endpoint refused the stream options.
    OptionsRejected,
    /// The attempt failed after `received` answer characters.
    Failed { received: usize },
}

/// What to do after a streaming attempt.
#[derive(Clone, Copy, Debug, PartialEq, Eq)]
pub enum StreamPlan {
    /// Hand the reply back.
    Return,
    /// Stream again without the stream options.
    RetryWithoutOptions,
    /// Make one plain, non-streamed call.
    FallBackToPlain,
    /// Report the failure: part of the answer was already received (and billed).
    Fail,
}

/// The plan after an attempt. A failure after some answer characters is
/// reported, whichever attempt it was: a stream that already delivered
/// (and billed) content is never run again. Otherwise, after the first
/// attempt (made with stream options) a refusal of the options retries
/// without them; any other failure, and any failure of the retry, falls back
/// to a plain call.
pub fn plan_after(first_attempt: bool, attempt: StreamAttempt) -> (p: StreamPlan)
    ensures
        attempt is Completed ==> p == StreamPlan::Return,
        first_attempt && attempt is OptionsRejected ==> p == StreamPlan::RetryWithoutOptions,
        !first_attempt && attempt is OptionsRejected ==> p == StreamPlan::FallBackToPlain,
        (attempt matches StreamAttempt::Failed { received } && received > 0) ==> p == StreamPlan::Fail,
        (attempt matches StreamAttempt::Failed { received } && received == 0) ==> p
            == StreamPlan::FallBackToPlain,
{
    match attempt {
        StreamAttempt::Completed => StreamPlan::Return,
        StreamAttempt::OptionsRejected => if first_attempt {
            StreamPlan::RetryWithoutOptions
        } else {
            StreamPlan::FallBackToPlain
        },
        StreamAttempt::Failed { received } => if received > 0 {
            StreamPlan::Fail
        } else {
            StreamPlan::FallBackToPlain
        },
    }
}

} // verus!
