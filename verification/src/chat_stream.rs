//! Replies of OpenAI's `/chat/completions` protocol, streamed or in one piece.

use vstd::prelude::*;
use vstd::string::StringExecFns;

use crate::error::{DecodeError, ProviderError};
use crate::event_reader::{settled, EventReader, Pick, ReadStep, ReaderState};
use crate::json::{parsed_json, JsonTree};
use crate::message::{
    law_plain_messages_hold_their_text, plain_message, text_of, Message, MessageView, Role, ThinkingView, ToolCall, ToolCallView,
};
use crate::provider::{
    arguments_tree, content_reported, lemma_reported_add, read_arguments, thinking_reported,
    SinkEvent, SinkView,
};
use crate::sse::{event_end, event_read};
use crate::text::same_text;

verus! {

// ---------------------------------------------------------------------------
// Stream chunks
// ---------------------------------------------------------------------------

/// Token counts of an exchange.
#[derive(Debug, Clone, Copy, PartialEq, Eq, Structural)]
pub struct ChatUsage {
    pub prompt_tokens: usize,
    pub total_tokens: usize,
}

/// A fragment of the function of a tool call.
#[derive(Debug)]
pub struct FunctionDelta {
    pub name: Option<String>,
    pub arguments: Option<String>,
}

/// A fragment of the tool call number `index`.
#[derive(Debug)]
pub struct CallDelta {
    pub index: usize,
    pub id: Option<String>,
    pub function: Option<FunctionDelta>,
}

/// What one chunk adds to the reply.
#[derive(Debug)]
pub struct ChunkDelta {
    pub content: String,
    pub reasoning_content: Option<String>,
    pub tool_calls: Vec<CallDelta>,
}

/// One chunk of a streamed reply.
#[derive(Debug)]
pub struct StreamChunk {
    pub usage: Option<ChatUsage>,
    pub choices: Vec<ChunkDelta>,
}

/// The model of a [`FunctionDelta`].
#[verifier::ext_equal]
pub struct FunctionDeltaView {
    pub name: Option<Seq<char>>,
    pub arguments: Option<Seq<char>>,
}

/// The model of a [`CallDelta`].
#[verifier::ext_equal]
pub struct CallDeltaView {
    pub index: usize,
    pub id: Option<Seq<char>>,
    pub function: Option<FunctionDeltaView>,
}

/// The model of a [`ChunkDelta`].
#[verifier::ext_equal]
pub struct ChunkDeltaView {
    pub content: Seq<char>,
    pub reasoning_content: Option<Seq<char>>,
    pub tool_calls: Seq<CallDeltaView>,
}

/// The model of a [`StreamChunk`].
#[verifier::ext_equal]
pub struct ChunkView {
    pub usage: Option<ChatUsage>,
    pub choices: Seq<ChunkDeltaView>,
}

impl DeepView for FunctionDelta {
    type V = FunctionDeltaView;

    open spec fn deep_view(&self) -> FunctionDeltaView {
        FunctionDeltaView { name: self.name.deep_view(), arguments: self.arguments.deep_view() }
    }
}

impl DeepView for CallDelta {
    type V = CallDeltaView;

    open spec fn deep_view(&self) -> CallDeltaView {
        CallDeltaView {
            index: self.index,
            id: self.id.deep_view(),
            function: self.function.deep_view(),
        }
    }
}

impl DeepView for ChunkDelta {
    type V = ChunkDeltaView;

    open spec fn deep_view(&self) -> ChunkDeltaView {
        ChunkDeltaView {
            content: self.content@,
            reasoning_content: self.reasoning_content.deep_view(),
            tool_calls: self.tool_calls.deep_view(),
        }
    }
}

impl DeepView for StreamChunk {
    type V = ChunkView;

    open spec fn deep_view(&self) -> ChunkView {
        ChunkView { usage: self.usage, choices: self.choices.deep_view() }
    }
}

// ---------------------------------------------------------------------------
// The reply as it grows
// ---------------------------------------------------------------------------

/// A tool call as its fragments have made it so far. The arguments are text.
#[derive(Debug)]
pub struct CallText {
    pub id: String,
    pub name: String,
    pub arguments: String,
}

/// The model of a [`CallText`].
#[verifier::ext_equal]
pub struct CallTextView {
    pub id: Seq<char>,
    pub name: Seq<char>,
    pub arguments: Seq<char>,
}

impl DeepView for CallText {
    type V = CallTextView;

    open spec fn deep_view(&self) -> CallTextView {
        CallTextView { id: self.id@, name: self.name@, arguments: self.arguments@ }
    }
}

/// What a reply is made of.
#[derive(Debug)]
pub struct ChatReply {
    pub content: String,
    /// `None` as long as no reasoning field has come, even an empty one.
    pub reasoning_content: Option<String>,
    pub tool_calls: Vec<CallText>,
    pub usage: Option<ChatUsage>,
}

/// The model of a [`ChatReply`].
#[verifier::ext_equal]
pub struct ReplyState {
    pub content: Seq<char>,
    pub reasoning_content: Option<Seq<char>>,
    pub tool_calls: Seq<CallTextView>,
    pub usage: Option<ChatUsage>,
}

impl DeepView for ChatReply {
    type V = ReplyState;

    open spec fn deep_view(&self) -> ReplyState {
        ReplyState {
            content: self.content@,
            reasoning_content: self.reasoning_content.deep_view(),
            tool_calls: self.tool_calls.deep_view(),
            usage: self.usage,
        }
    }
}

/// The reply before the first chunk.
pub open spec fn no_reply() -> ReplyState {
    ReplyState {
        content: Seq::empty(),
        reasoning_content: None,
        tool_calls: Seq::empty(),
        usage: None,
    }
}

/// A tool call of which nothing has come yet.
pub open spec fn blank_call() -> CallTextView {
    CallTextView { id: Seq::empty(), name: Seq::empty(), arguments: Seq::empty() }
}

/// `calls`, with blank ones added behind so that there are at least `n`.
pub open spec fn padded(calls: Seq<CallTextView>, n: int) -> Seq<CallTextView> {
    if calls.len() >= n {
        calls
    } else {
        calls + Seq::new((n - calls.len()) as nat, |i: int| blank_call())
    }
}

/// `part`, or no text.
pub open spec fn or_empty(part: Option<Seq<char>>) -> Seq<char> {
    match part {
        Some(t) => t,
        None => Seq::empty(),
    }
}

/// `call` with a fragment added: an id replaces the id, the parts of the name
/// and of the arguments are appended.
pub open spec fn with_delta(call: CallTextView, d: CallDeltaView) -> CallTextView {
    CallTextView {
        id: match d.id {
            Some(id) => id,
            None => call.id,
        },
        name: match d.function {
            Some(f) => call.name + or_empty(f.name),
            None => call.name,
        },
        arguments: match d.function {
            Some(f) => call.arguments + or_empty(f.arguments),
            None => call.arguments,
        },
    }
}

/// `calls` with one fragment added.
pub open spec fn call_added(calls: Seq<CallTextView>, d: CallDeltaView) -> Seq<CallTextView> {
    let room = padded(calls, d.index + 1);
    room.update(d.index as int, with_delta(room[d.index as int], d))
}

/// `calls` with a run of fragments added.
pub open spec fn calls_added(calls: Seq<CallTextView>, ds: Seq<CallDeltaView>) -> Seq<CallTextView>
    decreases ds.len(),
{
    if ds.len() == 0 {
        calls
    } else {
        call_added(calls_added(calls, ds.drop_last()), ds.last())
    }
}

/// The reply with what one choice of a chunk brings.
pub open spec fn choice_added(s: ReplyState, c: ChunkDeltaView) -> ReplyState {
    ReplyState {
        content: s.content + c.content,
        reasoning_content: match c.reasoning_content {
            Some(t) => Some(or_empty(s.reasoning_content) + t),
            None => s.reasoning_content,
        },
        tool_calls: calls_added(s.tool_calls, c.tool_calls),
        usage: s.usage,
    }
}

/// The reply with what a run of choices brings.
pub open spec fn choices_added(s: ReplyState, cs: Seq<ChunkDeltaView>) -> ReplyState
    decreases cs.len(),
{
    if cs.len() == 0 {
        s
    } else {
        choice_added(choices_added(s, cs.drop_last()), cs.last())
    }
}

/// The reply with one chunk added.
pub open spec fn chunk_added(s: ReplyState, chunk: ChunkView) -> ReplyState {
    choices_added(
        ReplyState {
            usage: match chunk.usage {
                Some(u) => Some(u),
                None => s.usage,
            },
            ..s
        },
        chunk.choices,
    )
}

/// What one choice reports: its reasoning, then its content, where not empty.
pub open spec fn choice_reports(c: ChunkDeltaView) -> Seq<SinkView> {
    (match c.reasoning_content {
        Some(t) if t.len() > 0 => seq![SinkView::Thinking(t)],
        _ => Seq::empty(),
    }) + (if c.content.len() > 0 {
        seq![SinkView::Content(c.content)]
    } else {
        Seq::empty()
    })
}

/// What a run of choices reports.
pub open spec fn choices_report(cs: Seq<ChunkDeltaView>) -> Seq<SinkView>
    decreases cs.len(),
{
    if cs.len() == 0 {
        Seq::empty()
    } else {
        choices_report(cs.drop_last()) + choice_reports(cs.last())
    }
}

/// Whether every tool call index of `c` leaves room for a list that long.
pub open spec fn choice_fits(c: ChunkDeltaView) -> bool {
    forall|i: int| 0 <= i < c.tool_calls.len() ==> (#[trigger] c.tool_calls[i]).index < usize::MAX
}

/// Whether every tool call index of `chunk` leaves room for a list that long.
pub open spec fn chunk_fits(chunk: ChunkView) -> bool {
    forall|i: int| 0 <= i < chunk.choices.len() ==> choice_fits(#[trigger] chunk.choices[i])
}

impl StreamChunk {
    /// Whether every tool call index leaves room for a list that long.
    pub fn fits(&self) -> (r: bool)
        ensures
            r == chunk_fits(self.deep_view()),
    {
        for i in 0..self.choices.len()
            invariant
                forall|k: int| 0 <= k < i ==> choice_fits(#[trigger] self.deep_view().choices[k]),
        {
            let ghost c = self.deep_view().choices[i as int];
            assert(c == self.choices@[i as int].deep_view());
            let calls = &self.choices[i].tool_calls;
            for j in 0..calls.len()
                invariant
                    i < self.choices@.len(),
                    c == self.deep_view().choices[i as int],
                    c.tool_calls == calls.deep_view(),
                    forall|k: int| 0 <= k < j ==> (#[trigger] c.tool_calls[k]).index < usize::MAX,
            {
                assert(c.tool_calls[j as int] == calls@[j as int].deep_view());
                if calls[j].index == usize::MAX {
                    assert(!choice_fits(c));
                    return false;
                }
            }
            assert(choice_fits(c));
        }
        true
    }
}

impl ChatReply {
    /// The reply before the first chunk.
    pub fn new() -> (r: ChatReply)
        ensures
            r.deep_view() == no_reply(),
    {
        let r = ChatReply {
            content: String::new(),
            reasoning_content: None,
            tool_calls: Vec::new(),
            usage: None,
        };
        assert(r.deep_view().tool_calls =~= Seq::empty());
        r
    }

    /// Adds a fragment of a tool call.
    fn add_call(&mut self, d: CallDelta)
        requires
            d.index < usize::MAX,
        ensures
            final(self).deep_view() == (ReplyState {
                tool_calls: call_added(old(self).deep_view().tool_calls, d.deep_view()),
                ..old(self).deep_view()
            }),
    {
        let ghost before = self.deep_view().tool_calls;
        let index = d.index;
        while self.tool_calls.len() <= index
            invariant
                before.len() <= self.tool_calls@.len(),
                before.len() <= index + 1 ==> self.tool_calls@.len() <= index + 1,
                before.len() > index + 1 ==> self.tool_calls@.len() == before.len(),
                self.deep_view() == (ReplyState {
                    tool_calls: padded(before, self.tool_calls@.len() as int),
                    ..old(self).deep_view()
                }),
            decreases index + 1 - self.tool_calls@.len(),
        {
            let ghost n = self.tool_calls@.len() as int;
            self.tool_calls.push(
                CallText { id: String::new(), name: String::new(), arguments: String::new() },
            );
            assert(self.tool_calls.deep_view() =~= padded(before, n).push(blank_call()));
            assert(self.tool_calls.deep_view() =~= padded(before, n + 1));
        }
        let ghost room = self.tool_calls.deep_view();
        assert(room =~= padded(before, index + 1));
        let ghost view = d.deep_view();
        let mut id = self.tool_calls[index].id.clone();
        let mut name = self.tool_calls[index].name.clone();
        let mut arguments = self.tool_calls[index].arguments.clone();
        if let Some(new_id) = d.id {
            id = new_id;
        }
        if let Some(f) = d.function {
            if let Some(part) = f.name {
                name.append(part.as_str());
            } else {
                assert(name@ + Seq::<char>::empty() =~= name@);
            }
            if let Some(part) = f.arguments {
                arguments.append(part.as_str());
            } else {
                assert(arguments@ + Seq::<char>::empty() =~= arguments@);
            }
        }
        let call = CallText { id, name, arguments };
        assert(call.deep_view() == with_delta(room[index as int], view));
        self.tool_calls.set(index, call);
        assert(self.tool_calls.deep_view() =~= room.update(index as int, call.deep_view()));
    }

    /// Adds what one choice of a chunk brings, and appends what it reports.
    fn add_choice(&mut self, c: ChunkDelta, reports: &mut Vec<SinkEvent>)
        requires
            choice_fits(c.deep_view()),
        ensures
            final(self).deep_view() == choice_added(old(self).deep_view(), c.deep_view()),
            final(reports).deep_view() == old(reports).deep_view() + choice_reports(c.deep_view()),
    {
        let ghost view = c.deep_view();
        let ghost reported = reports.deep_view();
        let ghost thought = match view.reasoning_content {
            Some(t) if t.len() > 0 => seq![SinkView::Thinking(t)],
            _ => Seq::<SinkView>::empty(),
        };
        if let Some(part) = c.reasoning_content {
            let mut text = match &self.reasoning_content {
                Some(t) => t.clone(),
                None => String::new(),
            };
            text.append(part.as_str());
            self.reasoning_content = Some(text);
            if !part.as_str().is_empty() {
                reports.push(SinkEvent::Thinking(part));
            }
        }
        assert(reports.deep_view() =~= reported + thought);
        self.content.append(c.content.as_str());
        if !c.content.as_str().is_empty() {
            reports.push(SinkEvent::Content(c.content));
        }
        assert(reports.deep_view() =~= reported + choice_reports(view));
        let ghost start = self.deep_view();
        let ghost ds = view.tool_calls;
        let ghost parts = c.tool_calls@;
        assert(calls_added(start.tool_calls, ds.take(0)) == start.tool_calls);
        for d in it: c.tool_calls
            invariant
                it.seq() == parts,
                ds == view.tool_calls,
                ds.len() == parts.len(),
                forall|k: int| 0 <= k < ds.len() ==> ds[k] == (#[trigger] parts[k]).deep_view(),
                choice_fits(view),
                self.deep_view() == (ReplyState {
                    tool_calls: calls_added(start.tool_calls, ds.take(it.index())),
                    ..start
                }),
        {
            let ghost k = it.index();
            assert(parts[k] == d);
            assert(ds[k].index < usize::MAX);
            assert(ds.take(k + 1).drop_last() =~= ds.take(k));
            assert(ds.take(k + 1).last() == d.deep_view());
            self.add_call(d);
        }
        assert(ds.take(ds.len() as int) =~= ds);
    }

    /// Adds one chunk, and returns what it reports.
    pub fn add_chunk(&mut self, chunk: StreamChunk) -> (r: Vec<SinkEvent>)
        requires
            chunk_fits(chunk.deep_view()),
        ensures
            final(self).deep_view() == chunk_added(old(self).deep_view(), chunk.deep_view()),
            r.deep_view() == choices_report(chunk.deep_view().choices),
    {
        let ghost view = chunk.deep_view();
        if let Some(u) = chunk.usage {
            self.usage = Some(u);
        }
        let ghost start = self.deep_view();
        let ghost cs = view.choices;
        let ghost parts = chunk.choices@;
        let mut reports: Vec<SinkEvent> = Vec::new();
        assert(reports.deep_view() =~= choices_report(cs.take(0)));
        assert(choices_added(start, cs.take(0)) == start);
        for c in it: chunk.choices
            invariant
                it.seq() == parts,
                cs == view.choices,
                cs.len() == parts.len(),
                forall|k: int| 0 <= k < cs.len() ==> cs[k] == (#[trigger] parts[k]).deep_view(),
                chunk_fits(view),
                self.deep_view() == choices_added(start, cs.take(it.index())),
                reports.deep_view() == choices_report(cs.take(it.index())),
        {
            let ghost k = it.index();
            assert(parts[k] == c);
            assert(choice_fits(cs[k]));
            assert(cs.take(k + 1).drop_last() =~= cs.take(k));
            assert(cs.take(k + 1).last() == c.deep_view());
            self.add_choice(c, &mut reports);
        }
        assert(cs.take(cs.len() as int) =~= cs);
        reports
    }
}

// ---------------------------------------------------------------------------
// The finished reply
// ---------------------------------------------------------------------------

/// The tool calls up to the first whose arguments are no JSON.
pub open spec fn calls_read(calls: Seq<CallTextView>) -> Seq<ToolCallView>
    decreases calls.len(),
{
    if calls.len() == 0 {
        Seq::empty()
    } else {
        match arguments_tree(calls.first().arguments) {
            None => Seq::empty(),
            Some(arguments) => seq![
                ToolCallView { id: calls.first().id, name: calls.first().name, arguments },
            ] + calls_read(calls.drop_first()),
        }
    }
}

/// Whether the arguments of every call are JSON.
pub open spec fn all_readable(calls: Seq<CallTextView>) -> bool {
    forall|i: int| 0 <= i < calls.len() ==> arguments_tree((#[trigger] calls[i]).arguments) is Some
}

/// The message that a finished reply stands for.
pub open spec fn reply_message(s: ReplyState) -> MessageView {
    MessageView {
        thinking_content: match s.reasoning_content {
            Some(text) => seq![ThinkingView { text, signature: None }],
            None => Seq::empty(),
        },
        tool_calls: calls_read(s.tool_calls),
        token_count: match s.usage {
            Some(u) => Some(u.total_tokens),
            None => None,
        },
        context_tokens: match s.usage {
            Some(u) => Some(u.prompt_tokens),
            None => None,
        },
        ..plain_message(Role::Assistant, s.content)
    }
}

/// The end of a reply.
#[derive(Debug)]
pub struct ChatEnd {
    /// The tool calls to report, in order, before the reply counts.
    pub calls: Vec<ToolCall>,
    pub reply: Result<Message, ProviderError>,
}

impl ChatReply {
    /// Reads the tool calls and makes the message.
    ///
    /// Where the arguments of a call are no JSON the reply is an error; the calls
    /// before it are reported all the same.
    pub fn finish(self) -> (r: ChatEnd)
        ensures
            r.calls.deep_view() == calls_read(self.deep_view().tool_calls),
            r.reply is Ok <==> all_readable(self.deep_view().tool_calls),
            r.reply matches Ok(m) ==> m.deep_view() == reply_message(self.deep_view()),
            r.reply matches Err(e) ==> e matches ProviderError::Decode(DecodeError::Json(_)),
    {
        let ghost state = self.deep_view();
        let ghost all = state.tool_calls;
        let mut calls: Vec<ToolCall> = Vec::new();
        let ghost texts = self.tool_calls@;
        assert(all.skip(0) =~= all);
        assert(calls.deep_view() + calls_read(all.skip(0)) =~= calls_read(all));
        for i in 0..self.tool_calls.len()
            invariant
                all == self.tool_calls.deep_view(),
                calls.deep_view() + calls_read(all.skip(i as int)) == calls_read(all),
                forall|k: int|
                    0 <= k < i ==> arguments_tree((#[trigger] all[k]).arguments) is Some,
        {
            let ghost rest = all.skip(i as int);
            let ghost before = calls.deep_view();
            let text = &self.tool_calls[i];
            assert(rest.first() == text.deep_view());
            assert(rest.drop_first() =~= all.skip(i + 1));
            match read_arguments(text.arguments.as_str()) {
                Ok(arguments) => {
                    let call = ToolCall {
                        id: text.id.clone(),
                        name: text.name.clone(),
                        arguments,
                    };
                    calls.push(call);
                    assert(calls.deep_view() =~= before.push(call.deep_view()));
                    assert(calls.deep_view() + calls_read(all.skip(i + 1)) =~= before + calls_read(
                        rest,
                    ));
                },
                Err(e) => {
                    assert(arguments_tree(all[i as int].arguments) is None);
                    assert(calls.deep_view() =~= before + calls_read(rest));
                    return ChatEnd {
                        calls,
                        reply: Err(ProviderError::Decode(DecodeError::Json(e))),
                    };
                },
            }
        }
        assert(calls.deep_view() =~= calls.deep_view() + calls_read(all.skip(all.len() as int)));
        let tool_calls = calls.clone();
        assert(tool_calls.deep_view() =~= calls.deep_view());
        let mut reply = Message::assistant(self.content.as_str());
        reply.tool_calls = tool_calls;
        if let Some(u) = self.usage {
            reply.token_count = Some(u.total_tokens);
            reply.context_tokens = Some(u.prompt_tokens);
        }
        if let Some(text) = self.reasoning_content {
            reply.set_reasoning_content(text);
        }
        assert(reply.deep_view() =~= reply_message(state));
        ChatEnd { calls, reply: Ok(reply) }
    }
}

/// A message as a reply that comes in one piece holds it.
#[derive(Debug)]
pub struct ChatMessage {
    pub content: String,
    pub reasoning_content: Option<String>,
    pub tool_calls: Vec<CallText>,
}

/// A reply that comes in one piece.
#[derive(Debug)]
pub struct ChatResponse {
    pub choices: Vec<ChatMessage>,
    pub usage: Option<ChatUsage>,
}

/// The state that the first choice of `response` amounts to.
pub open spec fn response_state(response: ChatResponse) -> ReplyState {
    let choice = response.choices@.first();
    ReplyState {
        content: choice.content@,
        reasoning_content: choice.reasoning_content.deep_view(),
        tool_calls: choice.tool_calls.deep_view(),
        usage: response.usage,
    }
}

/// Makes the message of a reply that comes in one piece: that of its first
/// choice.
pub fn read_response(response: ChatResponse) -> (r: Result<Message, ProviderError>)
    ensures
        r is Ok <==> response.choices@.len() > 0 && all_readable(
            response_state(response).tool_calls,
        ),
        r matches Ok(m) ==> m.deep_view() == reply_message(response_state(response)),
        r matches Err(e) ==> if response.choices@.len() == 0 {
            e is EmptyResponse
        } else {
            e matches ProviderError::Decode(DecodeError::Json(_))
        },
{
    let mut choices = response.choices;
    if choices.len() == 0 {
        return Err(ProviderError::EmptyResponse);
    }
    let choice = choices.remove(0);
    let reply = ChatReply {
        content: choice.content,
        reasoning_content: choice.reasoning_content,
        tool_calls: choice.tool_calls,
        usage: response.usage,
    };
    assert(reply.deep_view() =~= response_state(response));
    reply.finish().reply
}

// ---------------------------------------------------------------------------
// The stream
// ---------------------------------------------------------------------------

/// What reading the stream on gives.
#[derive(Debug)]
pub enum ChatStep {
    /// More bytes are needed.
    NeedMore,
    /// The text of the next chunk.
    Chunk(String),
    /// The stream has said that it is over.
    Done,
    /// The stream cannot be read.
    Failed(ProviderError),
}

/// A reply that is being streamed.
#[derive(Debug)]
pub struct ChatStream {
    pub reader: EventReader,
    pub reply: ChatReply,
    pub done: bool,
}

impl ChatStream {
    /// A stream of which nothing has come.
    pub fn new() -> (r: ChatStream)
        ensures
            r.reader.deep_view() == (ReaderState {
                buffer: Seq::empty(),
                pending: Seq::empty(),
                pick: Pick::Every,
            }),
            r.reply.deep_view() == no_reply(),
            !r.done,
    {
        ChatStream { reader: EventReader::new(Pick::Every), reply: ChatReply::new(), done: false }
    }

    /// Takes bytes that have arrived.
    pub fn push_bytes(&mut self, bytes: &[u8])
        ensures
            final(self).reader.deep_view() == (ReaderState {
                buffer: old(self).reader.buffer@ + bytes@,
                ..old(self).reader.deep_view()
            }),
            final(self).reply == old(self).reply,
            final(self).done == old(self).done,
    {
        self.reader.push_bytes(bytes);
    }

    /// Reads on to the next chunk. A `[DONE]` payload ends the stream: nothing
    /// behind it is read.
    pub fn next_chunk(&mut self) -> (r: ChatStep)
        ensures
            final(self).reply == old(self).reply,
            old(self).done ==> r is Done && *final(self) == *old(self),
            !old(self).done ==> {
                let s = settled(old(self).reader.deep_view());
                if s.pending.len() > 0 {
                    &&& final(self).reader.deep_view() == (ReaderState {
                        pending: s.pending.drop_first(),
                        ..s
                    })
                    &&& final(self).done == (s.pending.first() == "[DONE]"@)
                    &&& if s.pending.first() == "[DONE]"@ {
                        r is Done
                    } else {
                        r matches ChatStep::Chunk(t) && t@ == s.pending.first()
                    }
                } else {
                    &&& !final(self).done
                    &&& match event_end(s.buffer) {
                        None => r is NeedMore && final(self).reader.deep_view() == s,
                        Some(e) => {
                            &&& r matches ChatStep::Failed(error) && event_read(
                                s.buffer.take(e),
                                Err(error),
                            )
                            &&& final(self).reader.deep_view() == (ReaderState {
                                buffer: s.buffer.skip(e),
                                ..s
                            })
                        },
                    }
                }
            },
    {
        if self.done {
            return ChatStep::Done;
        }
        match self.reader.next_payload() {
            ReadStep::NeedMore => ChatStep::NeedMore,
            ReadStep::Failed(error) => ChatStep::Failed(error),
            ReadStep::Payload(data) => {
                if same_text(data.as_str(), "[DONE]") {
                    self.done = true;
                    ChatStep::Done
                } else {
                    ChatStep::Chunk(data)
                }
            },
        }
    }

    /// Adds a chunk, and returns what it reports.
    pub fn add_chunk(&mut self, chunk: StreamChunk) -> (r: Vec<SinkEvent>)
        requires
            chunk_fits(chunk.deep_view()),
        ensures
            final(self).reply.deep_view() == chunk_added(
                old(self).reply.deep_view(),
                chunk.deep_view(),
            ),
            r.deep_view() == choices_report(chunk.deep_view().choices),
            final(self).reader == old(self).reader,
            final(self).done == old(self).done,
    {
        self.reply.add_chunk(chunk)
    }
}

// ---------------------------------------------------------------------------
// Laws
// ---------------------------------------------------------------------------

/// The reply after a run of chunks.
pub open spec fn after_chunks(run: Seq<ChunkView>) -> ReplyState
    decreases run.len(),
{
    if run.len() == 0 {
        no_reply()
    } else {
        chunk_added(after_chunks(run.drop_last()), run.last())
    }
}

/// What a run of chunks reports.
pub open spec fn chunks_report(run: Seq<ChunkView>) -> Seq<SinkView>
    decreases run.len(),
{
    if run.len() == 0 {
        Seq::empty()
    } else {
        chunks_report(run.drop_last()) + choices_report(run.last().choices)
    }
}

proof fn lemma_choice_reports(c: ChunkDeltaView)
    ensures
        content_reported(choice_reports(c)) == c.content,
        thinking_reported(choice_reports(c)) == or_empty(c.reasoning_content),
{
    let thought = match c.reasoning_content {
        Some(t) if t.len() > 0 => seq![SinkView::Thinking(t)],
        _ => Seq::<SinkView>::empty(),
    };
    let said = if c.content.len() > 0 {
        seq![SinkView::Content(c.content)]
    } else {
        Seq::<SinkView>::empty()
    };
    lemma_reported_add(thought, said);
    lemma_single_report(thought);
    lemma_single_report(said);
    assert(content_reported(choice_reports(c)) =~= c.content);
    assert(thinking_reported(choice_reports(c)) =~= or_empty(c.reasoning_content));
}

proof fn lemma_single_report(run: Seq<SinkView>)
    requires
        run.len() <= 1,
    ensures
        content_reported(run) == (if run.len() == 1 && run[0] is Content {
            run[0]->Content_0
        } else {
            Seq::empty()
        }),
        thinking_reported(run) == (if run.len() == 1 && run[0] is Thinking {
            run[0]->Thinking_0
        } else {
            Seq::empty()
        }),
{
    if run.len() == 1 {
        assert(run.drop_last() =~= Seq::empty());
        assert(content_reported(run.drop_last()) =~= Seq::empty());
        assert(thinking_reported(run.drop_last()) =~= Seq::empty());
        assert(Seq::<char>::empty() + run[0]->Content_0 =~= run[0]->Content_0);
        assert(Seq::<char>::empty() + run[0]->Thinking_0 =~= run[0]->Thinking_0);
    }
}

proof fn lemma_choices_report(s: ReplyState, cs: Seq<ChunkDeltaView>)
    ensures
        choices_added(s, cs).content == s.content + content_reported(choices_report(cs)),
        or_empty(choices_added(s, cs).reasoning_content) == or_empty(s.reasoning_content)
            + thinking_reported(choices_report(cs)),
    decreases cs.len(),
{
    if cs.len() == 0 {
        assert(s.content + content_reported(choices_report(cs)) =~= s.content);
        assert(or_empty(s.reasoning_content) + thinking_reported(choices_report(cs)) =~= or_empty(
            s.reasoning_content,
        ));
    } else {
        lemma_choices_report(s, cs.drop_last());
        lemma_choice_reports(cs.last());
        lemma_reported_add(choices_report(cs.drop_last()), choice_reports(cs.last()));
        assert(choices_added(s, cs).content =~= s.content + content_reported(choices_report(cs)));
        assert(or_empty(choices_added(s, cs).reasoning_content) =~= or_empty(s.reasoning_content)
            + thinking_reported(choices_report(cs)));
    }
}

/// What a stream reports piece by piece adds up to what the reply holds, for the
/// content and for the reasoning.
pub proof fn law_reports_add_up_to_the_reply(run: Seq<ChunkView>)
    ensures
        after_chunks(run).content == content_reported(chunks_report(run)),
        or_empty(after_chunks(run).reasoning_content) == thinking_reported(chunks_report(run)),
    decreases run.len(),
{
    if run.len() > 0 {
        let before = run.drop_last();
        law_reports_add_up_to_the_reply(before);
        let start = ReplyState {
            usage: match run.last().usage {
                Some(u) => Some(u),
                None => after_chunks(before).usage,
            },
            ..after_chunks(before)
        };
        lemma_choices_report(start, run.last().choices);
        lemma_reported_add(chunks_report(before), choices_report(run.last().choices));
    }
}

/// The parts of the name of tool call `index` in a run of fragments, put together.
pub open spec fn name_sent(ds: Seq<CallDeltaView>, index: int) -> Seq<char>
    decreases ds.len(),
{
    if ds.len() == 0 {
        Seq::empty()
    } else {
        let before = name_sent(ds.drop_last(), index);
        match ds.last().function {
            Some(f) if ds.last().index == index => before + or_empty(f.name),
            _ => before,
        }
    }
}

/// The parts of the arguments of tool call `index` in a run of fragments, put
/// together.
pub open spec fn arguments_sent(ds: Seq<CallDeltaView>, index: int) -> Seq<char>
    decreases ds.len(),
{
    if ds.len() == 0 {
        Seq::empty()
    } else {
        let before = arguments_sent(ds.drop_last(), index);
        match ds.last().function {
            Some(f) if ds.last().index == index => before + or_empty(f.arguments),
            _ => before,
        }
    }
}

/// The last id given for tool call `index`, or none.
pub open spec fn id_sent(ds: Seq<CallDeltaView>, index: int) -> Seq<char>
    decreases ds.len(),
{
    if ds.len() == 0 {
        Seq::empty()
    } else {
        match ds.last().id {
            Some(id) if ds.last().index == index => id,
            _ => id_sent(ds.drop_last(), index),
        }
    }
}

/// The name and the arguments of a tool call are all its fragments in the order in
/// which they came, whatever fragments of other calls came between them, and its id
/// is the last one given.
pub proof fn law_call_fragments_are_put_together(ds: Seq<CallDeltaView>, index: int)
    requires
        0 <= index < calls_added(Seq::empty(), ds).len(),
    ensures
        calls_added(Seq::empty(), ds)[index].name == name_sent(ds, index),
        calls_added(Seq::empty(), ds)[index].arguments == arguments_sent(ds, index),
        calls_added(Seq::empty(), ds)[index].id == id_sent(ds, index),
    decreases ds.len(),
{
    lemma_unsent(ds, index);
    if ds.len() > 0 {
        let before = calls_added(Seq::empty(), ds.drop_last());
        let d = ds.last();
        let room = padded(before, d.index + 1);
        if index < before.len() {
            law_call_fragments_are_put_together(ds.drop_last(), index);
            assert(room[index] == before[index]);
        } else {
            lemma_unsent(ds.drop_last(), index);
            assert(room[index] == blank_call());
        }
        assert(calls_added(Seq::empty(), ds) == room.update(
            d.index as int,
            with_delta(room[d.index as int], d),
        ));
    }
}

proof fn lemma_unsent(ds: Seq<CallDeltaView>, index: int)
    ensures
        index >= calls_added(Seq::empty(), ds).len() ==> {
            &&& name_sent(ds, index) == Seq::<char>::empty()
            &&& arguments_sent(ds, index) == Seq::<char>::empty()
            &&& id_sent(ds, index) == Seq::<char>::empty()
        },
    decreases ds.len(),
{
    if ds.len() > 0 {
        lemma_unsent(ds.drop_last(), index);
    }
}

/// The fragments that a run of choices brings.
pub open spec fn choices_deltas(cs: Seq<ChunkDeltaView>) -> Seq<CallDeltaView>
    decreases cs.len(),
{
    if cs.len() == 0 {
        Seq::empty()
    } else {
        choices_deltas(cs.drop_last()) + cs.last().tool_calls
    }
}

/// The fragments that a run of chunks brings.
pub open spec fn run_deltas(run: Seq<ChunkView>) -> Seq<CallDeltaView>
    decreases run.len(),
{
    if run.len() == 0 {
        Seq::empty()
    } else {
        run_deltas(run.drop_last()) + choices_deltas(run.last().choices)
    }
}

proof fn lemma_calls_added_add(calls: Seq<CallTextView>, a: Seq<CallDeltaView>, b: Seq<CallDeltaView>)
    ensures
        calls_added(calls, a + b) == calls_added(calls_added(calls, a), b),
    decreases b.len(),
{
    if b.len() == 0 {
        assert(a + b =~= a);
    } else {
        assert((a + b).drop_last() =~= a + b.drop_last());
        lemma_calls_added_add(calls, a, b.drop_last());
    }
}

proof fn lemma_choices_calls(s: ReplyState, cs: Seq<ChunkDeltaView>)
    ensures
        choices_added(s, cs).tool_calls == calls_added(s.tool_calls, choices_deltas(cs)),
        choices_added(s, cs).usage == s.usage,
    decreases cs.len(),
{
    if cs.len() > 0 {
        lemma_choices_calls(s, cs.drop_last());
        lemma_calls_added_add(s.tool_calls, choices_deltas(cs.drop_last()), cs.last().tool_calls);
    }
}

/// The tool calls of a streamed reply are those that all its fragments make, in
/// the order in which they came, however they were spread over the chunks.
pub proof fn law_calls_do_not_depend_on_chunks(run: Seq<ChunkView>)
    ensures
        after_chunks(run).tool_calls == calls_added(Seq::empty(), run_deltas(run)),
    decreases run.len(),
{
    if run.len() > 0 {
        let before = run.drop_last();
        law_calls_do_not_depend_on_chunks(before);
        let start = ReplyState {
            usage: match run.last().usage {
                Some(u) => Some(u),
                None => after_chunks(before).usage,
            },
            ..after_chunks(before)
        };
        lemma_choices_calls(start, run.last().choices);
        lemma_calls_added_add(
            Seq::empty(),
            run_deltas(before),
            choices_deltas(run.last().choices),
        );
    }
}

/// The content that a run of chunks sends.
pub open spec fn content_sent(cs: Seq<ChunkDeltaView>) -> Seq<char>
    decreases cs.len(),
{
    if cs.len() == 0 {
        Seq::empty()
    } else {
        content_sent(cs.drop_last()) + cs.last().content
    }
}

/// The reasoning that a run of chunks sends, if any of them has a field for it.
pub open spec fn reasoning_sent(cs: Seq<ChunkDeltaView>) -> Option<Seq<char>>
    decreases cs.len(),
{
    if cs.len() == 0 {
        None
    } else {
        match (reasoning_sent(cs.drop_last()), cs.last().reasoning_content) {
            (Some(a), Some(b)) => Some(a + b),
            (None, Some(b)) => Some(b),
            (a, None) => a,
        }
    }
}

/// The choices of a run of chunks.
pub open spec fn choices_sent(run: Seq<ChunkView>) -> Seq<ChunkDeltaView>
    decreases run.len(),
{
    if run.len() == 0 {
        Seq::empty()
    } else {
        choices_sent(run.drop_last()) + run.last().choices
    }
}

proof fn lemma_sent_add(a: Seq<ChunkDeltaView>, b: Seq<ChunkDeltaView>, s: ReplyState)
    requires
        s.content == content_sent(a),
        s.reasoning_content == reasoning_sent(a),
    ensures
        choices_added(s, b).content == content_sent(a + b),
        choices_added(s, b).reasoning_content == reasoning_sent(a + b),
    decreases b.len(),
{
    if b.len() == 0 {
        assert(a + b =~= a);
    } else {
        lemma_sent_add(a, b.drop_last(), s);
        assert((a + b).drop_last() =~= a + b.drop_last());
        let before = choices_added(s, b.drop_last());
        if let Some(t) = b.last().reasoning_content {
            if before.reasoning_content is None {
                assert(Seq::<char>::empty() + t =~= t);
            }
        }
    }
}

/// A streamed reply holds all the content and all the reasoning that was sent, in
/// order; it holds no reasoning exactly if no field for it was sent; and its usage is
/// the last that was sent.
pub proof fn law_a_reply_holds_what_was_sent(run: Seq<ChunkView>)
    ensures
        after_chunks(run).content == content_sent(choices_sent(run)),
        after_chunks(run).reasoning_content == reasoning_sent(choices_sent(run)),
        after_chunks(run).usage == last_usage(run),
    decreases run.len(),
{
    if run.len() > 0 {
        let before = run.drop_last();
        law_a_reply_holds_what_was_sent(before);
        let start = ReplyState {
            usage: match run.last().usage {
                Some(u) => Some(u),
                None => after_chunks(before).usage,
            },
            ..after_chunks(before)
        };
        lemma_sent_add(choices_sent(before), run.last().choices, start);
        lemma_choices_calls(start, run.last().choices);
    }
}

/// The last usage that a run of chunks sends.
pub open spec fn last_usage(run: Seq<ChunkView>) -> Option<ChatUsage>
    decreases run.len(),
{
    if run.len() == 0 {
        None
    } else if run.last().usage is Some {
        run.last().usage
    } else {
        last_usage(run.drop_last())
    }
}

/// A choice is reported as it came: its reasoning, if there is some, and then its
/// content, if there is some; choices one after the other are reported one after the
/// other.
pub proof fn law_choices_are_reported_as_they_came(c: ChunkDeltaView, cs: Seq<ChunkDeltaView>)
    ensures
        ({
            let thinks = c.reasoning_content is Some && c.reasoning_content->0.len() > 0;
            let says = c.content.len() > 0;
            let r = choice_reports(c);
            &&& r.len() == (if thinks {
                1int
            } else {
                0
            }) + (if says {
                1int
            } else {
                0
            })
            &&& thinks ==> r[0] == SinkView::Thinking(c.reasoning_content->0)
            &&& says ==> r.last() == SinkView::Content(c.content)
        }),
        choices_report(cs.push(c)) == choices_report(cs) + choice_reports(c),
        choices_report(Seq::empty()).len() == 0,
{
    assert(cs.push(c).drop_last() =~= cs);
}

/// The calls of a finished reply are those that were put together, each with its id, its
/// name and its arguments read as JSON, in order, up to the first whose arguments are
/// no JSON.
pub proof fn law_calls_are_read_as_they_are(calls: Seq<CallTextView>)
    ensures
        ({
            let n = calls_read(calls).len() as int;
            &&& n <= calls.len()
            &&& n < calls.len() ==> calls[n].arguments.len() > 0 && parsed_json(
                calls[n].arguments,
            ) is None
            &&& forall|k: int|
                0 <= k < n ==> {
                    let call = #[trigger] calls_read(calls)[k];
                    &&& call.id == calls[k].id
                    &&& call.name == calls[k].name
                    &&& calls[k].arguments.len() == 0 ==> call.arguments == JsonTree::Object(
                        Seq::empty(),
                    )
                    &&& calls[k].arguments.len() > 0 ==> parsed_json(calls[k].arguments) == Some(
                        call.arguments,
                    )
                }
        }),
        all_readable(calls) <==> forall|k: int|
            0 <= k < calls.len() ==> (#[trigger] calls[k]).arguments.len() == 0 || parsed_json(
                calls[k].arguments,
            ) is Some,
    decreases calls.len(),
{
    if calls.len() > 0 {
        let rest = calls.drop_first();
        law_calls_are_read_as_they_are(rest);
        if arguments_tree(calls.first().arguments) is Some {
            let all = calls_read(calls);
            let tail = calls_read(rest);
            assert forall|k: int| 0 <= k < all.len() implies {
                let call = #[trigger] all[k];
                &&& call.id == calls[k].id
                &&& call.name == calls[k].name
                &&& calls[k].arguments.len() == 0 ==> call.arguments == JsonTree::Object(
                    Seq::empty(),
                )
                &&& calls[k].arguments.len() > 0 ==> parsed_json(calls[k].arguments) == Some(
                    call.arguments,
                )
            } by {
                if k > 0 {
                    assert(all[k] == tail[k - 1]);
                    assert(calls[k] == rest[k - 1]);
                }
            }
            let n = tail.len() as int;
            if n < rest.len() {
                assert(rest[n] == calls[n + 1]);
            }
        }
    }
    assert forall|k: int| 0 <= k < calls.len() implies (arguments_tree(
        (#[trigger] calls[k]).arguments,
    ) is Some <==> calls[k].arguments.len() == 0 || parsed_json(calls[k].arguments) is Some) by {}
}

/// A finished reply is a message of the assistant with the content, the reasoning, the
/// calls and the counts of the reply, and nothing else.
pub proof fn law_replies_are_assistant_messages(s: ReplyState)
    ensures
        ({
            let m = reply_message(s);
            &&& m.role == Role::Assistant
            &&& text_of(m.content) == s.content
            &&& m.content.len() == 1
            &&& m.tool_calls == calls_read(s.tool_calls)
            &&& s.reasoning_content is None ==> m.thinking_content.len() == 0
            &&& s.reasoning_content is Some ==> m.thinking_content.len() == 1
                && m.thinking_content[0].text == s.reasoning_content->0
                && m.thinking_content[0].signature is None
            &&& m.tool_call_id is None
            &&& !m.compacted
            &&& s.usage is None ==> m.token_count is None && m.context_tokens is None
            &&& s.usage matches Some(u) ==> m.token_count == Some(u.total_tokens)
                && m.context_tokens == Some(u.prompt_tokens)
        }),
{
    law_plain_messages_hold_their_text(Role::Assistant, s.content);
}

/// A reply in one piece is read from its first choice and its usage.
pub proof fn law_the_first_choice_is_read(response: ChatResponse)
    requires
        response.choices@.len() > 0,
    ensures
        response_state(response).content == response.choices@[0].content@,
        response_state(response).reasoning_content
            == response.choices@[0].reasoning_content.deep_view(),
        response_state(response).tool_calls == response.choices@[0].tool_calls.deep_view(),
        response_state(response).usage == response.usage,
{
}

/// The fragments of one call leave every other call as it is; where they name an index
/// further on than there are calls, the ones between are without id, name and
/// arguments.
pub proof fn law_a_fragment_leaves_the_others(
    calls: Seq<CallTextView>,
    d: CallDeltaView,
    other: int,
)
    requires
        0 <= other,
        other != d.index,
    ensures
        ({
            let after = call_added(calls, d);
            &&& after.len() == if d.index < calls.len() {
                calls.len() as int
            } else {
                d.index + 1
            }
            &&& other < calls.len() ==> after[other] == calls[other]
            &&& calls.len() <= other < d.index ==> after[other].id.len() == 0
                && after[other].name.len() == 0 && after[other].arguments.len() == 0
        }),
{
}

/// A missing part adds nothing, and a part adds itself.
pub proof fn law_missing_parts_are_empty(t: Seq<char>)
    ensures
        or_empty(None) == Seq::<char>::empty(),
        or_empty(Some(t)) == t,
        no_reply().content.len() == 0,
        no_reply().reasoning_content is None,
        no_reply().tool_calls.len() == 0,
        no_reply().usage is None,
{
}

/// The models of what a stream sends tell its fields apart.
pub proof fn law_models_of_chunks_hold_the_fields(
    f: FunctionDelta,
    c: CallDelta,
    d: ChunkDelta,
    s: StreamChunk,
    t: CallText,
    r: ChatReply,
)
    ensures
        f.deep_view().name == f.name.deep_view(),
        f.deep_view().arguments == f.arguments.deep_view(),
        c.deep_view().index == c.index,
        c.deep_view().id == c.id.deep_view(),
        c.deep_view().function == c.function.deep_view(),
        d.deep_view().content == d.content@,
        d.deep_view().reasoning_content == d.reasoning_content.deep_view(),
        d.deep_view().tool_calls == d.tool_calls.deep_view(),
        s.deep_view().usage == s.usage,
        s.deep_view().choices == s.choices.deep_view(),
        t.deep_view().id == t.id@,
        t.deep_view().name == t.name@,
        t.deep_view().arguments == t.arguments@,
        r.deep_view().content == r.content@,
        r.deep_view().reasoning_content == r.reasoning_content.deep_view(),
        r.deep_view().tool_calls == r.tool_calls.deep_view(),
        r.deep_view().usage == r.usage,
{
}

/// Every chunk fits but one with a call at the last index there is, behind which a list
/// cannot end.
pub proof fn law_only_the_last_index_is_too_far(chunk: ChunkView, i: int, j: int)
    ensures
        0 <= i < chunk.choices.len() && 0 <= j < chunk.choices[i].tool_calls.len()
            && chunk.choices[i].tool_calls[j].index == usize::MAX ==> !chunk_fits(chunk),
        (forall|k: int, l: int|
            0 <= k < chunk.choices.len() && 0 <= l < chunk.choices[k].tool_calls.len()
                ==> (#[trigger] chunk.choices[k].tool_calls[l]).index != usize::MAX)
            ==> chunk_fits(chunk),
{
    if 0 <= i < chunk.choices.len() && 0 <= j < chunk.choices[i].tool_calls.len()
        && chunk.choices[i].tool_calls[j].index == usize::MAX {
        assert(!choice_fits(chunk.choices[i]));
    }
}

} // verus!
