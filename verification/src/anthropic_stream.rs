//! Streamed replies of Anthropic's `/messages` protocol.

use vstd::prelude::*;
use vstd::string::StringExecFns;

use crate::error::{DecodeError, ProviderError};
use crate::event_reader::{settled, EventReader, Pick, ReadStep, ReaderState};
use crate::json::{parsed_json, Json, JsonTree};
use crate::lists::{lemma_picks_last, picks};
use crate::message::{ToolCall, ToolCallView};
use crate::provider::{arguments_tree, read_arguments, SinkEvent, SinkView};
use crate::sse::{event_end, event_read};

verus! {

// ---------------------------------------------------------------------------
// Stream events
// ---------------------------------------------------------------------------

/// Token counts of an exchange.
#[derive(Debug, Clone, Copy, PartialEq, Eq, Structural)]
pub struct Usage {
    pub input_tokens: Option<usize>,
    pub output_tokens: Option<usize>,
}

/// What kind of block begins.
#[derive(Debug)]
pub enum BlockStart {
    Text,
    ToolUse { id: String, name: String },
    ServerToolUse { id: String, name: String },
    Thinking,
    RedactedThinking,
    Unknown,
}

/// What is added to a block.
#[derive(Debug)]
pub enum StreamDelta {
    TextDelta { text: String },
    InputJsonDelta { partial_json: String },
    ThinkingDelta { thinking: String },
    SignatureDelta { signature: String },
    Other,
}

/// One event of a streamed reply.
#[derive(Debug)]
pub enum StreamEvent {
    MessageStart { usage: Option<Usage> },
    ContentBlockStart { index: usize, content_block: BlockStart },
    ContentBlockDelta { index: usize, delta: StreamDelta },
    ContentBlockStop { index: usize },
    MessageDelta { usage: Option<Usage> },
    MessageStop,
    Error { error_type: String, message: String },
    Ping,
}

/// The model of a [`BlockStart`].
#[verifier::ext_equal]
pub enum StartView {
    Text,
    ToolUse { id: Seq<char>, name: Seq<char> },
    ServerToolUse { id: Seq<char>, name: Seq<char> },
    Thinking,
    RedactedThinking,
    Unknown,
}

/// The model of a [`StreamDelta`].
#[verifier::ext_equal]
pub enum DeltaView {
    TextDelta { text: Seq<char> },
    InputJsonDelta { partial_json: Seq<char> },
    ThinkingDelta { thinking: Seq<char> },
    SignatureDelta { signature: Seq<char> },
    Other,
}

/// The model of a [`StreamEvent`].
#[verifier::ext_equal]
pub enum EventView {
    MessageStart { usage: Option<Usage> },
    ContentBlockStart { index: usize, content_block: StartView },
    ContentBlockDelta { index: usize, delta: DeltaView },
    ContentBlockStop { index: usize },
    MessageDelta { usage: Option<Usage> },
    MessageStop,
    Error { error_type: Seq<char>, message: Seq<char> },
    Ping,
}

impl DeepView for BlockStart {
    type V = StartView;

    open spec fn deep_view(&self) -> StartView {
        match *self {
            BlockStart::Text => StartView::Text,
            BlockStart::ToolUse { id, name } => StartView::ToolUse { id: id@, name: name@ },
            BlockStart::ServerToolUse { id, name } => StartView::ServerToolUse {
                id: id@,
                name: name@,
            },
            BlockStart::Thinking => StartView::Thinking,
            BlockStart::RedactedThinking => StartView::RedactedThinking,
            BlockStart::Unknown => StartView::Unknown,
        }
    }
}

impl DeepView for StreamDelta {
    type V = DeltaView;

    open spec fn deep_view(&self) -> DeltaView {
        match *self {
            StreamDelta::TextDelta { text } => DeltaView::TextDelta { text: text@ },
            StreamDelta::InputJsonDelta { partial_json } => DeltaView::InputJsonDelta {
                partial_json: partial_json@,
            },
            StreamDelta::ThinkingDelta { thinking } => DeltaView::ThinkingDelta {
                thinking: thinking@,
            },
            StreamDelta::SignatureDelta { signature } => DeltaView::SignatureDelta {
                signature: signature@,
            },
            StreamDelta::Other => DeltaView::Other,
        }
    }
}

impl DeepView for StreamEvent {
    type V = EventView;

    open spec fn deep_view(&self) -> EventView {
        match *self {
            StreamEvent::MessageStart { usage } => EventView::MessageStart { usage },
            StreamEvent::ContentBlockStart { index, content_block } =>
                EventView::ContentBlockStart { index, content_block: content_block.deep_view() },
            StreamEvent::ContentBlockDelta { index, delta } => EventView::ContentBlockDelta {
                index,
                delta: delta.deep_view(),
            },
            StreamEvent::ContentBlockStop { index } => EventView::ContentBlockStop { index },
            StreamEvent::MessageDelta { usage } => EventView::MessageDelta { usage },
            StreamEvent::MessageStop => EventView::MessageStop,
            StreamEvent::Error { error_type, message } => EventView::Error {
                error_type: error_type@,
                message: message@,
            },
            StreamEvent::Ping => EventView::Ping,
        }
    }
}

// ---------------------------------------------------------------------------
// The reply as it grows
// ---------------------------------------------------------------------------

/// A block as its deltas have made it so far.
#[derive(Debug)]
pub enum BlockState {
    Text(String),
    ToolUse { id: String, name: String, partial_json: String },
    Thinking { text: String, signature: String },
    Unknown,
}

/// The model of a [`BlockState`].
#[verifier::ext_equal]
pub enum BlockStateView {
    Text(Seq<char>),
    ToolUse { id: Seq<char>, name: Seq<char>, partial_json: Seq<char> },
    Thinking { text: Seq<char>, signature: Seq<char> },
    Unknown,
}

impl DeepView for BlockState {
    type V = BlockStateView;

    open spec fn deep_view(&self) -> BlockStateView {
        match *self {
            BlockState::Text(text) => BlockStateView::Text(text@),
            BlockState::ToolUse { id, name, partial_json } => BlockStateView::ToolUse {
                id: id@,
                name: name@,
                partial_json: partial_json@,
            },
            BlockState::Thinking { text, signature } => BlockStateView::Thinking {
                text: text@,
                signature: signature@,
            },
            BlockState::Unknown => BlockStateView::Unknown,
        }
    }
}

/// A reply of which some events have come.
#[derive(Debug)]
pub struct MessageBuilder {
    pub blocks: Vec<BlockState>,
    pub input_tokens: Option<usize>,
    pub output_tokens: Option<usize>,
    /// Whether the end of the message has come.
    pub done: bool,
}

/// The model of a [`MessageBuilder`].
#[verifier::ext_equal]
pub struct BuilderState {
    pub blocks: Seq<BlockStateView>,
    pub input_tokens: Option<usize>,
    pub output_tokens: Option<usize>,
    pub done: bool,
}

impl DeepView for MessageBuilder {
    type V = BuilderState;

    open spec fn deep_view(&self) -> BuilderState {
        BuilderState {
            blocks: self.blocks.deep_view(),
            input_tokens: self.input_tokens,
            output_tokens: self.output_tokens,
            done: self.done,
        }
    }
}

/// A text block without text.
pub open spec fn empty_text() -> BlockStateView {
    BlockStateView::Text(Seq::empty())
}

/// `blocks`, with empty text blocks added behind so that there are at least `n`.
pub open spec fn padded(blocks: Seq<BlockStateView>, n: int) -> Seq<BlockStateView> {
    if blocks.len() >= n {
        blocks
    } else {
        blocks + Seq::new((n - blocks.len()) as nat, |i: int| empty_text())
    }
}

/// A block that has just begun.
pub open spec fn begun(start: StartView) -> BlockStateView {
    match start {
        StartView::Text => empty_text(),
        StartView::ToolUse { id, name } => BlockStateView::ToolUse {
            id,
            name,
            partial_json: Seq::empty(),
        },
        StartView::ServerToolUse { id, name } => BlockStateView::ToolUse {
            id,
            name,
            partial_json: Seq::empty(),
        },
        StartView::Thinking => BlockStateView::Thinking {
            text: Seq::empty(),
            signature: Seq::empty(),
        },
        StartView::RedactedThinking => BlockStateView::Unknown,
        StartView::Unknown => BlockStateView::Unknown,
    }
}

/// `block` with `delta` added; a delta of another kind of block adds nothing.
pub open spec fn extended(block: BlockStateView, delta: DeltaView) -> BlockStateView {
    match (block, delta) {
        (BlockStateView::Text(text), DeltaView::TextDelta { text: more }) => BlockStateView::Text(
            text + more,
        ),
        (
            BlockStateView::ToolUse { id, name, partial_json },
            DeltaView::InputJsonDelta { partial_json: more },
        ) => BlockStateView::ToolUse { id, name, partial_json: partial_json + more },
        (
            BlockStateView::Thinking { text, signature },
            DeltaView::ThinkingDelta { thinking: more },
        ) => BlockStateView::Thinking { text: text + more, signature },
        (
            BlockStateView::Thinking { text, signature },
            DeltaView::SignatureDelta { signature: more },
        ) => BlockStateView::Thinking { text, signature: signature + more },
        _ => block,
    }
}

/// The reply with one event added.
pub open spec fn event_added(s: BuilderState, event: EventView) -> BuilderState {
    match event {
        EventView::MessageStart { usage: Some(u) } => BuilderState {
            input_tokens: u.input_tokens,
            ..s
        },
        EventView::ContentBlockStart { index, content_block } => BuilderState {
            blocks: padded(s.blocks, index + 1).update(index as int, begun(content_block)),
            ..s
        },
        EventView::ContentBlockDelta { index, delta } if index < s.blocks.len() => BuilderState {
            blocks: s.blocks.update(index as int, extended(s.blocks[index as int], delta)),
            ..s
        },
        EventView::MessageDelta { usage: Some(u) } => BuilderState {
            output_tokens: u.output_tokens,
            ..s
        },
        EventView::MessageStop => BuilderState { done: true, ..s },
        _ => s,
    }
}

/// What an event reports: the text or the reasoning that it adds, or the tool
/// call that it completes.
pub open spec fn event_report(s: BuilderState, event: EventView) -> Option<SinkView> {
    match event {
        EventView::ContentBlockDelta { index, delta } if index < s.blocks.len() => match (
            s.blocks[index as int],
            delta,
        ) {
            (BlockStateView::Text(_), DeltaView::TextDelta { text }) => Some(
                SinkView::Content(text),
            ),
            (BlockStateView::Thinking { .. }, DeltaView::ThinkingDelta { thinking }) => Some(
                SinkView::Thinking(thinking),
            ),
            _ => None,
        },
        EventView::ContentBlockStop { index } if index < s.blocks.len() => match s.blocks[index as int] {
            BlockStateView::ToolUse { id, name, partial_json } => match arguments_tree(
                partial_json,
            ) {
                Some(arguments) => Some(SinkView::Call(ToolCallView { id, name, arguments })),
                None => None,
            },
            _ => None,
        },
        _ => None,
    }
}

/// Whether an event closes a tool call whose arguments are no JSON.
pub open spec fn closes_unreadable(s: BuilderState, event: EventView) -> bool {
    match event {
        EventView::ContentBlockStop { index } if index < s.blocks.len() => match s.blocks[index as int] {
            BlockStateView::ToolUse { partial_json, .. } => arguments_tree(partial_json) is None,
            _ => false,
        },
        _ => false,
    }
}

/// The status with which an error event is reported.
pub const OVERLOADED: u16 = 529;

/// The words for an error event.
pub open spec fn stream_error_text(error_type: Seq<char>, message: Seq<char>) -> Seq<char> {
    "Anthropic streaming error ("@ + error_type + "): "@ + message
}

/// Whether the list of blocks can grow as far as `event` asks.
pub open spec fn event_fits(event: EventView) -> bool {
    event matches EventView::ContentBlockStart { index, .. } ==> index < usize::MAX
}

impl StreamEvent {
    /// Whether the list of blocks can grow as far as the event asks.
    pub fn fits(&self) -> (r: bool)
        ensures
            r == event_fits(self.deep_view()),
    {
        match self {
            StreamEvent::ContentBlockStart { index, .. } => *index < usize::MAX,
            _ => true,
        }
    }
}

impl MessageBuilder {
    /// The reply before the first event.
    pub fn new() -> (r: MessageBuilder)
        ensures
            r.deep_view() == (BuilderState {
                blocks: Seq::empty(),
                input_tokens: None,
                output_tokens: None,
                done: false,
            }),
    {
        let r = MessageBuilder {
            blocks: Vec::new(),
            input_tokens: None,
            output_tokens: None,
            done: false,
        };
        assert(r.deep_view().blocks =~= Seq::empty());
        r
    }

    /// Puts a block that has just begun at `index`.
    fn begin(&mut self, index: usize, start: BlockStart)
        requires
            index < usize::MAX,
        ensures
            final(self).deep_view() == (BuilderState {
                blocks: padded(old(self).deep_view().blocks, index + 1).update(
                    index as int,
                    begun(start.deep_view()),
                ),
                ..old(self).deep_view()
            }),
    {
        let ghost before = self.deep_view().blocks;
        while self.blocks.len() <= index
            invariant
                before.len() <= self.blocks@.len(),
                before.len() <= index + 1 ==> self.blocks@.len() <= index + 1,
                before.len() > index + 1 ==> self.blocks@.len() == before.len(),
                self.deep_view() == (BuilderState {
                    blocks: padded(before, self.blocks@.len() as int),
                    ..old(self).deep_view()
                }),
            decreases index + 1 - self.blocks@.len(),
        {
            let ghost n = self.blocks@.len() as int;
            self.blocks.push(BlockState::Text(String::new()));
            assert(self.blocks.deep_view() =~= padded(before, n).push(empty_text()));
            assert(self.blocks.deep_view() =~= padded(before, n + 1));
        }
        let ghost room = self.blocks.deep_view();
        assert(room =~= padded(before, index + 1));
        let ghost view = start.deep_view();
        let block = match start {
            BlockStart::Text => BlockState::Text(String::new()),
            BlockStart::ToolUse { id, name } => BlockState::ToolUse {
                id,
                name,
                partial_json: String::new(),
            },
            BlockStart::ServerToolUse { id, name } => BlockState::ToolUse {
                id,
                name,
                partial_json: String::new(),
            },
            BlockStart::Thinking => BlockState::Thinking {
                text: String::new(),
                signature: String::new(),
            },
            BlockStart::RedactedThinking => BlockState::Unknown,
            BlockStart::Unknown => BlockState::Unknown,
        };
        assert(block.deep_view() =~= begun(view));
        self.blocks.set(index, block);
        assert(self.blocks.deep_view() =~= room.update(index as int, block.deep_view()));
    }

    /// Adds `delta` to the block at `index`, and returns what that reports.
    fn extend(&mut self, index: usize, delta: StreamDelta) -> (r: Option<SinkEvent>)
        requires
            index < old(self).blocks@.len(),
        ensures
            final(self).deep_view() == event_added(
                old(self).deep_view(),
                EventView::ContentBlockDelta { index, delta: delta.deep_view() },
            ),
            r.deep_view() == event_report(
                old(self).deep_view(),
                EventView::ContentBlockDelta { index, delta: delta.deep_view() },
            ),
    {
        let ghost before = self.deep_view();
        let ghost view = delta.deep_view();
        assert(before.blocks[index as int] == self.blocks@[index as int].deep_view());
        let (block, report) = match (&self.blocks[index], delta) {
            (BlockState::Text(text), StreamDelta::TextDelta { text: more }) => {
                let mut grown = text.clone();
                grown.append(more.as_str());
                (BlockState::Text(grown), Some(SinkEvent::Content(more)))
            },
            (
                BlockState::ToolUse { id, name, partial_json },
                StreamDelta::InputJsonDelta { partial_json: more },
            ) => {
                let mut grown = partial_json.clone();
                grown.append(more.as_str());
                (
                    BlockState::ToolUse {
                        id: id.clone(),
                        name: name.clone(),
                        partial_json: grown,
                    },
                    None,
                )
            },
            (
                BlockState::Thinking { text, signature },
                StreamDelta::ThinkingDelta { thinking: more },
            ) => {
                let mut grown = text.clone();
                grown.append(more.as_str());
                (
                    BlockState::Thinking { text: grown, signature: signature.clone() },
                    Some(SinkEvent::Thinking(more)),
                )
            },
            (
                BlockState::Thinking { text, signature },
                StreamDelta::SignatureDelta { signature: more },
            ) => {
                let mut grown = signature.clone();
                grown.append(more.as_str());
                (BlockState::Thinking { text: text.clone(), signature: grown }, None)
            },
            _ => {
                assert(before.blocks.update(index as int, before.blocks[index as int])
                    =~= before.blocks);
                return None;
            },
        };
        self.blocks.set(index, block);
        assert(self.blocks.deep_view() =~= before.blocks.update(index as int, block.deep_view()));
        report
    }

    /// Reads the tool call that the block at `index` has become, if it is one.
    fn close(&self, index: usize) -> (r: Result<Option<SinkEvent>, serde_json::Error>)
        requires
            index < self.blocks@.len(),
        ensures
            r is Err <==> closes_unreadable(
                self.deep_view(),
                EventView::ContentBlockStop { index },
            ),
            r matches Ok(report) ==> report.deep_view() == event_report(
                self.deep_view(),
                EventView::ContentBlockStop { index },
            ),
    {
        assert(self.deep_view().blocks[index as int] == self.blocks@[index as int].deep_view());
        match &self.blocks[index] {
            BlockState::ToolUse { id, name, partial_json } => match read_arguments(
                partial_json.as_str(),
            ) {
                Ok(arguments) => Ok(
                    Some(
                        SinkEvent::Call(
                            ToolCall { id: id.clone(), name: name.clone(), arguments },
                        ),
                    ),
                ),
                Err(e) => Err(e),
            },
            _ => Ok(None),
        }
    }

    /// Adds one event, and returns what it reports.
    ///
    /// An error event ends the reply with an error, and so does the end of a
    /// tool call whose arguments are no JSON.
    pub fn add_event(&mut self, event: StreamEvent) -> (r: Result<Option<SinkEvent>, ProviderError>)
        requires
            event_fits(event.deep_view()),
        ensures
            final(self).deep_view() == event_added(old(self).deep_view(), event.deep_view()),
            match event.deep_view() {
                EventView::Error { error_type, message } => r matches Err(
                    ProviderError::Http { status, body },
                ) && status == OVERLOADED && body@ == stream_error_text(error_type, message),
                _ => {
                    &&& r is Err <==> closes_unreadable(old(self).deep_view(), event.deep_view())
                    &&& (r matches Err(e) ==> (e matches ProviderError::Decode(
                        DecodeError::Json(_),
                    )))
                    &&& (r matches Ok(report) ==> report.deep_view() == event_report(
                        old(self).deep_view(),
                        event.deep_view(),
                    ))
                },
            },
    {
        match event {
            StreamEvent::MessageStart { usage } => {
                if let Some(u) = usage {
                    self.input_tokens = u.input_tokens;
                }
                Ok(None)
            },
            StreamEvent::ContentBlockStart { index, content_block } => {
                self.begin(index, content_block);
                Ok(None)
            },
            StreamEvent::ContentBlockDelta { index, delta } => {
                if index >= self.blocks.len() {
                    return Ok(None);
                }
                Ok(self.extend(index, delta))
            },
            StreamEvent::ContentBlockStop { index } => {
                if index >= self.blocks.len() {
                    return Ok(None);
                }
                match self.close(index) {
                    Ok(report) => Ok(report),
                    Err(e) => Err(ProviderError::Decode(DecodeError::Json(e))),
                }
            },
            StreamEvent::MessageDelta { usage } => {
                if let Some(u) = usage {
                    self.output_tokens = u.output_tokens;
                }
                Ok(None)
            },
            StreamEvent::MessageStop => {
                self.done = true;
                Ok(None)
            },
            StreamEvent::Error { error_type, message } => {
                let mut body = "Anthropic streaming error (".to_owned();
                body.append(error_type.as_str());
                body.append("): ");
                body.append(message.as_str());
                Err(ProviderError::Http { status: OVERLOADED, body })
            },
            StreamEvent::Ping => Ok(None),
        }
    }
}

// ---------------------------------------------------------------------------
// The finished reply
// ---------------------------------------------------------------------------

/// A block of a finished reply.
#[derive(Debug, PartialEq, Eq)]
pub enum ReplyBlock {
    Text { text: String },
    ToolUse { id: String, name: String, input: Json },
    Thinking { thinking: String, signature: String },
}

/// The model of a [`ReplyBlock`].
#[verifier::ext_equal]
pub enum ReplyBlockView {
    Text { text: Seq<char> },
    ToolUse { id: Seq<char>, name: Seq<char>, input: JsonTree },
    Thinking { thinking: Seq<char>, signature: Seq<char> },
}

impl DeepView for ReplyBlock {
    type V = ReplyBlockView;

    open spec fn deep_view(&self) -> ReplyBlockView {
        match *self {
            ReplyBlock::Text { text } => ReplyBlockView::Text { text: text@ },
            ReplyBlock::ToolUse { id, name, input } => ReplyBlockView::ToolUse {
                id: id@,
                name: name@,
                input: input.deep_view(),
            },
            ReplyBlock::Thinking { thinking, signature } => ReplyBlockView::Thinking {
                thinking: thinking@,
                signature: signature@,
            },
        }
    }
}

/// Whether `block` is no tool call, or one whose arguments are JSON.
pub open spec fn readable_block(block: BlockStateView) -> bool {
    block matches BlockStateView::ToolUse { partial_json, .. } ==> arguments_tree(
        partial_json,
    ) is Some
}

/// The finished blocks that `blocks` become, in order. Blocks of an unknown kind
/// are left out.
pub open spec fn finished_blocks(blocks: Seq<BlockStateView>) -> Seq<ReplyBlockView>
    decreases blocks.len(),
{
    if blocks.len() == 0 {
        Seq::empty()
    } else {
        let before = finished_blocks(blocks.drop_last());
        match blocks.last() {
            BlockStateView::Text(text) => before.push(ReplyBlockView::Text { text }),
            BlockStateView::ToolUse { id, name, partial_json } => before.push(
                ReplyBlockView::ToolUse { id, name, input: arguments_tree(partial_json)->0 },
            ),
            BlockStateView::Thinking { text, signature } => before.push(
                ReplyBlockView::Thinking { thinking: text, signature },
            ),
            BlockStateView::Unknown => before,
        }
    }
}

/// The usage of a reply: known only when both counts have come.
pub open spec fn finished_usage(s: BuilderState) -> Option<Usage> {
    match (s.input_tokens, s.output_tokens) {
        (Some(input), Some(output)) => Some(
            Usage { input_tokens: Some(input), output_tokens: Some(output) },
        ),
        _ => None,
    }
}

/// What a reply is made of in the end.
#[derive(Debug)]
pub struct FinishedReply {
    pub blocks: Vec<ReplyBlock>,
    pub usage: Option<Usage>,
}

impl MessageBuilder {
    /// Reads the tool calls and returns the blocks of the reply.
    pub fn finish(self) -> (r: Result<FinishedReply, ProviderError>)
        ensures
            r is Ok <==> forall|i: int|
                0 <= i < self.deep_view().blocks.len() ==> readable_block(
                    #[trigger] self.deep_view().blocks[i],
                ),
            r matches Ok(reply) ==> reply.blocks.deep_view() == finished_blocks(
                self.deep_view().blocks,
            ) && reply.usage == finished_usage(self.deep_view()),
            r matches Err(e) ==> (e matches ProviderError::Decode(DecodeError::Json(_))),
    {
        let ghost all = self.deep_view().blocks;
        let mut out: Vec<ReplyBlock> = Vec::new();
        assert(out.deep_view() =~= finished_blocks(all.take(0)));
        for i in 0..self.blocks.len()
            invariant
                all == self.blocks.deep_view(),
                all == self.deep_view().blocks,
                out.deep_view() == finished_blocks(all.take(i as int)),
                forall|k: int| 0 <= k < i ==> readable_block(#[trigger] all[k]),
        {
            let ghost before = out.deep_view();
            assert(all.take(i + 1).drop_last() =~= all.take(i as int));
            assert(all.take(i + 1).last() == self.blocks@[i as int].deep_view());
            match &self.blocks[i] {
                BlockState::Text(text) => {
                    let block = ReplyBlock::Text { text: text.clone() };
                    out.push(block);
                    assert(out.deep_view() =~= before.push(block.deep_view()));
                },
                BlockState::ToolUse { id, name, partial_json } => {
                    match read_arguments(partial_json.as_str()) {
                        Ok(input) => {
                            let block = ReplyBlock::ToolUse {
                                id: id.clone(),
                                name: name.clone(),
                                input,
                            };
                            out.push(block);
                            assert(out.deep_view() =~= before.push(block.deep_view()));
                        },
                        Err(e) => {
                            assert(!readable_block(all[i as int]));
                            return Err(ProviderError::Decode(DecodeError::Json(e)));
                        },
                    }
                },
                BlockState::Thinking { text, signature } => {
                    let block = ReplyBlock::Thinking {
                        thinking: text.clone(),
                        signature: signature.clone(),
                    };
                    out.push(block);
                    assert(out.deep_view() =~= before.push(block.deep_view()));
                },
                BlockState::Unknown => {},
            }
        }
        assert(all.take(all.len() as int) =~= all);
        let usage = match (self.input_tokens, self.output_tokens) {
            (Some(input), Some(output)) => Some(
                Usage { input_tokens: Some(input), output_tokens: Some(output) },
            ),
            _ => None,
        };
        Ok(FinishedReply { blocks: out, usage })
    }
}

// ---------------------------------------------------------------------------
// The stream
// ---------------------------------------------------------------------------

/// What reading the stream on gives.
#[derive(Debug)]
pub enum MessageStep {
    /// More bytes are needed.
    NeedMore,
    /// The text of the next event.
    Event(String),
    /// The message is over.
    Done,
    /// The stream cannot be read.
    Failed(ProviderError),
}

/// A reply that is being streamed.
#[derive(Debug)]
pub struct MessageStream {
    pub reader: EventReader,
    pub builder: MessageBuilder,
}

impl MessageStream {
    /// A stream of which nothing has come. Of each event the last `data:` line
    /// counts.
    pub fn new() -> (r: MessageStream)
        ensures
            r.reader.deep_view() == (ReaderState {
                buffer: Seq::empty(),
                pending: Seq::empty(),
                pick: Pick::Last,
            }),
            r.builder.deep_view() == (BuilderState {
                blocks: Seq::empty(),
                input_tokens: None,
                output_tokens: None,
                done: false,
            }),
    {
        MessageStream { reader: EventReader::new(Pick::Last), builder: MessageBuilder::new() }
    }

    /// Takes bytes that have arrived.
    pub fn push_bytes(&mut self, bytes: &[u8])
        ensures
            final(self).reader.deep_view() == (ReaderState {
                buffer: old(self).reader.buffer@ + bytes@,
                ..old(self).reader.deep_view()
            }),
            final(self).builder == old(self).builder,
    {
        self.reader.push_bytes(bytes);
    }

    /// Reads on to the next event. Once the message is over nothing is read.
    pub fn next_event(&mut self) -> (r: MessageStep)
        ensures
            final(self).builder == old(self).builder,
            old(self).builder.done ==> r is Done && *final(self) == *old(self),
            !old(self).builder.done ==> {
                let s = settled(old(self).reader.deep_view());
                if s.pending.len() > 0 {
                    &&& r matches MessageStep::Event(t) && t@ == s.pending.first()
                    &&& final(self).reader.deep_view() == (ReaderState {
                        pending: s.pending.drop_first(),
                        ..s
                    })
                } else {
                    match event_end(s.buffer) {
                        None => r is NeedMore && final(self).reader.deep_view() == s,
                        Some(e) => {
                            &&& r matches MessageStep::Failed(error) && event_read(
                                s.buffer.take(e),
                                Err(error),
                            )
                            &&& final(self).reader.deep_view() == (ReaderState {
                                buffer: s.buffer.skip(e),
                                ..s
                            })
                        },
                    }
                }
            },
    {
        if self.builder.done {
            return MessageStep::Done;
        }
        match self.reader.next_payload() {
            ReadStep::NeedMore => MessageStep::NeedMore,
            ReadStep::Failed(error) => MessageStep::Failed(error),
            ReadStep::Payload(data) => MessageStep::Event(data),
        }
    }
}

// ---------------------------------------------------------------------------
// Laws
// ---------------------------------------------------------------------------

/// The reply after a run of events.
pub open spec fn events_added(s: BuilderState, run: Seq<EventView>) -> BuilderState
    decreases run.len(),
{
    if run.len() == 0 {
        s
    } else {
        event_added(events_added(s, run.drop_last()), run.last())
    }
}

/// Whether some event of `run` begins a block at `index`.
pub open spec fn begins(run: Seq<EventView>, index: int) -> bool {
    exists|i: int|
        0 <= i < run.len() && (#[trigger] run[i] matches EventView::ContentBlockStart {
            index: k,
            ..
        } && k == index)
}

/// `block` with the deltas added that `run` holds for `index`, in order.
pub open spec fn block_after(
    block: BlockStateView,
    run: Seq<EventView>,
    index: int,
) -> BlockStateView
    decreases run.len(),
{
    if run.len() == 0 {
        block
    } else {
        let before = block_after(block, run.drop_last(), index);
        match run.last() {
            EventView::ContentBlockDelta { index: k, delta } if k == index => extended(
                before,
                delta,
            ),
            _ => before,
        }
    }
}

/// A block holds its own deltas and nothing else: once begun it becomes what its
/// deltas make of it, in the order in which they came, whatever comes for other
/// blocks in between.
pub proof fn law_blocks_are_independent(s: BuilderState, run: Seq<EventView>, index: int)
    requires
        0 <= index < s.blocks.len(),
        !begins(run, index),
    ensures
        index < events_added(s, run).blocks.len(),
        events_added(s, run).blocks[index] == block_after(s.blocks[index], run, index),
    decreases run.len(),
{
    if run.len() > 0 {
        let before = run.drop_last();
        assert(!begins(before, index)) by {
            if begins(before, index) {
                let i = choose|i: int|
                    0 <= i < before.len() && (#[trigger] before[i] matches
                        EventView::ContentBlockStart { index: k, .. } && k == index);
                assert(run[i] == before[i]);
            }
        }
        law_blocks_are_independent(s, before, index);
        assert(run[run.len() - 1] == run.last());
    }
}

/// The text that `run` sends for the block at `index`.
pub open spec fn text_sent(run: Seq<EventView>, index: int) -> Seq<char>
    decreases run.len(),
{
    if run.len() == 0 {
        Seq::empty()
    } else {
        let before = text_sent(run.drop_last(), index);
        match run.last() {
            EventView::ContentBlockDelta { index: k, delta: DeltaView::TextDelta { text } } if k
                == index => before + text,
            _ => before,
        }
    }
}

/// The arguments that `run` sends for the block at `index`.
pub open spec fn json_sent(run: Seq<EventView>, index: int) -> Seq<char>
    decreases run.len(),
{
    if run.len() == 0 {
        Seq::empty()
    } else {
        let before = json_sent(run.drop_last(), index);
        match run.last() {
            EventView::ContentBlockDelta {
                index: k,
                delta: DeltaView::InputJsonDelta { partial_json },
            } if k == index => before + partial_json,
            _ => before,
        }
    }
}

/// A text block ends up with all the text sent for it, and a tool call with all
/// the arguments sent for it, in the order in which they came.
pub proof fn law_deltas_are_put_together(block: BlockStateView, run: Seq<EventView>, index: int)
    ensures
        block matches BlockStateView::Text(text) ==> block_after(block, run, index)
            == BlockStateView::Text(text + text_sent(run, index)),
        block matches BlockStateView::ToolUse { id, name, partial_json } ==> block_after(
            block,
            run,
            index,
        ) == (BlockStateView::ToolUse {
            id,
            name,
            partial_json: partial_json + json_sent(run, index),
        }),
    decreases run.len(),
{
    if run.len() == 0 {
        match block {
            BlockStateView::Text(text) => {
                assert(text + text_sent(run, index) =~= text);
            },
            BlockStateView::ToolUse { id, name, partial_json } => {
                assert(partial_json + json_sent(run, index) =~= partial_json);
            },
            _ => {},
        }
    } else {
        law_deltas_are_put_together(block, run.drop_last(), index);
        match block {
            BlockStateView::Text(text) => {
                assert(text + text_sent(run, index) =~= (match run.last() {
                    EventView::ContentBlockDelta {
                        index: k,
                        delta: DeltaView::TextDelta { text: more },
                    } if k == index => text + text_sent(run.drop_last(), index) + more,
                    _ => text + text_sent(run.drop_last(), index),
                }));
            },
            BlockStateView::ToolUse { id, name, partial_json } => {
                assert(partial_json + json_sent(run, index) =~= (match run.last() {
                    EventView::ContentBlockDelta {
                        index: k,
                        delta: DeltaView::InputJsonDelta { partial_json: more },
                    } if k == index => partial_json + json_sent(run.drop_last(), index) + more,
                    _ => partial_json + json_sent(run.drop_last(), index),
                }));
            },
            _ => {},
        }
    }
}

/// What an event reports as content is what it adds to the text block that it
/// names; an event that begins no block leaves every other text block as it is.
pub proof fn law_reports_are_what_is_added(s: BuilderState, event: EventView, index: int)
    requires
        0 <= index < s.blocks.len(),
        s.blocks[index] is Text,
        !(event is ContentBlockStart),
    ensures
        ({
            let after = event_added(s, event).blocks[index];
            &&& after is Text
            &&& match event_report(s, event) {
                Some(SinkView::Content(t)) if event->ContentBlockDelta_index == index => after->Text_0
                    == s.blocks[index]->Text_0 + t,
                _ => after == s.blocks[index],
            }
        }),
{
}

/// The reasoning that `run` sends for the block at `index`.
pub open spec fn thinking_sent(run: Seq<EventView>, index: int) -> Seq<char>
    decreases run.len(),
{
    if run.len() == 0 {
        Seq::empty()
    } else {
        let before = thinking_sent(run.drop_last(), index);
        match run.last() {
            EventView::ContentBlockDelta {
                index: k,
                delta: DeltaView::ThinkingDelta { thinking },
            } if k == index => before + thinking,
            _ => before,
        }
    }
}

/// The signature that `run` sends for the block at `index`.
pub open spec fn signature_sent(run: Seq<EventView>, index: int) -> Seq<char>
    decreases run.len(),
{
    if run.len() == 0 {
        Seq::empty()
    } else {
        let before = signature_sent(run.drop_last(), index);
        match run.last() {
            EventView::ContentBlockDelta {
                index: k,
                delta: DeltaView::SignatureDelta { signature },
            } if k == index => before + signature,
            _ => before,
        }
    }
}

/// A block of reasoning ends up with all the reasoning and the whole signature sent
/// for it, and one of an unknown kind stays unknown.
proof fn lemma_reasoning_is_put_together(block: BlockStateView, run: Seq<EventView>, index: int)
    ensures
        block matches BlockStateView::Thinking { text, signature } ==> block_after(
            block,
            run,
            index,
        ) == (BlockStateView::Thinking {
            text: text + thinking_sent(run, index),
            signature: signature + signature_sent(run, index),
        }),
        block is Unknown ==> block_after(block, run, index) is Unknown,
    decreases run.len(),
{
    if run.len() == 0 {
        if let BlockStateView::Thinking { text, signature } = block {
            assert(text + thinking_sent(run, index) =~= text);
            assert(signature + signature_sent(run, index) =~= signature);
        }
    } else {
        let before = run.drop_last();
        lemma_reasoning_is_put_together(block, before, index);
        if let BlockStateView::Thinking { text, signature } = block {
            assert(text + thinking_sent(run, index) =~= (match run.last() {
                EventView::ContentBlockDelta {
                    index: k,
                    delta: DeltaView::ThinkingDelta { thinking: more },
                } if k == index => text + thinking_sent(before, index) + more,
                _ => text + thinking_sent(before, index),
            }));
            assert(signature + signature_sent(run, index) =~= (match run.last() {
                EventView::ContentBlockDelta {
                    index: k,
                    delta: DeltaView::SignatureDelta { signature: more },
                } if k == index => signature + signature_sent(before, index) + more,
                _ => signature + signature_sent(before, index),
            }));
        }
    }
}

proof fn lemma_events_added_add(s: BuilderState, a: Seq<EventView>, b: Seq<EventView>)
    ensures
        events_added(s, a + b) == events_added(events_added(s, a), b),
    decreases b.len(),
{
    if b.len() == 0 {
        assert(a + b =~= a);
    } else {
        lemma_events_added_add(s, a, b.drop_last());
        assert((a + b).drop_last() =~= a + b.drop_last());
    }
}

/// What a block becomes is said by the event that begins it and by the deltas for it.
/// After an event that begins a block, and events of which none begins another in its
/// place: a text block holds the text sent for it; a tool call has the id and the name
/// of the event, and the arguments sent; a block of reasoning holds the reasoning and
/// the signature sent; and no other kind holds anything.
pub proof fn law_a_block_is_what_was_sent(
    s: BuilderState,
    index: usize,
    start: StartView,
    run: Seq<EventView>,
)
    requires
        !begins(run, index as int),
    ensures
        ({
            let events = seq![EventView::ContentBlockStart { index, content_block: start }] + run;
            let after = events_added(s, events);
            let block = after.blocks[index as int];
            &&& index < after.blocks.len()
            &&& match start {
                StartView::Text => block == BlockStateView::Text(text_sent(run, index as int)),
                StartView::ToolUse { id: i, name: n } => block == (BlockStateView::ToolUse {
                    id: i,
                    name: n,
                    partial_json: json_sent(run, index as int),
                }),
                StartView::ServerToolUse { id: i, name: n } => block == (BlockStateView::ToolUse {
                    id: i,
                    name: n,
                    partial_json: json_sent(run, index as int),
                }),
                StartView::Thinking => block == (BlockStateView::Thinking {
                    text: thinking_sent(run, index as int),
                    signature: signature_sent(run, index as int),
                }),
                _ => block is Unknown,
            }
        }),
{
    let first = EventView::ContentBlockStart { index, content_block: start };
    let begun_state = event_added(s, first);
    assert(events_added(s, seq![first]) == begun_state) by {
        assert(seq![first].drop_last() =~= Seq::empty());
        assert(events_added(s, seq![first].drop_last()) == s);
    }
    lemma_events_added_add(s, seq![first], run);
    assert(index < begun_state.blocks.len());
    law_blocks_are_independent(begun_state, run, index as int);
    let block = begun_state.blocks[index as int];
    law_deltas_are_put_together(block, run, index as int);
    lemma_reasoning_is_put_together(block, run, index as int);
    assert(Seq::<char>::empty() + text_sent(run, index as int) =~= text_sent(run, index as int));
    assert(Seq::<char>::empty() + json_sent(run, index as int) =~= json_sent(run, index as int));
    assert(Seq::<char>::empty() + thinking_sent(run, index as int) =~= thinking_sent(
        run,
        index as int,
    ));
    assert(Seq::<char>::empty() + signature_sent(run, index as int) =~= signature_sent(
        run,
        index as int,
    ));
}

/// A tool call is reported, when its block ends, with the id and the name of the event
/// that began it and the arguments that were sent for it, read as JSON; the end of a
/// block whose arguments are no JSON is an error, and no other block is reported.
pub proof fn law_a_call_is_reported_as_it_was_sent(
    s: BuilderState,
    index: usize,
    start: StartView,
    run: Seq<EventView>,
)
    requires
        !begins(run, index as int),
    ensures
        ({
            let events = seq![EventView::ContentBlockStart { index, content_block: start }] + run;
            let after = events_added(s, events);
            let end = EventView::ContentBlockStop { index };
            let sent = json_sent(run, index as int);
            let arguments = if sent.len() == 0 {
                Some(JsonTree::Object(Seq::empty()))
            } else {
                parsed_json(sent)
            };
            let of_call = match start {
                StartView::ToolUse { id: i, name: n } => Some((i, n)),
                StartView::ServerToolUse { id: i, name: n } => Some((i, n)),
                _ => None,
            };
            &&& event_report(after, end) == (match (of_call, arguments) {
                (Some((i, n)), Some(a)) => Some(
                    SinkView::Call(ToolCallView { id: i, name: n, arguments: a }),
                ),
                _ => None,
            })
            &&& closes_unreadable(after, end) == (of_call is Some && arguments is None)
            &&& event_added(after, end) == after
        }),
{
    law_a_block_is_what_was_sent(s, index, start, run);
}

/// A finished reply holds every block but those of an unknown kind, in order: texts,
/// tool calls with their ids, names and arguments, and reasoning with its signature.
pub proof fn law_a_reply_holds_its_blocks(blocks: Seq<BlockStateView>)
    ensures
        picks(
            blocks,
            |b: BlockStateView| !(b is Unknown),
            |b: BlockStateView|
                match b {
                    BlockStateView::Text(t) => ReplyBlockView::Text { text: t },
                    BlockStateView::ToolUse { id: i, name: n, partial_json: j } =>
                        ReplyBlockView::ToolUse {
                        id: i,
                        name: n,
                        input: if j.len() == 0 {
                            JsonTree::Object(Seq::empty())
                        } else {
                            parsed_json(j)->0
                        },
                    },
                    BlockStateView::Thinking { text: t, signature: g } =>
                        ReplyBlockView::Thinking { thinking: t, signature: g },
                    BlockStateView::Unknown => arbitrary(),
                },
            finished_blocks(blocks),
        ),
    decreases blocks.len(),
{
    let shown = |b: BlockStateView| !(b is Unknown);
    let becomes = |b: BlockStateView|
        match b {
            BlockStateView::Text(t) => ReplyBlockView::Text { text: t },
            BlockStateView::ToolUse { id: i, name: n, partial_json: j } =>
                ReplyBlockView::ToolUse {
                id: i,
                name: n,
                input: if j.len() == 0 {
                    JsonTree::Object(Seq::empty())
                } else {
                    parsed_json(j)->0
                },
            },
            BlockStateView::Thinking { text: t, signature: g } => ReplyBlockView::Thinking {
                thinking: t,
                signature: g,
            },
            BlockStateView::Unknown => arbitrary(),
        };
    if blocks.len() > 0 {
        let before = blocks.drop_last();
        law_a_reply_holds_its_blocks(before);
        lemma_picks_last(blocks, shown, becomes, finished_blocks(before));
    }
}

/// A block can be read unless it is a tool call whose arguments are some text, but no
/// JSON.
pub proof fn law_what_can_be_read(block: BlockStateView)
    ensures
        readable_block(block) <==> !(block matches BlockStateView::ToolUse { partial_json: j, .. }
            && j.len() > 0 && parsed_json(j) is None),
{
}

/// What a stream reports of a delta is the delta itself: text for a text block and
/// reasoning for a block of reasoning, and nothing for any other.
pub proof fn law_deltas_are_reported(s: BuilderState, index: usize, delta: DeltaView)
    ensures
        ({
            let report = event_report(s, EventView::ContentBlockDelta { index, delta });
            let block = s.blocks[index as int];
            if index < s.blocks.len() && block is Text && delta is TextDelta {
                report == Some(SinkView::Content(delta->TextDelta_text))
            } else if index < s.blocks.len() && block is Thinking && delta is ThinkingDelta {
                report == Some(SinkView::Thinking(delta->ThinkingDelta_thinking))
            } else {
                report is None
            }
        }),
{
}

/// An event that begins a block leaves the others as they are; where it names an index
/// further on than there are blocks, the ones between are texts without text.
pub proof fn law_a_start_leaves_the_others(
    s: BuilderState,
    index: usize,
    start: StartView,
    other: int,
)
    requires
        other != index,
        0 <= other,
    ensures
        ({
            let after = event_added(
                s,
                EventView::ContentBlockStart { index, content_block: start },
            );
            &&& after.blocks.len() == if index < s.blocks.len() {
                s.blocks.len() as int
            } else {
                index + 1
            }
            &&& other < s.blocks.len() ==> after.blocks[other] == s.blocks[other]
            &&& s.blocks.len() <= other < index ==> after.blocks[other] == BlockStateView::Text(
                Seq::empty(),
            )
            &&& after.input_tokens == s.input_tokens
            &&& after.output_tokens == s.output_tokens
            &&& after.done == s.done
        }),
{
}

/// The last of `run` that `p` picks, if one is picked.
pub open spec fn newest(run: Seq<EventView>, p: spec_fn(EventView) -> bool) -> Option<EventView>
    decreases run.len(),
{
    if run.len() == 0 {
        None
    } else if p(run.last()) {
        Some(run.last())
    } else {
        newest(run.drop_last(), p)
    }
}

/// The input tokens of a reply are those of the last event that starts the message and
/// counts them, the output tokens those of the last that changes it and counts them; a
/// reply is over exactly when the end of the message has come, and its usage is known
/// exactly when both counts are.
pub proof fn law_usage_and_end_are_those_sent(run: Seq<EventView>)
    ensures
        ({
            let empty = BuilderState {
                blocks: Seq::empty(),
                input_tokens: None,
                output_tokens: None,
                done: false,
            };
            let after = events_added(empty, run);
            let starts = newest(run, |e: EventView| e is MessageStart && e->MessageStart_usage is Some);
            let deltas = newest(run, |e: EventView| e is MessageDelta && e->MessageDelta_usage is Some);
            let input = match starts {
                Some(e) => e->MessageStart_usage->0.input_tokens,
                None => None,
            };
            let output = match deltas {
                Some(e) => e->MessageDelta_usage->0.output_tokens,
                None => None,
            };
            &&& after.input_tokens == input
            &&& after.output_tokens == output
            &&& after.done == run.contains(EventView::MessageStop)
            &&& finished_usage(after) == if input is Some && output is Some {
                Some(Usage { input_tokens: input, output_tokens: output })
            } else {
                None
            }
        }),
    decreases run.len(),
{
    if run.len() > 0 {
        let before = run.drop_last();
        law_usage_and_end_are_those_sent(before);
        if before.contains(EventView::MessageStop) {
            let k = choose|k: int| 0 <= k < before.len() && before[k] == EventView::MessageStop;
            assert(run[k] == EventView::MessageStop);
        }
        if run.contains(EventView::MessageStop) && run.last() != EventView::MessageStop {
            let k = choose|k: int| 0 <= k < run.len() && run[k] == EventView::MessageStop;
            assert(before[k] == EventView::MessageStop);
        }
        assert(run[run.len() - 1] == run.last());
    }
}

/// An error event is reported as an overload, with its type and its words.
pub proof fn law_error_events_are_reported(error_type: Seq<char>, message: Seq<char>)
    ensures
        OVERLOADED == 529,
        stream_error_text(error_type, message) == "Anthropic streaming error ("@ + error_type
            + "): "@ + message,
{
}

/// The models of what a stream sends and of what it makes tell their fields apart.
pub proof fn law_models_hold_the_fields(b: BlockStart, d: StreamDelta, s: BlockState, r: ReplyBlock)
    ensures
        match b {
            BlockStart::ToolUse { id: i, name: n } => b.deep_view() is ToolUse
                && b.deep_view()->ToolUse_id == i@ && b.deep_view()->ToolUse_name == n@,
            BlockStart::ServerToolUse { id: i, name: n } => b.deep_view() is ServerToolUse
                && b.deep_view()->ServerToolUse_id == i@ && b.deep_view()->ServerToolUse_name
                == n@,
            BlockStart::Text => b.deep_view() is Text,
            BlockStart::Thinking => b.deep_view() is Thinking,
            BlockStart::RedactedThinking => b.deep_view() is RedactedThinking,
            BlockStart::Unknown => b.deep_view() is Unknown,
        },
        match d {
            StreamDelta::TextDelta { text: t } => d.deep_view() is TextDelta
                && d.deep_view()->TextDelta_text == t@,
            StreamDelta::InputJsonDelta { partial_json: t } => d.deep_view() is InputJsonDelta
                && d.deep_view()->InputJsonDelta_partial_json == t@,
            StreamDelta::ThinkingDelta { thinking: t } => d.deep_view() is ThinkingDelta
                && d.deep_view()->ThinkingDelta_thinking == t@,
            StreamDelta::SignatureDelta { signature: t } => d.deep_view() is SignatureDelta
                && d.deep_view()->SignatureDelta_signature == t@,
            StreamDelta::Other => d.deep_view() is Other,
        },
        match s {
            BlockState::Text(t) => s.deep_view() is Text && s.deep_view()->Text_0 == t@,
            BlockState::ToolUse { id: i, name: n, partial_json: j } => s.deep_view() is ToolUse
                && s.deep_view()->ToolUse_id == i@ && s.deep_view()->ToolUse_name == n@
                && s.deep_view()->ToolUse_partial_json == j@,
            BlockState::Thinking { text: t, signature: g } => s.deep_view() is Thinking
                && s.deep_view()->Thinking_text == t@ && s.deep_view()->Thinking_signature == g@,
            BlockState::Unknown => s.deep_view() is Unknown,
        },
        match r {
            ReplyBlock::Text { text: t } => r.deep_view() is Text && r.deep_view()->Text_text == t@,
            ReplyBlock::ToolUse { id: i, name: n, input: j } => r.deep_view() is ToolUse
                && r.deep_view()->ToolUse_id == i@ && r.deep_view()->ToolUse_name == n@
                && r.deep_view()->ToolUse_input == j.deep_view(),
            ReplyBlock::Thinking { thinking: t, signature: g } => r.deep_view() is Thinking
                && r.deep_view()->Thinking_thinking == t@ && r.deep_view()->Thinking_signature
                == g@,
        },
{
}

/// The model of an event tells what it is and what it says.
pub proof fn law_models_of_events_hold_the_fields(e: StreamEvent)
    ensures
        match e {
            StreamEvent::MessageStart { usage: u } => e.deep_view() == (EventView::MessageStart {
                usage: u,
            }),
            StreamEvent::ContentBlockStart { index: i, content_block: b } => e.deep_view() == (
            EventView::ContentBlockStart { index: i, content_block: b.deep_view() }),
            StreamEvent::ContentBlockDelta { index: i, delta: d } => e.deep_view() == (
            EventView::ContentBlockDelta { index: i, delta: d.deep_view() }),
            StreamEvent::ContentBlockStop { index: i } => e.deep_view() == (
            EventView::ContentBlockStop { index: i }),
            StreamEvent::MessageDelta { usage: u } => e.deep_view() == (EventView::MessageDelta {
                usage: u,
            }),
            StreamEvent::MessageStop => e.deep_view() is MessageStop,
            StreamEvent::Error { error_type: t, message: m } => e.deep_view() == (
            EventView::Error { error_type: t@, message: m@ }),
            StreamEvent::Ping => e.deep_view() is Ping,
        },
{
}

/// Every event fits but one that begins a block at the last index there is, behind
/// which a list cannot end.
pub proof fn law_only_the_last_index_is_too_far(event: EventView)
    ensures
        !event_fits(event) <==> event is ContentBlockStart && event->ContentBlockStart_index
            == usize::MAX,
{
}

/// An event cannot be added exactly where it ends a block that is a tool call whose
/// arguments are no JSON.
pub proof fn law_only_calls_can_be_unreadable(s: BuilderState, event: EventView)
    ensures
        event !is ContentBlockStop ==> !closes_unreadable(s, event),
        event is ContentBlockStop && event->ContentBlockStop_index >= s.blocks.len()
            ==> !closes_unreadable(s, event),
        event is ContentBlockStop && event->ContentBlockStop_index < s.blocks.len() ==> {
            let block = s.blocks[event->ContentBlockStop_index as int];
            closes_unreadable(s, event) <==> block is ToolUse && arguments_tree(
                block->partial_json,
            ) is None
        },
{
}

/// The model of a builder holds what it holds.
pub proof fn law_models_of_builders_hold_the_fields(b: MessageBuilder, i: int)
    ensures
        b.deep_view().blocks.len() == b.blocks@.len(),
        0 <= i < b.blocks@.len() ==> b.deep_view().blocks[i] == b.blocks@[i].deep_view(),
        b.deep_view().input_tokens == b.input_tokens,
        b.deep_view().output_tokens == b.output_tokens,
        b.deep_view().done == b.done,
{
}

/// Nothing is reported for a block that never began, nor for an event that neither adds
/// to a block nor ends one.
pub proof fn law_nothing_is_reported_out_of_nothing(s: BuilderState, event: EventView)
    ensures
        event !is ContentBlockDelta && event !is ContentBlockStop ==> event_report(
            s,
            event,
        ) is None,
        event is ContentBlockDelta && event->ContentBlockDelta_index >= s.blocks.len()
            ==> event_report(s, event) is None,
        event is ContentBlockStop && event->ContentBlockStop_index >= s.blocks.len()
            ==> event_report(s, event) is None,
        event is ContentBlockStop && event->ContentBlockStop_index < s.blocks.len()
            && s.blocks[event->ContentBlockStop_index as int] !is ToolUse ==> event_report(
            s,
            event,
        ) is None,
{
}

} // verus!
