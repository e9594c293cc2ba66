//! Conversation messages.

use vstd::prelude::*;
use vstd::string::StringExecFns;

use crate::json::{Json, JsonTree};

verus! {

/// Who a message comes from.
#[derive(Debug, Clone, Copy, PartialEq, Eq, Structural)]
pub enum Role {
    System,
    User,
    Assistant,
    Tool,
}

/// One piece of a message's content.
#[derive(Debug, PartialEq, Eq)]
pub enum ContentBlock {
    Text { text: String },
    Image { data: Vec<u8>, media_type: String },
    File { data: Vec<u8>, media_type: String, name: Option<String> },
}

/// The model of a [`ContentBlock`].
#[verifier::ext_equal]
pub enum BlockView {
    Text { text: Seq<char> },
    Image { data: Seq<u8>, media_type: Seq<char> },
    File { data: Seq<u8>, media_type: Seq<char>, name: Option<Seq<char>> },
}

/// A piece of the model's reasoning.
#[derive(Debug, PartialEq, Eq)]
pub struct ThinkingBlock {
    pub text: String,
    pub signature: Option<String>,
}

/// The model of a [`ThinkingBlock`].
#[verifier::ext_equal]
pub struct ThinkingView {
    pub text: Seq<char>,
    pub signature: Option<Seq<char>>,
}

/// A request to run a tool.
#[derive(Debug, PartialEq, Eq)]
pub struct ToolCall {
    pub id: String,
    pub name: String,
    pub arguments: Json,
}

/// The model of a [`ToolCall`].
#[verifier::ext_equal]
pub struct ToolCallView {
    pub id: Seq<char>,
    pub name: Seq<char>,
    pub arguments: JsonTree,
}

/// One message of a conversation.
#[derive(Debug, PartialEq, Eq)]
pub struct Message {
    pub role: Role,
    pub content: Vec<ContentBlock>,
    pub thinking_content: Vec<ThinkingBlock>,
    pub tool_calls: Vec<ToolCall>,
    /// The call that a tool message answers.
    pub tool_call_id: Option<String>,
    /// Tokens of the whole exchange, as the provider reported them.
    pub token_count: Option<usize>,
    /// Tokens of the prompt, as the provider reported them.
    pub context_tokens: Option<usize>,
    /// Whether the message stands for a compacted span.
    pub compacted: bool,
}

/// The model of a [`Message`].
#[verifier::ext_equal]
pub struct MessageView {
    pub role: Role,
    pub content: Seq<BlockView>,
    pub thinking_content: Seq<ThinkingView>,
    pub tool_calls: Seq<ToolCallView>,
    pub tool_call_id: Option<Seq<char>>,
    pub token_count: Option<usize>,
    pub context_tokens: Option<usize>,
    pub compacted: bool,
}

impl DeepView for ContentBlock {
    type V = BlockView;

    open spec fn deep_view(&self) -> BlockView {
        match *self {
            ContentBlock::Text { text } => BlockView::Text { text: text@ },
            ContentBlock::Image { data, media_type } => BlockView::Image {
                data: data@,
                media_type: media_type@,
            },
            ContentBlock::File { data, media_type, name } => BlockView::File {
                data: data@,
                media_type: media_type@,
                name: name.deep_view(),
            },
        }
    }
}

impl DeepView for ThinkingBlock {
    type V = ThinkingView;

    open spec fn deep_view(&self) -> ThinkingView {
        ThinkingView { text: self.text@, signature: self.signature.deep_view() }
    }
}

impl DeepView for ToolCall {
    type V = ToolCallView;

    open spec fn deep_view(&self) -> ToolCallView {
        ToolCallView {
            id: self.id@,
            name: self.name@,
            arguments: self.arguments.deep_view(),
        }
    }
}

impl DeepView for Message {
    type V = MessageView;

    open spec fn deep_view(&self) -> MessageView {
        MessageView {
            role: self.role,
            content: self.content.deep_view(),
            thinking_content: self.thinking_content.deep_view(),
            tool_calls: self.tool_calls.deep_view(),
            tool_call_id: self.tool_call_id.deep_view(),
            token_count: self.token_count,
            context_tokens: self.context_tokens,
            compacted: self.compacted,
        }
    }
}

impl Clone for ContentBlock {
    fn clone(&self) -> (r: ContentBlock)
        ensures
            r.deep_view() == self.deep_view(),
    {
        match self {
            ContentBlock::Text { text } => ContentBlock::Text { text: text.clone() },
            ContentBlock::Image { data, media_type } => {
                let copy = data.clone();
                assert(copy@ =~= data@);
                ContentBlock::Image { data: copy, media_type: media_type.clone() }
            },
            ContentBlock::File { data, media_type, name } => {
                let copy = data.clone();
                assert(copy@ =~= data@);
                ContentBlock::File {
                    data: copy,
                    media_type: media_type.clone(),
                    name: clone_optional_text(name),
                }
            },
        }
    }
}

impl Clone for ThinkingBlock {
    fn clone(&self) -> (r: ThinkingBlock)
        ensures
            r.deep_view() == self.deep_view(),
    {
        ThinkingBlock {
            text: self.text.clone(),
            signature: clone_optional_text(&self.signature),
        }
    }
}

impl Clone for ToolCall {
    fn clone(&self) -> (r: ToolCall)
        ensures
            r.deep_view() == self.deep_view(),
    {
        ToolCall {
            id: self.id.clone(),
            name: self.name.clone(),
            arguments: self.arguments.clone(),
        }
    }
}

impl Clone for Message {
    fn clone(&self) -> (r: Message)
        ensures
            r.deep_view() == self.deep_view(),
    {
        let content = self.content.clone();
        assert(content.deep_view() =~= self.content.deep_view());
        let thinking_content = self.thinking_content.clone();
        assert(thinking_content.deep_view() =~= self.thinking_content.deep_view());
        let tool_calls = self.tool_calls.clone();
        assert(tool_calls.deep_view() =~= self.tool_calls.deep_view());
        Message {
            role: self.role,
            content,
            thinking_content,
            tool_calls,
            tool_call_id: clone_optional_text(&self.tool_call_id),
            token_count: self.token_count,
            context_tokens: self.context_tokens,
            compacted: self.compacted,
        }
    }
}

/// A copy of an optional text.
pub fn clone_optional_text(t: &Option<String>) -> (r: Option<String>)
    ensures
        r.deep_view() == t.deep_view(),
{
    match t {
        Some(s) => Some(s.clone()),
        None => None,
    }
}

/// The text of `blocks`: every text block, one after the other.
pub open spec fn text_of(blocks: Seq<BlockView>) -> Seq<char>
    decreases blocks.len(),
{
    if blocks.len() == 0 {
        Seq::empty()
    } else {
        match blocks.last() {
            BlockView::Text { text } => text_of(blocks.drop_last()) + text,
            _ => text_of(blocks.drop_last()),
        }
    }
}

/// Whether a block is an attachment: an image or a file.
pub open spec fn attachment(block: BlockView) -> bool {
    !(block is Text)
}

impl ContentBlock {
    /// A text block.
    pub fn text(text: &str) -> (r: ContentBlock)
        ensures
            r.deep_view() == (BlockView::Text { text: text@ }),
    {
        ContentBlock::Text { text: text.to_owned() }
    }
}

/// The message of `role` with the single text block `text` and nothing else.
pub open spec fn plain_message(role: Role, text: Seq<char>) -> MessageView {
    MessageView {
        role,
        content: seq![BlockView::Text { text }],
        thinking_content: Seq::empty(),
        tool_calls: Seq::empty(),
        tool_call_id: None,
        token_count: None,
        context_tokens: None,
        compacted: false,
    }
}

impl Message {
    /// A message of `role` with the given content and nothing else.
    fn of_blocks(role: Role, content: Vec<ContentBlock>) -> (r: Message)
        ensures
            r.deep_view() == (MessageView {
                content: content.deep_view(),
                ..plain_message(role, Seq::empty())
            }),
    {
        let r = Message {
            role,
            content,
            thinking_content: Vec::new(),
            tool_calls: Vec::new(),
            tool_call_id: None,
            token_count: None,
            context_tokens: None,
            compacted: false,
        };
        assert(r.deep_view() =~= (MessageView {
            content: content.deep_view(),
            ..plain_message(role, Seq::empty())
        }));
        r
    }

    fn of_text(role: Role, text: &str) -> (r: Message)
        ensures
            r.deep_view() == plain_message(role, text@),
    {
        let mut content: Vec<ContentBlock> = Vec::new();
        content.push(ContentBlock::text(text));
        let r = Message::of_blocks(role, content);
        assert(r.deep_view().content =~= seq![BlockView::Text { text: text@ }]);
        r
    }

    /// A system message.
    pub fn system(text: &str) -> (r: Message)
        ensures
            r.deep_view() == plain_message(Role::System, text@),
    {
        Message::of_text(Role::System, text)
    }

    /// A user message.
    pub fn user(text: &str) -> (r: Message)
        ensures
            r.deep_view() == plain_message(Role::User, text@),
    {
        Message::of_text(Role::User, text)
    }

    /// An assistant message.
    pub fn assistant(text: &str) -> (r: Message)
        ensures
            r.deep_view() == plain_message(Role::Assistant, text@),
    {
        Message::of_text(Role::Assistant, text)
    }

    /// A user message made of the given blocks.
    pub fn user_blocks(content: Vec<ContentBlock>) -> (r: Message)
        ensures
            r.deep_view() == (MessageView {
                content: content.deep_view(),
                ..plain_message(Role::User, Seq::empty())
            }),
    {
        Message::of_blocks(Role::User, content)
    }

    /// The result of the tool call `id`.
    pub fn tool_result(id: &str, text: &str) -> (r: Message)
        ensures
            r.deep_view() == (MessageView {
                tool_call_id: Some(id@),
                ..plain_message(Role::Tool, text@)
            }),
    {
        let mut r = Message::of_text(Role::Tool, text);
        r.tool_call_id = Some(id.to_owned());
        r
    }

    /// An assistant message without content that requests `tool_calls`.
    pub fn with_tool_calls(tool_calls: Vec<ToolCall>) -> (r: Message)
        ensures
            r.deep_view() == (MessageView {
                content: Seq::empty(),
                tool_calls: tool_calls.deep_view(),
                ..plain_message(Role::Assistant, Seq::empty())
            }),
    {
        let mut r = Message::of_blocks(Role::Assistant, Vec::new());
        r.tool_calls = tool_calls;
        assert(r.deep_view().content =~= Seq::empty());
        r
    }

    /// The text of the message: its text blocks, one after the other.
    pub fn text_content(&self) -> (r: String)
        ensures
            r@ == text_of(self.deep_view().content),
    {
        let mut out = String::new();
        let ghost blocks = self.content.deep_view();
        for i in 0..self.content.len()
            invariant
                blocks == self.content.deep_view(),
                out@ == text_of(blocks.take(i as int)),
        {
            assert(blocks.take(i + 1).drop_last() =~= blocks.take(i as int));
            assert(blocks.take(i + 1).last() == self.content@[i as int].deep_view());
            match &self.content[i] {
                ContentBlock::Text { text } => {
                    out.append(text.as_str());
                },
                _ => {},
            }
        }
        assert(blocks.take(blocks.len() as int) =~= blocks);
        out
    }

    /// Whether the message carries an image or a file.
    pub fn has_attachments(&self) -> (r: bool)
        ensures
            r == exists|i: int|
                0 <= i < self.deep_view().content.len() && attachment(
                    #[trigger] self.deep_view().content[i],
                ),
    {
        for i in 0..self.content.len()
            invariant
                forall|k: int|
                    0 <= k < i ==> !attachment(#[trigger] self.deep_view().content[k]),
        {
            assert(self.deep_view().content[i as int] == self.content@[i as int].deep_view());
            match &self.content[i] {
                ContentBlock::Text { .. } => {},
                _ => {
                    assert(attachment(self.deep_view().content[i as int]));
                    return true;
                },
            }
        }
        false
    }

    /// Replaces the reasoning of the message by the single block `text`.
    pub fn set_reasoning_content(&mut self, text: String)
        ensures
            final(self).deep_view() == (MessageView {
                thinking_content: seq![ThinkingView { text: text@, signature: None }],
                ..old(self).deep_view()
            }),
    {
        let mut blocks: Vec<ThinkingBlock> = Vec::new();
        blocks.push(ThinkingBlock { text, signature: None });
        self.thinking_content = blocks;
        assert(self.deep_view().thinking_content =~= seq![
            ThinkingView { text: text@, signature: None },
        ]);
    }
}

// ---------------------------------------------------------------------------
// Laws
// ---------------------------------------------------------------------------

/// The text of a message is all the text in it: no block has no text, a text block has
/// its own and an attachment none, and blocks one after the other have their texts one
/// after the other.
pub proof fn law_text_is_all_the_text(a: Seq<BlockView>, b: Seq<BlockView>, block: BlockView)
    ensures
        text_of(Seq::empty()) == Seq::<char>::empty(),
        block matches BlockView::Text { text: t } ==> text_of(seq![block]) == t,
        !(block is Text) ==> text_of(seq![block]) == Seq::<char>::empty(),
        text_of(a + b) == text_of(a) + text_of(b),
    decreases b.len(),
{
    assert(seq![block].drop_last() =~= Seq::empty());
    assert(text_of(seq![block].drop_last()) =~= Seq::empty());
    if let BlockView::Text { text: t } = block {
        assert(Seq::<char>::empty() + t =~= t);
    }
    if b.len() == 0 {
        assert(a + b =~= a);
        assert(text_of(a) + text_of(b) =~= text_of(a));
    } else {
        law_text_is_all_the_text(a, b.drop_last(), block);
        assert((a + b).drop_last() =~= a + b.drop_last());
        assert(text_of(a + b) =~= text_of(a) + text_of(b));
    }
}

/// Images and files are attachments, and texts are not.
pub proof fn law_attachments(block: BlockView)
    ensures
        block is Image ==> attachment(block),
        block is File ==> attachment(block),
        block is Text ==> !attachment(block),
{
}

/// A message made of a text has its role and its text, and nothing else.
pub proof fn law_plain_messages_hold_their_text(role: Role, t: Seq<char>)
    ensures
        ({
            let m = plain_message(role, t);
            &&& m.role == role
            &&& text_of(m.content) == t
            &&& m.content.len() == 1
            &&& m.content[0] is Text
            &&& m.thinking_content.len() == 0
            &&& m.tool_calls.len() == 0
            &&& m.tool_call_id is None
            &&& m.token_count is None
            &&& m.context_tokens is None
            &&& !m.compacted
        }),
{
    law_text_is_all_the_text(Seq::empty(), Seq::empty(), BlockView::Text { text: t });
}

/// The model of a message tells its fields apart.
pub proof fn law_models_of_messages_hold_the_fields(m: Message, c: ToolCall, t: ThinkingBlock)
    ensures
        m.deep_view().role == m.role,
        m.deep_view().content == m.content.deep_view(),
        m.deep_view().thinking_content == m.thinking_content.deep_view(),
        m.deep_view().tool_calls == m.tool_calls.deep_view(),
        m.deep_view().tool_call_id == m.tool_call_id.deep_view(),
        m.deep_view().token_count == m.token_count,
        m.deep_view().context_tokens == m.context_tokens,
        m.deep_view().compacted == m.compacted,
        c.deep_view().id == c.id@,
        c.deep_view().name == c.name@,
        c.deep_view().arguments == c.arguments.deep_view(),
        t.deep_view().text == t.text@,
        t.deep_view().signature == t.signature.deep_view(),
{
}

/// The model of a block tells its kind and its fields.
pub proof fn law_models_of_blocks_hold_the_fields(b: ContentBlock)
    ensures
        match b {
            ContentBlock::Text { text: t } => b.deep_view() is Text && b.deep_view()->Text_text == t@,
            ContentBlock::Image { data: d, media_type: m } => b.deep_view() is Image
                && b.deep_view()->Image_data == d@ && b.deep_view()->Image_media_type == m@,
            ContentBlock::File { data: d, media_type: m, name: n } => b.deep_view() is File
                && b.deep_view()->File_data == d@ && b.deep_view()->File_media_type == m@
                && b.deep_view()->File_name == n.deep_view(),
        },
{
}

} // verus!
