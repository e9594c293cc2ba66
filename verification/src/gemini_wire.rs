//! The messages of Google Gemini's native protocol.

use vstd::prelude::*;
use vstd::string::StringExecFns;

use crate::error::ProviderError;
use crate::id_map::{inserted, law_last_insertion_wins, IdMap};
use crate::json::{object_of_text, Json, JsonTree};
use crate::lists::{lemma_picks_last, picks};
use crate::message::{
    attachment, law_plain_messages_hold_their_text, plain_message, text_of, BlockView, ContentBlock, Message, MessageView, Role,
    ToolCall, ToolCallView,
};
use crate::text::push_char;

verus! {

// ---------------------------------------------------------------------------
// Parts and contents
// ---------------------------------------------------------------------------

/// Binary data that stands in a message.
#[derive(Debug, PartialEq, Eq)]
pub struct InlineData {
    pub mime_type: String,
    /// The data in base64.
    pub data: String,
}

/// A request of the model to call a function.
#[derive(Debug, PartialEq, Eq)]
pub struct FunctionCall {
    pub name: String,
    pub args: Json,
    pub id: String,
}

/// The result of a function.
#[derive(Debug, PartialEq, Eq)]
pub struct FunctionResponse {
    pub name: String,
    pub response: Json,
}

/// A part of a content. The signature stands beside the function call that it
/// belongs to.
#[derive(Debug, PartialEq, Eq)]
pub struct Part {
    pub text: Option<String>,
    pub function_call: Option<FunctionCall>,
    pub function_response: Option<FunctionResponse>,
    pub thought_signature: Option<String>,
    pub inline_data: Option<InlineData>,
}

/// What one side says.
#[derive(Debug, PartialEq, Eq)]
pub struct Content {
    pub role: String,
    pub parts: Vec<Part>,
}

/// The model of an [`InlineData`].
#[verifier::ext_equal]
pub struct InlineView {
    pub mime_type: Seq<char>,
    pub data: Seq<char>,
}

/// The model of a [`FunctionResponse`].
#[verifier::ext_equal]
pub struct ResponseView {
    pub name: Seq<char>,
    pub response: JsonTree,
}

/// The model of a [`Part`].
#[verifier::ext_equal]
pub struct PartView {
    pub text: Option<Seq<char>>,
    pub function_call: Option<ToolCallView>,
    pub function_response: Option<ResponseView>,
    pub thought_signature: Option<Seq<char>>,
    pub inline_data: Option<InlineView>,
}

/// The model of a [`Content`].
#[verifier::ext_equal]
pub struct ContentView {
    pub role: Seq<char>,
    pub parts: Seq<PartView>,
}

impl DeepView for InlineData {
    type V = InlineView;

    open spec fn deep_view(&self) -> InlineView {
        InlineView { mime_type: self.mime_type@, data: self.data@ }
    }
}

impl DeepView for FunctionCall {
    type V = ToolCallView;

    open spec fn deep_view(&self) -> ToolCallView {
        ToolCallView { id: self.id@, name: self.name@, arguments: self.args.deep_view() }
    }
}

impl DeepView for FunctionResponse {
    type V = ResponseView;

    open spec fn deep_view(&self) -> ResponseView {
        ResponseView { name: self.name@, response: self.response.deep_view() }
    }
}

impl DeepView for Part {
    type V = PartView;

    open spec fn deep_view(&self) -> PartView {
        PartView {
            text: self.text.deep_view(),
            function_call: self.function_call.deep_view(),
            function_response: self.function_response.deep_view(),
            thought_signature: self.thought_signature.deep_view(),
            inline_data: self.inline_data.deep_view(),
        }
    }
}

impl DeepView for Content {
    type V = ContentView;

    open spec fn deep_view(&self) -> ContentView {
        ContentView { role: self.role@, parts: self.parts.deep_view() }
    }
}

/// A part that holds nothing but `text`.
pub open spec fn text_part(text: Seq<char>) -> PartView {
    PartView {
        text: Some(text),
        function_call: None,
        function_response: None,
        thought_signature: None,
        inline_data: None,
    }
}

/// A part that holds nothing but the data of an attachment.
pub open spec fn inline_part(data: Seq<u8>, media_type: Seq<char>) -> PartView {
    PartView {
        text: None,
        function_call: None,
        function_response: None,
        thought_signature: None,
        inline_data: Some(InlineView { mime_type: media_type, data: base64_text(data) }),
    }
}

/// The value of `key`, or no text.
pub open spec fn value_or_empty(m: Map<Seq<char>, Seq<char>>, key: Seq<char>) -> Seq<char> {
    if m.contains_key(key) {
        m[key]
    } else {
        Seq::empty()
    }
}

/// The part for the result that `m` holds: the text under `result`, with the name
/// of the function that was called.
pub open spec fn response_part(m: MessageView, names: Map<Seq<char>, Seq<char>>) -> PartView {
    let id = match m.tool_call_id {
        Some(id) => id,
        None => Seq::empty(),
    };
    PartView {
        text: None,
        function_call: None,
        function_response: Some(
            ResponseView {
                name: value_or_empty(names, id),
                response: JsonTree::Object(
                    seq![("result"@, JsonTree::Text(text_of(m.content)))],
                ),
            },
        ),
        thought_signature: None,
        inline_data: None,
    }
}

/// The part for a tool call, with the signature that was recorded for it.
pub open spec fn call_part(call: ToolCallView, signatures: Map<Seq<char>, Seq<char>>) -> PartView {
    PartView {
        text: None,
        function_call: Some(call),
        function_response: None,
        thought_signature: if signatures.contains_key(call.id) {
            Some(signatures[call.id])
        } else {
            None
        },
        inline_data: None,
    }
}

/// The parts for the blocks of a message with attachments. Text that is empty is
/// left out.
pub open spec fn block_parts(blocks: Seq<BlockView>) -> Seq<PartView>
    decreases blocks.len(),
{
    if blocks.len() == 0 {
        Seq::empty()
    } else {
        let before = block_parts(blocks.drop_last());
        match blocks.last() {
            BlockView::Text { text } => if text.len() > 0 {
                before.push(text_part(text))
            } else {
                before
            },
            BlockView::Image { data, media_type } => before.push(inline_part(data, media_type)),
            BlockView::File { data, media_type, .. } => before.push(
                inline_part(data, media_type),
            ),
        }
    }
}

/// Whether some block is an attachment.
pub open spec fn with_attachments(blocks: Seq<BlockView>) -> bool {
    exists|i: int| 0 <= i < blocks.len() && attachment(#[trigger] blocks[i])
}

/// `parts`, or one part without text where there is none.
pub open spec fn at_least_one(parts: Seq<PartView>) -> Seq<PartView> {
    if parts.len() == 0 {
        seq![text_part(Seq::empty())]
    } else {
        parts
    }
}

/// What a user message becomes.
pub open spec fn user_content(m: MessageView) -> ContentView {
    ContentView {
        role: "user"@,
        parts: if with_attachments(m.content) {
            at_least_one(block_parts(m.content))
        } else {
            seq![text_part(text_of(m.content))]
        },
    }
}

/// What an assistant message becomes: its text, where there is any, then its
/// tool calls.
pub open spec fn model_content(
    m: MessageView,
    signatures: Map<Seq<char>, Seq<char>>,
) -> ContentView {
    let said = if text_of(m.content).len() > 0 {
        seq![text_part(text_of(m.content))]
    } else {
        Seq::empty()
    };
    ContentView {
        role: "model"@,
        parts: at_least_one(
            said + m.tool_calls.map_values(|c: ToolCallView| call_part(c, signatures)),
        ),
    }
}

/// How many tool results stand at the front of `messages`.
pub open spec fn leading_results(messages: Seq<MessageView>) -> nat
    decreases messages.len(),
{
    if messages.len() == 0 || messages.first().role != Role::Tool {
        0
    } else {
        1 + leading_results(messages.drop_first())
    }
}

/// What a run of tool results becomes.
pub open spec fn results_content(
    results: Seq<MessageView>,
    names: Map<Seq<char>, Seq<char>>,
) -> ContentView {
    ContentView {
        role: "user"@,
        parts: results.map_values(|m: MessageView| response_part(m, names)),
    }
}

/// The contents for a conversation. System messages are left out, and neighbouring
/// tool results become one content.
pub open spec fn contents_of(
    messages: Seq<MessageView>,
    signatures: Map<Seq<char>, Seq<char>>,
    names: Map<Seq<char>, Seq<char>>,
) -> Seq<ContentView>
    decreases messages.len(),
    via contents_of_decreases
{
    if messages.len() == 0 {
        Seq::empty()
    } else {
        let rest = contents_of(messages.drop_first(), signatures, names);
        match messages.first().role {
            Role::System => rest,
            Role::User => seq![user_content(messages.first())] + rest,
            Role::Assistant => seq![model_content(messages.first(), signatures)] + rest,
            Role::Tool => {
                let n = leading_results(messages) as int;
                seq![results_content(messages.take(n), names)] + contents_of(
                    messages.skip(n),
                    signatures,
                    names,
                )
            },
        }
    }
}

#[via_fn]
proof fn contents_of_decreases(
    messages: Seq<MessageView>,
    signatures: Map<Seq<char>, Seq<char>>,
    names: Map<Seq<char>, Seq<char>>,
) {
    lemma_leading_results(messages);
}

proof fn lemma_leading_results(messages: Seq<MessageView>)
    ensures
        leading_results(messages) <= messages.len(),
        forall|k: int| 0 <= k < leading_results(messages) ==> messages[k].role == Role::Tool,
        leading_results(messages) < messages.len() ==> messages[leading_results(
            messages,
        ) as int].role != Role::Tool,
    decreases messages.len(),
{
    if messages.len() > 0 && messages.first().role == Role::Tool {
        let rest = messages.drop_first();
        lemma_leading_results(rest);
        assert forall|k: int| 0 <= k < leading_results(messages) implies messages[k].role
            == Role::Tool by {
            if k > 0 {
                assert(rest[k - 1] == messages[k]);
            }
        }
    }
}

proof fn lemma_leading_results_is(messages: Seq<MessageView>, n: int)
    requires
        0 <= n <= messages.len(),
        forall|k: int| 0 <= k < n ==> messages[k].role == Role::Tool,
        n < messages.len() ==> messages[n].role != Role::Tool,
    ensures
        leading_results(messages) == n,
{
    lemma_leading_results(messages);
}

/// The texts of the system messages, in order.
pub open spec fn system_texts(messages: Seq<MessageView>) -> Seq<Seq<char>>
    decreases messages.len(),
{
    if messages.len() == 0 {
        Seq::empty()
    } else {
        let before = system_texts(messages.drop_last());
        if messages.last().role == Role::System {
            before.push(text_of(messages.last().content))
        } else {
            before
        }
    }
}

// ---------------------------------------------------------------------------
// Converting a conversation
// ---------------------------------------------------------------------------

/// The byte of `data` at `i`; zero behind its end.
pub open spec fn byte_or_zero(data: Seq<u8>, i: int) -> int {
    if i < data.len() {
        data[i] as int
    } else {
        0
    }
}

/// The `j`-th of the four characters that stand for the three bytes from `3 * i`
/// on: six bits of them as a digit, or padding where no byte reaches into them.
pub open spec fn base64_char(data: Seq<u8>, i: int, j: int) -> char {
    if 3 * i + j > data.len() {
        '='
    } else {
        let bits = 65536 * byte_or_zero(data, 3 * i) + 256 * byte_or_zero(data, 3 * i + 1)
            + byte_or_zero(data, 3 * i + 2);
        let digit = if j == 0 {
            bits / 262144
        } else if j == 1 {
            bits / 4096 % 64
        } else if j == 2 {
            bits / 64 % 64
        } else {
            bits % 64
        };
        "ABCDEFGHIJKLMNOPQRSTUVWXYZabcdefghijklmnopqrstuvwxyz0123456789+/"@[digit]
    }
}

/// `data` in base64: the standard alphabet, with padding.
pub open spec fn base64_text(data: Seq<u8>) -> Seq<char> {
    Seq::new(4 * ((data.len() + 2) / 3), |k: int| base64_char(data, k / 4, k % 4))
}

/// Calls `Engine::encode` of `base64::prelude::BASE64_STANDARD`, which writes the
/// bytes in base64 with the standard alphabet and padding. Like every allocation,
/// the call ends the program where the text is too long to be held.
#[verifier::external_body]
fn encode_base64(data: &[u8]) -> (r: String)
    ensures
        r@ == base64_text(data@),
{
    base64::Engine::encode(&base64::prelude::BASE64_STANDARD, data)
}

fn make_text_part(text: String) -> (r: Part)
    ensures
        r.deep_view() == text_part(text@),
{
    Part {
        text: Some(text),
        function_call: None,
        function_response: None,
        thought_signature: None,
        inline_data: None,
    }
}

fn make_inline_part(data: &Vec<u8>, media_type: &str) -> (r: Part)
    ensures
        r.deep_view() == inline_part(data@, media_type@),
{
    Part {
        text: None,
        function_call: None,
        function_response: None,
        thought_signature: None,
        inline_data: Some(
            InlineData { mime_type: media_type.to_owned(), data: encode_base64(data.as_slice()) },
        ),
    }
}

fn make_response_part(m: &Message, names: &IdMap) -> (r: Part)
    ensures
        r.deep_view() == response_part(m.deep_view(), names@),
{
    let id = match &m.tool_call_id {
        Some(id) => id.clone(),
        None => String::new(),
    };
    let name = match names.get(id.as_str()) {
        Some(name) => name,
        None => String::new(),
    };
    let response = object_of_text("result", m.text_content());
    Part {
        text: None,
        function_call: None,
        function_response: Some(FunctionResponse { name, response }),
        thought_signature: None,
        inline_data: None,
    }
}

fn make_call_part(call: &ToolCall, signatures: &IdMap) -> (r: Part)
    ensures
        r.deep_view() == call_part(call.deep_view(), signatures@),
{
    let thought_signature = signatures.get(call.id.as_str());
    Part {
        text: None,
        function_call: Some(
            FunctionCall {
                name: call.name.clone(),
                args: call.arguments.clone(),
                id: call.id.clone(),
            },
        ),
        function_response: None,
        thought_signature,
        inline_data: None,
    }
}

fn make_user_content(m: &Message) -> (r: Content)
    ensures
        r.deep_view() == user_content(m.deep_view()),
{
    let mut parts: Vec<Part> = Vec::new();
    if m.has_attachments() {
        let ghost blocks = m.content.deep_view();
        assert(parts.deep_view() =~= block_parts(blocks.take(0)));
        for i in 0..m.content.len()
            invariant
                blocks == m.content.deep_view(),
                parts.deep_view() == block_parts(blocks.take(i as int)),
        {
            let ghost before = parts.deep_view();
            assert(blocks.take(i + 1).drop_last() =~= blocks.take(i as int));
            assert(blocks.take(i + 1).last() == m.content@[i as int].deep_view());
            match &m.content[i] {
                ContentBlock::Text { text } => {
                    if !text.as_str().is_empty() {
                        let part = make_text_part(text.clone());
                        parts.push(part);
                        assert(parts.deep_view() =~= before.push(part.deep_view()));
                    }
                },
                ContentBlock::Image { data, media_type } => {
                    let part = make_inline_part(data, media_type.as_str());
                    parts.push(part);
                    assert(parts.deep_view() =~= before.push(part.deep_view()));
                },
                ContentBlock::File { data, media_type, name } => {
                    let part = make_inline_part(data, media_type.as_str());
                    parts.push(part);
                    assert(parts.deep_view() =~= before.push(part.deep_view()));
                },
            }
        }
        assert(blocks.take(blocks.len() as int) =~= blocks);
        if parts.len() == 0 {
            parts.push(make_text_part(String::new()));
            assert(parts.deep_view() =~= seq![text_part(Seq::empty())]);
        }
    } else {
        parts.push(make_text_part(m.text_content()));
        assert(parts.deep_view() =~= seq![text_part(text_of(m.deep_view().content))]);
    }
    Content { role: "user".to_owned(), parts }
}

fn make_model_content(m: &Message, signatures: &IdMap) -> (r: Content)
    ensures
        r.deep_view() == model_content(m.deep_view(), signatures@),
{
    let mut parts: Vec<Part> = Vec::new();
    let text = m.text_content();
    let ghost said = if text@.len() > 0 {
        seq![text_part(text@)]
    } else {
        Seq::<PartView>::empty()
    };
    let ghost calls = m.deep_view().tool_calls.map_values(
        |c: ToolCallView| call_part(c, signatures@),
    );
    if !text.as_str().is_empty() {
        parts.push(make_text_part(text));
    }
    assert(parts.deep_view() =~= said + calls.take(0));
    for i in 0..m.tool_calls.len()
        invariant
            calls == m.tool_calls.deep_view().map_values(
                |c: ToolCallView| call_part(c, signatures@),
            ),
            parts.deep_view() == said + calls.take(i as int),
    {
        let ghost before = parts.deep_view();
        let part = make_call_part(&m.tool_calls[i], signatures);
        parts.push(part);
        assert(calls[i as int] == part.deep_view());
        assert(parts.deep_view() =~= before.push(part.deep_view()));
        assert(parts.deep_view() =~= said + calls.take(i + 1));
    }
    assert(calls.take(calls.len() as int) =~= calls);
    if parts.len() == 0 {
        parts.push(make_text_part(String::new()));
        assert(parts.deep_view() =~= seq![text_part(Seq::empty())]);
    }
    Content { role: "model".to_owned(), parts }
}

/// Collects the texts of the system messages.
fn collect_system_texts(messages: &Vec<Message>) -> (r: Vec<String>)
    ensures
        r.deep_view() == system_texts(messages.deep_view()),
{
    let mut out: Vec<String> = Vec::new();
    let ghost all = messages.deep_view();
    assert(out.deep_view() =~= system_texts(all.take(0)));
    for i in 0..messages.len()
        invariant
            all == messages.deep_view(),
            out.deep_view() == system_texts(all.take(i as int)),
    {
        let ghost before = out.deep_view();
        assert(all.take(i + 1).drop_last() =~= all.take(i as int));
        assert(all.take(i + 1).last() == messages@[i as int].deep_view());
        if messages[i].role == Role::System {
            let text = messages[i].text_content();
            out.push(text);
            assert(out.deep_view() =~= before.push(text@));
        }
    }
    assert(all.take(all.len() as int) =~= all);
    out
}

/// Converts a conversation: the texts of the system instruction, or `None` where
/// there is no system message, and the contents.
pub fn convert_messages(
    messages: &Vec<Message>,
    thought_signatures: &IdMap,
    tool_names: &IdMap,
) -> (r: (Option<Vec<String>>, Vec<Content>))
    ensures
        r.0.deep_view() == (if system_texts(messages.deep_view()).len() == 0 {
            None
        } else {
            Some(system_texts(messages.deep_view()))
        }),
        r.1.deep_view() == contents_of(
            messages.deep_view(),
            thought_signatures@,
            tool_names@,
        ),
{
    let system_parts = collect_system_texts(messages);
    let system_instruction = if system_parts.len() == 0 {
        None
    } else {
        Some(system_parts)
    };
    let ghost all = messages.deep_view();
    let ghost sigs = thought_signatures@;
    let ghost names = tool_names@;
    let ghost goal = contents_of(all, sigs, names);
    let mut contents: Vec<Content> = Vec::new();
    let mut i: usize = 0;
    assert(all.skip(0) =~= all);
    assert(contents.deep_view() + contents_of(all.skip(0), sigs, names) =~= goal);
    while i < messages.len()
        invariant
            all == messages.deep_view(),
            sigs == thought_signatures@,
            names == tool_names@,
            i <= messages@.len(),
            contents.deep_view() + contents_of(all.skip(i as int), sigs, names) == goal,
        decreases messages@.len() - i,
    {
        let ghost before = contents.deep_view();
        let ghost rest = all.skip(i as int);
        assert(rest.first() == messages@[i as int].deep_view());
        assert(rest.drop_first() =~= all.skip(i + 1));
        match messages[i].role {
            Role::System => {
                i += 1;
            },
            Role::User => {
                let content = make_user_content(&messages[i]);
                contents.push(content);
                assert(contents.deep_view() =~= before.push(content.deep_view()));
                assert(contents.deep_view() + contents_of(all.skip(i + 1), sigs, names) =~= before
                    + contents_of(rest, sigs, names));
                i += 1;
            },
            Role::Assistant => {
                let content = make_model_content(&messages[i], thought_signatures);
                contents.push(content);
                assert(contents.deep_view() =~= before.push(content.deep_view()));
                assert(contents.deep_view() + contents_of(all.skip(i + 1), sigs, names) =~= before
                    + contents_of(rest, sigs, names));
                i += 1;
            },
            Role::Tool => {
                let start = i;
                let mut parts: Vec<Part> = Vec::new();
                assert(parts.deep_view() =~= results_content(rest.take(0), names).parts);
                while i < messages.len() && messages[i].role == Role::Tool
                    invariant
                        all == messages.deep_view(),
                        names == tool_names@,
                        rest == all.skip(start as int),
                        start <= i <= messages@.len(),
                        forall|k: int| 0 <= k < i - start ==> rest[k].role == Role::Tool,
                        parts.deep_view() == results_content(rest.take(i - start), names).parts,
                    decreases messages@.len() - i,
                {
                    let ghost had = parts.deep_view();
                    let part = make_response_part(&messages[i], tool_names);
                    assert(rest[i - start] == messages@[i as int].deep_view());
                    parts.push(part);
                    assert(parts.deep_view() =~= had.push(part.deep_view()));
                    assert(parts.deep_view() =~= results_content(
                        rest.take(i - start + 1),
                        names,
                    ).parts);
                    i += 1;
                }
                proof {
                    if i < messages@.len() {
                        assert(rest[i - start] == messages@[i as int].deep_view());
                    }
                    lemma_leading_results_is(rest, i - start);
                }
                let content = Content { role: "user".to_owned(), parts };
                contents.push(content);
                assert(contents.deep_view() =~= before.push(content.deep_view()));
                assert(rest.skip(i - start) =~= all.skip(i as int));
                assert(contents.deep_view() + contents_of(all.skip(i as int), sigs, names)
                    =~= before + contents_of(rest, sigs, names));
            },
        }
    }
    assert(contents.deep_view() =~= contents.deep_view() + contents_of(
        all.skip(all.len() as int),
        sigs,
        names,
    ));
    (system_instruction, contents)
}

// ---------------------------------------------------------------------------
// Replies
// ---------------------------------------------------------------------------

/// Token counts of an exchange.
#[derive(Debug, Clone, Copy, PartialEq, Eq, Structural)]
pub struct UsageMetadata {
    pub prompt_token_count: usize,
    pub total_token_count: usize,
}

/// A reply, or a piece of a streamed one: the content of each candidate, and the
/// token counts where they are given.
#[derive(Debug)]
pub struct GenerateContentResponse {
    pub candidates: Vec<Content>,
    pub usage_metadata: Option<UsageMetadata>,
}

/// The model of a [`GenerateContentResponse`].
#[verifier::ext_equal]
pub struct ReplyView {
    pub candidates: Seq<ContentView>,
    pub usage_metadata: Option<UsageMetadata>,
}

impl DeepView for GenerateContentResponse {
    type V = ReplyView;

    open spec fn deep_view(&self) -> ReplyView {
        ReplyView {
            candidates: self.candidates.deep_view(),
            usage_metadata: self.usage_metadata,
        }
    }
}

/// The texts of `parts`, one per line: a line break stands before a text unless
/// nothing has been said before it.
pub open spec fn lines_said(parts: Seq<PartView>) -> Seq<char>
    decreases parts.len(),
{
    if parts.len() == 0 {
        Seq::empty()
    } else {
        let before = lines_said(parts.drop_last());
        match parts.last().text {
            Some(text) => if before.len() > 0 {
                before.push('\n') + text
            } else {
                text
            },
            None => before,
        }
    }
}

/// The tool calls of `parts`, in order.
pub open spec fn calls_made(parts: Seq<PartView>) -> Seq<ToolCallView>
    decreases parts.len(),
{
    if parts.len() == 0 {
        Seq::empty()
    } else {
        match parts.last().function_call {
            Some(call) => calls_made(parts.drop_last()).push(call),
            None => calls_made(parts.drop_last()),
        }
    }
}

/// The signatures that stand beside the tool calls of `parts`, each with the id of
/// its call.
pub open spec fn signatures_given(parts: Seq<PartView>) -> Seq<(Seq<char>, Seq<char>)>
    decreases parts.len(),
{
    if parts.len() == 0 {
        Seq::empty()
    } else {
        let before = signatures_given(parts.drop_last());
        match (parts.last().function_call, parts.last().thought_signature) {
            (Some(call), Some(signature)) => before.push((call.id, signature)),
            _ => before,
        }
    }
}

/// The names of the functions that `parts` call, each with the id of its call.
pub open spec fn names_given(parts: Seq<PartView>) -> Seq<(Seq<char>, Seq<char>)>
    decreases parts.len(),
{
    if parts.len() == 0 {
        Seq::empty()
    } else {
        let before = names_given(parts.drop_last());
        match parts.last().function_call {
            Some(call) => before.push((call.id, call.name)),
            None => before,
        }
    }
}

/// The message for a reply.
pub open spec fn reply_message(
    text: Seq<char>,
    calls: Seq<ToolCallView>,
    usage: Option<UsageMetadata>,
) -> MessageView {
    MessageView {
        tool_calls: calls,
        token_count: match usage {
            Some(u) => Some(u.total_token_count),
            None => None,
        },
        context_tokens: match usage {
            Some(u) => Some(u.prompt_token_count),
            None => None,
        },
        ..plain_message(Role::Assistant, text)
    }
}

/// The tool calls of a reply, and what has to be kept for later requests.
#[derive(Debug)]
pub struct CallsRead {
    pub tool_calls: Vec<ToolCall>,
    pub thought_signatures: Vec<(String, String)>,
    pub tool_names: Vec<(String, String)>,
}

/// A reply, and what has to be kept for later requests.
#[derive(Debug)]
pub struct ParsedResponse {
    pub message: Message,
    /// The signature of each tool call that has one, with the id of the call.
    pub thought_signatures: Vec<(String, String)>,
    /// The name of each function called, with the id of the call.
    pub tool_names: Vec<(String, String)>,
}

/// Makes the message for a reply.
pub fn make_reply(text: &str, calls: Vec<ToolCall>, usage: Option<UsageMetadata>) -> (r: Message)
    ensures
        r.deep_view() == reply_message(text@, calls.deep_view(), usage),
{
    let mut reply = Message::assistant(text);
    reply.tool_calls = calls;
    if let Some(u) = usage {
        reply.token_count = Some(u.total_token_count);
        reply.context_tokens = Some(u.prompt_token_count);
    }
    reply
}

/// Reads the tool calls of `parts`.
pub fn read_calls(parts: Vec<Part>) -> (r: CallsRead)
    ensures
        r.tool_calls.deep_view() == calls_made(parts.deep_view()),
        r.thought_signatures.deep_view() == signatures_given(parts.deep_view()),
        r.tool_names.deep_view() == names_given(parts.deep_view()),
{
    let ghost all = parts.deep_view();
    let ghost list = parts@;
    let mut tool_calls: Vec<ToolCall> = Vec::new();
    let mut thought_signatures: Vec<(String, String)> = Vec::new();
    let mut tool_names: Vec<(String, String)> = Vec::new();
    assert(tool_calls.deep_view() =~= calls_made(all.take(0)));
    assert(thought_signatures.deep_view() =~= signatures_given(all.take(0)));
    assert(tool_names.deep_view() =~= names_given(all.take(0)));
    for part in it: parts
        invariant
            it.seq() == list,
            all.len() == list.len(),
            forall|k: int| 0 <= k < all.len() ==> all[k] == (#[trigger] list[k]).deep_view(),
            tool_calls.deep_view() == calls_made(all.take(it.index())),
            thought_signatures.deep_view() == signatures_given(all.take(it.index())),
            tool_names.deep_view() == names_given(all.take(it.index())),
    {
        let ghost k = it.index();
        assert(list[k] == part);
        assert(all.take(k + 1).drop_last() =~= all.take(k));
        assert(all.take(k + 1).last() == part.deep_view());
        let ghost had_calls = tool_calls.deep_view();
        let ghost had_signatures = thought_signatures.deep_view();
        let ghost had_names = tool_names.deep_view();
        if let Some(fc) = part.function_call {
            if let Some(signature) = part.thought_signature {
                let ghost pair = (fc.id@, signature@);
                thought_signatures.push((fc.id.clone(), signature));
                assert(thought_signatures.deep_view() =~= had_signatures.push(pair));
            }
            let ghost pair = (fc.id@, fc.name@);
            tool_names.push((fc.id.clone(), fc.name.clone()));
            assert(tool_names.deep_view() =~= had_names.push(pair));
            let call = ToolCall { id: fc.id, name: fc.name, arguments: fc.args };
            tool_calls.push(call);
            assert(tool_calls.deep_view() =~= had_calls.push(call.deep_view()));
        }
    }
    assert(all.take(all.len() as int) =~= all);
    CallsRead { tool_calls, thought_signatures, tool_names }
}

/// Makes a message of the first candidate of a reply, and collects what has to be
/// kept for later requests.
pub fn parse_response(resp: GenerateContentResponse) -> (r: Result<ParsedResponse, ProviderError>)
    ensures
        r is Ok <==> resp.candidates@.len() > 0,
        r matches Err(e) ==> e is EmptyResponse,
        r matches Ok(p) ==> {
            let parts = resp.deep_view().candidates.first().parts;
            &&& p.message.deep_view() == reply_message(
                lines_said(parts),
                calls_made(parts),
                resp.usage_metadata,
            )
            &&& p.thought_signatures.deep_view() == signatures_given(parts)
            &&& p.tool_names.deep_view() == names_given(parts)
        },
{
    let mut candidates = resp.candidates;
    if candidates.len() == 0 {
        return Err(ProviderError::EmptyResponse);
    }
    let candidate = candidates.remove(0);
    let ghost all = candidate.parts.deep_view();
    assert(all == resp.deep_view().candidates.first().parts);
    let mut content = String::new();
    for i in 0..candidate.parts.len()
        invariant
            all == candidate.parts.deep_view(),
            content@ == lines_said(all.take(i as int)),
    {
        assert(all.take(i + 1).drop_last() =~= all.take(i as int));
        assert(all.take(i + 1).last() == candidate.parts@[i as int].deep_view());
        if let Some(text) = &candidate.parts[i].text {
            if !content.as_str().is_empty() {
                push_char(&mut content, '\n');
            } else {
                assert(content@ + text@ =~= text@);
            }
            content.append(text.as_str());
        }
    }
    assert(all.take(all.len() as int) =~= all);
    let calls = read_calls(candidate.parts);
    Ok(
        ParsedResponse {
            message: make_reply(content.as_str(), calls.tool_calls, resp.usage_metadata),
            thought_signatures: calls.thought_signatures,
            tool_names: calls.tool_names,
        },
    )
}

// ---------------------------------------------------------------------------
// Laws
// ---------------------------------------------------------------------------

/// The contents of two conversations, one after the other, are the contents of
/// both, unless a run of tool results goes across the border.
pub proof fn law_contents_of_two_conversations(
    a: Seq<MessageView>,
    b: Seq<MessageView>,
    signatures: Map<Seq<char>, Seq<char>>,
    names: Map<Seq<char>, Seq<char>>,
)
    requires
        a.len() == 0 || b.len() == 0 || a.last().role != Role::Tool || b.first().role
            != Role::Tool,
    ensures
        contents_of(a + b, signatures, names) == contents_of(a, signatures, names) + contents_of(
            b,
            signatures,
            names,
        ),
    decreases a.len(),
{
    let tail = contents_of(b, signatures, names);
    if a.len() == 0 {
        assert(a + b =~= b);
        assert(contents_of(a, signatures, names) + tail =~= tail);
    } else if a.first().role == Role::Tool {
        let n = leading_results(a) as int;
        lemma_leading_results(a);
        assert((a + b).first() == a.first());
        assert forall|k: int| 0 <= k < n implies (a + b)[k].role == Role::Tool by {
            assert((a + b)[k] == a[k]);
        }
        if n < a.len() {
            assert((a + b)[n] == a[n]);
        } else if b.len() > 0 {
            assert(a[n - 1].role == Role::Tool);
            assert((a + b)[n] == b.first());
        }
        lemma_leading_results_is(a + b, n);
        assert((a + b).take(n) =~= a.take(n));
        assert((a + b).skip(n) =~= a.skip(n) + b);
        if n < a.len() {
            assert(a.skip(n).last() == a.last());
        }
        law_contents_of_two_conversations(a.skip(n), b, signatures, names);
        assert(contents_of(a + b, signatures, names) =~= contents_of(a, signatures, names) + tail);
    } else {
        assert((a + b).first() == a.first());
        assert((a + b).drop_first() =~= a.drop_first() + b);
        if a.len() > 1 {
            assert(a.drop_first().last() == a.last());
        }
        law_contents_of_two_conversations(a.drop_first(), b, signatures, names);
        assert(contents_of(a + b, signatures, names) =~= contents_of(a, signatures, names) + tail);
    }
}

/// Every content has a part.
pub proof fn law_no_content_is_empty(
    messages: Seq<MessageView>,
    signatures: Map<Seq<char>, Seq<char>>,
    names: Map<Seq<char>, Seq<char>>,
    i: int,
)
    requires
        0 <= i < contents_of(messages, signatures, names).len(),
    ensures
        contents_of(messages, signatures, names)[i].parts.len() > 0,
    decreases messages.len(),
{
    let first = messages.first();
    match first.role {
        Role::System => {
            law_no_content_is_empty(messages.drop_first(), signatures, names, i);
        },
        Role::Tool => {
            lemma_leading_results(messages);
            let n = leading_results(messages) as int;
            if i > 0 {
                law_no_content_is_empty(messages.skip(n), signatures, names, i - 1);
            }
        },
        _ => {
            if i > 0 {
                law_no_content_is_empty(messages.drop_first(), signatures, names, i - 1);
            }
        },
    }
}

/// Whether no two tool calls of `parts` have the same id.
pub open spec fn distinct_calls(parts: Seq<PartView>) -> bool {
    forall|i: int, j: int|
        #![trigger calls_made(parts)[i], calls_made(parts)[j]]
        0 <= i < j < calls_made(parts).len() ==> calls_made(parts)[i].id != calls_made(parts)[j].id
}

proof fn lemma_calls_before_differ(parts: Seq<PartView>)
    requires
        parts.len() > 0,
        distinct_calls(parts),
    ensures
        distinct_calls(parts.drop_last()),
{
    let before = parts.drop_last();
    assert forall|i: int, j: int|
        #![trigger calls_made(before)[i], calls_made(before)[j]]
        0 <= i < j < calls_made(before).len() implies calls_made(before)[i].id
        != calls_made(before)[j].id by {
        assert(calls_made(parts)[i] == calls_made(before)[i]);
        assert(calls_made(parts)[j] == calls_made(before)[j]);
    }
}

/// Parts that make no call under `id` give no signature for it.
proof fn lemma_no_signature_given(
    parts: Seq<PartView>,
    id: Seq<char>,
    known: Map<Seq<char>, Seq<char>>,
)
    requires
        forall|i: int|
            0 <= i < calls_made(parts).len() ==> (#[trigger] calls_made(parts)[i]).id != id,
    ensures
        ({
            let after = inserted(known, signatures_given(parts));
            &&& after.contains_key(id) == known.contains_key(id)
            &&& known.contains_key(id) ==> after[id] == known[id]
        }),
    decreases parts.len(),
{
    if parts.len() > 0 {
        let before = parts.drop_last();
        assert forall|i: int| 0 <= i < calls_made(before).len() implies (
        #[trigger] calls_made(before)[i]).id != id by {
            assert(calls_made(parts)[i] == calls_made(before)[i]);
        }
        lemma_no_signature_given(before, id, known);
        if signatures_given(parts).len() > signatures_given(before).len() {
            let last = calls_made(parts).len() - 1;
            assert(calls_made(parts)[last].id != id);
            assert(signatures_given(parts).drop_last() =~= signatures_given(before));
        }
    }
}

/// In every later request a function call stands beside its own signature, word for
/// word, as long as the ids of the calls differ. A call that came without one gets
/// none from the other calls of its reply: it keeps what was known for its id before,
/// which is nothing for a new id.
pub proof fn law_signatures_are_echoed(
    parts: Seq<PartView>,
    p: int,
    known: Map<Seq<char>, Seq<char>>,
)
    requires
        0 <= p < parts.len(),
        parts[p].function_call is Some,
        distinct_calls(parts),
    ensures
        call_part(parts[p].function_call->0, inserted(known, signatures_given(parts))) == (
        PartView {
            text: None,
            function_call: parts[p].function_call,
            function_response: None,
            thought_signature: match parts[p].thought_signature {
                Some(signature) => Some(signature),
                None => call_part(parts[p].function_call->0, known).thought_signature,
            },
            inline_data: None,
        }),
    decreases parts.len(),
{
    let id = parts[p].function_call->0.id;
    let before = parts.drop_last();
    if p == parts.len() - 1 {
        let pairs = signatures_given(parts);
        if parts[p].thought_signature is Some {
            law_last_insertion_wins(known, pairs, id, pairs.len() - 1);
        } else {
            let last = calls_made(parts).len() - 1;
            assert forall|i: int| 0 <= i < calls_made(before).len() implies (
            #[trigger] calls_made(before)[i]).id != id by {
                assert(calls_made(parts)[i] == calls_made(before)[i]);
                assert(calls_made(parts)[last].id == id);
            }
            lemma_no_signature_given(before, id, known);
        }
    } else {
        lemma_calls_before_differ(parts);
        law_signatures_are_echoed(before, p, known);
        lemma_call_stands(before, p);
        if signatures_given(parts).len() > signatures_given(before).len() {
            let i = choose|i: int|
                0 <= i < calls_made(before).len() && (#[trigger] calls_made(before)[i]).id == id;
            let last = calls_made(parts).len() - 1;
            assert(calls_made(parts)[i] == calls_made(before)[i]);
            assert(calls_made(parts)[last].id != id);
            assert(signatures_given(parts).drop_last() =~= signatures_given(before));
        }
    }
}

proof fn lemma_call_stands(parts: Seq<PartView>, p: int)
    requires
        0 <= p < parts.len(),
        parts[p].function_call is Some,
    ensures
        exists|i: int|
            0 <= i < calls_made(parts).len() && (#[trigger] calls_made(parts)[i]).id
                == parts[p].function_call->0.id,
    decreases parts.len(),
{
    let before = parts.drop_last();
    if p == parts.len() - 1 {
        let i = calls_made(parts).len() - 1;
        assert(calls_made(parts)[i].id == parts[p].function_call->0.id);
    } else {
        lemma_call_stands(before, p);
        let i = choose|i: int|
            0 <= i < calls_made(before).len() && (#[trigger] calls_made(before)[i]).id
                == before[p].function_call->0.id;
        assert(calls_made(parts)[i] == calls_made(before)[i]);
    }
}

/// The result of a function call is sent back under the name of the function that
/// was called, as long as the ids of the calls differ.
pub proof fn law_results_carry_the_name_called(
    parts: Seq<PartView>,
    p: int,
    known: Map<Seq<char>, Seq<char>>,
    result: MessageView,
)
    requires
        0 <= p < parts.len(),
        parts[p].function_call is Some,
        distinct_calls(parts),
        result.tool_call_id == Some(parts[p].function_call->0.id),
    ensures
        response_part(result, inserted(known, names_given(parts))).function_response->0.name
            == parts[p].function_call->0.name,
    decreases parts.len(),
{
    let id = parts[p].function_call->0.id;
    let before = parts.drop_last();
    if p == parts.len() - 1 {
        let pairs = names_given(parts);
        law_last_insertion_wins(known, pairs, id, pairs.len() - 1);
    } else {
        lemma_calls_before_differ(parts);
        law_results_carry_the_name_called(before, p, known, result);
        lemma_call_stands(before, p);
        if names_given(parts).len() > names_given(before).len() {
            let i = choose|i: int|
                0 <= i < calls_made(before).len() && (#[trigger] calls_made(before)[i]).id == id;
            let last = calls_made(parts).len() - 1;
            assert(calls_made(parts)[i] == calls_made(before)[i]);
            assert(calls_made(parts)[last].id != id);
            assert(names_given(parts).drop_last() =~= names_given(before));
        }
    }
}

/// The texts of the system instruction are those of the system messages, one for each,
/// in order.
pub proof fn law_system_texts_are_those_of_the_system(messages: Seq<MessageView>)
    ensures
        picks(
            messages,
            |m: MessageView| m.role == Role::System,
            |m: MessageView| text_of(m.content),
            system_texts(messages),
        ),
    decreases messages.len(),
{
    if messages.len() > 0 {
        let before = messages.drop_last();
        law_system_texts_are_those_of_the_system(before);
        lemma_picks_last(
            messages,
            |m: MessageView| m.role == Role::System,
            |m: MessageView| text_of(m.content),
            system_texts(before),
        );
    }
}

/// Whether a block of a message with attachments is sent: an attachment, or some text.
pub open spec fn is_sent(b: BlockView) -> bool {
    match b {
        BlockView::Text { text: t } => t.len() > 0,
        _ => true,
    }
}

/// A part that is nothing but `t`.
pub open spec fn says_only(p: PartView, t: Seq<char>) -> bool {
    &&& p.text == Some(t)
    &&& p.function_call is None
    &&& p.function_response is None
    &&& p.thought_signature is None
    &&& p.inline_data is None
}

/// A part that is nothing but data of a kind, in base64.
pub open spec fn holds_only(p: PartView, d: Seq<u8>, kind: Seq<char>) -> bool {
    &&& p.text is None
    &&& p.function_call is None
    &&& p.function_response is None
    &&& p.thought_signature is None
    &&& p.inline_data matches Some(inline) && inline.mime_type == kind && inline.data
        == base64_text(d)
}

/// Whether `p` is what is sent for `b`.
pub open spec fn sent_for(p: PartView, b: BlockView) -> bool {
    match b {
        BlockView::Text { text: t } => says_only(p, t),
        BlockView::Image { data: d, media_type: m } => holds_only(p, d, m),
        BlockView::File { data: d, media_type: m, name: _ } => holds_only(p, d, m),
    }
}

proof fn lemma_block_parts(blocks: Seq<BlockView>)
    ensures
        picks(blocks, |b: BlockView| is_sent(b), |b: BlockView| sent_part(b), block_parts(blocks)),
    decreases blocks.len(),
{
    if blocks.len() > 0 {
        let before = blocks.drop_last();
        lemma_block_parts(before);
        lemma_picks_last(
            blocks,
            |b: BlockView| is_sent(b),
            |b: BlockView| sent_part(b),
            block_parts(before),
        );
    }
}

/// The part for a block.
pub open spec fn sent_part(b: BlockView) -> PartView {
    match b {
        BlockView::Text { text: t } => text_part(t),
        BlockView::Image { data: d, media_type: m } => inline_part(d, m),
        BlockView::File { data: d, media_type: m, name: _ } => inline_part(d, m),
    }
}

/// What a block is sent as holds its text, or its data and their kind, and nothing
/// else.
pub proof fn law_blocks_are_sent_as_they_are(b: BlockView)
    ensures
        sent_for(sent_part(b), b),
{
}

/// A user message becomes one content of the user: without attachments the text of the
/// message in one part; with attachments a part for each of them and for each text that
/// is not empty, in order, and at least one part.
pub proof fn law_user_messages_are_sent(
    m: MessageView,
    signatures: Map<Seq<char>, Seq<char>>,
    names: Map<Seq<char>, Seq<char>>,
)
    requires
        m.role == Role::User,
    ensures
        ({
            let contents = contents_of(seq![m], signatures, names);
            let parts = contents[0].parts;
            let sent = picks(
                m.content,
                |b: BlockView| is_sent(b),
                |b: BlockView| sent_part(b),
                parts,
            );
            &&& contents.len() == 1
            &&& contents[0].role == "user"@
            &&& (forall|k: int| 0 <= k < m.content.len() ==> #[trigger] m.content[k] is Text)
                ==> parts.len() == 1 && says_only(parts[0], text_of(m.content))
            &&& (exists|k: int| 0 <= k < m.content.len() && !(#[trigger] m.content[k] is Text))
                ==> sent
        }),
{
    let contents = contents_of(seq![m], signatures, names);
    assert(seq![m].drop_first() =~= Seq::empty());
    assert(contents_of(seq![m].drop_first(), signatures, names) =~= Seq::empty());
    assert(contents =~= seq![user_content(m)]);
    lemma_block_parts(m.content);
    if exists|k: int| 0 <= k < m.content.len() && !(#[trigger] m.content[k] is Text) {
        let k = choose|k: int| 0 <= k < m.content.len() && !(#[trigger] m.content[k] is Text);
        assert(attachment(m.content[k]));
        assert(with_attachments(m.content));
        let sent = |b: BlockView| is_sent(b);
        assert(sent(m.content[k]));
        assert(block_parts(m.content).len() > 0);
    } else {
        assert(!with_attachments(m.content));
    }
}

/// An assistant message becomes one content of the model: its text, where there is
/// some, then a part for each tool call, in order, with the call itself and the
/// signature that is known for its id; or a part without text where there is neither.
pub proof fn law_assistant_messages_are_sent(
    m: MessageView,
    signatures: Map<Seq<char>, Seq<char>>,
    names: Map<Seq<char>, Seq<char>>,
)
    requires
        m.role == Role::Assistant,
    ensures
        ({
            let contents = contents_of(seq![m], signatures, names);
            let parts = contents[0].parts;
            let said: int = if text_of(m.content).len() > 0 {
                1
            } else {
                0
            };
            let n = m.tool_calls.len() as int;
            &&& contents.len() == 1
            &&& contents[0].role == "model"@
            &&& said + n > 0 ==> parts.len() == said + n
            &&& said > 0 ==> says_only(parts[0], text_of(m.content))
            &&& said + n == 0 ==> parts.len() == 1 && says_only(parts[0], Seq::empty())
            &&& forall|k: int|
                0 <= k < n ==> {
                    let call = #[trigger] m.tool_calls[k];
                    let part = parts[said + k];
                    &&& part.function_call == Some(call)
                    &&& part.text is None
                    &&& part.function_response is None
                    &&& part.inline_data is None
                    &&& signatures.contains_key(call.id) ==> part.thought_signature == Some(
                        signatures[call.id],
                    )
                    &&& !signatures.contains_key(call.id) ==> part.thought_signature is None
                }
        }),
{
    let contents = contents_of(seq![m], signatures, names);
    assert(seq![m].drop_first() =~= Seq::empty());
    assert(contents_of(seq![m].drop_first(), signatures, names) =~= Seq::empty());
    assert(contents =~= seq![model_content(m, signatures)]);
}

/// A system message is no content.
pub proof fn law_system_messages_are_no_contents(
    m: MessageView,
    signatures: Map<Seq<char>, Seq<char>>,
    names: Map<Seq<char>, Seq<char>>,
)
    requires
        m.role == Role::System,
    ensures
        contents_of(seq![m], signatures, names).len() == 0,
{
    assert(seq![m].drop_first() =~= Seq::empty());
    assert(contents_of(seq![m].drop_first(), signatures, names) =~= Seq::empty());
}

/// A run of tool results becomes one content of the user, with a part for each of them,
/// in order: the text of the result, under the name that is known for the id of the
/// call.
pub proof fn law_tool_results_are_sent(
    results: Seq<MessageView>,
    signatures: Map<Seq<char>, Seq<char>>,
    names: Map<Seq<char>, Seq<char>>,
)
    requires
        results.len() > 0,
        forall|k: int| 0 <= k < results.len() ==> (#[trigger] results[k]).role == Role::Tool,
    ensures
        ({
            let contents = contents_of(results, signatures, names);
            let parts = contents[0].parts;
            &&& contents.len() == 1
            &&& contents[0].role == "user"@
            &&& parts.len() == results.len()
            &&& forall|k: int|
                0 <= k < results.len() ==> {
                    let m = #[trigger] results[k];
                    let p = parts[k];
                    &&& p.text is None
                    &&& p.function_call is None
                    &&& p.thought_signature is None
                    &&& p.inline_data is None
                    &&& p.function_response is Some
                    &&& p.function_response->0.response == JsonTree::Object(
                        seq![("result"@, JsonTree::Text(text_of(m.content)))],
                    )
                    &&& m.tool_call_id is Some && names.contains_key(m.tool_call_id->0)
                        ==> p.function_response->0.name == names[m.tool_call_id->0]
                    &&& m.tool_call_id is Some && !names.contains_key(m.tool_call_id->0)
                        ==> p.function_response->0.name == Seq::<char>::empty()
                }
        }),
{
    let n = results.len() as int;
    assert(results[0].role == Role::Tool);
    lemma_leading_results_is(results, n);
    assert(results.take(n) =~= results);
    assert(results.skip(n) =~= Seq::empty());
    assert(contents_of(results.skip(n), signatures, names) =~= Seq::empty());
    assert(contents_of(results, signatures, names) =~= seq![results_content(results, names)]);
}

/// A reply makes exactly the calls that its parts hold, in order, keeps the signature of
/// each call that has one and the name of each, under the id of the call.
pub proof fn law_replies_hold_the_calls_of_their_parts(parts: Seq<PartView>)
    ensures
        picks(
            parts,
            |p: PartView| p.function_call is Some,
            |p: PartView| p.function_call->0,
            calls_made(parts),
        ),
        picks(
            parts,
            |p: PartView| p.function_call is Some && p.thought_signature is Some,
            |p: PartView| (p.function_call->0.id, p.thought_signature->0),
            signatures_given(parts),
        ),
        picks(
            parts,
            |p: PartView| p.function_call is Some,
            |p: PartView| (p.function_call->0.id, p.function_call->0.name),
            names_given(parts),
        ),
    decreases parts.len(),
{
    if parts.len() > 0 {
        let before = parts.drop_last();
        law_replies_hold_the_calls_of_their_parts(before);
        lemma_picks_last(
            parts,
            |p: PartView| p.function_call is Some,
            |p: PartView| p.function_call->0,
            calls_made(before),
        );
        lemma_picks_last(
            parts,
            |p: PartView| p.function_call is Some && p.thought_signature is Some,
            |p: PartView| (p.function_call->0.id, p.thought_signature->0),
            signatures_given(before),
        );
        lemma_picks_last(
            parts,
            |p: PartView| p.function_call is Some,
            |p: PartView| (p.function_call->0.id, p.function_call->0.name),
            names_given(before),
        );
    }
}

/// The texts of a reply stand one per line: a text alone is itself; what is said later
/// comes behind, on a line of its own, unless nothing was said before; and a part
/// without text says nothing.
pub proof fn law_texts_stand_one_per_line(parts: Seq<PartView>, last: PartView)
    ensures
        lines_said(Seq::empty()) == Seq::<char>::empty(),
        last.text is None ==> lines_said(parts.push(last)) == lines_said(parts),
        last.text matches Some(t) ==> lines_said(parts.push(last)) == (if lines_said(parts).len()
            > 0 {
            lines_said(parts) + seq!['\n'] + t
        } else {
            t
        }),
{
    assert(parts.push(last).drop_last() =~= parts);
    if let Some(t) = last.text {
        assert(lines_said(parts).push('\n') + t =~= lines_said(parts) + seq!['\n'] + t);
    }
}

/// A reply is a message of the assistant with the text and the calls and nothing else,
/// and with the counts that came with it: all tokens, and those of the prompt.
pub proof fn law_replies_are_assistant_messages(
    said: Seq<char>,
    calls: Seq<ToolCallView>,
    usage: Option<UsageMetadata>,
)
    ensures
        ({
            let m = reply_message(said, calls, usage);
            &&& m.role == Role::Assistant
            &&& text_of(m.content) == said
            &&& m.content.len() == 1
            &&& m.tool_calls == calls
            &&& m.thinking_content.len() == 0
            &&& m.tool_call_id is None
            &&& !m.compacted
            &&& usage matches Some(u) ==> m.token_count == Some(u.total_token_count)
                && m.context_tokens == Some(u.prompt_token_count)
            &&& usage is None ==> m.token_count is None && m.context_tokens is None
        }),
{
    law_plain_messages_hold_their_text(Role::Assistant, said);
}

/// The models of parts and contents tell their fields apart.
pub proof fn law_models_hold_the_fields(
    d: InlineData,
    c: FunctionCall,
    r: FunctionResponse,
    p: Part,
    content: Content,
    reply: GenerateContentResponse,
)
    ensures
        d.deep_view().mime_type == d.mime_type@,
        d.deep_view().data == d.data@,
        c.deep_view().id == c.id@,
        c.deep_view().name == c.name@,
        c.deep_view().arguments == c.args.deep_view(),
        r.deep_view().name == r.name@,
        r.deep_view().response == r.response.deep_view(),
        p.deep_view().text == p.text.deep_view(),
        p.deep_view().function_call == p.function_call.deep_view(),
        p.deep_view().function_response == p.function_response.deep_view(),
        p.deep_view().thought_signature == p.thought_signature.deep_view(),
        p.deep_view().inline_data == p.inline_data.deep_view(),
        content.deep_view().role == content.role@,
        content.deep_view().parts == content.parts.deep_view(),
        reply.deep_view().candidates == reply.candidates.deep_view(),
        reply.deep_view().usage_metadata == reply.usage_metadata,
{
}

proof fn lemma_three_bytes(x: int, y: int, z: int)
    requires
        0 <= x < 256,
        0 <= y < 256,
        0 <= z < 256,
    ensures
        ({
            let bits = 65536 * x + 256 * y + z;
            &&& bits / 262144 == x / 4
            &&& bits / 4096 % 64 == x % 4 * 16 + y / 16
            &&& bits / 64 % 64 == y % 16 * 4 + z / 64
            &&& bits % 64 == z % 64
        }),
{
}

/// Base64 holds the bytes, three in four characters of the standard alphabet: each
/// character has six bits of them, the highest first, and padding stands where no byte
/// reaches.
pub proof fn law_base64_holds_the_bytes(data: Seq<u8>, i: int) -> (d: (int, int, int, int))
    requires
        0 <= i,
        3 * i < data.len(),
    ensures
        ({
            let t = base64_text(data);
            let letters = "ABCDEFGHIJKLMNOPQRSTUVWXYZabcdefghijklmnopqrstuvwxyz0123456789+/"@;
            let n = data.len();
            &&& t.len() % 4 == 0
            &&& n <= t.len() / 4 * 3 < n + 3
            &&& 0 <= d.0 < 64 && 0 <= d.1 < 64 && 0 <= d.2 < 64 && 0 <= d.3 < 64
            &&& t[4 * i] == letters[d.0]
            &&& t[4 * i + 1] == letters[d.1]
            &&& t[4 * i + 2] == (if 3 * i + 1 < n {
                letters[d.2]
            } else {
                '='
            })
            &&& t[4 * i + 3] == (if 3 * i + 2 < n {
                letters[d.3]
            } else {
                '='
            })
            &&& data[3 * i] == 4 * d.0 + d.1 / 16
            &&& 3 * i + 1 < n ==> data[3 * i + 1] == d.1 % 16 * 16 + d.2 / 4
            &&& 3 * i + 2 < n ==> data[3 * i + 2] == d.2 % 4 * 64 + d.3
        }),
{
    let x = byte_or_zero(data, 3 * i);
    let y = byte_or_zero(data, 3 * i + 1);
    let z = byte_or_zero(data, 3 * i + 2);
    lemma_three_bytes(x, y, z);
    assert((4 * i) / 4 == i && (4 * i) % 4 == 0);
    assert((4 * i + 1) / 4 == i && (4 * i + 1) % 4 == 1);
    assert((4 * i + 2) / 4 == i && (4 * i + 2) % 4 == 2);
    assert((4 * i + 3) / 4 == i && (4 * i + 3) % 4 == 3);
    (x / 4, x % 4 * 16 + y / 16, y % 16 * 4 + z / 64, z % 64)
}

} // verus!
