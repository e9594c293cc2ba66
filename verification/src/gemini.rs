//! Provider for Google Gemini's native protocol.
//!
//! It keeps the `thoughtSignature` of every function call, which the service
//! wants back in later requests.

use vstd::prelude::*;
use vstd::string::StringExecFns;

use crate::error::{DecodeError, ProviderError};
use crate::event_reader::{EventReader, Pick, ReaderState};
use crate::gemini_wire::{
    calls_made, contents_of, convert_messages, law_system_texts_are_those_of_the_system,
    make_reply, names_given, read_calls, reply_message, signatures_given, system_texts, Content, ContentView, GenerateContentResponse, InlineData,
    InlineView, FunctionCall, FunctionResponse, Part, PartView, ReplyView, ResponseView,
    UsageMetadata,
};
use crate::id_map::{inserted, IdMap};
use crate::json::{
    add_member, array, found, items, lemma_found_add, lemma_found_one, lemma_found_three,
    lemma_found_two, member, object, text, text_at, tree, Json, JsonTree,
};
use crate::lists::{lemma_none_picked, lemma_picks_last, picks};
use crate::message::{text_of, Message, MessageView, Role, ToolCall, ToolCallView};
use crate::provider::{
    content_reported, default_user_agent, default_user_agent_text, endpoint, endpoint_text,
    header, prepended_user_agent, sanitize_tools, sanitized_tools, Header,
    SinkEvent, SinkView, ToolSpec, ToolSpecView,
};
use crate::schema::sanitized;
use crate::text::{decimal, decimal_text, law_decimals_are_read_back, number_read};

verus! {

pub const DEFAULT_BASE_URL: &'static str = "https://generativelanguage.googleapis.com/v1beta";

pub const DEFAULT_API_KEY_ENV: &'static str = "GEMINI_API_KEY";

pub const DEFAULT_MODEL: &'static str = "gemini-3-flash-preview";

pub const DEFAULT_MAX_TOKENS: usize = 4096;

// ---------------------------------------------------------------------------
// Requests
// ---------------------------------------------------------------------------

/// A request for a reply.
#[derive(Debug)]
pub struct GenerateContentRequest {
    /// The texts of the system instruction.
    pub system_instruction: Option<Vec<String>>,
    pub contents: Vec<Content>,
    /// The function declarations of the one tool.
    pub tools: Option<Vec<ToolSpec>>,
    pub max_output_tokens: Option<usize>,
}

/// The model of a [`GenerateContentRequest`].
#[verifier::ext_equal]
pub struct RequestView {
    pub system_instruction: Option<Seq<Seq<char>>>,
    pub contents: Seq<ContentView>,
    pub tools: Option<Seq<ToolSpecView>>,
    pub max_output_tokens: Option<usize>,
}

impl DeepView for GenerateContentRequest {
    type V = RequestView;

    open spec fn deep_view(&self) -> RequestView {
        RequestView {
            system_instruction: self.system_instruction.deep_view(),
            contents: self.contents.deep_view(),
            tools: self.tools.deep_view(),
            max_output_tokens: self.max_output_tokens,
        }
    }
}

/// A text member.
pub open spec fn text_member(key: Seq<char>, text: Seq<char>) -> (Seq<char>, JsonTree) {
    (key, JsonTree::Text(text))
}

/// The member `key`, where there is a value for it.
pub open spec fn optional_member(key: Seq<char>, value: Option<JsonTree>) -> Seq<
    (Seq<char>, JsonTree),
> {
    match value {
        Some(v) => seq![(key, v)],
        None => Seq::empty(),
    }
}

/// The JSON of a function call.
pub open spec fn call_tree(call: ToolCallView) -> JsonTree {
    JsonTree::Object(
        seq![
            text_member("name"@, call.name),
            ("args"@, call.arguments),
            text_member("id"@, call.id),
        ],
    )
}

/// The JSON of a function result.
pub open spec fn response_tree(response: ResponseView) -> JsonTree {
    JsonTree::Object(
        seq![text_member("name"@, response.name), ("response"@, response.response)],
    )
}

/// The JSON of inline data.
pub open spec fn inline_tree(inline: InlineView) -> JsonTree {
    JsonTree::Object(
        seq![text_member("mimeType"@, inline.mime_type), text_member("data"@, inline.data)],
    )
}

/// The JSON of a part: a member for each field that is set.
pub open spec fn part_tree(part: PartView) -> JsonTree {
    JsonTree::Object(
        optional_member(
            "text"@,
            match part.text {
                Some(t) => Some(JsonTree::Text(t)),
                None => None,
            },
        ) + optional_member(
            "functionCall"@,
            match part.function_call {
                Some(c) => Some(call_tree(c)),
                None => None,
            },
        ) + optional_member(
            "functionResponse"@,
            match part.function_response {
                Some(r) => Some(response_tree(r)),
                None => None,
            },
        ) + optional_member(
            "thoughtSignature"@,
            match part.thought_signature {
                Some(t) => Some(JsonTree::Text(t)),
                None => None,
            },
        ) + optional_member(
            "inlineData"@,
            match part.inline_data {
                Some(d) => Some(inline_tree(d)),
                None => None,
            },
        ),
    )
}

/// The JSON of a content.
pub open spec fn content_tree(content: ContentView) -> JsonTree {
    JsonTree::Object(
        seq![
            text_member("role"@, content.role),
            ("parts"@, JsonTree::Array(content.parts.map_values(|p: PartView| part_tree(p)))),
        ],
    )
}

/// The JSON of a system instruction: a text part for each text.
pub open spec fn system_tree(parts: Seq<Seq<char>>) -> JsonTree {
    JsonTree::Object(
        seq![
            (
                "parts"@,
                JsonTree::Array(
                    parts.map_values(
                        |t: Seq<char>| JsonTree::Object(seq![text_member("text"@, t)]),
                    ),
                ),
            ),
        ],
    )
}

/// The JSON of a function declaration.
pub open spec fn declaration_tree(tool: ToolSpecView) -> JsonTree {
    JsonTree::Object(
        seq![
            text_member("name"@, tool.name),
            text_member("description"@, tool.description),
            ("parameters"@, tool.parameters_schema),
        ],
    )
}

/// The JSON of the tools: one tool that holds every declaration.
pub open spec fn tools_tree(tools: Seq<ToolSpecView>) -> JsonTree {
    JsonTree::Array(
        seq![
            JsonTree::Object(
                seq![
                    (
                        "functionDeclarations"@,
                        JsonTree::Array(tools.map_values(|t: ToolSpecView| declaration_tree(t))),
                    ),
                ],
            ),
        ],
    )
}

/// The JSON of a request: a member for each field that is set.
pub open spec fn request_tree(request: RequestView) -> JsonTree {
    JsonTree::Object(
        optional_member(
            "systemInstruction"@,
            match request.system_instruction {
                Some(parts) => Some(system_tree(parts)),
                None => None,
            },
        ) + seq![
            (
                "contents"@,
                JsonTree::Array(request.contents.map_values(|c: ContentView| content_tree(c))),
            ),
        ] + optional_member(
            "tools"@,
            match request.tools {
                Some(tools) => Some(tools_tree(tools)),
                None => None,
            },
        ) + optional_member(
            "generationConfig"@,
            match request.max_output_tokens {
                Some(n) => Some(
                    JsonTree::Object(
                        seq![("maxOutputTokens"@, JsonTree::Number(decimal(n as nat)))],
                    ),
                ),
                None => None,
            },
        ),
    )
}

fn no_members() -> (r: Vec<(String, Json)>)
    ensures
        r.deep_view() == Seq::<(Seq<char>, JsonTree)>::empty(),
{
    let r: Vec<(String, Json)> = Vec::new();
    assert(r.deep_view() =~= Seq::empty());
    r
}

fn add_text(members: &mut Vec<(String, Json)>, key: &str, text: &str)
    ensures
        final(members).deep_view() == old(members).deep_view().push(text_member(key@, text@)),
{
    let value = Json::Text(text.to_owned());
    assert(tree(value) == JsonTree::Text(text@));
    add_member(members, key, value);
}

fn call_json(call: &FunctionCall) -> (r: Json)
    ensures
        tree(r) == call_tree(call.deep_view()),
{
    let mut members = no_members();
    add_text(&mut members, "name", call.name.as_str());
    add_member(&mut members, "args", call.args.clone());
    add_text(&mut members, "id", call.id.as_str());
    assert(members.deep_view() =~= call_tree(call.deep_view())->Object_0);
    object(members)
}

fn response_json(response: &FunctionResponse) -> (r: Json)
    ensures
        tree(r) == response_tree(response.deep_view()),
{
    let mut members = no_members();
    add_text(&mut members, "name", response.name.as_str());
    add_member(&mut members, "response", response.response.clone());
    assert(members.deep_view() =~= response_tree(response.deep_view())->Object_0);
    object(members)
}

fn inline_json(inline: &InlineData) -> (r: Json)
    ensures
        tree(r) == inline_tree(inline.deep_view()),
{
    let mut members = no_members();
    add_text(&mut members, "mimeType", inline.mime_type.as_str());
    add_text(&mut members, "data", inline.data.as_str());
    assert(members.deep_view() =~= inline_tree(inline.deep_view())->Object_0);
    object(members)
}

fn part_json(part: &Part) -> (r: Json)
    ensures
        tree(r) == part_tree(part.deep_view()),
{
    let mut members = no_members();
    if let Some(text) = &part.text {
        add_text(&mut members, "text", text.as_str());
    }
    if let Some(call) = &part.function_call {
        add_member(&mut members, "functionCall", call_json(call));
    }
    if let Some(response) = &part.function_response {
        add_member(&mut members, "functionResponse", response_json(response));
    }
    if let Some(signature) = &part.thought_signature {
        add_text(&mut members, "thoughtSignature", signature.as_str());
    }
    if let Some(inline) = &part.inline_data {
        add_member(&mut members, "inlineData", inline_json(inline));
    }
    assert(members.deep_view() =~= part_tree(part.deep_view())->Object_0);
    object(members)
}

fn content_json(content: &Content) -> (r: Json)
    ensures
        tree(r) == content_tree(content.deep_view()),
{
    let mut parts: Vec<Json> = Vec::new();
    for i in 0..content.parts.len()
        invariant
            parts@.len() == i,
            forall|k: int|
                0 <= k < i ==> tree(#[trigger] parts@[k]) == part_tree(
                    content.parts@[k].deep_view(),
                ),
    {
        let part = part_json(&content.parts[i]);
        parts.push(part);
    }
    assert(parts.deep_view() =~= content.deep_view().parts.map_values(|p: PartView| part_tree(p)));
    let mut members = no_members();
    add_text(&mut members, "role", content.role.as_str());
    add_member(&mut members, "parts", array(parts));
    assert(members.deep_view() =~= content_tree(content.deep_view())->Object_0);
    object(members)
}

fn system_json(texts: &Vec<String>) -> (r: Json)
    ensures
        tree(r) == system_tree(texts.deep_view()),
{
    let mut parts: Vec<Json> = Vec::new();
    for i in 0..texts.len()
        invariant
            parts@.len() == i,
            forall|k: int|
                0 <= k < i ==> tree(#[trigger] parts@[k]) == JsonTree::Object(
                    seq![text_member("text"@, texts@[k]@)],
                ),
    {
        let mut members = no_members();
        add_text(&mut members, "text", texts[i].as_str());
        assert(members.deep_view() =~= seq![text_member("text"@, texts@[i as int]@)]);
        let part = object(members);
        parts.push(part);
    }
    assert(parts.deep_view() =~= texts.deep_view().map_values(
        |t: Seq<char>| JsonTree::Object(seq![text_member("text"@, t)]),
    ));
    let mut members = no_members();
    add_member(&mut members, "parts", array(parts));
    assert(members.deep_view() =~= system_tree(texts.deep_view())->Object_0);
    object(members)
}

fn declaration_json(tool: &ToolSpec) -> (r: Json)
    ensures
        tree(r) == declaration_tree(tool.deep_view()),
{
    let mut members = no_members();
    add_text(&mut members, "name", tool.name.as_str());
    add_text(&mut members, "description", tool.description.as_str());
    add_member(&mut members, "parameters", tool.parameters_schema.clone());
    assert(members.deep_view() =~= declaration_tree(tool.deep_view())->Object_0);
    object(members)
}

fn tools_json(tools: &Vec<ToolSpec>) -> (r: Json)
    ensures
        tree(r) == tools_tree(tools.deep_view()),
{
    let mut declarations: Vec<Json> = Vec::new();
    for i in 0..tools.len()
        invariant
            declarations@.len() == i,
            forall|k: int|
                0 <= k < i ==> tree(#[trigger] declarations@[k]) == declaration_tree(
                    tools@[k].deep_view(),
                ),
    {
        let declaration = declaration_json(&tools[i]);
        declarations.push(declaration);
    }
    let ghost all = tools.deep_view().map_values(|t: ToolSpecView| declaration_tree(t));
    assert(declarations.deep_view() =~= all);
    let mut members = no_members();
    add_member(&mut members, "functionDeclarations", array(declarations));
    assert(members.deep_view() =~= seq![("functionDeclarations"@, JsonTree::Array(all))]);
    let tool = object(members);
    let mut items: Vec<Json> = Vec::new();
    items.push(tool);
    assert(items.deep_view() =~= tools_tree(tools.deep_view())->Array_0);
    array(items)
}

impl GenerateContentRequest {
    /// The request as JSON.
    pub fn to_json(&self) -> (r: Json)
        ensures
            tree(r) == request_tree(self.deep_view()),
    {
        let mut contents: Vec<Json> = Vec::new();
        for i in 0..self.contents.len()
            invariant
                contents@.len() == i,
                forall|k: int|
                    0 <= k < i ==> tree(#[trigger] contents@[k]) == content_tree(
                        self.contents@[k].deep_view(),
                    ),
        {
            let content = content_json(&self.contents[i]);
            contents.push(content);
        }
        assert(contents.deep_view() =~= self.deep_view().contents.map_values(
            |c: ContentView| content_tree(c),
        ));
        let mut members = no_members();
        if let Some(parts) = &self.system_instruction {
            add_member(&mut members, "systemInstruction", system_json(parts));
        }
        add_member(&mut members, "contents", array(contents));
        if let Some(tools) = &self.tools {
            add_member(&mut members, "tools", tools_json(tools));
        }
        if let Some(n) = self.max_output_tokens {
            let mut config = no_members();
            let number = Json::Number(decimal_text(n));
            assert(tree(number) == JsonTree::Number(decimal(n as nat)));
            add_member(&mut config, "maxOutputTokens", number);
            assert(config.deep_view() =~= seq![
                ("maxOutputTokens"@, JsonTree::Number(decimal(n as nat))),
            ]);
            add_member(&mut members, "generationConfig", object(config));
        }
        assert(members.deep_view() =~= request_tree(self.deep_view())->Object_0);
        object(members)
    }
}

// ---------------------------------------------------------------------------
// Provider
// ---------------------------------------------------------------------------

/// A provider for Google Gemini's native protocol.
#[derive(Debug)]
pub struct GeminiProvider {
    pub base_url: String,
    pub api_key: String,
    pub model: String,
    pub max_tokens: usize,
    pub user_agent: String,
    /// The signature of each tool call, by the id of the call.
    pub thought_signatures: IdMap,
    /// The name of the function of each tool call, by the id of the call.
    pub tool_names: IdMap,
}

/// The model of a [`GeminiProvider`].
#[verifier::ext_equal]
pub struct GeminiView {
    pub base_url: Seq<char>,
    pub api_key: Seq<char>,
    pub model: Seq<char>,
    pub max_tokens: usize,
    pub user_agent: Seq<char>,
    pub thought_signatures: Map<Seq<char>, Seq<char>>,
    pub tool_names: Map<Seq<char>, Seq<char>>,
}

impl DeepView for GeminiProvider {
    type V = GeminiView;

    open spec fn deep_view(&self) -> GeminiView {
        GeminiView {
            base_url: self.base_url@,
            api_key: self.api_key@,
            model: self.model@,
            max_tokens: self.max_tokens,
            user_agent: self.user_agent@,
            thought_signatures: self.thought_signatures@,
            tool_names: self.tool_names@,
        }
    }
}

/// The provider for `api_key` with the defaults for everything else.
pub open spec fn default_provider(api_key: Seq<char>) -> GeminiView {
    GeminiView {
        base_url: DEFAULT_BASE_URL@,
        api_key,
        model: DEFAULT_MODEL@,
        max_tokens: DEFAULT_MAX_TOKENS,
        user_agent: default_user_agent_text(),
        thought_signatures: Map::empty(),
        tool_names: Map::empty(),
    }
}

/// The request that `p` sends.
pub open spec fn content_request(
    p: GeminiView,
    messages: Seq<MessageView>,
    tools: Seq<ToolSpecView>,
) -> RequestView {
    RequestView {
        system_instruction: if system_texts(messages).len() == 0 {
            None
        } else {
            Some(system_texts(messages))
        },
        contents: contents_of(messages, p.thought_signatures, p.tool_names),
        tools: if tools.len() == 0 {
            None
        } else {
            Some(sanitized_tools(tools))
        },
        max_output_tokens: Some(p.max_tokens),
    }
}

/// The headers of a request. The key is sent only when there is one.
pub open spec fn request_headers(p: GeminiView) -> Seq<(Seq<char>, Seq<char>)> {
    let always = seq![("Content-Type"@, "application/json"@), ("User-Agent"@, p.user_agent)];
    if p.api_key.len() == 0 {
        always
    } else {
        always.push(("x-goog-api-key"@, p.api_key))
    }
}

impl GeminiProvider {
    /// A provider for `api_key`, with the defaults for everything else.
    pub fn new(api_key: &str) -> (r: GeminiProvider)
        ensures
            r.deep_view() == default_provider(api_key@),
    {
        GeminiProvider {
            base_url: DEFAULT_BASE_URL.to_owned(),
            api_key: api_key.to_owned(),
            model: DEFAULT_MODEL.to_owned(),
            max_tokens: DEFAULT_MAX_TOKENS,
            user_agent: default_user_agent(),
            thought_signatures: IdMap::new(),
            tool_names: IdMap::new(),
        }
    }

    /// A provider for the key that the environment variable
    /// [`DEFAULT_API_KEY_ENV`] holds; `value` is what it holds, if it is set.
    pub fn from_env(value: Option<String>) -> (r: Result<GeminiProvider, ProviderError>)
        ensures
            match value {
                Some(key) => r matches Ok(p) && p.deep_view() == default_provider(key@),
                None => r matches Err(ProviderError::MissingApiKey { var }) && var@
                    == DEFAULT_API_KEY_ENV@,
            },
    {
        match value {
            Some(key) => Ok(GeminiProvider::new(key.as_str())),
            None => Err(ProviderError::MissingApiKey { var: DEFAULT_API_KEY_ENV.to_owned() }),
        }
    }

    /// Sets the model identifier.
    pub fn with_model(self, model: &str) -> (r: GeminiProvider)
        ensures
            r.deep_view() == (GeminiView { model: model@, ..self.deep_view() }),
    {
        GeminiProvider { model: model.to_owned(), ..self }
    }

    /// Overrides the base URL.
    pub fn with_base_url(self, base_url: &str) -> (r: GeminiProvider)
        ensures
            r.deep_view() == (GeminiView { base_url: base_url@, ..self.deep_view() }),
    {
        GeminiProvider { base_url: base_url.to_owned(), ..self }
    }

    /// Sets the maximum number of output tokens.
    pub fn with_max_tokens(self, max_tokens: usize) -> (r: GeminiProvider)
        ensures
            r.deep_view() == (GeminiView { max_tokens, ..self.deep_view() }),
    {
        GeminiProvider { max_tokens, ..self }
    }

    /// Overwrites the `User-Agent` of every request.
    pub fn with_user_agent(self, ua: &str) -> (r: GeminiProvider)
        ensures
            r.deep_view() == (GeminiView { user_agent: ua@, ..self.deep_view() }),
    {
        GeminiProvider { user_agent: ua.to_owned(), ..self }
    }

    /// Puts a token before the `User-Agent`.
    pub fn prepend_user_agent(self, prefix: &str) -> (r: GeminiProvider)
        ensures
            r.deep_view() == (GeminiView {
                user_agent: prefix@ + " "@ + self.user_agent@,
                ..self.deep_view()
            }),
    {
        let user_agent = prepended_user_agent(prefix.to_owned(), self.user_agent.as_str());
        GeminiProvider { user_agent, ..self }
    }

    /// The request for a reply to `messages`.
    pub fn request(&self, messages: &Vec<Message>, tools: &Vec<ToolSpec>) -> (r:
        GenerateContentRequest)
        ensures
            r.deep_view() == content_request(
                self.deep_view(),
                messages.deep_view(),
                tools.deep_view(),
            ),
    {
        let (system_instruction, contents) = convert_messages(
            messages,
            &self.thought_signatures,
            &self.tool_names,
        );
        let tools_wire = if tools.len() == 0 {
            None
        } else {
            Some(sanitize_tools(tools))
        };
        GenerateContentRequest {
            system_instruction,
            contents,
            tools: tools_wire,
            max_output_tokens: Some(self.max_tokens),
        }
    }

    /// The body of the request for a reply to `messages`.
    pub fn build_request_body(&self, messages: &Vec<Message>, tools: &Vec<ToolSpec>) -> (r: Json)
        ensures
            tree(r) == request_tree(
                content_request(self.deep_view(), messages.deep_view(), tools.deep_view()),
            ),
    {
        self.request(messages, tools).to_json()
    }

    /// Keeps what a reply gave for later requests.
    pub fn save_meta(
        &mut self,
        thought_signatures: Vec<(String, String)>,
        tool_names: Vec<(String, String)>,
    )
        ensures
            final(self).deep_view() == (GeminiView {
                thought_signatures: inserted(
                    old(self).thought_signatures@,
                    thought_signatures.deep_view(),
                ),
                tool_names: inserted(old(self).tool_names@, tool_names.deep_view()),
                ..old(self).deep_view()
            }),
    {
        self.thought_signatures.insert_all(thought_signatures);
        self.tool_names.insert_all(tool_names);
    }

    /// The URL that requests go to, for a reply in one piece or a streamed one.
    pub fn request_url(&self, stream: bool) -> (r: String)
        ensures
            r@ == endpoint_text(
                self.base_url@,
                "/models/"@ + self.model@ + (if stream {
                    ":streamGenerateContent?alt=sse"@
                } else {
                    ":generateContent"@
                }),
            ),
    {
        let mut path = "/models/".to_owned();
        path.append(self.model.as_str());
        if stream {
            path.append(":streamGenerateContent?alt=sse");
        } else {
            path.append(":generateContent");
        }
        endpoint(self.base_url.as_str(), path.as_str())
    }

    /// The headers of a request.
    pub fn headers(&self) -> (r: Vec<Header>)
        ensures
            r.deep_view() == request_headers(self.deep_view()),
    {
        let mut out: Vec<Header> = Vec::new();
        out.push(header("Content-Type", "application/json"));
        out.push(header("User-Agent", self.user_agent.as_str()));
        if !self.api_key.as_str().is_empty() {
            out.push(header("x-goog-api-key", self.api_key.as_str()));
        }
        assert(out.deep_view() =~= request_headers(self.deep_view()));
        out
    }
}

// ---------------------------------------------------------------------------
// The stream
// ---------------------------------------------------------------------------

/// A reply of which some chunks have come.
#[derive(Debug)]
pub struct ContentBuilder {
    pub text: String,
    /// The parts with a function call.
    pub call_parts: Vec<Part>,
    pub usage: Option<UsageMetadata>,
}

/// The model of a [`ContentBuilder`].
#[verifier::ext_equal]
pub struct ContentState {
    pub text: Seq<char>,
    pub call_parts: Seq<PartView>,
    pub usage: Option<UsageMetadata>,
}

impl DeepView for ContentBuilder {
    type V = ContentState;

    open spec fn deep_view(&self) -> ContentState {
        ContentState {
            text: self.text@,
            call_parts: self.call_parts.deep_view(),
            usage: self.usage,
        }
    }
}

/// The parts of all `contents`, in order.
pub open spec fn parts_of(contents: Seq<ContentView>) -> Seq<PartView>
    decreases contents.len(),
{
    if contents.len() == 0 {
        Seq::empty()
    } else {
        parts_of(contents.drop_last()) + contents.last().parts
    }
}

/// The reply with one part added.
pub open spec fn part_added(s: ContentState, part: PartView) -> ContentState {
    ContentState {
        text: match part.text {
            Some(t) => s.text + t,
            None => s.text,
        },
        call_parts: if part.function_call is Some {
            s.call_parts.push(part)
        } else {
            s.call_parts
        },
        usage: s.usage,
    }
}

/// The reply with a run of parts added.
pub open spec fn parts_added(s: ContentState, parts: Seq<PartView>) -> ContentState
    decreases parts.len(),
{
    if parts.len() == 0 {
        s
    } else {
        part_added(parts_added(s, parts.drop_last()), parts.last())
    }
}

/// What a run of parts reports: every text, as it comes.
pub open spec fn parts_report(parts: Seq<PartView>) -> Seq<SinkView>
    decreases parts.len(),
{
    if parts.len() == 0 {
        Seq::empty()
    } else {
        match parts.last().text {
            Some(t) => parts_report(parts.drop_last()).push(SinkView::Content(t)),
            None => parts_report(parts.drop_last()),
        }
    }
}

/// The reply with one chunk added.
pub open spec fn chunk_added(s: ContentState, chunk: ReplyView) -> ContentState {
    ContentState {
        usage: match chunk.usage_metadata {
            Some(u) => Some(u),
            None => s.usage,
        },
        ..parts_added(s, parts_of(chunk.candidates))
    }
}

proof fn lemma_parts_added_add(s: ContentState, a: Seq<PartView>, b: Seq<PartView>)
    ensures
        parts_added(s, a + b) == parts_added(parts_added(s, a), b),
        parts_report(a + b) == parts_report(a) + parts_report(b),
    decreases b.len(),
{
    if b.len() == 0 {
        assert(a + b =~= a);
        assert(parts_report(a) + parts_report(b) =~= parts_report(a));
    } else {
        assert((a + b).drop_last() =~= a + b.drop_last());
        lemma_parts_added_add(s, a, b.drop_last());
        assert(parts_report(a + b) =~= parts_report(a) + parts_report(b));
    }
}

proof fn lemma_parts_keep_usage(s: ContentState, parts: Seq<PartView>)
    ensures
        parts_added(s, parts).usage == s.usage,
    decreases parts.len(),
{
    if parts.len() > 0 {
        lemma_parts_keep_usage(s, parts.drop_last());
    }
}

/// The end of a streamed reply.
#[derive(Debug)]
pub struct ContentEnd {
    /// The tool calls to report, in order, before the reply counts.
    pub calls: Vec<ToolCall>,
    pub message: Message,
    pub thought_signatures: Vec<(String, String)>,
    pub tool_names: Vec<(String, String)>,
}

impl ContentBuilder {
    /// The reply before the first chunk.
    pub fn new() -> (r: ContentBuilder)
        ensures
            r.deep_view() == (ContentState {
                text: Seq::empty(),
                call_parts: Seq::empty(),
                usage: None,
            }),
    {
        let r = ContentBuilder { text: String::new(), call_parts: Vec::new(), usage: None };
        assert(r.deep_view().call_parts =~= Seq::empty());
        r
    }

    /// Adds the parts of one candidate, and appends what they report.
    fn add_parts(&mut self, parts: Vec<Part>, reports: &mut Vec<SinkEvent>)
        ensures
            final(self).deep_view() == parts_added(old(self).deep_view(), parts.deep_view()),
            final(reports).deep_view() == old(reports).deep_view() + parts_report(
                parts.deep_view(),
            ),
    {
        let ghost all = parts.deep_view();
        let ghost list = parts@;
        let ghost start = self.deep_view();
        let ghost reported = reports.deep_view();
        assert(reports.deep_view() =~= reported + parts_report(all.take(0)));
        assert(parts_added(start, all.take(0)) == start);
        for part in it: parts
            invariant
                it.seq() == list,
                all.len() == list.len(),
                forall|k: int| 0 <= k < all.len() ==> all[k] == (#[trigger] list[k]).deep_view(),
                self.deep_view() == parts_added(start, all.take(it.index())),
                reports.deep_view() == reported + parts_report(all.take(it.index())),
        {
            let ghost k = it.index();
            assert(list[k] == part);
            assert(all.take(k + 1).drop_last() =~= all.take(k));
            assert(all.take(k + 1).last() == part.deep_view());
            let ghost had_reports = reports.deep_view();
            let ghost had_parts = self.call_parts.deep_view();
            if let Some(text) = &part.text {
                self.text.append(text.as_str());
                let event = SinkEvent::Content(text.clone());
                reports.push(event);
                assert(reports.deep_view() =~= had_reports.push(event.deep_view()));
            }
            assert(reports.deep_view() =~= reported + parts_report(all.take(k + 1)));
            if part.function_call.is_some() {
                let ghost view = part.deep_view();
                self.call_parts.push(part);
                assert(self.call_parts.deep_view() =~= had_parts.push(view));
            }
        }
        assert(all.take(all.len() as int) =~= all);
    }

    /// Adds one chunk, and returns what it reports.
    pub fn add_chunk(&mut self, chunk: GenerateContentResponse) -> (r: Vec<SinkEvent>)
        ensures
            final(self).deep_view() == chunk_added(old(self).deep_view(), chunk.deep_view()),
            r.deep_view() == parts_report(parts_of(chunk.deep_view().candidates)),
    {
        let ghost all = chunk.deep_view().candidates;
        let ghost list = chunk.candidates@;
        let ghost start = self.deep_view();
        let mut reports: Vec<SinkEvent> = Vec::new();
        assert(reports.deep_view() =~= parts_report(parts_of(all.take(0))));
        assert(parts_added(start, parts_of(all.take(0))) == start);
        for candidate in it: chunk.candidates
            invariant
                it.seq() == list,
                all.len() == list.len(),
                forall|k: int| 0 <= k < all.len() ==> all[k] == (#[trigger] list[k]).deep_view(),
                self.deep_view() == parts_added(start, parts_of(all.take(it.index()))),
                reports.deep_view() == parts_report(parts_of(all.take(it.index()))),
        {
            let ghost k = it.index();
            assert(list[k] == candidate);
            assert(all.take(k + 1).drop_last() =~= all.take(k));
            assert(all.take(k + 1).last() == candidate.deep_view());
            proof {
                lemma_parts_added_add(
                    start,
                    parts_of(all.take(k)),
                    candidate.parts.deep_view(),
                );
            }
            self.add_parts(candidate.parts, &mut reports);
        }
        assert(all.take(all.len() as int) =~= all);
        proof {
            lemma_parts_keep_usage(start, parts_of(all));
        }
        if let Some(u) = chunk.usage_metadata {
            self.usage = Some(u);
        }
        reports
    }

    /// Makes the message, and collects what has to be kept for later requests.
    pub fn finish(self) -> (r: ContentEnd)
        ensures
            r.calls.deep_view() == calls_made(self.deep_view().call_parts),
            r.message.deep_view() == reply_message(
                self.text@,
                calls_made(self.deep_view().call_parts),
                self.usage,
            ),
            r.thought_signatures.deep_view() == signatures_given(self.deep_view().call_parts),
            r.tool_names.deep_view() == names_given(self.deep_view().call_parts),
    {
        let read = read_calls(self.call_parts);
        let calls = read.tool_calls.clone();
        assert(calls.deep_view() =~= read.tool_calls.deep_view());
        ContentEnd {
            calls,
            message: make_reply(self.text.as_str(), read.tool_calls, self.usage),
            thought_signatures: read.thought_signatures,
            tool_names: read.tool_names,
        }
    }
}

/// A reply that is being streamed.
#[derive(Debug)]
pub struct ContentStream {
    pub reader: EventReader,
    pub builder: ContentBuilder,
}

impl ContentStream {
    /// A stream of which nothing has come. Of each event the first `data:` line
    /// counts.
    pub fn new() -> (r: ContentStream)
        ensures
            r.reader.deep_view() == (ReaderState {
                buffer: Seq::empty(),
                pending: Seq::empty(),
                pick: Pick::First,
            }),
            r.builder.deep_view() == (ContentState {
                text: Seq::empty(),
                call_parts: Seq::empty(),
                usage: None,
            }),
    {
        ContentStream { reader: EventReader::new(Pick::First), builder: ContentBuilder::new() }
    }
}

/// The error for a chunk that is no JSON of the right shape.
pub fn invalid_chunk(error: &str, data: &str) -> (r: ProviderError)
    ensures
        r matches ProviderError::Decode(DecodeError::Message(m)) && m@
            == "invalid JSON in SSE data: "@ + error@ + ". raw: "@ + data@,
{
    let mut message = "invalid JSON in SSE data: ".to_owned();
    message.append(error);
    message.append(". raw: ");
    message.append(data);
    ProviderError::Decode(DecodeError::Message(message))
}

// ---------------------------------------------------------------------------
// Laws
// ---------------------------------------------------------------------------

/// What a streamed reply reports piece by piece adds up to the text that it holds.
pub proof fn law_reports_add_up_to_the_reply(s: ContentState, parts: Seq<PartView>)
    ensures
        parts_added(s, parts).text == s.text + content_reported(parts_report(parts)),
    decreases parts.len(),
{
    if parts.len() == 0 {
        assert(s.text + content_reported(parts_report(parts)) =~= s.text);
    } else {
        law_reports_add_up_to_the_reply(s, parts.drop_last());
        let before = parts_report(parts.drop_last());
        match parts.last().text {
            Some(t) => {
                assert(parts_report(parts).drop_last() =~= before);
                assert(parts_added(s, parts).text =~= s.text + content_reported(
                    parts_report(parts),
                ));
            },
            None => {},
        }
    }
}

/// A streamed reply makes the tool calls of all its parts and keeps all their
/// signatures and names, as a reply in one piece does.
pub proof fn law_stream_keeps_every_call(parts: Seq<PartView>)
    ensures
        ({
            let empty = ContentState { text: Seq::empty(), call_parts: Seq::empty(), usage: None };
            let kept = parts_added(empty, parts).call_parts;
            &&& calls_made(kept) == calls_made(parts)
            &&& signatures_given(kept) == signatures_given(parts)
            &&& names_given(kept) == names_given(parts)
        }),
    decreases parts.len(),
{
    let empty = ContentState { text: Seq::empty(), call_parts: Seq::empty(), usage: None };
    if parts.len() > 0 {
        law_stream_keeps_every_call(parts.drop_last());
        let before = parts_added(empty, parts.drop_last()).call_parts;
        if parts.last().function_call is Some {
            assert(before.push(parts.last()).drop_last() =~= before);
        }
    }
}

/// A function call, read from its JSON.
pub open spec fn call_in(t: JsonTree) -> ToolCallView {
    ToolCallView {
        id: text_at(t, "id"@),
        name: text_at(t, "name"@),
        arguments: member(t, "args"@)->0,
    }
}

/// The result of a function, read from its JSON.
pub open spec fn response_in(t: JsonTree) -> ResponseView {
    ResponseView { name: text_at(t, "name"@), response: member(t, "response"@)->0 }
}

/// Inline data, read from its JSON.
pub open spec fn inline_in(t: JsonTree) -> InlineView {
    InlineView { mime_type: text_at(t, "mimeType"@), data: text_at(t, "data"@) }
}

/// A part, read from its JSON.
pub open spec fn part_in(t: JsonTree) -> PartView {
    PartView {
        text: match member(t, "text"@) {
            Some(v) => Some(text(v)),
            None => None,
        },
        function_call: match member(t, "functionCall"@) {
            Some(v) => Some(call_in(v)),
            None => None,
        },
        function_response: match member(t, "functionResponse"@) {
            Some(v) => Some(response_in(v)),
            None => None,
        },
        thought_signature: match member(t, "thoughtSignature"@) {
            Some(v) => Some(text(v)),
            None => None,
        },
        inline_data: match member(t, "inlineData"@) {
            Some(v) => Some(inline_in(v)),
            None => None,
        },
    }
}

/// A content, read from its JSON.
pub open spec fn content_in(t: JsonTree) -> ContentView {
    ContentView {
        role: text_at(t, "role"@),
        parts: items(member(t, "parts"@)->0).map_values(|p: JsonTree| part_in(p)),
    }
}

/// A tool, read from the JSON of its declaration.
pub open spec fn declaration_in(t: JsonTree) -> ToolSpecView {
    ToolSpecView {
        name: text_at(t, "name"@),
        description: text_at(t, "description"@),
        parameters_schema: member(t, "parameters"@)->0,
    }
}

/// The texts of the system instruction of a request, read from its JSON.
pub open spec fn system_in(t: JsonTree) -> Option<Seq<Seq<char>>> {
    match member(t, "systemInstruction"@) {
        Some(v) => Some(
            items(member(v, "parts"@)->0).map_values(|p: JsonTree| text_at(p, "text"@)),
        ),
        None => None,
    }
}

/// The contents of a request, read from its JSON.
pub open spec fn contents_in(t: JsonTree) -> Seq<ContentView> {
    items(member(t, "contents"@)->0).map_values(|c: JsonTree| content_in(c))
}

/// The tools of a request, read from its JSON: the declarations of its one tool.
pub open spec fn tools_in(t: JsonTree) -> Option<Seq<ToolSpecView>> {
    match member(t, "tools"@) {
        Some(v) => Some(
            items(member(items(v)[0], "functionDeclarations"@)->0).map_values(
                |d: JsonTree| declaration_in(d),
            ),
        ),
        None => None,
    }
}

/// The limit of a request, read from its JSON.
pub open spec fn limit_in(t: JsonTree) -> Option<int> {
    match member(t, "generationConfig"@) {
        Some(v) => Some(number_read(member(v, "maxOutputTokens"@)->0->Number_0)),
        None => None,
    }
}

proof fn lemma_part_keys()
    ensures
        "text"@ != "functionCall"@,
        "text"@ != "functionResponse"@,
        "text"@ != "thoughtSignature"@,
        "text"@ != "inlineData"@,
        "functionCall"@ != "functionResponse"@,
        "functionCall"@ != "thoughtSignature"@,
        "functionCall"@ != "inlineData"@,
        "functionResponse"@ != "thoughtSignature"@,
        "functionResponse"@ != "inlineData"@,
        "thoughtSignature"@ != "inlineData"@,
{
    reveal_strlit("text");
    reveal_strlit("functionCall");
    reveal_strlit("functionResponse");
    reveal_strlit("thoughtSignature");
    reveal_strlit("inlineData");
    assert("text"@.len() == 4 && "text"@[0] == 't');
    assert("functionCall"@.len() == 12 && "functionCall"@[0] == 'f');
    assert("functionResponse"@.len() == 16 && "functionResponse"@[0] == 'f');
    assert("thoughtSignature"@.len() == 16 && "thoughtSignature"@[0] == 't');
    assert("inlineData"@.len() == 10 && "inlineData"@[0] == 'i');
}

proof fn lemma_other_keys()
    ensures
        "name"@ != "args"@,
        "name"@ != "id"@,
        "args"@ != "id"@,
        "name"@ != "response"@,
        "mimeType"@ != "data"@,
        "role"@ != "parts"@,
        "name"@ != "description"@,
        "name"@ != "parameters"@,
        "description"@ != "parameters"@,
        "systemInstruction"@ != "contents"@,
        "systemInstruction"@ != "tools"@,
        "systemInstruction"@ != "generationConfig"@,
        "contents"@ != "tools"@,
        "contents"@ != "generationConfig"@,
        "tools"@ != "generationConfig"@,
{
    reveal_strlit("name");
    reveal_strlit("args");
    reveal_strlit("id");
    reveal_strlit("response");
    reveal_strlit("mimeType");
    reveal_strlit("data");
    reveal_strlit("role");
    reveal_strlit("parts");
    reveal_strlit("description");
    reveal_strlit("parameters");
    reveal_strlit("systemInstruction");
    reveal_strlit("contents");
    reveal_strlit("tools");
    reveal_strlit("generationConfig");
    assert("name"@.len() == 4 && "name"@[0] == 'n');
    assert("args"@.len() == 4 && "args"@[0] == 'a');
    assert("id"@.len() == 2 && "id"@[0] == 'i');
    assert("response"@.len() == 8 && "response"@[0] == 'r');
    assert("mimeType"@.len() == 8 && "mimeType"@[0] == 'm');
    assert("data"@.len() == 4 && "data"@[0] == 'd');
    assert("role"@.len() == 4 && "role"@[0] == 'r');
    assert("parts"@.len() == 5 && "parts"@[0] == 'p');
    assert("description"@.len() == 11 && "description"@[0] == 'd');
    assert("parameters"@.len() == 10 && "parameters"@[0] == 'p');
    assert("systemInstruction"@.len() == 17 && "systemInstruction"@[0] == 's');
    assert("contents"@.len() == 8 && "contents"@[0] == 'c');
    assert("tools"@.len() == 5 && "tools"@[0] == 't');
    assert("generationConfig"@.len() == 16 && "generationConfig"@[0] == 'g');
}

proof fn lemma_optional_member(key: Seq<char>, value: Option<JsonTree>, other: Seq<char>)
    ensures
        found(optional_member(key, value), other) == if key == other {
            value
        } else {
            None
        },
{
    if let Some(v) = value {
        lemma_found_one(key, v, other);
    }
}

proof fn lemma_calls_are_read_back(call: ToolCallView)
    ensures
        call_in(call_tree(call)) == call,
{
    lemma_other_keys();
    let n = JsonTree::Text(call.name);
    let i = JsonTree::Text(call.id);
    lemma_found_three("name"@, n, "args"@, call.arguments, "id"@, i, "name"@);
    lemma_found_three("name"@, n, "args"@, call.arguments, "id"@, i, "args"@);
    lemma_found_three("name"@, n, "args"@, call.arguments, "id"@, i, "id"@);
}

proof fn lemma_responses_are_read_back(r: ResponseView)
    ensures
        response_in(response_tree(r)) == r,
{
    lemma_other_keys();
    let n = JsonTree::Text(r.name);
    lemma_found_two("name"@, n, "response"@, r.response, "name"@);
    lemma_found_two("name"@, n, "response"@, r.response, "response"@);
}

proof fn lemma_inline_data_is_read_back(d: InlineView)
    ensures
        inline_in(inline_tree(d)) == d,
{
    lemma_other_keys();
    let m = JsonTree::Text(d.mime_type);
    let b = JsonTree::Text(d.data);
    lemma_found_two("mimeType"@, m, "data"@, b, "mimeType"@);
    lemma_found_two("mimeType"@, m, "data"@, b, "data"@);
}

proof fn lemma_five_members(
    a: Option<JsonTree>,
    b: Option<JsonTree>,
    c: Option<JsonTree>,
    d: Option<JsonTree>,
    e: Option<JsonTree>,
    key: Seq<char>,
)
    ensures
        ({
            let all = optional_member("text"@, a) + optional_member("functionCall"@, b)
                + optional_member("functionResponse"@, c) + optional_member("thoughtSignature"@, d)
                + optional_member("inlineData"@, e);
            &&& found(all, "text"@) == a
            &&& found(all, "functionCall"@) == b
            &&& found(all, "functionResponse"@) == c
            &&& found(all, "thoughtSignature"@) == d
            &&& found(all, "inlineData"@) == e
            &&& key != "text"@ && key != "functionCall"@ && key != "functionResponse"@ && key
                != "thoughtSignature"@ && key != "inlineData"@ ==> found(all, key) is None
        }),
{
    lemma_part_keys();
    lemma_found_in_five(a, b, c, d, e, "text"@);
    lemma_found_in_five(a, b, c, d, e, "functionCall"@);
    lemma_found_in_five(a, b, c, d, e, "functionResponse"@);
    lemma_found_in_five(a, b, c, d, e, "thoughtSignature"@);
    lemma_found_in_five(a, b, c, d, e, "inlineData"@);
    lemma_found_in_five(a, b, c, d, e, key);
}

proof fn lemma_found_in_five(
    a: Option<JsonTree>,
    b: Option<JsonTree>,
    c: Option<JsonTree>,
    d: Option<JsonTree>,
    e: Option<JsonTree>,
    key: Seq<char>,
)
    ensures
        found(
            optional_member("text"@, a) + optional_member("functionCall"@, b) + optional_member(
                "functionResponse"@,
                c,
            ) + optional_member("thoughtSignature"@, d) + optional_member("inlineData"@, e),
            key,
        ) == (if key == "text"@ && a is Some {
            a
        } else if key == "functionCall"@ && b is Some {
            b
        } else if key == "functionResponse"@ && c is Some {
            c
        } else if key == "thoughtSignature"@ && d is Some {
            d
        } else if key == "inlineData"@ {
            e
        } else {
            None
        }),
{
    let ma = optional_member("text"@, a);
    let mb = optional_member("functionCall"@, b);
    let mc = optional_member("functionResponse"@, c);
    let md = optional_member("thoughtSignature"@, d);
    let me = optional_member("inlineData"@, e);
    lemma_part_keys();
    lemma_optional_member("text"@, a, key);
    lemma_optional_member("functionCall"@, b, key);
    lemma_optional_member("functionResponse"@, c, key);
    lemma_optional_member("thoughtSignature"@, d, key);
    lemma_optional_member("inlineData"@, e, key);
    lemma_found_add(ma, mb, key);
    lemma_found_add(ma + mb, mc, key);
    lemma_found_add(ma + mb + mc, md, key);
    lemma_found_add(ma + mb + mc + md, me, key);
}

/// A part is read back from its JSON, field by field, and the JSON says nothing else.
pub proof fn law_parts_are_read_back(part: PartView, key: Seq<char>)
    ensures
        part_in(part_tree(part)) == part,
        key != "text"@ && key != "functionCall"@ && key != "functionResponse"@ && key
            != "thoughtSignature"@ && key != "inlineData"@ ==> member(part_tree(part), key) is None,
{
    if let Some(c) = part.function_call {
        lemma_calls_are_read_back(c);
    }
    if let Some(r) = part.function_response {
        lemma_responses_are_read_back(r);
    }
    if let Some(d) = part.inline_data {
        lemma_inline_data_is_read_back(d);
    }
    lemma_five_members(
        match part.text {
            Some(t) => Some(JsonTree::Text(t)),
            None => None,
        },
        match part.function_call {
            Some(c) => Some(call_tree(c)),
            None => None,
        },
        match part.function_response {
            Some(r) => Some(response_tree(r)),
            None => None,
        },
        match part.thought_signature {
            Some(t) => Some(JsonTree::Text(t)),
            None => None,
        },
        match part.inline_data {
            Some(d) => Some(inline_tree(d)),
            None => None,
        },
        key,
    );
}

/// A content is read back from its JSON.
pub proof fn law_contents_are_read_back(content: ContentView)
    ensures
        content_in(content_tree(content)) == content,
{
    lemma_other_keys();
    let r = JsonTree::Text(content.role);
    let trees = content.parts.map_values(|p: PartView| part_tree(p));
    let p = JsonTree::Array(trees);
    lemma_found_two("role"@, r, "parts"@, p, "role"@);
    lemma_found_two("role"@, r, "parts"@, p, "parts"@);
    let read = trees.map_values(|p: JsonTree| part_in(p));
    assert forall|k: int| 0 <= k < content.parts.len() implies #[trigger] read[k]
        == content.parts[k] by {
        law_parts_are_read_back(content.parts[k], Seq::empty());
    }
    assert(read =~= content.parts);
}

proof fn lemma_system_is_read_back(texts: Seq<Seq<char>>)
    ensures
        items(member(system_tree(texts), "parts"@)->0).map_values(
            |p: JsonTree| text_at(p, "text"@),
        ) == texts,
{
    let trees = texts.map_values(|t: Seq<char>| JsonTree::Object(seq![text_member("text"@, t)]));
    lemma_found_one("parts"@, JsonTree::Array(trees), "parts"@);
    let read = trees.map_values(|p: JsonTree| text_at(p, "text"@));
    assert forall|k: int| 0 <= k < texts.len() implies #[trigger] read[k] == texts[k] by {
        lemma_found_one("text"@, JsonTree::Text(texts[k]), "text"@);
    }
    assert(read =~= texts);
}

proof fn lemma_tools_are_read_back(tools: Seq<ToolSpecView>)
    ensures
        items(tools_tree(tools)).len() == 1,
        items(member(items(tools_tree(tools))[0], "functionDeclarations"@)->0).map_values(
            |d: JsonTree| declaration_in(d),
        ) == tools,
{
    lemma_other_keys();
    let trees = tools.map_values(|t: ToolSpecView| declaration_tree(t));
    lemma_found_one("functionDeclarations"@, JsonTree::Array(trees), "functionDeclarations"@);
    let read = trees.map_values(|d: JsonTree| declaration_in(d));
    assert forall|k: int| 0 <= k < tools.len() implies #[trigger] read[k] == tools[k] by {
        let n = JsonTree::Text(tools[k].name);
        let d = JsonTree::Text(tools[k].description);
        let p = tools[k].parameters_schema;
        lemma_found_three("name"@, n, "description"@, d, "parameters"@, p, "name"@);
        lemma_found_three("name"@, n, "description"@, d, "parameters"@, p, "description"@);
        lemma_found_three("name"@, n, "description"@, d, "parameters"@, p, "parameters"@);
    }
    assert(read =~= tools);
}

proof fn lemma_found_in_request(
    a: Option<JsonTree>,
    b: JsonTree,
    c: Option<JsonTree>,
    d: Option<JsonTree>,
    key: Seq<char>,
)
    ensures
        found(
            optional_member("systemInstruction"@, a) + seq![("contents"@, b)] + optional_member(
                "tools"@,
                c,
            ) + optional_member("generationConfig"@, d),
            key,
        ) == (if key == "systemInstruction"@ {
            a
        } else if key == "contents"@ {
            Some(b)
        } else if key == "tools"@ {
            c
        } else if key == "generationConfig"@ {
            d
        } else {
            None
        }),
{
    lemma_other_keys();
    let ma = optional_member("systemInstruction"@, a);
    let mb = seq![("contents"@, b)];
    let mc = optional_member("tools"@, c);
    let md = optional_member("generationConfig"@, d);
    lemma_optional_member("systemInstruction"@, a, key);
    lemma_found_one("contents"@, b, key);
    lemma_optional_member("tools"@, c, key);
    lemma_optional_member("generationConfig"@, d, key);
    lemma_found_add(ma, mb, key);
    lemma_found_add(ma + mb, mc, key);
    lemma_found_add(ma + mb + mc, md, key);
}

/// A request is read back from its JSON: the texts of the system instruction, which is
/// there exactly if the request has one, the contents, the tools and the limit; and the
/// JSON says nothing else.
pub proof fn law_requests_are_read_back(request: RequestView, key: Seq<char>)
    ensures
        ({
            let t = request_tree(request);
            &&& system_in(t) == request.system_instruction
            &&& contents_in(t) == request.contents
            &&& tools_in(t) == request.tools
            &&& limit_in(t) == (match request.max_output_tokens {
                Some(n) => Some(n as int),
                None => None,
            })
            &&& key != "systemInstruction"@ && key != "contents"@ && key != "tools"@ && key
                != "generationConfig"@ ==> member(t, key) is None
        }),
{
    let trees = request.contents.map_values(|c: ContentView| content_tree(c));
    let a = match request.system_instruction {
        Some(parts) => Some(system_tree(parts)),
        None => None,
    };
    let c = match request.tools {
        Some(tools) => Some(tools_tree(tools)),
        None => None,
    };
    let d = match request.max_output_tokens {
        Some(n) => Some(
            JsonTree::Object(seq![("maxOutputTokens"@, JsonTree::Number(decimal(n as nat)))]),
        ),
        None => None,
    };
    let b = JsonTree::Array(trees);
    lemma_found_in_request(a, b, c, d, "systemInstruction"@);
    lemma_found_in_request(a, b, c, d, "contents"@);
    lemma_found_in_request(a, b, c, d, "tools"@);
    lemma_found_in_request(a, b, c, d, "generationConfig"@);
    lemma_found_in_request(a, b, c, d, key);
    lemma_other_keys();
    if let Some(parts) = request.system_instruction {
        lemma_system_is_read_back(parts);
    }
    let read = trees.map_values(|c: JsonTree| content_in(c));
    assert forall|k: int| 0 <= k < request.contents.len() implies #[trigger] read[k]
        == request.contents[k] by {
        law_contents_are_read_back(request.contents[k]);
    }
    assert(read =~= request.contents);
    if let Some(tools) = request.tools {
        lemma_tools_are_read_back(tools);
    }
    if let Some(n) = request.max_output_tokens {
        lemma_found_one(
            "maxOutputTokens"@,
            JsonTree::Number(decimal(n as nat)),
            "maxOutputTokens"@,
        );
        law_decimals_are_read_back(n as nat);
    }
}

/// The body of a request holds a system instruction exactly if the conversation has a
/// system message, with the texts of its system messages, in order; the contents of the
/// conversation; every tool under its name, with its description and its schema in the
/// form that is accepted, where there is a tool; and the limit of the provider.
pub proof fn law_bodies_hold_the_conversation(
    p: GeminiView,
    messages: Seq<MessageView>,
    tools: Seq<ToolSpecView>,
)
    ensures
        ({
            let body = request_tree(content_request(p, messages, tools));
            let is_system = |m: MessageView| m.role == Role::System;
            &&& system_in(body) is Some <==> exists|i: int|
                0 <= i < messages.len() && (#[trigger] messages[i]).role == Role::System
            &&& system_in(body) matches Some(texts) ==> picks(
                messages,
                is_system,
                |m: MessageView| text_of(m.content),
                texts,
            )
            &&& contents_in(body) == contents_of(messages, p.thought_signatures, p.tool_names)
            &&& tools_in(body) is Some <==> tools.len() > 0
            &&& tools_in(body) matches Some(declared) ==> declared.len() == tools.len()
                && forall|k: int|
                0 <= k < tools.len() ==> {
                    &&& (#[trigger] declared[k]).name == tools[k].name
                    &&& declared[k].description == tools[k].description
                    &&& declared[k].parameters_schema == sanitized(tools[k].parameters_schema)
                }
            &&& limit_in(body) == Some(p.max_tokens as int)
        }),
{
    let request = content_request(p, messages, tools);
    law_requests_are_read_back(request, Seq::empty());
    law_system_texts_are_those_of_the_system(messages);
    let is_system = |m: MessageView| m.role == Role::System;
    if exists|i: int| 0 <= i < messages.len() && (#[trigger] messages[i]).role == Role::System {
        let i = choose|i: int|
            0 <= i < messages.len() && (#[trigger] messages[i]).role == Role::System;
        assert(is_system(messages[i]));
    } else {
        lemma_none_picked(messages, is_system, messages.len() as int);
    }
}

/// The parts of contents are those of each, one after the other.
pub proof fn law_parts_stand_one_after_the_other(a: Seq<ContentView>, c: ContentView)
    ensures
        parts_of(Seq::empty()).len() == 0,
        parts_of(a.push(c)) == parts_of(a) + c.parts,
{
    assert(a.push(c).drop_last() =~= a);
}

/// A streamed reply holds the texts of all its parts, one after the other, and the parts
/// with a call; every text is reported as it comes; and the usage is the last that was
/// sent.
pub proof fn law_a_reply_holds_what_was_sent(s: ContentState, parts: Seq<PartView>)
    ensures
        picks(
            parts,
            |p: PartView| p.text is Some,
            |p: PartView| SinkView::Content(p.text->0),
            parts_report(parts),
        ),
        ({
            let empty = ContentState { text: Seq::empty(), call_parts: Seq::empty(), usage: None };
            picks(
                parts,
                |p: PartView| p.function_call is Some,
                |p: PartView| p,
                parts_added(empty, parts).call_parts,
            )
        }),
        parts_added(s, parts).text == s.text + texts_sent(parts),
    decreases parts.len(),
{
    let empty = ContentState { text: Seq::empty(), call_parts: Seq::empty(), usage: None };
    if parts.len() > 0 {
        let before = parts.drop_last();
        law_a_reply_holds_what_was_sent(s, before);
        lemma_picks_last(
            parts,
            |p: PartView| p.text is Some,
            |p: PartView| SinkView::Content(p.text->0),
            parts_report(before),
        );
        lemma_picks_last(
            parts,
            |p: PartView| p.function_call is Some,
            |p: PartView| p,
            parts_added(empty, before).call_parts,
        );
        assert(parts_added(s, parts).text =~= s.text + texts_sent(parts));
    } else {
        assert(s.text + texts_sent(parts) =~= s.text);
    }
}

/// The texts of `parts`, one after the other.
pub open spec fn texts_sent(parts: Seq<PartView>) -> Seq<char>
    decreases parts.len(),
{
    if parts.len() == 0 {
        Seq::empty()
    } else {
        match parts.last().text {
            Some(t) => texts_sent(parts.drop_last()) + t,
            None => texts_sent(parts.drop_last()),
        }
    }
}

/// A chunk adds its parts, and its usage replaces the one before, where it has one.
pub proof fn law_a_chunk_adds_its_parts(s: ContentState, chunk: ReplyView)
    ensures
        chunk_added(s, chunk).text == parts_added(s, parts_of(chunk.candidates)).text,
        chunk_added(s, chunk).call_parts == parts_added(s, parts_of(chunk.candidates)).call_parts,
        chunk.usage_metadata is Some ==> chunk_added(s, chunk).usage == chunk.usage_metadata,
        chunk.usage_metadata is None ==> chunk_added(s, chunk).usage == s.usage,
{
}

/// A request says that it is JSON and who sends it; and it carries the key exactly if
/// there is one. Nothing else is said.
pub proof fn law_headers(p: GeminiView)
    ensures
        request_headers(p).contains(("Content-Type"@, "application/json"@)),
        request_headers(p).contains(("User-Agent"@, p.user_agent)),
        p.api_key.len() > 0 ==> request_headers(p).contains(("x-goog-api-key"@, p.api_key)),
        request_headers(p).len() == if p.api_key.len() > 0 {
            3int
        } else {
            2int
        },
{
    let h = request_headers(p);
    assert(h[0] == ("Content-Type"@, "application/json"@));
    assert(h[1] == ("User-Agent"@, p.user_agent));
    if p.api_key.len() > 0 {
        assert(h[2] == ("x-goog-api-key"@, p.api_key));
    }
}

/// A new provider talks to Gemini with the key that it was given, and knows no calls.
pub proof fn law_defaults(api_key: Seq<char>)
    ensures
        default_provider(api_key).api_key == api_key,
        default_provider(api_key).base_url
            == "https://generativelanguage.googleapis.com/v1beta"@,
        default_provider(api_key).model == "gemini-3-flash-preview"@,
        default_provider(api_key).max_tokens == 4096,
        default_provider(api_key).user_agent == default_user_agent_text(),
        default_provider(api_key).thought_signatures == Map::<Seq<char>, Seq<char>>::empty(),
        default_provider(api_key).tool_names == Map::<Seq<char>, Seq<char>>::empty(),
        DEFAULT_API_KEY_ENV@ == "GEMINI_API_KEY"@,
{
}

/// The models of requests and providers tell their fields apart.
pub proof fn law_models_hold_the_fields(
    r: GenerateContentRequest,
    p: GeminiProvider,
    b: ContentBuilder,
)
    ensures
        r.deep_view().system_instruction == r.system_instruction.deep_view(),
        r.deep_view().contents == r.contents.deep_view(),
        r.deep_view().tools == r.tools.deep_view(),
        r.deep_view().max_output_tokens == r.max_output_tokens,
        p.deep_view().base_url == p.base_url@,
        p.deep_view().api_key == p.api_key@,
        p.deep_view().model == p.model@,
        p.deep_view().max_tokens == p.max_tokens,
        p.deep_view().user_agent == p.user_agent@,
        p.deep_view().thought_signatures == p.thought_signatures@,
        p.deep_view().tool_names == p.tool_names@,
        b.deep_view().text == b.text@,
        b.deep_view().call_parts == b.call_parts.deep_view(),
        b.deep_view().usage == b.usage,
{
}

} // verus!
