//! Provider for OpenAI's `/chat/completions` protocol.

use vstd::prelude::*;

use crate::error::ProviderError;
use crate::message::{clone_optional_text, Message, MessageView};
use crate::provider::{
    default_user_agent, default_user_agent_text, endpoint, endpoint_text, prepended_user_agent,
    sanitize_tools, sanitized_tools, ToolSpec, ToolSpecView,
};
use crate::schema::sanitized;

verus! {

pub const DEFAULT_BASE_URL: &'static str = "https://api.openai.com/v1";

pub const DEFAULT_API_KEY_ENV: &'static str = "OPENAI_API_KEY";

pub const DEFAULT_MODEL: &'static str = "gpt-4o-mini";

/// How a thinking-aware model is to reason.
#[derive(Debug, Clone, Copy, PartialEq, Eq, Structural)]
pub struct ThinkingMode {
    pub enabled: bool,
    /// Whether the reasoning of earlier turns is kept.
    pub preserve_history: bool,
}

impl ThinkingMode {
    /// Reasoning on.
    pub fn enabled() -> (r: ThinkingMode)
        ensures
            r == (ThinkingMode { enabled: true, preserve_history: false }),
    {
        ThinkingMode { enabled: true, preserve_history: false }
    }

    /// Reasoning off.
    pub fn disabled() -> (r: ThinkingMode)
        ensures
            r == (ThinkingMode { enabled: false, preserve_history: false }),
    {
        ThinkingMode { enabled: false, preserve_history: false }
    }

    /// Reasoning on, with that of earlier turns kept.
    pub fn preserved() -> (r: ThinkingMode)
        ensures
            r == (ThinkingMode { enabled: true, preserve_history: true }),
    {
        ThinkingMode { enabled: true, preserve_history: true }
    }
}

/// The `thinking` object of a request: its `type` and `keep` members.
#[derive(Debug)]
pub struct ThinkingConfig {
    pub kind: String,
    pub keep: Option<String>,
}

/// The model of a [`ThinkingConfig`].
#[verifier::ext_equal]
pub struct ThinkingConfigView {
    pub kind: Seq<char>,
    pub keep: Option<Seq<char>>,
}

impl DeepView for ThinkingConfig {
    type V = ThinkingConfigView;

    open spec fn deep_view(&self) -> ThinkingConfigView {
        ThinkingConfigView { kind: self.kind@, keep: self.keep.deep_view() }
    }
}

/// The `thinking` object for `mode`.
pub open spec fn thinking_object(mode: ThinkingMode) -> ThinkingConfigView {
    ThinkingConfigView {
        kind: if mode.enabled {
            "enabled"@
        } else {
            "disabled"@
        },
        keep: if mode.preserve_history {
            Some("all"@)
        } else {
            None
        },
    }
}

/// A message of a request, and whether its reasoning is sent with it.
#[derive(Debug)]
pub struct WireMessage {
    pub message: Message,
    pub include_reasoning: bool,
}

impl DeepView for WireMessage {
    type V = (MessageView, bool);

    open spec fn deep_view(&self) -> (MessageView, bool) {
        (self.message.deep_view(), self.include_reasoning)
    }
}

/// A request for a reply.
#[derive(Debug)]
pub struct ChatRequest {
    pub model: String,
    pub messages: Vec<WireMessage>,
    /// The tools, with their parameter schemas in the form that is accepted.
    pub tools: Option<Vec<ToolSpec>>,
    pub stream: bool,
    /// The `include_usage` member of the stream options, where these are sent.
    pub include_usage: Option<bool>,
    pub reasoning_effort: Option<String>,
    pub thinking: Option<ThinkingConfig>,
}

/// The model of a [`ChatRequest`].
#[verifier::ext_equal]
pub struct ChatRequestView {
    pub model: Seq<char>,
    pub messages: Seq<(MessageView, bool)>,
    pub tools: Option<Seq<ToolSpecView>>,
    pub stream: bool,
    pub include_usage: Option<bool>,
    pub reasoning_effort: Option<Seq<char>>,
    pub thinking: Option<ThinkingConfigView>,
}

impl DeepView for ChatRequest {
    type V = ChatRequestView;

    open spec fn deep_view(&self) -> ChatRequestView {
        ChatRequestView {
            model: self.model@,
            messages: self.messages.deep_view(),
            tools: self.tools.deep_view(),
            stream: self.stream,
            include_usage: self.include_usage,
            reasoning_effort: self.reasoning_effort.deep_view(),
            thinking: self.thinking.deep_view(),
        }
    }
}

/// A provider for OpenAI and the services that speak its protocol.
#[derive(Debug)]
pub struct OpenAIProvider {
    pub base_url: String,
    pub api_key: String,
    pub model: String,
    pub context_window: Option<usize>,
    pub user_agent: String,
    pub reasoning_effort: Option<String>,
    pub thinking: Option<ThinkingMode>,
}

/// The model of an [`OpenAIProvider`].
#[verifier::ext_equal]
pub struct OpenAIView {
    pub base_url: Seq<char>,
    pub api_key: Seq<char>,
    pub model: Seq<char>,
    pub context_window: Option<usize>,
    pub user_agent: Seq<char>,
    pub reasoning_effort: Option<Seq<char>>,
    pub thinking: Option<ThinkingMode>,
}

impl DeepView for OpenAIProvider {
    type V = OpenAIView;

    open spec fn deep_view(&self) -> OpenAIView {
        OpenAIView {
            base_url: self.base_url@,
            api_key: self.api_key@,
            model: self.model@,
            context_window: self.context_window,
            user_agent: self.user_agent@,
            reasoning_effort: self.reasoning_effort.deep_view(),
            thinking: self.thinking,
        }
    }
}

/// The provider for `api_key` with the defaults for everything else.
pub open spec fn default_provider(api_key: Seq<char>) -> OpenAIView {
    OpenAIView {
        base_url: DEFAULT_BASE_URL@,
        api_key,
        model: DEFAULT_MODEL@,
        context_window: None,
        user_agent: default_user_agent_text(),
        reasoning_effort: None,
        thinking: None,
    }
}

/// Whether the reasoning of earlier turns is sent: only to a service that a
/// reasoning parameter is set for.
pub open spec fn echoes_reasoning(p: OpenAIView) -> bool {
    p.thinking is Some || p.reasoning_effort is Some
}

/// `messages`, each marked with whether its reasoning is sent.
pub open spec fn marked(messages: Seq<MessageView>, include_reasoning: bool) -> Seq<
    (MessageView, bool),
> {
    messages.map_values(|m: MessageView| (m, include_reasoning))
}

/// The request that `p` sends.
pub open spec fn chat_request(
    p: OpenAIView,
    messages: Seq<MessageView>,
    tools: Seq<ToolSpecView>,
    stream: bool,
) -> ChatRequestView {
    ChatRequestView {
        model: p.model,
        messages: marked(messages, echoes_reasoning(p)),
        tools: if tools.len() == 0 {
            None
        } else {
            Some(sanitized_tools(tools))
        },
        stream,
        include_usage: if stream {
            Some(true)
        } else {
            None
        },
        reasoning_effort: p.reasoning_effort,
        thinking: match p.thinking {
            Some(mode) => Some(thinking_object(mode)),
            None => None,
        },
    }
}

impl OpenAIProvider {
    /// A provider for `api_key`, with the defaults for everything else.
    pub fn new(api_key: &str) -> (r: OpenAIProvider)
        ensures
            r.deep_view() == default_provider(api_key@),
    {
        OpenAIProvider {
            base_url: DEFAULT_BASE_URL.to_owned(),
            api_key: api_key.to_owned(),
            model: DEFAULT_MODEL.to_owned(),
            context_window: None,
            user_agent: default_user_agent(),
            reasoning_effort: None,
            thinking: None,
        }
    }

    /// A provider for the key that the environment variable
    /// [`DEFAULT_API_KEY_ENV`] holds; `value` is what it holds, if it is set.
    pub fn from_env(value: Option<String>) -> (r: Result<OpenAIProvider, ProviderError>)
        ensures
            match value {
                Some(key) => r matches Ok(p) && p.deep_view() == default_provider(key@),
                None => r matches Err(ProviderError::MissingApiKey { var }) && var@
                    == DEFAULT_API_KEY_ENV@,
            },
    {
        match value {
            Some(key) => Ok(OpenAIProvider::new(key.as_str())),
            None => Err(ProviderError::MissingApiKey { var: DEFAULT_API_KEY_ENV.to_owned() }),
        }
    }

    pub fn with_base_url(self, url: &str) -> (r: OpenAIProvider)
        ensures
            r.deep_view() == (OpenAIView { base_url: url@, ..self.deep_view() }),
    {
        OpenAIProvider { base_url: url.to_owned(), ..self }
    }

    pub fn with_model(self, model: &str) -> (r: OpenAIProvider)
        ensures
            r.deep_view() == (OpenAIView { model: model@, ..self.deep_view() }),
    {
        OpenAIProvider { model: model.to_owned(), ..self }
    }

    pub fn with_context_window(self, tokens: usize) -> (r: OpenAIProvider)
        ensures
            r.deep_view() == (OpenAIView { context_window: Some(tokens), ..self.deep_view() }),
    {
        OpenAIProvider { context_window: Some(tokens), ..self }
    }

    pub fn with_user_agent(self, ua: &str) -> (r: OpenAIProvider)
        ensures
            r.deep_view() == (OpenAIView { user_agent: ua@, ..self.deep_view() }),
    {
        OpenAIProvider { user_agent: ua.to_owned(), ..self }
    }

    pub fn prepend_user_agent(self, prefix: &str) -> (r: OpenAIProvider)
        ensures
            r.deep_view() == (OpenAIView {
                user_agent: prefix@ + " "@ + self.user_agent@,
                ..self.deep_view()
            }),
    {
        let user_agent = prepended_user_agent(prefix.to_owned(), self.user_agent.as_str());
        OpenAIProvider { user_agent, ..self }
    }

    /// Sets the reasoning-effort parameter. It is only sent when set.
    pub fn with_reasoning_effort(self, effort: &str) -> (r: OpenAIProvider)
        ensures
            r.deep_view() == (OpenAIView { reasoning_effort: Some(effort@), ..self.deep_view() }),
    {
        OpenAIProvider { reasoning_effort: Some(effort.to_owned()), ..self }
    }

    /// Configures reasoning. When unset, no `thinking` object is sent.
    pub fn with_thinking(self, mode: ThinkingMode) -> (r: OpenAIProvider)
        ensures
            r.deep_view() == (OpenAIView { thinking: Some(mode), ..self.deep_view() }),
    {
        OpenAIProvider { thinking: Some(mode), ..self }
    }

    pub fn base_url(&self) -> (r: &str)
        ensures
            r@ == self.base_url@,
    {
        self.base_url.as_str()
    }

    pub fn model_name(&self) -> (r: &str)
        ensures
            r@ == self.model@,
    {
        self.model.as_str()
    }

    pub fn context_window(&self) -> (r: Option<usize>)
        ensures
            r == self.context_window,
    {
        self.context_window
    }

    /// The `thinking` object of a request, or `None` when none is configured.
    pub fn thinking_config(&self) -> (r: Option<ThinkingConfig>)
        ensures
            r.deep_view() == (match self.thinking {
                Some(mode) => Some(thinking_object(mode)),
                None => None,
            }),
    {
        match self.thinking {
            Some(mode) => {
                let kind = if mode.enabled {
                    "enabled".to_owned()
                } else {
                    "disabled".to_owned()
                };
                let keep = if mode.preserve_history {
                    Some("all".to_owned())
                } else {
                    None
                };
                Some(ThinkingConfig { kind, keep })
            },
            None => None,
        }
    }

    /// Whether the reasoning of earlier turns is sent.
    pub fn echo_reasoning(&self) -> (r: bool)
        ensures
            r == echoes_reasoning(self.deep_view()),
    {
        self.thinking.is_some() || self.reasoning_effort.is_some()
    }

    /// The messages of a request.
    pub fn wire_messages(&self, messages: &Vec<Message>) -> (r: Vec<WireMessage>)
        ensures
            r.deep_view() == marked(messages.deep_view(), echoes_reasoning(self.deep_view())),
    {
        let include_reasoning = self.echo_reasoning();
        let mut out: Vec<WireMessage> = Vec::new();
        let ghost all = marked(messages.deep_view(), include_reasoning);
        assert(out.deep_view() =~= all.take(0));
        for i in 0..messages.len()
            invariant
                all == marked(messages.deep_view(), include_reasoning),
                out.deep_view() == all.take(i as int),
        {
            let ghost before = out.deep_view();
            let message = messages[i].clone();
            out.push(WireMessage { message, include_reasoning });
            assert(out.deep_view() =~= before.push((message.deep_view(), include_reasoning)));
            assert(all.take(i + 1) =~= all.take(i as int).push(all[i as int]));
        }
        assert(all.take(all.len() as int) =~= all);
        out
    }

    /// The request for a reply to `messages`.
    pub fn request(&self, messages: &Vec<Message>, tools: &Vec<ToolSpec>, stream: bool) -> (r:
        ChatRequest)
        ensures
            r.deep_view() == chat_request(
                self.deep_view(),
                messages.deep_view(),
                tools.deep_view(),
                stream,
            ),
    {
        let tools_wire = if tools.len() == 0 {
            None
        } else {
            Some(sanitize_tools(tools))
        };
        ChatRequest {
            model: self.model.clone(),
            messages: self.wire_messages(messages),
            tools: tools_wire,
            stream,
            include_usage: if stream {
                Some(true)
            } else {
                None
            },
            reasoning_effort: clone_optional_text(&self.reasoning_effort),
            thinking: self.thinking_config(),
        }
    }

    /// The URL that requests go to.
    pub fn request_url(&self) -> (r: String)
        ensures
            r@ == endpoint_text(self.base_url@, "/chat/completions"@),
    {
        endpoint(self.base_url.as_str(), "/chat/completions")
    }

    /// The bearer token of a request: the key, unless it is empty.
    pub fn bearer_token(&self) -> (r: Option<String>)
        ensures
            r.deep_view() == (if self.api_key@.len() == 0 {
                None
            } else {
                Some(self.api_key@)
            }),
    {
        if self.api_key.as_str().is_empty() {
            None
        } else {
            Some(self.api_key.clone())
        }
    }
}

// ---------------------------------------------------------------------------
// Laws
// ---------------------------------------------------------------------------

/// A request asks the model of the provider, holds every message in order and every
/// tool in the form that is accepted, and says whether it wants a stream, with its
/// usage; what is configured for reasoning is sent where it is set, and only then.
pub proof fn law_requests_hold_what_is_asked(
    p: OpenAIView,
    messages: Seq<MessageView>,
    tools: Seq<ToolSpecView>,
    stream: bool,
)
    ensures
        ({
            let r = chat_request(p, messages, tools, stream);
            &&& r.model == p.model
            &&& r.messages.len() == messages.len()
            &&& forall|k: int|
                0 <= k < messages.len() ==> (#[trigger] r.messages[k]).0 == messages[k]
                    && r.messages[k].1 == (p.thinking is Some || p.reasoning_effort is Some)
            &&& r.tools is Some <==> tools.len() > 0
            &&& r.tools is Some ==> r.tools->0.len() == tools.len() && forall|k: int|
                0 <= k < tools.len() ==> {
                    &&& (#[trigger] r.tools->0[k]).name == tools[k].name
                    &&& r.tools->0[k].description == tools[k].description
                    &&& r.tools->0[k].parameters_schema == sanitized(tools[k].parameters_schema)
                }
            &&& r.stream == stream
            &&& r.include_usage == if stream {
                Some(true)
            } else {
                None
            }
            &&& r.reasoning_effort == p.reasoning_effort
            &&& r.thinking is Some <==> p.thinking is Some
            &&& p.thinking matches Some(mode) ==> {
                &&& r.thinking->0.kind == if mode.enabled {
                    "enabled"@
                } else {
                    "disabled"@
                }
                &&& r.thinking->0.keep == if mode.preserve_history {
                    Some("all"@)
                } else {
                    None
                }
            }
        }),
{
}

/// A new provider talks to OpenAI with the key that it was given.
pub proof fn law_defaults(api_key: Seq<char>)
    ensures
        default_provider(api_key).api_key == api_key,
        default_provider(api_key).base_url == "https://api.openai.com/v1"@,
        default_provider(api_key).model == "gpt-4o-mini"@,
        default_provider(api_key).user_agent == default_user_agent_text(),
        default_provider(api_key).context_window is None,
        default_provider(api_key).reasoning_effort is None,
        default_provider(api_key).thinking is None,
        DEFAULT_API_KEY_ENV@ == "OPENAI_API_KEY"@,
{
}

/// The models of providers and requests tell their fields apart.
pub proof fn law_models_hold_the_fields(p: OpenAIProvider, r: ChatRequest, m: WireMessage)
    ensures
        p.deep_view().base_url == p.base_url@,
        p.deep_view().api_key == p.api_key@,
        p.deep_view().model == p.model@,
        p.deep_view().context_window == p.context_window,
        p.deep_view().user_agent == p.user_agent@,
        p.deep_view().reasoning_effort == p.reasoning_effort.deep_view(),
        p.deep_view().thinking == p.thinking,
        r.deep_view().model == r.model@,
        r.deep_view().messages == r.messages.deep_view(),
        r.deep_view().tools == r.tools.deep_view(),
        r.deep_view().stream == r.stream,
        r.deep_view().include_usage == r.include_usage,
        r.deep_view().reasoning_effort == r.reasoning_effort.deep_view(),
        r.deep_view().thinking == r.thinking.deep_view(),
        m.deep_view().0 == m.message.deep_view(),
        m.deep_view().1 == m.include_reasoning,
{
}

/// The model of a `thinking` object holds its members.
pub proof fn law_models_of_thinking_hold_the_fields(t: ThinkingConfig)
    ensures
        t.deep_view().kind == t.kind@,
        t.keep is None ==> t.deep_view().keep is None,
        t.keep is Some ==> t.deep_view().keep == Some(t.keep->0@),
{
}

} // verus!
