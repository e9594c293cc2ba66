//! Provider for Anthropic's `/messages` protocol.

use vstd::prelude::*;

use crate::error::ProviderError;
use crate::provider::{
    default_user_agent, default_user_agent_text, endpoint, endpoint_text, header,
    prepended_user_agent, Header, ToolSpec,
};

verus! {

pub const DEFAULT_BASE_URL: &'static str = "https://api.anthropic.com/v1";

pub const DEFAULT_API_KEY_ENV: &'static str = "ANTHROPIC_API_KEY";

pub const DEFAULT_MAX_TOKENS: usize = 4096;

pub const API_VERSION: &'static str = "2023-06-01";

/// How the model is to reason.
#[derive(Debug, Clone, Copy, PartialEq, Eq, Structural)]
pub enum ThinkingConfig {
    Enabled { budget_tokens: usize },
    Adaptive,
}

/// The `thinking` object of a request.
#[derive(Debug, Clone, Copy, PartialEq, Eq, Structural)]
pub enum WireThinking {
    Enabled { budget_tokens: usize },
    Adaptive,
}

/// The `thinking` object for `config`.
pub open spec fn thinking_object(config: ThinkingConfig) -> WireThinking {
    match config {
        ThinkingConfig::Enabled { budget_tokens } => WireThinking::Enabled { budget_tokens },
        ThinkingConfig::Adaptive => WireThinking::Adaptive,
    }
}

/// A request for a reply. `system` and `messages` hold the conversation in the
/// form that the protocol wants.
#[derive(Debug)]
pub struct MessagesRequest<S, M> {
    pub model: String,
    pub max_tokens: usize,
    pub system: S,
    pub messages: M,
    pub tools: Option<Vec<ToolSpec>>,
    pub stream: bool,
    pub thinking: Option<WireThinking>,
}

/// A provider for Anthropic's `/messages` protocol.
#[derive(Debug)]
pub struct AnthropicProvider {
    pub base_url: String,
    pub api_key: String,
    pub model: String,
    pub max_tokens: usize,
    pub user_agent: String,
    pub thinking: Option<ThinkingConfig>,
}

/// The model of an [`AnthropicProvider`].
#[verifier::ext_equal]
pub struct AnthropicView {
    pub base_url: Seq<char>,
    pub api_key: Seq<char>,
    pub model: Seq<char>,
    pub max_tokens: usize,
    pub user_agent: Seq<char>,
    pub thinking: Option<ThinkingConfig>,
}

impl DeepView for AnthropicProvider {
    type V = AnthropicView;

    open spec fn deep_view(&self) -> AnthropicView {
        AnthropicView {
            base_url: self.base_url@,
            api_key: self.api_key@,
            model: self.model@,
            max_tokens: self.max_tokens,
            user_agent: self.user_agent@,
            thinking: self.thinking,
        }
    }
}

/// The provider for `api_key` and `model` with the defaults for everything else.
pub open spec fn default_provider(api_key: Seq<char>, model: Seq<char>) -> AnthropicView {
    AnthropicView {
        base_url: DEFAULT_BASE_URL@,
        api_key,
        model,
        max_tokens: DEFAULT_MAX_TOKENS,
        user_agent: default_user_agent_text(),
        thinking: None,
    }
}

/// The headers of a request. The key is sent only when there is one.
pub open spec fn request_headers(p: AnthropicView) -> Seq<(Seq<char>, Seq<char>)> {
    let always = seq![
        ("anthropic-version"@, API_VERSION@),
        ("content-type"@, "application/json"@),
        ("User-Agent"@, p.user_agent),
    ];
    if p.api_key.len() == 0 {
        always
    } else {
        always.push(("x-api-key"@, p.api_key))
    }
}

impl AnthropicProvider {
    /// A provider for `api_key` and `model`, with the defaults for everything else.
    pub fn new(api_key: &str, model: &str) -> (r: AnthropicProvider)
        ensures
            r.deep_view() == default_provider(api_key@, model@),
    {
        AnthropicProvider {
            base_url: DEFAULT_BASE_URL.to_owned(),
            api_key: api_key.to_owned(),
            model: model.to_owned(),
            max_tokens: DEFAULT_MAX_TOKENS,
            user_agent: default_user_agent(),
            thinking: None,
        }
    }

    /// A provider for the key that the environment variable
    /// [`DEFAULT_API_KEY_ENV`] holds; `value` is what it holds, if it is set.
    pub fn from_env(value: Option<String>, model: &str) -> (r: Result<
        AnthropicProvider,
        ProviderError,
    >)
        ensures
            match value {
                Some(key) => r matches Ok(p) && p.deep_view() == default_provider(key@, model@),
                None => r matches Err(ProviderError::MissingApiKey { var }) && var@
                    == DEFAULT_API_KEY_ENV@,
            },
    {
        match value {
            Some(key) => Ok(AnthropicProvider::new(key.as_str(), model)),
            None => Err(ProviderError::MissingApiKey { var: DEFAULT_API_KEY_ENV.to_owned() }),
        }
    }

    pub fn with_base_url(self, url: &str) -> (r: AnthropicProvider)
        ensures
            r.deep_view() == (AnthropicView { base_url: url@, ..self.deep_view() }),
    {
        AnthropicProvider { base_url: url.to_owned(), ..self }
    }

    pub fn with_model(self, model: &str) -> (r: AnthropicProvider)
        ensures
            r.deep_view() == (AnthropicView { model: model@, ..self.deep_view() }),
    {
        AnthropicProvider { model: model.to_owned(), ..self }
    }

    pub fn with_max_tokens(self, tokens: usize) -> (r: AnthropicProvider)
        ensures
            r.deep_view() == (AnthropicView { max_tokens: tokens, ..self.deep_view() }),
    {
        AnthropicProvider { max_tokens: tokens, ..self }
    }

    pub fn with_user_agent(self, ua: &str) -> (r: AnthropicProvider)
        ensures
            r.deep_view() == (AnthropicView { user_agent: ua@, ..self.deep_view() }),
    {
        AnthropicProvider { user_agent: ua.to_owned(), ..self }
    }

    pub fn prepend_user_agent(self, prefix: &str) -> (r: AnthropicProvider)
        ensures
            r.deep_view() == (AnthropicView {
                user_agent: prefix@ + " "@ + self.user_agent@,
                ..self.deep_view()
            }),
    {
        let user_agent = prepended_user_agent(prefix.to_owned(), self.user_agent.as_str());
        AnthropicProvider { user_agent, ..self }
    }

    pub fn with_thinking(self, config: ThinkingConfig) -> (r: AnthropicProvider)
        ensures
            r.deep_view() == (AnthropicView { thinking: Some(config), ..self.deep_view() }),
    {
        AnthropicProvider { thinking: Some(config), ..self }
    }

    pub fn base_url(&self) -> (r: &str)
        ensures
            r@ == self.base_url@,
    {
        self.base_url.as_str()
    }

    pub fn model_name(&self) -> (r: &str)
        ensures
            r@ == self.model@,
    {
        self.model.as_str()
    }

    pub fn max_tokens(&self) -> (r: usize)
        ensures
            r == self.max_tokens,
    {
        self.max_tokens
    }

    /// The `thinking` object of a request, or `None` when none is configured.
    pub fn wire_thinking(&self) -> (r: Option<WireThinking>)
        ensures
            r == (match self.thinking {
                Some(config) => Some(thinking_object(config)),
                None => None,
            }),
    {
        match self.thinking {
            Some(ThinkingConfig::Enabled { budget_tokens }) => Some(
                WireThinking::Enabled { budget_tokens },
            ),
            Some(ThinkingConfig::Adaptive) => Some(WireThinking::Adaptive),
            None => None,
        }
    }

    /// The request for a reply to a converted conversation. The parameter schemas
    /// of the tools are sent as they are.
    pub fn request<S, M>(
        &self,
        system: S,
        messages: M,
        tools: &Vec<ToolSpec>,
        stream: bool,
    ) -> (r: MessagesRequest<S, M>)
        ensures
            r.model@ == self.model@,
            r.max_tokens == self.max_tokens,
            r.system == system,
            r.messages == messages,
            r.tools.deep_view() == (if tools@.len() == 0 {
                None
            } else {
                Some(tools.deep_view())
            }),
            r.stream == stream,
            r.thinking == (match self.thinking {
                Some(config) => Some(thinking_object(config)),
                None => None,
            }),
    {
        let tools_wire = if tools.len() == 0 {
            None
        } else {
            Some(copy_tools(tools))
        };
        MessagesRequest {
            model: self.model.clone(),
            max_tokens: self.max_tokens,
            system,
            messages,
            tools: tools_wire,
            stream,
            thinking: self.wire_thinking(),
        }
    }

    /// The URL that requests go to.
    pub fn request_url(&self) -> (r: String)
        ensures
            r@ == endpoint_text(self.base_url@, "/messages"@),
    {
        endpoint(self.base_url.as_str(), "/messages")
    }

    /// The headers of a request.
    pub fn headers(&self) -> (r: Vec<Header>)
        ensures
            r.deep_view() == request_headers(self.deep_view()),
    {
        let mut out: Vec<Header> = Vec::new();
        out.push(header("anthropic-version", API_VERSION));
        out.push(header("content-type", "application/json"));
        out.push(header("User-Agent", self.user_agent.as_str()));
        if !self.api_key.as_str().is_empty() {
            out.push(header("x-api-key", self.api_key.as_str()));
        }
        assert(out.deep_view() =~= request_headers(self.deep_view()));
        out
    }
}

/// A copy of `tools`.
fn copy_tools(tools: &Vec<ToolSpec>) -> (r: Vec<ToolSpec>)
    ensures
        r.deep_view() == tools.deep_view(),
{
    let mut out: Vec<ToolSpec> = Vec::new();
    for i in 0..tools.len()
        invariant
            out@.len() == i,
            forall|k: int| 0 <= k < i ==> (#[trigger] out@[k]).deep_view() == tools@[k].deep_view(),
    {
        out.push(
            ToolSpec {
                name: tools[i].name.clone(),
                description: tools[i].description.clone(),
                parameters_schema: tools[i].parameters_schema.clone(),
            },
        );
    }
    assert(out.deep_view() =~= tools.deep_view());
    out
}

// ---------------------------------------------------------------------------
// Laws
// ---------------------------------------------------------------------------

/// A request says which version of the protocol it speaks, that it is JSON and who
/// sends it; and it carries the key exactly if there is one. Nothing else is said.
pub proof fn law_headers(p: AnthropicView)
    ensures
        request_headers(p).contains(("anthropic-version"@, "2023-06-01"@)),
        request_headers(p).contains(("content-type"@, "application/json"@)),
        request_headers(p).contains(("User-Agent"@, p.user_agent)),
        p.api_key.len() > 0 ==> request_headers(p).contains(("x-api-key"@, p.api_key)),
        request_headers(p).len() == if p.api_key.len() > 0 {
            4int
        } else {
            3int
        },
{
    let h = request_headers(p);
    assert(h[0] == ("anthropic-version"@, "2023-06-01"@));
    assert(h[1] == ("content-type"@, "application/json"@));
    assert(h[2] == ("User-Agent"@, p.user_agent));
    if p.api_key.len() > 0 {
        assert(h[3] == ("x-api-key"@, p.api_key));
    }
}

/// A new provider talks to Anthropic with the key and the model that it was given, and
/// what is configured for reasoning is sent as it is.
pub proof fn law_defaults(api_key: Seq<char>, model: Seq<char>, budget: usize)
    ensures
        default_provider(api_key, model).api_key == api_key,
        default_provider(api_key, model).model == model,
        default_provider(api_key, model).base_url == "https://api.anthropic.com/v1"@,
        default_provider(api_key, model).max_tokens == 4096,
        default_provider(api_key, model).user_agent == default_user_agent_text(),
        default_provider(api_key, model).thinking is None,
        DEFAULT_API_KEY_ENV@ == "ANTHROPIC_API_KEY"@,
        thinking_object(ThinkingConfig::Adaptive) is Adaptive,
        thinking_object(ThinkingConfig::Enabled { budget_tokens: budget }) == (
        WireThinking::Enabled { budget_tokens: budget }),
{
}

/// The model of a provider tells its fields apart.
pub proof fn law_models_hold_the_fields(p: AnthropicProvider)
    ensures
        p.deep_view().base_url == p.base_url@,
        p.deep_view().api_key == p.api_key@,
        p.deep_view().model == p.model@,
        p.deep_view().max_tokens == p.max_tokens,
        p.deep_view().user_agent == p.user_agent@,
        p.deep_view().thinking == p.thinking,
{
}

} // verus!
