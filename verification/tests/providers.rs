use sweet::anthropic::{self, AnthropicProvider, WireThinking};
use sweet::error::{elapsed_ms, provider_error_from_core, DecodeError, ProviderError};
use sweet::gemini::{self, GeminiProvider};
use sweet::json::{parse_json, Json};
use sweet::message::{Message, ThinkingBlock};
use sweet::openai::{self, OpenAIProvider, ThinkingMode};
use sweet::provider::{check_status, ToolSpec, SWEET_VERSION};

#[test]
fn default_user_agent_is_sweet_version() {
    let p = OpenAIProvider::new("k");
    assert_eq!(p.user_agent, format!("sweet/{}", SWEET_VERSION));
}

#[test]
fn with_user_agent_overwrites() {
    let p = OpenAIProvider::new("k").with_user_agent("custom/1.0");
    assert_eq!(p.user_agent, "custom/1.0");
}

#[test]
fn prepend_user_agent_prepends_with_space() {
    let p = OpenAIProvider::new("k").prepend_user_agent("app/1.0");
    assert_eq!(p.user_agent, format!("app/1.0 sweet/{}", SWEET_VERSION));
}

#[test]
fn mod_default_user_agent_is_sweet_version() {
    let p = AnthropicProvider::new("k", "m");
    assert_eq!(p.user_agent, format!("sweet/{}", SWEET_VERSION));
    let p = GeminiProvider::new("k");
    assert_eq!(p.user_agent, format!("sweet/{}", SWEET_VERSION));
}

#[test]
fn mod_with_user_agent_overwrites() {
    let p = AnthropicProvider::new("k", "m").with_user_agent("custom/1.0");
    assert_eq!(p.user_agent, "custom/1.0");
    let p = GeminiProvider::new("k").with_user_agent("custom/1.0");
    assert_eq!(p.user_agent, "custom/1.0");
}

#[test]
fn mod_prepend_user_agent_prepends_with_space() {
    let p = AnthropicProvider::new("k", "m").prepend_user_agent("app/1.0");
    assert_eq!(p.user_agent, format!("app/1.0 sweet/{}", SWEET_VERSION));
    let p = GeminiProvider::new("k").prepend_user_agent("app/1.0");
    assert_eq!(p.user_agent, format!("app/1.0 sweet/{}", SWEET_VERSION));
}

#[test]
fn thinking_config_is_none_when_unset() {
    let p = OpenAIProvider::new("k");
    assert!(p.thinking_config().is_none());
}

#[test]
fn enabled_preset_emits_type_enabled_without_keep() {
    let cfg = OpenAIProvider::new("k")
        .with_thinking(ThinkingMode::enabled())
        .thinking_config()
        .unwrap();
    assert_eq!(cfg.kind, "enabled");
    assert_eq!(cfg.keep, None);
}

#[test]
fn disabled_preset_emits_type_disabled() {
    let cfg = OpenAIProvider::new("k")
        .with_thinking(ThinkingMode::disabled())
        .thinking_config()
        .unwrap();
    assert_eq!(cfg.kind, "disabled");
    assert_eq!(cfg.keep, None);
}

#[test]
fn preserved_preset_emits_enabled_with_keep_all() {
    let cfg = OpenAIProvider::new("k")
        .with_thinking(ThinkingMode::preserved())
        .thinking_config()
        .unwrap();
    assert_eq!(cfg.kind, "enabled");
    assert_eq!(cfg.keep.as_deref(), Some("all"));
}

#[test]
fn custom_disabled_with_preserve_history_round_trips() {
    let cfg = OpenAIProvider::new("k")
        .with_thinking(ThinkingMode {
            enabled: false,
            preserve_history: true,
        })
        .thinking_config()
        .unwrap();
    assert_eq!(cfg.kind, "disabled");
    assert_eq!(cfg.keep.as_deref(), Some("all"));
}

#[test]
fn echo_reasoning_off_by_default() {
    let p = OpenAIProvider::new("k");
    assert!(!p.echo_reasoning());
}

#[test]
fn echo_reasoning_on_when_thinking_or_effort_set() {
    assert!(OpenAIProvider::new("k")
        .with_thinking(ThinkingMode::enabled())
        .echo_reasoning());
    assert!(OpenAIProvider::new("k")
        .with_thinking(ThinkingMode::disabled())
        .echo_reasoning());
    assert!(OpenAIProvider::new("k")
        .with_thinking(ThinkingMode::preserved())
        .echo_reasoning());
    assert!(OpenAIProvider::new("k")
        .with_reasoning_effort("high")
        .echo_reasoning());
}

fn tool() -> ToolSpec {
    ToolSpec {
        name: "echo".to_string(),
        description: "says it again".to_string(),
        parameters_schema: parse_json(r#"{"title": "E", "type": ["object", "null"]}"#).unwrap(),
    }
}

#[test]
fn openai_requests_hold_what_is_configured() {
    let p = OpenAIProvider::new("k")
        .with_model("m1")
        .with_base_url("https://x.test/v1//")
        .with_context_window(9)
        .with_reasoning_effort("high");
    assert_eq!(p.base_url(), "https://x.test/v1//");
    assert_eq!(p.model_name(), "m1");
    assert_eq!(p.context_window(), Some(9));
    assert_eq!(p.request_url(), "https://x.test/v1/chat/completions");
    assert_eq!(p.bearer_token().as_deref(), Some("k"));
    assert_eq!(OpenAIProvider::new("").bearer_token(), None);

    let messages = vec![Message::user("hi")];
    let r = p.request(&messages, &vec![tool()], true);
    assert_eq!(r.model, "m1");
    assert_eq!(r.messages.len(), 1);
    assert!(r.messages[0].include_reasoning);
    assert!(r.stream);
    assert_eq!(r.include_usage, Some(true));
    assert_eq!(r.reasoning_effort.as_deref(), Some("high"));
    assert!(r.thinking.is_none());
    let tools = r.tools.unwrap();
    assert_eq!(
        tools[0].parameters_schema,
        parse_json(r#"{"type": "object"}"#).unwrap()
    );

    let plain = OpenAIProvider::new("k").request(&messages, &vec![], false);
    assert_eq!(plain.model, openai::DEFAULT_MODEL);
    assert!(plain.tools.is_none());
    assert!(!plain.stream);
    assert_eq!(plain.include_usage, None);
    assert!(!plain.messages[0].include_reasoning);
}

#[test]
fn anthropic_requests_hold_what_is_configured() {
    let p = AnthropicProvider::new("key", "m")
        .with_max_tokens(7)
        .with_base_url("https://y.test/")
        .with_thinking(anthropic::ThinkingConfig::Enabled { budget_tokens: 3 });
    assert_eq!(p.max_tokens(), 7);
    assert_eq!(p.model_name(), "m");
    assert_eq!(p.base_url(), "https://y.test/");
    assert_eq!(p.request_url(), "https://y.test/messages");
    assert_eq!(
        p.wire_thinking(),
        Some(WireThinking::Enabled { budget_tokens: 3 })
    );
    let headers: Vec<(String, String)> = p
        .headers()
        .into_iter()
        .map(|h| (h.name, h.value))
        .collect();
    assert_eq!(
        headers,
        vec![
            ("anthropic-version".to_string(), "2023-06-01".to_string()),
            ("content-type".to_string(), "application/json".to_string()),
            ("User-Agent".to_string(), format!("sweet/{}", SWEET_VERSION)),
            ("x-api-key".to_string(), "key".to_string()),
        ]
    );
    assert_eq!(AnthropicProvider::new("", "m").headers().len(), 3);

    let r = p.request("system", vec![1, 2], &vec![tool()], false);
    assert_eq!(r.system, "system");
    assert_eq!(r.messages, vec![1, 2]);
    assert_eq!(r.max_tokens, 7);
    // The schema is sent as it is.
    assert_eq!(r.tools.unwrap()[0], tool());
    assert!(p.request((), (), &vec![], true).tools.is_none());
    let adaptive = AnthropicProvider::new("k", "m").with_thinking(anthropic::ThinkingConfig::Adaptive);
    assert_eq!(adaptive.wire_thinking(), Some(WireThinking::Adaptive));
    assert_eq!(AnthropicProvider::new("k", "m").wire_thinking(), None);
}

#[test]
fn gemini_urls_name_the_model() {
    let p = GeminiProvider::new("g").with_model("mm").with_base_url("https://z.test/v1beta/");
    assert_eq!(
        p.request_url(false),
        "https://z.test/v1beta/models/mm:generateContent"
    );
    assert_eq!(
        p.request_url(true),
        "https://z.test/v1beta/models/mm:streamGenerateContent?alt=sse"
    );
    assert_eq!(p.headers().len(), 3);
    assert_eq!(p.headers()[2].name, "x-goog-api-key");
    assert_eq!(GeminiProvider::new("").headers().len(), 2);
}

#[test]
fn missing_keys_are_reported_by_name() {
    match OpenAIProvider::from_env(None) {
        Err(ProviderError::MissingApiKey { var }) => assert_eq!(var, "OPENAI_API_KEY"),
        _ => panic!(),
    }
    match AnthropicProvider::from_env(None, "m") {
        Err(ProviderError::MissingApiKey { var }) => assert_eq!(var, "ANTHROPIC_API_KEY"),
        _ => panic!(),
    }
    match GeminiProvider::from_env(None) {
        Err(ProviderError::MissingApiKey { var }) => assert_eq!(var, "GEMINI_API_KEY"),
        _ => panic!(),
    }
    let p = OpenAIProvider::from_env(Some("secret".to_string())).unwrap();
    assert_eq!(p.api_key, "secret");
    assert_eq!(p.base_url, openai::DEFAULT_BASE_URL);
    let p = GeminiProvider::from_env(Some("s".to_string())).unwrap();
    assert_eq!(p.max_tokens, gemini::DEFAULT_MAX_TOKENS);
    assert_eq!(p.base_url, "https://generativelanguage.googleapis.com/v1beta");
}

#[test]
fn only_success_statuses_pass() {
    for status in [200, 204, 299] {
        assert!(check_status(status, "").is_ok());
    }
    for status in [199, 300, 404, 500] {
        match check_status(status, "why") {
            Err(ProviderError::Http { status: s, body }) => {
                assert_eq!(s, status);
                assert_eq!(body, "why");
            }
            _ => panic!(),
        }
    }
}

#[test]
fn elapsed_time_saturates() {
    assert_eq!(elapsed_ms(17), 17);
    assert_eq!(elapsed_ms(u64::MAX as u128), u64::MAX);
    assert_eq!(elapsed_ms(u64::MAX as u128 + 1), u64::MAX);
}

#[test]
fn sink_errors_keep_their_words() {
    match provider_error_from_core("disk full") {
        ProviderError::Decode(DecodeError::Message(m)) => assert_eq!(m, "disk full"),
        _ => panic!(),
    }
}

#[test]
fn messages_join_their_text_blocks() {
    let mut m = Message::user("a");
    assert!(!m.has_attachments());
    m.content.push(sweet::message::ContentBlock::Image {
        data: vec![1],
        media_type: "image/png".to_string(),
    });
    m.content.push(sweet::message::ContentBlock::text("b"));
    assert_eq!(m.text_content(), "ab");
    assert!(m.has_attachments());
    m.set_reasoning_content("why".to_string());
    assert_eq!(
        m.thinking_content,
        vec![ThinkingBlock {
            text: "why".to_string(),
            signature: None
        }]
    );
    assert_eq!(m.clone(), m);
    assert_eq!(Json::Null.clone(), Json::Null);
}
