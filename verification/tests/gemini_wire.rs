use base64::Engine;
use sweet::error::{DecodeError, ProviderError};
use sweet::gemini::{invalid_chunk, ContentStream, GeminiProvider, GenerateContentRequest};
use sweet::gemini_wire::{
    convert_messages, parse_response, Content, FunctionCall, GenerateContentResponse, Part,
    UsageMetadata,
};
use sweet::id_map::IdMap;
use sweet::json::{parse_json, Json};
use sweet::message::{ContentBlock, Message, Role, ToolCall};
use sweet::provider::{SinkEvent, ToolSpec};

fn tool_msg(id: &str, content: &str) -> Message {
    Message::tool_result(id, content)
}

fn names_of(pairs: &[(&str, &str)]) -> IdMap {
    let mut m = IdMap::new();
    for (k, v) in pairs {
        m.insert(k.to_string(), v.to_string());
    }
    m
}

fn result_of(text: &str) -> Json {
    Json::Object(vec![("result".to_string(), Json::Text(text.to_string()))])
}

fn get<'a>(j: &'a Json, key: &str) -> &'a Json {
    match j {
        Json::Object(members) => &members.iter().find(|m| m.0 == key).unwrap().1,
        _ => panic!("not an object: {j:?}"),
    }
}

fn item(j: &Json, i: usize) -> &Json {
    match j {
        Json::Array(items) => &items[i],
        _ => panic!("not an array: {j:?}"),
    }
}

#[test]
fn tool_result_response_serializes_as_plain_string() {
    let names = names_of(&[("call_1", "echo")]);
    let msgs = vec![tool_msg("call_1", "hello world")];
    let (_, contents) = convert_messages(&msgs, &IdMap::new(), &names);
    assert_eq!(contents.len(), 1);
    let part = &contents[0].parts[0];
    let resp = part.function_response.as_ref().unwrap();
    assert_eq!(resp.response, result_of("hello world"));
    assert_eq!(resp.name, "echo");
}

#[test]
fn tool_result_with_multiple_text_blocks_joins_them() {
    let mut msg = Message::tool_result("call_1", "");
    msg.content = vec![ContentBlock::text("part-a"), ContentBlock::text("part-b")];
    let names = names_of(&[("call_1", "echo")]);
    let (_, contents) = convert_messages(&vec![msg], &IdMap::new(), &names);
    let resp = contents[0].parts[0].function_response.as_ref().unwrap();
    assert_eq!(resp.response, result_of("part-apart-b"));
}

#[test]
fn consecutive_tool_results_group_into_single_user_content() {
    let names = names_of(&[("c1", "a"), ("c2", "b")]);
    let msgs = vec![tool_msg("c1", "r1"), tool_msg("c2", "r2")];
    let (_, contents) = convert_messages(&msgs, &IdMap::new(), &names);

    assert_eq!(contents.len(), 1);
    assert_eq!(contents[0].role, "user");
    assert_eq!(contents[0].parts.len(), 2);

    let r1 = contents[0].parts[0].function_response.as_ref().unwrap();
    assert_eq!(r1.response, result_of("r1"));
    assert_eq!(r1.name, "a");

    let r2 = contents[0].parts[1].function_response.as_ref().unwrap();
    assert_eq!(r2.response, result_of("r2"));
    assert_eq!(r2.name, "b");
}

#[test]
fn tool_result_with_unknown_tool_call_id_uses_empty_name() {
    let msgs = vec![tool_msg("orphan", "data")];
    let (_, contents) = convert_messages(&msgs, &IdMap::new(), &IdMap::new());
    let resp = contents[0].parts[0].function_response.as_ref().unwrap();
    assert_eq!(resp.name, "");
    assert_eq!(resp.response, result_of("data"));
}

#[test]
fn full_request_serializes_tool_result_as_plain_string() {
    let names = names_of(&[("call_1", "echo")]);
    let msgs = vec![tool_msg("call_1", "ok")];
    let (_, contents) = convert_messages(&msgs, &IdMap::new(), &names);
    let req = GenerateContentRequest {
        system_instruction: None,
        contents,
        tools: None,
        max_output_tokens: None,
    };
    let json = req.to_json();
    let part = item(get(item(get(&json, "contents"), 0), "parts"), 0);
    let result = get(get(get(part, "functionResponse"), "response"), "result");
    assert_eq!(result, &Json::Text("ok".to_string()));
}

#[test]
fn system_messages_join_into_system_instruction() {
    let msgs = vec![
        Message::system("rule one"),
        Message::system("rule two"),
        Message::user("hi"),
    ];
    let (sys, _) = convert_messages(&msgs, &IdMap::new(), &IdMap::new());
    let sys = sys.expect("system instruction emitted");
    assert_eq!(sys.len(), 2);
    assert_eq!(sys[0], "rule one");
    assert_eq!(sys[1], "rule two");
}

#[test]
fn system_message_with_multiple_blocks_joins_text() {
    let mut sys_msg = Message::system("");
    sys_msg.content = vec![ContentBlock::text("alpha "), ContentBlock::text("beta")];
    let msgs = vec![sys_msg];
    let (sys, _) = convert_messages(&msgs, &IdMap::new(), &IdMap::new());
    let sys = sys.expect("system instruction emitted");
    assert_eq!(sys.len(), 1);
    assert_eq!(sys[0], "alpha beta");
}

fn call(id: &str, args: &str) -> ToolCall {
    ToolCall {
        id: id.to_string(),
        name: "do_thing".to_string(),
        arguments: parse_json(args).unwrap(),
    }
}

#[test]
fn assistant_message_with_only_tool_calls_emits_function_call_part() {
    let msg = Message::with_tool_calls(vec![call("call_1", r#"{"x": 1}"#)]);
    let (_, contents) = convert_messages(&vec![msg], &IdMap::new(), &IdMap::new());

    assert_eq!(contents.len(), 1);
    assert_eq!(contents[0].role, "model");
    assert_eq!(contents[0].parts.len(), 1);
    let fc = contents[0].parts[0].function_call.as_ref().unwrap();
    assert_eq!(fc.name, "do_thing");
    assert_eq!(fc.id, "call_1");
}

#[test]
fn assistant_message_with_text_and_tool_call_emits_both_parts() {
    let mut msg = Message::with_tool_calls(vec![call("call_1", "{}")]);
    msg.content = vec![ContentBlock::text("about to call")];
    let (_, contents) = convert_messages(&vec![msg], &IdMap::new(), &IdMap::new());

    assert_eq!(contents[0].parts.len(), 2);
    assert_eq!(contents[0].parts[0].text.as_deref(), Some("about to call"));
    assert!(contents[0].parts[1].function_call.is_some());
}

#[test]
fn user_message_emits_single_text_part() {
    let msgs = vec![Message::user("hello")];
    let (_, contents) = convert_messages(&msgs, &IdMap::new(), &IdMap::new());
    assert_eq!(contents.len(), 1);
    assert_eq!(contents[0].role, "user");
    assert_eq!(contents[0].parts.len(), 1);
    assert_eq!(contents[0].parts[0].text.as_deref(), Some("hello"));
}

#[test]
fn thought_signature_attached_to_matching_function_call() {
    let msg = Message::with_tool_calls(vec![call("call_1", "{}")]);
    let sigs = names_of(&[("call_1", "sig-abc")]);
    let (_, contents) = convert_messages(&vec![msg], &sigs, &IdMap::new());
    assert_eq!(
        contents[0].parts[0].thought_signature.as_deref(),
        Some("sig-abc")
    );
}

#[test]
fn user_message_with_image_produces_inline_data_part() {
    let msg = Message::user_blocks(vec![
        ContentBlock::text("describe this"),
        ContentBlock::Image {
            data: vec![1, 2, 3],
            media_type: "image/png".to_string(),
        },
    ]);
    let (_, contents) = convert_messages(&vec![msg], &IdMap::new(), &IdMap::new());
    assert_eq!(contents.len(), 1);
    assert_eq!(contents[0].role, "user");
    assert_eq!(contents[0].parts.len(), 2);

    assert_eq!(contents[0].parts[0].text.as_deref(), Some("describe this"));
    assert!(contents[0].parts[0].inline_data.is_none());

    let inline = contents[0].parts[1].inline_data.as_ref().unwrap();
    assert_eq!(inline.mime_type, "image/png");
    assert_eq!(
        inline.data,
        base64::prelude::BASE64_STANDARD.encode(vec![1, 2, 3])
    );
    assert_eq!(inline.data, "AQID");
    assert!(contents[0].parts[1].text.is_none());
}

#[test]
fn user_message_image_only() {
    let msg = Message::user_blocks(vec![ContentBlock::Image {
        data: vec![0xFF; 10],
        media_type: "image/jpeg".to_string(),
    }]);
    let (_, contents) = convert_messages(&vec![msg], &IdMap::new(), &IdMap::new());
    assert_eq!(contents.len(), 1);
    assert_eq!(contents[0].parts.len(), 1);
    let inline = contents[0].parts[0].inline_data.as_ref().unwrap();
    assert_eq!(inline.mime_type, "image/jpeg");
}

#[test]
fn user_message_text_only_no_inline_data() {
    let msgs = vec![Message::user("hello")];
    let (_, contents) = convert_messages(&msgs, &IdMap::new(), &IdMap::new());
    assert_eq!(contents[0].parts.len(), 1);
    assert!(contents[0].parts[0].inline_data.is_none());
    assert_eq!(contents[0].parts[0].text.as_deref(), Some("hello"));
}

#[test]
fn full_request_with_image_serializes_inline_data() {
    let msg = Message::user_blocks(vec![
        ContentBlock::text("what is this"),
        ContentBlock::Image {
            data: vec![4, 5, 6],
            media_type: "image/png".to_string(),
        },
    ]);
    let (_, contents) = convert_messages(&vec![msg], &IdMap::new(), &IdMap::new());
    let req = GenerateContentRequest {
        system_instruction: None,
        contents,
        tools: None,
        max_output_tokens: None,
    };
    let json = req.to_json();
    let part = item(get(item(get(&json, "contents"), 0), "parts"), 1);
    let inline = get(part, "inlineData");
    assert_eq!(get(inline, "mimeType"), &Json::Text("image/png".to_string()));
    assert_eq!(
        get(inline, "data"),
        &Json::Text(base64::prelude::BASE64_STANDARD.encode(vec![4, 5, 6]))
    );
}

#[test]
fn files_are_sent_like_images_and_empty_text_is_dropped() {
    let msg = Message::user_blocks(vec![
        ContentBlock::text(""),
        ContentBlock::File {
            data: vec![7],
            media_type: "application/pdf".to_string(),
            name: Some("a.pdf".to_string()),
        },
    ]);
    let (_, contents) = convert_messages(&vec![msg], &IdMap::new(), &IdMap::new());
    assert_eq!(contents[0].parts.len(), 1);
    assert_eq!(contents[0].parts[0].inline_data.as_ref().unwrap().data, "Bw==");
}

#[test]
fn silent_assistant_message_still_has_a_part() {
    let msg = Message::assistant("");
    let (sys, contents) = convert_messages(&vec![msg], &IdMap::new(), &IdMap::new());
    assert!(sys.is_none());
    assert_eq!(contents[0].role, "model");
    assert_eq!(contents[0].parts.len(), 1);
    assert_eq!(contents[0].parts[0].text.as_deref(), Some(""));
}

#[test]
fn tool_results_are_grouped_only_with_neighbours() {
    let msgs = vec![
        tool_msg("a", "1"),
        Message::user("x"),
        tool_msg("b", "2"),
        tool_msg("c", "3"),
        Message::system("s"),
        tool_msg("d", "4"),
    ];
    let (sys, contents) = convert_messages(&msgs, &IdMap::new(), &IdMap::new());
    assert_eq!(sys, Some(vec!["s".to_string()]));
    let counts: Vec<usize> = contents.iter().map(|c| c.parts.len()).collect();
    assert_eq!(counts, vec![1, 1, 2, 1]);
}

fn part(text: Option<&str>, call: Option<(&str, &str)>, signature: Option<&str>) -> Part {
    Part {
        text: text.map(str::to_string),
        function_call: call.map(|(id, name)| FunctionCall {
            name: name.to_string(),
            args: Json::Object(vec![]),
            id: id.to_string(),
        }),
        function_response: None,
        thought_signature: signature.map(str::to_string),
        inline_data: None,
    }
}

fn response(parts: Vec<Part>, usage: Option<UsageMetadata>) -> GenerateContentResponse {
    GenerateContentResponse {
        candidates: vec![Content {
            role: "model".to_string(),
            parts,
        }],
        usage_metadata: usage,
    }
}

#[test]
fn replies_are_joined_by_line_and_counted() {
    let usage = UsageMetadata {
        prompt_token_count: 3,
        total_token_count: 10,
    };
    let parsed = parse_response(response(
        vec![
            part(Some(""), None, None),
            part(Some("a"), None, None),
            part(None, Some(("c1", "f")), Some("s1")),
            part(Some("b"), Some(("c2", "g")), None),
        ],
        Some(usage),
    ))
    .unwrap();
    assert_eq!(parsed.message.text_content(), "a\nb");
    assert_eq!(parsed.message.role, Role::Assistant);
    assert_eq!(parsed.message.token_count, Some(10));
    assert_eq!(parsed.message.context_tokens, Some(3));
    assert_eq!(parsed.message.tool_calls.len(), 2);
    assert_eq!(
        parsed.thought_signatures,
        vec![("c1".to_string(), "s1".to_string())]
    );
    assert_eq!(
        parsed.tool_names,
        vec![
            ("c1".to_string(), "f".to_string()),
            ("c2".to_string(), "g".to_string())
        ]
    );
}

#[test]
fn reply_without_candidates_is_an_error() {
    let empty = GenerateContentResponse {
        candidates: vec![],
        usage_metadata: None,
    };
    assert!(matches!(
        parse_response(empty),
        Err(ProviderError::EmptyResponse)
    ));
}

#[test]
fn signatures_and_names_come_back_in_the_next_request() {
    let mut p = GeminiProvider::new("k").with_max_tokens(12);
    let parsed = parse_response(response(
        vec![part(None, Some(("c1", "look")), Some("sig"))],
        None,
    ))
    .unwrap();
    p.save_meta(parsed.thought_signatures, parsed.tool_names);
    let history = vec![parsed.message, tool_msg("c1", "seen")];
    let tools = vec![ToolSpec {
        name: "look".to_string(),
        description: "d".to_string(),
        parameters_schema: parse_json(r#"{"title": "L", "type": "object"}"#).unwrap(),
    }];
    let body = p.build_request_body(&history, &tools);
    let expected = parse_json(
        r#"{"contents": [
              {"role": "model", "parts": [
                 {"functionCall": {"name": "look", "args": {}, "id": "c1"},
                  "thoughtSignature": "sig"}]},
              {"role": "user", "parts": [
                 {"functionResponse": {"name": "look", "response": {"result": "seen"}}}]}],
            "tools": [{"functionDeclarations": [
                 {"name": "look", "description": "d", "parameters": {"type": "object"}}]}],
            "generationConfig": {"maxOutputTokens": 12}}"#,
    )
    .unwrap();
    assert_eq!(sorted(&body), sorted(&expected));
}

#[test]
fn calls_without_a_signature_get_none() {
    let mut p = GeminiProvider::new("k");
    let parsed = parse_response(response(
        vec![
            part(None, Some(("c1", "look")), Some("sig")),
            part(None, Some(("c2", "look")), None),
        ],
        None,
    ))
    .unwrap();
    p.save_meta(parsed.thought_signatures, parsed.tool_names);
    let body = p.build_request_body(&vec![parsed.message], &vec![]);
    let expected = parse_json(
        r#"{"contents": [
              {"role": "model", "parts": [
                 {"functionCall": {"name": "look", "args": {}, "id": "c1"},
                  "thoughtSignature": "sig"},
                 {"functionCall": {"name": "look", "args": {}, "id": "c2"}}]}],
            "generationConfig": {"maxOutputTokens": 4096}}"#,
    )
    .unwrap();
    assert_eq!(sorted(&body), sorted(&expected));
}

fn sorted(j: &Json) -> Json {
    match j {
        Json::Array(items) => Json::Array(items.iter().map(sorted).collect()),
        Json::Object(members) => {
            let mut list: Vec<(String, Json)> = members
                .iter()
                .map(|(k, v)| (k.clone(), sorted(v)))
                .collect();
            list.sort_by(|a, b| a.0.cmp(&b.0));
            Json::Object(list)
        }
        other => other.clone(),
    }
}

#[test]
fn later_entries_of_a_map_win() {
    let mut m = names_of(&[("a", "1"), ("b", "2"), ("a", "3")]);
    assert_eq!(m.get("a").as_deref(), Some("3"));
    assert_eq!(m.get("b").as_deref(), Some("2"));
    assert_eq!(m.get("c"), None);
    m.insert_all(vec![
        ("c".to_string(), "4".to_string()),
        ("b".to_string(), "5".to_string()),
    ]);
    assert_eq!(m.get("b").as_deref(), Some("5"));
    assert_eq!(m.get("c").as_deref(), Some("4"));
}

#[test]
fn gemini_stream_reports_and_collects() {
    let mut stream = ContentStream::new();
    let reports = stream.builder.add_chunk(response(
        vec![part(Some("He"), None, None), part(Some("llo"), None, None)],
        None,
    ));
    assert_eq!(
        reports,
        vec![
            SinkEvent::Content("He".to_string()),
            SinkEvent::Content("llo".to_string())
        ]
    );
    let usage = UsageMetadata {
        prompt_token_count: 1,
        total_token_count: 2,
    };
    let reports = stream.builder.add_chunk(response(
        vec![part(Some("!"), Some(("c", "f")), Some("s"))],
        Some(usage),
    ));
    assert_eq!(reports.len(), 1);
    stream.builder.add_chunk(response(vec![], None));
    let end = stream.builder.finish();
    assert_eq!(end.message.text_content(), "Hello!");
    assert_eq!(end.message.token_count, Some(2));
    assert_eq!(end.calls, end.message.tool_calls);
    assert_eq!(end.calls.len(), 1);
    assert_eq!(
        end.thought_signatures,
        vec![("c".to_string(), "s".to_string())]
    );
    assert_eq!(end.tool_names, vec![("c".to_string(), "f".to_string())]);
}

#[test]
fn invalid_chunks_are_quoted() {
    match invalid_chunk("bad", "{") {
        ProviderError::Decode(DecodeError::Message(m)) => {
            assert_eq!(m, "invalid JSON in SSE data: bad. raw: {");
        }
        _ => panic!(),
    }
}
