use sweet::anthropic_stream::{
    BlockStart, MessageBuilder, MessageStep, MessageStream, ReplyBlock, StreamDelta, StreamEvent,
    Usage,
};
use sweet::chat_stream::{
    read_response, CallDelta, CallText, ChatMessage, ChatReply, ChatResponse, ChatStep, ChatStream,
    ChatUsage, ChunkDelta, FunctionDelta, StreamChunk,
};
use sweet::error::{DecodeError, ProviderError};
use sweet::json::{parse_json, Json};
use sweet::message::ThinkingBlock;
use sweet::provider::SinkEvent;

fn chunk(content: &str, reasoning: Option<&str>, calls: Vec<CallDelta>) -> StreamChunk {
    StreamChunk {
        usage: None,
        choices: vec![ChunkDelta {
            content: content.to_string(),
            reasoning_content: reasoning.map(str::to_string),
            tool_calls: calls,
        }],
    }
}

fn fragment(index: usize, id: Option<&str>, name: Option<&str>, args: Option<&str>) -> CallDelta {
    CallDelta {
        index,
        id: id.map(str::to_string),
        function: Some(FunctionDelta {
            name: name.map(str::to_string),
            arguments: args.map(str::to_string),
        }),
    }
}

#[test]
fn chat_stream_reads_chunks_until_done() {
    let mut s = ChatStream::new();
    assert!(matches!(s.next_chunk(), ChatStep::NeedMore));
    s.push_bytes(b"data: {\"a\":1}\n\ndata: [DO");
    assert!(matches!(s.next_chunk(), ChatStep::Chunk(t) if t == "{\"a\":1}"));
    assert!(matches!(s.next_chunk(), ChatStep::NeedMore));
    s.push_bytes(b"NE]\ndata: never\n\ndata: seen\n\n");
    assert!(matches!(s.next_chunk(), ChatStep::Done));
    assert!(matches!(s.next_chunk(), ChatStep::Done));
    let mut bad = ChatStream::new();
    bad.push_bytes(b"\xC3\x28\n\n");
    assert!(matches!(bad.next_chunk(), ChatStep::Failed(_)));
}

#[test]
fn chat_reports_add_up_to_the_reply() {
    let mut s = ChatStream::new();
    let mut reported = String::new();
    let mut thought = String::new();
    for c in [
        chunk("", Some("hm"), vec![]),
        chunk("Hel", Some(""), vec![]),
        chunk("lo", Some("m"), vec![]),
        chunk("", None, vec![]),
    ] {
        assert!(c.fits());
        for event in s.add_chunk(c) {
            match event {
                SinkEvent::Content(t) => reported.push_str(&t),
                SinkEvent::Thinking(t) => thought.push_str(&t),
                SinkEvent::Call(_) => panic!(),
            }
        }
    }
    let end = s.reply.finish();
    let reply = end.reply.unwrap();
    assert_eq!(reported, "Hello");
    assert_eq!(reply.text_content(), reported);
    assert_eq!(thought, "hmm");
    assert_eq!(
        reply.thinking_content,
        vec![ThinkingBlock {
            text: "hmm".to_string(),
            signature: None
        }]
    );
    assert_eq!(reply.token_count, None);
}

#[test]
fn empty_reasoning_field_still_counts() {
    let mut r = ChatReply::new();
    let events = r.add_chunk(chunk("", Some(""), vec![]));
    assert!(events.is_empty());
    let reply = r.finish().reply.unwrap();
    assert_eq!(reply.thinking_content.len(), 1);
    assert_eq!(reply.thinking_content[0].text, "");
    assert!(ChatReply::new().finish().reply.unwrap().thinking_content.is_empty());
}

#[test]
fn tool_call_fragments_are_put_together() {
    let mut r = ChatReply::new();
    r.add_chunk(chunk(
        "",
        None,
        vec![
            fragment(1, Some("old"), Some("se"), Some("{\"q\"")),
            fragment(0, Some("a"), Some("f"), None),
        ],
    ));
    r.add_chunk(chunk("", None, vec![fragment(1, Some("b"), Some("arch"), Some(":2}"))]));
    let mut with_usage = chunk("", None, vec![]);
    with_usage.usage = Some(ChatUsage {
        prompt_tokens: 4,
        total_tokens: 9,
    });
    r.add_chunk(with_usage);
    let end = r.finish();
    let reply = end.reply.unwrap();
    assert_eq!(end.calls, reply.tool_calls);
    assert_eq!(reply.tool_calls.len(), 2);
    assert_eq!(reply.tool_calls[0].id, "a");
    assert_eq!(reply.tool_calls[0].arguments, Json::Object(vec![]));
    assert_eq!(reply.tool_calls[1].id, "b");
    assert_eq!(reply.tool_calls[1].name, "search");
    assert_eq!(reply.tool_calls[1].arguments, parse_json("{\"q\":2}").unwrap());
    assert_eq!(reply.token_count, Some(9));
    assert_eq!(reply.context_tokens, Some(4));
}

#[test]
fn unreadable_arguments_fail_the_reply_after_the_calls_before() {
    let mut r = ChatReply::new();
    r.add_chunk(chunk(
        "",
        None,
        vec![
            fragment(0, Some("a"), Some("f"), Some("{}")),
            fragment(1, Some("b"), Some("g"), Some("{")),
            fragment(2, Some("c"), Some("h"), None),
        ],
    ));
    let end = r.finish();
    assert_eq!(end.calls.len(), 1);
    assert_eq!(end.calls[0].id, "a");
    assert!(matches!(
        end.reply,
        Err(ProviderError::Decode(DecodeError::Json(_)))
    ));
}

#[test]
fn chunk_with_the_largest_index_does_not_fit() {
    assert!(!chunk("", None, vec![fragment(usize::MAX, None, None, None)]).fits());
    assert!(chunk("", None, vec![fragment(3, None, None, None)]).fits());
}

#[test]
fn single_piece_replies_use_the_first_choice() {
    let message = ChatMessage {
        content: "hi".to_string(),
        reasoning_content: Some("r".to_string()),
        tool_calls: vec![CallText {
            id: "i".to_string(),
            name: "n".to_string(),
            arguments: String::new(),
        }],
    };
    let reply = read_response(ChatResponse {
        choices: vec![message],
        usage: Some(ChatUsage {
            prompt_tokens: 1,
            total_tokens: 2,
        }),
    })
    .unwrap();
    assert_eq!(reply.text_content(), "hi");
    assert_eq!(reply.thinking_content[0].text, "r");
    assert_eq!(reply.tool_calls[0].arguments, Json::Object(vec![]));
    assert_eq!(reply.token_count, Some(2));
    assert!(matches!(
        read_response(ChatResponse {
            choices: vec![],
            usage: None
        }),
        Err(ProviderError::EmptyResponse)
    ));
}

fn start(index: usize, content_block: BlockStart) -> StreamEvent {
    StreamEvent::ContentBlockStart {
        index,
        content_block,
    }
}

fn delta(index: usize, delta: StreamDelta) -> StreamEvent {
    StreamEvent::ContentBlockDelta { index, delta }
}

fn text(t: &str) -> StreamDelta {
    StreamDelta::TextDelta {
        text: t.to_string(),
    }
}

fn json(t: &str) -> StreamDelta {
    StreamDelta::InputJsonDelta {
        partial_json: t.to_string(),
    }
}

#[test]
fn message_stream_takes_the_last_line_of_each_event() {
    let mut s = MessageStream::new();
    s.push_bytes(b"event: x\ndata: 1\ndata: 2\n\ndata: 3\n\n");
    assert!(matches!(s.next_event(), MessageStep::Event(t) if t == "2"));
    s.builder.add_event(StreamEvent::MessageStop).unwrap();
    assert!(matches!(s.next_event(), MessageStep::Done));
    let mut bad = MessageStream::new();
    bad.push_bytes(b"\xFF\n\n");
    assert!(matches!(bad.next_event(), MessageStep::Failed(_)));
    assert!(matches!(bad.next_event(), MessageStep::NeedMore));
}

#[test]
fn message_blocks_grow_independently() {
    let mut b = MessageBuilder::new();
    let usage = Usage {
        input_tokens: Some(5),
        output_tokens: None,
    };
    b.add_event(StreamEvent::MessageStart { usage: Some(usage) })
        .unwrap();
    b.add_event(start(0, BlockStart::Thinking)).unwrap();
    b.add_event(start(1, BlockStart::Text)).unwrap();
    b.add_event(start(
        2,
        BlockStart::ServerToolUse {
            id: "t".to_string(),
            name: "f".to_string(),
        },
    ))
    .unwrap();
    b.add_event(start(3, BlockStart::RedactedThinking)).unwrap();
    assert_eq!(
        b.add_event(delta(1, text("a"))).unwrap(),
        Some(SinkEvent::Content("a".to_string()))
    );
    assert_eq!(
        b.add_event(delta(
            0,
            StreamDelta::ThinkingDelta {
                thinking: "hm".to_string()
            }
        ))
        .unwrap(),
        Some(SinkEvent::Thinking("hm".to_string()))
    );
    assert_eq!(b.add_event(delta(2, json("{\"x\""))).unwrap(), None);
    b.add_event(delta(1, text("b"))).unwrap();
    b.add_event(delta(2, json(":1}"))).unwrap();
    b.add_event(delta(
        0,
        StreamDelta::SignatureDelta {
            signature: "s".to_string(),
        },
    ))
    .unwrap();
    // A delta of another kind, and one for a block that does not exist, change nothing.
    assert_eq!(b.add_event(delta(1, json("zzz"))).unwrap(), None);
    assert_eq!(b.add_event(delta(9, text("zzz"))).unwrap(), None);
    assert_eq!(b.add_event(delta(3, text("zzz"))).unwrap(), None);
    assert_eq!(b.add_event(StreamEvent::Ping).unwrap(), None);
    match b.add_event(StreamEvent::ContentBlockStop { index: 2 }).unwrap() {
        Some(SinkEvent::Call(c)) => {
            assert_eq!(c.id, "t");
            assert_eq!(c.arguments, parse_json("{\"x\":1}").unwrap());
        }
        other => panic!("{other:?}"),
    }
    assert_eq!(
        b.add_event(StreamEvent::ContentBlockStop { index: 1 }).unwrap(),
        None
    );
    assert_eq!(
        b.add_event(StreamEvent::ContentBlockStop { index: 40 }).unwrap(),
        None
    );
    let usage = Usage {
        input_tokens: None,
        output_tokens: Some(6),
    };
    b.add_event(StreamEvent::MessageDelta { usage: Some(usage) })
        .unwrap();
    let reply = b.finish().unwrap();
    assert_eq!(
        reply.blocks,
        vec![
            ReplyBlock::Thinking {
                thinking: "hm".to_string(),
                signature: "s".to_string()
            },
            ReplyBlock::Text {
                text: "ab".to_string()
            },
            ReplyBlock::ToolUse {
                id: "t".to_string(),
                name: "f".to_string(),
                input: parse_json("{\"x\":1}").unwrap()
            },
        ]
    );
    assert_eq!(
        reply.usage,
        Some(Usage {
            input_tokens: Some(5),
            output_tokens: Some(6)
        })
    );
}

#[test]
fn usage_needs_both_counts() {
    let mut b = MessageBuilder::new();
    let usage = Usage {
        input_tokens: Some(5),
        output_tokens: Some(1),
    };
    b.add_event(StreamEvent::MessageStart { usage: Some(usage) })
        .unwrap();
    b.add_event(StreamEvent::MessageDelta { usage: None }).unwrap();
    assert_eq!(b.finish().unwrap().usage, None);
}

#[test]
fn gaps_between_blocks_are_empty_text() {
    let mut b = MessageBuilder::new();
    b.add_event(start(1, BlockStart::Unknown)).unwrap();
    let reply = b.finish().unwrap();
    assert_eq!(
        reply.blocks,
        vec![ReplyBlock::Text {
            text: String::new()
        }]
    );
}

#[test]
fn error_events_end_the_message() {
    let mut b = MessageBuilder::new();
    match b.add_event(StreamEvent::Error {
        error_type: "overloaded_error".to_string(),
        message: "Overloaded".to_string(),
    }) {
        Err(ProviderError::Http { status, body }) => {
            assert_eq!(status, 529);
            assert_eq!(
                body,
                "Anthropic streaming error (overloaded_error): Overloaded"
            );
        }
        other => panic!("{other:?}"),
    }
}

#[test]
fn unreadable_tool_input_is_an_error_at_its_end() {
    let mut b = MessageBuilder::new();
    b.add_event(start(
        0,
        BlockStart::ToolUse {
            id: "t".to_string(),
            name: "f".to_string(),
        },
    ))
    .unwrap();
    b.add_event(delta(0, json("{"))).unwrap();
    assert!(matches!(
        b.add_event(StreamEvent::ContentBlockStop { index: 0 }),
        Err(ProviderError::Decode(DecodeError::Json(_)))
    ));
    assert!(b.finish().is_err());
    assert!(!start(usize::MAX, BlockStart::Text).fits());
    assert!(start(0, BlockStart::Text).fits());
}
