use redrob::agent::wire::{
    chunk_events, decode_device_token_response, is_done_data, ChatChunkWire, ChoiceWire,
    DeltaWire, DeviceTokenWire, FunctionDeltaWire, ToolCallDeltaWire, UsageWire,
};
use redrob::{ChatAccumulator, ChatEvent, CompletionLimits, Error, FinishReason, SseParser};

fn limits() -> CompletionLimits {
    CompletionLimits {
        max_assistant_text_bytes: 4,
        max_tool_calls: 2,
        max_tool_argument_bytes: 6,
        max_total_tool_argument_bytes: 8,
        max_tool_call_id_bytes: 4,
        max_tool_name_bytes: 5,
    }
}

fn tool_delta(
    index: usize,
    id: Option<&str>,
    name: Option<&str>,
    arguments: Option<&str>,
) -> ChatEvent {
    ChatEvent::ToolCallDelta {
        index,
        id: id.map(str::to_owned),
        name: name.map(str::to_owned),
        arguments_delta: arguments.map(str::to_owned),
    }
}

#[test]
fn assistant_text_limit_accepts_exact_boundary_and_rejects_one_over() {
    let mut accumulator = ChatAccumulator::new(limits());
    accumulator
        .apply(ChatEvent::TextDelta("four".into()))
        .unwrap();
    assert!(matches!(
        accumulator.apply(ChatEvent::TextDelta("!".into())),
        Err(Error::CompletionLimitExceeded { .. })
    ));
    assert_eq!(accumulator.content, "four");
}

#[test]
fn fragmented_id_and_name_limits_are_incremental_and_exact() {
    let mut accumulator = ChatAccumulator::new(limits());
    accumulator
        .apply(tool_delta(7, Some("ab"), Some("sa"), Some("{}")))
        .unwrap();
    accumulator
        .apply(tool_delta(7, Some("cd"), Some("ve!"), None))
        .unwrap();
    assert_eq!(accumulator.calls[&7].id, "abcd");
    assert_eq!(accumulator.calls[&7].name, "save!");

    assert!(
        accumulator
            .apply(tool_delta(7, Some("x"), None, None))
            .is_err()
    );
    assert!(
        accumulator
            .apply(tool_delta(7, None, Some("x"), None))
            .is_err()
    );
    assert_eq!(accumulator.calls[&7].id, "abcd");
    assert_eq!(accumulator.calls[&7].name, "save!");
}

#[test]
fn per_call_argument_limit_accepts_exact_boundary_and_rejects_one_over() {
    let mut accumulator = ChatAccumulator::new(limits());
    accumulator
        .apply(tool_delta(0, Some("a"), Some("tool"), Some("{\"x\":")))
        .unwrap();
    accumulator
        .apply(tool_delta(0, None, None, Some("1")))
        .unwrap();
    assert_eq!(accumulator.calls[&0].arguments, "{\"x\":1");
    assert!(
        accumulator
            .apply(tool_delta(0, None, None, Some("}")))
            .is_err()
    );
    assert_eq!(accumulator.calls[&0].arguments, "{\"x\":1");
    assert_eq!(accumulator.total_argument_bytes, 6);
}

#[test]
fn aggregate_argument_limit_handles_interleaved_calls_transactionally() {
    let mut accumulator = ChatAccumulator::new(limits());
    accumulator
        .apply(tool_delta(10, Some("a"), Some("one"), Some("1234")))
        .unwrap();
    accumulator
        .apply(tool_delta(2, Some("b"), Some("two"), Some("5678")))
        .unwrap();
    assert_eq!(accumulator.total_argument_bytes, 8);
    assert!(
        accumulator
            .apply(tool_delta(10, None, None, Some("9")))
            .is_err()
    );
    assert_eq!(accumulator.calls[&10].arguments, "1234");
    assert_eq!(accumulator.total_argument_bytes, 8);
}

#[test]
fn call_count_allows_existing_sparse_index_at_boundary() {
    let mut accumulator = ChatAccumulator::new(limits());
    accumulator
        .apply(tool_delta(usize::MAX, Some("a"), Some("one"), Some("1")))
        .unwrap();
    accumulator
        .apply(tool_delta(4, Some("b"), Some("two"), Some("2")))
        .unwrap();
    accumulator
        .apply(tool_delta(usize::MAX, Some("c"), None, Some("3")))
        .unwrap();
    assert_eq!(accumulator.calls.len(), 2);
    assert_eq!(accumulator.calls[&usize::MAX].id, "ac");
    assert!(
        accumulator
            .apply(tool_delta(9, Some("c"), Some("three"), Some("4")))
            .is_err()
    );
    assert!(!accumulator.calls.contains_key(&9));
}

#[test]
fn rejected_multi_field_delta_never_partially_appends() {
    let mut accumulator = ChatAccumulator::new(limits());
    accumulator
        .apply(tool_delta(0, Some("a"), Some("save"), Some("12345")))
        .unwrap();
    assert!(
        accumulator
            .apply(tool_delta(0, Some("b"), None, Some("67")))
            .is_err()
    );
    let call = &accumulator.calls[&0];
    assert_eq!(call.id, "a");
    assert_eq!(call.name, "save");
    assert_eq!(call.arguments, "12345");
    assert_eq!(accumulator.total_argument_bytes, 5);

    assert!(
        accumulator
            .apply(tool_delta(1, Some("x"), Some("name!!"), Some("{}")))
            .is_err()
    );
    assert!(!accumulator.calls.contains_key(&1));
    assert_eq!(accumulator.total_argument_bytes, 5);
}

#[test]
fn parses_fragmented_crlf_multiline_and_comments() {
    let input = b": keepalive\r\ndata: {\"a\":\r\ndata: 1}\r\n\r\ndata: [DONE]\n\n";
    for split in 0..=input.len() {
        let mut parser = SseParser::default();
        let mut events = parser.feed(&input[..split]).unwrap();
        events.extend(parser.feed(&input[split..]).unwrap());
        events.extend(parser.finish().unwrap());
        assert_eq!(events, ["{\"a\":\n1}", "[DONE]"]);
    }
}

#[test]
fn preserves_fragmented_utf8() {
    let input = "data: café\n\n".as_bytes();
    let mut parser = SseParser::default();
    let mut events = Vec::new();
    for chunk in input.chunks(1) {
        events.extend(parser.feed(chunk).unwrap());
    }
    assert_eq!(events, ["café"]);
}

fn tool_fragment(index: usize, id: Option<&str>, name: &str, arguments: &str) -> ToolCallDeltaWire {
    ToolCallDeltaWire {
        index,
        id: id.map(str::to_owned),
        function: Some(FunctionDeltaWire {
            name: Some(name.to_owned()),
            arguments: Some(arguments.to_owned()),
        }),
    }
}

fn json(text: &str) -> serde_json::Value {
    serde_json::from_str(text).unwrap()
}

#[test]
fn accumulates_interleaved_tool_calls_and_parses_only_at_finish() {
    let chunks = [
        ChatChunkWire {
            choices: vec![ChoiceWire {
                delta: DeltaWire {
                    content: None,
                    tool_calls: vec![
                        tool_fragment(1, Some("call-b"), "lo", "{\"b\":"),
                        tool_fragment(0, Some("call-a"), "sa", "{\"a\":"),
                    ],
                },
                finish_reason: None,
            }],
            usage: None,
            error: None,
        },
        ChatChunkWire {
            choices: vec![ChoiceWire {
                delta: DeltaWire {
                    content: None,
                    tool_calls: vec![
                        tool_fragment(0, None, "ve", "1}"),
                        tool_fragment(1, None, "ok", "2}"),
                    ],
                },
                finish_reason: Some("tool_calls".to_owned()),
            }],
            usage: Some(UsageWire {
                prompt_tokens: 3,
                completion_tokens: 4,
                total_tokens: 7,
            }),
            error: None,
        },
    ];
    let mut queued = Vec::new();
    for chunk in chunks {
        queued.extend(chunk_events(chunk).unwrap());
    }
    assert!(is_done_data("[DONE]"));
    queued.push(ChatEvent::Done);
    let mut accumulator = ChatAccumulator::default();
    for event in queued {
        accumulator.apply(event).unwrap();
    }
    let response = accumulator.finish().unwrap();
    assert_eq!(response.tool_calls[0].name, "save");
    assert_eq!(response.tool_calls[0].arguments, json("{\"a\": 1}"));
    assert_eq!(response.tool_calls[1].name, "look");
    assert_eq!(response.tool_calls[1].arguments, json("{\"b\": 2}"));
    assert_eq!(response.finish_reason, Some(FinishReason::ToolCalls));
    assert_eq!(response.usage.unwrap().total_tokens, 7);
    assert_eq!(response.content, None);
}

#[test]
fn emits_text_usage_finish_and_done_events() {
    let chunk = ChatChunkWire {
        choices: vec![ChoiceWire {
            delta: DeltaWire {
                content: Some("hello".to_owned()),
                tool_calls: Vec::new(),
            },
            finish_reason: Some("stop".to_owned()),
        }],
        usage: Some(UsageWire {
            prompt_tokens: 0,
            completion_tokens: 0,
            total_tokens: 2,
        }),
        error: None,
    };
    let mut events = chunk_events(chunk).unwrap().into_iter();
    assert!(is_done_data("[DONE]"));
    assert!(matches!(events.next(), Some(ChatEvent::TextDelta(text)) if text == "hello"));
    assert_eq!(
        events.next(),
        Some(ChatEvent::FinishReason(FinishReason::Stop))
    );
    assert!(matches!(events.next(), Some(ChatEvent::Usage(_))));
    assert_eq!(events.next(), None);
}

#[test]
fn maps_authorization_errors_without_exposing_device_codes() {
    let cases = [
        ("authorization_pending", Error::AuthorizationPending),
        ("slow_down", Error::AuthorizationSlowDown),
        ("access_denied", Error::AccessDenied),
        ("expired_token", Error::ExpiredToken),
    ];
    for (code, expected) in cases {
        let reply = DeviceTokenWire {
            access_token: None,
            api_key: None,
            token: None,
            error: Some(code.to_owned()),
            error_description: None,
        };
        let error = match decode_device_token_response(400, reply) {
            Err(error) => error,
            Ok(_) => panic!("expected an error"),
        };
        assert_eq!(
            std::mem::discriminant(&error),
            std::mem::discriminant(&expected)
        );
    }
    let reply = DeviceTokenWire {
        access_token: Some("top-secret".to_owned()),
        api_key: None,
        token: None,
        error: None,
        error_description: None,
    };
    let key = decode_device_token_response(200, reply).ok().unwrap();
    assert_eq!(key.expose(), "top-secret");
}

#[test]
fn finish_reports_the_first_faulty_call_in_index_order() {
    let mut accumulator = ChatAccumulator::default();
    accumulator.apply(ChatEvent::TextDelta("hi".to_owned())).unwrap();
    accumulator.apply(tool_delta(7, Some("x"), Some("a"), Some("{oops"))).unwrap();
    accumulator.apply(tool_delta(3, Some("y"), None, Some("{}"))).unwrap();
    match accumulator.finish() {
        Err(Error::Protocol(message)) => {
            assert_eq!(message, "tool call at index 3 is missing its id or function name")
        }
        other => panic!("unexpected {:?}", other.map(|response| response.content)),
    }

    let mut accumulator = ChatAccumulator::default();
    accumulator.apply(tool_delta(12, Some("x"), Some("a"), Some("{oops"))).unwrap();
    match accumulator.finish() {
        Err(Error::Protocol(message)) => {
            assert_eq!(message, "tool call at index 12 has invalid JSON arguments")
        }
        other => panic!("unexpected {:?}", other.map(|response| response.content)),
    }

    let mut accumulator = ChatAccumulator::default();
    accumulator.apply(ChatEvent::TextDelta("done".to_owned())).unwrap();
    accumulator.apply(tool_delta(0, Some("c"), Some("look"), Some("  "))).unwrap();
    let response = accumulator.finish().unwrap();
    assert_eq!(response.content.as_deref(), Some("done"));
    assert_eq!(response.tool_calls.len(), 1);
    assert_eq!(response.tool_calls[0].id, "c");
    assert_eq!(response.tool_calls[0].arguments, json("{}"));
}

#[test]
fn oversized_events_are_refused_with_the_limit_in_the_message() {
    let mut parser = SseParser::new(20);
    assert_eq!(parser.feed(b"data: 123456789012\n\n").unwrap(), ["123456789012"]);
    match parser.feed(b"data: abcdefghij\ndata: klmnopqrst\n") {
        Err(Error::Sse(message)) => assert_eq!(message, "event exceeded 20 byte limit"),
        other => panic!("unexpected {other:?}"),
    }
    let mut parser = SseParser::new(1234);
    let long = format!("data: {}\n", "x".repeat(1234));
    match parser.feed(long.as_bytes()) {
        Err(Error::Sse(message)) => assert_eq!(message, "event exceeded 1234 byte limit"),
        other => panic!("unexpected {other:?}"),
    }
}
