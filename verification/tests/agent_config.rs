use std::time::{Duration, Instant};

use redrob::agent::config::{
    deadline_error, validate_poll_options, ApiKey, DevicePollOptions, Model, RedrobConfig,
    DEFAULT_BASE_URL,
};
use redrob::agent::poll::{DevicePoll, LimitedBody, PollStep, MAX_ERROR_BODY_BYTES};
use redrob::agent::wire::{
    chunk_events, decode_device_token_response, device_authorization, finish_reason,
    is_done_data, ChatChunkWire, ChoiceWire, DeltaWire, DeviceAuthorizationWire,
    DeviceTokenWire, FunctionDeltaWire, ProviderErrorWire, ToolCallDeltaWire, UsageWire,
};
use redrob::{ChatEvent, Error, FinishReason, Usage};

fn configuration_message(result: Result<ApiKey, Error>) -> String {
    match result {
        Err(Error::InvalidConfiguration(message)) => message,
        Err(other) => panic!("unexpected error {other:?}"),
        Ok(_) => panic!("expected a rejection"),
    }
}

#[test]
fn api_key_rejects_blank_values_including_unicode_space() {
    for value in ["", "   ", "\t\r\n", "\u{3000}\u{00A0}"] {
        assert_eq!(
            configuration_message(ApiKey::new(value.to_owned())),
            "API key must not be empty"
        );
    }
}

#[test]
fn api_key_rejects_line_breaks() {
    for value in ["abc\ndef", "abc\r", " key\r\nmore"] {
        assert_eq!(
            configuration_message(ApiKey::new(value.to_owned())),
            "API key must not contain line breaks"
        );
    }
}

#[test]
fn api_key_keeps_the_exact_text() {
    let key = ApiKey::new("  sk-test ".to_owned()).unwrap();
    assert_eq!(key.expose(), "  sk-test ");
}

#[test]
fn config_defaults_and_builders() {
    let key = ApiKey::new("secret".to_owned()).unwrap();
    let config = RedrobConfig::new(key);
    assert_eq!(config.base_url(), DEFAULT_BASE_URL);
    assert_eq!(config.base_url(), "https://console.redrob.ai/api/backend/v1");
    assert_eq!(config.request_timeout(), Duration::from_secs(60));
    assert!(config.has_api_key());
    assert_eq!(config.credential().unwrap().expose(), "secret");

    let changed = config
        .clone()
        .with_base_url("http://localhost:8080/v1".to_owned())
        .with_request_timeout(Duration::from_millis(1500));
    assert_eq!(changed.base_url(), "http://localhost:8080/v1");
    assert_eq!(changed.request_timeout(), Duration::from_millis(1500));
    assert!(changed.has_api_key());

    let anonymous = RedrobConfig::without_api_key();
    assert!(!anonymous.has_api_key());
    assert!(anonymous.credential().is_none());
    assert_eq!(anonymous.base_url(), DEFAULT_BASE_URL);
    assert_eq!(anonymous.request_timeout(), Duration::from_secs(60));
}

#[test]
fn model_keeps_every_field() {
    let model = Model::new(
        "auto".to_owned(),
        Some("Auto".to_owned()),
        None,
        Some("redrob".to_owned()),
        Some(7),
    );
    assert_eq!(model.id, "auto");
    assert_eq!(model.name.as_deref(), Some("Auto"));
    assert_eq!(model.description, None);
    assert_eq!(model.owned_by.as_deref(), Some("redrob"));
    assert_eq!(model.created, Some(7));
}

#[test]
fn default_poll_options_are_valid() {
    let options = DevicePollOptions::default();
    assert_eq!(options.max_wait, Duration::from_secs(600));
    assert_eq!(options.min_interval, Duration::from_secs(1));
    assert_eq!(options.max_interval, Duration::from_secs(30));
    assert_eq!(options.slow_down_increment, Duration::from_secs(5));
    assert!(validate_poll_options(options).is_ok());
}

#[test]
fn poll_options_reject_zero_spans_and_inverted_bounds() {
    let base = DevicePollOptions::default();
    let cases = [
        DevicePollOptions { max_wait: Duration::ZERO, ..base },
        DevicePollOptions { min_interval: Duration::ZERO, ..base },
        DevicePollOptions { slow_down_increment: Duration::ZERO, ..base },
        DevicePollOptions {
            min_interval: Duration::from_secs(31),
            max_interval: Duration::from_secs(30),
            ..base
        },
    ];
    for options in cases {
        match validate_poll_options(options) {
            Err(Error::InvalidConfiguration(message)) => assert_eq!(
                message,
                "device polling durations must be non-zero and max_interval >= min_interval"
            ),
            other => panic!("unexpected {other:?}"),
        }
    }
    let equal = DevicePollOptions {
        min_interval: Duration::from_secs(3),
        max_interval: Duration::from_secs(3),
        ..base
    };
    assert!(validate_poll_options(equal).is_ok());
}

#[test]
fn deadline_error_distinguishes_expiry_from_timeout() {
    assert!(matches!(deadline_error(true), Error::ExpiredToken));
    assert!(matches!(deadline_error(false), Error::AuthorizationTimedOut));
}

#[test]
fn finish_reasons_map_known_names_and_keep_others() {
    assert_eq!(finish_reason("stop".to_owned()), FinishReason::Stop);
    assert_eq!(finish_reason("tool_calls".to_owned()), FinishReason::ToolCalls);
    assert_eq!(finish_reason("length".to_owned()), FinishReason::Length);
    assert_eq!(finish_reason("content_filter".to_owned()), FinishReason::ContentFilter);
    assert_eq!(
        finish_reason("Stop".to_owned()),
        FinishReason::Other("Stop".to_owned())
    );
}

#[test]
fn done_marker_allows_surrounding_white_space_only() {
    assert!(is_done_data("[DONE]"));
    assert!(is_done_data("  [DONE]\r\n"));
    assert!(is_done_data("\u{2003}[DONE]\t"));
    assert!(!is_done_data("[DONE]x"));
    assert!(!is_done_data("[done]"));
    assert!(!is_done_data("[ DONE]"));
    assert!(!is_done_data(""));
}

fn choice(
    content: Option<&str>,
    tool_calls: Vec<ToolCallDeltaWire>,
    finish: Option<&str>,
) -> ChoiceWire {
    ChoiceWire {
        delta: DeltaWire {
            content: content.map(str::to_owned),
            tool_calls,
        },
        finish_reason: finish.map(str::to_owned),
    }
}

#[test]
fn chunk_events_follow_choice_order_then_usage() {
    let chunk = ChatChunkWire {
        choices: vec![
            choice(
                Some("Hi"),
                vec![
                    ToolCallDeltaWire {
                        index: 1,
                        id: Some("call".to_owned()),
                        function: Some(FunctionDeltaWire {
                            name: Some("paint".to_owned()),
                            arguments: Some("{\"x\"".to_owned()),
                        }),
                    },
                    ToolCallDeltaWire {
                        index: 0,
                        id: None,
                        function: None,
                    },
                ],
                None,
            ),
            choice(Some(""), Vec::new(), Some("tool_calls")),
        ],
        usage: Some(UsageWire {
            prompt_tokens: 3,
            completion_tokens: 4,
            total_tokens: 7,
        }),
        error: None,
    };
    let events = chunk_events(chunk).unwrap();
    assert_eq!(
        events,
        vec![
            ChatEvent::TextDelta("Hi".to_owned()),
            ChatEvent::ToolCallDelta {
                index: 1,
                id: Some("call".to_owned()),
                name: Some("paint".to_owned()),
                arguments_delta: Some("{\"x\"".to_owned()),
            },
            ChatEvent::ToolCallDelta {
                index: 0,
                id: None,
                name: None,
                arguments_delta: None,
            },
            ChatEvent::FinishReason(FinishReason::ToolCalls),
            ChatEvent::Usage(Usage {
                prompt_tokens: 3,
                completion_tokens: 4,
                total_tokens: 7,
            }),
        ]
    );
}

#[test]
fn chunk_error_is_reported_with_its_code() {
    let with_code = ChatChunkWire {
        choices: vec![choice(Some("ignored"), Vec::new(), None)],
        usage: None,
        error: Some(ProviderErrorWire {
            message: "too many requests".to_owned(),
            code: Some("rate_limited".to_owned()),
        }),
    };
    match chunk_events(with_code) {
        Err(Error::Protocol(detail)) => assert_eq!(detail, "rate_limited: too many requests"),
        other => panic!("unexpected {other:?}"),
    }
    let without_code = ChatChunkWire {
        choices: Vec::new(),
        usage: None,
        error: Some(ProviderErrorWire {
            message: "boom".to_owned(),
            code: None,
        }),
    };
    match chunk_events(without_code) {
        Err(Error::Protocol(detail)) => assert_eq!(detail, "boom"),
        other => panic!("unexpected {other:?}"),
    }
}

fn token_reply(token: Option<&str>, error: Option<&str>, description: Option<&str>) -> DeviceTokenWire {
    DeviceTokenWire {
        access_token: None,
        api_key: None,
        token: token.map(str::to_owned),
        error: error.map(str::to_owned),
        error_description: description.map(str::to_owned),
    }
}

#[test]
fn device_token_errors_map_to_typed_outcomes() {
    assert!(matches!(
        decode_device_token_response(400, token_reply(None, Some("authorization_pending"), None)),
        Err(Error::AuthorizationPending)
    ));
    assert!(matches!(
        decode_device_token_response(400, token_reply(None, Some("pending"), None)),
        Err(Error::AuthorizationPending)
    ));
    assert!(matches!(
        decode_device_token_response(400, token_reply(None, Some("slow_down"), None)),
        Err(Error::AuthorizationSlowDown)
    ));
    assert!(matches!(
        decode_device_token_response(403, token_reply(None, Some("access_denied"), None)),
        Err(Error::AccessDenied)
    ));
    assert!(matches!(
        decode_device_token_response(400, token_reply(Some("k"), Some("expired_token"), None)),
        Err(Error::ExpiredToken)
    ));
    match decode_device_token_response(418, token_reply(None, Some("teapot"), Some("short and stout"))) {
        Err(Error::HttpStatus { status, body }) => {
            assert_eq!(status, 418);
            assert_eq!(body, "short and stout");
        }
        other => panic!("unexpected {:?}", other.err()),
    }
    match decode_device_token_response(400, token_reply(None, Some("weird"), None)) {
        Err(Error::HttpStatus { status, body }) => {
            assert_eq!(status, 400);
            assert_eq!(body, "device authorization failed");
        }
        other => panic!("unexpected {:?}", other.err()),
    }
}

#[test]
fn device_token_success_needs_status_and_token() {
    match decode_device_token_response(500, token_reply(Some("key"), None, None)) {
        Err(Error::HttpStatus { status, body }) => {
            assert_eq!(status, 500);
            assert_eq!(body, "device token request failed");
        }
        other => panic!("unexpected {:?}", other.err()),
    }
    match decode_device_token_response(200, token_reply(None, None, None)) {
        Err(Error::Protocol(message)) => {
            assert_eq!(message, "device token response did not contain an API key")
        }
        other => panic!("unexpected {:?}", other.err()),
    }
    assert!(matches!(
        decode_device_token_response(200, token_reply(Some("a\nb"), None, None)),
        Err(Error::InvalidConfiguration(_))
    ));
    let key = decode_device_token_response(299, token_reply(Some("fresh"), None, None)).unwrap();
    assert_eq!(key.expose(), "fresh");
}

#[test]
fn device_token_prefers_access_token_then_api_key_then_token() {
    let reply = DeviceTokenWire {
        access_token: Some("first".to_owned()),
        api_key: Some("second".to_owned()),
        token: Some("third".to_owned()),
        error: None,
        error_description: None,
    };
    assert_eq!(
        decode_device_token_response(200, reply).unwrap().expose(),
        "first"
    );
    let reply = DeviceTokenWire {
        access_token: None,
        api_key: Some("second".to_owned()),
        token: Some("third".to_owned()),
        error: None,
        error_description: None,
    };
    let (token, error, description) = reply.into_parts();
    assert_eq!(token.as_deref(), Some("second"));
    assert!(error.is_none() && description.is_none());
}

fn authorization_reply(expires_in: u64, interval: Option<u64>) -> DeviceAuthorizationWire {
    DeviceAuthorizationWire {
        device_code: "device".to_owned(),
        user_code: "ABCD-EFGH".to_owned(),
        verification_uri: "https://example.test/device".to_owned(),
        verification_uri_complete: None,
        expires_in,
        interval,
    }
}

#[test]
fn device_authorization_requires_codes_and_lifetime() {
    let now = Instant::now();
    let authorization = device_authorization(authorization_reply(900, None), now).unwrap();
    assert_eq!(authorization.user_code, "ABCD-EFGH");
    assert_eq!(authorization.device_code, "device");
    assert_eq!(authorization.expires_in, Duration::from_secs(900));
    assert_eq!(authorization.interval, Duration::from_secs(5));
    assert_eq!(authorization.received_at, now);

    let faster = device_authorization(authorization_reply(900, Some(2)), now).unwrap();
    assert_eq!(faster.interval, Duration::from_secs(2));

    let mut missing_user_code = authorization_reply(900, None);
    missing_user_code.user_code.clear();
    for reply in [authorization_reply(0, None), missing_user_code] {
        match device_authorization(reply, now) {
            Err(Error::Protocol(message)) => assert_eq!(
                message,
                "device authorization response is missing required fields"
            ),
            other => panic!("unexpected {:?}", other.map(|a| a.user_code)),
        }
    }
}

fn wait_of(step: PollStep) -> Duration {
    match step {
        PollStep::Wait(interval) => interval,
        PollStep::Finished(outcome) => panic!("unexpected finish {:?}", outcome.err()),
    }
}

#[test]
fn polling_waits_are_bounded_by_lifetime_options_and_one_hour() {
    let options = DevicePollOptions::default();
    let poll = DevicePoll::start(Duration::from_secs(5), Duration::from_secs(900), options).unwrap();
    assert_eq!(poll.allowed_wait(), Duration::from_secs(600));
    assert!(matches!(poll.deadline_error(), Error::AuthorizationTimedOut));

    let poll = DevicePoll::start(Duration::from_secs(5), Duration::from_secs(300), options).unwrap();
    assert_eq!(poll.allowed_wait(), Duration::from_secs(300));
    assert!(matches!(poll.deadline_error(), Error::ExpiredToken));

    let long = DevicePollOptions {
        max_wait: Duration::from_secs(7200),
        ..options
    };
    let poll = DevicePoll::start(Duration::from_secs(5), Duration::from_secs(7200), long).unwrap();
    assert_eq!(poll.allowed_wait(), Duration::from_secs(3600));
    assert!(matches!(poll.deadline_error(), Error::AuthorizationTimedOut));

    let invalid = DevicePollOptions {
        min_interval: Duration::ZERO,
        ..options
    };
    assert!(matches!(
        DevicePoll::start(Duration::from_secs(5), Duration::from_secs(60), invalid),
        Err(Error::InvalidConfiguration(_))
    ));
}

#[test]
fn polling_interval_is_clamped_and_slows_down_up_to_the_maximum() {
    let options = DevicePollOptions::default();
    let mut poll = DevicePoll::start(Duration::ZERO, Duration::from_secs(900), options).unwrap();
    assert_eq!(wait_of(poll.on_token(Err(Error::AuthorizationPending))), Duration::from_secs(1));
    assert_eq!(wait_of(poll.on_token(Err(Error::AuthorizationSlowDown))), Duration::from_secs(6));
    for _ in 0..10 {
        poll.on_token(Err(Error::AuthorizationSlowDown));
    }
    assert_eq!(wait_of(poll.on_token(Err(Error::AuthorizationPending))), Duration::from_secs(30));

    let mut poll =
        DevicePoll::start(Duration::from_secs(100), Duration::from_secs(900), options).unwrap();
    assert_eq!(wait_of(poll.on_token(Err(Error::AuthorizationPending))), Duration::from_secs(30));
    match poll.on_token(Err(Error::AccessDenied)) {
        PollStep::Finished(Err(Error::AccessDenied)) => {}
        _ => panic!("expected a denied authorization"),
    }
    let key = ApiKey::new("granted".to_owned()).unwrap();
    match poll.on_token(Ok(key)) {
        PollStep::Finished(Ok(key)) => assert_eq!(key.expose(), "granted"),
        _ => panic!("expected the credential"),
    }
}

#[test]
fn error_bodies_are_kept_up_to_the_limit_and_marked_when_truncated() {
    let mut body = LimitedBody::new();
    assert!(!body.push(b"bad "));
    assert!(!body.push(&[0xFF, b'!']));
    assert_eq!(body.finish(), "bad \u{FFFD}!");

    let mut body = LimitedBody::new();
    let half = vec![b'a'; MAX_ERROR_BODY_BYTES / 2];
    assert!(!body.push(&half));
    assert!(body.push(&half));
    let text = body.finish();
    assert!(text.ends_with("…[truncated]"));
    assert_eq!(text.len(), MAX_ERROR_BODY_BYTES + "…[truncated]".len());

    let mut body = LimitedBody::new();
    let over = vec![b'b'; MAX_ERROR_BODY_BYTES + 10];
    assert!(body.push(&over));
    assert_eq!(body.finish().len(), MAX_ERROR_BODY_BYTES + "…[truncated]".len());
}

#[test]
fn cancellation_is_shared_between_clones_and_stays_set() {
    let token = redrob::CancellationToken::new();
    let other = token.clone();
    assert!(!token.is_cancelled());
    assert!(!other.is_cancelled());
    other.cancel();
    assert!(token.is_cancelled());
    token.cancel();
    assert!(token.is_cancelled());
    assert!(other.is_cancelled());
}
