//! Decoded service replies, and the events and outcomes read from them.
//!
//! The structures mirror the JSON the service sends; turning JSON text into
//! them is left to the caller, and everything decided from their contents is
//! here.

use std::time::Duration;
use std::time::Instant;

use vstd::prelude::*;
use vstd::string::StringExecFns;

use crate::agent::config::{duration_from_secs, has_line_break, span_of_secs, ApiKey};
use crate::agent::error::Error;
use crate::agent::types::{ChatEvent, FinishReason, Usage};
use crate::text::{chars_of, trim, trim_range};

verus! {

#[verifier::external_type_specification]
#[verifier::external_body]
pub struct ExInstant(Instant);

/// One streamed completion chunk.
pub struct ChatChunkWire {
    pub choices: Vec<ChoiceWire>,
    pub usage: Option<UsageWire>,
    pub error: Option<ProviderErrorWire>,
}

/// One choice of a chunk.
pub struct ChoiceWire {
    pub delta: DeltaWire,
    pub finish_reason: Option<String>,
}

/// What a choice adds to the response.
pub struct DeltaWire {
    pub content: Option<String>,
    pub tool_calls: Vec<ToolCallDeltaWire>,
}

/// A fragment of one tool call.
pub struct ToolCallDeltaWire {
    pub index: usize,
    pub id: Option<String>,
    pub function: Option<FunctionDeltaWire>,
}

/// The function part of a tool-call fragment.
pub struct FunctionDeltaWire {
    pub name: Option<String>,
    pub arguments: Option<String>,
}

/// Token accounting as sent.
pub struct UsageWire {
    pub prompt_tokens: u64,
    pub completion_tokens: u64,
    pub total_tokens: u64,
}

/// An error reported inside a chunk.
pub struct ProviderErrorWire {
    pub message: String,
    pub code: Option<String>,
}

/// Reply to a device-token request.
pub struct DeviceTokenWire {
    pub access_token: Option<String>,
    pub api_key: Option<String>,
    pub token: Option<String>,
    pub error: Option<String>,
    pub error_description: Option<String>,
}

/// Reply to a device-authorization request.
pub struct DeviceAuthorizationWire {
    pub device_code: String,
    pub user_code: String,
    pub verification_uri: String,
    pub verification_uri_complete: Option<String>,
    pub expires_in: u64,
    pub interval: Option<u64>,
}

/// The finish reason named by the service's text.
pub open spec fn finish_reason_of(value: String) -> FinishReason {
    if value@ == "stop"@ {
        FinishReason::Stop
    } else if value@ == "tool_calls"@ {
        FinishReason::ToolCalls
    } else if value@ == "length"@ {
        FinishReason::Length
    } else if value@ == "content_filter"@ {
        FinishReason::ContentFilter
    } else {
        FinishReason::Other(value)
    }
}

/// Reads a finish reason; text outside the known set is kept as it is.
pub fn finish_reason(value: String) -> (reason: FinishReason)
    ensures
        reason == finish_reason_of(value),
{
    if value == String::from_str("stop") {
        FinishReason::Stop
    } else if value == String::from_str("tool_calls") {
        FinishReason::ToolCalls
    } else if value == String::from_str("length") {
        FinishReason::Length
    } else if value == String::from_str("content_filter") {
        FinishReason::ContentFilter
    } else {
        FinishReason::Other(value)
    }
}

impl From<UsageWire> for Usage {
    fn from(usage: UsageWire) -> (r: Usage)
        ensures
            r == (Usage {
                prompt_tokens: usage.prompt_tokens,
                completion_tokens: usage.completion_tokens,
                total_tokens: usage.total_tokens,
            }),
    {
        Usage {
            prompt_tokens: usage.prompt_tokens,
            completion_tokens: usage.completion_tokens,
            total_tokens: usage.total_tokens,
        }
    }
}

impl vstd::std_specs::convert::FromSpecImpl<UsageWire> for Usage {
    open spec fn obeys_from_spec() -> bool {
        true
    }

    open spec fn from_spec(usage: UsageWire) -> Usage {
        Usage {
            prompt_tokens: usage.prompt_tokens,
            completion_tokens: usage.completion_tokens,
            total_tokens: usage.total_tokens,
        }
    }
}

/// The event announcing streamed text, if the text is not empty.
pub open spec fn text_events(content: Option<String>) -> Seq<ChatEvent> {
    match content {
        Some(text) => if text@.len() > 0 {
            seq![ChatEvent::TextDelta(text)]
        } else {
            seq![]
        },
        None => seq![],
    }
}

/// The event of one tool-call fragment.
pub open spec fn tool_call_event(call: ToolCallDeltaWire) -> ChatEvent {
    ChatEvent::ToolCallDelta {
        index: call.index,
        id: call.id,
        name: match call.function {
            Some(function) => function.name,
            None => None,
        },
        arguments_delta: match call.function {
            Some(function) => function.arguments,
            None => None,
        },
    }
}

/// The events of a sequence of tool-call fragments, in order.
pub open spec fn tool_call_events(calls: Seq<ToolCallDeltaWire>) -> Seq<ChatEvent>
    decreases calls.len(),
{
    if calls.len() == 0 {
        seq![]
    } else {
        tool_call_events(calls.drop_last()) + seq![tool_call_event(calls.last())]
    }
}

/// The event announcing a finish reason, if there is one.
pub open spec fn finish_events(reason: Option<String>) -> Seq<ChatEvent> {
    match reason {
        Some(value) => seq![ChatEvent::FinishReason(finish_reason_of(value))],
        None => seq![],
    }
}

/// The events of one choice: text, then tool calls, then the finish reason.
pub open spec fn choice_events(choice: ChoiceWire) -> Seq<ChatEvent> {
    text_events(choice.delta.content) + tool_call_events(choice.delta.tool_calls@)
        + finish_events(choice.finish_reason)
}

/// The events of a sequence of choices, in order.
pub open spec fn choices_events(choices: Seq<ChoiceWire>) -> Seq<ChatEvent>
    decreases choices.len(),
{
    if choices.len() == 0 {
        seq![]
    } else {
        choices_events(choices.drop_last()) + choice_events(choices.last())
    }
}

/// The event announcing token accounting, if the chunk carries it.
pub open spec fn usage_events(usage: Option<UsageWire>) -> Seq<ChatEvent> {
    match usage {
        Some(u) => seq![
            ChatEvent::Usage(
                Usage {
                    prompt_tokens: u.prompt_tokens,
                    completion_tokens: u.completion_tokens,
                    total_tokens: u.total_tokens,
                },
            ),
        ],
        None => seq![],
    }
}

/// How a provider error is reported: its code, a colon and a space, and its
/// message; or the message alone when there is no code.
pub open spec fn error_detail(error: ProviderErrorWire) -> Seq<char> {
    match error.code {
        Some(code) => code@ + ": "@ + error.message@,
        None => error.message@,
    }
}

/// Whether a `data:` payload is the end-of-stream marker `[DONE]`, white
/// space around it allowed.
pub fn is_done_data(data: &str) -> (r: bool)
    ensures
        r == (trim(data@) == "[DONE]"@),
{
    proof {
        reveal_strlit("[DONE]");
    }
    let chars = chars_of(data);
    let (start, end) = trim_range(&chars);
    let ghost t = chars@.subrange(start as int, end as int);
    if end - start != 6 {
        assert(t.len() != "[DONE]"@.len());
        return false;
    }
    let r = chars[start] == '[' && chars[start + 1] == 'D' && chars[start + 2] == 'O' && chars[
        start + 3] == 'N' && chars[start + 4] == 'E' && chars[start + 5] == ']';
    proof {
        if r {
            assert(t =~= "[DONE]"@);
        } else {
            assert(t != "[DONE]"@) by {
                if t == "[DONE]"@ {
                    assert(t[0] == '[' && t[1] == 'D' && t[2] == 'O' && t[3] == 'N' && t[4] == 'E'
                        && t[5] == ']');
                }
            }
        }
    }
    r
}

/// Text of a provider error, as `error_detail` describes it.
fn provider_error_detail(error: ProviderErrorWire) -> (detail: String)
    ensures
        detail@ == error_detail(error),
{
    match error.code {
        Some(code) => {
            let mut detail = code;
            detail.append(": ");
            detail.append(error.message.as_str());
            detail
        },
        None => error.message,
    }
}

/// Appends the events of one tool-call fragment sequence.
fn push_tool_call_events(events: &mut Vec<ChatEvent>, calls: Vec<ToolCallDeltaWire>)
    ensures
        final(events)@ == old(events)@ + tool_call_events(calls@),
{
    let ghost start = events@;
    let ghost all = calls@;
    let mut rest = calls;
    let mut taken: usize = 0;
    let total = rest.len();
    assert(total == all.len());
    while rest.len() > 0
        invariant
            taken + rest@.len() == all.len(),
            all.len() <= usize::MAX,
            rest@ == all.skip(taken as int),
            events@ == start + tool_call_events(all.take(taken as int)),
        decreases rest@.len(),
    {
        let call = rest.remove(0);
        proof {
            assert(call == all[taken as int]);
            assert(all.take(taken + 1).drop_last() =~= all.take(taken as int));
            assert(rest@ =~= all.skip(taken + 1));
        }
        let (name, arguments_delta) = match call.function {
            Some(function) => (function.name, function.arguments),
            None => (None, None),
        };
        events.push(
            ChatEvent::ToolCallDelta { index: call.index, id: call.id, name, arguments_delta },
        );
        taken = taken + 1;
        proof {
            assert(events@ =~= start + tool_call_events(all.take(taken as int)));
        }
    }
    proof {
        assert(all.take(all.len() as int) =~= all);
    }
}

/// The events of one streamed chunk, or the provider error it reports.
pub fn chunk_events(chunk: ChatChunkWire) -> (r: Result<Vec<ChatEvent>, Error>)
    ensures
        chunk.error matches Some(error) ==> (r matches Err(Error::Protocol(detail)) && detail@
            == error_detail(error)),
        chunk.error is None ==> (r matches Ok(events) && events@ == choices_events(
            chunk.choices@,
        ) + usage_events(chunk.usage)),
{
    let ChatChunkWire { choices, usage, error } = chunk;
    if let Some(error) = error {
        return Err(Error::Protocol(provider_error_detail(error)));
    }
    let ghost all = choices@;
    let mut events: Vec<ChatEvent> = Vec::new();
    let mut rest = choices;
    let mut taken: usize = 0;
    let total = rest.len();
    assert(total == all.len());
    while rest.len() > 0
        invariant
            taken + rest@.len() == all.len(),
            all.len() <= usize::MAX,
            rest@ == all.skip(taken as int),
            events@ == choices_events(all.take(taken as int)),
        decreases rest@.len(),
    {
        let choice = rest.remove(0);
        let ghost before = events@;
        proof {
            assert(choice == all[taken as int]);
            assert(all.take(taken + 1).drop_last() =~= all.take(taken as int));
            assert(rest@ =~= all.skip(taken + 1));
        }
        let ChoiceWire { delta, finish_reason: reason } = choice;
        let DeltaWire { content, tool_calls } = delta;
        if let Some(text) = content {
            if !text.as_str().is_empty() {
                events.push(ChatEvent::TextDelta(text));
            }
        }
        push_tool_call_events(&mut events, tool_calls);
        if let Some(value) = reason {
            events.push(ChatEvent::FinishReason(finish_reason(value)));
        }
        taken = taken + 1;
        proof {
            assert(events@ =~= before + choice_events(choice));
            assert(events@ =~= choices_events(all.take(taken as int)));
        }
    }
    proof {
        assert(all.take(all.len() as int) =~= all);
    }
    if let Some(u) = usage {
        events.push(ChatEvent::Usage(Usage::from(u)));
    }
    Ok(events)
}

/// The credential a device-token reply carries, taken from the first of
/// `access_token`, `api_key` and `token` that is present.
pub open spec fn first_token(response: DeviceTokenWire) -> Option<String> {
    match response.access_token {
        Some(t) => Some(t),
        None => match response.api_key {
            Some(t) => Some(t),
            None => response.token,
        },
    }
}

impl DeviceTokenWire {
    /// The credential, the OAuth error code and the error description.
    pub fn into_parts(self) -> (parts: (Option<String>, Option<String>, Option<String>))
        ensures
            parts.0 == first_token(self),
            parts.1 == self.error,
            parts.2 == self.error_description,
    {
        let DeviceTokenWire { access_token, api_key, token, error, error_description } = self;
        let chosen = match access_token {
            Some(t) => Some(t),
            None => match api_key {
                Some(t) => Some(t),
                None => token,
            },
        };
        (chosen, error, error_description)
    }
}

/// Whether an HTTP status is in the success class, 200 to 299.
pub open spec fn status_is_success(status: u16) -> bool {
    200 <= status <= 299
}

/// Reads the reply to a device-token request. An OAuth error code decides
/// first; then an unsuccessful status; then the credential must be present
/// and acceptable.
pub fn decode_device_token_response(status: u16, response: DeviceTokenWire) -> (r: Result<
    ApiKey,
    Error,
>)
    ensures
        response.error matches Some(code) ==> {
            if code@ == "authorization_pending"@ || code@ == "pending"@ {
                r matches Err(Error::AuthorizationPending)
            } else if code@ == "slow_down"@ {
                r matches Err(Error::AuthorizationSlowDown)
            } else if code@ == "access_denied"@ {
                r matches Err(Error::AccessDenied)
            } else if code@ == "expired_token"@ {
                r matches Err(Error::ExpiredToken)
            } else {
                r matches Err(Error::HttpStatus { status: s, body }) && s == status && body@
                    == match response.error_description {
                    Some(d) => d@,
                    None => "device authorization failed"@,
                }
            }
        },
        response.error is None && !status_is_success(status) ==> (r matches Err(
            Error::HttpStatus { status: s, body },
        ) && s == status && body@ == "device token request failed"@),
        response.error is None && status_is_success(status) && first_token(response) is None
            ==> (r matches Err(Error::Protocol(m)) && m@
            == "device token response did not contain an API key"@),
        response.error is None && status_is_success(status) ==> (first_token(response) matches Some(
            t,
        ) ==> {
            &&& trim(t@).len() == 0 ==> r is Err
            &&& trim(t@).len() != 0 && has_line_break(t@) ==> r is Err
            &&& trim(t@).len() != 0 && !has_line_break(t@) ==> (r matches Ok(key) && key@
                == t@)
        }),
{
    let (token, error, description) = response.into_parts();
    if let Some(code) = error {
        if code == String::from_str("authorization_pending") || code == String::from_str(
            "pending",
        ) {
            return Err(Error::AuthorizationPending);
        } else if code == String::from_str("slow_down") {
            return Err(Error::AuthorizationSlowDown);
        } else if code == String::from_str("access_denied") {
            return Err(Error::AccessDenied);
        } else if code == String::from_str("expired_token") {
            return Err(Error::ExpiredToken);
        } else {
            let body = match description {
                Some(d) => d,
                None => String::from_str("device authorization failed"),
            };
            return Err(Error::HttpStatus { status, body });
        }
    }
    if !(200 <= status && status <= 299) {
        return Err(
            Error::HttpStatus { status, body: String::from_str("device token request failed") },
        );
    }
    match token {
        Some(t) => ApiKey::new(t),
        None => Err(
            Error::Protocol(String::from_str("device token response did not contain an API key")),
        ),
    }
}

/// Device authorization details: what to show the user, how long the
/// authorization lasts, how often to poll, and the device code to poll with.
pub struct DeviceAuthorization {
    pub user_code: String,
    pub verification_uri: String,
    pub verification_uri_complete: Option<String>,
    pub expires_in: Duration,
    pub interval: Duration,
    pub device_code: String,
    pub received_at: Instant,
}

/// A device-authorization reply is usable when its codes and verification
/// address are present and its lifetime is not zero.
pub open spec fn authorization_complete(wire: DeviceAuthorizationWire) -> bool {
    &&& wire.device_code@.len() > 0
    &&& wire.user_code@.len() > 0
    &&& wire.verification_uri@.len() > 0
    &&& wire.expires_in != 0
}

/// Reads a device-authorization reply received at `received_at`. A missing
/// polling interval means five seconds.
pub fn device_authorization(wire: DeviceAuthorizationWire, received_at: Instant) -> (r: Result<
    DeviceAuthorization,
    Error,
>)
    ensures
        !authorization_complete(wire) ==> (r matches Err(Error::Protocol(m)) && m@
            == "device authorization response is missing required fields"@),
        authorization_complete(wire) ==> (r matches Ok(a) && {
            &&& a.user_code == wire.user_code
            &&& a.verification_uri == wire.verification_uri
            &&& a.verification_uri_complete == wire.verification_uri_complete
            &&& a.expires_in == duration_from_secs(wire.expires_in)
            &&& a.interval == duration_from_secs(
                match wire.interval {
                    Some(s) => s,
                    None => 5,
                },
            )
            &&& a.device_code == wire.device_code
            &&& a.received_at == received_at
        }),
{
    let DeviceAuthorizationWire {
        device_code,
        user_code,
        verification_uri,
        verification_uri_complete,
        expires_in,
        interval,
    } = wire;
    if device_code.as_str().is_empty() || user_code.as_str().is_empty()
        || verification_uri.as_str().is_empty()
        || expires_in == 0 {
        return Err(
            Error::Protocol(
                String::from_str("device authorization response is missing required fields"),
            ),
        );
    }
    let interval_secs = match interval {
        Some(s) => s,
        None => 5,
    };
    Ok(
        DeviceAuthorization {
            user_code,
            verification_uri,
            verification_uri_complete,
            expires_in: span_of_secs(expires_in),
            interval: span_of_secs(interval_secs),
            device_code,
            received_at,
        },
    )
}

} // verus!
