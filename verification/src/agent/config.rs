//! Credentials, transport configuration and device-polling controls.

use std::time::Duration;

use vstd::prelude::*;
use vstd::string::StringExecFns;

use crate::agent::error::Error;
use crate::text::{chars_of, trim, trim_range};

verus! {

/// Service endpoint used when no other base URL is configured.
pub const DEFAULT_BASE_URL: &'static str = "https://console.redrob.ai/api/backend/v1";

/// The span of `secs` whole seconds, as `Duration::from_secs` builds it.
pub uninterp spec fn duration_from_secs(secs: u64) -> Duration;

/// The whole length of a span in nanoseconds, as `Duration::as_nanos`
/// reports it.
pub uninterp spec fn duration_nanos(span: Duration) -> u128;

/// Nanoseconds in the longest span, `Duration::MAX`: `u64::MAX` seconds
/// and 999,999,999 nanoseconds.
pub open spec fn max_duration_nanos() -> int {
    u64::MAX as int * 1_000_000_000 + 999_999_999
}

/// Whether a span is empty.
pub open spec fn duration_is_zero(span: Duration) -> bool {
    duration_nanos(span) == 0
}

/// Whether the first span is strictly shorter than the second.
pub open spec fn duration_shorter(a: Duration, b: Duration) -> bool {
    duration_nanos(a) < duration_nanos(b)
}

/// `Duration::from_secs`: a span of `secs` whole seconds; its value is
/// named by `duration_from_secs`.
#[verifier::external_body]
pub(crate) fn span_of_secs(secs: u64) -> (span: Duration)
    ensures
        span == duration_from_secs(secs),
        duration_nanos(span) == secs * 1_000_000_000,
{
    Duration::from_secs(secs)
}

/// `Duration::is_zero`: whether the span has no length.
#[verifier::external_body]
fn is_zero_span(span: Duration) -> (r: bool)
    ensures
        r == (duration_nanos(span) == 0),
{
    span.is_zero()
}

/// `<` on `Duration`, which orders spans by length.
#[verifier::external_body]
pub(crate) fn is_shorter(a: Duration, b: Duration) -> (r: bool)
    ensures
        r == (duration_nanos(a) < duration_nanos(b)),
{
    a < b
}

/// Whether the text holds a carriage return or a line feed.
pub open spec fn has_line_break(s: Seq<char>) -> bool {
    s.contains('\r') || s.contains('\n')
}

/// API credential. It has no `Debug` output, so it is never printed.
#[derive(Clone, PartialEq, Eq)]
pub struct ApiKey {
    value: String,
}

impl View for ApiKey {
    type V = Seq<char>;

    closed spec fn view(&self) -> Seq<char> {
        self.value@
    }
}

impl ApiKey {
    /// Accepts a credential that is not blank and holds no line break.
    pub fn new(value: String) -> (r: Result<Self, Error>)
        ensures
            trim(value@).len() == 0 ==> (r matches Err(Error::InvalidConfiguration(m)) && m@
                == "API key must not be empty"@),
            trim(value@).len() != 0 && has_line_break(value@) ==> (r matches Err(
                Error::InvalidConfiguration(m),
            ) && m@ == "API key must not contain line breaks"@),
            trim(value@).len() != 0 && !has_line_break(value@) ==> (r matches Ok(key) && key@
                == value@),
    {
        let chars = chars_of(value.as_str());
        let (start, end) = trim_range(&chars);
        if start == end {
            return Err(Error::InvalidConfiguration(String::from_str("API key must not be empty")));
        }
        let mut i: usize = 0;
        while i < chars.len()
            invariant
                chars@ == value@,
                trim(value@).len() != 0,
                i <= chars@.len(),
                forall|k: int| 0 <= k < i ==> chars@[k] != '\r' && chars@[k] != '\n',
            decreases chars@.len() - i,
        {
            if chars[i] == '\r' || chars[i] == '\n' {
                proof {
                    assert(value@[i as int] == chars@[i as int]);
                }
                return Err(
                    Error::InvalidConfiguration(
                        String::from_str("API key must not contain line breaks"),
                    ),
                );
            }
            i = i + 1;
        }
        Ok(ApiKey { value })
    }

    /// The credential text.
    pub fn expose(&self) -> (text: &str)
        ensures
            text@ == self@,
    {
        self.value.as_str()
    }
}

/// Transport configuration: where the service lives, the credential sent to
/// it, and how long one request may take.
pub struct RedrobConfig {
    base_url: String,
    api_key: Option<ApiKey>,
    request_timeout: Duration,
}

impl RedrobConfig {
    /// Configuration for the default endpoint, with a credential and a
    /// one-minute request timeout.
    pub fn new(api_key: ApiKey) -> (config: Self)
        ensures
            config.base_url_text() == DEFAULT_BASE_URL@,
            config.api_key() == Some(api_key),
            config.timeout() == duration_from_secs(60),
    {
        RedrobConfig {
            base_url: String::from_str(DEFAULT_BASE_URL),
            api_key: Some(api_key),
            request_timeout: span_of_secs(60),
        }
    }

    /// Configuration suitable for starting device authorization: the
    /// default endpoint and timeout, and no credential.
    pub fn without_api_key() -> (config: Self)
        ensures
            config.base_url_text() == DEFAULT_BASE_URL@,
            config.api_key() == None::<ApiKey>,
            config.timeout() == duration_from_secs(60),
    {
        RedrobConfig {
            base_url: String::from_str(DEFAULT_BASE_URL),
            api_key: None,
            request_timeout: span_of_secs(60),
        }
    }

    /// The same configuration with another base URL.
    pub fn with_base_url(self, base_url: String) -> (config: Self)
        ensures
            config.base_url_text() == base_url@,
            config.api_key() == self.api_key(),
            config.timeout() == self.timeout(),
    {
        RedrobConfig { base_url, ..self }
    }

    /// The same configuration with another request timeout.
    pub fn with_request_timeout(self, timeout: Duration) -> (config: Self)
        ensures
            config.base_url_text() == self.base_url_text(),
            config.api_key() == self.api_key(),
            config.timeout() == timeout,
    {
        RedrobConfig { request_timeout: timeout, ..self }
    }

    /// The configured base URL, as given.
    pub fn base_url(&self) -> (url: &str)
        ensures
            url@ == self.base_url_text(),
    {
        self.base_url.as_str()
    }

    /// The configured request timeout.
    pub fn request_timeout(&self) -> (timeout: Duration)
        ensures
            timeout == self.timeout(),
    {
        self.request_timeout
    }

    /// Whether a credential is configured.
    pub fn has_api_key(&self) -> (r: bool)
        ensures
            r == self.api_key() is Some,
    {
        self.api_key.is_some()
    }

    /// The configured credential.
    pub closed spec fn api_key(&self) -> Option<ApiKey> {
        self.api_key
    }

    /// The configured base URL.
    pub closed spec fn base_url_text(&self) -> Seq<char> {
        self.base_url@
    }

    /// The configured request timeout.
    pub closed spec fn timeout(&self) -> Duration {
        self.request_timeout
    }

    /// The configured credential, for building authenticated requests.
    pub fn credential(&self) -> (key: Option<&ApiKey>)
        ensures
            key is Some <==> self.api_key() is Some,
            key matches Some(k) ==> self.api_key() == Some(*k),
    {
        self.api_key.as_ref()
    }
}

impl Clone for RedrobConfig {
    fn clone(&self) -> (config: Self)
        ensures
            config.base_url_text() == self.base_url_text(),
            config.timeout() == self.timeout(),
    {
        RedrobConfig {
            base_url: self.base_url.clone(),
            api_key: self.api_key.clone(),
            request_timeout: self.request_timeout,
        }
    }
}

/// Model metadata listed by the service.
#[derive(Clone, Debug, PartialEq, Eq)]
#[non_exhaustive]
pub struct Model {
    pub id: String,
    pub name: Option<String>,
    pub description: Option<String>,
    pub owned_by: Option<String>,
    pub created: Option<u64>,
}

impl Model {
    /// Metadata with every field given.
    pub fn new(
        id: String,
        name: Option<String>,
        description: Option<String>,
        owned_by: Option<String>,
        created: Option<u64>,
    ) -> (model: Self)
        ensures
            model.id == id,
            model.name == name,
            model.description == description,
            model.owned_by == owned_by,
            model.created == created,
    {
        Model { id, name, description, owned_by, created }
    }
}

/// Bounded device-token polling controls.
#[derive(Clone, Copy, Debug)]
pub struct DevicePollOptions {
    pub max_wait: Duration,
    pub min_interval: Duration,
    pub max_interval: Duration,
    pub slow_down_increment: Duration,
}

impl Default for DevicePollOptions {
    fn default() -> (options: Self)
        ensures
            options.max_wait == duration_from_secs(600),
            options.min_interval == duration_from_secs(1),
            options.max_interval == duration_from_secs(30),
            options.slow_down_increment == duration_from_secs(5),
    {
        DevicePollOptions {
            max_wait: span_of_secs(600),
            min_interval: span_of_secs(1),
            max_interval: span_of_secs(30),
            slow_down_increment: span_of_secs(5),
        }
    }
}

/// Polling controls are usable when every span is non-zero and the interval
/// bounds are ordered.
pub open spec fn poll_options_valid(options: DevicePollOptions) -> bool {
    &&& !duration_is_zero(options.max_wait)
    &&& !duration_is_zero(options.min_interval)
    &&& !duration_shorter(options.max_interval, options.min_interval)
    &&& !duration_is_zero(options.slow_down_increment)
}

/// Rejects polling controls that could never make progress.
pub fn validate_poll_options(options: DevicePollOptions) -> (r: Result<(), Error>)
    ensures
        r is Ok <==> poll_options_valid(options),
        r matches Err(e) ==> (e matches Error::InvalidConfiguration(m) && m@
            == "device polling durations must be non-zero and max_interval >= min_interval"@),
{
    if is_zero_span(options.max_wait) || is_zero_span(options.min_interval) || is_shorter(
        options.max_interval,
        options.min_interval,
    ) || is_zero_span(options.slow_down_increment) {
        return Err(
            Error::InvalidConfiguration(
                String::from_str(
                    "device polling durations must be non-zero and max_interval >= min_interval",
                ),
            ),
        );
    }
    Ok(())
}

/// The error reported when the polling deadline passes: the authorization
/// expired when the deadline was its expiry, else polling timed out.
pub fn deadline_error(is_expiration: bool) -> (e: Error)
    ensures
        is_expiration ==> e is ExpiredToken,
        !is_expiration ==> e is AuthorizationTimedOut,
{
    if is_expiration {
        Error::ExpiredToken
    } else {
        Error::AuthorizationTimedOut
    }
}

} // verus!
