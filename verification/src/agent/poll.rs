//! Decisions of device-token polling and of reading bounded error bodies.
//!
//! Waiting, clocks and the network stay with the caller; what to wait for,
//! when to stop and what to keep is decided here.

use std::time::Duration;

use vstd::prelude::*;
use vstd::utf8::{decode_utf8, valid_utf8};

use crate::agent::config::{
    duration_from_secs, duration_nanos, duration_shorter, is_shorter, max_duration_nanos, poll_options_valid, span_of_secs,
    validate_poll_options, ApiKey, DevicePollOptions,
};
use crate::agent::error::Error;
use crate::text::push_str;

verus! {

/// Longest time any device authorization is polled for: one hour.
pub open spec fn absolute_max_poll_wait() -> Duration {
    duration_from_secs(3600)
}

/// The sum of two spans, or the largest span when it overflows, as
/// `Duration::saturating_add` computes it.
pub uninterp spec fn duration_saturating_sum(a: Duration, b: Duration) -> Duration;

/// `Duration::saturating_add`: the sum of the spans, or `Duration::MAX`
/// when it would overflow; its value is named by `duration_saturating_sum`.
#[verifier::external_body]
fn saturating_sum(a: Duration, b: Duration) -> (r: Duration)
    ensures
        r == duration_saturating_sum(a, b),
        duration_nanos(r) == if duration_nanos(a) + duration_nanos(b) > max_duration_nanos() {
            max_duration_nanos()
        } else {
            duration_nanos(a) + duration_nanos(b)
        },
{
    a.saturating_add(b)
}

/// The shorter of two spans, the first one when neither is shorter.
pub open spec fn min_span(a: Duration, b: Duration) -> Duration {
    if duration_shorter(b, a) {
        b
    } else {
        a
    }
}

/// The longer of two spans, the second one when neither is shorter.
pub open spec fn max_span(a: Duration, b: Duration) -> Duration {
    if duration_shorter(b, a) {
        a
    } else {
        b
    }
}

fn min_of(a: Duration, b: Duration) -> (r: Duration)
    ensures
        r == min_span(a, b),
{
    if is_shorter(b, a) {
        b
    } else {
        a
    }
}

fn max_of(a: Duration, b: Duration) -> (r: Duration)
    ensures
        r == max_span(a, b),
{
    if is_shorter(b, a) {
        a
    } else {
        b
    }
}


/// An interval chosen at the start of polling lies within the configured
/// bounds, and an interval capped by the maximum never passes it.
pub proof fn law_poll_interval_within_bounds(interval: Duration, raised: Duration, options: DevicePollOptions)
    requires
        poll_options_valid(options),
    ensures
        !duration_shorter(min_span(max_span(interval, options.min_interval), options.max_interval), options.min_interval),
        !duration_shorter(options.max_interval, min_span(max_span(interval, options.min_interval), options.max_interval)),
        !duration_shorter(options.max_interval, min_span(raised, options.max_interval)),
{
}

/// How device-token polling proceeds after one token request.
pub enum PollStep {
    /// Polling is over with this outcome.
    Finished(Result<ApiKey, Error>),
    /// Wait for the interval, then ask again.
    Wait(Duration),
}

/// The state of polling for one device authorization: the current interval
/// between requests and the controls it was started with.
pub struct DevicePoll {
    interval: Duration,
    options: DevicePollOptions,
    deadline_is_expiration: bool,
    allowed_wait: Duration,
}

impl DevicePoll {
    pub closed spec fn interval_spec(&self) -> Duration {
        self.interval
    }

    pub closed spec fn options_spec(&self) -> DevicePollOptions {
        self.options
    }

    pub closed spec fn allowed_wait_spec(&self) -> Duration {
        self.allowed_wait
    }

    pub closed spec fn expires_at_deadline(&self) -> bool {
        self.deadline_is_expiration
    }

    /// Starts polling an authorization that lasts `expires_in` and asks for
    /// requests every `interval`. Polling lasts the shortest of the
    /// authorization's lifetime, the configured maximum wait and one hour;
    /// when that is the lifetime itself, running out means the authorization
    /// expired. The interval is kept within the configured bounds.
    pub fn start(interval: Duration, expires_in: Duration, options: DevicePollOptions) -> (r: Result<
        Self,
        Error,
    >)
        ensures
            r is Ok <==> poll_options_valid(options),
            r matches Err(e) ==> e is InvalidConfiguration,
            r matches Ok(poll) ==> {
                let wait = min_span(
                    min_span(expires_in, options.max_wait),
                    absolute_max_poll_wait(),
                );
                &&& poll.allowed_wait_spec() == wait
                &&& poll.expires_at_deadline() == (!duration_shorter(wait, expires_in)
                    && !duration_shorter(expires_in, wait))
                &&& poll.interval_spec() == min_span(
                    max_span(interval, options.min_interval),
                    options.max_interval,
                )
                &&& poll.options_spec() == options
                &&& duration_nanos(wait) <= 3600 * 1_000_000_000
            },
    {
        if let Err(e) = validate_poll_options(options) {
            return Err(e);
        }
        let wait = min_of(min_of(expires_in, options.max_wait), span_of_secs(3600));
        let deadline_is_expiration = !is_shorter(wait, expires_in) && !is_shorter(expires_in, wait);
        let interval = min_of(max_of(interval, options.min_interval), options.max_interval);
        Ok(DevicePoll { interval, options, deadline_is_expiration, allowed_wait: wait })
    }

    /// How long polling may last in all.
    pub fn allowed_wait(&self) -> (wait: Duration)
        ensures
            wait == self.allowed_wait_spec(),
    {
        self.allowed_wait
    }

    /// The error to report when polling runs out of time.
    pub fn deadline_error(&self) -> (e: Error)
        ensures
            self.expires_at_deadline() ==> e is ExpiredToken,
            !self.expires_at_deadline() ==> e is AuthorizationTimedOut,
    {
        crate::agent::config::deadline_error(self.deadline_is_expiration)
    }

    /// Takes the outcome of one token request. A credential or an error
    /// other than "pending" or "slow down" ends polling; "slow down"
    /// lengthens the interval by the configured increment, up to the maximum
    /// interval.
    pub fn on_token(&mut self, result: Result<ApiKey, Error>) -> (step: PollStep)
        ensures
            final(self).options_spec() == old(self).options_spec(),
            final(self).allowed_wait_spec() == old(self).allowed_wait_spec(),
            final(self).expires_at_deadline() == old(self).expires_at_deadline(),
            match result {
                Err(Error::AuthorizationPending) => final(self).interval_spec()
                    == old(self).interval_spec() && step == PollStep::Wait(
                    old(self).interval_spec(),
                ),
                Err(Error::AuthorizationSlowDown) => {
                    let next = min_span(
                        duration_saturating_sum(
                            old(self).interval_spec(),
                            old(self).options_spec().slow_down_increment,
                        ),
                        old(self).options_spec().max_interval,
                    );
                    final(self).interval_spec() == next && step == PollStep::Wait(next)
                },
                _ => step == PollStep::Finished(result) && final(self).interval_spec()
                    == old(self).interval_spec(),
            },
    {
        match result {
            Err(Error::AuthorizationPending) => PollStep::Wait(self.interval),
            Err(Error::AuthorizationSlowDown) => {
                self.interval = min_of(
                    saturating_sum(self.interval, self.options.slow_down_increment),
                    self.options.max_interval,
                );
                PollStep::Wait(self.interval)
            },
            other => PollStep::Finished(other),
        }
    }
}

/// Most bytes of an error response body that are kept.
pub const MAX_ERROR_BODY_BYTES: usize = 64 * 1024;

/// The text `String::from_utf8_lossy` makes of a byte string, replacing
/// every invalid sequence with U+FFFD.
pub uninterp spec fn utf8_lossy(bytes: Seq<u8>) -> Seq<char>;

/// `String::from_utf8_lossy`, which std documents as giving the text
/// itself for valid UTF-8.
#[verifier::external_body]
fn lossy_text(bytes: &[u8]) -> (text: String)
    ensures
        text@ == utf8_lossy(bytes@),
        valid_utf8(bytes@) ==> text@ == decode_utf8(bytes@),
{
    String::from_utf8_lossy(bytes).into_owned()
}

/// The start of an error response body, read chunk by chunk: at most
/// `MAX_ERROR_BODY_BYTES` are kept, and reading stops once the limit is
/// reached.
pub struct LimitedBody {
    bytes: Vec<u8>,
    truncated: bool,
}

impl LimitedBody {
    pub closed spec fn bytes_spec(&self) -> Seq<u8> {
        self.bytes@
    }

    pub closed spec fn is_truncated(&self) -> bool {
        self.truncated
    }

    pub closed spec fn well_formed(&self) -> bool {
        self.bytes@.len() <= MAX_ERROR_BODY_BYTES
    }

    pub fn new() -> (body: Self)
        ensures
            body.well_formed(),
            body.bytes_spec() == Seq::<u8>::empty(),
            !body.is_truncated(),
    {
        LimitedBody { bytes: Vec::new(), truncated: false }
    }

    /// Adds a received chunk; returns whether reading should stop because
    /// the limit is reached.
    pub fn push(&mut self, chunk: &[u8]) -> (stop: bool)
        requires
            old(self).well_formed(),
            !old(self).is_truncated(),
        ensures
            final(self).well_formed(),
            stop == final(self).is_truncated(),
            ({
                let room = MAX_ERROR_BODY_BYTES - old(self).bytes_spec().len();
                if chunk@.len() > room {
                    &&& final(self).bytes_spec() == old(self).bytes_spec() + chunk@.take(room)
                    &&& final(self).is_truncated()
                } else {
                    &&& final(self).bytes_spec() == old(self).bytes_spec() + chunk@
                    &&& final(self).is_truncated() == (final(self).bytes_spec().len()
                        == MAX_ERROR_BODY_BYTES)
                }
            }),
    {
        let room = MAX_ERROR_BODY_BYTES - self.bytes.len();
        let take = if chunk.len() > room {
            room
        } else {
            chunk.len()
        };
        let ghost start = self.bytes@;
        let mut i: usize = 0;
        while i < take
            invariant
                take <= chunk@.len(),
                take <= room,
                room == MAX_ERROR_BODY_BYTES - start.len(),
                i <= take,
                self.bytes@ == start + chunk@.take(i as int),
            decreases take - i,
        {
            self.bytes.push(chunk[i]);
            proof {
                assert(self.bytes@ =~= start + chunk@.take(i + 1));
            }
            i = i + 1;
        }
        proof {
            if take == chunk.len() {
                assert(chunk@.take(take as int) =~= chunk@);
            }
        }
        self.truncated = chunk.len() > room || self.bytes.len() == MAX_ERROR_BODY_BYTES;
        self.truncated
    }

    /// The kept bytes as text, invalid UTF-8 replaced, with `…[truncated]`
    /// appended when reading stopped at the limit.
    pub fn finish(self) -> (text: String)
        ensures
            text@ == utf8_lossy(self.bytes_spec()) + if self.is_truncated() {
                "…[truncated]"@
            } else {
                Seq::<char>::empty()
            },
    {
        let mut text = lossy_text(self.bytes.as_slice());
        if self.truncated {
            push_str(&mut text, "…[truncated]");
        }
        text
    }
}

} // verus!
