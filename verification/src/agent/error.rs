//! Errors of the assistant-side protocol logic.

use vstd::prelude::*;

verus! {

/// Errors produced by the assistant client and agent session.
#[derive(Debug)]
#[non_exhaustive]
pub enum Error {
    InvalidConfiguration(String),
    MissingApiKey,
    HttpStatus { status: u16, body: String },
    Sse(String),
    Protocol(String),
    CompletionLimitExceeded { resource: &'static str, limit: usize },
    AuthorizationPending,
    AuthorizationSlowDown,
    AccessDenied,
    ExpiredToken,
    Cancelled,
    AuthorizationTimedOut,
    UnknownTool(String),
    ApprovalDenied(String),
    ToolRoundLimit(usize),
    Tool(String),
}

} // verus!
