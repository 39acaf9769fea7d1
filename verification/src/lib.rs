//! Verified core of an agentic raster graphics editor: streaming chat
//! accumulation and server-sent-event framing for the assistant side, and
//! bounded selection, raster, timeline, geometry, and file-format logic for
//! the editor side.

pub mod agent;
pub mod canvas;
pub mod text;

pub use agent::accumulator::{ChatAccumulator, PartialToolCall};
pub use agent::cancel::CancellationToken;
pub use agent::error::Error;
pub use agent::types::{ChatEvent, CompletionLimits, FinishReason, Usage};
pub use agent::sse::SseParser;
pub use agent::types::ToolOutput;

