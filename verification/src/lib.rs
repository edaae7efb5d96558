//! Server-sent events: an incremental parser for `text/event-stream` bytes,
//! the text form of events, and the decisions of the components that bridge
//! events between protocols.

pub mod bridge;
pub mod client;
pub mod error;
pub mod event;
pub mod multicast;
pub mod parser;
pub mod roundtrip;
pub mod sinks;
pub mod sources;
pub mod text;

pub use bridge::{BridgeEvent, EventMetadata};
pub use error::{BridgeError, SinkError, SourceError, SseError};
pub use event::SseEvent;
pub use multicast::FanoutId;
pub use parser::SseParser;
pub use sinks::{GrpcSink, GrpcSinkConfig, WebSocketFormat, WebSocketSinkConfig};
pub use sources::{GrpcSource, GrpcSourceConfig, WebSocketConfig};
