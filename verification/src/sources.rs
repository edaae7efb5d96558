//! Configuration of the event sources, and the decisions they take between
//! network operations.

use vstd::prelude::*;
use vstd::string::*;

use crate::bridge::event::{
    bytes_from_string, bytes_from_vec, BridgeEvent, BridgeEventView, EventMetadata, MetadataView,
};
use crate::error::SourceError;

verus! {

// ---------------------------------------------------------------------------
// gRPC source
// ---------------------------------------------------------------------------

/// Configuration of a gRPC source.
#[derive(Debug, Clone)]
pub struct GrpcSourceConfig {
    /// The server address (such as "http://localhost:50051").
    pub address: String,
    /// The event types to subscribe to; empty for all.
    pub event_types: Vec<String>,
    /// The event id to resume after.
    pub last_event_id: Option<String>,
}

impl GrpcSourceConfig {
    /// A configuration for `address` that subscribes to all event types from
    /// the start.
    pub fn new(address: &str) -> (c: Self)
        ensures
            c.address@ == address@,
            c.event_types@.len() == 0,
            c.last_event_id is None,
    {
        GrpcSourceConfig { address: String::from_str(address), event_types: Vec::new(), last_event_id: None }
    }

    /// Sets the event types to subscribe to.
    pub fn event_types(self, types: Vec<String>) -> (c: Self)
        ensures
            c.address == self.address,
            c.event_types == types,
            c.last_event_id == self.last_event_id,
    {
        let mut c = self;
        c.event_types = types;
        c
    }

    /// Sets the event id to resume after.
    pub fn last_event_id(self, id: &str) -> (c: Self)
        ensures
            c.address == self.address,
            c.event_types == self.event_types,
            c.last_event_id matches Some(s) && s@ == id@,
    {
        let mut c = self;
        c.last_event_id = Some(String::from_str(id));
        c
    }
}

/// A gRPC source that only holds its configuration: its event stream reports
/// that a stream from generated client code is needed.
pub struct GrpcSource {
    config: GrpcSourceConfig,
}

/// The one item of a [`GrpcSource`]'s stream.
pub open spec fn grpc_source_unsupported() -> Seq<char> {
    "GrpcSource 是一个占位实现。请使用 GrpcStreamSource::from_streaming() 并提供您自己生成的 gRPC 流，或者实现自定义的 EventSource。"@
}

impl GrpcSource {
    /// A source with the given configuration.
    pub fn new(config: GrpcSourceConfig) -> (s: Self)
        ensures
            s.configuration() == config,
    {
        GrpcSource { config }
    }

    /// The configuration, in specifications.
    pub closed spec fn configuration(&self) -> GrpcSourceConfig {
        self.config
    }

    /// The configuration.
    pub fn config(&self) -> (c: &GrpcSourceConfig)
        ensures
            *c == self.configuration(),
    {
        &self.config
    }

    /// The error that the source's event stream yields.
    pub fn unsupported_error(&self) -> (e: SourceError)
        ensures
            e matches SourceError::Other(m) && m@ == grpc_source_unsupported(),
    {
        SourceError::Other(String::from_str("GrpcSource 是一个占位实现。请使用 GrpcStreamSource::from_streaming() 并提供您自己生成的 gRPC 流，或者实现自定义的 EventSource。"))
    }
}

// ---------------------------------------------------------------------------
// WebSocket source
// ---------------------------------------------------------------------------

/// Configuration of a WebSocket source.
#[derive(Debug, Clone)]
pub struct WebSocketConfig {
    /// The URL (`ws://` or `wss://`).
    pub url: String,
    /// Whether to reconnect after a disconnection.
    pub auto_reconnect: bool,
    /// The delay before reconnecting, in milliseconds.
    pub reconnect_delay_ms: u64,
    /// The most reconnections in a row; `None` for no limit.
    pub max_reconnects: Option<usize>,
}

impl WebSocketConfig {
    /// A configuration for `url` that reconnects after one second, without
    /// limit.
    pub fn new(url: &str) -> (c: Self)
        ensures
            c.url@ == url@,
            c.auto_reconnect,
            c.reconnect_delay_ms == 1000,
            c.max_reconnects is None,
    {
        WebSocketConfig {
            url: String::from_str(url),
            auto_reconnect: true,
            reconnect_delay_ms: 1000,
            max_reconnects: None,
        }
    }

    /// Disables reconnection.
    pub fn no_reconnect(self) -> (c: Self)
        ensures
            c.url == self.url,
            !c.auto_reconnect,
            c.reconnect_delay_ms == self.reconnect_delay_ms,
            c.max_reconnects == self.max_reconnects,
    {
        let mut c = self;
        c.auto_reconnect = false;
        c
    }
}

/// After a disconnection, the number of reconnections in a row so far once
/// one more is made, or `None` when the source stops.
pub open spec fn next_reconnect_spec(config: WebSocketConfig, count: nat) -> Option<nat> {
    if !config.auto_reconnect {
        None
    } else {
        match config.max_reconnects {
            Some(max) => if count + 1 > max {
                None
            } else {
                Some(count + 1)
            },
            None => Some(count + 1),
        }
    }
}

/// Reconnection follows the configuration: with reconnection off the source
/// never reconnects, whatever the limit; otherwise it reconnects, counting
/// one more, while the count stays within the limit, if there is one.
pub proof fn lemma_reconnect_rules(config: WebSocketConfig, count: nat)
    ensures
        !config.auto_reconnect ==> next_reconnect_spec(config, count) is None,
        next_reconnect_spec(config, count) matches Some(n) ==> n == count + 1,
        config.auto_reconnect && config.max_reconnects is None ==> next_reconnect_spec(
            config,
            count,
        ) is Some,
        config.max_reconnects matches Some(m) ==> (config.auto_reconnect ==> (next_reconnect_spec(
            config,
            count,
        ) is Some <==> count + 1 <= m)),
{
}

/// Decides, after a disconnection, whether a WebSocket source reconnects
/// (see [`next_reconnect_spec`]); `count` is reset to 0 on each successful
/// connection.
pub fn next_reconnect(config: &WebSocketConfig, count: usize) -> (r: Option<usize>)
    requires
        count < usize::MAX,
    ensures
        match r {
            Some(n) => next_reconnect_spec(*config, count as nat) == Some(n as nat),
            None => next_reconnect_spec(*config, count as nat) is None,
        },
        !config.auto_reconnect ==> r is None,
        r matches Some(n) ==> n == count + 1,
        config.auto_reconnect && config.max_reconnects is None ==> r is Some,
        config.max_reconnects matches Some(m) ==> (config.auto_reconnect ==> (r is Some <==> count
            + 1 <= m)),
{
    proof {
        lemma_reconnect_rules(*config, count as nat);
    }
    if !config.auto_reconnect {
        return None;
    }
    let next = count + 1;
    if let Some(max) = config.max_reconnects {
        if next > max {
            return None;
        }
    }
    Some(next)
}

/// A message received on a WebSocket connection.
#[derive(Debug, Clone, PartialEq, Eq)]
pub enum WsIncoming {
    Text(String),
    Binary(Vec<u8>),
    Ping,
    Pong,
    Close,
    Frame,
}

/// What a WebSocket source does with a received message.
#[derive(Debug)]
pub enum WsAction {
    /// Yield this event.
    Emit(BridgeEvent),
    /// Yield nothing.
    Ignore,
    /// The connection is closing.
    Stop,
}

/// Metadata stamped now and marked as coming from "websocket".
pub open spec fn websocket_metadata() -> MetadataView {
    MetadataView {
        has_timestamp: true,
        source_protocol: Some("websocket"@),
        custom: Map::empty(),
    }
}

/// The action for a received message: text and binary messages become
/// events of type "message" and "binary" with the message as payload; ping,
/// pong and raw frames are ignored; a close frame stops the stream.
pub fn incoming_action(msg: WsIncoming) -> (a: WsAction)
    ensures
        match msg {
            WsIncoming::Text(t) => a matches WsAction::Emit(e) && e@ == (BridgeEventView {
                id: None,
                event_type: Some("message"@),
                payload: vstd::utf8::encode_utf8(t@),
                metadata: websocket_metadata(),
            }),
            WsIncoming::Binary(v) => a matches WsAction::Emit(e) && e@ == (BridgeEventView {
                id: None,
                event_type: Some("binary"@),
                payload: v@,
                metadata: websocket_metadata(),
            }),
            WsIncoming::Close => a matches WsAction::Stop,
            _ => a matches WsAction::Ignore,
        },
{
    match msg {
        WsIncoming::Text(text) => WsAction::Emit(BridgeEvent {
            id: None,
            event_type: Some(String::from_str("message")),
            payload: bytes_from_string(text),
            metadata: EventMetadata::now().with_source("websocket"),
        }),
        WsIncoming::Binary(data) => WsAction::Emit(BridgeEvent {
            id: None,
            event_type: Some(String::from_str("binary")),
            payload: bytes_from_vec(data),
            metadata: EventMetadata::now().with_source("websocket"),
        }),
        WsIncoming::Close => WsAction::Stop,
        _ => WsAction::Ignore,
    }
}

/// What a gRPC source observed: the stream was already consumed, or the
/// stream gave a message (converted into an event), its end, or an error.
#[derive(Debug)]
pub enum GrpcItem {
    AlreadyConsumed,
    Message(BridgeEvent),
    End,
    Failed(tonic::Status),
}

/// What a gRPC source does next.
#[derive(Debug)]
pub enum GrpcAction {
    /// Yield this event and read on.
    Emit(BridgeEvent),
    /// End the stream.
    Stop,
    /// Yield this error, then end the stream.
    FailThenStop(SourceError),
}

/// The error of a gRPC source whose stream was consumed before.
pub open spec fn consumed_message() -> Seq<char> {
    "Stream already consumed"@
}

/// The decision of a gRPC source: a message is yielded as its event; the
/// end of the stream ends the source; a stream error is yielded as a gRPC
/// error and ends the source; a stream already consumed yields an error and
/// ends the source.
pub fn grpc_step(item: GrpcItem) -> (a: GrpcAction)
    ensures
        match item {
            GrpcItem::Message(e) => a matches GrpcAction::Emit(f) && f == e,
            GrpcItem::End => a is Stop,
            GrpcItem::Failed(st) => a matches GrpcAction::FailThenStop(SourceError::Grpc(t)) && t == st,
            GrpcItem::AlreadyConsumed => a matches GrpcAction::FailThenStop(SourceError::Other(m))
                && m@ == consumed_message(),
        },
{
    match item {
        GrpcItem::Message(e) => GrpcAction::Emit(e),
        GrpcItem::End => GrpcAction::Stop,
        GrpcItem::Failed(st) => GrpcAction::FailThenStop(SourceError::Grpc(st)),
        GrpcItem::AlreadyConsumed => GrpcAction::FailThenStop(
            SourceError::Other(String::from_str("Stream already consumed")),
        ),
    }
}

} // verus!
