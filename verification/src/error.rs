//! Error types of the client, the event sources, the sinks and the bridge.

use vstd::prelude::*;

use crate::event::opt_chars;
use crate::text::push_literal;

verus! {

/// `reqwest::Error`, carried by [`SseError::Http`].
#[verifier::external_type_specification]
#[verifier::external_body]
pub struct ExReqwestError(reqwest::Error);

/// `tungstenite::Error`, carried by the WebSocket error variants.
#[verifier::external_type_specification]
#[verifier::external_body]
pub struct ExWebSocketError(tokio_tungstenite::tungstenite::Error);

/// `tonic::Status`, carried by the gRPC error variants.
#[verifier::external_type_specification]
#[verifier::external_body]
pub struct ExGrpcStatus(tonic::Status);

/// Errors of an SSE client stream.
#[derive(Debug)]
pub enum SseError {
    /// The HTTP request or the body stream failed.
    Http(reqwest::Error),
    /// The response is not `text/event-stream`; holds the content type seen.
    InvalidContentType(Option<String>),
    /// The last event id cannot be sent as a header value.
    InvalidHeaderValue,
    /// The URL does not parse.
    Url(String),
}

/// Errors of an event source.
#[derive(Debug)]
pub enum SourceError {
    /// The connection was closed.
    Closed,
    /// The connection failed.
    Connection(String),
    /// A message could not be parsed.
    Parse(String),
    /// The SSE client failed.
    Sse(SseError),
    /// The WebSocket connection failed.
    WebSocket(tokio_tungstenite::tungstenite::Error),
    /// The gRPC stream failed.
    Grpc(tonic::Status),
    /// Anything else.
    Other(String),
}

/// Errors of an event sink.
#[derive(Debug)]
pub enum SinkError {
    /// The sink is closed.
    Closed,
    /// Sending failed.
    Send(String),
    /// The event could not be serialized.
    Serialization(String),
    /// The WebSocket connection failed.
    WebSocket(tokio_tungstenite::tungstenite::Error),
    /// The gRPC call failed.
    Grpc(tonic::Status),
    /// Anything else.
    Other(String),
}

/// Errors of a bridge.
#[derive(Debug)]
pub enum BridgeError {
    /// The source failed.
    Source(SourceError),
    /// A sink failed.
    Sink(SinkError),
    /// The bridge was started with no sink.
    NoSinks,
    /// The bridge was stopped.
    Stopped,
}

impl vstd::std_specs::convert::FromSpecImpl<reqwest::Error> for SseError {
    open spec fn obeys_from_spec() -> bool {
        true
    }

    open spec fn from_spec(v: reqwest::Error) -> SseError {
        SseError::Http(v)
    }
}

impl From<reqwest::Error> for SseError {
    fn from(e: reqwest::Error) -> Self {
        SseError::Http(e)
    }
}

impl vstd::std_specs::convert::FromSpecImpl<SseError> for SourceError {
    open spec fn obeys_from_spec() -> bool {
        true
    }

    open spec fn from_spec(v: SseError) -> SourceError {
        SourceError::Sse(v)
    }
}

impl From<SseError> for SourceError {
    fn from(e: SseError) -> Self {
        SourceError::Sse(e)
    }
}

impl vstd::std_specs::convert::FromSpecImpl<SourceError> for BridgeError {
    open spec fn obeys_from_spec() -> bool {
        true
    }

    open spec fn from_spec(v: SourceError) -> BridgeError {
        BridgeError::Source(v)
    }
}

impl From<SourceError> for BridgeError {
    fn from(e: SourceError) -> Self {
        BridgeError::Source(e)
    }
}

impl vstd::std_specs::convert::FromSpecImpl<SinkError> for BridgeError {
    open spec fn obeys_from_spec() -> bool {
        true
    }

    open spec fn from_spec(v: SinkError) -> BridgeError {
        BridgeError::Sink(v)
    }
}

impl From<SinkError> for BridgeError {
    fn from(e: SinkError) -> Self {
        BridgeError::Sink(e)
    }
}

impl vstd::std_specs::convert::FromSpecImpl<tokio_tungstenite::tungstenite::Error> for SourceError {
    open spec fn obeys_from_spec() -> bool {
        true
    }

    open spec fn from_spec(v: tokio_tungstenite::tungstenite::Error) -> SourceError {
        SourceError::WebSocket(v)
    }
}

impl From<tokio_tungstenite::tungstenite::Error> for SourceError {
    fn from(e: tokio_tungstenite::tungstenite::Error) -> Self {
        SourceError::WebSocket(e)
    }
}

impl vstd::std_specs::convert::FromSpecImpl<tonic::Status> for SourceError {
    open spec fn obeys_from_spec() -> bool {
        true
    }

    open spec fn from_spec(v: tonic::Status) -> SourceError {
        SourceError::Grpc(v)
    }
}

impl From<tonic::Status> for SourceError {
    fn from(e: tonic::Status) -> Self {
        SourceError::Grpc(e)
    }
}

impl vstd::std_specs::convert::FromSpecImpl<tokio_tungstenite::tungstenite::Error> for SinkError {
    open spec fn obeys_from_spec() -> bool {
        true
    }

    open spec fn from_spec(v: tokio_tungstenite::tungstenite::Error) -> SinkError {
        SinkError::WebSocket(v)
    }
}

impl From<tokio_tungstenite::tungstenite::Error> for SinkError {
    fn from(e: tokio_tungstenite::tungstenite::Error) -> Self {
        SinkError::WebSocket(e)
    }
}

impl vstd::std_specs::convert::FromSpecImpl<tonic::Status> for SinkError {
    open spec fn obeys_from_spec() -> bool {
        true
    }

    open spec fn from_spec(v: tonic::Status) -> SinkError {
        SinkError::Grpc(v)
    }
}

impl From<tonic::Status> for SinkError {
    fn from(e: tonic::Status) -> Self {
        SinkError::Grpc(e)
    }
}

// ---------------------------------------------------------------------------
// Messages
// ---------------------------------------------------------------------------

/// The `Display` text of a `reqwest::Error`. Nothing is stated of the text:
/// it comes from the `reqwest` crate's formatting.
#[verifier::external_body]
fn http_error_text(e: &reqwest::Error) -> String {
    e.to_string()
}

/// The `Display` text of a `tungstenite::Error`. Nothing is stated of the
/// text: it comes from the `tungstenite` crate's formatting.
#[verifier::external_body]
fn websocket_error_text(e: &tokio_tungstenite::tungstenite::Error) -> String {
    e.to_string()
}

/// The `Display` text of a `tonic::Status`. Nothing is stated of the text:
/// it comes from the `tonic` crate's formatting.
#[verifier::external_body]
fn grpc_status_text(s: &tonic::Status) -> String {
    s.to_string()
}

/// The `Debug` text of an optional string (`format!("{:?}", o)` in std):
/// `None`, or `Some` around the string quoted with std's escapes. It depends
/// on the value alone.
pub uninterp spec fn option_debug(o: Option<Seq<char>>) -> Seq<char>;

/// The `Debug` text of `o` (std's `Debug` for `Option<String>`).
#[verifier::external_body]
fn option_debug_text(o: &Option<String>) -> (r: String)
    ensures
        r@ == option_debug(opt_chars(*o)),
{
    format!("{:?}", o)
}

/// `p` followed by anything starts with `p`.
proof fn lemma_prefix_of_concat(a: Seq<char>, p: Seq<char>, t: Seq<char>)
    requires
        p.is_prefix_of(t),
    ensures
        (a + p).is_prefix_of(a + t),
        a.is_prefix_of(a + t),
{
    assert((a + p) =~= (a + t).subrange(0, (a + p).len() as int));
    assert(a =~= (a + t).subrange(0, a.len() as int));
}

/// Appends `lit`, then `text`.
fn push_two(m: &mut String, lit: &str, text: &str)
    ensures
        final(m)@ == old(m)@ + lit@ + text@,
{
    push_literal(m, lit);
    push_literal(m, text);
}

/// What every message of an SSE error starts with.
pub open spec fn sse_error_prefix(e: SseError) -> Seq<char> {
    match e {
        SseError::Http(_) => "HTTP 错误: "@,
        SseError::InvalidContentType(_) => "无效的 content-type: 期望 text/event-stream, 收到 "@,
        SseError::InvalidHeaderValue => "无效的 header 值"@,
        SseError::Url(_) => "URL 解析错误: "@,
    }
}

/// The whole message of an SSE error, where it does not hold an outside
/// error's own text.
pub open spec fn sse_error_text(e: SseError) -> Option<Seq<char>> {
    match e {
        SseError::Http(_) => None,
        SseError::InvalidContentType(ct) => Some(sse_error_prefix(e) + option_debug(opt_chars(ct))),
        SseError::InvalidHeaderValue => Some(sse_error_prefix(e)),
        SseError::Url(u) => Some(sse_error_prefix(e) + u@),
    }
}

/// What every message of a source error starts with.
pub open spec fn source_error_prefix(e: SourceError) -> Seq<char> {
    match e {
        SourceError::Closed => "连接已关闭"@,
        SourceError::Connection(_) => "连接错误: "@,
        SourceError::Parse(_) => "解析错误: "@,
        SourceError::Sse(inner) => "SSE 错误: "@ + sse_error_prefix(inner),
        SourceError::WebSocket(_) => "WebSocket 错误: "@,
        SourceError::Grpc(_) => "gRPC 错误: "@,
        SourceError::Other(_) => "其他错误: "@,
    }
}

/// The whole message of a source error, where it does not hold an outside
/// error's own text.
pub open spec fn source_error_text(e: SourceError) -> Option<Seq<char>> {
    match e {
        SourceError::Closed => Some("连接已关闭"@),
        SourceError::Connection(t) => Some("连接错误: "@ + t@),
        SourceError::Parse(t) => Some("解析错误: "@ + t@),
        SourceError::Sse(inner) => match sse_error_text(inner) {
            Some(t) => Some("SSE 错误: "@ + t),
            None => None,
        },
        SourceError::WebSocket(_) => None,
        SourceError::Grpc(_) => None,
        SourceError::Other(t) => Some("其他错误: "@ + t@),
    }
}

/// What every message of a sink error starts with.
pub open spec fn sink_error_prefix(e: SinkError) -> Seq<char> {
    match e {
        SinkError::Closed => "接收器已关闭"@,
        SinkError::Send(_) => "发送错误: "@,
        SinkError::Serialization(_) => "序列化错误: "@,
        SinkError::WebSocket(_) => "WebSocket 错误: "@,
        SinkError::Grpc(_) => "gRPC 错误: "@,
        SinkError::Other(_) => "其他错误: "@,
    }
}

/// The whole message of a sink error, where it does not hold an outside
/// error's own text.
pub open spec fn sink_error_text(e: SinkError) -> Option<Seq<char>> {
    match e {
        SinkError::Closed => Some(sink_error_prefix(e)),
        SinkError::Send(t) => Some(sink_error_prefix(e) + t@),
        SinkError::Serialization(t) => Some(sink_error_prefix(e) + t@),
        SinkError::WebSocket(_) => None,
        SinkError::Grpc(_) => None,
        SinkError::Other(t) => Some(sink_error_prefix(e) + t@),
    }
}

/// What every message of a bridge error starts with.
pub open spec fn bridge_error_prefix(e: BridgeError) -> Seq<char> {
    match e {
        BridgeError::Source(inner) => "源错误: "@ + source_error_prefix(inner),
        BridgeError::Sink(inner) => "接收器错误: "@ + sink_error_prefix(inner),
        BridgeError::NoSinks => "没有注册接收器"@,
        BridgeError::Stopped => "桥接已停止"@,
    }
}

/// The whole message of a bridge error, where it does not hold an outside
/// error's own text.
pub open spec fn bridge_error_text(e: BridgeError) -> Option<Seq<char>> {
    match e {
        BridgeError::Source(inner) => match source_error_text(inner) {
            Some(t) => Some("源错误: "@ + t),
            None => None,
        },
        BridgeError::Sink(inner) => match sink_error_text(inner) {
            Some(t) => Some("接收器错误: "@ + t),
            None => None,
        },
        BridgeError::NoSinks => Some("没有注册接收器"@),
        BridgeError::Stopped => Some("桥接已停止"@),
    }
}

impl SseError {
    /// The error's message: [`sse_error_text`] where that is known, and in
    /// any case starting with [`sse_error_prefix`], followed by the HTTP
    /// error's own text for `Http`.
    pub fn message(&self) -> (m: String)
        ensures
            sse_error_prefix(*self).is_prefix_of(m@),
            sse_error_text(*self) matches Some(t) ==> m@ == t,
    {
        let mut m = String::new();
        match self {
            SseError::Http(e) => {
                let t = http_error_text(e);
                push_two(&mut m, "HTTP 错误: ", t.as_str());
            },
            SseError::InvalidContentType(ct) => {
                let t = option_debug_text(ct);
                push_two(&mut m, "无效的 content-type: 期望 text/event-stream, 收到 ", t.as_str());
            },
            SseError::InvalidHeaderValue => push_literal(&mut m, "无效的 header 值"),
            SseError::Url(u) => push_two(&mut m, "URL 解析错误: ", u.as_str()),
        }
        proof {
            let p = sse_error_prefix(*self);
            assert(p =~= m@.subrange(0, p.len() as int));
        }
        m
    }
}

impl SourceError {
    /// The error's message: [`source_error_text`] where that is known, and
    /// in any case starting with [`source_error_prefix`].
    pub fn message(&self) -> (m: String)
        ensures
            source_error_prefix(*self).is_prefix_of(m@),
            source_error_text(*self) matches Some(t) ==> m@ == t,
    {
        let mut m = String::new();
        match self {
            SourceError::Closed => push_literal(&mut m, "连接已关闭"),
            SourceError::Connection(t) => push_two(&mut m, "连接错误: ", t.as_str()),
            SourceError::Parse(t) => push_two(&mut m, "解析错误: ", t.as_str()),
            SourceError::Sse(inner) => {
                let t = inner.message();
                push_two(&mut m, "SSE 错误: ", t.as_str());
                proof {
                    lemma_prefix_of_concat("SSE 错误: "@, sse_error_prefix(*inner), t@);
                }
            },
            SourceError::WebSocket(e) => {
                let t = websocket_error_text(e);
                push_two(&mut m, "WebSocket 错误: ", t.as_str());
            },
            SourceError::Grpc(st) => {
                let t = grpc_status_text(st);
                push_two(&mut m, "gRPC 错误: ", t.as_str());
            },
            SourceError::Other(t) => push_two(&mut m, "其他错误: ", t.as_str()),
        }
        proof {
            let p = source_error_prefix(*self);
            if !(*self is Sse) {
                assert(p =~= m@.subrange(0, p.len() as int));
            }
        }
        m
    }
}

impl SinkError {
    /// The error's message: [`sink_error_text`] where that is known, and in
    /// any case starting with [`sink_error_prefix`], followed by the outside
    /// error's own text for `WebSocket` and `Grpc`.
    pub fn message(&self) -> (m: String)
        ensures
            sink_error_prefix(*self).is_prefix_of(m@),
            sink_error_text(*self) matches Some(t) ==> m@ == t,
    {
        let mut m = String::new();
        match self {
            SinkError::Closed => push_literal(&mut m, "接收器已关闭"),
            SinkError::Send(t) => push_two(&mut m, "发送错误: ", t.as_str()),
            SinkError::Serialization(t) => push_two(&mut m, "序列化错误: ", t.as_str()),
            SinkError::WebSocket(e) => {
                let t = websocket_error_text(e);
                push_two(&mut m, "WebSocket 错误: ", t.as_str());
            },
            SinkError::Grpc(st) => {
                let t = grpc_status_text(st);
                push_two(&mut m, "gRPC 错误: ", t.as_str());
            },
            SinkError::Other(t) => push_two(&mut m, "其他错误: ", t.as_str()),
        }
        proof {
            let p = sink_error_prefix(*self);
            assert(p =~= m@.subrange(0, p.len() as int));
        }
        m
    }
}

impl BridgeError {
    /// The error's message: [`bridge_error_text`] where that is known, and
    /// in any case starting with [`bridge_error_prefix`].
    pub fn message(&self) -> (m: String)
        ensures
            bridge_error_prefix(*self).is_prefix_of(m@),
            bridge_error_text(*self) matches Some(t) ==> m@ == t,
    {
        let mut m = String::new();
        match self {
            BridgeError::Source(inner) => {
                let t = inner.message();
                push_two(&mut m, "源错误: ", t.as_str());
                proof {
                    lemma_prefix_of_concat("源错误: "@, source_error_prefix(*inner), t@);
                }
            },
            BridgeError::Sink(inner) => {
                let t = inner.message();
                push_two(&mut m, "接收器错误: ", t.as_str());
                proof {
                    lemma_prefix_of_concat("接收器错误: "@, sink_error_prefix(*inner), t@);
                }
            },
            BridgeError::NoSinks => push_literal(&mut m, "没有注册接收器"),
            BridgeError::Stopped => push_literal(&mut m, "桥接已停止"),
        }
        m
    }
}

} // verus!
