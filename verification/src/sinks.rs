//! The formatting that event sinks apply before sending: event-stream text
//! for SSE sinks, and text, binary or JSON messages for WebSocket sinks.

use vstd::prelude::*;
use vstd::string::*;

use std::sync::atomic::{AtomicBool, Ordering};

use crate::bridge::event::{bridge_to_sse, bytes_as_slice, BridgeEvent, BridgeEventView};
use crate::event::{opt_chars, sse_text, SseEvent};
use crate::error::SinkError;
use crate::text::{chars_of, decoded, push_char, push_literal};

verus! {

/// The event-stream text of a bridged event: its id and type, and its
/// payload decoded as UTF-8 as data.
pub open spec fn bridge_event_text(e: BridgeEventView) -> Seq<char> {
    sse_text(bridge_to_sse(e))
}

/// Formats a bridged event as event-stream text (what an SSE sink sends).
pub fn format_event(event: &BridgeEvent) -> (s: String)
    ensures
        s@ == bridge_event_text(event@),
{
    let sse_event: SseEvent = event.to_sse_event();
    sse_event.to_sse_string()
}

// ---------------------------------------------------------------------------
// WebSocket messages
// ---------------------------------------------------------------------------

/// How a WebSocket sink encodes events.
#[derive(Debug, Clone, Copy, PartialEq, Eq)]
pub enum WebSocketFormat {
    /// The payload as a text message (the default).
    Text,
    /// The payload as a binary message.
    Binary,
    /// A JSON object as a text message.
    Json,
}

impl Default for WebSocketFormat {
    fn default() -> (f: Self)
        ensures
            f == WebSocketFormat::Text,
    {
        WebSocketFormat::Text
    }
}

/// Configuration of a WebSocket sink.
#[derive(Debug, Clone, Copy)]
pub struct WebSocketSinkConfig {
    /// The message encoding.
    pub format: WebSocketFormat,
    /// Whether JSON messages carry the source protocol.
    pub include_metadata: bool,
}

impl Default for WebSocketSinkConfig {
    fn default() -> (c: Self)
        ensures
            c.format == WebSocketFormat::Text,
            !c.include_metadata,
    {
        WebSocketSinkConfig { format: WebSocketFormat::Text, include_metadata: false }
    }
}

/// The content of a WebSocket message.
#[derive(Debug, Clone, PartialEq, Eq)]
pub enum WsPayload {
    Text(String),
    Binary(Vec<u8>),
}

/// Whether `c` is a control character (general category Cc).
pub open spec fn is_control(c: char) -> bool {
    let u = c as u32;
    u <= 0x1f || (0x7f <= u <= 0x9f)
}

/// The lowercase hexadecimal digit for `d < 16`.
pub open spec fn hex_digit(d: nat) -> char {
    if d < 10 {
        (48 + d) as char
    } else {
        (87 + d) as char
    }
}

/// `u` in four lowercase hexadecimal digits (`u < 0x10000`).
pub open spec fn hex4(u: nat) -> Seq<char> {
    seq![hex_digit((u / 4096) % 16), hex_digit((u / 256) % 16), hex_digit((u / 16) % 16), hex_digit(u % 16)]
}

/// The JSON escape of one character.
pub open spec fn escape_char(c: char) -> Seq<char> {
    if c == '"' {
        seq!['\\', '"']
    } else if c == '\\' {
        seq!['\\', '\\']
    } else if c == '\n' {
        seq!['\\', 'n']
    } else if c == '\r' {
        seq!['\\', 'r']
    } else if c == '\t' {
        seq!['\\', 't']
    } else if is_control(c) {
        seq!['\\', 'u'] + hex4(c as u32 as nat)
    } else {
        seq![c]
    }
}

/// The JSON escapes of a sequence of characters, in order.
pub open spec fn escape_chars(s: Seq<char>) -> Seq<char>
    decreases s.len(),
{
    if s.len() == 0 {
        Seq::empty()
    } else {
        escape_chars(s.drop_last()) + escape_char(s.last())
    }
}

/// `s` as a JSON string literal.
pub open spec fn json_string(s: Seq<char>) -> Seq<char> {
    seq!['"'] + escape_chars(s) + seq!['"']
}

/// The value of a hexadecimal digit (either case).
pub open spec fn hex_value(c: char) -> Option<nat> {
    let u = c as u32;
    if 48 <= u <= 57 {
        Some((u - 48) as nat)
    } else if 97 <= u <= 102 {
        Some((u - 87) as nat)
    } else if 65 <= u <= 70 {
        Some((u - 55) as nat)
    } else {
        None
    }
}

/// The character a one-letter JSON escape (`\"`, `\\`, `\/`, `\b`, `\f`,
/// `\n`, `\r`, `\t`) stands for.
pub open spec fn short_escape(e: char) -> Option<char> {
    if e == '"' {
        Some('"')
    } else if e == '\\' {
        Some('\\')
    } else if e == '/' {
        Some('/')
    } else if e == 'b' {
        Some('\u{8}')
    } else if e == 'f' {
        Some('\u{c}')
    } else if e == 'n' {
        Some('\n')
    } else if e == 'r' {
        Some('\r')
    } else if e == 't' {
        Some('\t')
    } else {
        None
    }
}

/// `c` followed by the decoded rest, when the rest decodes.
pub open spec fn prepend_decoded(c: char, rest: Option<Seq<char>>) -> Option<Seq<char>> {
    match rest {
        Some(t) => Some(seq![c] + t),
        None => None,
    }
}

/// The code point of a four-digit `\u` escape, when its digits are
/// hexadecimal.
pub open spec fn hex4_value(a: char, b: char, c: char, d: char) -> Option<nat> {
    match (hex_value(a), hex_value(b), hex_value(c), hex_value(d)) {
        (Some(x), Some(y), Some(z), Some(w)) => Some(x * 4096 + y * 256 + z * 16 + w),
        _ => None,
    }
}

/// Decodes what follows the opening quote of a JSON string literal: the
/// characters it stands for, when it is escaped text that ends with the
/// closing quote and nothing after it. Raw control characters below
/// U+0020 are refused, as JSON requires. A `\u` escape of a surrogate
/// (U+D800 to U+DFFF) is refused too: surrogate pairs are not decoded.
pub open spec fn json_unescape(s: Seq<char>) -> Option<Seq<char>>
    decreases s.len(),
{
    if s.len() == 0 {
        None
    } else if s[0] == '"' {
        if s.len() == 1 {
            Some(Seq::empty())
        } else {
            None
        }
    } else if s[0] == '\\' {
        if s.len() < 2 {
            None
        } else if s[1] == 'u' {
            if s.len() < 6 {
                None
            } else {
                match hex4_value(s[2], s[3], s[4], s[5]) {
                    Some(v) => if v < 0xD800 || 0xE000 <= v {
                        prepend_decoded(v as char, json_unescape(s.skip(6)))
                    } else {
                        None
                    },
                    None => None,
                }
            }
        } else {
            match short_escape(s[1]) {
                Some(c) => prepend_decoded(c, json_unescape(s.skip(2))),
                None => None,
            }
        }
    } else if (s[0] as u32) < 0x20 {
        None
    } else {
        prepend_decoded(s[0], json_unescape(s.skip(1)))
    }
}

/// The string a JSON string literal stands for, if `lit` is one.
pub open spec fn json_decode(lit: Seq<char>) -> Option<Seq<char>> {
    if lit.len() > 0 && lit[0] == '"' {
        json_unescape(lit.drop_first())
    } else {
        None
    }
}

proof fn lemma_escape_chars_front(s: Seq<char>)
    requires
        s.len() > 0,
    ensures
        escape_chars(s) == escape_char(s[0]) + escape_chars(s.drop_first()),
    decreases s.len(),
{
    if s.len() == 1 {
        assert(s.drop_last() =~= Seq::<char>::empty());
        assert(s.drop_first() =~= Seq::<char>::empty());
        assert(escape_chars(s.drop_first()) =~= Seq::<char>::empty());
        assert(escape_chars(s) =~= escape_char(s[0]));
    } else {
        lemma_escape_chars_front(s.drop_last());
        assert(s.drop_last().drop_first() =~= s.drop_first().drop_last());
        assert(s.drop_first().last() == s.last());
        assert(s.drop_last()[0] == s[0]);
        assert(escape_chars(s) =~= escape_char(s[0]) + escape_chars(s.drop_first()));
    }
}

proof fn lemma_hex_digit_value(d: nat)
    requires
        d < 16,
    ensures
        hex_value(hex_digit(d)) == Some(d),
{
    if d < 10 {
        assert(((48 + d) as char) as u32 == 48 + d);
    } else {
        assert(((87 + d) as char) as u32 == 87 + d);
    }
}

/// Decoding the escape of one character, followed by more text, gives that
/// character followed by the decoding of the text.
proof fn lemma_unescape_char(c: char, t: Seq<char>)
    ensures
        json_unescape(escape_char(c) + t) == prepend_decoded(c, json_unescape(t)),
{
    let e = escape_char(c);
    if c == '"' || c == '\\' || c == '\n' || c == '\r' || c == '\t' {
        assert((e + t)[0] == '\\');
        assert((e + t).skip(2) =~= t);
    } else if is_control(c) {
        let u = c as u32 as nat;
        lemma_hex_digit_value((u / 4096) % 16);
        lemma_hex_digit_value((u / 256) % 16);
        lemma_hex_digit_value((u / 16) % 16);
        lemma_hex_digit_value(u % 16);
        let x = e + t;
        assert(x[0] == '\\' && x[1] == 'u');
        assert(x[2] == hex_digit((u / 4096) % 16));
        assert(x[3] == hex_digit((u / 256) % 16));
        assert(x[4] == hex_digit((u / 16) % 16));
        assert(x[5] == hex_digit(u % 16));
        assert(hex4_value(x[2], x[3], x[4], x[5]) == Some(u));
        assert((u as char) == c);
        assert(x.skip(6) =~= t);
    } else {
        assert((e + t)[0] == c);
        assert((e + t).skip(1) =~= t);
    }
}

/// Decoding the escapes of `s` followed by the closing quote gives `s`.
proof fn lemma_unescape_escaped(s: Seq<char>)
    ensures
        json_unescape(escape_chars(s) + seq!['"']) == Some(s),
    decreases s.len(),
{
    if s.len() == 0 {
        assert(escape_chars(s) + seq!['"'] =~= seq!['"']);
    } else {
        lemma_escape_chars_front(s);
        lemma_unescape_escaped(s.drop_first());
        assert(escape_chars(s) + seq!['"'] =~= escape_char(s[0]) + (escape_chars(s.drop_first())
            + seq!['"']));
        lemma_unescape_char(s[0], escape_chars(s.drop_first()) + seq!['"']);
        assert(seq![s[0]] + s.drop_first() =~= s);
    }
}

/// The JSON escape round-trips: every string literal it writes is valid
/// JSON that a JSON parser decodes to exactly the string escaped.
pub proof fn lemma_json_string_decodes(s: Seq<char>)
    ensures
        json_decode(json_string(s)) == Some(s),
{
    lemma_unescape_escaped(s);
    assert(json_string(s).drop_first() =~= escape_chars(s) + seq!['"']);
}

fn hex_digit_of(d: u32) -> (c: char)
    requires
        d < 16,
    ensures
        c == hex_digit(d as nat),
{
    if d < 10 {
        ((48 + d) as u8) as char
    } else {
        ((87 + d) as u8) as char
    }
}

/// Appends the JSON escape of `c` to `out`.
fn push_escaped(out: &mut String, c: char)
    ensures
        final(out)@ == old(out)@ + escape_char(c),
{
    if c == '"' {
        push_char(out, '\\');
        push_char(out, '"');
    } else if c == '\\' {
        push_char(out, '\\');
        push_char(out, '\\');
    } else if c == '\n' {
        push_char(out, '\\');
        push_char(out, 'n');
    } else if c == '\r' {
        push_char(out, '\\');
        push_char(out, 'r');
    } else if c == '\t' {
        push_char(out, '\\');
        push_char(out, 't');
    } else {
        let u = c as u32;
        if u <= 0x1f || (0x7f <= u && u <= 0x9f) {
            push_char(out, '\\');
            push_char(out, 'u');
            push_char(out, hex_digit_of((u / 4096) % 16));
            push_char(out, hex_digit_of((u / 256) % 16));
            push_char(out, hex_digit_of((u / 16) % 16));
            push_char(out, hex_digit_of(u % 16));
        } else {
            push_char(out, c);
        }
    }
}

/// Appends `s` as a JSON string literal to `out`.
pub fn push_json_string(out: &mut String, s: &str)
    ensures
        final(out)@ == old(out)@ + json_string(s@),
{
    let cs = chars_of(s);
    push_char(out, '"');
    let ghost start = out@;
    let mut i: usize = 0;
    while i < cs.len()
        invariant
            i <= cs@.len(),
            cs@ == s@,
            start == old(out)@ + seq!['"'],
            out@ == start + escape_chars(cs@.take(i as int)),
        decreases cs@.len() - i,
    {
        assert(cs@.take(i + 1).drop_last() =~= cs@.take(i as int));
        push_escaped(out, cs[i]);
        i += 1;
    }
    assert(cs@.take(cs@.len() as int) =~= cs@);
    push_char(out, '"');
}

/// The JSON escape of a string (quotes included), as WebSocket sinks write it.
pub fn serde_json_escape(s: &str) -> (r: String)
    ensures
        r@ == json_string(s@),
{
    let mut r = String::new();
    push_json_string(&mut r, s);
    r
}

/// An optional string as the WebSocket JSON format writes it: a JSON string
/// literal, or `null`.
pub open spec fn json_opt(o: Option<Seq<char>>) -> Seq<char> {
    match o {
        Some(s) => json_string(s),
        None => "null"@,
    }
}

/// The JSON object a WebSocket sink sends for an event.
pub open spec fn event_json(e: BridgeEventView, include_metadata: bool) -> Seq<char> {
    "{\"id\":"@ + json_opt(e.id) + ",\"type\":"@ + json_opt(e.event_type) + ",\"data\":"@
        + json_string(decoded(e.payload)) + (if include_metadata {
        ",\"source\":"@ + json_opt(e.metadata.source_protocol)
    } else {
        Seq::empty()
    }) + "}"@
}

/// `x` is the JSON value written for an optional string: `null` when it is
/// absent, otherwise a JSON string literal that decodes to it.
pub open spec fn json_value_for(x: Seq<char>, o: Option<Seq<char>>) -> bool {
    match o {
        None => x == "null"@,
        Some(v) => json_decode(x) == Some(v),
    }
}

/// `s` is a JSON object with the members `id`, `type`, `data` and, when
/// `with_source`, `source`, in that order, their values written `x`, `y`,
/// `d` and `z`.
pub open spec fn json_members(
    s: Seq<char>,
    x: Seq<char>,
    y: Seq<char>,
    d: Seq<char>,
    z: Seq<char>,
    with_source: bool,
) -> bool {
    s == "{\"id\":"@ + x + ",\"type\":"@ + y + ",\"data\":"@ + d + (if with_source {
        ",\"source\":"@ + z
    } else {
        Seq::empty()
    }) + "}"@
}

/// `s` is the JSON object for `e`: its id and type are the event's (null
/// when absent), its data decodes to the payload's text, and it carries the
/// source protocol (null when absent) exactly when `include_metadata`.
pub open spec fn is_event_json_object(s: Seq<char>, e: BridgeEventView, include_metadata: bool) -> bool {
    exists|x: Seq<char>, y: Seq<char>, d: Seq<char>, z: Seq<char>|
        #[trigger] json_members(s, x, y, d, z, include_metadata) && json_value_for(x, e.id)
            && json_value_for(y, e.event_type) && json_decode(d) == Some(decoded(e.payload)) && (
        include_metadata ==> json_value_for(z, e.metadata.source_protocol))
}

proof fn lemma_json_opt_value(o: Option<Seq<char>>)
    ensures
        json_value_for(json_opt(o), o),
{
    if let Some(v) = o {
        lemma_json_string_decodes(v);
    }
}

/// The JSON message for an event is a JSON object whose members give back
/// the event: a missing id, type or source is `null`, a present one decodes
/// to its text, and the data decodes to the payload's text; the source is
/// there exactly when metadata is asked for.
pub proof fn lemma_event_json_object(e: BridgeEventView, include_metadata: bool)
    ensures
        is_event_json_object(event_json(e, include_metadata), e, include_metadata),
{
    let x = json_opt(e.id);
    let y = json_opt(e.event_type);
    let d = json_string(decoded(e.payload));
    let z = json_opt(e.metadata.source_protocol);
    lemma_json_opt_value(e.id);
    lemma_json_opt_value(e.event_type);
    lemma_json_opt_value(e.metadata.source_protocol);
    lemma_json_string_decodes(decoded(e.payload));
    assert(json_members(event_json(e, include_metadata), x, y, d, z, include_metadata));
}

fn push_json_opt(out: &mut String, o: &Option<String>)
    ensures
        final(out)@ == old(out)@ + json_opt(opt_chars(*o)),
{
    match o {
        Some(s) => {
            push_json_string(out, s.as_str());
        },
        None => {
            push_literal(out, "null");
        },
    }
}

/// The JSON object for an event (see [`event_json`]).
pub fn format_event_json(event: &BridgeEvent, include_metadata: bool) -> (s: String)
    ensures
        s@ == event_json(event@, include_metadata),
        is_event_json_object(s@, event@, include_metadata),
{
    proof {
        lemma_event_json_object(event@, include_metadata);
    }
    let mut s = String::new();
    push_literal(&mut s, "{\"id\":");
    push_json_opt(&mut s, &event.id);
    push_literal(&mut s, ",\"type\":");
    push_json_opt(&mut s, &event.event_type);
    push_literal(&mut s, ",\"data\":");
    let data = event.payload_str();
    push_json_string(&mut s, data.as_str());
    let ghost before = s@;
    if include_metadata {
        push_literal(&mut s, ",\"source\":");
        push_json_opt(&mut s, &event.metadata.source_protocol);
    }
    push_literal(&mut s, "}");
    assert(s@ =~= event_json(event@, include_metadata));
    s
}

/// The message a WebSocket sink sends for an event: the payload decoded as
/// UTF-8 for `Text`, the raw payload for `Binary`, and the JSON object of
/// [`event_json`] for `Json`.
pub fn format_message(config: &WebSocketSinkConfig, event: &BridgeEvent) -> (m: WsPayload)
    ensures
        match config.format {
            WebSocketFormat::Text => m matches WsPayload::Text(s) && s@ == decoded(event@.payload),
            WebSocketFormat::Binary => m matches WsPayload::Binary(v) && v@ == event@.payload,
            WebSocketFormat::Json => m matches WsPayload::Text(s) && s@ == event_json(
                event@,
                config.include_metadata,
            ) && is_event_json_object(s@, event@, config.include_metadata),
        },
{
    match config.format {
        WebSocketFormat::Text => WsPayload::Text(event.payload_str()),
        WebSocketFormat::Binary => {
            let mut v: Vec<u8> = Vec::new();
            v.extend_from_slice(bytes_as_slice(&event.payload));
            assert(v@ =~= event@.payload);
            WsPayload::Binary(v)
        },
        WebSocketFormat::Json => WsPayload::Text(format_event_json(event, config.include_metadata)),
    }
}

// ---------------------------------------------------------------------------
// gRPC sink
// ---------------------------------------------------------------------------

/// Configuration of a gRPC sink.
#[derive(Debug, Clone)]
pub struct GrpcSinkConfig {
    /// The gRPC server address.
    pub address: String,
    /// The buffer size.
    pub buffer_size: usize,
}

impl GrpcSinkConfig {
    /// A configuration for `address` with a buffer of 16.
    pub fn new(address: &str) -> (c: Self)
        ensures
            c.address@ == address@,
            c.buffer_size == 16,
    {
        GrpcSinkConfig { address: String::from_str(address), buffer_size: 16 }
    }

    /// Sets the buffer size.
    pub fn buffer_size(self, size: usize) -> (c: Self)
        ensures
            c.address == self.address,
            c.buffer_size == size,
    {
        let mut c = self;
        c.buffer_size = size;
        c
    }
}

/// A gRPC sink that only holds its configuration: sending reports that a
/// channel sink with a user-managed connection is needed.
pub struct GrpcSink {
    config: GrpcSinkConfig,
    closed: AtomicBool,
}

/// What a [`GrpcSink`] answers to a send when open.
pub open spec fn grpc_sink_unsupported() -> Seq<char> {
    "GrpcSink 是一个占位实现。请使用 GrpcChannelSink 并自行管理 gRPC 连接，或者实现自定义的 EventSink。"@
}

/// The answer of a [`GrpcSink`] to a send: `Closed` once closed, and
/// otherwise a send error that points to the channel sink.
pub fn grpc_sink_send_result(closed: bool) -> (r: Result<(), SinkError>)
    ensures
        closed ==> r matches Err(SinkError::Closed),
        !closed ==> (r matches Err(SinkError::Send(m)) && m@ == grpc_sink_unsupported()),
{
    if closed {
        Err(SinkError::Closed)
    } else {
        Err(SinkError::Send(String::from_str("GrpcSink 是一个占位实现。请使用 GrpcChannelSink 并自行管理 gRPC 连接，或者实现自定义的 EventSink。")))
    }
}

impl GrpcSink {
    /// An open sink with the given configuration.
    pub fn new(config: GrpcSinkConfig) -> (s: Self)
        ensures
            s.configuration() == config,
    {
        GrpcSink { config, closed: AtomicBool::new(false) }
    }

    /// The configuration, in specifications.
    pub closed spec fn configuration(&self) -> GrpcSinkConfig {
        self.config
    }

    /// The configuration.
    pub fn config(&self) -> (c: &GrpcSinkConfig)
        ensures
            *c == self.configuration(),
    {
        &self.config
    }

    /// Whether the sink has been closed. The flag is shared between tasks,
    /// so nothing is stated of the value read.
    pub fn is_closed(&self) -> bool {
        self.closed.load(Ordering::SeqCst)
    }

    /// Marks the sink closed.
    pub fn mark_closed(&self) {
        self.closed.store(true, Ordering::SeqCst);
    }

    /// The answer to a send, by the closed flag read now (see
    /// [`grpc_sink_send_result`]).
    pub fn send_result(&self) -> (r: Result<(), SinkError>)
        ensures
            r matches Err(SinkError::Closed) || (r matches Err(SinkError::Send(m)) && m@
                == grpc_sink_unsupported()),
    {
        let closed = self.is_closed();
        grpc_sink_send_result(closed)
    }
}

} // verus!
