//! The event format shared by all protocols of a bridge.

use vstd::prelude::*;
use vstd::string::*;

use bytes::Bytes;
use std::time::SystemTime;

use crate::event::{opt_chars, EventView, SseEvent};
use crate::text::{decode_utf8_lossy, decoded};

verus! {

// ---------------------------------------------------------------------------
// Outside types and calls
// ---------------------------------------------------------------------------

/// `bytes::Bytes`, the payload buffer of a bridged event; its contents are
/// named by [`bytes_contents`].
#[verifier::external_type_specification]
#[verifier::external_body]
pub struct ExBytes(Bytes);

/// `std::time::SystemTime`, the timestamp of event metadata; carried, never
/// read.
#[verifier::external_type_specification]
#[verifier::external_body]
pub struct ExSystemTime(SystemTime);

/// The bytes that a `bytes::Bytes` holds.
pub uninterp spec fn bytes_contents(b: Bytes) -> Seq<u8>;

/// `Bytes::from(Vec<u8>)`: takes over the vector; the buffer holds its bytes.
#[verifier::external_body]
pub(crate) fn bytes_from_vec(v: Vec<u8>) -> (b: Bytes)
    ensures
        bytes_contents(b) == v@,
{
    Bytes::from(v)
}

/// `Bytes::from(String)`: the buffer holds the UTF-8 encoding of the string
/// (the crate converts it with `String::into_bytes`).
#[verifier::external_body]
pub(crate) fn bytes_from_string(s: String) -> (b: Bytes)
    ensures
        bytes_contents(b) == vstd::utf8::encode_utf8(s@),
{
    Bytes::from(s)
}

/// `Bytes::clone`: a second handle on the same bytes.
pub assume_specification[ <Bytes as Clone>::clone ](b: &Bytes) -> (c: Bytes)
    ensures
        bytes_contents(c) == bytes_contents(*b),
;

/// `<Bytes as AsRef<[u8]>>::as_ref`: the bytes as a slice.
#[verifier::external_body]
pub(crate) fn bytes_as_slice(b: &Bytes) -> (s: &[u8])
    ensures
        s@ == bytes_contents(*b),
{
    b.as_ref()
}

/// `SystemTime::now`: the current time of the system clock. Nothing is
/// stated of the value, which depends on the moment of the call.
#[verifier::external_body]
pub(crate) fn system_time_now() -> SystemTime {
    SystemTime::now()
}

// ---------------------------------------------------------------------------
// Metadata
// ---------------------------------------------------------------------------

/// The custom key/value pairs of a metadata record as a map: a later pair
/// overrides an earlier one with the same key.
pub open spec fn pairs_map(pairs: Seq<(String, String)>) -> Map<Seq<char>, Seq<char>>
    decreases pairs.len(),
{
    if pairs.len() == 0 {
        Map::empty()
    } else {
        pairs_map(pairs.drop_last()).insert(pairs.last().0@, pairs.last().1@)
    }
}

/// Metadata attached to a bridged event.
#[derive(Debug, Clone)]
pub struct EventMetadata {
    /// When the event was received or created.
    pub timestamp: Option<SystemTime>,
    /// The protocol the event came from ("sse", "websocket", "grpc").
    pub source_protocol: Option<String>,
    /// Custom key/value pairs; see [`EventMetadata::custom_map`].
    pub custom: Vec<(String, String)>,
}

/// The mathematical value of an [`EventMetadata`].
pub struct MetadataView {
    pub has_timestamp: bool,
    pub source_protocol: Option<Seq<char>>,
    pub custom: Map<Seq<char>, Seq<char>>,
}

impl View for EventMetadata {
    type V = MetadataView;

    open spec fn view(&self) -> MetadataView {
        MetadataView {
            has_timestamp: self.timestamp is Some,
            source_protocol: opt_chars(self.source_protocol),
            custom: pairs_map(self.custom@),
        }
    }
}

impl Default for EventMetadata {
    fn default() -> (m: Self)
        ensures
            m@ == (MetadataView { has_timestamp: false, source_protocol: None, custom: Map::empty() }),
    {
        EventMetadata { timestamp: None, source_protocol: None, custom: Vec::new() }
    }
}

/// The pairs whose key is not `k`.
pub open spec fn key_differs(k: Seq<char>) -> spec_fn((String, String)) -> bool {
    |p: (String, String)| p.0@ != k
}

/// Removing every pair with key `k` removes `k` from the map.
proof fn lemma_pairs_without_key(pairs: Seq<(String, String)>, kept: Seq<(String, String)>, k: Seq<char>)
    requires
        kept == pairs.filter(key_differs(k)),
    ensures
        pairs_map(kept) == pairs_map(pairs).remove(k),
    decreases pairs.len(),
{
    reveal(Seq::filter);
    if pairs.len() == 0 {
        assert(pairs_map(kept) =~= pairs_map(pairs).remove(k));
    } else {
        let rest = pairs.drop_last().filter(key_differs(k));
        lemma_pairs_without_key(pairs.drop_last(), rest, k);
        if pairs.last().0@ != k {
            assert(kept == rest.push(pairs.last()));
            assert(kept.drop_last() =~= rest);
        } else {
            assert(kept == rest);
        }
        assert(pairs_map(kept) =~= pairs_map(pairs).remove(k));
    }
}

impl EventMetadata {
    /// The custom pairs as a map.
    pub open spec fn custom_map(&self) -> Map<Seq<char>, Seq<char>> {
        pairs_map(self.custom@)
    }

    /// Metadata stamped with the current time.
    pub fn now() -> (m: Self)
        ensures
            m@ == (MetadataView { has_timestamp: true, source_protocol: None, custom: Map::empty() }),
    {
        EventMetadata {
            timestamp: Some(system_time_now()),
            source_protocol: None,
            custom: Vec::new(),
        }
    }

    /// Sets the source protocol.
    pub fn with_source(self, protocol: &str) -> (m: Self)
        ensures
            m@ == (MetadataView { source_protocol: Some(protocol@), ..self@ }),
            m.timestamp == self.timestamp,
    {
        let mut m = self;
        m.source_protocol = Some(String::from_str(protocol));
        m
    }

    /// Adds a custom pair; a pair with the same key is replaced.
    pub fn with_custom(self, key: &str, value: &str) -> (m: Self)
        ensures
            m@ == (MetadataView { custom: self@.custom.insert(key@, value@), ..self@ }),
            m.timestamp == self.timestamp,
    {
        let k = String::from_str(key);
        let ghost pred = key_differs(key@);
        let mut kept: Vec<(String, String)> = Vec::new();
        let mut m = self;
        let ghost old_custom = m.custom@;
        let n = m.custom.len();
        let mut i: usize = 0;
        while i < n
            invariant
                n == m.custom@.len(),
                old_custom == m.custom@,
                i <= n,
                k@ == key@,
                pred == key_differs(key@),
                kept@ == old_custom.take(i as int).filter(pred),
            decreases n - i,
        {
            let ghost x = old_custom[i as int];
            proof {
                assert(old_custom.take(i + 1) =~= old_custom.take(i as int).push(x));
                old_custom.take(i as int).lemma_filter_push(x, pred);
            }
            if !(m.custom[i].0 == k) {
                let p = (m.custom[i].0.clone(), m.custom[i].1.clone());
                assert(p.0@ == old_custom[i as int].0@);
                assert(p == old_custom[i as int]);
                kept.push(p);
            }
            i += 1;
        }
        assert(old_custom.take(n as int) =~= old_custom);
        proof {
            lemma_pairs_without_key(old_custom, kept@, key@);
        }
        let ghost before = kept@;
        kept.push((k, String::from_str(value)));
        assert(kept@.drop_last() =~= before);
        m.custom = kept;
        assert(m@.custom =~= pairs_map(old_custom).insert(key@, value@));
        m
    }
}

// ---------------------------------------------------------------------------
// Bridged events
// ---------------------------------------------------------------------------

/// An event in the form that a bridge carries between protocols.
#[derive(Debug, Clone)]
pub struct BridgeEvent {
    /// Optional event id (the `id` field of an event stream).
    pub id: Option<String>,
    /// Optional event type (the `event` field of an event stream).
    pub event_type: Option<String>,
    /// The payload bytes.
    pub payload: Bytes,
    /// Metadata.
    pub metadata: EventMetadata,
}

/// The mathematical value of a [`BridgeEvent`].
pub struct BridgeEventView {
    pub id: Option<Seq<char>>,
    pub event_type: Option<Seq<char>>,
    pub payload: Seq<u8>,
    pub metadata: MetadataView,
}

impl View for BridgeEvent {
    type V = BridgeEventView;

    open spec fn view(&self) -> BridgeEventView {
        BridgeEventView {
            id: opt_chars(self.id),
            event_type: opt_chars(self.event_type),
            payload: bytes_contents(self.payload),
            metadata: self.metadata@,
        }
    }
}

/// The bridged form of a server-sent event: its id and type, its data as
/// UTF-8 bytes, and metadata stamped with a time and marked "sse".
pub open spec fn sse_to_bridge(e: EventView) -> BridgeEventView {
    BridgeEventView {
        id: e.id,
        event_type: e.event,
        payload: vstd::utf8::encode_utf8(e.data),
        metadata: MetadataView {
            has_timestamp: true,
            source_protocol: Some(seq!['s', 's', 'e']),
            custom: Map::empty(),
        },
    }
}

/// The server-sent event for a bridged event: its id and type, its payload
/// decoded as UTF-8 as data, and no reconnection time.
pub open spec fn bridge_to_sse(e: BridgeEventView) -> EventView {
    EventView { id: e.id, event: e.event_type, data: decoded(e.payload), retry: None }
}

/// Bridging a server-sent event and converting it back keeps its id, type
/// and data; only the reconnection time, which bridged events do not carry,
/// is dropped.
pub proof fn lemma_bridge_round_trip(e: EventView)
    ensures
        bridge_to_sse(sse_to_bridge(e)) == (EventView { retry: None, ..e }),
{
    vstd::utf8::encode_utf8_valid_utf8(e.data);
    vstd::utf8::encode_utf8_decode_utf8(e.data);
}

impl BridgeEvent {
    /// An event with the given payload, no id or type, and metadata stamped
    /// with the current time.
    pub fn new(payload: Bytes) -> (e: Self)
        ensures
            e@ == (BridgeEventView {
                id: None,
                event_type: None,
                payload: bytes_contents(payload),
                metadata: MetadataView { has_timestamp: true, source_protocol: None, custom: Map::empty() },
            }),
    {
        BridgeEvent { id: None, event_type: None, payload, metadata: EventMetadata::now() }
    }

    /// An event whose payload is the UTF-8 encoding of `s`.
    pub fn from_string(s: &str) -> (e: Self)
        ensures
            e@ == (BridgeEventView {
                id: None,
                event_type: None,
                payload: vstd::utf8::encode_utf8(s@),
                metadata: MetadataView { has_timestamp: true, source_protocol: None, custom: Map::empty() },
            }),
    {
        Self::new(bytes_from_string(String::from_str(s)))
    }

    /// Sets the event id.
    pub fn with_id(self, id: &str) -> (e: Self)
        ensures
            e@ == (BridgeEventView { id: Some(id@), ..self@ }),
            e.metadata == self.metadata,
            e.payload == self.payload,
    {
        let mut e = self;
        e.id = Some(String::from_str(id));
        e
    }

    /// Sets the event type.
    pub fn with_event_type(self, event_type: &str) -> (e: Self)
        ensures
            e@ == (BridgeEventView { event_type: Some(event_type@), ..self@ }),
            e.metadata == self.metadata,
            e.payload == self.payload,
    {
        let mut e = self;
        e.event_type = Some(String::from_str(event_type));
        e
    }

    /// Replaces the metadata.
    pub fn with_metadata(self, metadata: EventMetadata) -> (e: Self)
        ensures
            e@ == (BridgeEventView { metadata: metadata@, ..self@ }),
            e.metadata == metadata,
    {
        let mut e = self;
        e.metadata = metadata;
        e
    }

    /// The payload decoded as UTF-8, invalid sequences replaced.
    pub fn payload_str(&self) -> (s: String)
        ensures
            s@ == decoded(self@.payload),
    {
        let bytes = bytes_as_slice(&self.payload);
        assert(bytes@.subrange(0, bytes@.len() as int) =~= bytes@);
        decode_utf8_lossy(bytes, 0, bytes.len())
    }

    /// The bridged form of a server-sent event: its id, type and data (as
    /// UTF-8), with metadata stamped now and marked as coming from "sse".
    pub fn from_sse_event(sse: SseEvent) -> (e: Self)
        ensures
            e@ == sse_to_bridge(sse@),
    {
        proof {
            reveal_strlit("sse");
        }
        assert("sse"@ =~= seq!['s', 's', 'e']);
        let metadata = EventMetadata::now().with_source("sse");
        BridgeEvent { id: sse.id, event_type: sse.event, payload: bytes_from_string(sse.data), metadata }
    }

    /// The server-sent event for this event: its id and type, and its
    /// payload decoded as UTF-8 as data; no reconnection time.
    pub fn to_sse_event(&self) -> (e: SseEvent)
        ensures
            e@ == bridge_to_sse(self@),
    {
        SseEvent {
            id: clone_opt(&self.id),
            event: clone_opt(&self.event_type),
            data: self.payload_str(),
            retry: None,
        }
    }
}

/// A copy of an optional string.
pub fn clone_opt(s: &Option<String>) -> (r: Option<String>)
    ensures
        opt_chars(r) == opt_chars(*s),
{
    match s {
        Some(v) => Some(v.clone()),
        None => None,
    }
}

impl vstd::std_specs::convert::FromSpecImpl<SseEvent> for BridgeEvent {
    open spec fn obeys_from_spec() -> bool {
        false
    }

    open spec fn from_spec(v: SseEvent) -> BridgeEvent {
        arbitrary()
    }
}

impl From<SseEvent> for BridgeEvent {
    /// See [`BridgeEvent::from_sse_event`].
    fn from(sse: SseEvent) -> (e: Self)
        ensures
            e@ == sse_to_bridge(sse@),
    {
        BridgeEvent::from_sse_event(sse)
    }
}

impl vstd::std_specs::convert::FromSpecImpl<BridgeEvent> for SseEvent {
    open spec fn obeys_from_spec() -> bool {
        false
    }

    open spec fn from_spec(v: BridgeEvent) -> SseEvent {
        arbitrary()
    }
}

impl From<BridgeEvent> for SseEvent {
    /// See [`BridgeEvent::to_sse_event`].
    fn from(bridge: BridgeEvent) -> (e: Self)
        ensures
            e@ == bridge_to_sse(bridge@),
    {
        bridge.to_sse_event()
    }
}

} // verus!
