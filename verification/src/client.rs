//! The decisions of the SSE client between network operations: whether to
//! reconnect, which event id to resume after, and whether a response is an
//! event stream.

use vstd::prelude::*;

use crate::error::SseError;
use crate::event::{opt_chars, SseEvent};
use crate::text::chars_of;

verus! {

/// `reqwest::Url` (the `url` crate's `Url`): a parsed URL.
#[verifier::external_type_specification]
#[verifier::external_body]
pub struct ExUrl(reqwest::Url);

/// `reqwest::header::HeaderValue` (the `http` crate's): a header value.
#[verifier::external_type_specification]
#[verifier::external_body]
pub struct ExHeaderValue(reqwest::header::HeaderValue);

/// What the `url` crate's parser (`<Url as FromStr>::from_str`, which is
/// `Url::parse`) gives for `s`: the parsed URL, or the message of the parse
/// error (its `Display` text). It depends on the text alone.
pub uninterp spec fn url_parse(s: Seq<char>) -> Result<reqwest::Url, Seq<char>>;

/// Parses `s` with the `url` crate (`str::parse::<reqwest::Url>`). Claimed:
/// the result is the parser's, the error carried as its message; it is a
/// function of the text alone. What the parsed URL holds is not stated.
#[verifier::external_body]
fn parse_url(s: &str) -> (r: Result<reqwest::Url, String>)
    ensures
        match r {
            Ok(u) => url_parse(s@) == Ok::<reqwest::Url, Seq<char>>(u),
            Err(m) => url_parse(s@) == Err::<reqwest::Url, Seq<char>>(m@),
        },
{
    match s.parse::<reqwest::Url>() {
        Ok(u) => Ok(u),
        Err(e) => Err(e.to_string()),
    }
}

/// The URL of a request: the URL parsed from `url`, or the error `Url`
/// with the parser's message when it does not parse.
pub fn request_url(url: &str) -> (r: Result<reqwest::Url, SseError>)
    ensures
        match r {
            Ok(u) => url_parse(url@) == Ok::<reqwest::Url, Seq<char>>(u),
            Err(e) => e matches SseError::Url(m) && url_parse(url@) == Err::<reqwest::Url, Seq<char>>(
                m@,
            ),
        },
{
    match parse_url(url) {
        Ok(u) => Ok(u),
        Err(m) => Err(SseError::Url(m)),
    }
}

/// Whether `s` can be sent as an HTTP header value: every character is a
/// tab, or at U+0020 or above and not DEL (U+007F). Characters beyond ASCII
/// are allowed: their UTF-8 bytes are all 0x80 or above.
pub open spec fn is_header_text(s: Seq<char>) -> bool {
    forall|i: int|
        0 <= i < s.len() ==> s[i] == '\t' || ((s[i] as u32) >= 0x20 && (s[i] as u32) != 0x7f)
}

/// What `HeaderValue::from_str` (the `http` crate) gives for `s`: the header
/// value, or nothing when `s` is refused. It depends on the text alone.
pub uninterp spec fn header_from_str(s: Seq<char>) -> Option<reqwest::header::HeaderValue>;

/// Makes a header value of `s` with `HeaderValue::from_str`. Claimed: the
/// result is `from_str`'s, and it succeeds exactly on [`is_header_text`]:
/// `from_str` accepts exactly the strings whose bytes are each a tab, or 32
/// or above and not 127. What the value holds is not stated.
#[verifier::external_body]
fn header_value(s: &str) -> (r: Option<reqwest::header::HeaderValue>)
    ensures
        r == header_from_str(s@),
        r is Some <==> is_header_text(s@),
{
    reqwest::header::HeaderValue::from_str(s).ok()
}

/// The `Last-Event-ID` header value for `id`, or the error
/// `InvalidHeaderValue` when `id` cannot be sent as a header value.
pub fn last_event_id_header(id: &str) -> (r: Result<reqwest::header::HeaderValue, SseError>)
    ensures
        r is Ok <==> is_header_text(id@),
        r matches Ok(v) ==> header_from_str(id@) == Some(v),
        r matches Err(e) ==> e is InvalidHeaderValue,
{
    match header_value(id) {
        Some(v) => Ok(v),
        None => Err(SseError::InvalidHeaderValue),
    }
}

/// Whether a stream that has reconnected `retries` times stops instead of
/// reconnecting again: only when a maximum is set and exceeded.
pub open spec fn exceeds_max_retries(retries: nat, max_retries: Option<usize>) -> bool {
    match max_retries {
        Some(max) => retries > max,
        None => false,
    }
}

/// With no maximum a stream never stops reconnecting; with a maximum it
/// stops exactly once the reconnections made exceed it.
pub proof fn lemma_retry_limit(retries: nat, max_retries: Option<usize>)
    ensures
        max_retries is None ==> !exceeds_max_retries(retries, max_retries),
        max_retries matches Some(m) ==> (exceeds_max_retries(retries, max_retries) <==> retries > m),
{
}

/// See [`exceeds_max_retries`].
pub fn should_stop(retries: usize, max_retries: Option<usize>) -> (r: bool)
    ensures
        r == exceeds_max_retries(retries as nat, max_retries),
        max_retries is None ==> !r,
        max_retries matches Some(m) ==> (r <==> retries > m),
{
    proof {
        lemma_retry_limit(retries as nat, max_retries);
    }
    match max_retries {
        Some(max) => retries > max,
        None => false,
    }
}

/// The event id to send as `Last-Event-ID` after receiving `id_field`: an
/// event with an id replaces it (an empty id clears it); an event without
/// one keeps it.
pub open spec fn next_last_event_id(last: Option<Seq<char>>, id_field: Option<Seq<char>>) -> Option<Seq<char>> {
    match id_field {
        Some(id) => if id.len() == 0 {
            None
        } else {
            Some(id)
        },
        None => last,
    }
}

/// Updates the event id to resume after, for a received event.
pub fn update_last_event_id(last: &mut Option<String>, event: &SseEvent)
    ensures
        opt_chars(*final(last)) == next_last_event_id(opt_chars(*old(last)), event@.id),
{
    if let Some(id) = &event.id {
        if id.as_str().is_empty() {
            *last = None;
        } else {
            *last = Some(id.clone());
        }
    }
}

/// The media type of an event stream.
pub open spec fn event_stream_type() -> Seq<char> {
    "text/event-stream"@
}

/// Whether a response's content type is an event stream: it is present and
/// starts with `text/event-stream` (parameters may follow).
pub open spec fn is_event_stream(content_type: Option<Seq<char>>) -> bool {
    match content_type {
        Some(ct) => ct.len() >= event_stream_type().len() && ct.take(
            event_stream_type().len() as int,
        ) == event_stream_type(),
        None => false,
    }
}

/// Accepts a response whose content type is an event stream (see
/// [`is_event_stream`]); any other is the error `InvalidContentType`, which
/// carries the content type seen.
pub fn check_content_type(content_type: Option<String>) -> (r: Result<(), SseError>)
    ensures
        r is Ok <==> is_event_stream(opt_chars(content_type)),
        r matches Err(e) ==> (e matches SseError::InvalidContentType(ct) && opt_chars(ct) == opt_chars(
            content_type,
        )),
{
    if is_event_stream_type(&content_type) {
        Ok(())
    } else {
        Err(SseError::InvalidContentType(content_type))
    }
}

fn is_event_stream_type(content_type: &Option<String>) -> (r: bool)
    ensures
        r == is_event_stream(opt_chars(*content_type)),
{
    match content_type {
        None => false,
        Some(ct) => {
            let expected = chars_of("text/event-stream");
            let got = chars_of(ct.as_str());
            assert(expected@ == event_stream_type());
            assert(opt_chars(*content_type) == Some(got@));
            if got.len() < expected.len() {
                return false;
            }
            let mut i: usize = 0;
            while i < expected.len()
                invariant
                    i <= expected@.len() <= got@.len(),
                    expected@ == event_stream_type(),
                    got@ == ct@,
                    opt_chars(*content_type) == Some(got@),
                    forall|j: int| 0 <= j < i ==> got@[j] == expected@[j],
                decreases expected@.len() - i,
            {
                if got[i] != expected[i] {
                    assert(got@.take(expected@.len() as int)[i as int] != expected@[i as int]);
                    return false;
                }
                i += 1;
            }
            assert(got@.take(expected@.len() as int) =~= expected@);
            true
        },
    }
}

/// Takes in a received event on the client's side: updates the event id to
/// resume after (see [`update_last_event_id`]) and returns the reconnection
/// delay in milliseconds that the event sets, if it has a `retry` field;
/// without one the delay stays as it is.
pub fn absorb_event(last: &mut Option<String>, event: &SseEvent) -> (delay_ms: Option<u64>)
    ensures
        opt_chars(*final(last)) == next_last_event_id(opt_chars(*old(last)), event@.id),
        delay_ms == event@.retry,
{
    update_last_event_id(last, event);
    event.retry
}

} // verus!
