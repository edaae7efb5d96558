//! The server-sent event type and its text form.

use vstd::prelude::*;
use vstd::string::*;

use crate::text::{chars_of, decimal, push_char, push_chars, push_decimal, push_literal};

verus! {

/// One server-sent event: the fields gathered from the lines of one message.
#[derive(Debug, Clone, PartialEq, Eq)]
pub struct SseEvent {
    pub id: Option<String>,
    pub event: Option<String>,
    pub data: String,
    pub retry: Option<u64>,
}

/// The mathematical value of an [`SseEvent`].
pub struct EventView {
    pub id: Option<Seq<char>>,
    pub event: Option<Seq<char>>,
    pub data: Seq<char>,
    pub retry: Option<u64>,
}

impl EventView {
    /// The event with no field set and empty data.
    pub open spec fn empty() -> EventView {
        EventView { id: None, event: None, data: Seq::empty(), retry: None }
    }
}

/// The characters of an optional string.
pub open spec fn opt_chars(o: Option<String>) -> Option<Seq<char>> {
    match o {
        Some(s) => Some(s@),
        None => None,
    }
}

impl View for SseEvent {
    type V = EventView;

    open spec fn view(&self) -> EventView {
        EventView {
            id: opt_chars(self.id),
            event: opt_chars(self.event),
            data: self.data@,
            retry: self.retry,
        }
    }
}

/// The views of a sequence of events.
pub open spec fn events_view(v: Seq<SseEvent>) -> Seq<EventView> {
    v.map_values(|e: SseEvent| e@)
}

impl Default for SseEvent {
    fn default() -> (e: Self)
        ensures
            e@ == EventView::empty(),
    {
        SseEvent { id: None, event: None, data: String::new(), retry: None }
    }
}

// ---------------------------------------------------------------------------
// Text form
// ---------------------------------------------------------------------------

/// The lines of `s` as `str::lines` gives them, where `cur` is the part of the
/// current line already read: lines end at `\n`, a `\r` just before that `\n`
/// is dropped, and a final line ending is optional.
pub open spec fn lines_from(cur: Seq<char>, s: Seq<char>) -> Seq<Seq<char>>
    decreases s.len(),
{
    if s.len() == 0 {
        if cur.len() == 0 {
            Seq::empty()
        } else {
            seq![cur]
        }
    } else if s[0] == '\n' {
        seq![strip_cr(cur)] + lines_from(Seq::empty(), s.drop_first())
    } else {
        lines_from(cur.push(s[0]), s.drop_first())
    }
}

/// `line` without one trailing `\r`.
pub open spec fn strip_cr(line: Seq<char>) -> Seq<char> {
    if line.len() > 0 && line.last() == '\r' {
        line.drop_last()
    } else {
        line
    }
}

/// `str::lines`.
pub open spec fn str_lines(s: Seq<char>) -> Seq<Seq<char>> {
    lines_from(Seq::empty(), s)
}

pub open spec fn newline() -> Seq<char> {
    seq!['\n']
}

pub open spec fn id_prefix() -> Seq<char> {
    seq!['i', 'd', ':', ' ']
}

pub open spec fn event_prefix() -> Seq<char> {
    seq!['e', 'v', 'e', 'n', 't', ':', ' ']
}

pub open spec fn retry_prefix() -> Seq<char> {
    seq!['r', 'e', 't', 'r', 'y', ':', ' ']
}

pub open spec fn data_prefix() -> Seq<char> {
    seq!['d', 'a', 't', 'a', ':', ' ']
}

pub open spec fn empty_data_line() -> Seq<char> {
    seq!['d', 'a', 't', 'a', ':', '\n']
}

/// One `data: <line>` line for each of `lines`.
pub open spec fn data_lines_text(lines: Seq<Seq<char>>) -> Seq<char>
    decreases lines.len(),
{
    if lines.len() == 0 {
        Seq::empty()
    } else {
        data_lines_text(lines.drop_last()) + data_prefix() + lines.last() + newline()
    }
}

/// `prefix`, the value and a line end, or nothing when the field is unset.
pub open spec fn optional_field_text(prefix: Seq<char>, value: Option<Seq<char>>) -> Seq<char> {
    match value {
        Some(v) => prefix + v + newline(),
        None => Seq::empty(),
    }
}

/// The `retry:` line of an event, or nothing.
pub open spec fn retry_text(retry: Option<u64>) -> Seq<char> {
    match retry {
        Some(n) => retry_prefix() + decimal(n as nat) + newline(),
        None => Seq::empty(),
    }
}

/// The text form of an event: its `id`, `event` and `retry` lines when set,
/// one `data:` line per line of its data (a bare `data:` line when the data
/// is empty), and a blank line that ends the message.
pub open spec fn sse_text(e: EventView) -> Seq<char> {
    optional_field_text(id_prefix(), e.id) + optional_field_text(event_prefix(), e.event)
        + retry_text(e.retry) + data_lines_text(str_lines(e.data)) + (if e.data.len() == 0 {
        empty_data_line()
    } else {
        Seq::empty()
    }) + newline()
}

/// Non-empty text has at least one line.
proof fn lemma_lines_nonempty(cur: Seq<char>, s: Seq<char>)
    requires
        cur.len() > 0 || s.len() > 0,
    ensures
        lines_from(cur, s).len() > 0,
    decreases s.len(),
{
    if s.len() > 0 && s[0] != '\n' {
        lemma_lines_nonempty(cur.push(s[0]), s.drop_first());
    }
}

/// The text form of every event ends with a blank line, which completes the
/// message.
pub proof fn lemma_sse_text_ends_with_blank_line(e: EventView)
    ensures
        sse_text(e).len() >= 2,
        sse_text(e)[sse_text(e).len() - 1] == '\n',
        sse_text(e)[sse_text(e).len() - 2] == '\n',
{
    let lines = str_lines(e.data);
    let body = optional_field_text(id_prefix(), e.id) + optional_field_text(event_prefix(), e.event)
        + retry_text(e.retry) + data_lines_text(lines);
    if e.data.len() == 0 {
        let t = body + empty_data_line();
        assert(sse_text(e) == t + newline());
        assert(t[t.len() - 1] == '\n');
    } else {
        lemma_lines_nonempty(Seq::empty(), e.data);
        let d = data_lines_text(lines);
        assert(d == data_lines_text(lines.drop_last()) + data_prefix() + lines.last() + newline());
        assert(d[d.len() - 1] == '\n');
        let t = body + Seq::<char>::empty();
        assert(t =~= body);
        assert(body[body.len() - 1] == d[d.len() - 1]);
        assert(sse_text(e) == t + newline());
    }
}

proof fn lemma_data_lines_push(lines: Seq<Seq<char>>, l: Seq<char>)
    ensures
        data_lines_text(lines.push(l)) == data_lines_text(lines) + data_prefix() + l + newline(),
{
    assert(lines.push(l).drop_last() =~= lines);
}

/// Appends the `data:` lines of `data` to `out`.
fn push_data_lines(out: &mut String, data: &String)
    ensures
        final(out)@ == old(out)@ + data_lines_text(str_lines(data@)),
{
    let cs = chars_of(data.as_str());
    let ghost s = cs@;
    let ghost mut done: Seq<Seq<char>> = Seq::empty();
    let mut line_start: usize = 0;
    let mut i: usize = 0;
    assert(s.skip(0) =~= s);
    assert(s.subrange(0, 0) =~= Seq::<char>::empty());
    while i < cs.len()
        invariant
            s == cs@,
            s == data@,
            line_start <= i <= s.len(),
            str_lines(s) == done + lines_from(s.subrange(line_start as int, i as int), s.skip(
                i as int,
            )),
            out@ == old(out)@ + data_lines_text(done),
        decreases s.len() - i,
    {
        let ghost cur = s.subrange(line_start as int, i as int);
        assert(s.skip(i as int).drop_first() =~= s.skip(i + 1));
        assert(s.skip(i as int)[0] == s[i as int]);
        if cs[i] == '\n' {
            let mut end = i;
            if end > line_start && cs[end - 1] == '\r' {
                end = end - 1;
            }
            assert(s.subrange(line_start as int, end as int) == strip_cr(cur));
            proof { reveal_strlit("data: "); }
            push_literal(out, "data: ");
            push_chars(out, &cs, line_start, end);
            push_char(out, '\n');
            proof {
                lemma_data_lines_push(done, strip_cr(cur));
                assert(done + (seq![strip_cr(cur)] + lines_from(Seq::empty(), s.skip(i + 1))) =~= done.push(strip_cr(cur)) + lines_from(Seq::empty(), s.skip(i + 1)));
                done = done.push(strip_cr(cur));
                assert(s.subrange(i + 1, i + 1) =~= Seq::<char>::empty());
            }
            line_start = i + 1;
        } else {
            assert(cur.push(s[i as int]) =~= s.subrange(line_start as int, i + 1));
        }
        i += 1;
    }
    let ghost cur = s.subrange(line_start as int, i as int);
    if line_start < i {
        proof { reveal_strlit("data: "); }
        push_literal(out, "data: ");
        push_chars(out, &cs, line_start, i);
        push_char(out, '\n');
        proof {
            lemma_data_lines_push(done, cur);
            assert(done + seq![cur] =~= done.push(cur));
        }
    } else {
        assert(done + Seq::<Seq<char>>::empty() =~= done);
    }
}

impl SseEvent {
    /// An event with the given data and no other field set.
    pub fn new(data: &str) -> (e: Self)
        ensures
            e@ == (EventView { data: data@, ..EventView::empty() }),
    {
        SseEvent { id: None, event: None, data: String::from_str(data), retry: None }
    }

    /// Sets the event type.
    pub fn with_event(self, event: &str) -> (e: Self)
        ensures
            e@ == (EventView { event: Some(event@), ..self@ }),
    {
        let mut s = self;
        s.event = Some(String::from_str(event));
        s
    }

    /// Sets the event id.
    pub fn with_id(self, id: &str) -> (e: Self)
        ensures
            e@ == (EventView { id: Some(id@), ..self@ }),
    {
        let mut s = self;
        s.id = Some(String::from_str(id));
        s
    }

    /// Sets the reconnection time, in milliseconds.
    pub fn with_retry(self, retry_ms: u64) -> (e: Self)
        ensures
            e@ == (EventView { retry: Some(retry_ms), ..self@ }),
    {
        let mut s = self;
        s.retry = Some(retry_ms);
        s
    }

    /// The event in the text form of an event stream, ready to be sent to a
    /// client.
    pub fn to_sse_string(&self) -> (out: String)
        ensures
            out@ == sse_text(self@),
    {
        let mut output = String::new();
        proof {
            reveal_strlit("id: ");
            reveal_strlit("event: ");
            reveal_strlit("retry: ");
            reveal_strlit("data:\n");
        }
        if let Some(id) = &self.id {
            push_literal(&mut output, "id: ");
            push_literal(&mut output, id.as_str());
            push_char(&mut output, '\n');
        }
        let ghost after_id = output@;
        if let Some(event) = &self.event {
            push_literal(&mut output, "event: ");
            push_literal(&mut output, event.as_str());
            push_char(&mut output, '\n');
        }
        let ghost after_event = output@;
        if let Some(retry) = self.retry {
            push_literal(&mut output, "retry: ");
            push_decimal(&mut output, retry);
            push_char(&mut output, '\n');
        }
        let ghost after_retry = output@;
        push_data_lines(&mut output, &self.data);
        let ghost after_data = output@;
        if self.data.as_str().is_empty() {
            push_literal(&mut output, "data:\n");
        }
        push_char(&mut output, '\n');
        assert(after_id == optional_field_text(id_prefix(), self@.id));
        assert(after_event == after_id + optional_field_text(event_prefix(), self@.event));
        assert(after_retry == after_event + retry_text(self@.retry));
        assert(output@ =~= sse_text(self@));
        output
    }
}

} // verus!
