//! Incremental parser for `text/event-stream` bodies.
//!
//! Bytes arrive in chunks cut anywhere; they are split into lines at `\n`,
//! `\r` or `\r\n` (a `\r\n` may be cut between two chunks), and the lines of
//! a message are gathered into an event that a blank line completes.
//!
//! The whole behaviour is stated by [`feed`], a fold of [`step`] over the
//! bytes: pushing a chunk gives exactly the events that feeding its bytes
//! one by one would complete.

use vstd::prelude::*;

use crate::event::{events_view, EventView, SseEvent};
use crate::text::{decode_utf8_lossy, decoded, parse_trimmed_u64, parse_u64, push_char, trim};

verus! {

pub open spec fn lf() -> u8 {
    10u8
}

pub open spec fn cr() -> u8 {
    13u8
}

pub open spec fn colon() -> u8 {
    58u8
}

pub open spec fn space() -> u8 {
    32u8
}

/// The field name `data`.
pub open spec fn data_field() -> Seq<u8> {
    seq![100u8, 97u8, 116u8, 97u8]
}

/// The field name `event`.
pub open spec fn event_field() -> Seq<u8> {
    seq![101u8, 118u8, 101u8, 110u8, 116u8]
}

/// The field name `id`.
pub open spec fn id_field() -> Seq<u8> {
    seq![105u8, 100u8]
}

/// The field name `retry`.
pub open spec fn retry_field() -> Seq<u8> {
    seq![114u8, 101u8, 116u8, 114u8, 121u8]
}

/// `i` is the position of the first `:` of `line`.
pub open spec fn is_first_colon(line: Seq<u8>, i: int) -> bool {
    &&& 0 <= i < line.len()
    &&& line[i] == colon()
    &&& forall|j: int| 0 <= j < i ==> line[j] != colon()
}

pub open spec fn has_colon(line: Seq<u8>) -> bool {
    exists|i: int| #[trigger] is_first_colon(line, i)
}

pub open spec fn first_colon(line: Seq<u8>) -> int {
    choose|i: int| #[trigger] is_first_colon(line, i)
}

/// The field name of a line: what precedes its first `:`, or the whole line.
pub open spec fn field_of(line: Seq<u8>) -> Seq<u8> {
    if has_colon(line) {
        line.take(first_colon(line))
    } else {
        line
    }
}

/// The value of a line: what follows its first `:` and one optional space;
/// empty when the line has no `:`.
pub open spec fn value_of(line: Seq<u8>) -> Seq<u8> {
    if has_colon(line) {
        let i = first_colon(line);
        if i + 1 < line.len() && line[i + 1] == space() {
            line.skip(i + 2)
        } else {
            line.skip(i + 1)
        }
    } else {
        Seq::empty()
    }
}

/// The event being gathered after one `field: value` line.
///
/// `data` values are joined with `\n`; `event` and `id` are replaced (an
/// empty `id` is kept, as it clears the last event id); `retry` is taken only
/// when its trimmed value is a decimal `u64`; other fields are ignored.
pub open spec fn apply_field(cur: EventView, field: Seq<u8>, value: Seq<u8>) -> EventView {
    let v = decoded(value);
    if field == data_field() {
        EventView {
            data: if cur.data.len() == 0 {
                v
            } else {
                cur.data.push('\n') + v
            },
            ..cur
        }
    } else if field == event_field() {
        EventView { event: Some(v), ..cur }
    } else if field == id_field() {
        EventView { id: Some(v), ..cur }
    } else if field == retry_field() {
        match parse_u64(trim(v)) {
            Some(n) => EventView { retry: Some(n), ..cur },
            None => cur,
        }
    } else {
        cur
    }
}

/// One complete line applied to the event being gathered: a blank line
/// completes the event (returned) and starts an empty one; a line starting
/// with `:` is a comment.
pub open spec fn apply_line(cur: EventView, line: Seq<u8>) -> (EventView, Seq<EventView>) {
    if line.len() == 0 {
        (EventView::empty(), seq![cur])
    } else if line[0] == colon() {
        (cur, Seq::empty())
    } else {
        (apply_field(cur, field_of(line), value_of(line)), Seq::empty())
    }
}

/// The state of a parser between chunks.
pub struct ParserView {
    /// The bytes of the line not yet ended.
    pub pending: Seq<u8>,
    /// The last byte ended a line with `\r`, so a `\n` right after it is
    /// part of that line end.
    pub after_cr: bool,
    /// The event being gathered.
    pub cur: EventView,
}

impl ParserView {
    /// The state of a fresh parser.
    pub open spec fn initial() -> ParserView {
        ParserView { pending: Seq::empty(), after_cr: false, cur: EventView::empty() }
    }

    /// A line end with `\r` leaves no pending byte.
    pub open spec fn wf(self) -> bool {
        self.after_cr ==> self.pending.len() == 0
    }
}

/// The state after one more byte, and the events that byte completes.
pub open spec fn step(st: ParserView, b: u8) -> (ParserView, Seq<EventView>) {
    if st.after_cr && b == lf() {
        (ParserView { after_cr: false, ..st }, Seq::empty())
    } else if b == cr() || b == lf() {
        let (cur, done) = apply_line(st.cur, st.pending);
        (ParserView { pending: Seq::empty(), after_cr: b == cr(), cur }, done)
    } else {
        (ParserView { pending: st.pending.push(b), after_cr: false, ..st }, Seq::empty())
    }
}

/// The state after `bytes`, and the events they complete, in order.
pub open spec fn feed(st: ParserView, bytes: Seq<u8>) -> (ParserView, Seq<EventView>)
    decreases bytes.len(),
{
    if bytes.len() == 0 {
        (st, Seq::empty())
    } else {
        let (s1, o1) = feed(st, bytes.drop_last());
        let (s2, o2) = step(s1, bytes.last());
        (s2, o1 + o2)
    }
}

/// The state after a sequence of chunks, and all the events they complete.
pub open spec fn feed_chunks(st: ParserView, chunks: Seq<Seq<u8>>) -> (ParserView, Seq<EventView>)
    decreases chunks.len(),
{
    if chunks.len() == 0 {
        (st, Seq::empty())
    } else {
        let (s1, o1) = feed_chunks(st, chunks.drop_last());
        let (s2, o2) = feed(s1, chunks.last());
        (s2, o1 + o2)
    }
}

/// All the bytes of a sequence of chunks.
pub open spec fn concat_chunks(chunks: Seq<Seq<u8>>) -> Seq<u8>
    decreases chunks.len(),
{
    if chunks.len() == 0 {
        Seq::empty()
    } else {
        concat_chunks(chunks.drop_last()) + chunks.last()
    }
}

/// Feeding `a + b` is feeding `a`, then `b`: the state is the same, and the
/// events are those of `a` followed by those of `b`.
pub proof fn lemma_feed_split(st: ParserView, a: Seq<u8>, b: Seq<u8>)
    ensures
        feed(st, a + b).0 == feed(feed(st, a).0, b).0,
        feed(st, a + b).1 == feed(st, a).1 + feed(feed(st, a).0, b).1,
    decreases b.len(),
{
    if b.len() == 0 {
        assert(a + b =~= a);
    } else {
        lemma_feed_split(st, a, b.drop_last());
        assert((a + b).drop_last() =~= a + b.drop_last());
        assert((a + b).last() == b.last());
        let s = feed(st, a);
        let m = feed(s.0, b.drop_last());
        let t = step(m.0, b.last());
        assert(feed(st, a + b).1 =~= s.1 + m.1 + t.1);
        assert(feed(s.0, b).1 =~= m.1 + t.1);
    }
}

/// Chunk boundaries do not matter: feeding a sequence of chunks one after
/// the other ends in the same state, with the same events in the same order,
/// as feeding all their bytes at once.
pub proof fn lemma_chunking_invariant(st: ParserView, chunks: Seq<Seq<u8>>)
    ensures
        feed_chunks(st, chunks) == feed(st, concat_chunks(chunks)),
    decreases chunks.len(),
{
    if chunks.len() > 0 {
        lemma_chunking_invariant(st, chunks.drop_last());
        lemma_feed_split(st, concat_chunks(chunks.drop_last()), chunks.last());
    }
}

/// A parser state stays well formed whatever bytes it is fed.
pub proof fn lemma_feed_wf(st: ParserView, bytes: Seq<u8>)
    requires
        st.wf(),
    ensures
        feed(st, bytes).0.wf(),
    decreases bytes.len(),
{
    if bytes.len() > 0 {
        lemma_feed_wf(st, bytes.drop_last());
    }
}

/// A line end: `\n`, `\r` or `\r\n`.
pub open spec fn is_line_end(t: Seq<u8>) -> bool {
    t == seq![lf()] || t == seq![cr()] || t == seq![cr(), lf()]
}

/// A line's own bytes: neither `\r` nor `\n`.
pub open spec fn is_bare_line(l: Seq<u8>) -> bool {
    forall|j: int| 0 <= j < l.len() ==> l[j] != cr() && l[j] != lf()
}

/// The text made of the lines `ls`, each followed by its line end in `ts`.
pub open spec fn join_lines(ls: Seq<Seq<u8>>, ts: Seq<Seq<u8>>) -> Seq<u8>
    decreases ls.len(),
{
    if ls.len() == 0 || ts.len() == 0 {
        Seq::empty()
    } else {
        join_lines(ls.drop_last(), ts.drop_last()) + ls.last() + ts.last()
    }
}

/// `ls` and `ts` spell a text line by line: as many line ends as lines,
/// every line bare, and no `\r` line end directly followed by a `\n` (an
/// empty line ended by `\n` right after a `\r`), which would make the two
/// one `\r\n`.
pub open spec fn lines_spelled(ls: Seq<Seq<u8>>, ts: Seq<Seq<u8>>) -> bool {
    &&& ls.len() == ts.len()
    &&& forall|i: int| 0 <= i < ls.len() ==> is_bare_line(#[trigger] ls[i]) && is_line_end(ts[i])
    &&& forall|i: int|
        0 < i < ls.len() ==> !(ts[i - 1] == seq![cr()] && (#[trigger] ls[i]).len() == 0 && ts[i]
            == seq![lf()])
}

/// The event being gathered after the lines `ls`, and the events they
/// complete, in order.
pub open spec fn apply_lines(cur: EventView, ls: Seq<Seq<u8>>) -> (EventView, Seq<EventView>)
    decreases ls.len(),
{
    if ls.len() == 0 {
        (cur, Seq::empty())
    } else {
        let (c1, o1) = apply_lines(cur, ls.drop_last());
        let (c2, o2) = apply_line(c1, ls.last());
        (c2, o1 + o2)
    }
}

proof fn lemma_feed_bare(st: ParserView, l: Seq<u8>)
    requires
        is_bare_line(l),
        l.len() > 0,
    ensures
        feed(st, l) == (ParserView { pending: st.pending + l, after_cr: false, cur: st.cur }, Seq::<
            EventView,
        >::empty()),
    decreases l.len(),
{
    let front = l.drop_last();
    if front.len() == 0 {
        assert(feed(st, front) == (st, Seq::<EventView>::empty()));
        assert(st.pending.push(l.last()) =~= st.pending + l);
    } else {
        lemma_feed_bare(st, front);
        assert((st.pending + front).push(l.last()) =~= st.pending + l);
    }
}

/// One line and its line end, fed from a state with no pending byte, apply
/// that line and leave no pending byte; only a `\r` end is remembered.
proof fn lemma_feed_line(st: ParserView, l: Seq<u8>, t: Seq<u8>)
    requires
        st.pending.len() == 0,
        is_bare_line(l),
        is_line_end(t),
        !(st.after_cr && l.len() == 0 && t == seq![lf()]),
    ensures
        feed(st, l + t) == (ParserView {
            pending: Seq::empty(),
            after_cr: t == seq![cr()],
            cur: apply_line(st.cur, l).0,
        }, apply_line(st.cur, l).1),
{
    lemma_feed_split(st, l, t);
    let s1 = feed(st, l).0;
    if l.len() > 0 {
        lemma_feed_bare(st, l);
        assert(st.pending + l =~= l);
    } else {
        assert(feed(st, l) == (st, Seq::<EventView>::empty()));
    }
    assert(s1.pending == l);
    assert(feed(st, l).1 =~= Seq::<EventView>::empty());
    let r = apply_line(st.cur, l);
    let first = seq![t[0]];
    assert(first.drop_last() =~= Seq::<u8>::empty());
    assert(first.last() == t[0]);
    assert(feed(s1, first.drop_last()) == (s1, Seq::<EventView>::empty()));
    assert(feed(s1, first).0 == step(s1, t[0]).0);
    assert(feed(s1, first).1 =~= step(s1, t[0]).1);
    if t.len() == 1 {
        assert(t =~= first);
        assert(!(s1.after_cr && t[0] == lf()));
        assert(step(s1, t[0]).1 =~= r.1);
    } else {
        assert(t.drop_last() =~= first);
        let s2 = step(s1, cr()).0;
        assert(step(s2, lf()).0 == (ParserView { pending: Seq::empty(), after_cr: false, cur: r.0 }));
        assert(feed(s1, t).1 =~= r.1 + Seq::<EventView>::empty());
    }
    assert(Seq::<EventView>::empty() + feed(s1, t).1 =~= r.1);
}

/// Text spelled line by line, fed from a state with no pending byte, applies
/// its lines in order and leaves no pending byte.
proof fn lemma_feed_lines(st: ParserView, ls: Seq<Seq<u8>>, ts: Seq<Seq<u8>>)
    requires
        st.pending.len() == 0,
        lines_spelled(ls, ts),
        ls.len() > 0 ==> !(st.after_cr && ls[0].len() == 0 && ts[0] == seq![lf()]),
    ensures
        feed(st, join_lines(ls, ts)).0.pending.len() == 0,
        feed(st, join_lines(ls, ts)).0.cur == apply_lines(st.cur, ls).0,
        feed(st, join_lines(ls, ts)).1 == apply_lines(st.cur, ls).1,
        feed(st, join_lines(ls, ts)).0.after_cr == (if ls.len() == 0 {
            st.after_cr
        } else {
            ts.last() == seq![cr()]
        }),
    decreases ls.len(),
{
    if ls.len() == 0 {
        assert(join_lines(ls, ts) =~= Seq::<u8>::empty());
        assert(feed(st, join_lines(ls, ts)).1 =~= apply_lines(st.cur, ls).1);
    } else {
        let ls0 = ls.drop_last();
        let ts0 = ts.drop_last();
        assert forall|i: int| 0 <= i < ls0.len() implies is_bare_line(#[trigger] ls0[i])
            && is_line_end(ts0[i]) by {
            assert(ls0[i] == ls[i] && ts0[i] == ts[i]);
        }
        assert forall|i: int| 0 < i < ls0.len() implies !(ts0[i - 1] == seq![cr()] && (
        #[trigger] ls0[i]).len() == 0 && ts0[i] == seq![lf()]) by {
            assert(ls0[i] == ls[i] && ts0[i] == ts[i] && ts0[i - 1] == ts[i - 1]);
        }
        if ls0.len() > 0 {
            assert(ls0[0] == ls[0] && ts0[0] == ts[0]);
        }
        lemma_feed_lines(st, ls0, ts0);
        let a = join_lines(ls0, ts0);
        let l = ls.last();
        let t = ts.last();
        assert(join_lines(ls, ts) =~= a + (l + t));
        lemma_feed_split(st, a, l + t);
        let m = feed(st, a).0;
        assert(is_bare_line(ls[ls.len() - 1]) && is_line_end(ts[ls.len() - 1]));
        if ls0.len() > 0 {
            assert(!(ts[ls.len() - 2] == seq![cr()] && ls[ls.len() - 1].len() == 0 && ts[ls.len()
                - 1] == seq![lf()]));
            assert(ts0.last() == ts[ls.len() - 2]);
        }
        lemma_feed_line(m, l, t);
        assert(feed(st, join_lines(ls, ts)).1 =~= apply_lines(st.cur, ls).1);
    }
}

/// `\n`, `\r` and `\r\n` end lines alike: two texts made of the same
/// lines give a fresh parser the same events and leave it gathering the same
/// event, with no pending byte, whichever line ends they use (as long as
/// neither has a `\r` end directly followed by a `\n`, which reads as one
/// `\r\n`). Both are the lines applied in order.
pub proof fn lemma_line_ends_alike(ls: Seq<Seq<u8>>, ts: Seq<Seq<u8>>, us: Seq<Seq<u8>>)
    requires
        lines_spelled(ls, ts),
        lines_spelled(ls, us),
    ensures
        feed(ParserView::initial(), join_lines(ls, ts)).1 == apply_lines(EventView::empty(), ls).1,
        feed(ParserView::initial(), join_lines(ls, ts)).1 == feed(
            ParserView::initial(),
            join_lines(ls, us),
        ).1,
        feed(ParserView::initial(), join_lines(ls, ts)).0.cur == feed(
            ParserView::initial(),
            join_lines(ls, us),
        ).0.cur,
        feed(ParserView::initial(), join_lines(ls, ts)).0.pending.len() == 0,
        feed(ParserView::initial(), join_lines(ls, us)).0.pending.len() == 0,
{
    lemma_feed_lines(ParserView::initial(), ls, ts);
    lemma_feed_lines(ParserView::initial(), ls, us);
}

/// Incremental parser for event-stream bytes cut into arbitrary chunks.
pub struct SseParser {
    buffer: Vec<u8>,
    position: usize,
    discard_trailing_newline: bool,
    cur: SseEvent,
}

impl View for SseParser {
    type V = ParserView;

    closed spec fn view(&self) -> ParserView {
        ParserView {
            pending: self.buffer@,
            after_cr: self.discard_trailing_newline,
            cur: self.cur@,
        }
    }
}

/// Whether `buf[start..end]` is `name`.
fn range_is(buf: &Vec<u8>, start: usize, end: usize, name: &[u8]) -> (r: bool)
    requires
        start <= end <= buf@.len(),
    ensures
        r == (buf@.subrange(start as int, end as int) == name@),
{
    if end - start != name.len() {
        return false;
    }
    let mut i: usize = 0;
    while i < name.len()
        invariant
            i <= name@.len(),
            end - start == name@.len(),
            start <= end <= buf.len(),
            forall|j: int| 0 <= j < i ==> buf@[start + j] == name@[j],
        decreases name@.len() - i,
    {
        if buf[start + i] != name[i] {
            assert(buf@.subrange(start as int, end as int)[i as int] != name@[i as int]);
            return false;
        }
        i += 1;
    }
    assert(buf@.subrange(start as int, end as int) =~= name@);
    true
}

impl SseParser {
    /// The parser's invariant: the whole buffer has been scanned, and a line
    /// end with `\r` leaves nothing pending.
    #[verifier::type_invariant]
    spec fn wf(&self) -> bool {
        &&& self.position == self.buffer@.len()
        &&& self.discard_trailing_newline ==> self.buffer@.len() == 0
    }

    /// A parser that has read nothing.
    pub fn new() -> (p: Self)
        ensures
            p@ == ParserView::initial(),
    {
        SseParser {
            buffer: Vec::new(),
            position: 0,
            discard_trailing_newline: false,
            cur: SseEvent::default(),
        }
    }

    /// Applies the complete line `buf[start..end]` to the event being
    /// gathered, appending the event to `out` when the line completes it.
    fn on_line(cur: &mut SseEvent, buf: &Vec<u8>, start: usize, end: usize, out: &mut Vec<SseEvent>)
        requires
            start <= end <= buf@.len(),
        ensures
            final(cur)@ == apply_line(old(cur)@, buf@.subrange(start as int, end as int)).0,
            events_view(final(out)@) == events_view(old(out)@) + apply_line(
                old(cur)@,
                buf@.subrange(start as int, end as int),
            ).1,
    {
        let ghost line = buf@.subrange(start as int, end as int);
        let ghost old_out = out@;
        if start == end {
            let mut done = SseEvent::default();
            std::mem::swap(&mut done, cur);
            out.push(done);
            assert(events_view(out@) =~= events_view(old_out) + seq![done@]);
            return;
        }
        if buf[start] == 58u8 {
            assert(events_view(out@) =~= events_view(old_out) + Seq::<EventView>::empty());
            return;
        }
        // The first ':' separates the field name from its value.
        let mut k = start;
        while k < end && buf[k] != 58u8
            invariant
                start <= k <= end <= buf@.len(),
                line == buf@.subrange(start as int, end as int),
                forall|j: int| start <= j < k ==> buf@[j] != colon(),
            decreases end - k,
        {
            k += 1;
        }
        let field_end = k;
        let mut value_start = end;
        if k < end {
            value_start = k + 1;
            if value_start < end && buf[value_start] == 32u8 {
                value_start = value_start + 1;
            }
            proof {
                let i = k - start;
                assert(is_first_colon(line, i));
                assert(has_colon(line));
                let c = first_colon(line);
                assert(is_first_colon(line, c));
                assert(c == i) by {
                    if c < i {
                        assert(line[c] == colon());
                        assert(buf@[start + c] != colon());
                    }
                    if i < c {
                        assert(line[i] != colon());
                    }
                }
                assert(field_of(line) =~= buf@.subrange(start as int, field_end as int));
                assert(value_of(line) =~= buf@.subrange(value_start as int, end as int));
            }
        } else {
            proof {
                assert(!has_colon(line)) by {
                    if has_colon(line) {
                        let c = first_colon(line);
                        assert(is_first_colon(line, c));
                        assert(buf@[start + c] == colon());
                    }
                }
                assert(field_of(line) =~= buf@.subrange(start as int, field_end as int));
                assert(value_of(line) =~= buf@.subrange(value_start as int, end as int));
            }
        }
        assert(line[0] != colon());
        let ghost field = buf@.subrange(start as int, field_end as int);
        let ghost old_cur = cur@;
        let v = decode_utf8_lossy(buf.as_slice(), value_start, end);
        let data_name: [u8; 4] = [100, 97, 116, 97];
        let event_name: [u8; 5] = [101, 118, 101, 110, 116];
        let id_name: [u8; 2] = [105, 100];
        let retry_name: [u8; 5] = [114, 101, 116, 114, 121];
        assert(data_name@ == data_field());
        assert(event_name@ == event_field());
        assert(id_name@ == id_field());
        assert(retry_name@ == retry_field());
        if range_is(buf, start, field_end, &data_name) {
            if cur.data.as_str().is_empty() {
                cur.data.append(v.as_str());
            } else {
                push_char(&mut cur.data, '\n');
                cur.data.append(v.as_str());
            }
        } else if range_is(buf, start, field_end, &event_name) {
            cur.event = Some(v);
        } else if range_is(buf, start, field_end, &id_name) {
            // An empty id is kept: it clears the last event id.
            cur.id = Some(v);
        } else if range_is(buf, start, field_end, &retry_name) {
            if let Some(n) = parse_trimmed_u64(&v) {
                cur.retry = Some(n);
            }
        }
        assert(cur@ == apply_field(old_cur, field, buf@.subrange(value_start as int, end as int)));
        assert(events_view(out@) =~= events_view(old_out) + Seq::<EventView>::empty());
    }

    /// Feeds one chunk of bytes and returns the events it completes, in order.
    ///
    /// The parser's state and the events are those of [`feed`]: chunk
    /// boundaries may fall anywhere, also inside a `\r\n`.
    pub fn push(&mut self, chunk: &[u8]) -> (out: Vec<SseEvent>)
        ensures
            final(self)@.wf(),
            final(self)@ == feed(old(self)@, chunk@).0,
            events_view(out@) == feed(old(self)@, chunk@).1,
    {
        proof {
            use_type_invariant(&*self);
        }
        let ghost old_view = self@;
        let mut taken = SseParser::new();
        std::mem::swap(self, &mut taken);
        proof {
            use_type_invariant(&taken);
        }
        let SseParser { mut buffer, mut position, mut discard_trailing_newline, mut cur } = taken;
        assert(old_view == (ParserView { pending: buffer@, after_cr: discard_trailing_newline, cur: cur@ }));

        let ghost old_buffer = buffer@;
        let old_len = buffer.len();
        if buffer.is_empty() {
            buffer.extend_from_slice(chunk);
            position = 0;
        } else {
            buffer.extend_from_slice(chunk);
        }
        assert(buffer@ =~= old_buffer + chunk@);

        let mut out: Vec<SseEvent> = Vec::new();
        let mut line_start: usize = 0;
        assert(chunk@.take(0) =~= Seq::<u8>::empty());
        assert(buffer@.subrange(0, old_len as int) =~= old_buffer);
        assert(events_view(out@) =~= Seq::<EventView>::empty());

        while position < buffer.len()
            invariant
                buffer@ == old_buffer + chunk@,
                old_len == old_buffer.len(),
                old_len <= position <= buffer@.len(),
                line_start <= position,
                discard_trailing_newline ==> line_start == position,
                feed(old_view, chunk@.take(position - old_len)).0 == (ParserView {
                    pending: buffer@.subrange(line_start as int, position as int),
                    after_cr: discard_trailing_newline,
                    cur: cur@,
                }),
                events_view(out@) == feed(old_view, chunk@.take(position - old_len)).1,
            decreases buffer@.len() - position,
        {
            let b = buffer[position];
            let ghost k = position - old_len;
            let ghost before = feed(old_view, chunk@.take(k));
            let ghost pending = buffer@.subrange(line_start as int, position as int);
            proof {
                assert(chunk@.take(k + 1).drop_last() =~= chunk@.take(k));
                assert(chunk@.take(k + 1).last() == b);
            }
            if discard_trailing_newline && b == 10u8 {
                // The `\n` of a `\r\n` split across the line end.
                discard_trailing_newline = false;
                position += 1;
                line_start = position;
                assert(buffer@.subrange(line_start as int, position as int) =~= pending);
                assert(events_view(out@) =~= before.1 + Seq::<EventView>::empty());
            } else {
                discard_trailing_newline = false;
                if b == 13u8 || b == 10u8 {
                    let end = position;
                    position += 1;
                    if b == 13u8 {
                        discard_trailing_newline = true;
                    }
                    Self::on_line(&mut cur, &buffer, line_start, end, &mut out);
                    line_start = position;
                    assert(buffer@.subrange(line_start as int, position as int)
                        =~= Seq::<u8>::empty());
                } else {
                    position += 1;
                    assert(buffer@.subrange(line_start as int, position as int)
                        =~= pending.push(b));
                    assert(events_view(out@) =~= before.1 + Seq::<EventView>::empty());
                }
            }
        }
        assert(chunk@.take(chunk@.len() as int) =~= chunk@);
        let ghost tail = buffer@.subrange(line_start as int, position as int);
        assert(position == buffer@.len());

        // Drop the lines already handled and keep the unfinished tail.
        if line_start > 0 {
            let rest = buffer.split_off(line_start);
            buffer = rest;
            position = position - line_start;
        }
        assert(buffer@ =~= tail);
        *self = SseParser { buffer, position, discard_trailing_newline, cur };
        proof {
            lemma_feed_wf(old_view, chunk@);
        }
        out
    }
}

} // verus!
