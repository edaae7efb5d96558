//! Reading back what the formatter writes: the UTF-8 bytes of an event's
//! text form, fed to a fresh parser, give back that event and leave the
//! parser as fresh as before.

use vstd::prelude::*;
use vstd::utf8::*;

use crate::event::{sse_text, optional_field_text, retry_text, str_lines, data_lines_text, lines_from, strip_cr, data_prefix, empty_data_line, event_prefix, id_prefix, newline, retry_prefix, EventView};
use crate::parser::{
    lemma_feed_split, apply_field, apply_line, colon, cr, data_field, event_field, feed, field_of, first_colon, id_field,
    is_first_colon, lf, retry_field, space, value_of, ParserView,
};
use crate::text::{
    all_digits, decimal, decoded, digit_char, digit_value, digits_value, is_digit, is_whitespace, parse_u64,
    trim, trim_end, trim_start,
};

verus! {

// ---------------------------------------------------------------------------
// UTF-8 encoding facts
// ---------------------------------------------------------------------------

/// Encoding distributes over concatenation.
pub proof fn lemma_encode_concat(a: Seq<char>, b: Seq<char>)
    ensures
        encode_utf8(a + b) == encode_utf8(a) + encode_utf8(b),
    decreases a.len(),
{
    if a.len() == 0 {
        assert(a + b =~= b);
    } else {
        lemma_encode_concat(a.drop_first(), b);
        assert((a + b).drop_first() =~= a.drop_first() + b);
        assert((a + b)[0] == a[0]);
        assert(encode_utf8(a + b) =~= encode_utf8(a) + encode_utf8(b));
    }
}

/// A character below 0x80 is encoded as the one byte of the same value.
pub open spec fn is_ascii_char(c: char) -> bool {
    (c as u32) < 0x80
}

proof fn lemma_encode_ascii_char(c: char)
    requires
        is_ascii_char(c),
    ensures
        encode_scalar(c as u32) == seq![c as u32 as u8],
{
    let v = c as u32;
    assert(v < 0x80 ==> (v & 0x7F) as u8 == v as u8) by (bit_vector);
}

/// The bytes of an ASCII sequence are its characters' values.
pub proof fn lemma_encode_ascii(s: Seq<char>)
    requires
        forall|i: int| 0 <= i < s.len() ==> is_ascii_char(#[trigger] s[i]),
    ensures
        encode_utf8(s) == Seq::new(s.len(), |i: int| s[i] as u32 as u8),
    decreases s.len(),
{
    if s.len() > 0 {
        lemma_encode_ascii_char(s[0]);
        lemma_encode_ascii(s.drop_first());
        assert(encode_utf8(s) =~= Seq::new(s.len(), |i: int| s[i] as u32 as u8));
    } else {
        assert(encode_utf8(s) =~= Seq::new(s.len(), |i: int| s[i] as u32 as u8));
    }
}

/// No line-break character in `s`.
pub open spec fn no_break_chars(s: Seq<char>) -> bool {
    forall|i: int| 0 <= i < s.len() ==> #[trigger] s[i] != '\n' && s[i] != '\r'
}

/// No `\n` or `\r` byte in `b`.
pub open spec fn no_break_bytes(b: Seq<u8>) -> bool {
    forall|i: int| 0 <= i < b.len() ==> #[trigger] b[i] != lf() && b[i] != cr()
}

proof fn lemma_encode_scalar_no_break(c: char)
    requires
        c != '\n',
        c != '\r',
    ensures
        no_break_bytes(encode_scalar(c as u32)),
{
    let v = c as u32;
    if v < 0x80 {
        lemma_encode_ascii_char(c);
        assert(v != 10 && v != 13);
        assert(v < 0x80 && v != 10 && v != 13 ==> v as u8 != 10u8 && v as u8 != 13u8) by (bit_vector);
    } else {
        assert(0x80 <= (0xC0u8 | ((v >> 6) & 0x1F) as u8)) by (bit_vector);
        assert(0x80 <= (0xE0u8 | ((v >> 12) & 0x0F) as u8)) by (bit_vector);
        assert(0x80 <= (0xF0u8 | ((v >> 18) & 0x7) as u8)) by (bit_vector);
        assert(0x80 <= (0x80u8 | (v & 0x3F) as u8)) by (bit_vector);
        assert(0x80 <= (0x80u8 | ((v >> 6) & 0x3F) as u8)) by (bit_vector);
        assert(0x80 <= (0x80u8 | ((v >> 12) & 0x3F) as u8)) by (bit_vector);
    }
}

/// Encoding a sequence without line breaks gives bytes without line breaks.
pub proof fn lemma_encode_no_break(s: Seq<char>)
    requires
        no_break_chars(s),
    ensures
        no_break_bytes(encode_utf8(s)),
    decreases s.len(),
{
    if s.len() > 0 {
        assert(s[0] != '\n' && s[0] != '\r');
        lemma_encode_scalar_no_break(s[0]);
        lemma_encode_no_break(s.drop_first());
        let a = encode_scalar(s[0] as u32);
        let b = encode_utf8(s.drop_first());
        assert forall|i: int| 0 <= i < (a + b).len() implies #[trigger] (a + b)[i] != lf() && (a + b)[i] != cr() by {
            if i < a.len() {
                assert((a + b)[i] == a[i]);
            } else {
                assert((a + b)[i] == b[i - a.len()]);
            }
        }
    }
}

/// The bytes decode back to the characters.
pub proof fn lemma_decoded_encode(s: Seq<char>)
    ensures
        decoded(encode_utf8(s)) == s,
{
    encode_utf8_valid_utf8(s);
    encode_utf8_decode_utf8(s);
}

// ---------------------------------------------------------------------------
// Feeding whole lines
// ---------------------------------------------------------------------------

/// Between lines: nothing pending, and no `\r` line end to complete.
pub open spec fn at_line_start(st: ParserView) -> bool {
    st.pending.len() == 0 && !st.after_cr
}

/// Bytes without line breaks only accumulate.
proof fn lemma_feed_no_break(st: ParserView, b: Seq<u8>)
    requires
        !st.after_cr,
        no_break_bytes(b),
    ensures
        feed(st, b) == (ParserView { pending: st.pending + b, after_cr: false, cur: st.cur }, Seq::<EventView>::empty()),
    decreases b.len(),
{
    if b.len() == 0 {
        assert(st.pending + b =~= st.pending);
    } else {
        assert(b.last() == b[b.len() - 1]);
        lemma_feed_no_break(st, b.drop_last());
        assert(st.pending + b.drop_last() + seq![b.last()] =~= st.pending + b);
        assert((st.pending + b.drop_last()).push(b.last()) =~= st.pending + b);
        assert(Seq::<EventView>::empty() + Seq::<EventView>::empty() =~= Seq::<EventView>::empty());
    }
}

/// Bytes without a line end complete no event: an unfinished line waits for
/// the next chunk.
pub proof fn lemma_no_line_end_no_event(st: ParserView, b: Seq<u8>)
    requires
        no_break_bytes(b),
    ensures
        feed(st, b).1 == Seq::<EventView>::empty(),
    decreases b.len(),
{
    if b.len() > 0 {
        lemma_no_line_end_no_event(st, b.drop_last());
        assert(b.last() == b[b.len() - 1]);
        assert(Seq::<EventView>::empty() + Seq::<EventView>::empty() =~= Seq::<EventView>::empty());
    }
}

/// A whole line ended by `\n` is applied to the event being gathered.
pub proof fn lemma_feed_line(st: ParserView, line: Seq<u8>)
    requires
        at_line_start(st),
        no_break_bytes(line),
    ensures
        feed(st, line.push(lf())) == (ParserView {
            pending: Seq::empty(),
            after_cr: false,
            cur: apply_line(st.cur, line).0,
        }, apply_line(st.cur, line).1),
{
    lemma_feed_no_break(st, line);
    assert(line.push(lf()).drop_last() =~= line);
    assert(st.pending + line =~= line);
    assert(Seq::<EventView>::empty() + apply_line(st.cur, line).1 =~= apply_line(st.cur, line).1);
}

/// A `name: value` line: its field is `name` and its value is `value`.
proof fn lemma_field_line(n: Seq<u8>, v: Seq<u8>)
    requires
        n.len() > 0,
        forall|i: int| 0 <= i < n.len() ==> #[trigger] n[i] != colon(),
    ensures
        ({
            let line = n + seq![colon(), space()] + v;
            &&& field_of(line) == n
            &&& value_of(line) == v
            &&& line.len() > 0
            &&& line[0] != colon()
        }),
{
    let line = n + seq![colon(), space()] + v;
    let k = n.len() as int;
    assert(line[k] == colon());
    assert forall|j: int| 0 <= j < k implies line[j] != colon() by {
        assert(line[j] == n[j]);
    }
    assert(is_first_colon(line, k));
    let c = first_colon(line);
    assert(is_first_colon(line, c));
    assert(c == k) by {
        if c < k {
            assert(line[c] == n[c]);
        }
        if k < c {
            assert(line[k] == colon());
        }
    }
    assert(line[k + 1] == space());
    assert(field_of(line) =~= n);
    assert(value_of(line) =~= v);
    assert(line[0] == n[0]);
}

/// A bare `data:` line: the field is `data` and the value is empty.
proof fn lemma_bare_data_line()
    ensures
        ({
            let line = data_field() + seq![colon()];
            &&& field_of(line) == data_field()
            &&& value_of(line) == Seq::<u8>::empty()
            &&& line.len() > 0
            &&& line[0] != colon()
        }),
{
    let line = data_field() + seq![colon()];
    assert(line =~= seq![100u8, 97u8, 116u8, 97u8, 58u8]);
    assert(is_first_colon(line, 4));
    let c = first_colon(line);
    assert(is_first_colon(line, c));
    assert(c == 4);
    assert(field_of(line) =~= data_field());
    assert(value_of(line) =~= Seq::<u8>::empty());
}

// ---------------------------------------------------------------------------
// Decimal numbers read back
// ---------------------------------------------------------------------------

proof fn lemma_digit_char(d: nat)
    requires
        d < 10,
    ensures
        is_digit(digit_char(d)),
        digit_value(digit_char(d)) == d,
{
}

/// The decimal representation is a non-empty run of digits worth `n`.
proof fn lemma_decimal(n: nat)
    ensures
        decimal(n).len() > 0,
        all_digits(decimal(n)),
        digits_value(decimal(n)) == n,
    decreases n,
{
    lemma_digit_char(n % 10);
    if n >= 10 {
        lemma_decimal(n / 10);
        let d = decimal(n);
        assert(d.drop_last() =~= decimal(n / 10));
        assert(d.last() == digit_char(n % 10));
        assert((n / 10) * 10 + n % 10 == n) by (nonlinear_arith);
        assert(digits_value(d) == digits_value(d.drop_last()) * 10 + digit_value(d.last()));
        assert(digit_value(d.last()) == n % 10);
        assert forall|i: int| 0 <= i < d.len() implies is_digit(#[trigger] d[i]) by {
            if i < d.len() - 1 {
                assert(d[i] == decimal(n / 10)[i]);
            }
        }
    } else {
        let d = decimal(n);
        assert(d.drop_last() =~= Seq::<char>::empty());
        assert(d.last() == digit_char(n));
        assert(n % 10 == n);
        assert(digits_value(d) == digits_value(d.drop_last()) * 10 + digit_value(d.last()));
        assert(digits_value(d.drop_last()) == 0);
    }
}

/// A digit is no whitespace, no line break and ASCII.
proof fn lemma_digit_plain(c: char)
    requires
        is_digit(c),
    ensures
        !is_whitespace(c),
        c != '\n',
        c != '\r',
        c != '+',
        is_ascii_char(c),
{
}

/// What the formatter writes for a reconnection time parses back to it.
pub proof fn lemma_decimal_parses_back(n: u64)
    ensures
        parse_u64(trim(decimal(n as nat))) == Some(n),
        no_break_chars(decimal(n as nat)),
        forall|i: int| 0 <= i < decimal(n as nat).len() ==> is_ascii_char(#[trigger] decimal(n as nat)[i]),
{
    let d = decimal(n as nat);
    lemma_decimal(n as nat);
    lemma_digit_plain(d[0]);
    lemma_digit_plain(d.last());
    assert(trim_start(d) == d);
    assert(trim_end(d) == d);
    assert forall|i: int| 0 <= i < d.len() implies #[trigger] d[i] != '\n' && d[i] != '\r' by {
        lemma_digit_plain(d[i]);
    }
    assert forall|i: int| 0 <= i < d.len() implies is_ascii_char(#[trigger] d[i]) by {
        lemma_digit_plain(d[i]);
    }
}

// ---------------------------------------------------------------------------
// Field lines
// ---------------------------------------------------------------------------

/// The prefixes the formatter writes are the field names, `:` and a space.
proof fn lemma_prefix_bytes()
    ensures
        encode_utf8(id_prefix()) == id_field() + seq![colon(), space()],
        encode_utf8(event_prefix()) == event_field() + seq![colon(), space()],
        encode_utf8(retry_prefix()) == retry_field() + seq![colon(), space()],
        encode_utf8(data_prefix()) == data_field() + seq![colon(), space()],
        encode_utf8(empty_data_line()) == (data_field() + seq![colon()]).push(lf()),
        encode_utf8(newline()) == seq![lf()],
{
    lemma_encode_ascii(id_prefix());
    assert(encode_utf8(id_prefix()) =~= id_field() + seq![colon(), space()]);
    lemma_encode_ascii(event_prefix());
    assert(encode_utf8(event_prefix()) =~= event_field() + seq![colon(), space()]);
    lemma_encode_ascii(retry_prefix());
    assert(encode_utf8(retry_prefix()) =~= retry_field() + seq![colon(), space()]);
    lemma_encode_ascii(data_prefix());
    assert(encode_utf8(data_prefix()) =~= data_field() + seq![colon(), space()]);
    lemma_encode_ascii(empty_data_line());
    assert(encode_utf8(empty_data_line()) =~= (data_field() + seq![colon()]).push(lf()));
    lemma_encode_ascii(newline());
    assert(encode_utf8(newline()) =~= seq![lf()]);
}

/// The bytes of `prefix value \n`, where the prefix encodes as `name: `.
proof fn lemma_line_bytes(prefix: Seq<char>, n: Seq<u8>, v: Seq<char>)
    requires
        encode_utf8(prefix) == n + seq![colon(), space()],
        no_break_bytes(n),
        no_break_chars(v),
    ensures
        encode_utf8(prefix + v + newline()) == (n + seq![colon(), space()] + encode_utf8(v)).push(lf()),
        no_break_bytes(n + seq![colon(), space()] + encode_utf8(v)),
{
    lemma_prefix_bytes();
    lemma_encode_concat(prefix, v);
    lemma_encode_concat(prefix + v, newline());
    assert(encode_utf8(prefix + v + newline()) =~= (n + seq![colon(), space()] + encode_utf8(v)).push(lf()));
    lemma_encode_no_break(v);
    let line = n + seq![colon(), space()] + encode_utf8(v);
    assert forall|i: int| 0 <= i < line.len() implies #[trigger] line[i] != lf() && line[i] != cr() by {
        if i < n.len() {
            assert(line[i] == n[i]);
        } else if i >= n.len() + 2 {
            assert(line[i] == encode_utf8(v)[i - n.len() - 2]);
        }
    }
}

/// Feeding the line the formatter writes for a field gives the field's
/// value to the event being gathered.
proof fn lemma_feed_field_line(st: ParserView, prefix: Seq<char>, n: Seq<u8>, v: Seq<char>)
    requires
        at_line_start(st),
        encode_utf8(prefix) == n + seq![colon(), space()],
        n.len() > 0,
        no_break_bytes(n),
        forall|i: int| 0 <= i < n.len() ==> #[trigger] n[i] != colon(),
        no_break_chars(v),
    ensures
        feed(st, encode_utf8(prefix + v + newline())) == (ParserView {
            pending: Seq::empty(),
            after_cr: false,
            cur: apply_field(st.cur, n, encode_utf8(v)),
        }, Seq::<EventView>::empty()),
{
    lemma_line_bytes(prefix, n, v);
    let line = n + seq![colon(), space()] + encode_utf8(v);
    lemma_feed_line(st, line);
    lemma_field_line(n, encode_utf8(v));
}

// ---------------------------------------------------------------------------
// Data lines
// ---------------------------------------------------------------------------

/// How the parser adds one `data` value to the data gathered so far.
pub open spec fn join_step(acc: Seq<char>, l: Seq<char>) -> Seq<char> {
    if acc.len() == 0 {
        l
    } else {
        acc.push('\n') + l
    }
}

/// The data gathered from `data` values `lines`, after `acc`.
pub open spec fn join_from(acc: Seq<char>, lines: Seq<Seq<char>>) -> Seq<char>
    decreases lines.len(),
{
    if lines.len() == 0 {
        acc
    } else {
        join_step(join_from(acc, lines.drop_last()), lines.last())
    }
}

spec fn join_front(acc: Seq<char>, lines: Seq<Seq<char>>) -> Seq<char>
    decreases lines.len(),
{
    if lines.len() == 0 {
        acc
    } else {
        join_front(join_step(acc, lines[0]), lines.drop_first())
    }
}

proof fn lemma_join_front_push(acc: Seq<char>, lines: Seq<Seq<char>>, x: Seq<char>)
    ensures
        join_front(acc, lines.push(x)) == join_step(join_front(acc, lines), x),
    decreases lines.len(),
{
    if lines.len() > 0 {
        assert(lines.push(x).drop_first() =~= lines.drop_first().push(x));
        assert(lines.push(x)[0] == lines[0]);
        lemma_join_front_push(join_step(acc, lines[0]), lines.drop_first(), x);
        assert(join_front(acc, lines.push(x)) == join_front(join_step(acc, lines[0]), lines.drop_first().push(x)));
        assert(join_front(acc, lines) == join_front(join_step(acc, lines[0]), lines.drop_first()));
    } else {
        assert(lines.push(x).drop_first() =~= Seq::<Seq<char>>::empty());
        assert(lines.push(x)[0] == x);
        assert(join_front(acc, lines.push(x)) == join_front(join_step(acc, x), Seq::<Seq<char>>::empty()));
    }
}

proof fn lemma_join_front_back(acc: Seq<char>, lines: Seq<Seq<char>>)
    ensures
        join_front(acc, lines) == join_from(acc, lines),
    decreases lines.len(),
{
    if lines.len() > 0 {
        lemma_join_front_back(acc, lines.drop_last());
        lemma_join_front_push(acc, lines.drop_last(), lines.last());
        assert(lines.drop_last().push(lines.last()) =~= lines);
    }
}

/// No `\r` in `s`.
pub open spec fn no_cr(s: Seq<char>) -> bool {
    forall|i: int| 0 <= i < s.len() ==> #[trigger] s[i] != '\r'
}

/// Joining the lines that `str::lines` splits gives the text back, when the
/// text has no `\r`, does not end with `\n`, and does not start a line with
/// `\n` where nothing precedes it.
proof fn lemma_lines_join(acc: Seq<char>, cur: Seq<char>, s: Seq<char>)
    requires
        no_break_chars(cur),
        no_cr(s),
        s.len() == 0 ==> cur.len() > 0,
        s.len() > 0 ==> s.last() != '\n',
        acc.len() == 0 && cur.len() == 0 && s.len() > 0 ==> s[0] != '\n',
    ensures
        join_front(acc, lines_from(cur, s)) == join_step(acc, cur + s),
        forall|k: int| 0 <= k < lines_from(cur, s).len() ==> no_break_chars(#[trigger] lines_from(cur, s)[k]),
    decreases s.len(),
{
    if s.len() == 0 {
        assert(cur + s =~= cur);
        let ls = lines_from(cur, s);
        assert(ls =~= seq![cur]);
        assert(ls.drop_first() =~= Seq::<Seq<char>>::empty());
        assert(join_front(acc, ls) == join_front(join_step(acc, ls[0]), ls.drop_first()));
    } else if s[0] != '\n' {
        let c2 = cur.push(s[0]);
        let s2 = s.drop_first();
        assert forall|i: int| 0 <= i < c2.len() implies #[trigger] c2[i] != '\n' && c2[i] != '\r' by {
            if i < cur.len() {
                assert(c2[i] == cur[i]);
            } else {
                assert(c2[i] == s[0]);
            }
        }
        assert forall|i: int| 0 <= i < s2.len() implies #[trigger] s2[i] != '\r' by {
            assert(s2[i] == s[i + 1]);
        }
        if s2.len() > 0 {
            assert(s2.last() == s.last());
        }
        lemma_lines_join(acc, c2, s2);
        assert(c2 + s2 =~= cur + s);
    } else {
        let s2 = s.drop_first();
        assert(s.len() >= 2) by {
            if s.len() == 1 {
                assert(s.last() == s[0]);
            }
        }
        assert(s2.last() == s.last());
        assert forall|i: int| 0 <= i < s2.len() implies #[trigger] s2[i] != '\r' by {
            assert(s2[i] == s[i + 1]);
        }
        assert(strip_cr(cur) == cur) by {
            if cur.len() > 0 {
                assert(cur[cur.len() - 1] != '\r');
            }
        }
        let a2 = join_step(acc, cur);
        assert(a2.len() > 0);
        lemma_lines_join(a2, Seq::empty(), s2);
        let rest = lines_from(Seq::empty(), s2);
        let ls = lines_from(cur, s);
        assert(ls == seq![cur] + rest);
        assert(ls[0] == cur);
        assert(ls.drop_first() =~= rest);
        assert(Seq::<char>::empty() + s2 =~= s2);
        assert(cur + s =~= cur.push('\n') + s2);
        assert(join_step(a2, s2) =~= join_step(acc, cur + s));
        assert(join_front(acc, ls) == join_front(join_step(acc, ls[0]), ls.drop_first()));
        assert forall|k: int| 0 <= k < ls.len() implies no_break_chars(#[trigger] ls[k]) by {
            if k > 0 {
                assert(ls[k] == rest[k - 1]);
            }
        }
    }
}

/// Feeding the `data:` lines the formatter writes for `lines` joins them
/// into the data of the event being gathered.
proof fn lemma_feed_data_lines(st: ParserView, lines: Seq<Seq<char>>)
    requires
        at_line_start(st),
        forall|k: int| 0 <= k < lines.len() ==> no_break_chars(#[trigger] lines[k]),
    ensures
        feed(st, encode_utf8(data_lines_text(lines))) == (ParserView {
            pending: Seq::empty(),
            after_cr: false,
            cur: EventView { data: join_from(st.cur.data, lines), ..st.cur },
        }, Seq::<EventView>::empty()),
    decreases lines.len(),
{
    if lines.len() == 0 {
        assert(st.pending =~= Seq::<u8>::empty());
        assert(encode_utf8(data_lines_text(lines)) =~= Seq::<u8>::empty());
    } else {
        let front = lines.drop_last();
        let l = lines.last();
        assert(no_break_chars(lines[lines.len() - 1]));
        lemma_feed_data_lines(st, front);
        let s1 = feed(st, encode_utf8(data_lines_text(front))).0;
        lemma_prefix_bytes();
        lemma_encode_concat(data_lines_text(front), data_prefix() + l + newline());
        assert(data_lines_text(lines) =~= data_lines_text(front) + (data_prefix() + l + newline()));
        lemma_feed_split(st, encode_utf8(data_lines_text(front)), encode_utf8(data_prefix() + l + newline()));
        assert(forall|i: int| 0 <= i < data_field().len() ==> #[trigger] data_field()[i] != colon() && data_field()[i] != lf() && data_field()[i] != cr());
        lemma_feed_field_line(s1, data_prefix(), data_field(), l);
        lemma_decoded_encode(l);
        assert(Seq::<EventView>::empty() + Seq::<EventView>::empty() =~= Seq::<EventView>::empty());
    }
}

// ---------------------------------------------------------------------------
// The whole event
// ---------------------------------------------------------------------------

/// The events whose text form reads back exactly: the id and the type have
/// no line break, and the data has no `\r` and neither starts nor ends with
/// `\n`. (A `\r` would end a line early; a final `\n` is dropped by
/// `str::lines`; a leading `\n` gives an empty first `data` value, which the
/// parser does not join.)
pub open spec fn text_roundtrips(e: EventView) -> bool {
    &&& (e.id matches Some(id) ==> no_break_chars(id))
    &&& (e.event matches Some(ev) ==> no_break_chars(ev))
    &&& no_cr(e.data)
    &&& (e.data.len() > 0 ==> e.data[0] != '\n' && e.data.last() != '\n')
}

proof fn lemma_feed_pieces(st: ParserView, x: Seq<char>, y: Seq<char>)
    ensures
        feed(st, encode_utf8(x + y)).0 == feed(feed(st, encode_utf8(x)).0, encode_utf8(y)).0,
        feed(st, encode_utf8(x + y)).1 == feed(st, encode_utf8(x)).1 + feed(feed(st, encode_utf8(x)).0, encode_utf8(y)).1,
{
    lemma_encode_concat(x, y);
    lemma_feed_split(st, encode_utf8(x), encode_utf8(y));
}

proof fn lemma_field_names()
    ensures
        id_field() != data_field(),
        id_field() != event_field(),
        id_field() != retry_field(),
        event_field() != data_field(),
        event_field() != retry_field(),
        retry_field() != data_field(),
        no_break_bytes(id_field()),
        no_break_bytes(event_field()),
        no_break_bytes(retry_field()),
        no_break_bytes(data_field()),
        forall|i: int| 0 <= i < id_field().len() ==> #[trigger] id_field()[i] != colon(),
        forall|i: int| 0 <= i < event_field().len() ==> #[trigger] event_field()[i] != colon(),
        forall|i: int| 0 <= i < retry_field().len() ==> #[trigger] retry_field()[i] != colon(),
        forall|i: int| 0 <= i < data_field().len() ==> #[trigger] data_field()[i] != colon(),
{
    assert(id_field().len() != data_field().len());
    assert(id_field().len() != event_field().len());
    assert(id_field().len() != retry_field().len());
    assert(event_field().len() != data_field().len());
    assert(event_field()[0] != retry_field()[0]);
    assert(retry_field().len() != data_field().len());
}

/// What the formatter writes, the parser reads back: the UTF-8 bytes of the
/// text form of an event, fed to a fresh parser, complete exactly that event
/// and leave the parser fresh (for the events of [`text_roundtrips`]).
pub proof fn lemma_format_then_parse(e: EventView)
    requires
        text_roundtrips(e),
    ensures
        feed(ParserView::initial(), encode_utf8(sse_text(e))) == (ParserView::initial(), seq![e]),
{
    lemma_field_names();
    lemma_prefix_bytes();
    let a = optional_field_text(id_prefix(), e.id);
    let b = optional_field_text(event_prefix(), e.event);
    let c = retry_text(e.retry);
    let d = data_lines_text(str_lines(e.data));
    let x = if e.data.len() == 0 {
        empty_data_line()
    } else {
        Seq::empty()
    };
    let n = newline();
    assert(sse_text(e) == a + b + c + d + x + n);
    lemma_feed_pieces(ParserView::initial(), a + b + c + d + x, n);
    lemma_feed_pieces(ParserView::initial(), a + b + c + d, x);
    lemma_feed_pieces(ParserView::initial(), a + b + c, d);
    lemma_feed_pieces(ParserView::initial(), a + b, c);
    lemma_feed_pieces(ParserView::initial(), a, b);
    let st0 = ParserView::initial();
    let empty = Seq::<EventView>::empty();

    // The id line.
    let st1 = feed(st0, encode_utf8(a)).0;
    match e.id {
        Some(id) => {
            lemma_feed_field_line(st0, id_prefix(), id_field(), id);
            lemma_decoded_encode(id);
        },
        None => {},
    }
    assert(st1 == (ParserView { pending: Seq::empty(), after_cr: false, cur: EventView { id: e.id, ..EventView::empty() } }));
    assert(feed(st0, encode_utf8(a)).1 == empty);

    // The event line.
    let st2 = feed(st1, encode_utf8(b)).0;
    match e.event {
        Some(ev) => {
            lemma_feed_field_line(st1, event_prefix(), event_field(), ev);
            lemma_decoded_encode(ev);
        },
        None => {},
    }
    assert(st2 == (ParserView { pending: Seq::empty(), after_cr: false, cur: EventView { id: e.id, event: e.event, ..EventView::empty() } }));
    assert(feed(st1, encode_utf8(b)).1 == empty);

    // The retry line.
    let st3 = feed(st2, encode_utf8(c)).0;
    match e.retry {
        Some(r) => {
            lemma_decimal_parses_back(r);
            lemma_feed_field_line(st2, retry_prefix(), retry_field(), decimal(r as nat));
            lemma_decoded_encode(decimal(r as nat));
        },
        None => {},
    }
    assert(st3 == (ParserView { pending: Seq::empty(), after_cr: false, cur: EventView { id: e.id, event: e.event, retry: e.retry, data: Seq::empty() } }));
    assert(feed(st2, encode_utf8(c)).1 == empty);

    // The data lines.
    let st4 = feed(st3, encode_utf8(d)).0;
    let st5 = feed(st4, encode_utf8(x)).0;
    lemma_decoded_encode(Seq::empty());
    assert(encode_utf8(Seq::<char>::empty()) =~= Seq::<u8>::empty());
    if e.data.len() == 0 {
        assert(str_lines(e.data) =~= Seq::<Seq<char>>::empty());
        assert(d =~= Seq::<char>::empty());
        assert(st4 == st3);
        lemma_prefix_bytes();
        lemma_bare_data_line();
        assert(no_break_bytes(data_field() + seq![colon()]));
        lemma_feed_line(st4, data_field() + seq![colon()]);
        assert(st5.cur == st3.cur);
        assert(st5 == st3);
        assert(e.data =~= Seq::<char>::empty());
    } else {
        assert(no_break_chars(Seq::<char>::empty()));
        lemma_lines_join(Seq::empty(), Seq::empty(), e.data);
        lemma_join_front_back(Seq::empty(), str_lines(e.data));
        assert(Seq::<char>::empty() + e.data =~= e.data);
        lemma_feed_data_lines(st3, str_lines(e.data));
        assert(x =~= Seq::<char>::empty());
        assert(st5 == st4);
    }
    assert(st5 == (ParserView { pending: Seq::empty(), after_cr: false, cur: e }));
    assert(feed(st3, encode_utf8(d)).1 == empty);
    assert(feed(st4, encode_utf8(x)).1 == empty);

    // The blank line.
    lemma_prefix_bytes();
    assert(encode_utf8(n).drop_last() =~= Seq::<u8>::empty());
    assert(feed(st5, encode_utf8(n)) == (st0, seq![e]));
    assert(empty + empty + empty + empty + empty + seq![e] =~= seq![e]);
}

} // verus!
