//! How body text is split into records.
//!
//! A record buffer holds a header and, after it, as much body text as fits.
//! Text that does not fit is cut at a character boundary; the full buffer is
//! flushed as one record, the buffer goes back to the header, and the rest of
//! the text follows in further records.

use crate::buffer::{last_boundary, pushed_len, RECORD_CAPACITY};
use crate::format::room;
use vstd::prelude::*;
use vstd::utf8::*;

verus! {

/// Width in bytes of the widest character.
pub const MAX_CHAR_WIDTH: usize = 4;

/// Writing `text` into a buffer that holds `held`, of which `header` is the
/// header: the records flushed on the way, and what the buffer holds in the
/// end.
///
/// Where nothing of the text fits behind the header alone, nothing more is
/// flushed. That cannot happen while the header leaves room for one
/// character.
pub open spec fn chunked(header: Seq<u8>, held: Seq<u8>, text: Seq<u8>) -> (Seq<Seq<u8>>, Seq<u8>)
    decreases
            text.len(),
            (if held.len() > header.len() {
                1int
            } else {
                0int
            }),
{
    let n = pushed_len(text, room(held));
    if text.len() == 0 {
        (Seq::empty(), held)
    } else if n >= text.len() {
        (Seq::empty(), held + text)
    } else if 0 <= n && held.len() + n > header.len() {
        let rest = chunked(header, header, text.skip(n));
        (seq![held + text.take(n)] + rest.0, rest.1)
    } else {
        (Seq::empty(), held)
    }
}

/// Flushing a buffer that holds `held`: the record sent, if there is body
/// text behind the header, and what the buffer holds afterwards.
pub open spec fn flushed(header: Seq<u8>, held: Seq<u8>) -> (Seq<Seq<u8>>, Seq<u8>) {
    if held.len() > header.len() {
        (seq![held], header)
    } else {
        (Seq::empty(), held)
    }
}

/// The records that carry `text` under `header`: those flushed while the
/// text is written, and the one flushed at the end.
pub open spec fn records_of(header: Seq<u8>, text: Seq<u8>) -> Seq<Seq<u8>> {
    let written = chunked(header, header, text);
    written.0 + flushed(header, written.1).0
}

/// The largest boundary up to `k` is a boundary between 0 and `k`.
pub proof fn lemma_last_boundary(text: Seq<u8>, k: int)
    requires
        valid_utf8(text),
    ensures
        0 <= last_boundary(text, k),
        k >= 0 ==> last_boundary(text, k) <= k,
        is_char_boundary(text, last_boundary(text, k)),
    decreases k,
{
    if k > 0 && !is_char_boundary(text, k) {
        lemma_last_boundary(text, k - 1);
    }
}

/// The largest boundary up to `k` is not below any boundary up to `k`.
pub proof fn lemma_last_boundary_reaches(text: Seq<u8>, k: int, boundary: int)
    requires
        valid_utf8(text),
        is_char_boundary(text, boundary),
        0 <= boundary <= k,
    ensures
        last_boundary(text, k) >= boundary,
    decreases k,
{
    if k > 0 && !is_char_boundary(text, k) {
        lemma_last_boundary_reaches(text, k - 1, boundary);
    }
}

/// Text that is not empty starts with a character of 1 to 4 bytes.
pub proof fn lemma_first_char(text: Seq<u8>)
    requires
        valid_utf8(text),
        text.len() > 0,
    ensures
        1 <= length_of_first_scalar(text) <= MAX_CHAR_WIDTH,
        length_of_first_scalar(text) <= text.len(),
        is_char_boundary(text, length_of_first_scalar(text)),
{
    reveal_with_fuel(is_char_boundary, 2);
    reveal_with_fuel(valid_utf8, 2);
}

/// What a truncating append takes: a prefix that ends on a character
/// boundary and fits; all of the text if all of it fits; and at least one
/// character if there is room for any character.
pub proof fn lemma_pushed_len(text: Seq<u8>, free: int)
    requires
        valid_utf8(text),
        free >= 0,
    ensures
        0 <= pushed_len(text, free) <= text.len(),
        pushed_len(text, free) <= free,
        is_char_boundary(text, pushed_len(text, free)),
        text.len() <= free ==> pushed_len(text, free) == text.len(),
        text.len() > 0 && free >= MAX_CHAR_WIDTH ==> pushed_len(text, free) >= 1,
{
    let most = if text.len() <= free {
        text.len() as int
    } else {
        free
    };
    lemma_last_boundary(text, most);
    if text.len() <= free {
        is_char_boundary_start_end_of_seq(text);
        lemma_last_boundary_reaches(text, most, text.len() as int);
    }
    if text.len() > 0 && free >= MAX_CHAR_WIDTH {
        lemma_first_char(text);
        lemma_last_boundary_reaches(text, most, length_of_first_scalar(text));
    }
}

/// Round trip: body text that is not empty and fits behind the header goes
/// out as exactly one record, the header followed by the text, when it is
/// flushed; the buffer then holds the header alone.
pub proof fn lemma_short_body_is_one_record(header: Seq<u8>, text: Seq<u8>)
    requires
        valid_utf8(text),
        1 <= text.len(),
        header.len() + text.len() <= RECORD_CAPACITY,
    ensures
        chunked(header, header, text) == (Seq::<Seq<u8>>::empty(), header + text),
        flushed(header, header + text) == (seq![header + text], header),
        records_of(header, text) == seq![header + text],
{
    lemma_pushed_len(text, room(header));
}

/// Chunking: body text that is one byte too long for the room behind the
/// header goes out as exactly two records. The first holds the header and
/// all of the text but its last byte, the second the header and that byte.
/// This is so where the text can be cut before its last byte, that is, where
/// the last byte is a character.
pub proof fn lemma_body_one_byte_too_long(header: Seq<u8>, text: Seq<u8>)
    requires
        valid_utf8(text),
        header.len() + MAX_CHAR_WIDTH <= RECORD_CAPACITY,
        text.len() == room(header) + 1,
        is_char_boundary(text, room(header)),
    ensures
        chunked(header, header, text) == (
            seq![header + text.take(room(header))],
            header + text.skip(room(header)),
        ),
        records_of(header, text) == seq![
            header + text.take(room(header)),
            header + text.skip(room(header)),
        ],
        text.take(room(header)).len() == room(header),
        text.skip(room(header)).len() == 1,
{
    let free = room(header);
    let last = text.skip(free);
    lemma_pushed_len(text, free);
    lemma_last_boundary_reaches(text, free, free);
    valid_utf8_split(text, free);
    lemma_pushed_len(last, free);
    assert(chunked(header, header, last) == (Seq::<Seq<u8>>::empty(), header + last));
    assert(seq![header + text.take(free)] + Seq::<Seq<u8>>::empty() =~= seq![
        header + text.take(free),
    ]);
}

/// What was flushed and what the buffer holds after `text` was written in a
/// state in which `state.0` was flushed and the buffer held `state.1`.
pub open spec fn then_written(header: Seq<u8>, state: (Seq<Seq<u8>>, Seq<u8>), text: Seq<u8>) -> (
    Seq<Seq<u8>>,
    Seq<u8>,
) {
    let next = chunked(header, state.1, text);
    (state.0 + next.0, next.1)
}

/// The character boundaries of two texts joined are those of the first
/// text, and behind it those of the second.
pub proof fn lemma_boundary_concat(a: Seq<u8>, b: Seq<u8>, k: int)
    requires
        valid_utf8(a),
        valid_utf8(b),
        0 <= k <= a.len() + b.len(),
    ensures
        valid_utf8(a + b),
        k <= a.len() ==> is_char_boundary(a + b, k) == is_char_boundary(a, k),
        k >= a.len() ==> is_char_boundary(a + b, k) == is_char_boundary(b, k - a.len()),
{
    let ab = a + b;
    valid_utf8_concat(a, b);
    is_char_boundary_start_end_of_seq(a);
    is_char_boundary_start_end_of_seq(b);
    is_char_boundary_start_end_of_seq(ab);
    if k < ab.len() {
        is_char_boundary_iff_not_is_continuation_byte(ab, k);
        if k < a.len() {
            is_char_boundary_iff_not_is_continuation_byte(a, k);
        } else {
            is_char_boundary_iff_not_is_continuation_byte(b, k - a.len());
        }
    }
}

/// Up to the end of the first of two joined texts, the largest boundary is
/// that of the first text.
proof fn lemma_last_boundary_in_first(a: Seq<u8>, b: Seq<u8>, k: int)
    requires
        valid_utf8(a),
        valid_utf8(b),
        k <= a.len(),
    ensures
        last_boundary(a + b, k) == last_boundary(a, k),
    decreases k,
{
    if k > 0 {
        lemma_boundary_concat(a, b, k);
        if !is_char_boundary(a, k) {
            lemma_last_boundary_in_first(a, b, k - 1);
        }
    }
}

/// Behind the end of the first of two joined texts, the largest boundary is
/// that of the second text, counted from there.
proof fn lemma_last_boundary_in_second(a: Seq<u8>, b: Seq<u8>, k: int)
    requires
        valid_utf8(a),
        valid_utf8(b),
        a.len() <= k <= a.len() + b.len(),
    ensures
        last_boundary(a + b, k) == a.len() + last_boundary(b, k - a.len()),
    decreases k,
{
    lemma_boundary_concat(a, b, k);
    if k > a.len() {
        if !is_char_boundary(b, k - a.len()) {
            lemma_last_boundary_in_second(a, b, k - 1);
        }
    } else {
        is_char_boundary_start_end_of_seq(a);
    }
}

/// A truncating append of two joined texts takes the first text and then
/// of the second what fits behind it, or of the first what fits if not all
/// of it does.
pub proof fn lemma_pushed_len_concat(a: Seq<u8>, b: Seq<u8>, free: int)
    requires
        valid_utf8(a),
        valid_utf8(b),
        free >= 0,
    ensures
        a.len() <= free ==> pushed_len(a + b, free) == a.len() + pushed_len(b, free - a.len()),
        a.len() > free ==> pushed_len(a + b, free) == pushed_len(a, free),
{
    if a.len() <= free {
        let most = if a.len() + b.len() <= free {
            (a.len() + b.len()) as int
        } else {
            free
        };
        lemma_last_boundary_in_second(a, b, most);
    } else {
        lemma_last_boundary_in_first(a, b, free);
    }
}

/// Writing a text in two pieces sends the records, and leaves in the buffer,
/// what writing it at once does.
pub proof fn lemma_chunked_concat(header: Seq<u8>, held: Seq<u8>, a: Seq<u8>, b: Seq<u8>)
    requires
        valid_utf8(a),
        valid_utf8(b),
        header.len() + MAX_CHAR_WIDTH <= RECORD_CAPACITY,
        header.len() <= held.len() <= RECORD_CAPACITY,
    ensures
        chunked(header, held, a + b) == then_written(header, chunked(header, held, a), b),
    decreases
            a.len(),
            (if held.len() > header.len() {
                1int
            } else {
                0int
            }),
{
    let ab = a + b;
    let free = room(held);
    lemma_pushed_len(a, free);
    lemma_pushed_len_concat(a, b, free);
    valid_utf8_concat(a, b);
    lemma_pushed_len(ab, free);
    let n_a = pushed_len(a, free);
    let n = pushed_len(ab, free);
    if a.len() == 0 {
        assert(Seq::<Seq<u8>>::empty() + chunked(header, held, b).0 =~= chunked(
            header,
            held,
            b,
        ).0);
    } else if n_a == a.len() {
        lemma_pushed_len(b, free - a.len());
        let n_b = pushed_len(b, room(held + a));
        if 0 < b.len() && n_b < b.len() {
            assert(ab.skip(n) =~= b.skip(n_b));
            assert(held + ab.take(n) =~= held + a + b.take(n_b));
        }
    } else {
        let rest = a.skip(n_a);
        valid_utf8_split(a, n_a);
        assert(ab.skip(n) =~= rest + b);
        assert(ab.take(n) =~= a.take(n_a));
        lemma_chunked_concat(header, header, rest, b);
    }
}

/// A write that was to flush `records` stopped at the record of index `k`,
/// which could not be sent: of the records, `after` holds those before it
/// behind what was sent `before`, and the buffer still holds it.
pub open spec fn stopped_at(
    before: Seq<Seq<u8>>,
    records: Seq<Seq<u8>>,
    k: int,
    after: Seq<Seq<u8>>,
    held: Seq<u8>,
) -> bool {
    &&& 0 <= k < records.len()
    &&& after == before + records.take(k)
    &&& held == records[k]
}

/// Every record that a write flushes holds text behind the header.
pub proof fn lemma_records_hold_text(header: Seq<u8>, held: Seq<u8>, text: Seq<u8>, k: int)
    requires
        valid_utf8(text),
        header.len() + MAX_CHAR_WIDTH <= RECORD_CAPACITY,
        header.len() <= held.len() <= RECORD_CAPACITY,
        0 <= k < chunked(header, held, text).0.len(),
    ensures
        chunked(header, held, text).0[k].len() > header.len(),
    decreases
            text.len(),
            (if held.len() > header.len() {
                1int
            } else {
                0int
            }),
{
    let n = pushed_len(text, room(held));
    lemma_pushed_len(text, room(held));
    if k > 0 {
        valid_utf8_split(text, n);
        assert(text.skip(n) == text.subrange(n, text.len() as int));
        lemma_records_hold_text(header, header, text.skip(n), k - 1);
    }
}

/// Text that is not empty leaves something to send: a record is flushed
/// while it is written, or the buffer holds text behind the header
/// afterwards.
pub proof fn lemma_text_is_sent(header: Seq<u8>, held: Seq<u8>, text: Seq<u8>)
    requires
        valid_utf8(text),
        header.len() + MAX_CHAR_WIDTH <= RECORD_CAPACITY,
        header.len() <= held.len() <= RECORD_CAPACITY,
        text.len() > 0,
    ensures
        chunked(header, held, text).0.len() > 0 || chunked(header, held, text).1.len()
            > header.len(),
{
    lemma_pushed_len(text, room(held));
}

/// Text that is not empty goes out in at least one record.
pub proof fn lemma_records_of_text(header: Seq<u8>, text: Seq<u8>)
    requires
        valid_utf8(text),
        header.len() + MAX_CHAR_WIDTH <= RECORD_CAPACITY,
        text.len() > 0,
    ensures
        records_of(header, text).len() > 0,
{
    lemma_text_is_sent(header, header, text);
}

} // verus!
