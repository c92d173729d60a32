//! Writing ASCII text and decimal numbers into a record buffer.
//!
//! Every write is truncating: what does not fit into the buffer is left out,
//! and nothing fails.

use crate::buffer::{
    last_boundary, record_bytes, record_push_str, Rfc3164Buffer, RECORD_CAPACITY,
};
use vstd::prelude::*;
use vstd::string::*;
use vstd::utf8::*;

verus! {

/// The bytes of a text made of ASCII characters.
pub open spec fn ascii_bytes(text: Seq<char>) -> Seq<u8> {
    Seq::new(text.len(), |i: int| text[i] as u8)
}

/// Number of bytes that are free in a record buffer that holds `held`.
pub open spec fn room(held: Seq<u8>) -> int {
    RECORD_CAPACITY - held.len()
}

/// What a record buffer that held `held` holds after `text` was written to
/// it: all of `text` if it fits, else as much of it as does.
pub open spec fn appended(held: Seq<u8>, text: Seq<u8>) -> Seq<u8> {
    if text.len() <= room(held) {
        held + text
    } else {
        held + text.take(room(held))
    }
}

/// The character of a decimal digit.
pub open spec fn digit_char(d: nat) -> char
    recommends
        d < 10,
{
    (48 + d) as u8 as char
}

/// A number in decimal, without leading zeros.
pub open spec fn decimal(n: nat) -> Seq<char>
    decreases n,
{
    if n < 10 {
        seq![digit_char(n)]
    } else {
        decimal(n / 10).push(digit_char(n % 10))
    }
}

/// A number in decimal, filled up on the left with `fill` to `width`
/// characters. A number with more digits than `width` is written in full.
pub open spec fn padded(n: nat, width: nat, fill: char) -> Seq<char> {
    if decimal(n).len() >= width {
        decimal(n)
    } else {
        Seq::new((width - decimal(n).len()) as nat, |i: int| fill) + decimal(n)
    }
}

/// Ten to the power of `k`.
pub open spec fn pow10(k: nat) -> nat
    decreases k,
{
    if k == 0 {
        1
    } else {
        10 * pow10((k - 1) as nat)
    }
}

/// Powers of ten are positive.
pub proof fn lemma_pow10_positive(k: nat)
    ensures
        pow10(k) >= 1,
    decreases k,
{
    if k > 0 {
        lemma_pow10_positive((k - 1) as nat);
    }
}

/// A number below `10^k` has at most `k` digits, and one from `10^(k-1)` on
/// has at least `k`.
pub proof fn lemma_decimal_len(n: nat, k: nat)
    requires
        k >= 1,
    ensures
        decimal(n).len() >= 1,
        n < pow10(k) ==> decimal(n).len() <= k,
        n >= pow10((k - 1) as nat) ==> decimal(n).len() >= k,
    decreases k,
{
    reveal_with_fuel(pow10, 2);
    reveal_with_fuel(decimal, 2);
    if k >= 2 {
        lemma_pow10_positive((k - 2) as nat);
        if n >= 10 {
            lemma_decimal_len(n / 10, (k - 1) as nat);
        }
    }
}

/// A number that fits 8 bits has at most 3 digits, one below 100 at most 2.
pub proof fn lemma_decimal_len_u8(n: u8)
    ensures
        1 <= decimal(n as nat).len() <= 3,
        n < 100 ==> decimal(n as nat).len() <= 2,
{
    reveal_with_fuel(pow10, 4);
    lemma_decimal_len(n as nat, 3);
    lemma_decimal_len(n as nat, 2);
}

/// A number that fits 16 bits has at most 5 digits, one below 10000 at
/// most 4.
pub proof fn lemma_decimal_len_u16(n: u16)
    ensures
        1 <= decimal(n as nat).len() <= 5,
        n < 10000 ==> decimal(n as nat).len() <= 4,
{
    reveal_with_fuel(pow10, 6);
    lemma_decimal_len(n as nat, 5);
    lemma_decimal_len(n as nat, 4);
}

/// A number that fits 32 bits has at most 10 digits.
pub proof fn lemma_decimal_len_u32(n: u32)
    ensures
        1 <= decimal(n as nat).len() <= 10,
{
    reveal_with_fuel(pow10, 11);
    lemma_decimal_len(n as nat, 10);
}

/// A padded number is as long as the width, or as the number if that is
/// longer.
pub proof fn lemma_padded_len(n: nat, width: nat, fill: char)
    ensures
        padded(n, width, fill).len() == if decimal(n).len() >= width {
            decimal(n).len()
        } else {
            width
        },
{
}

/// Joining two ASCII texts gives ASCII text.
pub proof fn lemma_concat_ascii(a: Seq<char>, b: Seq<char>)
    requires
        is_ascii_chars(a),
        is_ascii_chars(b),
    ensures
        is_ascii_chars(a + b),
        (a + b).len() == a.len() + b.len(),
{
}

/// Decimal digits are ASCII.
pub proof fn lemma_decimal_ascii(n: nat)
    ensures
        is_ascii_chars(decimal(n)),
    decreases n,
{
    if n >= 10 {
        lemma_decimal_ascii(n / 10);
    }
}

/// Padding keeps a number ASCII if the fill character is.
pub proof fn lemma_padded_ascii(n: nat, width: nat, fill: char)
    requires
        fill <= '\u{7f}',
    ensures
        is_ascii_chars(padded(n, width, fill)),
{
    lemma_decimal_ascii(n);
}

/// Bytes of the concatenation of two texts.
pub proof fn lemma_ascii_bytes_concat(a: Seq<char>, b: Seq<char>)
    ensures
        ascii_bytes(a + b) == ascii_bytes(a) + ascii_bytes(b),
{
}

/// Two writes in a row leave what one write of the joined text leaves.
pub proof fn lemma_appended_twice(held: Seq<u8>, a: Seq<u8>, b: Seq<u8>)
    requires
        held.len() <= RECORD_CAPACITY,
    ensures
        appended(appended(held, a), b) == appended(held, a + b),
        appended(held, a).len() <= RECORD_CAPACITY,
{
}

/// In ASCII text every index is a character boundary.
pub proof fn lemma_ascii_boundary(text: Seq<char>, k: int)
    requires
        is_ascii_chars(text),
        0 <= k <= text.len(),
    ensures
        encode_utf8(text) == ascii_bytes(text),
        is_char_boundary(ascii_bytes(text), k),
        last_boundary(ascii_bytes(text), k) == k,
{
    is_ascii_chars_encode_utf8(text);
    assert(encode_utf8(text) =~= ascii_bytes(text));
    encode_utf8_valid_utf8(text);
    let bytes = ascii_bytes(text);
    is_char_boundary_start_end_of_seq(bytes);
    if k > 0 {
        if k == bytes.len() {
            is_char_boundary_start_end_of_seq(bytes);
        } else {
            is_char_boundary_iff_not_is_continuation_byte(bytes, k);
        }
    }
}

/// The bytes of ASCII text are valid UTF-8.
pub proof fn lemma_ascii_valid(text: Seq<char>)
    requires
        is_ascii_chars(text),
    ensures
        valid_utf8(ascii_bytes(text)),
        ascii_bytes(text) == encode_utf8(text),
{
    is_ascii_chars_encode_utf8(text);
    encode_utf8_valid_utf8(text);
    assert(ascii_bytes(text) =~= encode_utf8(text));
}

/// Writes ASCII `text` after what `out` holds, as far as it fits.
pub(crate) fn put(out: &mut Rfc3164Buffer, text: &str)
    requires
        is_ascii_chars(text@),
    ensures
        record_bytes(*old(out)).len() <= RECORD_CAPACITY,
        record_bytes(*final(out)) == appended(record_bytes(*old(out)), ascii_bytes(text@)),
{
    let _ = record_push_str(out, text);
    proof {
        let free = room(record_bytes(*old(out)));
        let k = if text@.len() <= free { text@.len() as int } else { free };
        lemma_ascii_boundary(text@, k);
    }
}

/// Writes `text` as the next piece of a longer text, of which `done` was
/// written before to a buffer that held `start`.
pub(crate) fn put_piece(
    out: &mut Rfc3164Buffer,
    text: &str,
    Ghost(start): Ghost<Seq<u8>>,
    Ghost(done): Ghost<Seq<char>>,
)
    requires
        is_ascii_chars(text@),
        start.len() <= RECORD_CAPACITY,
        record_bytes(*old(out)) == appended(start, ascii_bytes(done)),
    ensures
        record_bytes(*final(out)) == appended(start, ascii_bytes(done + text@)),
{
    put(out, text);
    proof {
        lemma_appended_twice(start, ascii_bytes(done), ascii_bytes(text@));
        lemma_ascii_bytes_concat(done, text@);
    }
}

/// The text of one decimal digit.
pub(crate) fn digit_str(d: u32) -> (text: &'static str)
    requires
        d < 10,
    ensures
        text@ == seq![digit_char(d as nat)],
        is_ascii_chars(text@),
{
    proof {
        reveal_strlit("0");
        reveal_strlit("1");
        reveal_strlit("2");
        reveal_strlit("3");
        reveal_strlit("4");
        reveal_strlit("5");
        reveal_strlit("6");
        reveal_strlit("7");
        reveal_strlit("8");
        reveal_strlit("9");
    }
    let text = match d {
        0 => "0",
        1 => "1",
        2 => "2",
        3 => "3",
        4 => "4",
        5 => "5",
        6 => "6",
        7 => "7",
        8 => "8",
        _ => "9",
    };
    text
}

/// Writes `n` in decimal as the next piece of a longer text.
pub(crate) fn put_decimal(
    out: &mut Rfc3164Buffer,
    n: u32,
    Ghost(start): Ghost<Seq<u8>>,
    Ghost(done): Ghost<Seq<char>>,
)
    requires
        start.len() <= RECORD_CAPACITY,
        record_bytes(*old(out)) == appended(start, ascii_bytes(done)),
    ensures
        record_bytes(*final(out)) == appended(start, ascii_bytes(done + decimal(n as nat))),
    decreases n,
{
    if n < 10 {
        put_piece(out, digit_str(n), Ghost(start), Ghost(done));
    } else {
        put_decimal(out, n / 10, Ghost(start), Ghost(done));
        put_piece(out, digit_str(n % 10), Ghost(start), Ghost(done + decimal((n / 10) as nat)));
        assert(done + decimal((n / 10) as nat) + seq![digit_char((n % 10) as nat)] =~= done
            + decimal(n as nat));
    }
}

/// Number of decimal digits of `n`.
pub(crate) fn digits_of(n: u32) -> (count: usize)
    ensures
        count == decimal(n as nat).len(),
        1 <= count <= 10,
    decreases n,
{
    proof {
        reveal_with_fuel(pow10, 11);
        lemma_decimal_len(n as nat, 10);
    }
    if n < 10 {
        1
    } else {
        1 + digits_of(n / 10)
    }
}

/// Writes `n` in decimal, filled up on the left to `width` characters with
/// the one character of `fill`, as the next piece of a longer text.
pub(crate) fn put_padded(
    out: &mut Rfc3164Buffer,
    n: u32,
    width: usize,
    fill: &str,
    Ghost(start): Ghost<Seq<u8>>,
    Ghost(done): Ghost<Seq<char>>,
)
    requires
        fill@.len() == 1,
        is_ascii_chars(fill@),
        start.len() <= RECORD_CAPACITY,
        record_bytes(*old(out)) == appended(start, ascii_bytes(done)),
    ensures
        record_bytes(*final(out)) == appended(
            start,
            ascii_bytes(done + padded(n as nat, width as nat, fill@[0])),
        ),
{
    let count = digits_of(n);
    let mut filled: usize = count;
    let ghost mut written = done;
    while filled < width
        invariant
            count <= filled,
            filled <= width || filled == count,
            fill@.len() == 1,
            is_ascii_chars(fill@),
            start.len() <= RECORD_CAPACITY,
            written == done + Seq::new((filled - count) as nat, |i: int| fill@[0]),
            record_bytes(*out) == appended(start, ascii_bytes(written)),
        decreases width - filled,
    {
        put_piece(out, fill, Ghost(start), Ghost(written));
        proof {
            written = written + fill@;
        }
        filled += 1;
    }
    put_decimal(out, n, Ghost(start), Ghost(written));
}

} // verus!
