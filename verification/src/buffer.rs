//! Fixed-capacity text buffers.
//!
//! The buffers themselves are `str_buf::StrBuf`, which keeps its text in place
//! and never allocates. A `StrBuf<N>` keeps its length in the first one or two
//! of its `N` bytes: one up to 256 bytes, two up to 65537. So a `StrBuf<1026>`
//! holds 1024 bytes of text, and a `StrBuf<65>` holds 64.
//!
//! This module states what the rest of the library relies on when it calls
//! into the buffers. Nothing here is proved: each function is the call it
//! names, and its contract is what `str_buf` is trusted to do.

use str_buf::{StrBuf, StrBufError};
use vstd::prelude::*;
use vstd::string::*;
use vstd::utf8::*;

verus! {

/// `str_buf::StrBuf`, whose inside is not looked into.
#[verifier::external_type_specification]
#[verifier::external_body]
pub struct ExStrBuf<const N: usize>(StrBuf<N>);

/// `str_buf::StrBufError`: the text does not fit the buffer.
#[verifier::external_type_specification]
#[verifier::external_body]
pub struct ExStrBufError(StrBufError);

/// Buffer that holds one RFC 3164 record: at most 1024 bytes of text.
pub type Rfc3164Buffer = StrBuf<1026>;

/// Number of text bytes an [`Rfc3164Buffer`] can hold.
pub const RECORD_CAPACITY: usize = 1024;

/// Number of text bytes a hostname buffer can hold.
pub const HOSTNAME_CAPACITY: usize = 64;

/// Number of text bytes a tag buffer can hold.
pub const TAG_CAPACITY: usize = 32;

/// Number of text bytes a buffer for the attributes of a span can hold.
pub const SPAN_CAPACITY: usize = 250;

/// The bytes currently written into a record buffer.
pub uninterp spec fn record_bytes(buffer: StrBuf<1026>) -> Seq<u8>;

/// The text held by a hostname buffer.
pub uninterp spec fn hostname_text(buffer: StrBuf<65>) -> Seq<char>;

/// The text held by a tag buffer.
pub uninterp spec fn tag_text(buffer: StrBuf<33>) -> Seq<char>;

/// The bytes held by a buffer sized for an RFC 3164 header.
pub uninterp spec fn rfc3164_header_bytes(buffer: StrBuf<132>) -> Seq<u8>;

/// The bytes held by a buffer sized for an RFC 5424 header.
pub uninterp spec fn rfc5424_header_bytes(buffer: StrBuf<168>) -> Seq<u8>;

/// The bytes held by a buffer for the attributes of a span.
pub uninterp spec fn span_bytes(buffer: StrBuf<251>) -> Seq<u8>;

/// The largest character boundary of `text` that is at most `k`.
pub open spec fn last_boundary(text: Seq<u8>, k: int) -> int
    decreases k,
{
    if k <= 0 {
        0
    } else if is_char_boundary(text, k) {
        k
    } else {
        last_boundary(text, k - 1)
    }
}

/// Number of bytes of `text` that a truncating append takes when `room`
/// bytes are free: as many as fit, cut back to a character boundary.
pub open spec fn pushed_len(text: Seq<u8>, room: int) -> int {
    if text.len() <= room {
        last_boundary(text, text.len() as int)
    } else {
        last_boundary(text, room)
    }
}

/// `StrBuf::new`: the new buffer holds no bytes.
#[verifier::external_body]
pub(crate) fn record_new() -> (buffer: Rfc3164Buffer)
    ensures
        record_bytes(buffer) == Seq::<u8>::empty(),
{
    StrBuf::new()
}

/// `StrBuf::len`: the number of bytes written, which never exceeds the
/// capacity.
#[verifier::external_body]
pub(crate) fn record_len(buffer: &Rfc3164Buffer) -> (n: usize)
    ensures
        n == record_bytes(*buffer).len(),
        n <= RECORD_CAPACITY,
{
    buffer.len()
}

/// `StrBuf::push_str`: appends the longest prefix of `text` that fits and ends
/// on a character boundary, and returns its length in bytes. A buffer never
/// holds more than its capacity.
#[verifier::external_body]
pub(crate) fn record_push_str(buffer: &mut Rfc3164Buffer, text: &str) -> (n: usize)
    ensures
        record_bytes(*old(buffer)).len() <= RECORD_CAPACITY,
        n == pushed_len(text.spec_bytes(), RECORD_CAPACITY - record_bytes(*old(buffer)).len()),
        record_bytes(*final(buffer)) == record_bytes(*old(buffer)) + text.spec_bytes().subrange(
            0,
            n as int,
        ),
{
    buffer.push_str(text)
}

/// `StrBuf::as_str`: the written bytes as text.
#[verifier::external_body]
pub(crate) fn record_as_str(buffer: &Rfc3164Buffer) -> (text: &str)
    ensures
        text.spec_bytes() == record_bytes(*buffer),
{
    buffer.as_str()
}

/// `StrBuf::clear`: afterwards the buffer holds no bytes.
#[verifier::external_body]
pub(crate) fn record_clear(buffer: &mut Rfc3164Buffer)
    ensures
        record_bytes(*final(buffer)) == Seq::<u8>::empty(),
{
    buffer.clear()
}

/// `StrBuf::clone`: the copy holds the same bytes.
#[verifier::external_body]
pub(crate) fn record_clone(buffer: &Rfc3164Buffer) -> (copy: Rfc3164Buffer)
    ensures
        record_bytes(copy) == record_bytes(*buffer),
{
    buffer.clone()
}

/// `StrBuf::from_str_checked` at the hostname capacity: succeeds exactly when
/// the text is at most 64 bytes long, and then holds that text.
#[verifier::external_body]
pub(crate) fn hostname_from_str_checked(text: &str) -> (r: Result<StrBuf<65>, StrBufError>)
    ensures
        r is Ok <==> text.spec_bytes().len() <= HOSTNAME_CAPACITY,
        r matches Ok(buffer) ==> hostname_text(buffer) == text@,
{
    StrBuf::from_str_checked(text)
}

/// `StrBuf::as_str` on a hostname buffer: the text it holds.
#[verifier::external_body]
pub(crate) fn hostname_as_str(buffer: &StrBuf<65>) -> (text: &str)
    ensures
        text@ == hostname_text(*buffer),
{
    buffer.as_str()
}

/// `StrBuf::from_str_checked` at the tag capacity: succeeds exactly when the
/// text is at most 32 bytes long, and then holds that text.
#[verifier::external_body]
pub(crate) fn tag_from_str_checked(text: &str) -> (r: Result<StrBuf<33>, StrBufError>)
    ensures
        r is Ok <==> text.spec_bytes().len() <= TAG_CAPACITY,
        r matches Ok(buffer) ==> tag_text(buffer) == text@,
{
    StrBuf::from_str_checked(text)
}

/// `StrBuf::as_str` on a tag buffer: the text it holds.
#[verifier::external_body]
pub(crate) fn tag_as_str(buffer: &StrBuf<33>) -> (text: &str)
    ensures
        text@ == tag_text(*buffer),
{
    buffer.as_str()
}

/// `StrBuf::from_str` at the capacity of an RFC 3164 header, 131 bytes: the
/// buffer holds the text. Longer text is left out, as it would not fit.
#[verifier::external_body]
pub(crate) fn rfc3164_header_from_str(text: &str) -> (buffer: StrBuf<132>)
    requires
        text.spec_bytes().len() <= 131,
    ensures
        rfc3164_header_bytes(buffer) == text.spec_bytes(),
{
    StrBuf::from_str(text)
}

/// `StrBuf::from_str` at the capacity of an RFC 5424 header, 167 bytes: the
/// buffer holds the text. Longer text is left out, as it would not fit.
#[verifier::external_body]
pub(crate) fn rfc5424_header_from_str(text: &str) -> (buffer: StrBuf<168>)
    requires
        text.spec_bytes().len() <= 167,
    ensures
        rfc5424_header_bytes(buffer) == text.spec_bytes(),
{
    StrBuf::from_str(text)
}

/// `StrBuf::new` at the capacity for span attributes: the new buffer holds
/// no bytes.
#[verifier::external_body]
pub(crate) fn span_new() -> (buffer: StrBuf<251>)
    ensures
        span_bytes(buffer) == Seq::<u8>::empty(),
{
    StrBuf::new()
}

/// `StrBuf::len` on a buffer for span attributes: the number of bytes
/// written, which never exceeds the capacity.
#[verifier::external_body]
pub(crate) fn span_len(buffer: &StrBuf<251>) -> (n: usize)
    ensures
        n == span_bytes(*buffer).len(),
        n <= SPAN_CAPACITY,
{
    buffer.len()
}

/// `StrBuf::push_str` on a buffer for span attributes: appends the longest
/// prefix of `text` that fits and ends on a character boundary, and returns
/// its length in bytes. A buffer never holds more than its capacity.
#[verifier::external_body]
pub(crate) fn span_push_str(buffer: &mut StrBuf<251>, text: &str) -> (n: usize)
    ensures
        span_bytes(*old(buffer)).len() <= SPAN_CAPACITY,
        n == pushed_len(text.spec_bytes(), SPAN_CAPACITY - span_bytes(*old(buffer)).len()),
        span_bytes(*final(buffer)) == span_bytes(*old(buffer)) + text.spec_bytes().subrange(
            0,
            n as int,
        ),
{
    buffer.push_str(text)
}

/// `StrBuf::as_str` on a buffer for span attributes: the written bytes as
/// text.
#[verifier::external_body]
pub(crate) fn span_as_str(buffer: &StrBuf<251>) -> (text: &str)
    ensures
        text.spec_bytes() == span_bytes(*buffer),
{
    buffer.as_str()
}

/// `StrBuf::clone` on a buffer for span attributes: the copy holds the same
/// bytes.
#[verifier::external_body]
pub(crate) fn span_clone(buffer: &StrBuf<251>) -> (copy: StrBuf<251>)
    ensures
        span_bytes(copy) == span_bytes(*buffer),
{
    buffer.clone()
}

} // verus!
