//! Logging of events that carry fields and span attributes, as the
//! `tracing` facade hands them over.

use crate::buffer::{
    pushed_len, record_bytes, record_new, span_as_str, span_bytes, span_clone, span_len, span_new,
    span_push_str, Rfc3164Buffer, RECORD_CAPACITY, SPAN_CAPACITY,
};
use crate::chunking::{
    chunked, flushed, lemma_chunked_concat, lemma_records_of_text, records_of, stopped_at,
    MAX_CHAR_WIDTH,
};
use crate::format::{ascii_bytes, lemma_ascii_valid};
use crate::process_id;
use crate::syslog::header::{Rfc3164, Timestamp};
use crate::syslog::{LogLevel, Severity};
use crate::writer::{MakeTransport, Writer};
use crate::{Rfc3164RecordWriter, Syslog};
use core::fmt::Write;
use str_buf::StrBuf;
use vstd::prelude::*;
use vstd::string::*;
use vstd::utf8::*;

verus! {

/// Number of bytes from which on the value of a span attribute is replaced
/// by a placeholder.
pub const FIELD_SIZE_LIMIT: usize = 50;

/// The text that stands for a value that is too long: `<TRNCT>`.
pub open spec fn placeholder() -> Seq<u8> {
    ascii_bytes(seq!['<', 'T', 'R', 'N', 'C', 'T', '>'])
}

/// What a buffer for span attributes that held `held` holds after `text`
/// was written to it: the text is cut, at a character boundary, where the
/// buffer ends.
pub open spec fn span_pushed(held: Seq<u8>, text: Seq<u8>) -> Seq<u8> {
    held + text.take(pushed_len(text, SPAN_CAPACITY - held.len()))
}

/// What the buffer holds after the name of the next attribute was written:
/// a space if an attribute came before, the name, and `=`.
pub open spec fn field_prepared(held: Seq<u8>, name: Seq<u8>) -> Seq<u8> {
    span_pushed(
        span_pushed(
            if held.len() > 0 {
                span_pushed(held, ascii_bytes(seq![' ']))
            } else {
                held
            },
            name,
        ),
        ascii_bytes(seq!['=']),
    )
}

/// What the buffer holds after a text value was recorded: the value, or the
/// placeholder in place of a value of more than 50 bytes.
pub open spec fn str_recorded(held: Seq<u8>, value: Seq<u8>) -> Seq<u8> {
    if value.len() <= FIELD_SIZE_LIMIT {
        span_pushed(held, value)
    } else {
        span_pushed(held, placeholder())
    }
}

/// What the buffer holds after a formatted value was recorded: the value
/// as far as it fits, or the placeholder in place of it if more than 50
/// bytes of it were written.
pub open spec fn value_recorded(held: Seq<u8>, value: Seq<u8>) -> Seq<u8> {
    if span_pushed(held, value).len() - held.len() > FIELD_SIZE_LIMIT {
        span_pushed(held, placeholder())
    } else {
        span_pushed(held, value)
    }
}

/// `Debug` formatting of `value`, as `write!` puts it into a `String`. Where
/// the formatting of `value` fails, the text is what was written until then.
/// Nothing is known of the text.
#[verifier::external_body]
fn debug_text(value: &dyn core::fmt::Debug) -> (text: String) {
    let mut text = String::new();
    let _ = write!(text, "{:?}", value);
    text
}

/// `Display` formatting of `value`, as `write!` puts it into a `String`.
/// Where the formatting of `value` fails, the text is what was written until
/// then. Nothing is known of the text.
#[verifier::external_body]
fn display_text(value: &dyn core::fmt::Display) -> (text: String) {
    let mut text = String::new();
    let _ = write!(text, "{}", value);
    text
}

/// Accumulator of span's attributes.
///
/// The attributes of one span are limited to 250 bytes; what does not fit
/// is left out.
pub struct Rfc3164SpanAttrsAccum {
    name: &'static str,
    buffer: StrBuf<251>,
}

impl Rfc3164SpanAttrsAccum {
    /// The name of the span.
    pub closed spec fn name(&self) -> Seq<u8> {
        self.name.spec_bytes()
    }

    /// The attributes recorded so far.
    pub closed spec fn values(&self) -> Seq<u8> {
        span_bytes(self.buffer)
    }

    /// Creates new span accumulator, without attributes.
    pub fn new(name: &'static str) -> (accum: Self)
        ensures
            accum.name() == name.spec_bytes(),
            accum.values() == Seq::<u8>::empty(),
    {
        Rfc3164SpanAttrsAccum { name, buffer: span_new() }
    }

    /// Returns the name of the span.
    pub fn span_name(&self) -> (name: &'static str)
        ensures
            name.spec_bytes() == self.name(),
    {
        self.name
    }

    /// Returns accumulated list of span fields.
    pub fn span_values(&self) -> (values: &str)
        ensures
            values.spec_bytes() == self.values(),
    {
        span_as_str(&self.buffer)
    }

    /// Writes the name of the next attribute, parted from the attribute
    /// before it by a space, and `=`.
    pub fn prepare_next_field(&mut self, name: &str)
        ensures
            final(self).name() == old(self).name(),
            final(self).values() == field_prepared(old(self).values(), name.spec_bytes()),
    {
        proof {
            reveal_strlit(" ");
            reveal_strlit("=");
            assert(" "@ =~= seq![' ']);
            assert("="@ =~= seq!['=']);
            lemma_ascii_valid(" "@);
            lemma_ascii_valid("="@);
        }
        if span_len(&self.buffer) > 0 {
            let _ = span_push_str(&mut self.buffer, " ");
        }
        let _ = span_push_str(&mut self.buffer, name);
        let _ = span_push_str(&mut self.buffer, "=");
    }

    /// Replaces what was written behind the first `prev_size` bytes by the
    /// placeholder, if that is more than 50 bytes. `before` is the buffer as
    /// it was when it held these `prev_size` bytes.
    fn truncate_value_if_necessary(&mut self, prev_size: usize, before: StrBuf<251>)
        requires
            prev_size == span_bytes(before).len(),
        ensures
            final(self).name() == old(self).name(),
            final(self).values() == if old(self).values().len() - prev_size > FIELD_SIZE_LIMIT {
                span_pushed(span_bytes(before), placeholder())
            } else {
                old(self).values()
            },
    {
        let size = span_len(&self.buffer);
        let value_size = if size >= prev_size {
            size - prev_size
        } else {
            0
        };
        if value_size > FIELD_SIZE_LIMIT {
            proof {
                reveal_strlit("<TRNCT>");
                assert("<TRNCT>"@ =~= seq!['<', 'T', 'R', 'N', 'C', 'T', '>']);
                lemma_ascii_valid("<TRNCT>"@);
            }
            self.buffer = before;
            let _ = span_push_str(&mut self.buffer, "<TRNCT>");
        }
    }

    /// Records a value that is formatted already, truncating if necessary.
    pub fn record_formatted_value(&mut self, value: &str)
        ensures
            final(self).name() == old(self).name(),
            final(self).values() == value_recorded(old(self).values(), value.spec_bytes()),
    {
        let prev_size = span_len(&self.buffer);
        let before = span_clone(&self.buffer);
        let _ = span_push_str(&mut self.buffer, value);
        self.truncate_value_if_necessary(prev_size, before);
    }

    /// Records value using `Debug`, truncating if necessary.
    pub fn record_debug_value(&mut self, value: &dyn core::fmt::Debug)
        ensures
            final(self).name() == old(self).name(),
            exists|text: Seq<u8>|
                final(self).values() == #[trigger] value_recorded(old(self).values(), text),
    {
        let text = debug_text(value);
        self.record_formatted_value(text.as_str());
    }

    /// Records value using `Display`, truncating if necessary.
    pub fn record_error_value(&mut self, value: &dyn core::fmt::Display)
        ensures
            final(self).name() == old(self).name(),
            exists|text: Seq<u8>|
                final(self).values() == #[trigger] value_recorded(old(self).values(), text),
    {
        let text = display_text(value);
        self.record_formatted_value(text.as_str());
    }

    /// Records the text of a number as it is.
    pub fn record_plain_value(&mut self, value: &str)
        ensures
            final(self).name() == old(self).name(),
            final(self).values() == span_pushed(old(self).values(), value.spec_bytes()),
    {
        let _ = span_push_str(&mut self.buffer, value);
    }

    /// Records `true` or `false`.
    pub fn record_bool_value(&mut self, value: bool)
        ensures
            final(self).name() == old(self).name(),
            final(self).values() == span_pushed(
                old(self).values(),
                if value {
                    ascii_bytes(seq!['t', 'r', 'u', 'e'])
                } else {
                    ascii_bytes(seq!['f', 'a', 'l', 's', 'e'])
                },
            ),
    {
        proof {
            reveal_strlit("true");
            reveal_strlit("false");
            assert("true"@ =~= seq!['t', 'r', 'u', 'e']);
            assert("false"@ =~= seq!['f', 'a', 'l', 's', 'e']);
            lemma_ascii_valid("true"@);
            lemma_ascii_valid("false"@);
        }
        if value {
            let _ = span_push_str(&mut self.buffer, "true");
        } else {
            let _ = span_push_str(&mut self.buffer, "false");
        }
    }

    /// Records str as it is, truncating if necessary.
    pub fn record_str_value(&mut self, value: &str)
        ensures
            final(self).name() == old(self).name(),
            final(self).values() == str_recorded(old(self).values(), value.spec_bytes()),
    {
        proof {
            reveal_strlit("<TRNCT>");
            assert("<TRNCT>"@ =~= seq!['<', 'T', 'R', 'N', 'C', 'T', '>']);
            lemma_ascii_valid("<TRNCT>"@);
        }
        if value.as_bytes().len() <= FIELD_SIZE_LIMIT {
            let _ = span_push_str(&mut self.buffer, value);
        } else {
            let _ = span_push_str(&mut self.buffer, "<TRNCT>");
        }
    }
}

impl Clone for Rfc3164SpanAttrsAccum {
    fn clone(&self) -> Self {
        Rfc3164SpanAttrsAccum { name: self.name, buffer: span_clone(&self.buffer) }
    }
}

/// The name of the field that holds the message of an event.
pub open spec fn message_field() -> Seq<u8> {
    ascii_bytes(seq!['m', 'e', 's', 's', 'a', 'g', 'e'])
}

/// The text of one field of an event: the value alone for the message, else
/// a space, the name, `=` and the value.
pub open spec fn field_bytes(name: Seq<u8>, value: Seq<u8>) -> Seq<u8> {
    if name == message_field() {
        value
    } else {
        ascii_bytes(seq![' ']) + name + ascii_bytes(seq!['=']) + value
    }
}

/// The text of the attributes of one span: ` [`, the name of the span, a
/// space, the attributes and `]`.
pub open spec fn span_text(name: Seq<u8>, values: Seq<u8>) -> Seq<u8> {
    ascii_bytes(seq![' ', '[']) + name + ascii_bytes(seq![' ']) + values + ascii_bytes(seq![']'])
}

/// The text of the fields of an event, in their order.
pub open spec fn fields_bytes(fields: Seq<(String, String)>) -> Seq<u8>
    decreases fields.len(),
{
    if fields.len() == 0 {
        Seq::empty()
    } else {
        fields_bytes(fields.drop_last()) + field_bytes(
            encode_utf8(fields.last().0@),
            encode_utf8(fields.last().1@),
        )
    }
}

/// The text of the attributes of spans, in their order.
pub open spec fn spans_bytes(spans: Seq<Rfc3164SpanAttrsAccum>) -> Seq<u8>
    decreases spans.len(),
{
    if spans.len() == 0 {
        Seq::empty()
    } else {
        spans_bytes(spans.drop_last()) + span_text(spans.last().name(), spans.last().values())
    }
}

/// The text of a field of valid UTF-8 is valid UTF-8.
pub proof fn lemma_field_valid(name: Seq<u8>, value: Seq<u8>)
    requires
        valid_utf8(name),
        valid_utf8(value),
    ensures
        valid_utf8(field_bytes(name, value)),
{
    lemma_ascii_valid(seq![' ']);
    lemma_ascii_valid(seq!['=']);
    valid_utf8_concat(ascii_bytes(seq![' ']), name);
    valid_utf8_concat(ascii_bytes(seq![' ']) + name, ascii_bytes(seq!['=']));
    valid_utf8_concat(ascii_bytes(seq![' ']) + name + ascii_bytes(seq!['=']), value);
}

/// The text of a span of valid UTF-8 is valid UTF-8.
pub proof fn lemma_span_valid(name: Seq<u8>, values: Seq<u8>)
    requires
        valid_utf8(name),
        valid_utf8(values),
    ensures
        valid_utf8(span_text(name, values)),
{
    lemma_ascii_valid(seq![' ', '[']);
    lemma_ascii_valid(seq![' ']);
    lemma_ascii_valid(seq![']']);
    valid_utf8_concat(ascii_bytes(seq![' ', '[']), name);
    valid_utf8_concat(ascii_bytes(seq![' ', '[']) + name, ascii_bytes(seq![' ']));
    valid_utf8_concat(ascii_bytes(seq![' ', '[']) + name + ascii_bytes(seq![' ']), values);
    valid_utf8_concat(
        ascii_bytes(seq![' ', '[']) + name + ascii_bytes(seq![' ']) + values,
        ascii_bytes(seq![']']),
    );
}

/// Tells whether two texts are the same, byte by byte.
fn same_text(a: &str, b: &str) -> (same: bool)
    ensures
        same == (a.spec_bytes() == b.spec_bytes()),
{
    let left = a.as_bytes();
    let right = b.as_bytes();
    if left.len() != right.len() {
        return false;
    }
    let mut idx: usize = 0;
    while idx < left.len()
        invariant
            idx <= left.len(),
            left.len() == right.len(),
            left@ == a.spec_bytes(),
            right@ == b.spec_bytes(),
            forall|i: int| 0 <= i < idx ==> left@[i] == right@[i],
        decreases left.len() - idx,
    {
        if left[idx] != right[idx] {
            return false;
        }
        idx += 1;
    }
    assert(left@ =~= right@);
    true
}

/// Writer of the fields of one event, and of the attributes of the spans it
/// lies in.
pub struct Rfc3164EventVisitor<'a, W: MakeTransport> {
    /// The record that the event is written to
    pub record: Rfc3164RecordWriter<'a, W>,
}

impl<'a, W: MakeTransport> Rfc3164EventVisitor<'a, W> {
    /// Creates a writer of the fields of the event that `record` is for.
    pub fn new(record: Rfc3164RecordWriter<'a, W>) -> (visitor: Self)
        ensures
            visitor.record == record,
    {
        Rfc3164EventVisitor { record }
    }

    /// Writes the field `name` with its formatted `value` to the record: the
    /// message as it is, any other field as ` name=value`.
    ///
    /// When a flush fails on the way, the error is returned: the records
    /// before the one that failed were sent, and the buffer holds the one
    /// that failed.
    #[verifier::rlimit(40)]
    pub fn record_field(&mut self, name: &str, value: &str) -> (r: Result<(), W::Error>)
        requires
            old(self).record.wf(),
        ensures
            final(self).record.wf(),
            final(self).record.same_record(&old(self).record),
            old(self).record.writer.sent().is_prefix_of(final(self).record.writer.sent()),
            r is Ok ==> final(self).record.writer.sent() == old(self).record.writer.sent()
                + chunked(
                old(self).record.header(),
                old(self).record.content(),
                field_bytes(name.spec_bytes(), value.spec_bytes()),
            ).0 && final(self).record.content() == chunked(
                old(self).record.header(),
                old(self).record.content(),
                field_bytes(name.spec_bytes(), value.spec_bytes()),
            ).1,
            r is Err ==> exists|k: int|
                #[trigger] stopped_at(
                    old(self).record.writer.sent(),
                    chunked(
                        old(self).record.header(),
                        old(self).record.content(),
                        field_bytes(name.spec_bytes(), value.spec_bytes()),
                    ).0,
                    k,
                    final(self).record.writer.sent(),
                    final(self).record.content(),
                ),
            *final(final(self).record.writer) == *final(old(self).record.writer),
            *final(final(self).record.buffer) == *final(old(self).record.buffer),
    {
        let ghost before = self.record.writer.sent();
        let ghost start = self.record.content();
        let ghost label = name.spec_bytes();
        let ghost what = value.spec_bytes();
        let ghost space = " ".spec_bytes();
        let ghost equals = "=".spec_bytes();
        let ghost full = field_bytes(label, what);
        let ghost none = Seq::<u8>::empty();
        let ghost mut done = none;
        proof {
            reveal_strlit("message");
            reveal_strlit(" ");
            reveal_strlit("=");
            assert("message"@ =~= seq!['m', 'e', 's', 's', 'a', 'g', 'e']);
            assert(" "@ =~= seq![' ']);
            assert("="@ =~= seq!['=']);
            lemma_ascii_valid("message"@);
            lemma_ascii_valid(" "@);
            lemma_ascii_valid("="@);
            encode_utf8_valid_utf8(name@);
            encode_utf8_valid_utf8(value@);
            valid_utf8_concat(equals, what);
            valid_utf8_concat(label, equals);
            valid_utf8_concat(label + equals, what);
        }
        if !same_text(name, "message") {
            proof {
                assert(none + space + (label + equals + what) =~= full);
                assert(none + space + label + (equals + what) =~= full);
            }
            match self.record.write_piece(
                " ",
                Ghost(before),
                Ghost(start),
                Ghost(done),
                Ghost(label + equals + what),
            ) {
                Ok(()) => {},
                Err(error) => {
                    return Err(error);
                },
            }
            proof {
                done = done + space;
            }
            match self.record.write_piece(
                name,
                Ghost(before),
                Ghost(start),
                Ghost(done),
                Ghost(equals + what),
            ) {
                Ok(()) => {},
                Err(error) => {
                    return Err(error);
                },
            }
            proof {
                done = done + label;
            }
            match self.record.write_piece(
                "=",
                Ghost(before),
                Ghost(start),
                Ghost(done),
                Ghost(what),
            ) {
                Ok(()) => {},
                Err(error) => {
                    return Err(error);
                },
            }
            proof {
                done = done + equals;
            }
        }
        match self.record.write_piece(value, Ghost(before), Ghost(start), Ghost(done), Ghost(none)) {
            Ok(()) => {},
            Err(error) => {
                return Err(error);
            },
        }
        Ok(())
    }

    /// Writes the attributes of a span to the record, as
    /// ` [name attributes]`.
    ///
    /// When a flush fails on the way, the error is returned: the records
    /// before the one that failed were sent, and the buffer holds the one
    /// that failed.
    #[verifier::rlimit(40)]
    pub fn record_span(&mut self, span: &Rfc3164SpanAttrsAccum) -> (r: Result<(), W::Error>)
        requires
            old(self).record.wf(),
        ensures
            final(self).record.wf(),
            final(self).record.same_record(&old(self).record),
            old(self).record.writer.sent().is_prefix_of(final(self).record.writer.sent()),
            r is Ok ==> final(self).record.writer.sent() == old(self).record.writer.sent()
                + chunked(
                old(self).record.header(),
                old(self).record.content(),
                span_text(span.name(), span.values()),
            ).0 && final(self).record.content() == chunked(
                old(self).record.header(),
                old(self).record.content(),
                span_text(span.name(), span.values()),
            ).1,
            r is Err ==> exists|k: int|
                #[trigger] stopped_at(
                    old(self).record.writer.sent(),
                    chunked(
                        old(self).record.header(),
                        old(self).record.content(),
                        span_text(span.name(), span.values()),
                    ).0,
                    k,
                    final(self).record.writer.sent(),
                    final(self).record.content(),
                ),
            *final(final(self).record.writer) == *final(old(self).record.writer),
            *final(final(self).record.buffer) == *final(old(self).record.buffer),
    {
        let ghost before = self.record.writer.sent();
        let ghost start = self.record.content();
        let name = span.span_name();
        let values = span.span_values();
        let ghost label = name.spec_bytes();
        let ghost what = values.spec_bytes();
        let ghost open = " [".spec_bytes();
        let ghost space = " ".spec_bytes();
        let ghost close = "]".spec_bytes();
        let ghost full = span_text(span.name(), span.values());
        let ghost none = Seq::<u8>::empty();
        let ghost mut done = none;
        proof {
            reveal_strlit(" [");
            reveal_strlit(" ");
            reveal_strlit("]");
            assert(" ["@ =~= seq![' ', '[']);
            assert(" "@ =~= seq![' ']);
            assert("]"@ =~= seq![']']);
            lemma_ascii_valid(" ["@);
            lemma_ascii_valid(" "@);
            lemma_ascii_valid("]"@);
            encode_utf8_valid_utf8(name@);
            encode_utf8_valid_utf8(values@);
            valid_utf8_concat(what, close);
            valid_utf8_concat(space, what);
            valid_utf8_concat(space + what, close);
            valid_utf8_concat(label, space);
            valid_utf8_concat(label + space, what);
            valid_utf8_concat(label + space + what, close);
            assert(none + open + (label + space + what + close) =~= full);
            assert(none + open + label + (space + what + close) =~= full);
            assert(none + open + label + space + (what + close) =~= full);
        }
        match self.record.write_piece(
            " [",
            Ghost(before),
            Ghost(start),
            Ghost(done),
            Ghost(label + space + what + close),
        ) {
            Ok(()) => {},
            Err(error) => {
                return Err(error);
            },
        }
        proof {
            done = done + open;
        }
        match self.record.write_piece(
            name,
            Ghost(before),
            Ghost(start),
            Ghost(done),
            Ghost(space + what + close),
        ) {
            Ok(()) => {},
            Err(error) => {
                return Err(error);
            },
        }
        proof {
            done = done + label;
        }
        match self.record.write_piece(
            " ",
            Ghost(before),
            Ghost(start),
            Ghost(done),
            Ghost(what + close),
        ) {
            Ok(()) => {},
            Err(error) => {
                return Err(error);
            },
        }
        proof {
            done = done + space;
        }
        match self.record.write_piece(values, Ghost(before), Ghost(start), Ghost(done), Ghost(close)) {
            Ok(()) => {},
            Err(error) => {
                return Err(error);
            },
        }
        proof {
            done = done + what;
        }
        match self.record.write_piece("]", Ghost(before), Ghost(start), Ghost(done), Ghost(none)) {
            Ok(()) => {},
            Err(error) => {
                return Err(error);
            },
        }
        Ok(())
    }

    /// Ends the event: flushes the record and clears the buffer. The flush
    /// sends what the buffer holds, whatever became of the fields before;
    /// with nothing behind the header, nothing is sent and nothing fails.
    pub fn finish(self) -> (r: Result<(), W::Error>)
        requires
            self.record.wf(),
        ensures
            record_bytes(*final(self.record.buffer)) == Seq::<u8>::empty(),
            old(self.record.writer).sent().is_prefix_of(final(self.record.writer).sent()),
            r is Ok ==> final(self.record.writer).sent() == old(self.record.writer).sent()
                + flushed(self.record.header(), record_bytes(*old(self.record.buffer))).0,
            r is Err ==> record_bytes(*old(self.record.buffer)).len() > self.record.header().len()
                && final(self.record.writer).sent() == old(self.record.writer).sent(),
    {
        let mut visitor = self;
        let end = visitor.record.flush_without_clear();
        visitor.record.finish();
        end
    }
}

/// Tracing layer for syslog.
///
/// Each event is sent over a transport of its own, made by a copy of the
/// factory. An event that does not fit 1024 bytes is split into several
/// records.
pub struct Rfc3164Layer<W> {
    /// What every record has in common
    pub syslog: Syslog,
    /// The factory of transports
    pub writer: W,
}

impl<W> Rfc3164Layer<W> {
    /// Creates new instance which requires writer to be Clone-able.
    pub fn new(syslog: Syslog, writer: W) -> (layer: Self)
        ensures
            layer.syslog == syslog,
            layer.writer == writer,
    {
        Rfc3164Layer { syslog, writer }
    }
}

impl<W: MakeTransport + Clone> Rfc3164Layer<W> {
    /// Logs an event of `level` with its `fields`, followed by the
    /// attributes of the `spans` it lies in, as a record that is stamped
    /// with `timestamp` and `pid`. The record is built in `buffer`, behind
    /// what it holds, and sent by `writer`; the buffer is empty afterwards.
    ///
    /// When something cannot be sent, the rest is written and flushed all
    /// the same, and the first error is returned.
    #[verifier::loop_isolation(false)]
    #[verifier::rlimit(60)]
    pub fn event_with(
        &self,
        writer: &mut Writer<W>,
        buffer: &mut Rfc3164Buffer,
        level: LogLevel,
        fields: &Vec<(String, String)>,
        spans: &Vec<Rfc3164SpanAttrsAccum>,
        timestamp: Timestamp,
        pid: u32,
    ) -> (r: Result<(), W::Error>)
        requires
            record_bytes(*old(buffer)).len() + Rfc3164::LIMIT + 1 + MAX_CHAR_WIDTH
                <= RECORD_CAPACITY,
        ensures
            record_bytes(*final(buffer)) == Seq::<u8>::empty(),
            old(writer).sent().is_prefix_of(final(writer).sent()),
            r is Ok ==> final(writer).sent() == old(writer).sent() + records_of(
                record_bytes(*old(buffer)) + self.syslog.header_at(
                    Severity::of_level(level),
                    timestamp,
                    pid,
                ),
                fields_bytes(fields@) + spans_bytes(spans@),
            ),
            r is Err ==> records_of(
                record_bytes(*old(buffer)) + self.syslog.header_at(
                    Severity::of_level(level),
                    timestamp,
                    pid,
                ),
                fields_bytes(fields@) + spans_bytes(spans@),
            ).len() > 0,
    {
        let severity = Severity::from_level(level);
        let ghost before = writer.sent();
        let ghost header = record_bytes(*buffer) + self.syslog.header_at(severity, timestamp, pid);
        let record = Rfc3164RecordWriter::with_stamp(
            &self.syslog,
            writer,
            buffer,
            severity,
            timestamp,
            pid,
        );
        let ghost writer_end = *final(record.writer);
        let ghost buffer_end = *final(record.buffer);
        let mut visitor = Rfc3164EventVisitor::new(record);
        let ghost mut done = Seq::<u8>::empty();
        let ghost mut seen = Seq::<u8>::empty();
        let mut failed: Option<W::Error> = None;
        let mut idx: usize = 0;
        while idx < fields.len()
            invariant
                idx <= fields.len(),
                visitor.record.wf(),
                visitor.record.header() == header,
                valid_utf8(done),
                valid_utf8(seen),
                seen == fields_bytes(fields@.take(idx as int)),
                failed is Some ==> seen.len() > 0,
                before.is_prefix_of(visitor.record.writer.sent()),
                failed is None ==> done == fields_bytes(fields@.take(idx as int)),
                failed is None ==> visitor.record.writer.sent() == before + chunked(
                    header,
                    header,
                    done,
                ).0,
                failed is None ==> visitor.record.content() == chunked(header, header, done).1,
                *final(visitor.record.writer) == writer_end,
                *final(visitor.record.buffer) == buffer_end,
            decreases fields.len() - idx,
        {
            let name = fields[idx].0.as_str();
            let value = fields[idx].1.as_str();
            let ghost text = field_bytes(name.spec_bytes(), value.spec_bytes());
            proof {
                encode_utf8_valid_utf8(name@);
                encode_utf8_valid_utf8(value@);
                lemma_field_valid(name.spec_bytes(), value.spec_bytes());
                valid_utf8_concat(done, text);
                valid_utf8_concat(seen, text);
                lemma_chunked_concat(header, header, done, text);
                assert(fields@.take(idx + 1).drop_last() =~= fields@.take(idx as int));
            }
            let ghost sent = visitor.record.writer.sent();
            let ghost held = visitor.record.content();
            match visitor.record_field(name, value) {
                Ok(()) => {
                    proof {
                        done = done + text;
                    }
                },
                Err(error) => {
                    proof {
                        let k = choose|k: int|
                            stopped_at(
                                sent,
                                chunked(header, held, text).0,
                                k,
                                visitor.record.writer.sent(),
                                visitor.record.content(),
                            );
                        assert(text.len() > 0);
                    }
                    if failed.is_none() {
                        failed = Some(error);
                    }
                },
            }
            proof {
                seen = seen + text;
            }
            idx += 1;
        }
        let ghost fields_done = done;
        proof {
            assert(fields@.take(idx as int) =~= fields@);
        }
        let mut at: usize = 0;
        while at < spans.len()
            invariant
                at <= spans.len(),
                visitor.record.wf(),
                visitor.record.header() == header,
                valid_utf8(done),
                valid_utf8(seen),
                seen == fields_bytes(fields@) + spans_bytes(spans@.take(at as int)),
                failed is Some ==> seen.len() > 0,
                before.is_prefix_of(visitor.record.writer.sent()),
                failed is None ==> fields_done == fields_bytes(fields@),
                failed is None ==> done == fields_done + spans_bytes(spans@.take(at as int)),
                failed is None ==> visitor.record.writer.sent() == before + chunked(
                    header,
                    header,
                    done,
                ).0,
                failed is None ==> visitor.record.content() == chunked(header, header, done).1,
                *final(visitor.record.writer) == writer_end,
                *final(visitor.record.buffer) == buffer_end,
            decreases spans.len() - at,
        {
            let span = &spans[at];
            let ghost text = span_text(span.name(), span.values());
            let name = span.span_name();
            let values = span.span_values();
            proof {
                encode_utf8_valid_utf8(name@);
                encode_utf8_valid_utf8(values@);
                lemma_span_valid(span.name(), span.values());
                valid_utf8_concat(done, text);
                valid_utf8_concat(seen, text);
                lemma_chunked_concat(header, header, done, text);
                assert(spans@.take(at + 1).drop_last() =~= spans@.take(at as int));
                assert(fields_bytes(fields@) + spans_bytes(spans@.take(at as int)) + text
                    =~= fields_bytes(fields@) + (spans_bytes(spans@.take(at as int)) + text));
            }
            let ghost sent = visitor.record.writer.sent();
            let ghost held = visitor.record.content();
            match visitor.record_span(span) {
                Ok(()) => {
                    proof {
                        assert(fields_done + spans_bytes(spans@.take(at as int)) + text
                            =~= fields_done + (spans_bytes(spans@.take(at as int)) + text));
                        done = done + text;
                    }
                },
                Err(error) => {
                    proof {
                        let k = choose|k: int|
                            stopped_at(
                                sent,
                                chunked(header, held, text).0,
                                k,
                                visitor.record.writer.sent(),
                                visitor.record.content(),
                            );
                        assert(text.len() > 0);
                    }
                    if failed.is_none() {
                        failed = Some(error);
                    }
                },
            }
            proof {
                seen = seen + text;
            }
            at += 1;
        }
        proof {
            assert(spans@.take(at as int) =~= spans@);
            if seen.len() > 0 {
                lemma_records_of_text(header, seen);
            }
        }
        let end = visitor.finish();
        match failed {
            Some(error) => Err(error),
            None => {
                proof {
                    if end is Err {
                        assert(seen.len() > 0);
                    }
                    if end is Ok {
                        let so_far = chunked(header, header, done);
                        assert(before + so_far.0 + flushed(header, so_far.1).0 =~= before + (
                        so_far.0 + flushed(header, so_far.1).0));
                    }
                }
                end
            },
        }
    }

    /// Logs an event of `level` with its `fields`, followed by the
    /// attributes of the `spans` it lies in, stamped with the current time
    /// and the id of this process, over a transport of its own. What cannot
    /// be sent is dropped.
    pub fn event(
        &self,
        level: LogLevel,
        fields: &Vec<(String, String)>,
        spans: &Vec<Rfc3164SpanAttrsAccum>,
    ) {
        let mut writer = Writer::new(self.writer.clone());
        let mut buffer = record_new();
        let timestamp = Timestamp::now_utc();
        let pid = process_id();
        let _ = self.event_with(&mut writer, &mut buffer, level, fields, spans, timestamp, pid);
    }
}

} // verus!
