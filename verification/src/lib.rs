//! Syslog client: encodes log records as RFC 3164 messages and hands them to
//! a pluggable transport with bounded retry and transport reuse.

pub mod buffer;
pub mod chunking;
pub mod format;
pub mod log04;
pub mod syslog;
pub mod tracing;
pub mod writer;

pub use buffer::Rfc3164Buffer;
pub use syslog::{Facility, Severity};

use buffer::{
    record_as_str, record_bytes, record_clear, record_clone, record_len, record_new,
    record_push_str, RECORD_CAPACITY,
};
use chunking::{
    chunked, flushed, lemma_chunked_concat, lemma_pushed_len, records_of, stopped_at,
    MAX_CHAR_WIDTH,
};
use format::{ascii_bytes, put, room};
use syslog::header::{rfc3164_text, Hostname, Rfc3164, Tag, Timestamp};
use vstd::prelude::*;
use vstd::string::*;
use vstd::utf8::*;
use writer::{MakeTransport, Writer};

verus! {

/// The id of this process, as `os_id::process::get_raw_id` reports it.
/// Nothing is known of the value.
#[verifier::external_body]
pub(crate) fn process_id() -> (pid: u32) {
    os_id::process::get_raw_id() as u32
}

/// Creates a record buffer that holds nothing, as every logging call needs
/// one.
pub fn empty_buffer() -> (buffer: Rfc3164Buffer)
    ensures
        record_bytes(buffer) == Seq::<u8>::empty(),
{
    record_new()
}

/// Length of `text` in bytes.
fn byte_len(text: &str) -> (n: usize)
    ensures
        n == text.spec_bytes().len(),
{
    text.as_bytes().len()
}

/// Syslogger: what every record of one logger has in common.
pub struct Syslog {
    facility: Facility,
    hostname: Hostname,
    tag: Tag,
    retry_count: u8,
}

impl Syslog {
    /// The facility that records are logged under.
    pub closed spec fn facility(&self) -> Facility {
        self.facility
    }

    /// The hostname in the header of each record.
    pub closed spec fn hostname(&self) -> Seq<char> {
        self.hostname@
    }

    /// The tag in the header of each record.
    pub closed spec fn tag(&self) -> Seq<char> {
        self.tag@
    }

    /// How often a failed send is tried again.
    pub closed spec fn retry_count(&self) -> u8 {
        self.retry_count
    }

    /// The header of a record of `severity` that is stamped with
    /// `timestamp` and `pid`, with the space that parts it from the body.
    pub open spec fn header_at(&self, severity: Severity, timestamp: Timestamp, pid: u32) -> Seq<
        u8,
    > {
        ascii_bytes(
            rfc3164_text(
                severity.spec_priority(self.facility()) as u8,
                timestamp,
                self.hostname(),
                self.tag(),
                pid,
            ) + seq![' '],
        )
    }

    /// Creates new syslog instance, which retries a failed send twice.
    pub fn new(facility: Facility, hostname: Hostname, tag: Tag) -> (syslog: Self)
        ensures
            syslog.facility() == facility,
            syslog.hostname() == hostname@,
            syslog.tag() == tag@,
            syslog.retry_count() == 2,
    {
        Syslog { facility, tag, hostname, retry_count: 2 }
    }

    /// Changes retry count of attempts to re-try write.
    ///
    /// Retry count is used when logger fails to create writer or write.
    ///
    /// Once number of attempts exceeds retry count, logger will give up and
    /// return error.
    pub fn with_retry_count(self, retry_count: u8) -> (syslog: Self)
        ensures
            syslog.facility() == self.facility(),
            syslog.hostname() == self.hostname(),
            syslog.tag() == self.tag(),
            syslog.retry_count() == retry_count,
    {
        let mut syslog = self;
        syslog.retry_count = retry_count;
        syslog
    }

    /// Creates RFC-3164 format logger using specified `writer`.
    pub fn rfc3164<W: MakeTransport>(self, writer: W) -> (logger: Rfc3164Logger<W>)
        ensures
            logger.syslog == self,
            logger.writer.sent() == Seq::<Seq<u8>>::empty(),
            logger.writer.attempts().len() == 0,
            !logger.writer.has_cached(),
    {
        Rfc3164Logger::new(self, writer)
    }

    /// Creates a record writer for one record of `severity`, stamped with
    /// the current time and the id of this process.
    pub fn rfc3164_record<'a, W: MakeTransport>(
        &'a self,
        writer: &'a mut Writer<W>,
        buffer: &'a mut Rfc3164Buffer,
        severity: Severity,
    ) -> (record: Rfc3164RecordWriter<'a, W>)
        requires
            record_bytes(*old(buffer)).len() + Rfc3164::LIMIT + 1 + MAX_CHAR_WIDTH
                <= RECORD_CAPACITY,
        ensures
            record.wf(),
            exists|timestamp: Timestamp, pid: u32|
                record.header() == record_bytes(*old(buffer)) + #[trigger] self.header_at(
                    severity,
                    timestamp,
                    pid,
                ),
            record.content() == record.header(),
            record.severity == severity,
            record.retry_count == self.retry_count(),
            *record.writer == *old(writer),
            *final(record.writer) == *final(writer),
            *final(record.buffer) == *final(buffer),
    {
        Rfc3164RecordWriter::new(self, writer, buffer, severity)
    }
}

/// What one logging call sends: `after` is what was sent `before` and, if
/// the call succeeded, the records that carry `text` under `header`. If it
/// failed, some of these records are missing: the one that could not be
/// sent and those behind it.
pub open spec fn delivered(
    before: Seq<Seq<u8>>,
    after: Seq<Seq<u8>>,
    header: Seq<u8>,
    text: Seq<u8>,
    ok: bool,
) -> bool {
    if ok {
        after == before + records_of(header, text)
    } else {
        exists|k: int|
            0 <= k < records_of(header, text).len() && after == before + #[trigger] records_of(
                header,
                text,
            ).take(k)
    }
}

/// What a flush makes of the writer, where the buffer holds `held` and
/// `header` is the header: if there is text behind the header, `after` is
/// what `before` became by one send of `held` with `severity` and up to
/// `retry_count` retries, which ended in `r`. Else nothing is done: the
/// writer is as it was, and the flush succeeds.
pub open spec fn flushed_by<W: MakeTransport>(
    before: Writer<W>,
    after: Writer<W>,
    header: Seq<u8>,
    held: Seq<u8>,
    severity: Severity,
    retry_count: u8,
    r: Result<(), W::Error>,
) -> bool {
    if held.len() > header.len() {
        after.sent_by(&before, held, severity, retry_count, r)
    } else {
        r is Ok && after == before
    }
}

/// `after` is what `before` became by sending `records` one after the
/// other, each with `severity` and up to `retry_count` retries, and each
/// with success. With no record, the writer is as it was.
pub open spec fn sent_all<W: MakeTransport>(
    before: Writer<W>,
    after: Writer<W>,
    records: Seq<Seq<u8>>,
    severity: Severity,
    retry_count: u8,
) -> bool
    decreases records.len(),
{
    if records.len() == 0 {
        after == before
    } else {
        exists|mid: Writer<W>|
            sent_all(before, mid, records.drop_last(), severity, retry_count)
                && #[trigger] after.sent_by(&mid, records.last(), severity, retry_count, Ok(()))
    }
}

/// RFC 3164 record writer.
///
/// It writes body text behind a header into a buffer of 1024 bytes. When
/// text does not fit, the full buffer is sent as one record and the rest of
/// the text goes into further records under the same header.
///
/// A record ends with [`Self::finish`], which clears the buffer and sends
/// nothing: text that was not flushed before is dropped.
pub struct Rfc3164RecordWriter<'a, W: MakeTransport> {
    /// Where records are sent
    pub writer: &'a mut Writer<W>,
    /// The record under construction: the header, then body text
    pub buffer: &'a mut Rfc3164Buffer,
    /// The buffer as it was when it held the header alone
    pub header_only: Rfc3164Buffer,
    /// Severity of the record, which the transport is told
    pub severity: Severity,
    /// Number of bytes of the header, where the body begins
    pub header_size: usize,
    /// How often a failed send is tried again
    pub retry_count: u8,
}

impl<'a, W: MakeTransport> Rfc3164RecordWriter<'a, W> {
    /// The header that every record of this writer starts with.
    pub open spec fn header(&self) -> Seq<u8> {
        record_bytes(self.header_only)
    }

    /// What the buffer holds: the header and the body text written since
    /// the last flush.
    pub open spec fn content(&self) -> Seq<u8> {
        record_bytes(*self.buffer)
    }

    /// The buffer starts with the header, whose size is known, and the
    /// header leaves room for any one character.
    pub open spec fn wf(&self) -> bool {
        &&& self.header_size == self.header().len()
        &&& self.header().len() + MAX_CHAR_WIDTH <= RECORD_CAPACITY
        &&& self.header().is_prefix_of(self.content())
        &&& self.content().len() <= RECORD_CAPACITY
    }

    /// The settings of the record are those of `before`.
    pub open spec fn same_record(&self, before: &Self) -> bool {
        &&& self.header_only == before.header_only
        &&& self.severity == before.severity
        &&& self.header_size == before.header_size
        &&& self.retry_count == before.retry_count
    }

    /// Creates a record writer whose header is stamped with `timestamp` and
    /// `pid`. The header is written behind what `buffer` holds, which
    /// becomes a part of the header.
    pub fn with_stamp(
        syslog: &'a Syslog,
        writer: &'a mut Writer<W>,
        buffer: &'a mut Rfc3164Buffer,
        severity: Severity,
        timestamp: Timestamp,
        pid: u32,
    ) -> (record: Self)
        requires
            record_bytes(*old(buffer)).len() + Rfc3164::LIMIT + 1 + MAX_CHAR_WIDTH
                <= RECORD_CAPACITY,
        ensures
            record.wf(),
            record.header() == record_bytes(*old(buffer)) + syslog.header_at(
                severity,
                timestamp,
                pid,
            ),
            record.content() == record.header(),
            record.severity == severity,
            record.retry_count == syslog.retry_count(),
            *record.writer == *old(writer),
            *final(record.writer) == *final(writer),
            *final(record.buffer) == *final(buffer),
    {
        let header = Rfc3164 {
            pri: severity.priority(syslog.facility),
            hostname: &syslog.hostname,
            tag: &syslog.tag,
            pid,
            timestamp,
        };
        proof {
            use_type_invariant(&syslog.hostname);
            use_type_invariant(&syslog.tag);
            header.lemma_text_bounds();
            reveal_strlit(" ");
        }
        header.write_buffer(buffer);
        put(buffer, " ");
        proof {
            assert(ascii_bytes(header.text()) + ascii_bytes(seq![' ']) =~= ascii_bytes(
                header.text() + seq![' '],
            ));
            assert(record_bytes(*old(buffer)) + ascii_bytes(header.text()) + ascii_bytes(seq![' '])
                =~= record_bytes(*old(buffer)) + (ascii_bytes(header.text()) + ascii_bytes(
                seq![' '],
            )));
        }
        let header_size = record_len(buffer);
        let header_only = record_clone(buffer);
        Rfc3164RecordWriter {
            writer,
            buffer,
            header_only,
            severity,
            header_size,
            retry_count: syslog.retry_count,
        }
    }

    /// Creates new record writer, stamped with the current time and the id
    /// of this process.
    pub fn new(
        syslog: &'a Syslog,
        writer: &'a mut Writer<W>,
        buffer: &'a mut Rfc3164Buffer,
        severity: Severity,
    ) -> (record: Self)
        requires
            record_bytes(*old(buffer)).len() + Rfc3164::LIMIT + 1 + MAX_CHAR_WIDTH
                <= RECORD_CAPACITY,
        ensures
            record.wf(),
            exists|timestamp: Timestamp, pid: u32|
                record.header() == record_bytes(*old(buffer)) + #[trigger] syslog.header_at(
                    severity,
                    timestamp,
                    pid,
                ),
            record.content() == record.header(),
            record.severity == severity,
            record.retry_count == syslog.retry_count(),
            *record.writer == *old(writer),
            *final(record.writer) == *final(writer),
            *final(record.buffer) == *final(buffer),
    {
        let timestamp = Timestamp::now_utc();
        let pid = process_id();
        Self::with_stamp(syslog, writer, buffer, severity, timestamp, pid)
    }

    /// Clears current content of the record, preparing it for next write:
    /// the buffer goes back to the header.
    pub fn clear(&mut self)
        ensures
            final(self).content() == old(self).header(),
            final(self).same_record(old(self)),
            old(self).wf() ==> final(self).wf(),
            *final(self).writer == *old(self).writer,
            *final(final(self).writer) == *final(old(self).writer),
            *final(final(self).buffer) == *final(old(self).buffer),
    {
        *self.buffer = record_clone(&self.header_only);
    }

    /// Sends the current buffer to the server if body text was written
    /// since the last flush, and leaves the buffer as it is. The buffer is
    /// sent with the severity and the retry count of the record. With no
    /// text behind the header, the writer is not touched.
    pub fn flush_without_clear(&mut self) -> (r: Result<(), W::Error>)
        requires
            old(self).wf(),
        ensures
            final(self).wf(),
            final(self).same_record(old(self)),
            final(self).content() == old(self).content(),
            flushed_by(
                *old(self).writer,
                *final(self).writer,
                old(self).header(),
                old(self).content(),
                old(self).severity,
                old(self).retry_count,
                r,
            ),
            r is Ok ==> final(self).writer.sent() == old(self).writer.sent() + flushed(
                old(self).header(),
                old(self).content(),
            ).0,
            r is Err ==> old(self).content().len() > old(self).header().len()
                && final(self).writer.sent() == old(self).writer.sent(),
            *final(final(self).writer) == *final(old(self).writer),
            *final(final(self).buffer) == *final(old(self).buffer),
    {
        if record_len(self.buffer) > self.header_size {
            let r = self.writer.write_buffer(
                record_as_str(self.buffer),
                self.severity,
                self.retry_count,
            );
            proof {
                assert(old(self).writer.sent().push(old(self).content()) =~= old(
                    self,
                ).writer.sent() + seq![old(self).content()]);
            }
            r
        } else {
            proof {
                assert(old(self).writer.sent() + Seq::<Seq<u8>>::empty() =~= old(
                    self,
                ).writer.sent());
            }
            Ok(())
        }
    }

    /// Flushes record by sending current buffer to the server, if body text
    /// was written since the last flush.
    ///
    /// On success the buffer goes back to the header. On failure it stays as
    /// it is. The buffer is sent with the severity and the retry count of
    /// the record. With no text behind the header, the writer is not touched.
    pub fn flush(&mut self) -> (r: Result<(), W::Error>)
        requires
            old(self).wf(),
        ensures
            final(self).wf(),
            final(self).same_record(old(self)),
            flushed_by(
                *old(self).writer,
                *final(self).writer,
                old(self).header(),
                old(self).content(),
                old(self).severity,
                old(self).retry_count,
                r,
            ),
            r is Ok ==> final(self).writer.sent() == old(self).writer.sent() + flushed(
                old(self).header(),
                old(self).content(),
            ).0 && final(self).content() == flushed(old(self).header(), old(self).content()).1,
            r is Err ==> old(self).content().len() > old(self).header().len()
                && final(self).writer.sent() == old(self).writer.sent() && final(self).content()
                == old(self).content(),
            *final(final(self).writer) == *final(old(self).writer),
            *final(final(self).buffer) == *final(old(self).buffer),
    {
        if record_len(self.buffer) > self.header_size {
            let r = self.writer.write_buffer(
                record_as_str(self.buffer),
                self.severity,
                self.retry_count,
            );
            proof {
                assert(old(self).writer.sent().push(old(self).content()) =~= old(
                    self,
                ).writer.sent() + seq![old(self).content()]);
            }
            match r {
                Ok(()) => {
                    self.clear();
                    Ok(())
                },
                Err(error) => Err(error),
            }
        } else {
            proof {
                assert(old(self).writer.sent() + Seq::<Seq<u8>>::empty() =~= old(
                    self,
                ).writer.sent());
            }
            Ok(())
        }
    }

    /// Writes `text` behind what the buffer holds.
    ///
    /// When the buffer cannot take all of the text, it is flushed as one
    /// record, goes back to the header, and takes the rest of the text; this
    /// repeats until all of the text is written. What stays in the buffer is
    /// not sent before the next flush.
    ///
    /// When a flush fails, the error is returned. The records before the one
    /// that failed were sent, and the buffer holds the one that failed.
    #[verifier::rlimit(40)]
    pub fn write_str(&mut self, text: &str) -> (r: Result<(), W::Error>)
        requires
            old(self).wf(),
        ensures
            final(self).wf(),
            final(self).same_record(old(self)),
            r is Ok ==> final(self).writer.sent() == old(self).writer.sent() + chunked(
                old(self).header(),
                old(self).content(),
                text.spec_bytes(),
            ).0 && final(self).content() == chunked(
                old(self).header(),
                old(self).content(),
                text.spec_bytes(),
            ).1,
            r is Err ==> exists|k: int|
                0 <= k < chunked(old(self).header(), old(self).content(), text.spec_bytes()).0.len()
                    && final(self).writer.sent() == old(self).writer.sent() + chunked(
                    old(self).header(),
                    old(self).content(),
                    text.spec_bytes(),
                ).0.take(k) && final(self).content() == #[trigger] chunked(
                    old(self).header(),
                    old(self).content(),
                    text.spec_bytes(),
                ).0[k],
            r is Ok ==> sent_all(
                *old(self).writer,
                *final(self).writer,
                chunked(old(self).header(), old(self).content(), text.spec_bytes()).0,
                old(self).severity,
                old(self).retry_count,
            ),
            r is Err ==> exists|k: int, mid: Writer<W>|
                0 <= k < chunked(old(self).header(), old(self).content(), text.spec_bytes()).0.len()
                    && #[trigger] sent_all(
                    *old(self).writer,
                    mid,
                    chunked(old(self).header(), old(self).content(), text.spec_bytes()).0.take(k),
                    old(self).severity,
                    old(self).retry_count,
                ) && final(self).writer.sent_by(
                    &mid,
                    chunked(old(self).header(), old(self).content(), text.spec_bytes()).0[k],
                    old(self).severity,
                    old(self).retry_count,
                    r,
                ),
            *final(final(self).writer) == *final(old(self).writer),
            *final(final(self).buffer) == *final(old(self).buffer),
    {
        let ghost header = self.header();
        let ghost parts = chunked(header, self.content(), text.spec_bytes());
        let ghost sent_before = self.writer.sent();
        let ghost writer_before = *self.writer;
        let ghost severity = self.severity;
        let ghost retry_count = self.retry_count;
        let ghost mut k: int = 0;
        let mut rest: &str = text;
        loop
            invariant
                self.wf(),
                self.same_record(old(self)),
                header == old(self).header(),
                parts == chunked(header, old(self).content(), text.spec_bytes()),
                sent_before == old(self).writer.sent(),
                0 <= k <= parts.0.len(),
                self.writer.sent() == sent_before + parts.0.take(k),
                writer_before == *old(self).writer,
                severity == old(self).severity,
                retry_count == old(self).retry_count,
                sent_all(writer_before, *self.writer, parts.0.take(k), severity, retry_count),
                chunked(header, self.content(), rest.spec_bytes()) == (parts.0.skip(k), parts.1),
                *final(self.writer) == *final(old(self).writer),
                *final(self.buffer) == *final(old(self).buffer),
            decreases
                    rest.spec_bytes().len(),
                    (if self.content().len() > header.len() {
                        1int
                    } else {
                        0int
                    }),
        {
            let ghost held = self.content();
            let ghost bytes = rest.spec_bytes();
            let ghost here = chunked(header, held, bytes);
            let rest_len = byte_len(rest);
            if rest_len == 0 {
                proof {
                    assert(parts.0.take(k) =~= parts.0);
                }
                return Ok(());
            }
            let consumed = record_push_str(self.buffer, rest);
            proof {
                encode_utf8_valid_utf8(rest@);
                lemma_pushed_len(bytes, room(held));
            }
            if consumed < rest_len {
                let ghost full = self.content();
                let ghost writer_then = *self.writer;
                proof {
                    assert(here.0[0] == full);
                    assert(parts.0.skip(k).len() == parts.0.len() - k);
                    assert(parts.0[k] == full);
                }
                let flushed = self.flush();
                proof {
                    assert(self.writer.sent_by(&writer_then, full, severity, retry_count, flushed));
                }
                match flushed {
                    Ok(()) => {},
                    Err(error) => {
                        proof {
                            assert(sent_all(
                                writer_before,
                                writer_then,
                                parts.0.take(k),
                                severity,
                                retry_count,
                            ));
                        }
                        return Err(error);
                    },
                }
                let (_, tail) = rest.split_at(consumed);
                proof {
                    assert(self.writer.sent_by(
                        &writer_then,
                        full,
                        severity,
                        retry_count,
                        Ok::<(), W::Error>(()),
                    ));
                    assert(sent_before + parts.0.take(k) + seq![full] =~= sent_before
                        + parts.0.take(k + 1));
                    assert(parts.0.skip(k).skip(1) =~= parts.0.skip(k + 1));
                    assert(parts.0.take(k + 1).drop_last() =~= parts.0.take(k));
                    assert(parts.0.take(k + 1).last() == full);
                    assert(sent_all(
                        writer_before,
                        writer_then,
                        parts.0.take(k + 1).drop_last(),
                        severity,
                        retry_count,
                    ));
                    assert(sent_all(
                        writer_before,
                        *self.writer,
                        parts.0.take(k + 1),
                        severity,
                        retry_count,
                    ));
                    k = k + 1;
                }
                rest = tail;
            } else {
                proof {
                    assert(parts.0.skip(k).len() == parts.0.len() - k);
                    assert(parts.0.take(k) =~= parts.0);
                }
                return Ok(());
            }
        }
    }

    /// Writes `text` as the next piece of a longer text, of which `done` was
    /// written before, since the buffer held `start` and `before` was sent,
    /// and of which `rest` is still to come.
    ///
    /// On success the records sent and the buffer are as if the text up to
    /// here had been written at once. On failure the write stopped at one of
    /// the records that the whole text is to flush, and at one that this
    /// piece is to flush.
    pub(crate) fn write_piece(
        &mut self,
        text: &str,
        Ghost(before): Ghost<Seq<Seq<u8>>>,
        Ghost(start): Ghost<Seq<u8>>,
        Ghost(done): Ghost<Seq<u8>>,
        Ghost(rest): Ghost<Seq<u8>>,
    ) -> (r: Result<(), W::Error>)
        requires
            old(self).wf(),
            valid_utf8(done),
            valid_utf8(rest),
            old(self).header().len() <= start.len() <= RECORD_CAPACITY,
            old(self).writer.sent() == before + chunked(old(self).header(), start, done).0,
            old(self).content() == chunked(old(self).header(), start, done).1,
        ensures
            final(self).wf(),
            final(self).same_record(old(self)),
            before.is_prefix_of(final(self).writer.sent()),
            valid_utf8(done + text.spec_bytes()),
            r is Ok ==> final(self).writer.sent() == before + chunked(
                old(self).header(),
                start,
                done + text.spec_bytes(),
            ).0 && final(self).content() == chunked(
                old(self).header(),
                start,
                done + text.spec_bytes(),
            ).1,
            r is Err ==> exists|k: int|
                chunked(old(self).header(), start, done).0.len() <= k < chunked(
                    old(self).header(),
                    start,
                    done + text.spec_bytes(),
                ).0.len() && #[trigger] stopped_at(
                    before,
                    chunked(old(self).header(), start, done + text.spec_bytes() + rest).0,
                    k,
                    final(self).writer.sent(),
                    final(self).content(),
                ),
            *final(final(self).writer) == *final(old(self).writer),
            *final(final(self).buffer) == *final(old(self).buffer),
    {
        let ghost header = self.header();
        let ghost so_far = chunked(header, start, done);
        let ghost next = chunked(header, so_far.1, text.spec_bytes());
        let ghost whole = chunked(header, start, done + text.spec_bytes() + rest);
        proof {
            encode_utf8_valid_utf8(text@);
            valid_utf8_concat(done, text.spec_bytes());
            lemma_chunked_concat(header, start, done, text.spec_bytes());
            lemma_chunked_concat(header, start, done + text.spec_bytes(), rest);
        }
        let r = self.write_str(text);
        proof {
            if r is Err {
                let i = choose|i: int|
                    0 <= i < next.0.len() && self.writer.sent() == before + so_far.0 + next.0.take(
                        i,
                    ) && self.content() == #[trigger] next.0[i];
                let k = so_far.0.len() + i;
                assert(whole.0.take(k) =~= so_far.0 + next.0.take(i));
                assert(before + so_far.0 + next.0.take(i) =~= before + whole.0.take(k));
                assert(stopped_at(before, whole.0, k, self.writer.sent(), self.content()));
            }
        }
        r
    }

    /// Ends the record: clears the whole buffer. Nothing is sent; body text
    /// that was not flushed is dropped.
    pub fn finish(self)
        ensures
            record_bytes(*final(self.buffer)) == Seq::<u8>::empty(),
            *final(self.writer) == *old(self.writer),
    {
        record_clear(self.buffer);
    }
}

/// RFC 3164 logger.
pub struct Rfc3164Logger<W: MakeTransport> {
    /// What every record has in common
    pub syslog: Syslog,
    /// Where records are sent
    pub writer: Writer<W>,
}

impl<W: MakeTransport> Rfc3164Logger<W> {
    /// Creates new RFC 3164 format logger, which has sent nothing yet.
    pub fn new(syslog: Syslog, writer: W) -> (logger: Self)
        ensures
            logger.syslog == syslog,
            logger.writer.sent() == Seq::<Seq<u8>>::empty(),
            logger.writer.attempts().len() == 0,
            !logger.writer.has_cached(),
    {
        Rfc3164Logger { syslog, writer: Writer::new(writer) }
    }

    /// Adds internal buffer to the logger.
    pub fn with_buffer(self) -> (logger: Rfc3164BufferedLogger<W>)
        ensures
            logger.inner == self,
            record_bytes(logger.buffer) == Seq::<u8>::empty(),
    {
        Rfc3164BufferedLogger::new(self)
    }

    /// Writes `text` onto syslog as a record of `severity` that is stamped
    /// with `timestamp` and `pid`.
    ///
    /// The record is built in `buffer`, behind what it holds, and the buffer
    /// is empty afterwards. If the text does not fit the limit of 1024
    /// bytes, it is split into several records.
    pub fn write_stamped(
        &mut self,
        buffer: &mut Rfc3164Buffer,
        severity: Severity,
        text: &str,
        timestamp: Timestamp,
        pid: u32,
    ) -> (r: Result<(), W::Error>)
        requires
            record_bytes(*old(buffer)).len() + Rfc3164::LIMIT + 1 + MAX_CHAR_WIDTH
                <= RECORD_CAPACITY,
        ensures
            final(self).syslog == old(self).syslog,
            record_bytes(*final(buffer)) == Seq::<u8>::empty(),
            delivered(
                old(self).writer.sent(),
                final(self).writer.sent(),
                record_bytes(*old(buffer)) + old(self).syslog.header_at(severity, timestamp, pid),
                text.spec_bytes(),
                r is Ok,
            ),
    {
        let ghost before = self.writer.sent();
        let ghost header = record_bytes(*buffer) + self.syslog.header_at(severity, timestamp, pid);
        let ghost parts = chunked(header, header, text.spec_bytes());
        let ghost records = records_of(header, text.spec_bytes());
        let mut record = Rfc3164RecordWriter::with_stamp(
            &self.syslog,
            &mut self.writer,
            buffer,
            severity,
            timestamp,
            pid,
        );
        let r = match record.write_str(text) {
            Ok(()) => {
                let end = record.flush_without_clear();
                proof {
                    let last = flushed(header, parts.1).0;
                    if end is Ok {
                        assert(before + parts.0 + last =~= before + records);
                    } else {
                        assert(records.take(parts.0.len() as int) =~= parts.0);
                    }
                }
                end
            },
            Err(error) => {
                proof {
                    let k = choose|k: int|
                        0 <= k < parts.0.len() && record.writer.sent() == before + parts.0.take(k)
                            && record.content() == #[trigger] parts.0[k];
                    assert(records.take(k) =~= parts.0.take(k));
                }
                Err(error)
            },
        };
        record.finish();
        r
    }

    /// Writes specified string onto syslog, stamped with the current time
    /// and the id of this process.
    ///
    /// The record is built in `buffer`, behind what it holds, and the buffer
    /// is empty afterwards. If the text does not fit the limit of 1024
    /// bytes, it is split into several records.
    pub fn write_str(&mut self, buffer: &mut Rfc3164Buffer, severity: Severity, text: &str) -> (r:
        Result<(), W::Error>)
        requires
            record_bytes(*old(buffer)).len() + Rfc3164::LIMIT + 1 + MAX_CHAR_WIDTH
                <= RECORD_CAPACITY,
        ensures
            final(self).syslog == old(self).syslog,
            record_bytes(*final(buffer)) == Seq::<u8>::empty(),
            exists|timestamp: Timestamp, pid: u32|
                delivered(
                    old(self).writer.sent(),
                    final(self).writer.sent(),
                    record_bytes(*old(buffer)) + #[trigger] old(self).syslog.header_at(
                        severity,
                        timestamp,
                        pid,
                    ),
                    text.spec_bytes(),
                    r is Ok,
                ),
    {
        let timestamp = Timestamp::now_utc();
        let pid = process_id();
        self.write_stamped(buffer, severity, text, timestamp, pid)
    }
}

/// RFC 3164 logger with a buffer of its own.
pub struct Rfc3164BufferedLogger<W: MakeTransport> {
    /// The logger
    pub inner: Rfc3164Logger<W>,
    /// Where each record is built
    pub buffer: Rfc3164Buffer,
}

impl<W: MakeTransport> Rfc3164BufferedLogger<W> {
    /// Creates new instance of logger with internal buffer.
    pub fn new(inner: Rfc3164Logger<W>) -> (logger: Self)
        ensures
            logger.inner == inner,
            record_bytes(logger.buffer) == Seq::<u8>::empty(),
    {
        Rfc3164BufferedLogger { inner, buffer: record_new() }
    }

    /// Writes specified string onto syslog, stamped with the current time
    /// and the id of this process.
    ///
    /// If the text does not fit the limit of 1024 bytes, it is split into
    /// several records.
    pub fn write_str(&mut self, severity: Severity, text: &str) -> (r: Result<(), W::Error>)
        ensures
            final(self).inner.syslog == old(self).inner.syslog,
            record_bytes(final(self).buffer) == Seq::<u8>::empty(),
            exists|timestamp: Timestamp, pid: u32|
                delivered(
                    old(self).inner.writer.sent(),
                    final(self).inner.writer.sent(),
                    #[trigger] old(self).inner.syslog.header_at(severity, timestamp, pid),
                    text.spec_bytes(),
                    r is Ok,
                ),
    {
        record_clear(&mut self.buffer);
        let ghost syslog = self.inner.syslog;
        let r = self.inner.write_str(&mut self.buffer, severity, text);
        proof {
            let (timestamp, pid) = choose|timestamp: Timestamp, pid: u32|
                delivered(
                    old(self).inner.writer.sent(),
                    self.inner.writer.sent(),
                    Seq::<u8>::empty() + #[trigger] syslog.header_at(severity, timestamp, pid),
                    text.spec_bytes(),
                    r is Ok,
                );
            assert(Seq::<u8>::empty() + syslog.header_at(severity, timestamp, pid)
                =~= syslog.header_at(severity, timestamp, pid));
        }
        r
    }

    /// Creates syslog record writer, stamped with the current time and the
    /// id of this process. The record is built in the logger's buffer.
    pub fn write_record(&mut self, severity: Severity) -> (record: Rfc3164RecordWriter<'_, W>)
        ensures
            record.wf(),
            exists|timestamp: Timestamp, pid: u32|
                record.header() == #[trigger] old(self).inner.syslog.header_at(
                    severity,
                    timestamp,
                    pid,
                ),
            record.content() == record.header(),
            record.severity == severity,
            record.retry_count == old(self).inner.syslog.retry_count(),
            *record.writer == old(self).inner.writer,
            final(self).inner.syslog == old(self).inner.syslog,
            final(self).inner.writer == *final(record.writer),
            final(self).buffer == *final(record.buffer),
    {
        record_clear(&mut self.buffer);
        let ghost syslog = self.inner.syslog;
        let record = Rfc3164RecordWriter::new(
            &self.inner.syslog,
            &mut self.inner.writer,
            &mut self.buffer,
            severity,
        );
        proof {
            let (timestamp, pid) = choose|timestamp: Timestamp, pid: u32|
                record.header() == Seq::<u8>::empty() + #[trigger] syslog.header_at(
                    severity,
                    timestamp,
                    pid,
                );
            assert(Seq::<u8>::empty() + syslog.header_at(severity, timestamp, pid)
                =~= syslog.header_at(severity, timestamp, pid));
        }
        record
    }
}

} // verus!
