//! Logging of records that carry key-value pairs behind their message, as
//! the `log` facade hands them over.

use crate::buffer::{record_bytes, record_new, Rfc3164Buffer, RECORD_CAPACITY};
use crate::chunking::{
    chunked, flushed, lemma_chunked_concat, lemma_records_hold_text, lemma_records_of_text,
    records_of, stopped_at, MAX_CHAR_WIDTH,
};
use crate::format::{ascii_bytes, lemma_ascii_valid};
use crate::process_id;
use crate::syslog::header::{Rfc3164, Timestamp};
use crate::syslog::{LogLevel, Severity};
use crate::writer::{MakeTransport, Writer};
use crate::{Rfc3164RecordWriter, Syslog};
use vstd::prelude::*;
use vstd::string::*;
use vstd::utf8::*;

verus! {

/// The text that opens the key-value pairs of a record: ` [KV`.
pub open spec fn pairs_open() -> Seq<u8> {
    ascii_bytes(seq![' ', '[', 'K', 'V'])
}

/// The text that closes the key-value pairs of a record: `]`.
pub open spec fn pairs_close() -> Seq<u8> {
    ascii_bytes(seq![']'])
}

/// The text of one key-value pair: a space, the key, `=` and the value.
pub open spec fn pair_bytes(key: Seq<u8>, value: Seq<u8>) -> Seq<u8> {
    ascii_bytes(seq![' ']) + key + ascii_bytes(seq!['=']) + value
}

/// The text that a pair adds to a record: the pair, behind the opening text
/// if it is the first pair.
pub open spec fn pair_text(first: bool, key: Seq<u8>, value: Seq<u8>) -> Seq<u8> {
    if first {
        pairs_open() + pair_bytes(key, value)
    } else {
        pair_bytes(key, value)
    }
}

/// The text that the next pair adds to a record of which `written` tells
/// whether a pair was written to it before.
pub open spec fn next_pair_text(written: bool, key: Seq<u8>, value: Seq<u8>) -> Seq<u8> {
    pair_text(!written, key, value)
}

/// The text that closes a record: `]` if a pair was written, else nothing.
pub open spec fn closing_text(written: bool) -> Seq<u8> {
    if written {
        pairs_close()
    } else {
        Seq::empty()
    }
}

/// What was sent when the end of a record failed, where `closing` is what
/// writing the closing text is to flush and to leave in the buffer, and
/// `before` was sent earlier.
///
/// Either the closing text was written, all its records were sent, and the
/// flush of what the buffer then held failed. Or writing the closing text
/// stopped at a record that could not be sent: the records before it were
/// sent, and it was handed over once more, with or without success.
pub open spec fn closing_failed(
    before: Seq<Seq<u8>>,
    closing: (Seq<Seq<u8>>, Seq<u8>),
    header: Seq<u8>,
    after: Seq<Seq<u8>>,
) -> bool {
    ||| after == before + closing.0 && closing.1.len() > header.len()
    ||| exists|k: int|
        0 <= k < closing.0.len() && (after == before + #[trigger] closing.0.take(k) || after
            == before + closing.0.take(k + 1))
}

/// The text of key-value pairs, in their order.
pub open spec fn pairs_bytes(pairs: Seq<(String, String)>) -> Seq<u8>
    decreases pairs.len(),
{
    if pairs.len() == 0 {
        Seq::empty()
    } else {
        pairs_bytes(pairs.drop_last()) + pair_bytes(
            encode_utf8(pairs.last().0@),
            encode_utf8(pairs.last().1@),
        )
    }
}

/// The body of a record: the message and, if there are key-value pairs,
/// ` [KV`, the pairs and `]`.
pub open spec fn body_bytes(message: Seq<u8>, pairs: Seq<(String, String)>) -> Seq<u8> {
    if pairs.len() == 0 {
        message
    } else {
        message + pairs_open() + pairs_bytes(pairs) + pairs_close()
    }
}

/// The text of key-value pairs is valid UTF-8.
pub proof fn lemma_pairs_valid(pairs: Seq<(String, String)>)
    ensures
        valid_utf8(pairs_bytes(pairs)),
    decreases pairs.len(),
{
    if pairs.len() > 0 {
        lemma_pairs_valid(pairs.drop_last());
        encode_utf8_valid_utf8(pairs.last().0@);
        encode_utf8_valid_utf8(pairs.last().1@);
        lemma_pair_valid(encode_utf8(pairs.last().0@), encode_utf8(pairs.last().1@));
        valid_utf8_concat(
            pairs_bytes(pairs.drop_last()),
            pair_bytes(encode_utf8(pairs.last().0@), encode_utf8(pairs.last().1@)),
        );
    }
}

/// The body of a record is valid UTF-8 if its message is, and it is empty
/// only if the message is empty and there are no pairs.
pub proof fn lemma_body_valid(message: Seq<u8>, pairs: Seq<(String, String)>)
    requires
        valid_utf8(message),
    ensures
        valid_utf8(body_bytes(message, pairs)),
        message.len() > 0 || pairs.len() > 0 ==> body_bytes(message, pairs).len() > 0,
{
    lemma_pairs_valid(pairs);
    lemma_ascii_valid(seq![' ', '[', 'K', 'V']);
    lemma_ascii_valid(seq![']']);
    valid_utf8_concat(message, pairs_open());
    valid_utf8_concat(message + pairs_open(), pairs_bytes(pairs));
    valid_utf8_concat(message + pairs_open() + pairs_bytes(pairs), pairs_close());
}

/// The text of a pair of valid UTF-8 is valid UTF-8.
pub proof fn lemma_pair_valid(key: Seq<u8>, value: Seq<u8>)
    requires
        valid_utf8(key),
        valid_utf8(value),
    ensures
        valid_utf8(pair_bytes(key, value)),
        valid_utf8(pairs_open() + pair_bytes(key, value)),
{
    lemma_ascii_valid(seq![' ']);
    lemma_ascii_valid(seq!['=']);
    lemma_ascii_valid(seq![' ', '[', 'K', 'V']);
    valid_utf8_concat(ascii_bytes(seq![' ']), key);
    valid_utf8_concat(ascii_bytes(seq![' ']) + key, ascii_bytes(seq!['=']));
    valid_utf8_concat(ascii_bytes(seq![' ']) + key + ascii_bytes(seq!['=']), value);
    valid_utf8_concat(pairs_open(), pair_bytes(key, value));
}

/// Writer of the key-value pairs of one record.
///
/// The first pair is preceded by ` [KV`. [`Self::finish`] closes the pairs
/// with `]` and flushes the record.
pub struct StructuredVisitor<'a, W: MakeTransport> {
    /// The record that the pairs are written to
    pub record: Rfc3164RecordWriter<'a, W>,
    /// A pair was written, or at least the text that opens the pairs
    pub is_written: bool,
}

impl<'a, W: MakeTransport> StructuredVisitor<'a, W> {
    /// Creates a writer of pairs that has written none.
    pub fn new(record: Rfc3164RecordWriter<'a, W>) -> (visitor: Self)
        ensures
            visitor.record == record,
            !visitor.is_written,
    {
        StructuredVisitor { record, is_written: false }
    }

    /// Writes the pair of `key` and `value` to the record, behind the text
    /// that opens the pairs if it is the first pair.
    ///
    /// When a flush fails on the way, the error is returned: the records
    /// before the one that failed were sent, and the buffer holds the one
    /// that failed. A pair counts as written once the text before it is.
    #[verifier::rlimit(40)]
    pub fn visit_pair(&mut self, key: &str, value: &str) -> (r: Result<(), W::Error>)
        requires
            old(self).record.wf(),
        ensures
            final(self).record.wf(),
            final(self).record.same_record(&old(self).record),
            old(self).record.writer.sent().is_prefix_of(final(self).record.writer.sent()),
            old(self).is_written ==> final(self).is_written,
            r is Ok ==> final(self).is_written && final(self).record.writer.sent() == old(
                self,
            ).record.writer.sent() + chunked(
                old(self).record.header(),
                old(self).record.content(),
                pair_text(!old(self).is_written, key.spec_bytes(), value.spec_bytes()),
            ).0 && final(self).record.content() == chunked(
                old(self).record.header(),
                old(self).record.content(),
                pair_text(!old(self).is_written, key.spec_bytes(), value.spec_bytes()),
            ).1,
            r is Err ==> exists|k: int|
                #[trigger] stopped_at(
                    old(self).record.writer.sent(),
                    chunked(
                        old(self).record.header(),
                        old(self).record.content(),
                        next_pair_text(old(self).is_written, key.spec_bytes(), value.spec_bytes()),
                    ).0,
                    k,
                    final(self).record.writer.sent(),
                    final(self).record.content(),
                ) && (final(self).is_written <==> old(self).is_written || chunked(
                    old(self).record.header(),
                    old(self).record.content(),
                    pairs_open(),
                ).0.len() <= k),
            *final(final(self).record.writer) == *final(old(self).record.writer),
            *final(final(self).record.buffer) == *final(old(self).record.buffer),
    {
        let ghost header = self.record.header();
        let ghost before = self.record.writer.sent();
        let ghost start = self.record.content();
        let ghost first = !self.is_written;
        let ghost name = key.spec_bytes();
        let ghost what = value.spec_bytes();
        let ghost space = " ".spec_bytes();
        let ghost equals = "=".spec_bytes();
        let ghost full = pair_text(first, name, what);
        let ghost all = chunked(header, start, full).0;
        let ghost opened = chunked(header, start, pairs_open()).0;
        let ghost none = Seq::<u8>::empty();
        let ghost mut done = none;
        proof {
            reveal_strlit(" [KV");
            reveal_strlit(" ");
            reveal_strlit("=");
            lemma_ascii_valid(" [KV"@);
            lemma_ascii_valid(" "@);
            lemma_ascii_valid("="@);
            assert(" [KV"@ =~= seq![' ', '[', 'K', 'V']);
            encode_utf8_valid_utf8(key@);
            encode_utf8_valid_utf8(value@);
            lemma_pair_valid(name, what);
            valid_utf8_concat(equals, what);
            valid_utf8_concat(name, equals);
            valid_utf8_concat(name + equals, what);
        }
        if !self.is_written {
            let ghost rest = pair_bytes(name, what);
            match self.record.write_piece(
                " [KV",
                Ghost(before),
                Ghost(start),
                Ghost(done),
                Ghost(rest),
            ) {
                Ok(()) => {},
                Err(error) => {
                    proof {
                        let k = choose|k: int|
                            k < opened.len() && #[trigger] stopped_at(
                                before,
                                all,
                                k,
                                self.record.writer.sent(),
                                self.record.content(),
                            );
                        assert(stopped_at(
                            before,
                            all,
                            k,
                            self.record.writer.sent(),
                            self.record.content(),
                        ));
                        assert(next_pair_text(old(self).is_written, name, what) == full);
                    }
                    return Err(error);
                },
            }
            proof {
                done = pairs_open();
            }
            self.is_written = true;
        }
        let ghost lead = done;
        proof {
            assert(lead + space + (name + equals + what) =~= full);
            assert(lead + space + name + (equals + what) =~= full);
            assert(lead + space + name + equals + what =~= full);
            valid_utf8_concat(space, name);
            valid_utf8_concat(space + name, equals);
            if first {
                lemma_chunked_concat(header, start, pairs_open(), space);
                lemma_chunked_concat(header, start, pairs_open(), space + name);
                lemma_chunked_concat(header, start, pairs_open(), space + name + equals);
                assert(pairs_open() + (space + name) =~= lead + space + name);
                assert(pairs_open() + (space + name + equals) =~= lead + space + name + equals);
            }
        }
        match self.record.write_piece(
            " ",
            Ghost(before),
            Ghost(start),
            Ghost(done),
            Ghost(name + equals + what),
        ) {
            Ok(()) => {},
            Err(error) => {
                proof {
                    let k = choose|k: int|
                        chunked(header, start, lead).0.len() <= k && #[trigger] stopped_at(
                            before,
                            all,
                            k,
                            self.record.writer.sent(),
                            self.record.content(),
                        );
                    assert(stopped_at(
                        before,
                        all,
                        k,
                        self.record.writer.sent(),
                        self.record.content(),
                    ));
                    assert(next_pair_text(old(self).is_written, name, what) == full);
                }
                return Err(error);
            },
        }
        proof {
            done = done + space;
        }
        match self.record.write_piece(
            key,
            Ghost(before),
            Ghost(start),
            Ghost(done),
            Ghost(equals + what),
        ) {
            Ok(()) => {},
            Err(error) => {
                proof {
                    let k = choose|k: int|
                        chunked(header, start, lead + space).0.len() <= k && #[trigger] stopped_at(
                            before,
                            all,
                            k,
                            self.record.writer.sent(),
                            self.record.content(),
                        );
                    assert(stopped_at(
                        before,
                        all,
                        k,
                        self.record.writer.sent(),
                        self.record.content(),
                    ));
                    assert(next_pair_text(old(self).is_written, name, what) == full);
                }
                return Err(error);
            },
        }
        proof {
            done = done + name;
        }
        match self.record.write_piece("=", Ghost(before), Ghost(start), Ghost(done), Ghost(what)) {
            Ok(()) => {},
            Err(error) => {
                proof {
                    let k = choose|k: int|
                        chunked(header, start, lead + space + name).0.len() <= k
                            && #[trigger] stopped_at(
                            before,
                            all,
                            k,
                            self.record.writer.sent(),
                            self.record.content(),
                        );
                    assert(stopped_at(
                        before,
                        all,
                        k,
                        self.record.writer.sent(),
                        self.record.content(),
                    ));
                    assert(next_pair_text(old(self).is_written, name, what) == full);
                }
                return Err(error);
            },
        }
        proof {
            done = done + equals;
        }
        match self.record.write_piece(value, Ghost(before), Ghost(start), Ghost(done), Ghost(none)) {
            Ok(()) => {},
            Err(error) => {
                proof {
                    let k = choose|k: int|
                        chunked(header, start, lead + space + name + equals).0.len() <= k
                            && #[trigger] stopped_at(
                            before,
                            all,
                            k,
                            self.record.writer.sent(),
                            self.record.content(),
                        );
                    assert(stopped_at(
                        before,
                        all,
                        k,
                        self.record.writer.sent(),
                        self.record.content(),
                    ));
                    assert(next_pair_text(old(self).is_written, name, what) == full);
                }
                return Err(error);
            },
        }
        Ok(())
    }

    /// Ends the record: closes the pairs with `]` if any was written,
    /// flushes the record, and clears the buffer.
    ///
    /// The flush is made even if the closing text could not be written: the
    /// record that the closing text stopped at is then handed over once
    /// more. The first error is returned. With no pair written and nothing
    /// behind the header, nothing is sent and nothing fails.
    pub fn finish(self) -> (r: Result<(), W::Error>)
        requires
            self.record.wf(),
        ensures
            record_bytes(*final(self.record.buffer)) == Seq::<u8>::empty(),
            old(self.record.writer).sent().is_prefix_of(final(self.record.writer).sent()),
            r is Ok ==> final(self.record.writer).sent() == old(self.record.writer).sent()
                + chunked(
                self.record.header(),
                record_bytes(*old(self.record.buffer)),
                closing_text(self.is_written),
            ).0 + flushed(
                self.record.header(),
                chunked(
                    self.record.header(),
                    record_bytes(*old(self.record.buffer)),
                    closing_text(self.is_written),
                ).1,
            ).0,
            r is Err ==> self.is_written || record_bytes(*old(self.record.buffer)).len()
                > self.record.header().len(),
            r is Err ==> closing_failed(
                old(self.record.writer).sent(),
                chunked(
                    self.record.header(),
                    record_bytes(*old(self.record.buffer)),
                    closing_text(self.is_written),
                ),
                self.record.header(),
                final(self.record.writer).sent(),
            ),
    {
        let mut visitor = self;
        let ghost header = visitor.record.header();
        let ghost before = visitor.record.writer.sent();
        let ghost closing = chunked(
            header,
            visitor.record.content(),
            closing_text(visitor.is_written),
        );
        proof {
            reveal_strlit("]");
            assert("]"@ =~= seq![']']);
            lemma_ascii_valid("]"@);
        }
        let closed = if visitor.is_written {
            visitor.record.write_str("]")
        } else {
            Ok(())
        };
        let ghost between = visitor.record.writer.sent();
        proof {
            if closed is Err {
                let k = choose|k: int|
                    0 <= k < closing.0.len() && between == before + closing.0.take(k)
                        && visitor.record.content() == #[trigger] closing.0[k];
                lemma_records_hold_text(
                    header,
                    record_bytes(*old(self.record.buffer)),
                    closing_text(self.is_written),
                    k,
                );
                assert(before + closing.0.take(k) + seq![closing.0[k]] =~= before
                    + closing.0.take(k + 1));
            }
        }
        let end = visitor.record.flush_without_clear();
        visitor.record.finish();
        match closed {
            Ok(()) => end,
            Err(error) => Err(error),
        }
    }
}

/// Syslog with log interface.
///
/// Each record is sent over a transport of its own, made by a copy of the
/// factory. A message that does not fit 1024 bytes is split into several
/// records.
pub struct Rfc3164Logger<W> {
    /// What every record has in common
    pub syslog: Syslog,
    /// The factory of transports
    pub writer: W,
}

impl<W: Clone> Rfc3164Logger<W> {
    /// Creates new instance which requires writer to be Clone-able.
    pub fn new(syslog: Syslog, writer: W) -> (logger: Self)
        ensures
            logger.syslog == syslog,
            logger.writer == writer,
    {
        Rfc3164Logger { syslog, writer }
    }
}

impl<W: MakeTransport + Clone> Rfc3164Logger<W> {
    /// Logs `message` and `key_values` as a record of `level` that is
    /// stamped with `timestamp` and `pid`. The record is built in `buffer`,
    /// behind what it holds, and sent by `writer`; the buffer is empty
    /// afterwards.
    ///
    /// When something cannot be sent, what is left of the record is closed
    /// and flushed all the same, and the first error is returned.
    #[verifier::loop_isolation(false)]
    #[verifier::rlimit(60)]
    pub fn log_with(
        &self,
        writer: &mut Writer<W>,
        buffer: &mut Rfc3164Buffer,
        level: LogLevel,
        message: &str,
        key_values: &Vec<(String, String)>,
        timestamp: Timestamp,
        pid: u32,
    ) -> (r: Result<(), W::Error>)
        requires
            record_bytes(*old(buffer)).len() + Rfc3164::LIMIT + 1 + MAX_CHAR_WIDTH
                <= RECORD_CAPACITY,
        ensures
            record_bytes(*final(buffer)) == Seq::<u8>::empty(),
            old(writer).sent().is_prefix_of(final(writer).sent()),
            r is Ok ==> final(writer).sent() == old(writer).sent() + records_of(
                record_bytes(*old(buffer)) + self.syslog.header_at(
                    Severity::of_level(level),
                    timestamp,
                    pid,
                ),
                body_bytes(message.spec_bytes(), key_values@),
            ),
            r is Err ==> records_of(
                record_bytes(*old(buffer)) + self.syslog.header_at(
                    Severity::of_level(level),
                    timestamp,
                    pid,
                ),
                body_bytes(message.spec_bytes(), key_values@),
            ).len() > 0,
    {
        let severity = Severity::from_level(level);
        let ghost before = writer.sent();
        let ghost header = record_bytes(*buffer) + self.syslog.header_at(severity, timestamp, pid);
        let ghost pairs = key_values@;
        let mut record = Rfc3164RecordWriter::with_stamp(
            &self.syslog,
            writer,
            buffer,
            severity,
            timestamp,
            pid,
        );
        let ghost body = body_bytes(message.spec_bytes(), pairs);
        proof {
            encode_utf8_valid_utf8(message@);
            lemma_body_valid(message.spec_bytes(), pairs);
            if body.len() > 0 {
                lemma_records_of_text(header, body);
            }
        }
        match record.write_str(message) {
            Ok(()) => {},
            Err(error) => {
                proof {
                    let parts = chunked(header, header, message.spec_bytes());
                    let k = choose|k: int|
                        0 <= k < parts.0.len() && record.writer.sent() == before + parts.0.take(k)
                            && record.content() == #[trigger] parts.0[k];
                    assert(message.spec_bytes().len() > 0);
                }
                record.finish();
                return Err(error);
            },
        }
        let ghost writer_end = *final(record.writer);
        let ghost buffer_end = *final(record.buffer);
        let mut visitor = StructuredVisitor::new(record);
        let ghost mut done = message.spec_bytes();
        let mut failed: Option<W::Error> = None;
        let mut idx: usize = 0;
        while idx < key_values.len() && failed.is_none()
            invariant
                idx <= key_values.len(),
                pairs == key_values@,
                visitor.record.wf(),
                visitor.record.header() == header,
                header.len() + MAX_CHAR_WIDTH <= RECORD_CAPACITY,
                valid_utf8(done),
                before.is_prefix_of(visitor.record.writer.sent()),
                failed is Some ==> pairs.len() > 0,
                failed is None ==> visitor.is_written == (idx > 0),
                failed is None ==> done == if idx > 0 {
                    message.spec_bytes() + pairs_open() + pairs_bytes(pairs.take(idx as int))
                } else {
                    message.spec_bytes()
                },
                failed is None ==> visitor.record.writer.sent() == before + chunked(
                    header,
                    header,
                    done,
                ).0,
                failed is None ==> visitor.record.content() == chunked(header, header, done).1,
                *final(visitor.record.writer) == writer_end,
                *final(visitor.record.buffer) == buffer_end,
            decreases key_values.len() - idx + if failed is None { 1int } else { 0int },
        {
            let key = key_values[idx].0.as_str();
            let value = key_values[idx].1.as_str();
            let ghost text = pair_text(idx == 0, key.spec_bytes(), value.spec_bytes());
            let ghost sent = visitor.record.writer.sent();
            proof {
                encode_utf8_valid_utf8(key@);
                encode_utf8_valid_utf8(value@);
                lemma_pair_valid(key.spec_bytes(), value.spec_bytes());
                valid_utf8_concat(done, text);
                lemma_chunked_concat(header, header, done, text);
            }
            match visitor.visit_pair(key, value) {
                Ok(()) => {
                    proof {
                        assert(pairs.take(idx + 1).drop_last() =~= pairs.take(idx as int));
                        if idx == 0 {
                            assert(pairs_bytes(pairs.take(0)) =~= Seq::<u8>::empty());
                            assert(done + text =~= message.spec_bytes() + pairs_open()
                                + pairs_bytes(pairs.take(1)));
                        } else {
                            assert(done + text =~= message.spec_bytes() + pairs_open()
                                + pairs_bytes(pairs.take(idx + 1)));
                        }
                        done = done + text;
                    }
                    idx += 1;
                },
                Err(error) => {
                    failed = Some(error);
                },
            }
        }
        let end = visitor.finish();
        match failed {
            Some(error) => Err(error),
            None => {
                proof {
                    if end is Err {
                        assert(idx > 0 || message.spec_bytes().len() > 0);
                    }
                    if end is Ok {
                        assert(pairs.take(idx as int) =~= pairs);
                        let close = if idx > 0 {
                            pairs_close()
                        } else {
                            Seq::<u8>::empty()
                        };
                        lemma_ascii_valid(seq![']']);
                        lemma_chunked_concat(header, header, done, close);
                        let so_far = chunked(header, header, done);
                        let next = chunked(header, so_far.1, close);
                        assert(before + so_far.0 + next.0 + flushed(header, next.1).0 =~= before
                            + ((so_far.0 + next.0) + flushed(header, next.1).0));
                    }
                }
                end
            },
        }
    }

    /// Logs `message` and `key_values` as a record of `level`, stamped with
    /// the current time and the id of this process, over a transport of its
    /// own. What cannot be sent is dropped.
    pub fn log(&self, level: LogLevel, message: &str, key_values: &Vec<(String, String)>) {
        let mut writer = Writer::new(self.writer.clone());
        let mut buffer = record_new();
        let timestamp = Timestamp::now_utc();
        let pid = process_id();
        let _ = self.log_with(&mut writer, &mut buffer, level, message, key_values, timestamp, pid);
    }
}

} // verus!
