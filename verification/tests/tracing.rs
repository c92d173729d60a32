use std::cell::RefCell;
use std::rc::Rc;

use syslog_client::syslog::header::{Hostname, Tag, Timestamp};
use syslog_client::syslog::LogLevel;
use syslog_client::tracing::{Rfc3164EventVisitor, Rfc3164Layer, Rfc3164SpanAttrsAccum};
use syslog_client::writer::{MakeTransport, Transport, TransportError, Writer};
use syslog_client::{Facility, Rfc3164Buffer, Rfc3164RecordWriter, Severity, Syslog};

#[test]
fn should_verify_rfc3164_accum() {
    let mut accum = Rfc3164SpanAttrsAccum::new("my_span");
    accum.record_debug_value(&"not-trunct");
    assert_eq!(accum.span_values(), "\"not-trunct\"");

    let big_value = "123456789-123456789-123456789-123456789-123456789";
    accum = Rfc3164SpanAttrsAccum::new("my_span");
    accum.record_debug_value(&big_value);
    assert_eq!(accum.span_values(), "<TRNCT>");

    let not_big_value = "123456789-123456789-123456789-123456789-123456789";
    accum = Rfc3164SpanAttrsAccum::new("my_span");
    accum.record_str_value(big_value);
    assert_eq!(accum.span_values(), not_big_value);

    let big_value = "123456789-123456789-123456789-123456789-123456789-1";
    accum = Rfc3164SpanAttrsAccum::new("my_span");
    accum.record_str_value(big_value);
    assert_eq!(accum.span_values(), "<TRNCT>");
}

#[test]
fn accum_parts_attributes_with_spaces() {
    let mut accum = Rfc3164SpanAttrsAccum::new("my_span");
    assert_eq!(accum.span_name(), "my_span");
    assert_eq!(accum.span_values(), "");
    accum.prepare_next_field("key");
    assert_eq!(accum.span_values(), "key=");
    accum.record_str_value("test");
    accum.prepare_next_field("value");
    accum.record_debug_value(&"value");
    assert_eq!(accum.span_values(), "key=test value=\"value\"");
    accum.prepare_next_field("count");
    accum.record_formatted_value("42");
    accum.prepare_next_field("failure");
    accum.record_error_value(&std::fmt::Error);
    assert_eq!(
        accum.span_values(),
        format!("key=test value=\"value\" count=42 failure={}", std::fmt::Error)
    );
    assert_eq!(accum.clone().span_values(), accum.span_values());
    assert_eq!(accum.clone().span_name(), "my_span");
}

#[test]
fn accum_records_numbers_and_booleans_as_they_are() {
    let mut accum = Rfc3164SpanAttrsAccum::new("s");
    accum.prepare_next_field("n");
    accum.record_plain_value("-12.5");
    accum.prepare_next_field("yes");
    accum.record_bool_value(true);
    accum.prepare_next_field("no");
    accum.record_bool_value(false);
    accum.prepare_next_field("long");
    accum.record_plain_value(&"9".repeat(60));
    assert_eq!(accum.span_values(), format!("n=-12.5 yes=true no=false long={}", "9".repeat(60)));
}

#[test]
fn accum_value_limit_is_fifty_bytes() {
    let fifty = "x".repeat(50);
    let mut accum = Rfc3164SpanAttrsAccum::new("s");
    accum.record_str_value(&fifty);
    assert_eq!(accum.span_values(), fifty);
    let mut accum = Rfc3164SpanAttrsAccum::new("s");
    accum.record_formatted_value(&fifty);
    assert_eq!(accum.span_values(), fifty);
    let mut accum = Rfc3164SpanAttrsAccum::new("s");
    accum.record_formatted_value(&"x".repeat(51));
    assert_eq!(accum.span_values(), "<TRNCT>");
    let mut accum = Rfc3164SpanAttrsAccum::new("s");
    accum.prepare_next_field("a");
    accum.record_formatted_value(&"x".repeat(300));
    assert_eq!(accum.span_values(), "a=<TRNCT>");
    let mut accum = Rfc3164SpanAttrsAccum::new("s");
    accum.record_debug_value(&"y".repeat(48));
    assert_eq!(accum.span_values(), format!("\"{}\"", "y".repeat(48)));
    let mut accum = Rfc3164SpanAttrsAccum::new("s");
    accum.record_debug_value(&"y".repeat(49));
    assert_eq!(accum.span_values(), "<TRNCT>");
}

#[test]
fn accum_holds_at_most_250_bytes() {
    let mut accum = Rfc3164SpanAttrsAccum::new("s");
    for _ in 0..4 {
        accum.record_str_value(&"a".repeat(50));
    }
    accum.record_str_value(&"b".repeat(45));
    assert_eq!(accum.span_values().len(), 245);
    accum.record_str_value("0123456789");
    assert_eq!(accum.span_values().len(), 250);
    assert!(accum.span_values().ends_with("bbbbb01234"));
    accum.record_str_value("more");
    accum.prepare_next_field("name");
    accum.record_formatted_value("more");
    assert_eq!(accum.span_values().len(), 250);
    assert!(accum.span_values().ends_with("bbbbb01234"));
}

#[test]
fn accum_keeps_a_value_that_the_buffer_cut_short() {
    let mut accum = Rfc3164SpanAttrsAccum::new("s");
    for _ in 0..4 {
        accum.record_str_value(&"a".repeat(50));
    }
    accum.record_str_value(&"b".repeat(40));
    accum.record_formatted_value(&"c".repeat(100));
    assert_eq!(accum.span_values().len(), 250);
    assert!(accum.span_values().ends_with(&format!("b{}", "c".repeat(10))));
    let mut accum = Rfc3164SpanAttrsAccum::new("s");
    for _ in 0..3 {
        accum.record_str_value(&"a".repeat(50));
    }
    accum.record_str_value(&"b".repeat(49));
    accum.record_formatted_value(&"c".repeat(52));
    assert_eq!(accum.span_values().len(), 199 + 7);
    assert!(accum.span_values().ends_with("b<TRNCT>"));
}

#[derive(Debug, Clone, Copy, PartialEq, Eq)]
struct Lost;

impl TransportError for Lost {
    fn terminal(&self) -> bool {
        true
    }

    fn is_terminal(&self) -> bool {
        true
    }
}

#[derive(Clone)]
struct Tape {
    records: Rc<RefCell<Vec<String>>>,
    fail_at: Option<usize>,
    tried: Rc<RefCell<usize>>,
}

impl Tape {
    fn new(fail_at: Option<usize>) -> Self {
        Tape { records: Rc::new(RefCell::new(Vec::new())), fail_at, tried: Rc::new(RefCell::new(0)) }
    }
}

impl MakeTransport for Tape {
    type Error = Lost;
    type Transport = Tape;

    fn create(&self) -> Result<Tape, Lost> {
        Ok(self.clone())
    }
}

impl Transport<Lost> for Tape {
    fn write(&mut self, _severity: Severity, msg: &str) -> Result<(), Lost> {
        let nth = *self.tried.borrow();
        *self.tried.borrow_mut() += 1;
        if self.fail_at == Some(nth) {
            return Err(Lost);
        }
        self.records.borrow_mut().push(msg.to_string());
        Ok(())
    }
}

const HEADER: &str = "<13>Mar  9 08:07:06 in.tracing tracing[77]: ";

fn syslog() -> Syslog {
    let hostname = Hostname::new("in.tracing").expect("not valid hostname");
    let tag = Tag::new("tracing").expect("not valid tag");
    Syslog::new(Facility::LOG_USER, hostname, tag)
}

fn morning() -> Timestamp {
    Timestamp { year: 2021, month: 2, day: 9, sec: 6, min: 7, hour: 8 }
}

fn pair(name: &str, value: &str) -> (String, String) {
    (name.to_string(), value.to_string())
}

#[test]
fn event_writes_the_message_as_it_is() {
    let tape = Tape::new(None);
    let layer = Rfc3164Layer::new(syslog(), tape.clone());
    let mut writer = Writer::new(tape.clone());
    let mut buffer = Rfc3164Buffer::new();
    layer
        .event_with(&mut writer, &mut buffer, LogLevel::Info, &vec![pair("message", "Some info log")], &vec![], morning(), 77)
        .expect("sent");
    assert_eq!(*tape.records.borrow(), vec![format!("{HEADER}Some info log")]);
    assert_eq!(buffer.len(), 0);
}

#[test]
fn event_writes_other_fields_with_their_names() {
    let tape = Tape::new(None);
    let layer = Rfc3164Layer::new(syslog(), tape.clone());
    let mut writer = Writer::new(tape.clone());
    let mut buffer = Rfc3164Buffer::new();
    let fields = vec![pair("message", "Some warning log"), pair("error", "ERROR")];
    layer.event_with(&mut writer, &mut buffer, LogLevel::Warn, &fields, &vec![], morning(), 77).expect("sent");
    let fields = vec![pair("message", "EVENT(key=test)"), pair("value", "\"value\"")];
    layer.event_with(&mut writer, &mut buffer, LogLevel::Info, &fields, &vec![], morning(), 77).expect("sent");
    let fields = vec![pair("messages", "m"), pair("Message", "M"), pair("", "empty")];
    layer.event_with(&mut writer, &mut buffer, LogLevel::Trace, &fields, &vec![], morning(), 77).expect("sent");
    assert_eq!(
        *tape.records.borrow(),
        vec![
            "<12>Mar  9 08:07:06 in.tracing tracing[77]: Some warning log error=ERROR".to_string(),
            format!("{HEADER}EVENT(key=test) value=\"value\""),
            "<15>Mar  9 08:07:06 in.tracing tracing[77]:  messages=m Message=M =empty".to_string(),
        ]
    );
}

#[test]
fn event_is_followed_by_the_attributes_of_its_spans() {
    let tape = Tape::new(None);
    let layer = Rfc3164Layer::new(syslog(), tape.clone());
    let mut writer = Writer::new(tape.clone());
    let mut buffer = Rfc3164Buffer::new();
    let mut inner = Rfc3164SpanAttrsAccum::new("my_span");
    inner.prepare_next_field("key");
    inner.record_str_value("test");
    inner.prepare_next_field("value");
    inner.record_debug_value(&"value");
    let outer = Rfc3164SpanAttrsAccum::new("outer");
    let fields = vec![pair("message", "EVENT(key=test)"), pair("value", "\"value\"")];
    layer
        .event_with(&mut writer, &mut buffer, LogLevel::Info, &fields, &vec![inner, outer], morning(), 77)
        .expect("sent");
    assert_eq!(
        *tape.records.borrow(),
        vec![format!("{HEADER}EVENT(key=test) value=\"value\" [my_span key=test value=\"value\"] [outer ]")]
    );
}

#[test]
fn event_without_fields_sends_nothing() {
    let tape = Tape::new(None);
    let layer = Rfc3164Layer::new(syslog(), tape.clone());
    let mut writer = Writer::new(tape.clone());
    let mut buffer = Rfc3164Buffer::new();
    layer.event_with(&mut writer, &mut buffer, LogLevel::Info, &vec![], &vec![], morning(), 77).expect("nothing to send");
    layer
        .event_with(&mut writer, &mut buffer, LogLevel::Info, &vec![pair("message", "")], &vec![], morning(), 77)
        .expect("nothing to send");
    assert!(tape.records.borrow().is_empty());
    assert_eq!(buffer.len(), 0);
}

#[test]
fn long_event_is_split_into_records() {
    let tape = Tape::new(None);
    let layer = Rfc3164Layer::new(syslog(), tape.clone());
    let mut writer = Writer::new(tape.clone());
    let mut buffer = Rfc3164Buffer::new();
    let room = 1024 - HEADER.len();
    let fields = vec![pair("message", &"m".repeat(room - 2)), pair("k", "0123456789")];
    layer.event_with(&mut writer, &mut buffer, LogLevel::Info, &fields, &vec![], morning(), 77).expect("sent");
    assert_eq!(
        *tape.records.borrow(),
        vec![format!("{HEADER}{} k", "m".repeat(room - 2)), format!("{HEADER}=0123456789")]
    );
    assert_eq!(tape.records.borrow()[0].len(), 1024);
}

#[test]
fn event_goes_on_after_a_failed_write_and_reports_it() {
    let tape = Tape::new(Some(0));
    let layer = Rfc3164Layer::new(syslog(), tape.clone());
    let mut writer = Writer::new(tape.clone());
    let mut buffer = Rfc3164Buffer::new();
    let room = 1024 - HEADER.len();
    let fields = vec![pair("message", &"m".repeat(room + 1)), pair("k", "v")];
    assert_eq!(
        layer.event_with(&mut writer, &mut buffer, LogLevel::Info, &fields, &vec![], morning(), 77),
        Err(Lost)
    );
    assert_eq!(buffer.len(), 0);
    assert_eq!(
        *tape.records.borrow(),
        vec![format!("{HEADER}{}", "m".repeat(room)), format!("{HEADER} k=v")]
    );
}

#[test]
fn event_over_a_transport_of_its_own() {
    let tape = Tape::new(None);
    let layer = Rfc3164Layer::new(syslog(), tape.clone());
    layer.event(LogLevel::Error, &vec![pair("message", "Some info log")], &vec![]);
    let records = tape.records.borrow().clone();
    assert_eq!(records.len(), 1);
    assert!(records[0].starts_with("<11>"));
    let mut line_split = records[0].rsplitn(2, ':');
    assert_eq!(line_split.next().unwrap(), " Some info log");
}

#[test]
fn event_visitor_flushes_when_it_finishes() {
    let syslog = syslog();
    let tape = Tape::new(None);
    let mut writer = Writer::new(tape.clone());
    let mut buffer = Rfc3164Buffer::new();
    let record = Rfc3164RecordWriter::with_stamp(&syslog, &mut writer, &mut buffer, Severity::LOG_NOTICE, morning(), 77);
    let mut visitor = Rfc3164EventVisitor::new(record);
    visitor.record_field("message", "text").expect("written");
    visitor.record_field("n", "1").expect("written");
    assert!(tape.records.borrow().is_empty());
    visitor.finish().expect("flushed");
    assert_eq!(*tape.records.borrow(), vec![format!("{HEADER}text n=1")]);
    assert_eq!(buffer.len(), 0);
}

#[test]
fn field_that_fails_leaves_the_record_that_failed_in_the_buffer() {
    let syslog = syslog();
    let tape = Tape::new(Some(1));
    let mut writer = Writer::new(tape.clone());
    let mut buffer = Rfc3164Buffer::new();
    let room = 1024 - HEADER.len();
    let record = Rfc3164RecordWriter::with_stamp(&syslog, &mut writer, &mut buffer, Severity::LOG_NOTICE, morning(), 77);
    let mut visitor = Rfc3164EventVisitor::new(record);
    let value: String = (0..2 * room + 3).map(|idx| char::from(b'a' + (idx % 26) as u8)).collect();
    assert_eq!(visitor.record_field("message", &value), Err(Lost));
    assert_eq!(*tape.records.borrow(), vec![format!("{HEADER}{}", &value[..room])]);
    assert_eq!(visitor.record.buffer.as_str(), format!("{HEADER}{}", &value[room..2 * room]));
    let _ = visitor.finish();
}

#[test]
fn named_field_that_fails_stops_where_the_flush_failed() {
    let syslog = syslog();
    let tape = Tape::new(Some(0));
    let mut writer = Writer::new(tape.clone());
    let mut buffer = Rfc3164Buffer::new();
    let room = 1024 - HEADER.len();
    let record = Rfc3164RecordWriter::with_stamp(&syslog, &mut writer, &mut buffer, Severity::LOG_NOTICE, morning(), 77);
    let mut visitor = Rfc3164EventVisitor::new(record);
    visitor.record_field("message", &"m".repeat(room - 3)).expect("written");
    assert_eq!(visitor.record_field("name", "value"), Err(Lost));
    assert!(tape.records.borrow().is_empty());
    assert_eq!(visitor.record.buffer.as_str(), format!("{HEADER}{} na", "m".repeat(room - 3)));
    let _ = visitor.finish();
}

#[test]
fn field_that_fits_is_written_whatever_the_transport_would_do() {
    let syslog = syslog();
    let tape = Tape::new(Some(0));
    let mut writer = Writer::new(tape.clone());
    let mut buffer = Rfc3164Buffer::new();
    let record = Rfc3164RecordWriter::with_stamp(&syslog, &mut writer, &mut buffer, Severity::LOG_NOTICE, morning(), 77);
    let mut visitor = Rfc3164EventVisitor::new(record);
    visitor.record_field("message", "text").expect("nothing is sent");
    visitor.record_field("n", "1").expect("nothing is sent");
    let span = Rfc3164SpanAttrsAccum::new("s");
    visitor.record_span(&span).expect("nothing is sent");
    assert_eq!(visitor.record.buffer.as_str(), format!("{HEADER}text n=1 [s ]"));
    assert_eq!(*tape.tried.borrow(), 0);
    let _ = visitor.finish();
}

#[test]
fn span_that_fails_leaves_the_record_that_failed_in_the_buffer() {
    let syslog = syslog();
    let tape = Tape::new(Some(0));
    let mut writer = Writer::new(tape.clone());
    let mut buffer = Rfc3164Buffer::new();
    let room = 1024 - HEADER.len();
    let record = Rfc3164RecordWriter::with_stamp(&syslog, &mut writer, &mut buffer, Severity::LOG_NOTICE, morning(), 77);
    let mut visitor = Rfc3164EventVisitor::new(record);
    visitor.record_field("message", &"m".repeat(room - 6)).expect("written");
    let mut span = Rfc3164SpanAttrsAccum::new("my_span");
    span.prepare_next_field("key");
    span.record_str_value("test");
    assert_eq!(visitor.record_span(&span), Err(Lost));
    assert!(tape.records.borrow().is_empty());
    assert_eq!(visitor.record.buffer.as_str(), format!("{HEADER}{} [my_s", "m".repeat(room - 6)));
    visitor.record_span(&span).expect("second write works");
    assert_eq!(*tape.records.borrow(), vec![format!("{HEADER}{} [my_s", "m".repeat(room - 6))]);
    assert_eq!(visitor.record.buffer.as_str(), format!("{HEADER} [my_span key=test]"));
    let _ = visitor.finish();
}

struct Broken;

impl std::fmt::Debug for Broken {
    fn fmt(&self, f: &mut std::fmt::Formatter<'_>) -> std::fmt::Result {
        f.write_str("half")?;
        Err(std::fmt::Error)
    }
}

impl std::fmt::Display for Broken {
    fn fmt(&self, f: &mut std::fmt::Formatter<'_>) -> std::fmt::Result {
        f.write_str("part")?;
        Err(std::fmt::Error)
    }
}

#[test]
fn value_whose_formatting_fails_is_recorded_as_far_as_it_came() {
    let mut accum = Rfc3164SpanAttrsAccum::new("s");
    accum.prepare_next_field("a");
    accum.record_debug_value(&Broken);
    accum.prepare_next_field("b");
    accum.record_error_value(&Broken);
    assert_eq!(accum.span_values(), "a=half b=part");
}

#[test]
fn event_visitor_with_nothing_to_send_finishes_without_the_transport() {
    let syslog = syslog();
    let tape = Tape::new(Some(0));
    let mut writer = Writer::new(tape.clone());
    let mut buffer = Rfc3164Buffer::new();
    let record = Rfc3164RecordWriter::with_stamp(&syslog, &mut writer, &mut buffer, Severity::LOG_NOTICE, morning(), 77);
    let visitor = Rfc3164EventVisitor::new(record);
    visitor.finish().expect("nothing to send");
    assert_eq!(*tape.tried.borrow(), 0);
    assert_eq!(buffer.len(), 0);
}

#[test]
fn event_visitor_whose_flush_fails_sends_nothing() {
    let syslog = syslog();
    let tape = Tape::new(Some(0));
    let mut writer = Writer::new(tape.clone());
    let mut buffer = Rfc3164Buffer::new();
    let record = Rfc3164RecordWriter::with_stamp(&syslog, &mut writer, &mut buffer, Severity::LOG_NOTICE, morning(), 77);
    let mut visitor = Rfc3164EventVisitor::new(record);
    visitor.record_field("message", "text").expect("written");
    assert_eq!(visitor.finish(), Err(Lost));
    assert!(tape.records.borrow().is_empty());
    assert_eq!(*tape.tried.borrow(), 1);
    assert_eq!(buffer.len(), 0);
}
