//! Syslog header components.

use crate::buffer::{
    hostname_as_str, hostname_from_str_checked, hostname_text, record_as_str, record_bytes,
    record_new, rfc3164_header_bytes, rfc3164_header_from_str, rfc5424_header_bytes,
    rfc5424_header_from_str, tag_as_str, tag_from_str_checked, tag_text, Rfc3164Buffer,
    HOSTNAME_CAPACITY, TAG_CAPACITY,
};
use crate::format::{
    appended, ascii_bytes, decimal, lemma_ascii_boundary, lemma_concat_ascii, lemma_decimal_ascii,
    lemma_decimal_len_u16, lemma_decimal_len_u32, lemma_decimal_len_u8, lemma_padded_ascii,
    lemma_padded_len, padded, put, put_decimal, put_padded, put_piece,
};
use str_buf::StrBuf;
use vstd::prelude::*;
use vstd::string::*;
use vstd::utf8::*;

verus! {

/// True for the ASCII letters and digits.
pub open spec fn is_alphanumeric(c: char) -> bool {
    ('a' <= c && c <= 'z') || ('A' <= c && c <= 'Z') || ('0' <= c && c <= '9')
}

/// True for the characters a hostname may hold.
pub open spec fn is_hostname_char(c: char) -> bool {
    is_alphanumeric(c) || c == '-' || c == '.'
}

/// A hostname is 1 to 64 characters, each a letter, a digit, `-` or `.`.
pub open spec fn valid_hostname(text: Seq<char>) -> bool {
    &&& 1 <= text.len() <= HOSTNAME_CAPACITY
    &&& forall|i: int| 0 <= i < text.len() ==> is_hostname_char(#[trigger] text[i])
}

/// A tag is 1 to 32 characters, each a letter or a digit.
pub open spec fn valid_tag(text: Seq<char>) -> bool {
    &&& 1 <= text.len() <= TAG_CAPACITY
    &&& forall|i: int| 0 <= i < text.len() ==> is_alphanumeric(#[trigger] text[i])
}

/// Tells whether `byt` is an ASCII letter or digit.
fn is_alphanumeric_byte(byt: u8) -> (r: bool)
    ensures
        r == (byt < 128 && is_alphanumeric(byt as char)),
{
    (byt >= 97 && byt <= 122) || (byt >= 65 && byt <= 90) || (byt >= 48 && byt <= 57)
}

/// Hostname, limited to 64 characters.
pub struct Hostname(StrBuf<65>);

impl View for Hostname {
    type V = Seq<char>;

    closed spec fn view(&self) -> Seq<char> {
        hostname_text(self.0)
    }
}

impl Hostname {
    /// What holds of every hostname.
    #[verifier::type_invariant]
    pub open spec fn well_formed(self) -> bool {
        valid_hostname(self@)
    }

    /// The hostname that stands for "no hostname": `-`.
    pub fn none(&self) -> (r: Self)
        ensures
            r@ == seq!['-'],
    {
        proof {
            reveal_strlit("-");
        }
        assert(valid_hostname("-"@));
        match Hostname::new("-") {
            Some(hostname) => hostname,
            None => vstd::pervasive::unreached(),
        }
    }

    /// Gets the hostname as text.
    pub fn as_str(&self) -> (text: &str)
        ensures
            text@ == self@,
            valid_hostname(self@),
    {
        proof {
            use_type_invariant(self);
        }
        hostname_as_str(&self.0)
    }

    /// Creates a hostname from `name`, or nothing if `name` is empty, longer
    /// than 64 bytes, or holds a character other than an ASCII letter, an
    /// ASCII digit, `-` or `.`.
    pub fn new(name: &str) -> (r: Option<Self>)
        ensures
            r is Some <==> valid_hostname(name@),
            r matches Some(hostname) ==> hostname@ == name@,
    {
        if name.is_empty() {
            return None;
        }
        if !name.is_ascii() {
            return None;
        }
        proof {
            is_ascii_chars_encode_utf8(name@);
        }
        match hostname_from_str_checked(name) {
            Ok(buffer) => {
                let bytes = name.as_bytes();
                let mut idx: usize = 0;
                while idx < bytes.len()
                    invariant
                        idx <= bytes.len(),
                        bytes@ == name.spec_bytes(),
                        bytes@.len() == name@.len(),
                        is_ascii_chars(name@),
                        forall|i: int| 0 <= i < name@.len() ==> name@[i] as u8 == bytes@[i],
                        forall|i: int| 0 <= i < idx ==> is_hostname_char(#[trigger] name@[i]),
                    decreases bytes.len() - idx,
                {
                    let byt = bytes[idx];
                    assert(name@[idx as int] as u8 == byt);
                    if is_alphanumeric_byte(byt) || byt == 45 || byt == 46 {
                        idx += 1;
                    } else {
                        assert(!is_hostname_char(name@[idx as int]));
                        return None;
                    }
                }
                Some(Hostname(buffer))
            },
            Err(_) => None,
        }
    }
}

/// Process name, limited to 32 characters.
pub struct Tag(StrBuf<33>);

impl View for Tag {
    type V = Seq<char>;

    closed spec fn view(&self) -> Seq<char> {
        tag_text(self.0)
    }
}

impl Tag {
    /// What holds of every tag.
    #[verifier::type_invariant]
    pub open spec fn well_formed(self) -> bool {
        valid_tag(self@)
    }

    /// Gets the tag as text.
    pub fn as_str(&self) -> (text: &str)
        ensures
            text@ == self@,
            valid_tag(self@),
    {
        proof {
            use_type_invariant(self);
        }
        tag_as_str(&self.0)
    }

    /// Creates a tag from `name`, or nothing if `name` is empty, longer than
    /// 32 bytes, or holds a character other than an ASCII letter or digit.
    pub fn new(name: &str) -> (r: Option<Self>)
        ensures
            r is Some <==> valid_tag(name@),
            r matches Some(tag) ==> tag@ == name@,
    {
        if name.is_empty() {
            return None;
        }
        if !name.is_ascii() {
            return None;
        }
        proof {
            is_ascii_chars_encode_utf8(name@);
        }
        match tag_from_str_checked(name) {
            Ok(buffer) => {
                let bytes = name.as_bytes();
                let mut idx: usize = 0;
                while idx < bytes.len()
                    invariant
                        idx <= bytes.len(),
                        bytes@ == name.spec_bytes(),
                        bytes@.len() == name@.len(),
                        is_ascii_chars(name@),
                        forall|i: int| 0 <= i < name@.len() ==> name@[i] as u8 == bytes@[i],
                        forall|i: int| 0 <= i < idx ==> is_alphanumeric(#[trigger] name@[i]),
                    decreases bytes.len() - idx,
                {
                    let byt = bytes[idx];
                    assert(name@[idx as int] as u8 == byt);
                    if is_alphanumeric_byte(byt) {
                        idx += 1;
                    } else {
                        assert(!is_alphanumeric(name@[idx as int]));
                        return None;
                    }
                }
                Some(Tag(buffer))
            },
            Err(_) => None,
        }
    }
}

/// Timestamp components.
#[derive(Clone, Copy, Debug)]
pub struct Timestamp {
    /// Year
    pub year: u16,
    /// Months since January. Range 0-11
    pub month: u8,
    /// Day of the month. Range 1-31
    pub day: u8,
    /// Seconds after the minute. Range 0-60
    pub sec: u8,
    /// Minutes after the hour. Range 0-59
    pub min: u8,
    /// Hours since midnight. Range 0-23
    pub hour: u8,
}

/// Abbreviated English name of the month that lies `month` months after
/// January, or `???` where there is no such month.
pub open spec fn month_name(month: u8) -> Seq<char> {
    if month == 0 {
        seq!['J', 'a', 'n']
    } else if month == 1 {
        seq!['F', 'e', 'b']
    } else if month == 2 {
        seq!['M', 'a', 'r']
    } else if month == 3 {
        seq!['A', 'p', 'r']
    } else if month == 4 {
        seq!['M', 'a', 'y']
    } else if month == 5 {
        seq!['J', 'u', 'n']
    } else if month == 6 {
        seq!['J', 'u', 'l']
    } else if month == 7 {
        seq!['A', 'u', 'g']
    } else if month == 8 {
        seq!['S', 'e', 'p']
    } else if month == 9 {
        seq!['O', 'c', 't']
    } else if month == 10 {
        seq!['N', 'o', 'v']
    } else if month == 11 {
        seq!['D', 'e', 'c']
    } else {
        seq!['?', '?', '?']
    }
}

/// The time of the C library's clock in UTC, if it gives one: year, month
/// (1 to 12), day of the month, hour, minute and second, as
/// `time_c::Time::now_utc` reports them. Of the values only this is known:
/// the month is not 0.
#[verifier::external_body]
fn clock_now() -> (now: Option<(u16, u8, u8, u8, u8, u8)>)
    ensures
        now matches Some(reading) ==> reading.1 >= 1,
{
    match time_c::Time::now_utc() {
        Some(time) => Some((time.year, time.month, time.month_day, time.hour, time.min, time.sec)),
        None => None,
    }
}

impl Timestamp {
    /// The timestamp used when no time is available: the start of 1970.
    pub open spec fn epoch() -> Timestamp {
        Timestamp { year: 1970, month: 0, day: 1, sec: 0, min: 0, hour: 0 }
    }

    /// The timestamp for a reading of the clock, which counts months from 1.
    pub open spec fn of_clock(now: Option<(u16, u8, u8, u8, u8, u8)>) -> Timestamp {
        match now {
            Some((year, month, day, hour, min, sec)) => Timestamp {
                year,
                month: if month == 0 {
                    0u8
                } else {
                    (month - 1) as u8
                },
                day,
                sec,
                min,
                hour,
            },
            None => Timestamp::epoch(),
        }
    }

    /// Creates new UTC timestamp as default value when time is not available.
    pub fn utc() -> (ts: Self)
        ensures
            ts == Timestamp::epoch(),
    {
        Timestamp { year: 1970, month: 0, day: 1, hour: 0, min: 0, sec: 0 }
    }

    /// Creates the timestamp for a reading of the clock: year, month (1 to
    /// 12), day of the month, hour, minute and second. Without a reading the
    /// timestamp is the default one.
    pub fn from_clock(now: Option<(u16, u8, u8, u8, u8, u8)>) -> (ts: Self)
        ensures
            ts == Timestamp::of_clock(now),
    {
        match now {
            Some((year, month, day, hour, min, sec)) => Timestamp {
                year,
                month: if month == 0 {
                    0
                } else {
                    month - 1
                },
                day,
                hour,
                sec,
                min,
            },
            None => Timestamp::utc(),
        }
    }

    /// Creates new current time instance or falls back to default UTC time.
    pub fn now_utc() -> (ts: Self)
        ensures
            exists|now: Option<(u16, u8, u8, u8, u8, u8)>|
                (now matches Some(reading) ==> reading.1 >= 1) && ts == #[trigger] Timestamp::of_clock(
                    now,
                ),
    {
        let now = clock_now();
        Timestamp::from_clock(now)
    }

    /// Name of the month as RFC 3164 writes it.
    pub fn rfc3164_month(&self) -> (name: &'static str)
        ensures
            name@ == month_name(self.month),
            is_ascii_chars(name@),
    {
        proof {
            reveal_strlit("Jan");
            reveal_strlit("Feb");
            reveal_strlit("Mar");
            reveal_strlit("Apr");
            reveal_strlit("May");
            reveal_strlit("Jun");
            reveal_strlit("Jul");
            reveal_strlit("Aug");
            reveal_strlit("Sep");
            reveal_strlit("Oct");
            reveal_strlit("Nov");
            reveal_strlit("Dec");
            reveal_strlit("???");
        }
        let name = match self.month {
            0 => "Jan",
            1 => "Feb",
            2 => "Mar",
            3 => "Apr",
            4 => "May",
            5 => "Jun",
            6 => "Jul",
            7 => "Aug",
            8 => "Sep",
            9 => "Oct",
            10 => "Nov",
            11 => "Dec",
            _ => "???",
        };
        assert(name@ =~= month_name(self.month));
        name
    }
}

/// The text of an RFC 3164 header:
/// `<PRI>Mon DD HH:MM:SS HOSTNAME TAG[PID]:`, with the day filled up with a
/// space and the hour, minute and second with a zero.
pub open spec fn rfc3164_text(
    pri: u8,
    timestamp: Timestamp,
    hostname: Seq<char>,
    tag: Seq<char>,
    pid: u32,
) -> Seq<char> {
    seq!['<'] + decimal(pri as nat) + seq!['>'] + month_name(timestamp.month) + seq![' ']
        + padded(timestamp.day as nat, 2, ' ') + seq![' '] + padded(timestamp.hour as nat, 2, '0')
        + seq![':'] + padded(timestamp.min as nat, 2, '0') + seq![':'] + padded(
        timestamp.sec as nat,
        2,
        '0',
    ) + seq![' '] + hostname + seq![' '] + tag + seq!['['] + decimal(pid as nat) + seq![']', ':']
}

/// The first `limit` bytes of `bytes`, or all of them if there are fewer.
pub open spec fn cut(bytes: Seq<u8>, limit: int) -> Seq<u8> {
    if bytes.len() <= limit {
        bytes
    } else {
        bytes.take(limit)
    }
}

/// RFC 3164 header to the message.
pub struct Rfc3164<'a> {
    /// Encoded priority
    pub pri: u8,
    /// Timestamp
    pub timestamp: Timestamp,
    /// Hostname
    pub hostname: &'a Hostname,
    /// Process name (tag)
    pub tag: &'a Tag,
    /// Process pid
    pub pid: u32,
}

impl<'a> Rfc3164<'a> {
    /// Max possible header size, for a timestamp whose fields are in range.
    pub const SIZE: usize = 131;

    /// Size that no header exceeds, whatever its timestamp holds.
    pub const LIMIT: usize = 136;

    /// The text of this header.
    pub open spec fn text(&self) -> Seq<char> {
        rfc3164_text(self.pri, self.timestamp, self.hostname@, self.tag@, self.pid)
    }

    /// The header is ASCII and at most [`Self::LIMIT`] bytes long; with a
    /// day, hour, minute and second below 100 it is at most [`Self::SIZE`]
    /// bytes long.
    #[verifier::rlimit(40)]
    pub proof fn lemma_text_bounds(&self)
        requires
            valid_hostname(self.hostname@),
            valid_tag(self.tag@),
        ensures
            is_ascii_chars(self.text()),
            23 <= self.text().len() <= Self::LIMIT,
            self.timestamp.day < 100 && self.timestamp.hour < 100 && self.timestamp.min < 100
                && self.timestamp.sec < 100 ==> self.text().len() <= Self::SIZE,
    {
        let t = self.timestamp;
        lemma_decimal_len_u8(self.pri);
        lemma_decimal_len_u32(self.pid);
        lemma_decimal_len_u8(t.day);
        lemma_decimal_len_u8(t.hour);
        lemma_decimal_len_u8(t.min);
        lemma_decimal_len_u8(t.sec);
        lemma_padded_len(t.day as nat, 2, ' ');
        lemma_padded_len(t.hour as nat, 2, '0');
        lemma_padded_len(t.min as nat, 2, '0');
        lemma_padded_len(t.sec as nat, 2, '0');
        lemma_decimal_ascii(self.pri as nat);
        lemma_decimal_ascii(self.pid as nat);
        lemma_padded_ascii(t.day as nat, 2, ' ');
        lemma_padded_ascii(t.hour as nat, 2, '0');
        lemma_padded_ascii(t.min as nat, 2, '0');
        lemma_padded_ascii(t.sec as nat, 2, '0');
        let acc1 = seq!['<'] + decimal(self.pri as nat);
        lemma_concat_ascii(seq!['<'], decimal(self.pri as nat));
        let acc2 = acc1 + seq!['>'];
        lemma_concat_ascii(acc1, seq!['>']);
        let acc3 = acc2 + month_name(t.month);
        lemma_concat_ascii(acc2, month_name(t.month));
        let acc4 = acc3 + seq![' '];
        lemma_concat_ascii(acc3, seq![' ']);
        let acc5 = acc4 + padded(t.day as nat, 2, ' ');
        lemma_concat_ascii(acc4, padded(t.day as nat, 2, ' '));
        let acc6 = acc5 + seq![' '];
        lemma_concat_ascii(acc5, seq![' ']);
        let acc7 = acc6 + padded(t.hour as nat, 2, '0');
        lemma_concat_ascii(acc6, padded(t.hour as nat, 2, '0'));
        let acc8 = acc7 + seq![':'];
        lemma_concat_ascii(acc7, seq![':']);
        let acc9 = acc8 + padded(t.min as nat, 2, '0');
        lemma_concat_ascii(acc8, padded(t.min as nat, 2, '0'));
        let acc10 = acc9 + seq![':'];
        lemma_concat_ascii(acc9, seq![':']);
        let acc11 = acc10 + padded(t.sec as nat, 2, '0');
        lemma_concat_ascii(acc10, padded(t.sec as nat, 2, '0'));
        let acc12 = acc11 + seq![' '];
        lemma_concat_ascii(acc11, seq![' ']);
        let acc13 = acc12 + self.hostname@;
        lemma_concat_ascii(acc12, self.hostname@);
        let acc14 = acc13 + seq![' '];
        lemma_concat_ascii(acc13, seq![' ']);
        let acc15 = acc14 + self.tag@;
        lemma_concat_ascii(acc14, self.tag@);
        let acc16 = acc15 + seq!['['];
        lemma_concat_ascii(acc15, seq!['[']);
        let acc17 = acc16 + decimal(self.pid as nat);
        lemma_concat_ascii(acc16, decimal(self.pid as nat));
        let acc18 = acc17 + seq![']', ':'];
        lemma_concat_ascii(acc17, seq![']', ':']);
        assert(acc18 == self.text());
    }

    /// Writes the header after what `out` holds. A header that does not fit
    /// is cut where the buffer ends.
    #[verifier::rlimit(40)]
    pub fn write_buffer(&self, out: &mut Rfc3164Buffer)
        ensures
            record_bytes(*final(out)) == appended(
                record_bytes(*old(out)),
                ascii_bytes(self.text()),
            ),
    {
        let ghost start = record_bytes(*out);
        let tag = self.tag.as_str();
        let hostname = self.hostname.as_str();
        let month = self.timestamp.rfc3164_month();
        proof {
            reveal_strlit("<");
            reveal_strlit(">");
            reveal_strlit(" ");
            reveal_strlit("0");
            reveal_strlit(":");
            reveal_strlit("[");
            reveal_strlit("]:");
        }
        put(out, "<");
        let ghost mut done: Seq<char> = "<"@;
        assert(ascii_bytes(done) == ascii_bytes(Seq::<char>::empty() + done)) by {
            assert(Seq::<char>::empty() + done =~= done);
        }
        put_decimal(out, self.pri as u32, Ghost(start), Ghost(done));
        proof {
            done = done + decimal(self.pri as nat);
        }
        put_piece(out, ">", Ghost(start), Ghost(done));
        proof {
            done = done + ">"@;
        }
        put_piece(out, month, Ghost(start), Ghost(done));
        proof {
            done = done + month@;
        }
        put_piece(out, " ", Ghost(start), Ghost(done));
        proof {
            done = done + " "@;
        }
        put_padded(out, self.timestamp.day as u32, 2, " ", Ghost(start), Ghost(done));
        proof {
            done = done + padded(self.timestamp.day as nat, 2, ' ');
        }
        put_piece(out, " ", Ghost(start), Ghost(done));
        proof {
            done = done + " "@;
        }
        put_padded(out, self.timestamp.hour as u32, 2, "0", Ghost(start), Ghost(done));
        proof {
            done = done + padded(self.timestamp.hour as nat, 2, '0');
        }
        put_piece(out, ":", Ghost(start), Ghost(done));
        proof {
            done = done + ":"@;
        }
        put_padded(out, self.timestamp.min as u32, 2, "0", Ghost(start), Ghost(done));
        proof {
            done = done + padded(self.timestamp.min as nat, 2, '0');
        }
        put_piece(out, ":", Ghost(start), Ghost(done));
        proof {
            done = done + ":"@;
        }
        put_padded(out, self.timestamp.sec as u32, 2, "0", Ghost(start), Ghost(done));
        proof {
            done = done + padded(self.timestamp.sec as nat, 2, '0');
        }
        put_piece(out, " ", Ghost(start), Ghost(done));
        proof {
            done = done + " "@;
        }
        put_piece(out, hostname, Ghost(start), Ghost(done));
        proof {
            done = done + hostname@;
        }
        put_piece(out, " ", Ghost(start), Ghost(done));
        proof {
            done = done + " "@;
        }
        put_piece(out, tag, Ghost(start), Ghost(done));
        proof {
            done = done + tag@;
        }
        put_piece(out, "[", Ghost(start), Ghost(done));
        proof {
            done = done + "["@;
        }
        put_decimal(out, self.pid, Ghost(start), Ghost(done));
        proof {
            done = done + decimal(self.pid as nat);
        }
        put_piece(out, "]:", Ghost(start), Ghost(done));
        proof {
            done = done + "]:"@;
            assert("<"@ =~= seq!['<']);
            assert(">"@ =~= seq!['>']);
            assert(" "@ =~= seq![' ']);
            assert(":"@ =~= seq![':']);
            assert("["@ =~= seq!['[']);
            assert("]:"@ =~= seq![']', ':']);
            assert(done == self.text());
        }
    }

    /// Creates a buffer of the header's maximal size that holds the header.
    /// A header that is longer than that is cut.
    pub fn create_buffer(&self) -> (buffer: StrBuf<132>)
        ensures
            rfc3164_header_bytes(buffer) == cut(ascii_bytes(self.text()), Self::SIZE as int),
    {
        let mut out = record_new();
        self.write_buffer(&mut out);
        proof {
            use_type_invariant(self.hostname);
            use_type_invariant(self.tag);
            self.lemma_text_bounds();
            if self.text().len() > Self::SIZE {
                lemma_ascii_boundary(self.text(), Self::SIZE as int);
            } else {
                lemma_ascii_boundary(self.text(), 0);
            }
            assert(Seq::<u8>::empty() + ascii_bytes(self.text()) =~= ascii_bytes(self.text()));
        }
        let text = record_as_str(&out);
        if text.len() <= Self::SIZE {
            rfc3164_header_from_str(text)
        } else {
            let (head, _rest) = text.split_at(Self::SIZE);
            rfc3164_header_from_str(head)
        }
    }
}

/// Number of a month in a date, where `month` counts the months since
/// January: one more, within 8 bits.
pub open spec fn month_number(month: u8) -> nat {
    if month == 255 {
        0
    } else {
        (month + 1) as nat
    }
}

/// The text of an RFC 5424 header:
/// `<PRI>YYYY-MM-DDTHH:MM:SSZ HOSTNAME TAG PID MSGID`, with every field of
/// the date and time filled up with zeros.
pub open spec fn rfc5424_text(
    pri: u8,
    timestamp: Timestamp,
    hostname: Seq<char>,
    tag: Seq<char>,
    pid: u32,
    msg_id: Seq<char>,
) -> Seq<char> {
    seq!['<'] + decimal(pri as nat) + seq!['>'] + padded(timestamp.year as nat, 4, '0') + seq!['-']
        + padded(month_number(timestamp.month), 2, '0') + seq!['-'] + padded(
        timestamp.day as nat,
        2,
        '0',
    ) + seq!['T'] + padded(timestamp.hour as nat, 2, '0') + seq![':'] + padded(
        timestamp.min as nat,
        2,
        '0',
    ) + seq![':'] + padded(timestamp.sec as nat, 2, '0') + seq!['Z', ' '] + hostname + seq![' ']
        + tag + seq![' '] + decimal(pid as nat) + seq![' '] + msg_id
}

/// RFC 5424 header to the message.
pub struct Rfc5424<'a> {
    /// Encoded priority
    pub pri: u8,
    /// Timestamp
    pub timestamp: Timestamp,
    /// Hostname
    pub hostname: &'a Hostname,
    /// Process name (tag)
    pub tag: &'a Tag,
    /// Process pid
    pub pid: u32,
    /// Message id. Use `-` to omit
    pub msg_id: &'a Tag,
}

impl<'a> Rfc5424<'a> {
    /// Max possible header size, for a timestamp whose fields are in range.
    pub const SIZE: usize = 167;

    /// Size that no header exceeds, whatever its timestamp holds.
    pub const LIMIT: usize = 173;

    /// The text of this header.
    pub open spec fn text(&self) -> Seq<char> {
        rfc5424_text(
            self.pri,
            self.timestamp,
            self.hostname@,
            self.tag@,
            self.pid,
            self.msg_id@,
        )
    }

    /// The header is ASCII and at most [`Self::LIMIT`] bytes long; with a
    /// year below 10000 and a month, day, hour, minute and second below 100
    /// it is at most [`Self::SIZE`] bytes long.
    #[verifier::rlimit(40)]
    pub proof fn lemma_text_bounds(&self)
        requires
            valid_hostname(self.hostname@),
            valid_tag(self.tag@),
            valid_tag(self.msg_id@),
        ensures
            is_ascii_chars(self.text()),
            self.text().len() <= Self::LIMIT,
            self.timestamp.year < 10000 && self.timestamp.month < 99 && self.timestamp.day < 100
                && self.timestamp.hour < 100 && self.timestamp.min < 100 && self.timestamp.sec
                < 100 ==> self.text().len() <= Self::SIZE,
    {
        let t = self.timestamp;
        let m = month_number(t.month);
        lemma_decimal_len_u8(self.pri);
        lemma_decimal_len_u32(self.pid);
        lemma_decimal_len_u16(t.year);
        lemma_decimal_len_u8(m as u8);
        lemma_decimal_len_u8(t.day);
        lemma_decimal_len_u8(t.hour);
        lemma_decimal_len_u8(t.min);
        lemma_decimal_len_u8(t.sec);
        lemma_padded_len(t.year as nat, 4, '0');
        lemma_padded_len(m, 2, '0');
        lemma_padded_len(t.day as nat, 2, '0');
        lemma_padded_len(t.hour as nat, 2, '0');
        lemma_padded_len(t.min as nat, 2, '0');
        lemma_padded_len(t.sec as nat, 2, '0');
        lemma_decimal_ascii(self.pri as nat);
        lemma_decimal_ascii(self.pid as nat);
        lemma_padded_ascii(t.year as nat, 4, '0');
        lemma_padded_ascii(m, 2, '0');
        lemma_padded_ascii(t.day as nat, 2, '0');
        lemma_padded_ascii(t.hour as nat, 2, '0');
        lemma_padded_ascii(t.min as nat, 2, '0');
        lemma_padded_ascii(t.sec as nat, 2, '0');
        let acc1 = seq!['<'] + decimal(self.pri as nat);
        lemma_concat_ascii(seq!['<'], decimal(self.pri as nat));
        let acc2 = acc1 + seq!['>'];
        lemma_concat_ascii(acc1, seq!['>']);
        let acc3 = acc2 + padded(t.year as nat, 4, '0');
        lemma_concat_ascii(acc2, padded(t.year as nat, 4, '0'));
        let acc4 = acc3 + seq!['-'];
        lemma_concat_ascii(acc3, seq!['-']);
        let acc5 = acc4 + padded(m, 2, '0');
        lemma_concat_ascii(acc4, padded(m, 2, '0'));
        let acc6 = acc5 + seq!['-'];
        lemma_concat_ascii(acc5, seq!['-']);
        let acc7 = acc6 + padded(t.day as nat, 2, '0');
        lemma_concat_ascii(acc6, padded(t.day as nat, 2, '0'));
        let acc8 = acc7 + seq!['T'];
        lemma_concat_ascii(acc7, seq!['T']);
        let acc9 = acc8 + padded(t.hour as nat, 2, '0');
        lemma_concat_ascii(acc8, padded(t.hour as nat, 2, '0'));
        let acc10 = acc9 + seq![':'];
        lemma_concat_ascii(acc9, seq![':']);
        let acc11 = acc10 + padded(t.min as nat, 2, '0');
        lemma_concat_ascii(acc10, padded(t.min as nat, 2, '0'));
        let acc12 = acc11 + seq![':'];
        lemma_concat_ascii(acc11, seq![':']);
        let acc13 = acc12 + padded(t.sec as nat, 2, '0');
        lemma_concat_ascii(acc12, padded(t.sec as nat, 2, '0'));
        let acc14 = acc13 + seq!['Z', ' '];
        lemma_concat_ascii(acc13, seq!['Z', ' ']);
        let acc15 = acc14 + self.hostname@;
        lemma_concat_ascii(acc14, self.hostname@);
        let acc16 = acc15 + seq![' '];
        lemma_concat_ascii(acc15, seq![' ']);
        let acc17 = acc16 + self.tag@;
        lemma_concat_ascii(acc16, self.tag@);
        let acc18 = acc17 + seq![' '];
        lemma_concat_ascii(acc17, seq![' ']);
        let acc19 = acc18 + decimal(self.pid as nat);
        lemma_concat_ascii(acc18, decimal(self.pid as nat));
        let acc20 = acc19 + seq![' '];
        lemma_concat_ascii(acc19, seq![' ']);
        let acc21 = acc20 + self.msg_id@;
        lemma_concat_ascii(acc20, self.msg_id@);
        assert(acc21 == self.text());
    }

    /// Writes the header after what `out` holds. A header that does not fit
    /// is cut where the buffer ends.
    #[verifier::rlimit(40)]
    pub fn write_buffer(&self, out: &mut Rfc3164Buffer)
        ensures
            record_bytes(*final(out)) == appended(
                record_bytes(*old(out)),
                ascii_bytes(self.text()),
            ),
    {
        let ghost start = record_bytes(*out);
        let tag = self.tag.as_str();
        let hostname = self.hostname.as_str();
        let msg_id = self.msg_id.as_str();
        let month: u8 = if self.timestamp.month == 255 {
            0
        } else {
            self.timestamp.month + 1
        };
        proof {
            reveal_strlit("<");
            reveal_strlit(">");
            reveal_strlit("-");
            reveal_strlit("T");
            reveal_strlit("Z ");
            reveal_strlit(" ");
            reveal_strlit("0");
            reveal_strlit(":");
        }
        put(out, "<");
        let ghost mut done: Seq<char> = "<"@;
        assert(ascii_bytes(done) == ascii_bytes(Seq::<char>::empty() + done)) by {
            assert(Seq::<char>::empty() + done =~= done);
        }
        put_decimal(out, self.pri as u32, Ghost(start), Ghost(done));
        proof {
            done = done + decimal(self.pri as nat);
        }
        put_piece(out, ">", Ghost(start), Ghost(done));
        proof {
            done = done + ">"@;
        }
        put_padded(out, self.timestamp.year as u32, 4, "0", Ghost(start), Ghost(done));
        proof {
            done = done + padded(self.timestamp.year as nat, 4, '0');
        }
        put_piece(out, "-", Ghost(start), Ghost(done));
        proof {
            done = done + "-"@;
        }
        put_padded(out, month as u32, 2, "0", Ghost(start), Ghost(done));
        proof {
            done = done + padded(month as nat, 2, '0');
        }
        put_piece(out, "-", Ghost(start), Ghost(done));
        proof {
            done = done + "-"@;
        }
        put_padded(out, self.timestamp.day as u32, 2, "0", Ghost(start), Ghost(done));
        proof {
            done = done + padded(self.timestamp.day as nat, 2, '0');
        }
        put_piece(out, "T", Ghost(start), Ghost(done));
        proof {
            done = done + "T"@;
        }
        put_padded(out, self.timestamp.hour as u32, 2, "0", Ghost(start), Ghost(done));
        proof {
            done = done + padded(self.timestamp.hour as nat, 2, '0');
        }
        put_piece(out, ":", Ghost(start), Ghost(done));
        proof {
            done = done + ":"@;
        }
        put_padded(out, self.timestamp.min as u32, 2, "0", Ghost(start), Ghost(done));
        proof {
            done = done + padded(self.timestamp.min as nat, 2, '0');
        }
        put_piece(out, ":", Ghost(start), Ghost(done));
        proof {
            done = done + ":"@;
        }
        put_padded(out, self.timestamp.sec as u32, 2, "0", Ghost(start), Ghost(done));
        proof {
            done = done + padded(self.timestamp.sec as nat, 2, '0');
        }
        put_piece(out, "Z ", Ghost(start), Ghost(done));
        proof {
            done = done + "Z "@;
        }
        put_piece(out, hostname, Ghost(start), Ghost(done));
        proof {
            done = done + hostname@;
        }
        put_piece(out, " ", Ghost(start), Ghost(done));
        proof {
            done = done + " "@;
        }
        put_piece(out, tag, Ghost(start), Ghost(done));
        proof {
            done = done + tag@;
        }
        put_piece(out, " ", Ghost(start), Ghost(done));
        proof {
            done = done + " "@;
        }
        put_decimal(out, self.pid, Ghost(start), Ghost(done));
        proof {
            done = done + decimal(self.pid as nat);
        }
        put_piece(out, " ", Ghost(start), Ghost(done));
        proof {
            done = done + " "@;
        }
        put_piece(out, msg_id, Ghost(start), Ghost(done));
        proof {
            done = done + msg_id@;
            assert("<"@ =~= seq!['<']);
            assert(">"@ =~= seq!['>']);
            assert("-"@ =~= seq!['-']);
            assert("T"@ =~= seq!['T']);
            assert(" "@ =~= seq![' ']);
            assert(":"@ =~= seq![':']);
            assert("Z "@ =~= seq!['Z', ' ']);
            assert(done == self.text());
        }
    }

    /// Creates a buffer of the header's maximal size that holds the header.
    /// A header that is longer than that is cut.
    pub fn create_buffer(&self) -> (buffer: StrBuf<168>)
        ensures
            rfc5424_header_bytes(buffer) == cut(ascii_bytes(self.text()), Self::SIZE as int),
    {
        let mut out = record_new();
        self.write_buffer(&mut out);
        proof {
            use_type_invariant(self.hostname);
            use_type_invariant(self.tag);
            use_type_invariant(self.msg_id);
            self.lemma_text_bounds();
            if self.text().len() > Self::SIZE {
                lemma_ascii_boundary(self.text(), Self::SIZE as int);
            } else {
                lemma_ascii_boundary(self.text(), 0);
            }
            assert(Seq::<u8>::empty() + ascii_bytes(self.text()) =~= ascii_bytes(self.text()));
        }
        let text = record_as_str(&out);
        if text.len() <= Self::SIZE {
            rfc5424_header_from_str(text)
        } else {
            let (head, _rest) = text.split_at(Self::SIZE);
            rfc5424_header_from_str(head)
        }
    }
}

} // verus!
