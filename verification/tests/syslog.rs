use syslog_client::syslog::header;
use syslog_client::syslog::header::{Hostname, Rfc3164, Rfc5424, Tag, Timestamp};
use syslog_client::syslog::LogLevel;
use syslog_client::{Facility, Rfc3164Buffer, Severity};

#[test]
fn should_verify_header_tag_ctor() {
    assert!(header::Tag::new("").is_none());

    let mut text = String::new();
    for idx in 0..32 {
        text.push(char::from(b'a' + idx % 9));
        let tag = header::Tag::new(&text).expect("to create tag");
        assert_eq!(text, tag.as_str());
    }
    text.push('z');
    assert!(header::Tag::new(&text).is_none());
}

#[test]
fn should_generate_rfc3164_header() {
    assert_eq!(header::Rfc3164::SIZE, 131);

    let mut hostname = String::new();
    for idx in 0..64 {
        hostname.push((b'a' + idx % 9) as char);
    }
    let hostname = header::Hostname::new(&hostname).expect("to create 64 long hostname");

    let mut tag = String::new();
    for idx in 0..32 {
        tag.push((b'a' + idx % 9) as char);
    }
    let tag = header::Tag::new(&tag).expect("to create 32 long hostname");

    let header = header::Rfc3164 {
        pri: u8::MAX,
        timestamp: header::Timestamp {
            year: 2024,
            month: 0,
            day: 1,
            sec: 59,
            min: 59,
            hour: 24,
        },
        hostname: &hostname,
        tag: &tag,
        pid: u32::MAX,
    };
    let buffer = header.create_buffer();
    assert_eq!(buffer, "<255>Jan  1 24:59:59 abcdefghiabcdefghiabcdefghiabcdefghiabcdefghiabcdefghiabcdefghia abcdefghiabcdefghiabcdefghiabcde[4294967295]:");
}

#[test]
fn should_generate_rfc5424_header() {
    assert_eq!(header::Rfc5424::SIZE, 167);

    let mut hostname = String::new();
    for idx in 0..64 {
        hostname.push((b'a' + idx % 9) as char);
    }
    let hostname = header::Hostname::new(&hostname).expect("to create 64 long hostname");

    let mut tag = String::new();
    for idx in 0..32 {
        tag.push((b'a' + idx % 9) as char);
    }
    let tag = header::Tag::new(&tag).expect("to create 32 long tag");

    let mut msg_id = String::new();
    for idx in 0..32 {
        msg_id.push((b'b' + idx % 9) as char);
    }
    let msg_id = header::Tag::new(&msg_id).expect("to create 32 long msg_id");

    let header = header::Rfc5424 {
        pri: u8::MAX,
        timestamp: header::Timestamp {
            year: 2024,
            month: 0,
            day: 1,
            sec: 59,
            min: 59,
            hour: 24,
        },
        hostname: &hostname,
        tag: &tag,
        msg_id: &msg_id,
        pid: u32::MAX,
    };
    let buffer = header.create_buffer();
    assert_eq!(buffer, "<255>2024-01-01T24:59:59Z abcdefghiabcdefghiabcdefghiabcdefghiabcdefghiabcdefghiabcdefghia abcdefghiabcdefghiabcdefghiabcde 4294967295 bcdefghijbcdefghijbcdefghijbcdef");
}

#[test]
fn hostname_accepts_allowed_text_and_returns_it() {
    for name in ["a", "Z", "0", "-", ".", "in.memory", "my-host.example.org", "A1-b2.C3"] {
        let hostname = Hostname::new(name).expect("valid hostname");
        assert_eq!(hostname.as_str(), name);
    }
    let longest = "x".repeat(64);
    assert_eq!(Hostname::new(&longest).expect("64 bytes fit").as_str(), longest);
}

#[test]
fn hostname_rejects_bad_text() {
    assert!(Hostname::new("").is_none());
    assert!(Hostname::new(&"x".repeat(65)).is_none());
    assert!(Hostname::new("bad host").is_none());
    assert!(Hostname::new("under_score").is_none());
    assert!(Hostname::new("host:1").is_none());
    assert!(Hostname::new("h\u{f6}st").is_none());
    assert!(Hostname::new("host\n").is_none());
    assert!(Hostname::new("@").is_none());
    assert!(Hostname::new("[").is_none());
    assert!(Hostname::new("`").is_none());
    assert!(Hostname::new("{").is_none());
    assert!(Hostname::new("/").is_none());
    assert!(Hostname::new(":").is_none());
}

#[test]
fn hostname_is_not_normalized() {
    assert_eq!(Hostname::new("MiXeD.Case").expect("valid").as_str(), "MiXeD.Case");
    assert!(Hostname::new(" padded").is_none());
    assert!(Hostname::new("padded ").is_none());
}

#[test]
fn hostname_none_is_a_dash() {
    let hostname = Hostname::new("some.host").expect("valid");
    assert_eq!(hostname.none().as_str(), "-");
}

#[test]
fn tag_accepts_letters_and_digits_only() {
    for name in ["a", "z", "A", "Z", "0", "9", "inmemory", "Tag42"] {
        assert_eq!(Tag::new(name).expect("valid tag").as_str(), name);
    }
    assert!(Tag::new("with-dash").is_none());
    assert!(Tag::new("with.dot").is_none());
    assert!(Tag::new("not valid").is_none());
    assert!(Tag::new("t\u{e4}g").is_none());
    assert!(Tag::new("@").is_none());
    assert!(Tag::new("[").is_none());
    assert!(Tag::new("`").is_none());
    assert!(Tag::new("{").is_none());
    assert!(Tag::new("/").is_none());
    assert!(Tag::new(":").is_none());
    assert!(Tag::new("-").is_none());
}

#[test]
fn tag_length_limits() {
    assert_eq!(Tag::new(&"t".repeat(32)).expect("32 bytes fit").as_str(), "t".repeat(32));
    assert!(Tag::new(&"t".repeat(33)).is_none());
    assert!(Tag::new(&"t".repeat(64)).is_none());
}

#[test]
fn priority_joins_facility_and_severity() {
    assert_eq!(Severity::LOG_ERR.priority(Facility::LOG_USER), 11);
    assert_eq!(Severity::LOG_EMERG.priority(Facility::LOG_KERN), 0);
    assert_eq!(Severity::LOG_DEBUG.priority(Facility::LOG_LOCAL7), 191);
    assert_eq!(Severity::LOG_NOTICE.priority(Facility::LOG_LOCAL0), 133);
    assert_eq!(Severity::LOG_WARNING.priority(Facility::LOG_FTP), 92);
    assert_eq!(Severity::LOG_INFO.priority(Facility::LOG_AUTHPRIV), 86);
}

#[test]
fn severity_and_facility_codes() {
    let severities = [
        Severity::LOG_EMERG,
        Severity::LOG_ALERT,
        Severity::LOG_CRIT,
        Severity::LOG_ERR,
        Severity::LOG_WARNING,
        Severity::LOG_NOTICE,
        Severity::LOG_INFO,
        Severity::LOG_DEBUG,
    ];
    for (idx, severity) in severities.iter().enumerate() {
        assert_eq!(severity.code() as usize, idx);
    }
    let facilities = [
        (Facility::LOG_KERN, 0),
        (Facility::LOG_USER, 8),
        (Facility::LOG_MAIL, 16),
        (Facility::LOG_DAEMON, 24),
        (Facility::LOG_AUTH, 32),
        (Facility::LOG_SYSLOG, 40),
        (Facility::LOG_LPR, 48),
        (Facility::LOG_NEWS, 56),
        (Facility::LOG_UUCP, 64),
        (Facility::LOG_CRON, 72),
        (Facility::LOG_AUTHPRIV, 80),
        (Facility::LOG_FTP, 88),
        (Facility::LOG_LOCAL0, 128),
        (Facility::LOG_LOCAL1, 136),
        (Facility::LOG_LOCAL2, 144),
        (Facility::LOG_LOCAL3, 152),
        (Facility::LOG_LOCAL4, 160),
        (Facility::LOG_LOCAL5, 168),
        (Facility::LOG_LOCAL6, 176),
        (Facility::LOG_LOCAL7, 184),
    ];
    for (facility, code) in facilities {
        assert_eq!(facility.code(), code);
        assert_eq!(facility.code() % 8, 0);
    }
    assert_eq!(Facility::default(), Facility::LOG_USER);
}

#[test]
fn severity_of_facade_levels() {
    assert_eq!(Severity::from_level(LogLevel::Error), Severity::LOG_ERR);
    assert_eq!(Severity::from_level(LogLevel::Warn), Severity::LOG_WARNING);
    assert_eq!(Severity::from_level(LogLevel::Info), Severity::LOG_NOTICE);
    assert_eq!(Severity::from_level(LogLevel::Debug), Severity::LOG_INFO);
    assert_eq!(Severity::from_level(LogLevel::Trace), Severity::LOG_DEBUG);
}

fn stamp(ts: &Timestamp) -> (u16, u8, u8, u8, u8, u8) {
    (ts.year, ts.month, ts.day, ts.hour, ts.min, ts.sec)
}

#[test]
fn timestamp_default_is_the_epoch() {
    assert_eq!(stamp(&Timestamp::utc()), (1970, 0, 1, 0, 0, 0));
    assert_eq!(stamp(&Timestamp::from_clock(None)), (1970, 0, 1, 0, 0, 0));
}

#[test]
fn timestamp_from_clock_counts_months_from_zero() {
    assert_eq!(stamp(&Timestamp::from_clock(Some((2024, 1, 31, 23, 59, 60)))), (2024, 0, 31, 23, 59, 60));
    assert_eq!(stamp(&Timestamp::from_clock(Some((2024, 12, 1, 0, 0, 0)))), (2024, 11, 1, 0, 0, 0));
    assert_eq!(stamp(&Timestamp::from_clock(Some((1999, 0, 2, 3, 4, 5)))), (1999, 0, 2, 3, 4, 5));
    assert_eq!(stamp(&Timestamp::from_clock(Some((1999, 255, 2, 3, 4, 5)))), (1999, 254, 2, 3, 4, 5));
}

#[test]
fn timestamp_now_is_plausible() {
    let now = Timestamp::now_utc();
    assert!(now.month < 12);
    assert!(now.day >= 1 && now.day <= 31);
    assert!(now.hour < 24);
    assert!(now.min < 60);
    assert!(now.sec <= 60);
    assert!(now.year >= 1970);
}

#[test]
fn month_names() {
    let names = ["Jan", "Feb", "Mar", "Apr", "May", "Jun", "Jul", "Aug", "Sep", "Oct", "Nov", "Dec"];
    for (month, name) in names.iter().enumerate() {
        let ts = Timestamp { year: 2000, month: month as u8, day: 1, sec: 0, min: 0, hour: 0 };
        assert_eq!(ts.rfc3164_month(), *name);
    }
    for month in [12u8, 13, 100, 255] {
        let ts = Timestamp { year: 2000, month, day: 1, sec: 0, min: 0, hour: 0 };
        assert_eq!(ts.rfc3164_month(), "???");
    }
}

fn host_and_tag() -> (Hostname, Tag) {
    (Hostname::new("my.host").expect("valid"), Tag::new("proc").expect("valid"))
}

#[test]
fn rfc3164_pads_day_with_space_and_time_with_zero() {
    let (hostname, tag) = host_and_tag();
    let header = Rfc3164 {
        pri: 11,
        timestamp: Timestamp { year: 2023, month: 9, day: 7, sec: 3, min: 2, hour: 1 },
        hostname: &hostname,
        tag: &tag,
        pid: 42,
    };
    assert_eq!(header.create_buffer(), "<11>Oct  7 01:02:03 my.host proc[42]:");
    let header = Rfc3164 {
        pri: 0,
        timestamp: Timestamp { year: 2023, month: 11, day: 31, sec: 60, min: 59, hour: 23 },
        hostname: &hostname,
        tag: &tag,
        pid: 0,
    };
    assert_eq!(header.create_buffer(), "<0>Dec 31 23:59:60 my.host proc[0]:");
}

#[test]
fn rfc3164_writes_out_of_range_fields_in_full() {
    let (hostname, tag) = host_and_tag();
    let header = Rfc3164 {
        pri: 100,
        timestamp: Timestamp { year: 2023, month: 12, day: 255, sec: 100, min: 200, hour: 99 },
        hostname: &hostname,
        tag: &tag,
        pid: 1000000,
    };
    assert_eq!(header.create_buffer(), "<100>??? 255 99:200:100 my.host proc[1000000]:");
}

#[test]
fn rfc3164_writes_behind_what_the_buffer_holds() {
    let (hostname, tag) = host_and_tag();
    let header = Rfc3164 {
        pri: 191,
        timestamp: Timestamp { year: 2023, month: 1, day: 10, sec: 0, min: 0, hour: 0 },
        hostname: &hostname,
        tag: &tag,
        pid: 7,
    };
    let mut out = Rfc3164Buffer::new();
    out.push_str("abc");
    header.write_buffer(&mut out);
    assert_eq!(out, "abc<191>Feb 10 00:00:00 my.host proc[7]:");
}

#[test]
fn rfc3164_is_cut_where_the_buffer_ends() {
    let (hostname, tag) = host_and_tag();
    let header = Rfc3164 {
        pri: 191,
        timestamp: Timestamp { year: 2023, month: 1, day: 10, sec: 0, min: 0, hour: 0 },
        hostname: &hostname,
        tag: &tag,
        pid: 7,
    };
    let full = "<191>Feb 10 00:00:00 my.host proc[7]:";
    for room in 0..=full.len() + 2 {
        let mut out = Rfc3164Buffer::new();
        let filler = "x".repeat(1024 - room);
        out.push_str(&filler);
        header.write_buffer(&mut out);
        let fits = room.min(full.len());
        assert_eq!(out.len(), 1024 - room + fits);
        assert_eq!(&out.as_str()[1024 - room..], &full[..fits]);
    }
}

#[test]
fn rfc3164_longest_header_is_cut_to_size() {
    let hostname = Hostname::new(&"h".repeat(64)).expect("valid");
    let tag = Tag::new(&"t".repeat(32)).expect("valid");
    let header = Rfc3164 {
        pri: 255,
        timestamp: Timestamp { year: 2023, month: 0, day: 255, sec: 255, min: 255, hour: 255 },
        hostname: &hostname,
        tag: &tag,
        pid: u32::MAX,
    };
    let full = format!("<255>Jan 255 255:255:255 {} {}[4294967295]:", "h".repeat(64), "t".repeat(32));
    assert_eq!(full.len(), 135);
    let buffer = header.create_buffer();
    assert_eq!(buffer.len(), 131);
    assert_eq!(buffer.as_str(), &full[..131]);
    let mut out = Rfc3164Buffer::new();
    header.write_buffer(&mut out);
    assert_eq!(out.as_str(), full);
}

#[test]
fn rfc5424_pads_every_field_with_zeros() {
    let (hostname, tag) = host_and_tag();
    let msg_id = Tag::new("ID47").expect("valid");
    let header = Rfc5424 {
        pri: 34,
        timestamp: Timestamp { year: 987, month: 8, day: 2, sec: 5, min: 4, hour: 3 },
        hostname: &hostname,
        tag: &tag,
        pid: 1,
        msg_id: &msg_id,
    };
    assert_eq!(header.create_buffer(), "<34>0987-09-02T03:04:05Z my.host proc 1 ID47");
    let header = Rfc5424 {
        pri: 34,
        timestamp: Timestamp { year: 7, month: 11, day: 31, sec: 60, min: 59, hour: 23 },
        hostname: &hostname,
        tag: &tag,
        pid: 99999,
        msg_id: &msg_id,
    };
    assert_eq!(header.create_buffer(), "<34>0007-12-31T23:59:60Z my.host proc 99999 ID47");
}

#[test]
fn rfc5424_month_is_one_more_within_eight_bits() {
    let (hostname, tag) = host_and_tag();
    let msg_id = Tag::new("m").expect("valid");
    let header = Rfc5424 {
        pri: 1,
        timestamp: Timestamp { year: 65535, month: 255, day: 1, sec: 0, min: 0, hour: 0 },
        hostname: &hostname,
        tag: &tag,
        pid: 1,
        msg_id: &msg_id,
    };
    assert_eq!(header.create_buffer(), "<1>65535-00-01T00:00:00Z my.host proc 1 m");
    let header = Rfc5424 {
        pri: 1,
        timestamp: Timestamp { year: 2000, month: 254, day: 1, sec: 0, min: 0, hour: 0 },
        hostname: &hostname,
        tag: &tag,
        pid: 1,
        msg_id: &msg_id,
    };
    assert_eq!(header.create_buffer(), "<1>2000-255-01T00:00:00Z my.host proc 1 m");
}

#[test]
fn rfc5424_writes_behind_what_the_buffer_holds() {
    let (hostname, tag) = host_and_tag();
    let msg_id = Tag::new("m").expect("valid");
    let header = Rfc5424 {
        pri: 1,
        timestamp: Timestamp { year: 2000, month: 0, day: 1, sec: 0, min: 0, hour: 0 },
        hostname: &hostname,
        tag: &tag,
        pid: 1,
        msg_id: &msg_id,
    };
    let mut out = Rfc3164Buffer::new();
    out.push_str(&"y".repeat(1000));
    header.write_buffer(&mut out);
    let full = "<1>2000-01-01T00:00:00Z my.host proc 1 m";
    assert_eq!(out.len(), 1024);
    assert_eq!(&out.as_str()[1000..], &full[..24]);
}

#[test]
fn rfc5424_longest_header_is_cut_to_size() {
    let hostname = Hostname::new(&"h".repeat(64)).expect("valid");
    let tag = Tag::new(&"t".repeat(32)).expect("valid");
    let msg_id = Tag::new(&"m".repeat(32)).expect("valid");
    let header = Rfc5424 {
        pri: 255,
        timestamp: Timestamp { year: 65535, month: 254, day: 255, sec: 255, min: 255, hour: 255 },
        hostname: &hostname,
        tag: &tag,
        pid: u32::MAX,
        msg_id: &msg_id,
    };
    let full = format!(
        "<255>65535-255-255T255:255:255Z {} {} 4294967295 {}",
        "h".repeat(64),
        "t".repeat(32),
        "m".repeat(32)
    );
    assert_eq!(full.len(), 173);
    let buffer = header.create_buffer();
    assert_eq!(buffer.len(), 167);
    assert_eq!(buffer.as_str(), &full[..167]);
}
