use std::io;
use std::sync::mpsc;

use syslog_client::syslog::header::{Hostname, Tag};
use syslog_client::writer::transport;
use syslog_client::writer::transport::{first_socket_path, is_terminal_kind, InMemory, IoErrorKind};
use syslog_client::writer::{MakeTransport, Transport, TransportError};
use syslog_client::{Facility, Severity, Syslog};

#[test]
fn should_generate_rfc3164_messages_in_memory() {
    let tag: Tag = match Tag::new("inmemory") {
        Some(tag) => tag,
        None => panic!("not valid tag"),
    };
    let hostname: Hostname = match Hostname::new("in.memory") {
        Some(hostname) => hostname,
        None => panic!("not valid hostname"),
    };

    let (sender, receiver) = mpsc::channel();
    let mut logger = Syslog::new(Facility::LOG_USER, hostname, tag).rfc3164(transport::InMemory::<String>::new(sender)).with_buffer();
    logger.write_str(Severity::LOG_ERR, "my error").expect("Success");

    let mut line = receiver.try_recv().expect("to have line");

    println!("line={line}");
    let mut line_split = line.rsplitn(2, ':');
    let log = line_split.next().unwrap();
    let header = line_split.next().unwrap();
    let header_size = header.len() + 2;
    assert_eq!(log, " my error");

    let chunk1_size = 1024 - header_size;
    println!("chunk1_size={chunk1_size}");

    //check split behavior
    let mut message = "1".repeat(chunk1_size);
    message.push('0');

    logger.write_str(Severity::LOG_ERR, &message).expect("Success");

    line = receiver.try_recv().expect("to have line 1");
    println!("line1={line}");
    let mut line_split = line.rsplitn(2, ':');
    let log = line_split.next().unwrap().trim_start();
    assert_eq!(log, &message[..chunk1_size]);

    line = receiver.try_recv().expect("to have line 2");
    println!("line2={line}");
    assert!(line.ends_with(": 0"));
}

#[test]
fn in_memory_header_names_priority_host_tag_and_process() {
    let tag = Tag::new("inmemory").expect("valid tag");
    let hostname = Hostname::new("in.memory").expect("valid hostname");
    let (sender, receiver) = mpsc::channel();
    let mut logger = Syslog::new(Facility::LOG_LOCAL0, hostname, tag)
        .rfc3164(InMemory::<String>::new(sender))
        .with_buffer();
    logger.write_str(Severity::LOG_WARNING, "text").expect("Success");
    let line = receiver.try_recv().expect("to have line");
    assert!(line.starts_with("<132>"));
    let pid = os_id::process::get_raw_id();
    assert!(line.ends_with(&format!(" in.memory inmemory[{pid}]: text")));
    assert!(receiver.try_recv().is_err());
}

#[test]
fn in_memory_send_fails_once_the_receiver_is_gone() {
    let tag = Tag::new("inmemory").expect("valid tag");
    let hostname = Hostname::new("in.memory").expect("valid hostname");
    let (sender, receiver) = mpsc::channel();
    let mut logger = Syslog::new(Facility::LOG_USER, hostname, tag)
        .rfc3164(InMemory::<String>::new(sender))
        .with_buffer();
    logger.write_str(Severity::LOG_ERR, "one").expect("Success");
    drop(receiver);
    let error = logger.write_str(Severity::LOG_ERR, "two").expect_err("no receiver");
    assert!(error.is_terminal());
    assert!(error.0.ends_with(": two"));
}

#[test]
fn in_memory_creates_transports_into_the_same_channel() {
    let (sender, receiver) = mpsc::channel::<String>();
    let factory = InMemory::<String>::new(sender);
    let mut first = factory.create().expect("created");
    let mut second = factory.clone().create().expect("created");
    first.write(Severity::LOG_INFO, "a").expect("sent");
    second.write(Severity::LOG_DEBUG, "b").expect("sent");
    factory.channel().send(String::from("c")).expect("sent");
    assert_eq!(receiver.try_recv().expect("a"), "a");
    assert_eq!(receiver.try_recv().expect("b"), "b");
    assert_eq!(receiver.try_recv().expect("c"), "c");
    assert!(receiver.try_recv().is_err());
}

#[test]
fn io_errors_of_address_parameter_and_platform_are_terminal() {
    assert!(io::Error::from(io::ErrorKind::AddrInUse).is_terminal());
    assert!(io::Error::from(io::ErrorKind::AddrNotAvailable).is_terminal());
    assert!(io::Error::from(io::ErrorKind::InvalidInput).is_terminal());
    assert!(io::Error::from(io::ErrorKind::Unsupported).is_terminal());
}

#[test]
fn io_errors_that_may_pass_are_not_terminal() {
    assert!(!io::Error::from(io::ErrorKind::ConnectionRefused).is_terminal());
    assert!(!io::Error::from(io::ErrorKind::TimedOut).is_terminal());
    assert!(!io::Error::from(io::ErrorKind::ConnectionReset).is_terminal());
    assert!(!io::Error::from(io::ErrorKind::BrokenPipe).is_terminal());
    assert!(!io::Error::from(io::ErrorKind::WouldBlock).is_terminal());
    assert!(!io::Error::from(io::ErrorKind::NotFound).is_terminal());
    assert!(!io::Error::new(io::ErrorKind::Other, "other").is_terminal());
}

#[test]
fn terminal_kinds() {
    assert!(is_terminal_kind(IoErrorKind::AddrInUse));
    assert!(is_terminal_kind(IoErrorKind::AddrNotAvailable));
    assert!(is_terminal_kind(IoErrorKind::InvalidInput));
    assert!(is_terminal_kind(IoErrorKind::Unsupported));
    assert!(!is_terminal_kind(IoErrorKind::ConnectionRefused));
    assert!(!is_terminal_kind(IoErrorKind::TimedOut));
    assert!(!is_terminal_kind(IoErrorKind::Other));
}

#[test]
fn in_memory_creation_never_fails() {
    let (sender, receiver) = mpsc::channel::<String>();
    let factory = InMemory::<String>::new(sender);
    drop(receiver);
    let mut transport = factory.create().expect("created without a receiver");
    let error = transport.write(Severity::LOG_ERR, "lost").expect_err("no receiver");
    assert!(error.is_terminal());
    assert_eq!(error.0, "lost");
}

#[test]
fn first_socket_path_is_the_first_that_exists_and_is_no_directory() {
    assert_eq!(first_socket_path(&vec![]), None);
    assert_eq!(first_socket_path(&vec![None, None, None]), None);
    assert_eq!(first_socket_path(&vec![Some(true), None, Some(true)]), None);
    assert_eq!(first_socket_path(&vec![Some(false), Some(false), Some(false)]), Some(0));
    assert_eq!(first_socket_path(&vec![None, Some(false), Some(false)]), Some(1));
    assert_eq!(first_socket_path(&vec![Some(true), None, Some(false)]), Some(2));
    assert_eq!(first_socket_path(&vec![Some(true), Some(false), None]), Some(1));
}
