use std::cell::RefCell;
use std::rc::Rc;

use syslog_client::writer::{retry_after, MakeTransport, Transport, TransportError, Writer};
use syslog_client::Severity;

#[derive(Debug, Clone, Copy, PartialEq, Eq)]
struct Failure {
    terminal: bool,
    id: u32,
}

impl TransportError for Failure {
    fn terminal(&self) -> bool {
        self.terminal
    }

    fn is_terminal(&self) -> bool {
        self.terminal
    }
}

/// What the factory and its transports are told to do, and what they did.
#[derive(Default)]
struct Script {
    /// Outcome of each `create`, in order; past the end they succeed.
    creates: Vec<Option<Failure>>,
    /// Outcome of each `write`, in order; past the end they succeed.
    writes: Vec<Option<Failure>>,
    created: usize,
    written: Vec<(usize, Severity, String)>,
    tried: usize,
}

#[derive(Clone)]
struct Factory(Rc<RefCell<Script>>);

struct Line {
    id: usize,
    script: Rc<RefCell<Script>>,
}

impl MakeTransport for Factory {
    type Error = Failure;
    type Transport = Line;

    fn create(&self) -> Result<Line, Failure> {
        let mut script = self.0.borrow_mut();
        let nth = script.created;
        script.created += 1;
        match script.creates.get(nth).copied().flatten() {
            Some(failure) => Err(failure),
            None => Ok(Line { id: nth, script: self.0.clone() }),
        }
    }
}

impl Transport<Failure> for Line {
    fn write(&mut self, severity: Severity, msg: &str) -> Result<(), Failure> {
        let mut script = self.script.borrow_mut();
        let nth = script.tried;
        script.tried += 1;
        match script.writes.get(nth).copied().flatten() {
            Some(failure) => Err(failure),
            None => {
                script.written.push((self.id, severity, msg.to_string()));
                Ok(())
            }
        }
    }
}

fn scripted(creates: Vec<Option<Failure>>, writes: Vec<Option<Failure>>) -> (Rc<RefCell<Script>>, Writer<Factory>) {
    let script = Rc::new(RefCell::new(Script { creates, writes, ..Script::default() }));
    let writer = Writer::new(Factory(script.clone()));
    (script, writer)
}

fn transient(id: u32) -> Option<Failure> {
    Some(Failure { terminal: false, id })
}

fn terminal(id: u32) -> Option<Failure> {
    Some(Failure { terminal: true, id })
}

#[test]
fn creation_that_keeps_failing_is_tried_three_times_with_two_retries() {
    let (script, mut writer) = scripted((0..10).map(transient).collect(), vec![]);
    let error = writer.write_buffer("msg", Severity::LOG_ERR, 2).expect_err("never created");
    assert_eq!(error, Failure { terminal: false, id: 2 });
    assert_eq!(script.borrow().created, 3);
    assert_eq!(script.borrow().tried, 0);
    assert!(script.borrow().written.is_empty());
}

#[test]
fn creation_is_tried_once_more_than_the_retry_count() {
    for retry_count in [0u8, 1, 2, 5, 100, 254, 255] {
        let (script, mut writer) = scripted((0..300).map(transient).collect(), vec![]);
        let error = writer.write_buffer("msg", Severity::LOG_ERR, retry_count).expect_err("never created");
        assert_eq!(script.borrow().created, retry_count as usize + 1);
        assert_eq!(error.id, retry_count as u32);
    }
}

#[test]
fn terminal_creation_error_ends_the_send_at_once() {
    for retry_count in [0u8, 2, 255] {
        let (script, mut writer) = scripted(vec![terminal(7), None], vec![]);
        let error = writer.write_buffer("msg", Severity::LOG_ERR, retry_count).expect_err("terminal");
        assert_eq!(error, Failure { terminal: true, id: 7 });
        assert_eq!(script.borrow().created, 1);
        assert_eq!(script.borrow().tried, 0);
    }
}

#[test]
fn terminal_creation_error_after_a_retry_ends_the_send() {
    let (script, mut writer) = scripted(vec![transient(1), terminal(2), None], vec![]);
    let error = writer.write_buffer("msg", Severity::LOG_ERR, 5).expect_err("terminal");
    assert_eq!(error, Failure { terminal: true, id: 2 });
    assert_eq!(script.borrow().created, 2);
}

#[test]
fn creation_succeeds_on_a_retry() {
    let (script, mut writer) = scripted(vec![transient(1), transient(2), None], vec![]);
    writer.write_buffer("msg", Severity::LOG_NOTICE, 2).expect("third creation works");
    assert_eq!(script.borrow().created, 3);
    assert_eq!(script.borrow().written, vec![(2, Severity::LOG_NOTICE, "msg".to_string())]);
}

#[test]
fn second_send_reuses_the_transport_that_wrote() {
    let (script, mut writer) = scripted(vec![], vec![]);
    writer.write_buffer("one", Severity::LOG_ERR, 2).expect("sent");
    assert_eq!(script.borrow().created, 1);
    writer.write_buffer("two", Severity::LOG_INFO, 2).expect("sent");
    writer.write_buffer("three", Severity::LOG_INFO, 0).expect("sent");
    assert_eq!(script.borrow().created, 1);
    assert_eq!(
        script.borrow().written,
        vec![
            (0, Severity::LOG_ERR, "one".to_string()),
            (0, Severity::LOG_INFO, "two".to_string()),
            (0, Severity::LOG_INFO, "three".to_string()),
        ]
    );
}

#[test]
fn send_after_a_failed_write_creates_a_transport_again() {
    for failure in [transient(9), terminal(9)] {
        let (script, mut writer) = scripted(vec![], vec![None, failure]);
        writer.write_buffer("one", Severity::LOG_ERR, 0).expect("sent");
        assert_eq!(script.borrow().created, 1);
        let error = writer.write_buffer("two", Severity::LOG_ERR, 0).expect_err("write fails");
        assert_eq!(Some(error), failure);
        assert_eq!(script.borrow().created, 1);
        writer.write_buffer("three", Severity::LOG_ERR, 0).expect("sent");
        assert_eq!(script.borrow().created, 2);
        assert_eq!(
            script.borrow().written,
            vec![(0, Severity::LOG_ERR, "one".to_string()), (1, Severity::LOG_ERR, "three".to_string())]
        );
    }
}

#[test]
fn failed_write_is_retried_on_a_new_transport() {
    let (script, mut writer) = scripted(vec![], vec![transient(1), transient(2), None]);
    writer.write_buffer("msg", Severity::LOG_ERR, 2).expect("third write works");
    assert_eq!(script.borrow().created, 3);
    assert_eq!(script.borrow().tried, 3);
    assert_eq!(script.borrow().written, vec![(2, Severity::LOG_ERR, "msg".to_string())]);
    writer.write_buffer("next", Severity::LOG_ERR, 2).expect("sent");
    assert_eq!(script.borrow().created, 3);
}

#[test]
fn failed_write_on_the_kept_transport_is_retried_on_a_new_one() {
    let (script, mut writer) = scripted(vec![], vec![None, transient(1), None]);
    writer.write_buffer("one", Severity::LOG_ERR, 2).expect("sent");
    writer.write_buffer("two", Severity::LOG_ERR, 2).expect("sent on retry");
    assert_eq!(script.borrow().created, 2);
    assert_eq!(
        script.borrow().written,
        vec![(0, Severity::LOG_ERR, "one".to_string()), (1, Severity::LOG_ERR, "two".to_string())]
    );
}

#[test]
fn write_that_keeps_failing_uses_up_the_retries() {
    let (script, mut writer) = scripted(vec![], (0..10).map(transient).collect());
    let error = writer.write_buffer("msg", Severity::LOG_ERR, 2).expect_err("never written");
    assert_eq!(error, Failure { terminal: false, id: 2 });
    assert_eq!(script.borrow().created, 3);
    assert_eq!(script.borrow().tried, 3);
    assert!(script.borrow().written.is_empty());
}

#[test]
fn terminal_write_error_ends_the_send_at_once() {
    let (script, mut writer) = scripted(vec![], vec![terminal(4), None]);
    let error = writer.write_buffer("msg", Severity::LOG_ERR, 2).expect_err("terminal");
    assert_eq!(error, Failure { terminal: true, id: 4 });
    assert_eq!(script.borrow().created, 1);
    assert_eq!(script.borrow().tried, 1);
}

#[test]
fn creation_and_write_failures_share_the_retries() {
    let (script, mut writer) = scripted(vec![transient(1), None, None], vec![transient(2), transient(3)]);
    let error = writer.write_buffer("msg", Severity::LOG_ERR, 2).expect_err("out of retries");
    assert_eq!(error, Failure { terminal: false, id: 3 });
    assert_eq!(script.borrow().created, 3);
    assert_eq!(script.borrow().tried, 2);
}

#[test]
fn no_retry_means_one_attempt() {
    let (script, mut writer) = scripted(vec![transient(1)], vec![]);
    let error = writer.write_buffer("msg", Severity::LOG_ERR, 0).expect_err("one attempt");
    assert_eq!(error.id, 1);
    assert_eq!(script.borrow().created, 1);
}

#[test]
fn retry_needs_a_passing_error_and_an_attempt_left() {
    assert!(retry_after(false, 1));
    assert!(retry_after(false, 256));
    assert!(!retry_after(false, 0));
    assert!(!retry_after(true, 1));
    assert!(!retry_after(true, 0));
}

#[test]
fn every_write_gets_the_severity_and_the_whole_message() {
    let message = "x".repeat(3000);
    let script = Rc::new(RefCell::new(Script { writes: vec![transient(1), transient(2)], ..Script::default() }));
    let heard = Rc::new(RefCell::new(Vec::new()));
    struct Ear(Rc<RefCell<Script>>, Rc<RefCell<Vec<(Severity, String)>>>);
    struct Line2(Line, Rc<RefCell<Vec<(Severity, String)>>>);
    impl MakeTransport for Ear {
        type Error = Failure;
        type Transport = Line2;
        fn create(&self) -> Result<Line2, Failure> {
            Factory(self.0.clone()).create().map(|line| Line2(line, self.1.clone()))
        }
    }
    impl Transport<Failure> for Line2 {
        fn write(&mut self, severity: Severity, msg: &str) -> Result<(), Failure> {
            self.1.borrow_mut().push((severity, msg.to_string()));
            self.0.write(severity, msg)
        }
    }
    let mut writer = Writer::new(Ear(script.clone(), heard.clone()));
    writer.write_buffer(&message, Severity::LOG_CRIT, 2).expect("third write works");
    assert_eq!(
        *heard.borrow(),
        vec![
            (Severity::LOG_CRIT, message.clone()),
            (Severity::LOG_CRIT, message.clone()),
            (Severity::LOG_CRIT, message.clone()),
        ]
    );
}

#[test]
fn failed_send_returns_the_error_of_the_last_attempt() {
    let (_, mut writer) = scripted(vec![transient(1), None, transient(3)], vec![transient(2)]);
    assert_eq!(
        writer.write_buffer("msg", Severity::LOG_ERR, 2),
        Err(Failure { terminal: false, id: 3 })
    );
    let (_, mut writer) = scripted(vec![transient(1), None], vec![terminal(2)]);
    assert_eq!(
        writer.write_buffer("msg", Severity::LOG_ERR, 5),
        Err(Failure { terminal: true, id: 2 })
    );
}
