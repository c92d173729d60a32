//! Sending records over a transport, with bounded retry and reuse of the
//! transport that worked last.

use crate::syslog::Severity;
use vstd::prelude::*;
use vstd::string::*;

pub mod transport;

verus! {

/// Transport builder trait.
pub trait MakeTransport {
    /// Internal error type
    type Error: TransportError;

    /// Transport type
    type Transport: Transport<Self::Error>;

    /// Creates instance.
    ///
    /// This function is called when a transport is required and none is at
    /// hand, or the previous one was not able to write.
    fn create(&self) -> Result<Self::Transport, Self::Error>;
}

/// Utility trait to determine write error handling.
pub trait TransportError {
    /// The error indicates that neither the transport nor another attempt
    /// can succeed. This is what [`Self::is_terminal`] computes; an
    /// implementation in plain Rust gives both the same body.
    spec fn terminal(&self) -> bool;

    /// Returns whether the error indicates that neither the transport nor
    /// another attempt can succeed.
    fn is_terminal(&self) -> (terminal: bool)
        ensures
            terminal == self.terminal(),
    ;
}

/// Log writer.
pub trait Transport<ERR: TransportError> {
    /// Performs write of the full encoded message.
    ///
    /// Severity is encoded already and is only for informational purpose.
    fn write(&mut self, severity: Severity, msg: &str) -> Result<(), ERR>;
}

/// One attempt to send a message.
pub enum Attempt<E> {
    /// No transport was at hand and creating one failed with `error`.
    CreateFailed { error: E },
    /// The write of `message` with `severity` failed with `error`, on a
    /// transport created for this attempt (`fresh`) or on the one kept from
    /// an earlier send.
    WriteFailed { fresh: bool, severity: Severity, message: Seq<u8>, error: E },
    /// The write of `message` with `severity` succeeded.
    Written { fresh: bool, severity: Severity, message: Seq<u8> },
}

impl<E: TransportError> Attempt<E> {
    /// The attempt asked the factory for a transport.
    pub open spec fn creates(self) -> bool {
        match self {
            Attempt::CreateFailed { .. } => true,
            Attempt::WriteFailed { fresh, .. } => fresh,
            Attempt::Written { fresh, .. } => fresh,
        }
    }

    /// The error that the attempt failed with, if it failed.
    pub open spec fn error(self) -> Option<E> {
        match self {
            Attempt::CreateFailed { error } => Some(error),
            Attempt::WriteFailed { error, .. } => Some(error),
            Attempt::Written { .. } => None,
        }
    }

    /// The attempt failed with an error that rules out another attempt.
    pub open spec fn failed_for_good(self) -> bool {
        match self {
            Attempt::CreateFailed { error } => error.terminal(),
            Attempt::WriteFailed { error, .. } => error.terminal(),
            Attempt::Written { .. } => false,
        }
    }

    /// The attempt failed with an error that allows another attempt.
    pub open spec fn may_be_retried(self) -> bool {
        !(self is Written) && !self.failed_for_good()
    }

    /// If the attempt came to write, it handed `message` with `severity` to
    /// the transport, as they are.
    pub open spec fn carries(self, severity: Severity, message: Seq<u8>) -> bool {
        match self {
            Attempt::CreateFailed { .. } => true,
            Attempt::WriteFailed { severity: with, message: text, .. } => with == severity && text
                == message,
            Attempt::Written { severity: with, message: text, .. } => with == severity && text
                == message,
        }
    }
}

/// The attempts that one send of `message` with `severity` may make when it
/// is allowed `retry_count` retries and starts with (`cached`) or without a
/// transport kept from an earlier send.
///
/// Only the first attempt can use the kept transport; every other attempt
/// asks the factory. Every write hands over the message and the severity as
/// they are. Every attempt but the last failed with an error that allows a
/// retry. The last attempt succeeded, or failed with a terminal error, or
/// used up the last retry.
pub open spec fn is_run<E: TransportError>(
    cached: bool,
    retry_count: nat,
    severity: Severity,
    message: Seq<u8>,
    run: Seq<Attempt<E>>,
) -> bool {
    &&& 1 <= run.len() <= retry_count + 1
    &&& forall|i: int| 0 <= i < run.len() ==> (#[trigger] run[i]).creates() == !(cached && i == 0)
    &&& forall|i: int| 0 <= i < run.len() ==> (#[trigger] run[i]).carries(severity, message)
    &&& forall|i: int| 0 <= i < run.len() - 1 ==> (#[trigger] run[i]).may_be_retried()
    &&& (run.last().may_be_retried() ==> run.len() == retry_count + 1)
}

/// Number of attempts in `run` that asked the factory for a transport.
pub open spec fn creations<E: TransportError>(run: Seq<Attempt<E>>) -> nat
    decreases run.len(),
{
    if run.len() == 0 {
        0
    } else {
        creations(run.drop_last()) + if run.last().creates() {
            1nat
        } else {
            0nat
        }
    }
}

/// Tells whether a failed attempt is followed by another one: the error must
/// not be terminal, and an attempt must be left.
pub fn retry_after(terminal: bool, attempts_left: u16) -> (retry: bool)
    ensures
        retry == (!terminal && attempts_left > 0),
{
    !terminal && attempts_left > 0
}

/// Sends messages over transports of the factory `IO`. It keeps the
/// transport that wrote last for the next message.
pub struct Writer<IO: MakeTransport> {
    transport: IO,
    cached_writer: Option<IO::Transport>,
    sent: Ghost<Seq<Seq<u8>>>,
    attempts: Ghost<Seq<Attempt<IO::Error>>>,
}

impl<IO: MakeTransport> Writer<IO> {
    /// The messages that were written, oldest first.
    pub closed spec fn sent(&self) -> Seq<Seq<u8>> {
        self.sent@
    }

    /// All attempts made so far, oldest first.
    pub closed spec fn attempts(&self) -> Seq<Attempt<IO::Error>> {
        self.attempts@
    }

    /// A transport is kept for the next send.
    pub closed spec fn has_cached(&self) -> bool {
        self.cached_writer is Some
    }

    /// This writer is what `before` became by one send of `message` with
    /// `severity` and up to `retry_count` retries, which ended in `r`.
    ///
    /// The attempts it added are a run. The send succeeded exactly if the
    /// last attempt wrote, and exactly then a transport is kept and the
    /// message counts as sent. A send that failed returns the error of its
    /// last attempt.
    pub open spec fn sent_by(
        &self,
        before: &Self,
        message: Seq<u8>,
        severity: Severity,
        retry_count: u8,
        r: Result<(), IO::Error>,
    ) -> bool {
        &&& before.attempts().is_prefix_of(self.attempts())
        &&& is_run(
            before.has_cached(),
            retry_count as nat,
            severity,
            message,
            self.attempts().skip(before.attempts().len() as int),
        )
        &&& (r is Ok <==> self.attempts().last() is Written)
        &&& (r is Ok <==> self.has_cached())
        &&& (r matches Err(error) ==> self.attempts().last().error() == Some(error))
        &&& (r is Ok ==> self.sent() == before.sent().push(message))
        &&& (r is Err ==> self.sent() == before.sent())
    }

    /// Creates a writer that has sent nothing and keeps no transport.
    pub fn new(transport: IO) -> (writer: Self)
        ensures
            writer.sent() == Seq::<Seq<u8>>::empty(),
            writer.attempts() == Seq::<Attempt<IO::Error>>::empty(),
            !writer.has_cached(),
    {
        Writer {
            transport,
            cached_writer: None,
            sent: Ghost(Seq::empty()),
            attempts: Ghost(Seq::empty()),
        }
    }

    /// Sends `buffer`, in at most `retry_count + 1` attempts.
    ///
    /// Each attempt takes the kept transport, or else asks the factory for
    /// one, and writes `buffer` with `severity` to it. The transport of a
    /// successful write is kept; a transport that failed is dropped. A
    /// terminal error ends the send at once, another error when no attempt
    /// is left. A send that fails returns the error of its last attempt.
    pub fn write_buffer(&mut self, buffer: &str, severity: Severity, retry_count: u8) -> (r: Result<
        (),
        IO::Error,
    >)
        ensures
            final(self).sent_by(old(self), buffer.spec_bytes(), severity, retry_count, r),
    {
        let ghost before = self.attempts@;
        let ghost cached = self.cached_writer is Some;
        let ghost message = buffer.spec_bytes();
        let mut attempts_left: u16 = retry_count as u16 + 1;
        loop
            invariant
                1 <= attempts_left <= retry_count + 1,
                self.sent@ == old(self).sent@,
                cached == old(self).has_cached(),
                before == old(self).attempts(),
                message == buffer.spec_bytes(),
                before.is_prefix_of(self.attempts@),
                self.attempts@.len() == before.len() + (retry_count + 1 - attempts_left),
                (self.cached_writer is Some) == (cached && self.attempts@.len() == before.len()),
                forall|i: int|
                    before.len() <= i < self.attempts@.len() ==> (
                    #[trigger] self.attempts@[i]).creates() == !(cached && i == before.len()),
                forall|i: int|
                    before.len() <= i < self.attempts@.len() ==> (
                    #[trigger] self.attempts@[i]).carries(severity, message),
                forall|i: int|
                    before.len() <= i < self.attempts@.len() ==> (
                    #[trigger] self.attempts@[i]).may_be_retried(),
            decreases attempts_left,
        {
            attempts_left = attempts_left - 1;
            let kept = self.cached_writer.take();
            let ghost fresh = kept is None;
            let mut writer = match kept {
                Some(writer) => writer,
                None => match self.transport.create() {
                    Ok(writer) => writer,
                    Err(error) => {
                        let terminal = error.is_terminal();
                        self.attempts = Ghost(self.attempts@.push(Attempt::CreateFailed { error }));
                        if retry_after(terminal, attempts_left) {
                            continue ;
                        } else {
                            proof {
                                lemma_run_of_suffix(
                                    before,
                                    self.attempts@,
                                    cached,
                                    retry_count as nat,
                                    severity,
                                    message,
                                );
                            }
                            return Err(error);
                        }
                    },
                },
            };
            match writer.write(severity, buffer) {
                Ok(()) => {
                    self.cached_writer = Some(writer);
                    self.attempts = Ghost(
                        self.attempts@.push(Attempt::Written { fresh, severity, message }),
                    );
                    self.sent = Ghost(self.sent@.push(message));
                    proof {
                        lemma_run_of_suffix(
                            before,
                            self.attempts@,
                            cached,
                            retry_count as nat,
                            severity,
                            message,
                        );
                    }
                    return Ok(());
                },
                Err(error) => {
                    let terminal = error.is_terminal();
                    self.attempts = Ghost(
                        self.attempts@.push(
                            Attempt::WriteFailed { fresh, severity, message, error },
                        ),
                    );
                    if retry_after(terminal, attempts_left) {
                        continue ;
                    } else {
                        proof {
                            lemma_run_of_suffix(
                                before,
                                self.attempts@,
                                cached,
                                retry_count as nat,
                                severity,
                                message,
                            );
                        }
                        return Err(error);
                    }
                },
            }
        }
    }
}

/// What was added to the attempts `before` is a run, if each added attempt
/// used the kept transport or the factory as a run does, handed over the
/// message and the severity, all but the last allow a retry, and the last
/// one ends the run.
proof fn lemma_run_of_suffix<E: TransportError>(
    before: Seq<Attempt<E>>,
    after: Seq<Attempt<E>>,
    cached: bool,
    retry_count: nat,
    severity: Severity,
    message: Seq<u8>,
)
    requires
        before.is_prefix_of(after),
        before.len() < after.len() <= before.len() + retry_count + 1,
        forall|i: int|
            before.len() <= i < after.len() ==> (#[trigger] after[i]).creates() == !(cached && i
                == before.len()),
        forall|i: int|
            before.len() <= i < after.len() ==> (#[trigger] after[i]).carries(severity, message),
        forall|i: int| before.len() <= i < after.len() - 1 ==> (#[trigger] after[i]).may_be_retried(),
        after.last().may_be_retried() ==> after.len() == before.len() + retry_count + 1,
    ensures
        is_run(cached, retry_count, severity, message, after.skip(before.len() as int)),
        after.skip(before.len() as int).last() == after.last(),
{
    let run = after.skip(before.len() as int);
    assert(forall|i: int| 0 <= i < run.len() ==> (#[trigger] run[i]).creates() == !(cached && i == 0));
    assert(forall|i: int| 0 <= i < run.len() ==> (#[trigger] run[i]).carries(severity, message));
    assert(forall|i: int| 0 <= i < run.len() - 1 ==> (#[trigger] run[i]).may_be_retried());
}

/// Counts the attempts that ask the factory, where only a first attempt on
/// a kept transport does not.
proof fn lemma_creations_count<E: TransportError>(run: Seq<Attempt<E>>, cached: bool)
    requires
        forall|i: int| 0 <= i < run.len() ==> (#[trigger] run[i]).creates() == !(cached && i == 0),
    ensures
        creations(run) == if cached && run.len() > 0 {
            run.len() - 1
        } else {
            run.len() as int
        },
    decreases run.len(),
{
    if run.len() > 0 {
        let front = run.drop_last();
        assert(forall|i: int|
            0 <= i < front.len() ==> (#[trigger] front[i]).creates() == !(cached && i == 0));
        lemma_creations_count(front, cached);
    }
}

/// A send asks the factory once per attempt, but for a first attempt that
/// uses the transport kept from an earlier send.
pub proof fn lemma_creations_of_run<E: TransportError>(
    cached: bool,
    retry_count: nat,
    severity: Severity,
    message: Seq<u8>,
    run: Seq<Attempt<E>>,
)
    requires
        is_run(cached, retry_count, severity, message, run),
    ensures
        creations(run) == if cached {
            run.len() - 1
        } else {
            run.len() as int
        },
{
    lemma_creations_count(run, cached);
}

/// Retry policy: a send that starts without a transport and whose every
/// attempt fails with a non-terminal error makes exactly `retry_count + 1`
/// attempts, each of which asks the factory, and fails.
pub proof fn lemma_retries_until_none_is_left<E: TransportError>(
    retry_count: nat,
    severity: Severity,
    message: Seq<u8>,
    run: Seq<Attempt<E>>,
)
    requires
        is_run(false, retry_count, severity, message, run),
        forall|i: int| 0 <= i < run.len() ==> (#[trigger] run[i]).may_be_retried(),
    ensures
        run.len() == retry_count + 1,
        creations(run) == retry_count + 1,
        !(run.last() is Written),
{
    lemma_creations_of_run(false, retry_count, severity, message, run);
}

/// Retry policy: a terminal error in the first attempt ends the send after
/// that one attempt, whatever the retry count is.
pub proof fn lemma_terminal_error_ends_send<E: TransportError>(
    cached: bool,
    retry_count: nat,
    severity: Severity,
    message: Seq<u8>,
    run: Seq<Attempt<E>>,
)
    requires
        is_run(cached, retry_count, severity, message, run),
        run[0].failed_for_good(),
    ensures
        run.len() == 1,
        creations(run) <= 1,
        !cached ==> creations(run) == 1,
{
    lemma_creations_of_run(cached, retry_count, severity, message, run);
}

/// Caching: of two sends in a row, the second starts on the transport that
/// the first kept exactly if the first succeeded. After a success its first
/// attempt does not ask the factory, and if that attempt writes, the whole
/// send asks the factory for nothing. After a failure its first attempt asks
/// the factory.
pub proof fn lemma_transport_kept_after_success_only<E: TransportError>(
    cached: bool,
    first_retry_count: nat,
    first_severity: Severity,
    first_message: Seq<u8>,
    first: Seq<Attempt<E>>,
    second_retry_count: nat,
    second_severity: Severity,
    second_message: Seq<u8>,
    second: Seq<Attempt<E>>,
)
    requires
        is_run(cached, first_retry_count, first_severity, first_message, first),
        is_run(
            first.last() is Written,
            second_retry_count,
            second_severity,
            second_message,
            second,
        ),
    ensures
        first.last() is Written ==> !second[0].creates(),
        first.last() is Written && second[0] is Written ==> creations(second) == 0,
        !(first.last() is Written) ==> second[0].creates(),
{
    lemma_creations_of_run(
        first.last() is Written,
        second_retry_count,
        second_severity,
        second_message,
        second,
    );
}

} // verus!
