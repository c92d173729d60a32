//! Transports and transport errors that need nothing but the standard
//! library: a channel to send records into, and the classification of I/O
//! errors.

use crate::syslog::Severity;
use crate::writer::{MakeTransport, Transport, TransportError};
use std::io;
use std::sync::mpsc::{SendError, Sender};
use vstd::prelude::*;

verus! {

/// `std::sync::mpsc::Sender`, whose inside is not looked into.
#[verifier::external_type_specification]
#[verifier::external_body]
#[verifier::reject_recursive_types(T)]
pub struct ExSender<T>(Sender<T>);

/// `std::sync::mpsc::SendError`: the receiving end of the channel is gone.
#[verifier::external_type_specification]
#[verifier::external_body]
#[verifier::reject_recursive_types(T)]
pub struct ExSendError<T>(SendError<T>);

/// `std::io::Error`, of which only the kind is looked at.
#[verifier::external_type_specification]
#[verifier::external_body]
pub struct ExIoError(io::Error);

/// `Sender::send`, with the message made from `msg`. It fails when the
/// receiving end of the channel is gone, which nothing here can tell.
#[verifier::external_body]
fn channel_send<T: for <'a>From<&'a str>>(chan: &Sender<T>, msg: &str) -> (r: Result<
    (),
    SendError<T>,
>) {
    chan.send(msg.into())
}

/// `Sender::clone`: another sender into the same channel.
#[verifier::external_body]
fn channel_clone<T>(chan: &Sender<T>) -> (copy: Sender<T>) {
    chan.clone()
}

/// Syslog transport that uses a channel to send syslog messages.
///
/// This is mostly useful for testing purposes.
#[verifier::reject_recursive_types(T)]
pub struct InMemory<T>(Sender<T>);

impl<T: for <'a>From<&'a str>> InMemory<T> {
    /// The sending end that messages go into.
    pub closed spec fn sender(&self) -> Sender<T> {
        self.0
    }

    /// Creates new in memory writer using provided sender.
    pub fn new(chan: Sender<T>) -> (transport: Self)
        ensures
            transport.sender() == chan,
    {
        InMemory(chan)
    }

    /// Returns reference to underlying channel.
    pub fn channel(&self) -> (chan: &Sender<T>)
        ensures
            *chan == self.sender(),
    {
        &self.0
    }
}

impl<T: for <'a>From<&'a str>> MakeTransport for InMemory<T> {
    type Error = SendError<T>;

    type Transport = Self;

    /// Creates a transport that sends into the channel of this factory.
    /// That never fails.
    fn create(&self) -> (r: Result<Self::Transport, Self::Error>)
        ensures
            r is Ok,
    {
        Ok(InMemory(channel_clone(&self.0)))
    }
}

impl<T> TransportError for SendError<T> {
    open spec fn terminal(&self) -> bool {
        true
    }

    /// A channel whose receiving end is gone takes no message ever again:
    /// the error is always terminal.
    fn is_terminal(&self) -> (terminal: bool)
        ensures
            terminal,
    {
        true
    }
}

impl<T: for <'a>From<&'a str>> Transport<SendError<T>> for InMemory<T> {
    fn write(&mut self, _severity: Severity, msg: &str) -> Result<(), SendError<T>> {
        channel_send(&self.0, msg)
    }
}

impl<T> Clone for InMemory<T> {
    fn clone(&self) -> Self {
        InMemory(channel_clone(&self.0))
    }
}

/// Kinds of I/O error that the classification tells apart.
#[derive(Clone, Copy, Debug, PartialEq, Eq, Structural)]
pub enum IoErrorKind {
    /// A socket address is already in use.
    AddrInUse,
    /// A socket address is not available on this host.
    AddrNotAvailable,
    /// A parameter was incorrect.
    InvalidInput,
    /// The operation is not supported on this platform.
    Unsupported,
    /// The connection was refused by the remote server.
    ConnectionRefused,
    /// The operation took too long.
    TimedOut,
    /// Any other kind of error.
    Other,
}

impl IoErrorKind {
    /// An error of this kind cannot be mended by another attempt: the
    /// address, the parameters or the platform rule the transport out.
    pub open spec fn terminal(self) -> bool {
        self is AddrInUse || self is AddrNotAvailable || self is InvalidInput
            || self is Unsupported
    }
}

/// `io::Error::kind`, told apart as far as [`IoErrorKind`] does. The kind
/// is a matter of the error alone.
#[verifier::external_body]
fn io_error_kind(error: &io::Error) -> (kind: IoErrorKind)
    ensures
        kind == io_kind(*error),
{
    match error.kind() {
        io::ErrorKind::AddrInUse => IoErrorKind::AddrInUse,
        io::ErrorKind::AddrNotAvailable => IoErrorKind::AddrNotAvailable,
        io::ErrorKind::InvalidInput => IoErrorKind::InvalidInput,
        io::ErrorKind::Unsupported => IoErrorKind::Unsupported,
        io::ErrorKind::ConnectionRefused => IoErrorKind::ConnectionRefused,
        io::ErrorKind::TimedOut => IoErrorKind::TimedOut,
        _ => IoErrorKind::Other,
    }
}

/// Tells whether an I/O error of `kind` is terminal.
pub fn is_terminal_kind(kind: IoErrorKind) -> (terminal: bool)
    ensures
        terminal == kind.terminal(),
{
    match kind {
        IoErrorKind::AddrInUse => true,
        IoErrorKind::AddrNotAvailable => true,
        IoErrorKind::InvalidInput => true,
        IoErrorKind::Unsupported => true,
        IoErrorKind::ConnectionRefused => false,
        IoErrorKind::TimedOut => false,
        IoErrorKind::Other => false,
    }
}

impl TransportError for io::Error {
    open spec fn terminal(&self) -> bool {
        io_kind(*self).terminal()
    }

    /// An I/O error is terminal if its kind is: if the address, the
    /// parameters or the platform rule the transport out.
    fn is_terminal(&self) -> (terminal: bool)
        ensures
            terminal == io_kind(*self).terminal(),
    {
        is_terminal_kind(io_error_kind(self))
    }
}

/// The kind of an I/O error, told apart as far as [`IoErrorKind`] does.
pub uninterp spec fn io_kind(error: io::Error) -> IoErrorKind;

/// Picks the socket of the system's syslog among the paths it may have: the
/// first that exists and is no directory. `found` tells of each path, in
/// their order, whether it exists, and if so whether it is a directory.
pub fn first_socket_path(found: &Vec<Option<bool>>) -> (r: Option<usize>)
    ensures
        r matches Some(i) ==> i < found.len() && found[i as int] == Some(false) && forall|j: int|
            0 <= j < i ==> found[j] != Some(false),
        r is None ==> forall|j: int| 0 <= j < found.len() ==> found[j] != Some(false),
{
    let mut idx: usize = 0;
    while idx < found.len()
        invariant
            idx <= found.len(),
            forall|j: int| 0 <= j < idx ==> found[j] != Some(false),
        decreases found.len() - idx,
    {
        match found[idx] {
            Some(false) => {
                return Some(idx);
            },
            _ => {},
        }
        idx += 1;
    }
    None
}

} // verus!
