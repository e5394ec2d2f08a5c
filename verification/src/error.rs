//! The errors a socket reports.

use vstd::prelude::*;

use maidsafe_utilities::serialisation::SerialisationError;
use std::fmt::Debug;
use vstd::string::StringExecFns;

verus! {

/// The category of a failed system I/O operation, as the transport reports it.
#[derive(Clone, Copy, Debug, PartialEq, Eq, Structural)]
pub enum IoErrorKind {
    NotFound,
    PermissionDenied,
    ConnectionRefused,
    ConnectionReset,
    ConnectionAborted,
    NotConnected,
    AddrInUse,
    AddrNotAvailable,
    BrokenPipe,
    AlreadyExists,
    WouldBlock,
    InvalidInput,
    InvalidData,
    TimedOut,
    WriteZero,
    Interrupted,
    UnexpectedEof,
    Other,
}

impl IoErrorKind {
    /// Whether the operation merely could not proceed right now and may be retried once the
    /// socket is ready again.
    pub open spec fn spec_is_transient(self) -> bool {
        self == IoErrorKind::WouldBlock || self == IoErrorKind::Interrupted
    }

    /// Tells whether the operation should be retried once the socket is ready again.
    pub fn is_transient(&self) -> (r: bool)
        ensures
            r == self.spec_is_transient(),
    {
        match self {
            IoErrorKind::WouldBlock => true,
            IoErrorKind::Interrupted => true,
            _ => false,
        }
    }
}

/// A failed system I/O operation: its category, the error code where the operating system
/// reported one, and a description where there is one.
#[derive(Clone, Debug)]
pub struct IoError {
    pub kind: IoErrorKind,
    pub raw_os_error: Option<i32>,
    pub message: Option<String>,
}

impl From<IoErrorKind> for IoError {
    fn from(kind: IoErrorKind) -> (r: IoError) {
        IoError { kind, raw_os_error: None, message: None }
    }
}

impl vstd::std_specs::convert::FromSpecImpl<IoErrorKind> for IoError {
    open spec fn obeys_from_spec() -> bool {
        true
    }

    open spec fn from_spec(kind: IoErrorKind) -> IoError {
        IoError { kind, raw_os_error: None, message: None }
    }
}

/// An error of the UDT transport, carried as its message.
#[derive(Clone, Debug)]
pub struct UdtError {
    pub err_msg: String,
}

/// Why encryption or decryption of a frame failed.
#[derive(Clone, Copy, Debug, PartialEq, Eq, Structural)]
pub enum CryptoError {
    /// The ciphertext could not be decrypted or its authenticity could not be verified.
    DecryptVerify,
    /// The cryptographic backend could not be initialised.
    InitError(i32),
    /// An encryption key could not be derived.
    DeriveKey,
}

/// Common error of all socket operations.
#[derive(Debug)]
pub enum SocketError {
    /// IO error.
    Io(IoError),
    /// Socket is uninitialised and invalid for any operation.
    UninitialisedSocket,
    /// Size of a message to send or about to be read is too large.
    PayloadSizeProhibitive,
    /// Serialisation error.
    Serialisation(SerialisationError),
    /// Encryption or decryption error.
    Crypto(CryptoError),
    /// A zero byte socket read - means EOF.
    ZeroByteRead,
    /// UDT error.
    Udt(UdtError),
    /// UDP socket is not connected.
    UnconnectedUdpSocket,
    /// No UDT epoll loop.
    NoUdtEpoll,
    /// UDT read has resulted in negative return value.
    UdtNegativeBytesRead(i32),
    /// UDT write has resulted in negative return value.
    UdtNegativeBytesWrite(i32),
}

/// Calls `format!("{:?}", ..)` on `e`: its `Debug` text. What that is depends on the type's
/// `Debug` impl, so nothing is promised of it.
#[verifier::external_body]
fn debug_text<E: Debug>(e: &E) -> String {
    format!("{:?}", e)
}

/// The optional details part of an error description: nothing for empty details, else the
/// details in brackets.
pub open spec fn details_text(m: Seq<char>) -> Seq<char> {
    if m.len() == 0 {
        Seq::empty()
    } else {
        ";; [Optional details: "@ + m + "]"@
    }
}

/// Builds an I/O error of kind `Other` whose description is the `Debug` text of `e`, if any,
/// after "Error: ", followed by the details `m`, if not empty.
pub fn into_io_error<E: Debug>(e: Option<E>, m: &str) -> (r: IoError)
    ensures
        r.kind == IoErrorKind::Other,
        r.raw_os_error is None,
        r.message is Some,
        e is None ==> r.message->Some_0@ == details_text(m@),
        e is Some ==> exists|d: Seq<char>| r.message->Some_0@ == "Error: "@ + d + details_text(m@),
{
    let mut err_msg = match e {
        Some(e) => {
            let mut s = "Error: ".to_owned();
            let d = debug_text(&e);
            s.append(d.as_str());
            s
        },
        None => String::new(),
    };
    let ghost before = err_msg@;
    if !m.is_empty() {
        err_msg.append(";; [Optional details: ");
        err_msg.append(m);
        err_msg.append("]");
        assert(err_msg@ =~= before + details_text(m@));
    } else {
        assert(err_msg@ =~= before + details_text(m@));
    }
    IoError { kind: IoErrorKind::Other, raw_os_error: None, message: Some(err_msg) }
}

} // verus!
