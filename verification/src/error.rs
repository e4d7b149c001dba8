//! The errors a session can end with, and the code each is sent as.
use vstd::prelude::*;

use crate::coding::DecodeError;
use crate::message::ControlType;

verus! {

/// Some variable-length integer was too large to encode.
#[derive(Clone, Copy, Debug, PartialEq, Eq)]
pub struct BoundsExceeded;

/// A list of possible errors that can occur during the session.
#[derive(Debug)]
pub enum Error {
    /// The transport failed; its message.
    WebTransport(String),
    Decode(DecodeError),
    /// The client's and the server's supported versions.
    Version(Vec<u64>, Vec<u64>),
    /// A required extension was not present.
    RequiredExtension(u64),
    /// An unexpected stream was received.
    UnexpectedStream(ControlType),
    /// Some variable-length integer was too large.
    BoundsExceeded(BoundsExceeded),
    /// A duplicate ID was used.
    Duplicate,
    /// There are no more readers.
    Cancel,
    /// It took too long to open or transmit a stream.
    Timeout,
    /// The group is older than the latest group and dropped.
    Old,
    /// The application closed the stream with a code.
    App(u32),
    NotFound,
    WrongSize,
    ProtocolViolation,
}

impl Error {
    /// An integer code that is sent over the wire.
    pub fn to_code(&self) -> (r: u32)
        requires
            self matches Error::App(app) ==> app + 64 <= u32::MAX,
        ensures
            r == match self {
                Error::Cancel => 0,
                Error::RequiredExtension(_) => 1,
                Error::Old => 2,
                Error::Timeout => 3,
                Error::WebTransport(_) => 4,
                Error::Decode(_) => 5,
                Error::Version(..) => 9,
                Error::UnexpectedStream(_) => 10,
                Error::BoundsExceeded(_) => 11,
                Error::Duplicate => 12,
                Error::NotFound => 13,
                Error::WrongSize => 14,
                Error::ProtocolViolation => 15,
                Error::App(app) => app + 64,
            },
    {
        match self {
            Error::Cancel => 0,
            Error::RequiredExtension(_) => 1,
            Error::Old => 2,
            Error::Timeout => 3,
            Error::WebTransport(_) => 4,
            Error::Decode(_) => 5,
            Error::Version(..) => 9,
            Error::UnexpectedStream(_) => 10,
            Error::BoundsExceeded(_) => 11,
            Error::Duplicate => 12,
            Error::NotFound => 13,
            Error::WrongSize => 14,
            Error::ProtocolViolation => 15,
            Error::App(app) => *app + 64,
        }
    }
}

impl vstd::std_specs::convert::FromSpecImpl<DecodeError> for Error {
    open spec fn obeys_from_spec() -> bool {
        true
    }

    open spec fn from_spec(err: DecodeError) -> Self {
        Error::Decode(err)
    }
}

/// Decode errors become session errors.
impl From<DecodeError> for Error {
    fn from(err: DecodeError) -> (r: Self)
        ensures
            r == Error::Decode(err),
    {
        Error::Decode(err)
    }
}

} // verus!
