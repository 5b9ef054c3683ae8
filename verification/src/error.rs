//! The library's error type.
use crate::decimal::{decimal, decimal_string};
use vstd::prelude::*;
use vstd::string::StringExecFns;

verus! {

/// `std::io::Error`, carried through the library without being inspected.
#[verifier::external_type_specification]
#[verifier::external_body]
pub struct ExIoError(std::io::Error);

/// The error type of every fallible operation of the library.
#[derive(Debug)]
pub enum Error {
    /// An I/O error.
    Io(std::io::Error),
    /// Stored data failed a check.
    Corruption {
        /// Offset of the damaged data.
        offset: u64,
        /// Why the data was rejected.
        reason: String,
    },
    /// No segment holds the requested offset.
    SegmentNotFound {
        /// The requested offset.
        offset: u64,
    },
    /// The configuration is invalid.
    Config {
        /// What is wrong with it.
        message: String,
    },
    /// The WAL has been closed.
    Closed,
    /// A failure described only by its message.
    Generic(String),
    /// The end of the readable data was reached.
    Eof,
    /// Syncing to durable storage failed.
    Sync(String),
    /// Compressing or decompressing failed.
    Compression(String),
}

/// The result of a fallible operation of the library.
pub type Result<T> = core::result::Result<T, Error>;

/// The text that `Display` gives for a `std::io::Error`; what it holds
/// depends on the operating system's messages and is not stated here.
#[verifier::external_body]
fn io_error_text(err: &std::io::Error) -> (s: String) {
    format!("{}", err)
}

impl Error {
    /// The message that this error displays as, for every variant but `Io`,
    /// whose message ends with the operating system's text.
    pub open spec fn message_spec(&self) -> Seq<char> {
        match self {
            Error::Io(_) => "IO error: "@,
            Error::Corruption { offset, reason } => "Data corruption at offset "@ + decimal(
                *offset as nat,
            ) + ": "@ + reason@,
            Error::SegmentNotFound { offset } => "Segment not found for offset: "@ + decimal(
                *offset as nat,
            ),
            Error::Config { message } => "Configuration error: "@ + message@,
            Error::Closed => "WAL has been closed"@,
            Error::Generic(m) => m@,
            Error::Eof => "End of file"@,
            Error::Sync(m) => "Sync error: "@ + m@,
            Error::Compression(m) => "Compression error: "@ + m@,
        }
    }

    /// The human-readable description of this error.
    pub fn to_string(&self) -> (s: String)
        ensures
            !(self is Io) ==> s@ == self.message_spec(),
            self is Io ==> exists|t: Seq<char>| s@ == self.message_spec() + t,
    {
        match self {
            Error::Io(err) => {
                let t = io_error_text(err);
                let r = String::from_str("IO error: ").concat(t.as_str());
                assert(r@ == self.message_spec() + t@);
                r
            },
            Error::Corruption { offset, reason } => {
                let d = decimal_string(*offset);
                String::from_str("Data corruption at offset ").concat(d.as_str()).concat(
                    ": ",
                ).concat(reason.as_str())
            },
            Error::SegmentNotFound { offset } => {
                let d = decimal_string(*offset);
                String::from_str("Segment not found for offset: ").concat(d.as_str())
            },
            Error::Config { message } => String::from_str("Configuration error: ").concat(
                message.as_str(),
            ),
            Error::Closed => String::from_str("WAL has been closed"),
            Error::Generic(m) => m.clone(),
            Error::Eof => String::from_str("End of file"),
            Error::Sync(m) => String::from_str("Sync error: ").concat(m.as_str()),
            Error::Compression(m) => String::from_str("Compression error: ").concat(m.as_str()),
        }
    }
}

impl Error {
    /// The underlying I/O error, for `Io`; no other variant wraps an error.
    pub fn source(&self) -> (r: Option<&std::io::Error>)
        ensures
            r is Some <==> self is Io,
            r matches Some(e) ==> *self == Error::Io(*e),
    {
        match self {
            Error::Io(e) => Some(e),
            _ => None,
        }
    }
}

impl From<std::io::Error> for Error {
    fn from(err: std::io::Error) -> (r: Self) {
        Error::Io(err)
    }
}

impl vstd::std_specs::convert::FromSpecImpl<std::io::Error> for Error {
    open spec fn obeys_from_spec() -> bool {
        true
    }

    open spec fn from_spec(v: std::io::Error) -> Self {
        Error::Io(v)
    }
}

} // verus!
