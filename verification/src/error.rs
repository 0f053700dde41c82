//! The error vocabulary of the library.
//!
//! One enum covers every failure a caller can see: transport I/O, codec
//! failures, a JSON-RPC error returned by the peer, an internal channel
//! closed because the owning loop has ended, a caller-imposed deadline,
//! and a typed catch-all.

use vstd::prelude::*;
use vstd::string::StrSliceExecFns;
use vstd::string::StringExecFns;
use crate::types::{ErrorData, ErrorDataV};

verus! {

/// A failure the library reports.
#[derive(Debug, Clone, PartialEq)]
pub enum Error {
    /// The underlying stream failed; carries the platform error's text.
    Io(String),
    /// A message could not be encoded or decoded.
    Serialization(String),
    /// The peer answered with a JSON-RPC error.
    JsonRpc(ErrorData),
    /// An internal queue or slot closed, typically because the session
    /// loop has ended.
    ChannelClosed,
    /// A deadline a caller imposed elapsed.
    Timeout,
    /// Any other failure, described in text.
    Other(String),
}

pub enum ErrorV {
    Io(Seq<char>),
    Serialization(Seq<char>),
    JsonRpc(ErrorDataV),
    ChannelClosed,
    Timeout,
    Other(Seq<char>),
}

impl DeepView for Error {
    type V = ErrorV;

    open spec fn deep_view(&self) -> ErrorV {
        match self {
            Error::Io(s) => ErrorV::Io(s@),
            Error::Serialization(s) => ErrorV::Serialization(s@),
            Error::JsonRpc(e) => ErrorV::JsonRpc(e.deep_view()),
            Error::ChannelClosed => ErrorV::ChannelClosed,
            Error::Timeout => ErrorV::Timeout,
            Error::Other(s) => ErrorV::Other(s@),
        }
    }
}

/// The text an error displays.
pub open spec fn spec_error_message(e: ErrorV) -> Seq<char> {
    match e {
        ErrorV::Io(s) => "I/O error: "@ + s,
        ErrorV::Serialization(s) => "Serialization error: "@ + s,
        ErrorV::JsonRpc(d) => "JSON-RPC error (code "@ + crate::json::spec_ser_int(d.code)
            + "): "@ + d.message,
        ErrorV::ChannelClosed => "Internal communication channel closed"@,
        ErrorV::Timeout => "Operation timed out"@,
        ErrorV::Other(s) => "An internal error occurred: "@ + s,
    }
}

impl Error {
    /// The error's display text.
    pub fn message(&self) -> (out: String)
        ensures
            out@ == spec_error_message(self.deep_view()),
    {
        match self {
            Error::Io(s) => {
                let mut out = "I/O error: ".to_owned();
                out.append(s.as_str());
                out
            },
            Error::Serialization(s) => {
                let mut out = "Serialization error: ".to_owned();
                out.append(s.as_str());
                out
            },
            Error::JsonRpc(d) => {
                let mut code_chars: Vec<char> = Vec::new();
                crate::json::push_int_chars(d.code as i64, &mut code_chars);
                let code_text = crate::json::string_from_chars(&code_chars);
                let mut out = "JSON-RPC error (code ".to_owned();
                out.append(code_text.as_str());
                out.append("): ");
                out.append(d.message.as_str());
                out
            },
            Error::ChannelClosed => "Internal communication channel closed".to_owned(),
            Error::Timeout => "Operation timed out".to_owned(),
            Error::Other(s) => {
                let mut out = "An internal error occurred: ".to_owned();
                out.append(s.as_str());
                out
            },
        }
    }
}

impl From<ErrorData> for Error {
    /// A peer error becomes the JSON-RPC variant.
    fn from(e: ErrorData) -> (r: Error) {
        Error::JsonRpc(e)
    }
}

impl vstd::std_specs::convert::FromSpecImpl<ErrorData> for Error {
    open spec fn obeys_from_spec() -> bool {
        true
    }

    open spec fn from_spec(e: ErrorData) -> Error {
        Error::JsonRpc(e)
    }
}

impl From<String> for Error {
    /// A bare message becomes the catch-all variant.
    fn from(msg: String) -> (r: Error) {
        Error::Other(msg)
    }
}

impl vstd::std_specs::convert::FromSpecImpl<String> for Error {
    open spec fn obeys_from_spec() -> bool {
        true
    }

    open spec fn from_spec(msg: String) -> Error {
        Error::Other(msg)
    }
}

} // verus!
