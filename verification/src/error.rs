//! The failures that an exchange with the device can end in.
use vstd::prelude::*;

verus! {

#[verifier::external_type_specification]
#[verifier::external_body]
pub struct ExHidError(hidapi::HidError);

/// What went wrong in an exchange.
///
/// The framing layer itself only ever reports `Arguments` and `Parse`; the
/// other kinds are for the layers above and below it.
#[derive(Clone, Copy, Debug, PartialEq, Eq, Structural)]
pub enum Error {
    /// The caller asked for something that cannot be done.
    Arguments,
    /// Bytes that do not decode: a bad header, a short buffer, a length that
    /// overruns its report, an unknown status, or too many empty reads.
    Parse,
    /// The device did not understand the command.
    CommandNotRecognized,
    /// The device understood the command and failed to run it.
    Execution,
    /// A response carried a tag other than that of its command.
    Sequence,
    /// The transport failed.
    Transmission,
}

impl From<hidapi::HidError> for Error {
    fn from(_err: hidapi::HidError) -> (e: Error) {
        Error::Transmission
    }
}

impl vstd::std_specs::convert::FromSpecImpl<hidapi::HidError> for Error {
    open spec fn obeys_from_spec() -> bool {
        true
    }

    open spec fn from_spec(_err: hidapi::HidError) -> Error {
        Error::Transmission
    }
}

impl From<scroll::Error> for Error {
    fn from(_err: scroll::Error) -> (e: Error) {
        Error::Parse
    }
}

impl vstd::std_specs::convert::FromSpecImpl<scroll::Error> for Error {
    open spec fn obeys_from_spec() -> bool {
        true
    }

    open spec fn from_spec(_err: scroll::Error) -> Error {
        Error::Parse
    }
}

impl From<core::str::Utf8Error> for Error {
    fn from(_err: core::str::Utf8Error) -> (e: Error) {
        Error::Parse
    }
}

impl vstd::std_specs::convert::FromSpecImpl<core::str::Utf8Error> for Error {
    open spec fn obeys_from_spec() -> bool {
        true
    }

    open spec fn from_spec(_err: core::str::Utf8Error) -> Error {
        Error::Parse
    }
}

impl From<std::io::Error> for Error {
    fn from(_err: std::io::Error) -> (e: Error) {
        Error::Arguments
    }
}

impl vstd::std_specs::convert::FromSpecImpl<std::io::Error> for Error {
    open spec fn obeys_from_spec() -> bool {
        true
    }

    open spec fn from_spec(_err: std::io::Error) -> Error {
        Error::Arguments
    }
}

} // verus!
