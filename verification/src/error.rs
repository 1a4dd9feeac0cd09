//! Errors returned while producing samples.

use vstd::prelude::*;

verus! {

/// `std::io::Error` is carried through the library untouched.
#[verifier::external_type_specification]
#[verifier::external_body]
pub struct ExIoError(std::io::Error);

/// Rawedio error.
///
/// These errors mostly originate in decoder libraries. If the library error is
/// just an I/O error it is unwrapped into the `IoError` variant, otherwise the
/// message of the format error is kept in the `FormatError` variant.
#[derive(Debug)]
pub enum RawedioError {
    /// An I/O operation failed.
    IoError(std::io::Error),
    /// An error other than an I/O error occurred, normally one of a format
    /// decoding library. The variant holds the error's message.
    FormatError(String),
}

impl From<std::io::Error> for RawedioError {
    fn from(e: std::io::Error) -> (r: Self)
        ensures
            r == RawedioError::IoError(e),
    {
        RawedioError::IoError(e)
    }
}

impl vstd::std_specs::convert::FromSpecImpl<std::io::Error> for RawedioError {
    open spec fn obeys_from_spec() -> bool {
        true
    }

    open spec fn from_spec(v: std::io::Error) -> Self {
        RawedioError::IoError(v)
    }
}

/// A `MetadataChanged` with a new channel count or sample rate was returned
/// while reading a sound into a `MemorySound`, which is not supported.
#[derive(Debug, Clone, Copy, PartialEq, Eq)]
pub struct UnsupportedMetadataChangeError;

/// The message of [`UnsupportedMetadataChangeError`].
pub open spec fn unsupported_metadata_change_message() -> Seq<char> {
    "unsupported MetadataChanged encountered when consuming Sound"@
}

impl UnsupportedMetadataChangeError {
    /// The human readable message of this error.
    pub fn message(&self) -> (r: String)
        ensures
            r@ == unsupported_metadata_change_message(),
    {
        "unsupported MetadataChanged encountered when consuming Sound".to_string()
    }

    /// The error as it is reported by `MemorySound::from_sound`: an I/O error
    /// of kind `Other` that carries the message of this error.
    pub fn into_rawedio_error(self) -> (r: RawedioError)
        ensures
            r is IoError,
    {
        let msg = self.message();
        RawedioError::IoError(io_error_other(msg))
    }
}

/// Calls `std::io::Error::other`, which builds an error of kind `Other` that
/// carries `msg`. Nothing is stated of the opaque error value.
#[verifier::external_body]
fn io_error_other(msg: String) -> (e: std::io::Error) {
    std::io::Error::other(msg)
}

} // verus!
