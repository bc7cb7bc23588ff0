//! The codec's flat error taxonomy: every condition is a permanent failure of
//! the single encode or decode call in progress, reported to the caller and
//! never recovered internally.

use vstd::prelude::*;
use crate::header::TypeNameFormat;

verus! {

/// The spec-level mirror of [`Error`]: identifier bytes become sequences, so
/// that the spec-level parser can state exactly which error a malformed input
/// produces.
pub enum ErrorView {
    SliceTooShort,
    UnsupportedTypeNameFormat(TypeNameFormat),
    UnsupportedRecordType(Seq<u8>),
    InvalidExternalType(Seq<u8>),
    UTF8Decode,
    UTF16Decode,
    UTF16OddLength(int),
}

/// A decode failure.
#[derive(Clone, Debug, PartialEq, Eq)]
pub enum Error {
    /// The input ends before a field or declared-length region can be read,
    /// including the empty-input case.
    SliceTooShort,
    /// The header declares a type-name-format this codec does not interpret.
    UnsupportedTypeNameFormat(TypeNameFormat),
    /// A well-known record whose type identifier is not the recognized text
    /// tag; carries the offending identifier bytes.
    UnsupportedRecordType(Vec<u8>),
    /// An external record whose type identifier lacks the required `:`
    /// separator; carries the offending identifier bytes.
    InvalidExternalType(Vec<u8>),
    /// A type identifier or a text region is not valid UTF-8.
    UTF8Decode,
    /// A UTF-16 text region contains an invalid code-unit sequence.
    UTF16Decode,
    /// A UTF-16 text region has an odd byte length; carries that length.
    UTF16OddLength(usize),
}

impl View for Error {
    type V = ErrorView;

    open spec fn view(&self) -> ErrorView {
        match self {
            Error::SliceTooShort => ErrorView::SliceTooShort,
            Error::UnsupportedTypeNameFormat(t) => ErrorView::UnsupportedTypeNameFormat(*t),
            Error::UnsupportedRecordType(v) => ErrorView::UnsupportedRecordType(v@),
            Error::InvalidExternalType(v) => ErrorView::InvalidExternalType(v@),
            Error::UTF8Decode => ErrorView::UTF8Decode,
            Error::UTF16Decode => ErrorView::UTF16Decode,
            Error::UTF16OddLength(n) => ErrorView::UTF16OddLength(*n as int),
        }
    }
}

} // verus!
