//! The error taxonomy of the decoder.
//!
//! Structural assumptions about the package (container validity, XML
//! well-formedness, declared record counts) surface as these recoverable
//! errors; per-cell data anomalies instead degrade to documented defaults
//! inside the decoders, so that one malformed cell cannot deny access to
//! an otherwise valid sheet.

use vstd::prelude::*;

verus! {

/// A structural failure while decoding a package.
#[derive(Clone, Copy, Debug, PartialEq, Eq, Structural)]
pub enum Error {
    /// The container is not a readable zip archive.
    Container,
    /// A part the document must have is absent.
    MissingPart,
    /// The pull-parser cannot tokenize a part's XML.
    MalformedXml,
    /// A table declared one record count and held another.
    CountMismatch,
}

impl Error {
    /// A short description of the failure.
    pub fn message(&self) -> (result: &'static str)
        ensures
            result@ == match *self {
                Error::Container => "not a valid spreadsheet container"@,
                Error::MissingPart => "a required part is missing"@,
                Error::MalformedXml => "malformed xml in a part"@,
                Error::CountMismatch => "a declared record count does not match"@,
            },
    {
        match self {
            Error::Container => "not a valid spreadsheet container",
            Error::MissingPart => "a required part is missing",
            Error::MalformedXml => "malformed xml in a part",
            Error::CountMismatch => "a declared record count does not match",
        }
    }
}

} // verus!
