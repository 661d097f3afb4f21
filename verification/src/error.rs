//! The errors a listing operation can end with.  Every variant carries
//! enough context (the field and the offending raw text) to diagnose a
//! layout mismatch from the error alone.

use vstd::prelude::*;
use crate::field::Field;

verus! {

/// A terminal error of one listing operation.
#[derive(Debug, PartialEq, Eq)]
pub enum PsError {
    /// The output held no lines at all, so there was no header to scan.
    MissingHeader,
    /// The header line yielded no recognized column.
    NoRecognizedFields,
    /// A numeric column held something other than a number that fits.
    InvalidInteger { field: Field, raw: String },
    /// An elapsed-time column held a malformed duration.
    InvalidDuration { raw: String },
    /// A label handed to the strict catalog lookup was not recognized.
    UnrecognizedField { label: String },
    /// The external listing command could not be run; carries its report.
    SourceUnavailable { message: String },
}

/// The mathematical shape of a [`PsError`], with text as `Seq<char>`.
pub ghost enum PsErrorV {
    MissingHeader,
    NoRecognizedFields,
    InvalidInteger { field: Field, raw: Seq<char> },
    InvalidDuration { raw: Seq<char> },
    UnrecognizedField { label: Seq<char> },
    SourceUnavailable { message: Seq<char> },
}

impl View for PsError {
    type V = PsErrorV;

    open spec fn view(&self) -> PsErrorV {
        match self {
            PsError::MissingHeader => PsErrorV::MissingHeader,
            PsError::NoRecognizedFields => PsErrorV::NoRecognizedFields,
            PsError::InvalidInteger { field, raw } => PsErrorV::InvalidInteger {
                field: *field,
                raw: raw@,
            },
            PsError::InvalidDuration { raw } => PsErrorV::InvalidDuration { raw: raw@ },
            PsError::UnrecognizedField { label } => PsErrorV::UnrecognizedField { label: label@ },
            PsError::SourceUnavailable { message } => PsErrorV::SourceUnavailable {
                message: message@,
            },
        }
    }
}

} // verus!
