//! The failures that the archive's commands report.

use vstd::prelude::*;

verus! {

/// The error that `chrono` gives for a date text it cannot parse.
#[verifier::external_type_specification]
#[verifier::external_body]
pub struct ExParseError(chrono::format::ParseError);

/// The error of an input or output operation.
#[verifier::external_type_specification]
#[verifier::external_body]
pub struct ExIoError(std::io::Error);

/// Why a command of the archive was given up.
#[derive(Debug)]
pub enum MyErrors {
    /// No record matches the company that was asked for.
    FileNotFound,
    /// A required argument is absent from the command line.
    MissingCommand,
    /// A record already stands at the path of the one to create.
    FileAlreadyExists,
    /// A directory could not be listed during a strict traversal.
    CannotReadDirectory,
    /// A line declares a boundary from which no value can be taken.
    InvalidBoundaryLine,
    /// The new record's file could not be created.
    CannotCreateFile(std::io::Error),
    /// The new record's text could not be written.
    CannotWriteToFile(std::io::Error),
    /// The custom date has an accepted length and does not parse.
    CannotParseCustomDate(chrono::format::ParseError),
    /// The custom date names no single moment of local time.
    CannotConvertToLocalTime,
    /// The custom date has neither of the accepted lengths.
    InvalidCustomDatetime,
}

} // verus!
