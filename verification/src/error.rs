//! Error types and handling.
//!
//! The library's error values carry plain data; rendering to text is a
//! method with an exact, character-level contract.

use vstd::prelude::*;
use vstd::string::StringExecFns;
use crate::output::{dec_digits, num_string};

verus! {

/// Errors reported while scanning files.
#[derive(Debug)]
pub enum SniffyError {
    /// An I/O failure, carrying its description.
    Io(String),
    /// Invalid path provided.
    InvalidPath(String),
    /// File encoding error (not valid UTF-8).
    EncodingError { path: String, line: usize },
    /// File processing error.
    ProcessingError { path: String, message: String },
}

/// The text an error renders to.
pub open spec fn message_spec(e: SniffyError) -> Seq<char> {
    match e {
        SniffyError::Io(s) => "IO error: "@ + s@,
        SniffyError::InvalidPath(p) => "Invalid path: "@ + p@,
        SniffyError::EncodingError { path, line } => "Encoding error in file "@ + path@
            + " at line "@ + dec_digits(line as nat),
        SniffyError::ProcessingError { path, message } => "Error processing "@ + path@ + ": "@
            + message@,
    }
}

impl SniffyError {
    /// Render the error as one line of text.
    pub fn message(&self) -> (r: String)
        ensures
            r@ == message_spec(*self),
    {
        match self {
            SniffyError::Io(s) => {
                let mut r = String::from_str("IO error: ");
                r.append(s.as_str());
                r
            },
            SniffyError::InvalidPath(p) => {
                let mut r = String::from_str("Invalid path: ");
                r.append(p.as_str());
                r
            },
            SniffyError::EncodingError { path, line } => {
                let mut r = String::from_str("Encoding error in file ");
                r.append(path.as_str());
                r.append(" at line ");
                r.append(num_string(*line as u64).as_str());
                r
            },
            SniffyError::ProcessingError { path, message } => {
                let mut r = String::from_str("Error processing ");
                r.append(path.as_str());
                r.append(": ");
                r.append(message.as_str());
                r
            },
        }
    }
}

} // verus!
