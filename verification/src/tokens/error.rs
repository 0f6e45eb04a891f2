//! The error type shared by the scanners and the engine.

use vstd::prelude::*;

verus! {

/// A failure met while scanning input.
#[derive(Debug)]
pub enum TokenizationError {
    /// No matcher claimed a character; the payload is a readable message.
    UnrecognizedToken(String),
    /// A block start delimiter was never balanced by its end delimiter;
    /// the payloads are the start and end delimiter.
    UnmatchedBlockDelimiter(String, String),
}

/// The mathematical content of a `TokenizationError`.
pub ghost enum ErrorModel {
    Unrecognized(Seq<char>),
    UnmatchedBlock(Seq<char>, Seq<char>),
}

impl View for TokenizationError {
    type V = ErrorModel;

    open spec fn view(&self) -> ErrorModel {
        match self {
            TokenizationError::UnrecognizedToken(m) => ErrorModel::Unrecognized(m@),
            TokenizationError::UnmatchedBlockDelimiter(s, e) => ErrorModel::UnmatchedBlock(s@, e@),
        }
    }
}

impl Clone for TokenizationError {
    /// A clone carries exactly the same content.
    fn clone(&self) -> (r: TokenizationError)
        ensures
            r@ == self@,
    {
        match self {
            TokenizationError::UnrecognizedToken(m) => TokenizationError::UnrecognizedToken(
                m.clone(),
            ),
            TokenizationError::UnmatchedBlockDelimiter(s, e) => {
                TokenizationError::UnmatchedBlockDelimiter(s.clone(), e.clone())
            },
        }
    }
}

/// The readable description of an error.
pub open spec fn error_message_model(e: ErrorModel) -> Seq<char> {
    match e {
        ErrorModel::Unrecognized(m) => "Unrecognized token: "@ + m,
        ErrorModel::UnmatchedBlock(s, e) => "Unmatched block delimiter: start '"@ + s
            + "' missing matching end '"@ + e + "'"@,
    }
}

impl TokenizationError {
    /// Renders the error as a readable message.
    pub fn message(&self) -> (r: String)
        ensures
            r@ == error_message_model(self@),
    {
        match self {
            TokenizationError::UnrecognizedToken(m) => {
                let mut r = String::from_str("Unrecognized token: ");
                r.append(m.as_str());
                r
            },
            TokenizationError::UnmatchedBlockDelimiter(s, e) => {
                let mut r = String::from_str("Unmatched block delimiter: start '");
                r.append(s.as_str());
                r.append("' missing matching end '");
                r.append(e.as_str());
                r.append("'");
                r
            },
        }
    }
}

} // verus!
