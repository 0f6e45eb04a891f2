//! A scanner around a user-supplied callback.

use crate::scanners::scanner::Scanner;
use crate::scanners::scanner_types::CallbackScanner;
use crate::tokens::Token;
use crate::tokens::TokenizationError;
use vstd::prelude::*;

verus! {

/// Wraps an arbitrary callback under the scanner capability. Nothing is
/// assumed about what the callback returns; the engine treats every
/// outcome as it would any scanner's.
pub struct ClosureScanner {
    cb: Box<dyn CallbackScanner>,
}

impl ClosureScanner {
    /// Wraps the given callback.
    pub fn new(cb: Box<dyn CallbackScanner>) -> ClosureScanner {
        ClosureScanner { cb }
    }

    /// Runs the callback on `input`; a claimed token is stamped with the
    /// given position.
    pub fn scan(&self, input: &str, line: usize, column: usize) -> (r: Result<
        Option<Token>,
        TokenizationError,
    >)
        ensures
            match r {
                Ok(Some(t)) => t@.line == line as int && t@.column == column as int,
                _ => true,
            },
    {
        match self.cb.scan(input) {
            Ok(Some(t)) => Ok(
                Some(
                    Token {
                        token_type: t.token_type,
                        token_sub_type: t.token_sub_type,
                        value: t.value,
                        line,
                        column,
                    },
                ),
            ),
            Ok(None) => Ok(None),
            Err(e) => Err(e),
        }
    }
}

impl Scanner for ClosureScanner {
    /// Runs the callback unchanged, positions included.
    fn scan(&self, input: &str) -> Result<Option<Token>, TokenizationError> {
        self.cb.scan(input)
    }
}

} // verus!
