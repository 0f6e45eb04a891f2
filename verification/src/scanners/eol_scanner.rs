//! A scanner for structures that run from a delimiter to the end of the
//! line, such as line comments and preprocessor directives.

use crate::scanners::scanner::Scanner;
use crate::tokens::Token;
use crate::tokens::TokenizationError;
use crate::tokens::token::TokenModel;
use vstd::prelude::*;

verus! {

/// Matches a delimiter at the start of the input and consumes through the
/// next newline, or to the end of the input when no newline remains.
///
/// An empty delimiter never matches.
pub struct EolScanner {
    pub delimiter: String,
    pub token_type: String,
    pub token_sub_type: Option<String>,
    pub include_delimiter: bool,
}

/// The first position after the newline that ends the matched line, or
/// the input length when no newline remains.
pub open spec fn line_end(input: Seq<char>) -> int {
    if exists|i: int| 0 <= i < input.len() && input[i] == '\n' {
        (choose|i: int|
            0 <= i < input.len() && input[i] == '\n' && (forall|j: int|
                0 <= j < i ==> input[j] != '\n')) + 1
    } else {
        input.len() as int
    }
}

/// Whether an end-of-line scanner claims the start of `input`.
pub open spec fn eol_claims(delim: Seq<char>, input: Seq<char>) -> bool {
    delim.len() > 0 && crate::text::matches_at(input, 0, delim)
}

/// The value carried by the token: the whole matched line, with the
/// delimiter stripped when it is not included. A delimiter that itself
/// holds a newline ends the line inside the delimiter; the value then
/// keeps the whole span rather than cut beyond the end of the line.
pub open spec fn eol_value(delim: Seq<char>, include_delimiter: bool, input: Seq<char>) -> Seq<
    char,
> {
    if include_delimiter || delim.len() > line_end(input) {
        input.subrange(0, line_end(input))
    } else {
        input.subrange(delim.len() as int, line_end(input))
    }
}

/// The matched line never runs past the input, and covers at least one
/// character whenever the input is not empty.
pub proof fn lemma_line_end_bounds(input: Seq<char>)
    ensures
        0 <= line_end(input) <= input.len(),
        input.len() > 0 ==> line_end(input) >= 1,
{
    if exists|i: int| 0 <= i < input.len() && input[i] == '\n' {
        let i0 = choose|i: int| 0 <= i < input.len() && input[i] == '\n';
        lemma_first_newline_exists(input, i0);
        let w = choose|i: int|
            0 <= i < input.len() && input[i] == '\n' && (forall|j: int|
                0 <= j < i ==> input[j] != '\n');
        assert(0 <= w < input.len());
    }
}

/// Among the positions holding a newline there is an earliest one.
proof fn lemma_first_newline_exists(input: Seq<char>, i: int)
    requires
        0 <= i < input.len(),
        input[i] == '\n',
    ensures
        exists|k: int|
            0 <= k < input.len() && input[k] == '\n' && (forall|j: int|
                0 <= j < k ==> input[j] != '\n'),
    decreases i,
{
    if forall|j: int| 0 <= j < i ==> input[j] != '\n' {
        assert(0 <= i < input.len() && input[i] == '\n' && (forall|j: int|
            0 <= j < i ==> input[j] != '\n'));
    } else {
        let j0 = choose|j: int| 0 <= j < i && input[j] == '\n';
        lemma_first_newline_exists(input, j0);
    }
}

/// Finds the position right after the first newline, or the input length.
pub(crate) fn find_line_end_chars(text: &Vec<char>) -> (r: usize)
    ensures
        r == line_end(text@),
        r <= text@.len(),
{
    let n = text.len();
    let mut i: usize = 0;
    while i < n
        invariant
            i <= n == text@.len(),
            forall|j: int| 0 <= j < i ==> text@[j] != '\n',
        decreases n - i,
    {
        if text[i] == '\n' {
            proof {
                let w = choose|k: int|
                    0 <= k < text@.len() && text@[k] == '\n' && (forall|j: int|
                        0 <= j < k ==> text@[j] != '\n');
                assert(text@[i as int] == '\n');
                assert(w == i);
            }
            return i + 1;
        }
        i = i + 1;
    }
    proof {
        assert(forall|k: int| 0 <= k < text@.len() ==> text@[k] != '\n');
    }
    n
}

impl EolScanner {
    /// Builds a scanner for one line-oriented delimiter.
    pub fn new(
        delimiter: &str,
        token_type: &str,
        token_sub_type: Option<&str>,
        include_delimiter: bool,
    ) -> (r: EolScanner)
        ensures
            r.delimiter@ == delimiter@,
            r.token_type@ == token_type@,
            r.include_delimiter == include_delimiter,
            match (token_sub_type, r.token_sub_type) {
                (Some(s), Some(t)) => t@ == s@,
                (None, None) => true,
                _ => false,
            },
    {
        EolScanner {
            delimiter: String::from_str(delimiter),
            token_type: String::from_str(token_type),
            token_sub_type: match token_sub_type {
                Some(s) => Some(String::from_str(s)),
                None => None,
            },
            include_delimiter,
        }
    }

    /// Returns whether the delimiter is included in the token value.
    pub fn includes_delimiter(&self) -> (r: bool)
        ensures
            r == self.include_delimiter,
    {
        self.include_delimiter
    }

    /// Returns the delimiter text.
    pub fn delimiter(&self) -> (r: &str)
        ensures
            r@ == self.delimiter@,
    {
        self.delimiter.as_str()
    }

    /// Claims the input iff it starts with the (non-empty) delimiter; the
    /// token carries the whole line, through the newline that ends it.
    /// The consumed span is always `line_end`, also when the delimiter is
    /// left out of the value.
    pub fn scan_at(&self, input: &str, line: usize, column: usize) -> (r: Result<
        Option<Token>,
        TokenizationError,
    >)
        ensures
            r matches Ok(o) && (match o {
                Some(t) => eol_claims(self.delimiter@, input@) && t@ == (TokenModel {
                    token_type: self.token_type@,
                    token_sub_type: match self.token_sub_type {
                        Some(s) => Some(s@),
                        None => None,
                    },
                    value: eol_value(self.delimiter@, self.include_delimiter, input@),
                    line: line as int,
                    column: column as int,
                }),
                None => !eol_claims(self.delimiter@, input@),
            }),
    {
        let text = crate::text::to_chars(input);
        let delim = crate::text::to_chars(self.delimiter.as_str());
        if delim.len() == 0 {
            return Ok(None);
        }
        if !crate::text::chars_match_at(&text, 0, &delim) {
            return Ok(None);
        }
        let end = find_line_end_chars(&text);
        let from: usize = if self.include_delimiter || delim.len() > end {
            0
        } else {
            delim.len()
        };
        let value = crate::text::chars_to_string(&text, from, end);
        Ok(
            Some(
                Token {
                    token_type: self.token_type.clone(),
                    token_sub_type: crate::tokens::token::clone_opt_string(&self.token_sub_type),
                    value,
                    line,
                    column,
                },
            ),
        )
    }
}

impl Scanner for EolScanner {
    /// Scans without a position; the engine assigns positions itself.
    fn scan(&self, input: &str) -> Result<Option<Token>, TokenizationError> {
        self.scan_at(input, 0, 0)
    }
}

} // verus!
