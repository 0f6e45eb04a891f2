//! A scanner that claims the input when a regular expression matches at
//! its start.

use crate::scanners::scanner::AcceptStrategy;
use crate::scanners::scanner::Scanner;
use crate::tokens::Token;
use crate::tokens::TokenizationError;
use crate::tokens::token::TokenModel;
use vstd::prelude::*;
use vstd::string::StrSliceExecFns;

verus! {

/// What the regex engine answers when `pattern` is run against `text`:
/// the byte offset where the leftmost match begins and the matched text,
/// or `None` when the pattern is invalid or nothing matches.
///
/// The answer is a function of the pattern and the text alone.
pub uninterp spec fn regex_find(pattern: Seq<char>, text: Seq<char>) -> Option<(int, Seq<char>)>;

/// Relies on `regex::Regex::new` and `regex::Regex::find`: the regex
/// engine is deterministic in the pattern and the haystack, `find`
/// returns the leftmost match, and `Match::as_str` is the matched slice
/// of the haystack, so a match that begins at offset zero is a prefix of
/// the haystack. An invalid pattern and a failed search both answer
/// `None`.
#[verifier::external_body]
pub(crate) fn regex_find_first(pattern: &str, text: &str) -> (r: Option<(usize, String)>)
    ensures
        (match r {
            Some(p) => regex_find(pattern@, text@) == Some((p.0 as int, p.1@)),
            None => regex_find(pattern@, text@) is None,
        }),
        (match r {
            Some(p) => p.0 == 0 ==> p.1@.len() <= text@.len() && p.1@ == text@.subrange(
                0,
                p.1@.len() as int,
            ),
            None => true,
        }),
{
    match regex::Regex::new(pattern) {
        Ok(re) => match re.find(text) {
            Some(m) => Some((m.start(), m.as_str().to_string())),
            None => None,
        },
        Err(_) => None,
    }
}

/// The matched prefix when the pattern matches at the very start of
/// `text`; `None` when the pattern is invalid, does not match, or
/// matches first somewhere after the start.
pub open spec fn regex_prefix_match(pattern: Seq<char>, text: Seq<char>) -> Option<Seq<char>> {
    match regex_find(pattern, text) {
        Some(p) => if p.0 == 0 {
            Some(p.1)
        } else {
            None
        },
        None => None,
    }
}

/// Whether the regex engine accepts `pattern`; a property of the
/// pattern alone.
pub uninterp spec fn regex_valid(pattern: Seq<char>) -> bool;

/// Relies on `regex::Regex::new`: whether a pattern compiles depends on
/// the pattern text alone.
#[verifier::external_body]
pub(crate) fn regex_compile_ok(pattern: &str) -> (b: bool)
    ensures
        b == regex_valid(pattern@),
{
    regex::Regex::new(pattern).is_ok()
}

/// Matches a left-anchored compiled pattern against the start of the
/// input. The pattern text is kept as written; an invalid pattern never
/// matches, and a match of length zero is treated as no claim so that
/// the engine always moves forward.
pub struct RegexScanner {
    pub pattern: String,
    pub token_type: String,
    pub token_sub_type: Option<String>,
    pub accept_strategy: Option<AcceptStrategy>,
}

/// Whether a pattern scanner claims the start of `input`: the admission
/// test passes and the pattern matches a non-empty prefix. The regex
/// engine answers with a prefix of the input, so a match never exceeds
/// the input; the bound records that.
pub open spec fn regex_claims(
    pattern: Seq<char>,
    strategy_ok: bool,
    input: Seq<char>,
) -> bool {
    strategy_ok && (match regex_prefix_match(pattern, input) {
        Some(m) => 0 < m.len() <= input.len(),
        None => false,
    })
}

impl RegexScanner {
    /// Builds a scanner for one left-anchored pattern.
    pub fn new(pattern: &str, token_type: &str, token_sub_type: Option<&str>) -> (r: RegexScanner)
        ensures
            r.pattern@ == pattern@,
            r.token_type@ == token_type@,
            r.accept_strategy is None,
            match (token_sub_type, r.token_sub_type) {
                (Some(s), Some(t)) => t@ == s@,
                (None, None) => true,
                _ => false,
            },
    {
        RegexScanner {
            pattern: String::from_str(pattern),
            token_type: String::from_str(token_type),
            token_sub_type: match token_sub_type {
                Some(s) => Some(String::from_str(s)),
                None => None,
            },
            accept_strategy: None,
        }
    }

    /// Builds a scanner that first runs an admission test on the input.
    pub fn with_accept_strategy(
        pattern: &str,
        token_type: &str,
        token_sub_type: Option<&str>,
        accept_strategy: AcceptStrategy,
    ) -> (r: RegexScanner)
        ensures
            r.pattern@ == pattern@,
            r.token_type@ == token_type@,
            r.accept_strategy matches Some(st) && st@ == accept_strategy@,
            match (token_sub_type, r.token_sub_type) {
                (Some(s), Some(t)) => t@ == s@,
                (None, None) => true,
                _ => false,
            },
    {
        RegexScanner {
            pattern: String::from_str(pattern),
            token_type: String::from_str(token_type),
            token_sub_type: match token_sub_type {
                Some(s) => Some(String::from_str(s)),
                None => None,
            },
            accept_strategy: Some(accept_strategy),
        }
    }

    /// The admission test the scanner runs before the pattern; only
    /// consulted when the strategy is transparent.
    pub open spec fn strategy_admits(&self, input: Seq<char>) -> bool {
        match self.accept_strategy {
            Some(s) => crate::scanners::scanner::accepts_model(&s, input),
            None => true,
        }
    }

    /// Whether the admission test, if any, is one the contracts can
    /// speak about; a user-supplied callback is not.
    pub open spec fn strategy_transparent(&self) -> bool {
        match self.accept_strategy {
            Some(s) => !(s@ is Opaque),
            None => true,
        }
    }

    /// Claims the input iff the admission test passes and the pattern
    /// matches a non-empty prefix of it; the token value is the matched
    /// prefix. With a user-supplied admission callback, a claimed token
    /// is still exactly the matched prefix, but when the callback turns
    /// the input away nothing more is promised.
    pub fn scan(&self, input: &str, line: usize, column: usize) -> (r: Result<
        Option<Token>,
        TokenizationError,
    >)
        ensures
            r matches Ok(o) && (match o {
                Some(t) => (match regex_prefix_match(self.pattern@, input@) {
                    Some(m) => 0 < m.len() <= input@.len() && t@ == (TokenModel {
                        token_type: self.token_type@,
                        token_sub_type: match self.token_sub_type {
                            Some(s) => Some(s@),
                            None => None,
                        },
                        value: m,
                        line: line as int,
                        column: column as int,
                    }),
                    None => false,
                }),
                None => self.strategy_transparent() ==> !regex_claims(
                    self.pattern@,
                    self.strategy_admits(input@),
                    input@,
                ),
            }),
            self.strategy_transparent() ==> (r matches Ok(o) && (match o {
                Some(t) => regex_claims(self.pattern@, self.strategy_admits(input@), input@),
                None => true,
            })),
    {
        if let Some(strategy) = &self.accept_strategy {
            if !strategy.accepts(input) {
                return Ok(None);
            }
        }
        match regex_find_first(self.pattern.as_str(), input) {
            Some((start, m)) => {
                if start != 0 || m.as_str().unicode_len() == 0 {
                    return Ok(None);
                }
                Ok(
                    Some(
                        Token {
                            token_type: self.token_type.clone(),
                            token_sub_type: crate::tokens::token::clone_opt_string(
                                &self.token_sub_type,
                            ),
                            value: m,
                            line,
                            column,
                        },
                    ),
                )
            },
            None => Ok(None),
        }
    }
}

impl Scanner for RegexScanner {
    /// Scans without a position; the engine assigns positions itself.
    fn scan(&self, input: &str) -> Result<Option<Token>, TokenizationError> {
        RegexScanner::scan(self, input, 0, 0)
    }
}

} // verus!
