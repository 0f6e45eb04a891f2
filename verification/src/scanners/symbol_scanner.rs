//! A scanner that claims one fixed literal symbol.

use crate::scanners::scanner::Scanner;
use crate::tokens::Token;
use crate::tokens::TokenizationError;
use crate::tokens::token::TokenModel;
use vstd::prelude::*;

verus! {

/// Matches a fixed literal at the start of the input.
///
/// Two deliberate policies: an empty symbol never matches, and a symbol
/// whose last character is a word character (ASCII letter, digit or
/// underscore) is not claimed when the input continues with another word
/// character, so `if` does not claim the start of `iffy`.
pub struct SymbolScanner {
    pub symbol: String,
    pub token_type: String,
    pub token_sub_type: Option<String>,
}

/// An ASCII letter, digit or underscore: the characters that bind a
/// word-like symbol to the text that follows it.
pub open spec fn char_is_word(c: char) -> bool {
    ||| ('a' <= c && c <= 'z')
    ||| ('A' <= c && c <= 'Z')
    ||| ('0' <= c && c <= '9')
    ||| c == '_'
}

/// Decides word characters exactly as `char_is_word` describes them.
pub fn is_word_char(c: char) -> (b: bool)
    ensures
        b == char_is_word(c),
{
    ('a' <= c && c <= 'z') || ('A' <= c && c <= 'Z') || ('0' <= c && c <= '9') || c == '_'
}

/// Whether a symbol claims the start of `input`: a literal prefix match,
/// except that an empty symbol never matches and a word-like symbol must
/// end at a word boundary.
pub open spec fn symbol_claims(sym: Seq<char>, input: Seq<char>) -> bool {
    &&& sym.len() > 0
    &&& crate::text::matches_at(input, 0, sym)
    &&& !(char_is_word(sym[sym.len() - 1]) && sym.len() < input.len() && char_is_word(
        input[sym.len() as int],
    ))
}

/// The token a symbol scanner produces on the input it claims.
pub open spec fn symbol_token_model(
    sym: Seq<char>,
    token_type: Seq<char>,
    token_sub_type: Option<Seq<char>>,
    line: int,
    column: int,
) -> TokenModel {
    TokenModel { token_type, token_sub_type, value: sym, line, column }
}

impl SymbolScanner {
    /// Builds a scanner for one literal symbol.
    pub fn new(symbol: &str, token_type: &str, token_sub_type: Option<&str>) -> (r: SymbolScanner)
        ensures
            r.symbol@ == symbol@,
            r.token_type@ == token_type@,
            match (token_sub_type, r.token_sub_type) {
                (Some(s), Some(t)) => t@ == s@,
                (None, None) => true,
                _ => false,
            },
    {
        SymbolScanner {
            symbol: String::from_str(symbol),
            token_type: String::from_str(token_type),
            token_sub_type: match token_sub_type {
                Some(s) => Some(String::from_str(s)),
                None => None,
            },
        }
    }

    /// Claims the input iff `symbol_claims` holds, producing the symbol
    /// itself as the token value at the given position.
    pub fn scan(&self, input: &str, line: usize, column: usize) -> (r: Result<
        Option<Token>,
        TokenizationError,
    >)
        ensures
            r matches Ok(o) && (match o {
                Some(t) => symbol_claims(self.symbol@, input@) && t@ == symbol_token_model(
                    self.symbol@,
                    self.token_type@,
                    match self.token_sub_type {
                        Some(s) => Some(s@),
                        None => None,
                    },
                    line as int,
                    column as int,
                ),
                None => !symbol_claims(self.symbol@, input@),
            }),
    {
        let text = crate::text::to_chars(input);
        let sym = crate::text::to_chars(self.symbol.as_str());
        if sym.len() == 0 {
            return Ok(None);
        }
        if !crate::text::chars_match_at(&text, 0, &sym) {
            return Ok(None);
        }
        if is_word_char(sym[sym.len() - 1]) && sym.len() < text.len() && is_word_char(
            text[sym.len()],
        ) {
            return Ok(None);
        }
        Ok(
            Some(
                Token {
                    token_type: self.token_type.clone(),
                    token_sub_type: crate::tokens::token::clone_opt_string(&self.token_sub_type),
                    value: self.symbol.clone(),
                    line,
                    column,
                },
            ),
        )
    }
}

impl Scanner for SymbolScanner {
    /// Scans without a position; the engine assigns positions itself.
    fn scan(&self, input: &str) -> Result<Option<Token>, TokenizationError> {
        SymbolScanner::scan(self, input, 0, 0)
    }
}

} // verus!
