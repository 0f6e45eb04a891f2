//! The value type produced by every scanner.

use vstd::prelude::*;

verus! {

/// `Token` represents one classified span of the input.
///
/// Positions are 1-based and counted in characters; `line` and `column`
/// are both 0 when no position has been assigned yet.
#[derive(Debug)]
pub struct Token {
    /// The type of the token, such as `Identifier` or `Number`.
    pub token_type: String,
    /// An optional finer category, such as `Newline` for whitespace.
    pub token_sub_type: Option<String>,
    /// The text carried by the token; after escape transformation it may
    /// differ from the raw matched span.
    pub value: String,
    /// 1-based line of the first matched character.
    pub line: usize,
    /// 1-based column of the first matched character.
    pub column: usize,
}

/// The mathematical content of a `Token`.
pub ghost struct TokenModel {
    pub token_type: Seq<char>,
    pub token_sub_type: Option<Seq<char>>,
    pub value: Seq<char>,
    pub line: int,
    pub column: int,
}

impl View for Token {
    type V = TokenModel;

    open spec fn view(&self) -> TokenModel {
        TokenModel {
            token_type: self.token_type@,
            token_sub_type: match self.token_sub_type {
                Some(s) => Some(s@),
                None => None,
            },
            value: self.value@,
            line: self.line as int,
            column: self.column as int,
        }
    }
}

impl Clone for Token {
    /// A clone carries exactly the same content.
    fn clone(&self) -> (r: Token)
        ensures
            r@ == self@,
    {
        Token {
            token_type: self.token_type.clone(),
            token_sub_type: clone_opt_string(&self.token_sub_type),
            value: self.value.clone(),
            line: self.line,
            column: self.column,
        }
    }
}

impl PartialEq for Token {
    fn eq(&self, other: &Token) -> (r: bool) {
        self.token_type.eq(&other.token_type)
            && opt_string_eq(&self.token_sub_type, &other.token_sub_type)
            && self.value.eq(&other.value) && self.line == other.line
            && self.column == other.column
    }
}

impl vstd::std_specs::cmp::PartialEqSpecImpl for Token {
    open spec fn obeys_eq_spec() -> bool {
        true
    }

    open spec fn eq_spec(&self, other: &Token) -> bool {
        self@ == other@
    }
}

/// Duplicates an optional string, keeping its content.
pub fn clone_opt_string(s: &Option<String>) -> (r: Option<String>)
    ensures
        match (s, &r) {
            (Some(a), Some(b)) => a@ == b@,
            (None, None) => true,
            _ => false,
        },
{
    match s {
        Some(v) => Some(v.clone()),
        None => None,
    }
}

/// Whether two optional strings hold the same content.
pub fn opt_string_eq(a: &Option<String>, b: &Option<String>) -> (r: bool)
    ensures
        r == (match (a, b) {
            (Some(x), Some(y)) => x@ == y@,
            (None, None) => true,
            _ => false,
        }),
{
    match (a, b) {
        (Some(x), Some(y)) => x.eq(y),
        (None, None) => true,
        _ => false,
    }
}

} // verus!
