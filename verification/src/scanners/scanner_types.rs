//! The closed union over the scanner kinds that the engine drives.

use crate::scanners::block_scanner::BlockModel;
use crate::scanners::block_scanner::BlockScanner;
use crate::scanners::closure_scanner::ClosureScanner;
use crate::scanners::eol_scanner::EolScanner;
use crate::scanners::regex_scanner::RegexScanner;
use crate::scanners::scanner::Scanner;
use crate::scanners::scanner::StrategyModel;
use crate::tokens::Token;
use crate::tokens::TokenizationError;
use crate::tokens::error::ErrorModel;
use crate::tokens::token::TokenModel;
use vstd::prelude::*;
use vstd::string::StrSliceExecFns;

verus! {

/// A scanner a user supplies as an ordinary value with its own `scan`
/// logic; the engine assumes nothing about what it returns.
pub trait CallbackScanner {
    /// Examines the start of `input`; `Ok(None)` declines the input,
    /// `Ok(Some(token))` claims it, and `Err` reports a failure.
    fn scan(&self, input: &str) -> Result<Option<Token>, TokenizationError>;
}

/// One registered scanner of any supported kind.
pub enum ScannerType {
    Symbol(crate::scanners::symbol_scanner::SymbolScanner),
    Regex(RegexScanner),
    Block(BlockScanner),
    Eol(EolScanner),
    Closure(ClosureScanner),
    Scanner(Box<dyn Scanner>),
    Callback(Box<dyn CallbackScanner>),
}

/// The mathematical content of a registered scanner. The callback kinds
/// are opaque: nothing is known of what they answer.
pub ghost enum ScannerModel {
    Symbol { symbol: Seq<char>, token_type: Seq<char>, token_sub_type: Option<Seq<char>> },
    Regex {
        pattern: Seq<char>,
        token_type: Seq<char>,
        token_sub_type: Option<Seq<char>>,
        strategy: Option<StrategyModel>,
    },
    Block(BlockModel),
    Eol {
        delimiter: Seq<char>,
        token_type: Seq<char>,
        token_sub_type: Option<Seq<char>>,
        include_delimiter: bool,
    },
    Opaque,
}

impl View for ScannerType {
    type V = ScannerModel;

    open spec fn view(&self) -> ScannerModel {
        match self {
            ScannerType::Symbol(s) => ScannerModel::Symbol {
                symbol: s.symbol@,
                token_type: s.token_type@,
                token_sub_type: match s.token_sub_type {
                    Some(t) => Some(t@),
                    None => None,
                },
            },
            ScannerType::Regex(s) => ScannerModel::Regex {
                pattern: s.pattern@,
                token_type: s.token_type@,
                token_sub_type: match s.token_sub_type {
                    Some(t) => Some(t@),
                    None => None,
                },
                strategy: match s.accept_strategy {
                    Some(st) => Some(st@),
                    None => None,
                },
            },
            ScannerType::Block(s) => ScannerModel::Block(s@),
            ScannerType::Eol(s) => ScannerModel::Eol {
                delimiter: s.delimiter@,
                token_type: s.token_type@,
                token_sub_type: match s.token_sub_type {
                    Some(t) => Some(t@),
                    None => None,
                },
                include_delimiter: s.include_delimiter,
            },
            ScannerType::Closure(_) => ScannerModel::Opaque,
            ScannerType::Scanner(_) => ScannerModel::Opaque,
            ScannerType::Callback(_) => ScannerModel::Opaque,
        }
    }
}

/// What one scanner answers for the start of `input`.
pub ghost enum OutcomeModel {
    /// The scanner does not claim the input.
    Declined,
    /// The scanner claims `consumed` characters and emits this token,
    /// its position not yet assigned.
    Claimed { token: TokenModel, consumed: int },
    /// The scanner found a structural failure of its own grammar.
    Failed(ErrorModel),
}

/// What each concrete scanner kind answers on `input`; `None` for the
/// opaque callback kinds, of which nothing is known.
pub open spec fn scan_outcome(m: ScannerModel, input: Seq<char>) -> Option<OutcomeModel> {
    match m {
        ScannerModel::Symbol { symbol, token_type, token_sub_type } => Some(
            if crate::scanners::symbol_scanner::symbol_claims(symbol, input) {
                OutcomeModel::Claimed {
                    token: TokenModel {
                        token_type,
                        token_sub_type,
                        value: symbol,
                        line: 0,
                        column: 0,
                    },
                    consumed: symbol.len() as int,
                }
            } else {
                OutcomeModel::Declined
            },
        ),
        ScannerModel::Regex { pattern, token_type, token_sub_type, strategy } => {
            if strategy matches Some(StrategyModel::Opaque) {
                None
            } else {
                let ok = match strategy {
                    Some(sm) => crate::scanners::scanner::strategy_accepts(sm, input),
                    None => true,
                };
                Some(
                    if crate::scanners::regex_scanner::regex_claims(pattern, ok, input) {
                        let value = crate::scanners::regex_scanner::regex_prefix_match(
                            pattern,
                            input,
                        )->Some_0;
                        OutcomeModel::Claimed {
                            token: TokenModel {
                                token_type,
                                token_sub_type,
                                value,
                                line: 0,
                                column: 0,
                            },
                            consumed: value.len() as int,
                        }
                    } else {
                        OutcomeModel::Declined
                    },
                )
            }
        },
        ScannerModel::Block(bm) => Some(
            if !crate::scanners::block_scanner::block_claims(bm, input) {
                OutcomeModel::Declined
            } else {
                match crate::scanners::block_scanner::block_end(bm, input) {
                    Some(e) => OutcomeModel::Claimed {
                        token: TokenModel {
                            token_type: bm.token_type,
                            token_sub_type: bm.token_sub_type,
                            value: crate::scanners::block_scanner::transform_value(
                                bm,
                                crate::scanners::block_scanner::block_raw_value(bm, input, e),
                            ),
                            line: 0,
                            column: 0,
                        },
                        consumed: e,
                    },
                    None => OutcomeModel::Failed(ErrorModel::UnmatchedBlock(bm.start, bm.end)),
                }
            },
        ),
        ScannerModel::Eol { delimiter, token_type, token_sub_type, include_delimiter } => Some(
            if crate::scanners::eol_scanner::eol_claims(delimiter, input) {
                OutcomeModel::Claimed {
                    token: TokenModel {
                        token_type,
                        token_sub_type,
                        value: crate::scanners::eol_scanner::eol_value(
                            delimiter,
                            include_delimiter,
                            input,
                        ),
                        line: 0,
                        column: 0,
                    },
                    consumed: crate::scanners::eol_scanner::line_end(input),
                }
            } else {
                OutcomeModel::Declined
            },
        ),
        ScannerModel::Opaque => None,
    }
}

/// A claimed span always covers at least one character and never more
/// than the input.
pub proof fn lemma_scan_outcome_bounds(m: ScannerModel, input: Seq<char>)
    ensures
        match scan_outcome(m, input) {
            Some(OutcomeModel::Claimed { token, consumed }) => 1 <= consumed <= input.len(),
            _ => true,
        },
{
    match m {
        ScannerModel::Symbol { symbol, token_type, token_sub_type } => {},
        ScannerModel::Regex { pattern, token_type, token_sub_type, strategy } => {},
        ScannerModel::Block(bm) => {
            if crate::scanners::block_scanner::block_claims(bm, input) {
                crate::scanners::block_scanner::lemma_block_end_bounds(
                    bm,
                    input,
                    bm.start.len() as int,
                    1,
                );
            }
        },
        ScannerModel::Eol { delimiter, token_type, token_sub_type, include_delimiter } => {
            crate::scanners::eol_scanner::lemma_line_end_bounds(input);
        },
        ScannerModel::Opaque => {},
    }
}

/// Whether a scan result agrees with the outcome the model assigns,
/// the consumed span left aside.
pub open spec fn outcome_matches_result(
    out: OutcomeModel,
    r: Result<Option<Token>, TokenizationError>,
) -> bool {
    match out {
        OutcomeModel::Declined => r matches Ok(o) && o is None,
        OutcomeModel::Claimed { token, consumed } => r matches Ok(o) && (o matches Some(t) && t@
            == token),
        OutcomeModel::Failed(e) => r matches Err(er) && er@ == e,
    }
}

impl ScannerType {
    /// Asks the scanner of whatever kind about the start of `input`.
    /// For the concrete kinds the answer is exactly what `scan_outcome`
    /// assigns; a claimed token carries no position yet.
    pub fn scan(&self, input: &str) -> (r: Result<Option<Token>, TokenizationError>)
        ensures
            scan_outcome(self@, input@) matches Some(out) ==> outcome_matches_result(out, r),
    {
        match self {
            ScannerType::Symbol(s) => s.scan(input, 0, 0),
            ScannerType::Regex(s) => s.scan(input, 0, 0),
            ScannerType::Block(s) => BlockScanner::scan(s, input),
            ScannerType::Eol(s) => s.scan_at(input, 0, 0),
            ScannerType::Closure(s) => Scanner::scan(s, input),
            ScannerType::Scanner(s) => s.scan(input),
            ScannerType::Callback(s) => s.scan(input),
        }
    }

    /// Asks the scanner and reports, next to a claimed token, the full
    /// span the engine must advance by. For the concrete kinds both the
    /// token and the span are exactly what `scan_outcome` assigns; for a
    /// callback the span is the claimed value's length held to the input,
    /// and an empty claim counts as declined, so that a claimed span is
    /// always at least one character.
    pub(crate) fn scan_step(&self, input: &str) -> (r: Result<
        Option<(Token, usize)>,
        TokenizationError,
    >)
        ensures
            (match scan_outcome(self@, input@) {
                Some(out) => match out {
                    OutcomeModel::Declined => r matches Ok(o) && o is None,
                    OutcomeModel::Claimed { token, consumed } => r matches Ok(o) && (o matches
                        Some(p) && p.0@ == token && p.1 as int == consumed),
                    OutcomeModel::Failed(e) => r matches Err(er) && er@ == e,
                },
                None => true,
            }),
            match r {
                Ok(Some(p)) => 1 <= p.1 <= input@.len(),
                _ => true,
            },
    {
        proof {
            lemma_scan_outcome_bounds(self@, input@);
        }
        match self {
            ScannerType::Symbol(s) => {
                match s.scan(input, 0, 0) {
                    Ok(Some(t)) => {
                        let k = t.value.as_str().unicode_len();
                        Ok(Some((t, k)))
                    },
                    Ok(None) => Ok(None),
                    Err(e) => Err(e),
                }
            },
            ScannerType::Regex(s) => {
                match s.scan(input, 0, 0) {
                    Ok(Some(t)) => {
                        let k = t.value.as_str().unicode_len();
                        Ok(Some((t, k)))
                    },
                    Ok(None) => Ok(None),
                    Err(e) => Err(e),
                }
            },
            ScannerType::Block(s) => {
                match BlockScanner::scan(s, input) {
                    Ok(Some(t)) => {
                        match s.find_match_end(input) {
                            Ok(Some(e)) => Ok(Some((t, e))),
                            _ => {
                                proof {
                                    assert(false);
                                }
                                Ok(None)
                            },
                        }
                    },
                    Ok(None) => Ok(None),
                    Err(e) => Err(e),
                }
            },
            ScannerType::Eol(s) => {
                match s.scan_at(input, 0, 0) {
                    Ok(Some(t)) => {
                        let text = crate::text::to_chars(input);
                        let e = crate::scanners::eol_scanner::find_line_end_chars(&text);
                        Ok(Some((t, e)))
                    },
                    Ok(None) => Ok(None),
                    Err(e) => Err(e),
                }
            },
            ScannerType::Closure(s) => clamp_step(Scanner::scan(s, input), input),
            ScannerType::Scanner(s) => clamp_step(s.scan(input), input),
            ScannerType::Callback(s) => clamp_step(s.scan(input), input),
        }
    }
}

/// Holds a callback's claim to the input: the span is the value length
/// bounded by the input length, and an empty claim declines.
fn clamp_step(r: Result<Option<Token>, TokenizationError>, input: &str) -> (r2: Result<
    Option<(Token, usize)>,
    TokenizationError,
>)
    ensures
        match r2 {
            Ok(Some(p)) => 1 <= p.1 <= input@.len(),
            _ => true,
        },
{
    match r {
        Ok(Some(t)) => {
            let vlen = t.value.as_str().unicode_len();
            let ilen = input.unicode_len();
            let k: usize = if vlen > ilen {
                ilen
            } else {
                vlen
            };
            if k == 0 {
                Ok(None)
            } else {
                Ok(Some((t, k)))
            }
        },
        Ok(None) => Ok(None),
        Err(e) => Err(e),
    }
}

impl Scanner for ScannerType {
    /// Dispatches to the registered scanner's own `scan`.
    fn scan(&self, input: &str) -> Result<Option<Token>, TokenizationError> {
        ScannerType::scan(self, input)
    }
}

} // verus!
