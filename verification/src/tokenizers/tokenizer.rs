//! The tokenization engine: an ordered collection of scanners, a
//! configuration, and the driving loop that arbitrates between them.

use crate::scanners::scanner::Scanner;
use crate::scanners::scanner_types::CallbackScanner;
use crate::scanners::scanner_types::OutcomeModel;
use crate::scanners::scanner_types::ScannerModel;
use crate::scanners::scanner_types::ScannerType;
use crate::scanners::scanner_types::scan_outcome;
use crate::text::advance_position;
use crate::text::char_is_ws;
use crate::text::dec_digits;
use crate::tokens::Token;
use crate::tokens::TokenizationError;
use crate::tokens::error::ErrorModel;
use crate::tokens::token::TokenModel;
use vstd::prelude::*;

verus! {

/// The engine's configuration, a plain value.
#[derive(Debug, Clone, Copy)]
pub struct TokenizerConfig {
    /// Whether runs of whitespace become tokens of their own.
    pub tokenize_whitespace: bool,
    /// Whether the engine keeps scanning past recoverable errors.
    pub continue_on_error: bool,
    /// The hard ceiling on accumulated errors per call; reaching it
    /// always aborts the call, whatever the recovery policy.
    pub error_tolerance_limit: usize,
    /// Whether emitted tokens carry the engine's tracked position.
    pub track_token_positions: bool,
}

/// The configuration a fresh engine starts with.
pub open spec fn default_config() -> TokenizerConfig {
    TokenizerConfig {
        tokenize_whitespace: false,
        continue_on_error: true,
        error_tolerance_limit: 10usize,
        track_token_positions: true,
    }
}

impl Default for TokenizerConfig {
    /// Whitespace is skipped silently, recoverable errors are tolerated,
    /// at most ten errors accumulate, and positions are tracked.
    fn default() -> (r: TokenizerConfig)
        ensures
            r == default_config(),
    {
        TokenizerConfig {
            tokenize_whitespace: false,
            continue_on_error: true,
            error_tolerance_limit: 10,
            track_token_positions: true,
        }
    }
}

/// The engine's walk state: the next position, the 1-based position
/// counters, and what has accumulated so far.
pub ghost struct RunState {
    pub pos: int,
    pub line: int,
    pub column: int,
    pub tokens: Seq<TokenModel>,
    pub errors: Seq<ErrorModel>,
}

/// Where a tokenization call starts.
pub open spec fn init_state() -> RunState {
    RunState { pos: 0, line: 1, column: 1, tokens: Seq::empty(), errors: Seq::empty() }
}

/// What a tokenization call produces: the tokens and errors collected,
/// and whether the walk was cut short by policy.
pub ghost struct RunResult {
    pub tokens: Seq<TokenModel>,
    pub errors: Seq<ErrorModel>,
    pub aborted: bool,
}

/// Whether one scanner is wholly of a concrete kind: not a callback,
/// and not carrying a user-supplied admission test.
pub open spec fn concrete_model(m: ScannerModel) -> bool {
    match m {
        ScannerModel::Opaque => false,
        ScannerModel::Regex { pattern, token_type, token_sub_type, strategy } => !(strategy
            matches Some(crate::scanners::scanner::StrategyModel::Opaque)),
        _ => true,
    }
}

/// Whether every registered scanner is of a concrete kind, so that the
/// whole run is a function of the scanners, the configuration and the
/// input.
pub open spec fn all_concrete(ms: Seq<ScannerModel>) -> bool {
    forall|i: int| 0 <= i < ms.len() ==> concrete_model(#[trigger] ms[i])
}

/// What the first scanner, in registration order, decides about the
/// start of `suffix`: the first non-declining outcome wins, and no
/// scanner claiming it is a declination. `None` when an opaque scanner
/// is consulted before a decision is reached.
pub open spec fn first_action(ms: Seq<ScannerModel>, suffix: Seq<char>) -> Option<OutcomeModel>
    decreases ms.len(),
{
    if ms.len() == 0 {
        Some(OutcomeModel::Declined)
    } else {
        match scan_outcome(ms[0], suffix) {
            None => None,
            Some(OutcomeModel::Declined) => first_action(ms.drop_first(), suffix),
            Some(out) => Some(out),
        }
    }
}

/// Skipping scanners that declined leaves the decision unchanged.
pub proof fn lemma_first_action_skip(ms: Seq<ScannerModel>, suffix: Seq<char>, i: int)
    requires
        0 <= i <= ms.len(),
        forall|j: int|
            0 <= j < i ==> scan_outcome(#[trigger] ms[j], suffix) == Some(OutcomeModel::Declined),
    ensures
        first_action(ms, suffix) == first_action(ms.skip(i), suffix),
    decreases i,
{
    if i > 0 {
        lemma_first_action_skip(ms.drop_first(), suffix, i - 1);
        assert(ms.drop_first().skip(i - 1) =~= ms.skip(i));
    } else {
        assert(ms.skip(0) =~= ms);
    }
}

/// The length of the maximal whitespace run starting at `pos`.
pub open spec fn ws_run_len(input: Seq<char>, pos: int) -> int
    decreases input.len() - pos,
{
    if pos < 0 || pos >= input.len() || !char_is_ws(input[pos]) {
        0
    } else {
        1 + ws_run_len(input, pos + 1)
    }
}

/// A whitespace run stays inside the input.
pub proof fn lemma_ws_run_len_bounds(input: Seq<char>, pos: int)
    requires
        0 <= pos <= input.len(),
    ensures
        0 <= ws_run_len(input, pos),
        pos + ws_run_len(input, pos) <= input.len(),
    decreases input.len() - pos,
{
    if pos < input.len() && char_is_ws(input[pos]) {
        lemma_ws_run_len_bounds(input, pos + 1);
    }
}

/// The token emitted for a whitespace run: type `Whitespace`, subtype
/// `Newline` iff the run holds a newline, and the position where the
/// run began.
pub open spec fn ws_token_model(span: Seq<char>, line: int, column: int) -> TokenModel {
    TokenModel {
        token_type: "Whitespace"@,
        token_sub_type: if span.contains('\n') {
            Some("Newline"@)
        } else {
            None
        },
        value: span,
        line,
        column,
    }
}

/// The message reported for an unrecognised character.
pub open spec fn unrecognized_message(line: int, column: int, c: char) -> Seq<char> {
    "Unrecognized token at line "@ + dec_digits(line) + ", column "@ + dec_digits(column) + ": '"@
        + seq![c] + "'"@
}

/// One engine walk, from `st` to the end of the input or an aborting
/// policy decision.
///
/// At each position the scanners are consulted in order. A claim emits
/// its token — stamped with the tracked position when tracking is on —
/// and advances by the claimed span. A failure is recorded; reaching the
/// error ceiling aborts, and otherwise strict mode aborts while tolerant
/// mode skips one character. When no scanner claims, a whitespace run is
/// consumed whole (emitted as one token if configured), and any other
/// character is recorded as unrecognised under the same policy as a
/// failure.
pub open spec fn engine_run(
    ms: Seq<ScannerModel>,
    cfg: TokenizerConfig,
    input: Seq<char>,
    st: RunState,
) -> RunResult
    decreases input.len() - st.pos,
    via engine_run_dec
{
    if st.pos < 0 || st.pos >= input.len() {
        RunResult { tokens: st.tokens, errors: st.errors, aborted: false }
    } else {
        let suffix = input.skip(st.pos);
        match first_action(ms, suffix) {
            None => RunResult { tokens: st.tokens, errors: st.errors, aborted: false },
            Some(OutcomeModel::Claimed { token, consumed }) => {
                let k = if 1 <= consumed <= suffix.len() {
                    consumed
                } else {
                    1
                };
                let span = input.subrange(st.pos, st.pos + k);
                let tok = if cfg.track_token_positions {
                    TokenModel { line: st.line, column: st.column, ..token }
                } else {
                    token
                };
                let lc = advance_position(st.line, st.column, span);
                engine_run(
                    ms,
                    cfg,
                    input,
                    RunState {
                        pos: st.pos + k,
                        line: lc.0,
                        column: lc.1,
                        tokens: st.tokens.push(tok),
                        errors: st.errors,
                    },
                )
            },
            Some(OutcomeModel::Failed(e)) => {
                let errors = st.errors.push(e);
                if errors.len() >= cfg.error_tolerance_limit {
                    RunResult { tokens: st.tokens, errors, aborted: true }
                } else if cfg.continue_on_error {
                    let span = input.subrange(st.pos, st.pos + 1);
                    let lc = advance_position(st.line, st.column, span);
                    engine_run(
                        ms,
                        cfg,
                        input,
                        RunState {
                            pos: st.pos + 1,
                            line: lc.0,
                            column: lc.1,
                            tokens: st.tokens,
                            errors,
                        },
                    )
                } else {
                    RunResult { tokens: st.tokens, errors, aborted: true }
                }
            },
            Some(OutcomeModel::Declined) => {
                if char_is_ws(input[st.pos]) {
                    let w = ws_run_len(input, st.pos);
                    let span = input.subrange(st.pos, st.pos + w);
                    let tokens = if cfg.tokenize_whitespace {
                        st.tokens.push(ws_token_model(span, st.line, st.column))
                    } else {
                        st.tokens
                    };
                    let lc = advance_position(st.line, st.column, span);
                    engine_run(
                        ms,
                        cfg,
                        input,
                        RunState {
                            pos: st.pos + w,
                            line: lc.0,
                            column: lc.1,
                            tokens,
                            errors: st.errors,
                        },
                    )
                } else {
                    let e = ErrorModel::Unrecognized(
                        unrecognized_message(st.line, st.column, input[st.pos]),
                    );
                    let errors = st.errors.push(e);
                    if errors.len() >= cfg.error_tolerance_limit {
                        RunResult { tokens: st.tokens, errors, aborted: true }
                    } else if cfg.continue_on_error {
                        let span = input.subrange(st.pos, st.pos + 1);
                        let lc = advance_position(st.line, st.column, span);
                        engine_run(
                            ms,
                            cfg,
                            input,
                            RunState {
                                pos: st.pos + 1,
                                line: lc.0,
                                column: lc.1,
                                tokens: st.tokens,
                                errors,
                            },
                        )
                    } else {
                        RunResult { tokens: st.tokens, errors, aborted: true }
                    }
                }
            },
        }
    }
}

#[via_fn]
proof fn engine_run_dec(ms: Seq<ScannerModel>, cfg: TokenizerConfig, input: Seq<char>, st: RunState) {
    if 0 <= st.pos < input.len() {
        lemma_ws_run_len_bounds(input, st.pos);
        lemma_ws_run_len_bounds(input, st.pos + 1);
    }
}

/// One walk step on a claim: the walk from the state before equals the
/// walk from the state after the token is taken and the span consumed.
proof fn lemma_engine_step_claim(
    ms: Seq<ScannerModel>,
    cfg: TokenizerConfig,
    input: Seq<char>,
    st0: RunState,
    st1: RunState,
    token: TokenModel,
    k: int,
)
    requires
        0 <= st0.pos < input.len(),
        first_action(ms, input.skip(st0.pos)) == Some(OutcomeModel::Claimed { token, consumed: k }),
        1 <= k <= input.len() - st0.pos,
        st1.pos == st0.pos + k,
        (st1.line, st1.column) == advance_position(
            st0.line,
            st0.column,
            input.subrange(st0.pos, st0.pos + k),
        ),
        st1.tokens == st0.tokens.push(
            if cfg.track_token_positions {
                TokenModel { line: st0.line, column: st0.column, ..token }
            } else {
                token
            },
        ),
        st1.errors == st0.errors,
    ensures
        engine_run(ms, cfg, input, st0) == engine_run(ms, cfg, input, st1),
{
}

/// One walk step past a recorded error in tolerant mode, below the
/// ceiling: one character is skipped.
proof fn lemma_engine_step_skip(
    ms: Seq<ScannerModel>,
    cfg: TokenizerConfig,
    input: Seq<char>,
    st0: RunState,
    st1: RunState,
    e: ErrorModel,
)
    requires
        0 <= st0.pos < input.len(),
        first_action(ms, input.skip(st0.pos)) == Some(OutcomeModel::Failed(e)) || (first_action(
            ms,
            input.skip(st0.pos),
        ) == Some(OutcomeModel::Declined) && !char_is_ws(input[st0.pos]) && e
            == ErrorModel::Unrecognized(
            unrecognized_message(st0.line, st0.column, input[st0.pos]),
        )),
        st0.errors.push(e).len() < cfg.error_tolerance_limit,
        cfg.continue_on_error,
        st1.pos == st0.pos + 1,
        (st1.line, st1.column) == advance_position(
            st0.line,
            st0.column,
            input.subrange(st0.pos, st0.pos + 1),
        ),
        st1.tokens == st0.tokens,
        st1.errors == st0.errors.push(e),
    ensures
        engine_run(ms, cfg, input, st0) == engine_run(ms, cfg, input, st1),
{
}

/// A recorded error that reaches the ceiling, or any error in strict
/// mode, ends the walk at once.
proof fn lemma_engine_abort(
    ms: Seq<ScannerModel>,
    cfg: TokenizerConfig,
    input: Seq<char>,
    st0: RunState,
    e: ErrorModel,
)
    requires
        0 <= st0.pos < input.len(),
        first_action(ms, input.skip(st0.pos)) == Some(OutcomeModel::Failed(e)) || (first_action(
            ms,
            input.skip(st0.pos),
        ) == Some(OutcomeModel::Declined) && !char_is_ws(input[st0.pos]) && e
            == ErrorModel::Unrecognized(
            unrecognized_message(st0.line, st0.column, input[st0.pos]),
        )),
        st0.errors.push(e).len() >= cfg.error_tolerance_limit || !cfg.continue_on_error,
    ensures
        engine_run(ms, cfg, input, st0) == (RunResult {
            tokens: st0.tokens,
            errors: st0.errors.push(e),
            aborted: true,
        }),
{
}

/// One walk step over a whitespace run: the maximal run is consumed
/// whole, emitted as one token only when configured.
proof fn lemma_engine_step_ws(
    ms: Seq<ScannerModel>,
    cfg: TokenizerConfig,
    input: Seq<char>,
    st0: RunState,
    st1: RunState,
)
    requires
        0 <= st0.pos < input.len(),
        first_action(ms, input.skip(st0.pos)) == Some(OutcomeModel::Declined),
        char_is_ws(input[st0.pos]),
        st1.pos == st0.pos + ws_run_len(input, st0.pos),
        (st1.line, st1.column) == advance_position(
            st0.line,
            st0.column,
            input.subrange(st0.pos, st0.pos + ws_run_len(input, st0.pos)),
        ),
        st1.tokens == (if cfg.tokenize_whitespace {
            st0.tokens.push(
                ws_token_model(
                    input.subrange(st0.pos, st0.pos + ws_run_len(input, st0.pos)),
                    st0.line,
                    st0.column,
                ),
            )
        } else {
            st0.tokens
        }),
        st1.errors == st0.errors,
    ensures
        engine_run(ms, cfg, input, st0) == engine_run(ms, cfg, input, st1),
{
}

/// The tokens of an executable sequence, as their models.
pub open spec fn toks_model(v: Seq<Token>) -> Seq<TokenModel> {
    v.map_values(|t: Token| t@)
}

/// The errors of an executable sequence, as their models.
pub open spec fn errs_model(v: Seq<TokenizationError>) -> Seq<ErrorModel> {
    v.map_values(|e: TokenizationError| e@)
}

/// How a finished walk maps to what `tokenize` returns and stores: an
/// aborted walk, and any error under the strict policy, yield `Err` with
/// every collected error; otherwise the tokens are returned, and the
/// diagnostic slot holds the collected errors, or `None` after a clean
/// run.
pub open spec fn run_maps_to(
    res: RunResult,
    cfg: TokenizerConfig,
    r: Result<Vec<Token>, Vec<TokenizationError>>,
    last: Option<Vec<TokenizationError>>,
) -> bool {
    if res.aborted || (!cfg.continue_on_error && res.errors.len() > 0) {
        &&& r matches Err(errs) && errs_model(errs@) == res.errors
        &&& last matches Some(v) && errs_model(v@) == res.errors
    } else if res.errors.len() == 0 {
        &&& r matches Ok(toks) && toks_model(toks@) == res.tokens
        &&& last is None
    } else {
        &&& r matches Ok(toks) && toks_model(toks@) == res.tokens
        &&& last matches Some(v) && errs_model(v@) == res.errors
    }
}

/// The engine: an ordered collection of scanners and a configuration.
/// The diagnostic slot holds the errors of the most recent `tokenize`
/// call, cleared again by the next clean run.
pub struct Tokenizer {
    pub scanners: Vec<ScannerType>,
    pub config: TokenizerConfig,
    pub last_errors: Option<Vec<TokenizationError>>,
}

/// The models of the registered scanners, in priority order.
pub open spec fn scanner_models(v: Seq<ScannerType>) -> Seq<ScannerModel> {
    v.map_values(|s: ScannerType| s@)
}

impl Tokenizer {
    /// An engine with no scanners and the default configuration.
    pub fn new() -> (r: Tokenizer)
        ensures
            r.scanners@.len() == 0,
            r.config == default_config(),
            r.last_errors is None,
    {
        Tokenizer {
            scanners: Vec::new(),
            config: TokenizerConfig::default(),
            last_errors: None,
        }
    }

    /// An engine with no scanners and the given configuration.
    pub fn with_config(config: TokenizerConfig) -> (r: Tokenizer)
        ensures
            r.scanners@.len() == 0,
            r.config == config,
            r.last_errors is None,
    {
        Tokenizer { scanners: Vec::new(), config, last_errors: None }
    }

    /// Reads the configuration.
    pub fn config(&self) -> (r: &TokenizerConfig)
        ensures
            r == self.config,
    {
        &self.config
    }

    /// Opens the configuration for changes.
    pub fn config_mut(&mut self) -> (r: &mut TokenizerConfig)
        ensures
            *final(self) == (Tokenizer { config: *final(r), ..*old(self) }),
    {
        &mut self.config
    }

    /// The errors of the most recent `tokenize` call, or `None` after a
    /// clean run.
    pub fn last_errors(&self) -> (r: Option<Vec<TokenizationError>>)
        ensures
            match (&r, &self.last_errors) {
                (Some(a), Some(b)) => errs_model(a@) == errs_model(b@),
                (None, None) => true,
                _ => false,
            },
    {
        match &self.last_errors {
            Some(v) => Some(clone_errors(v)),
            None => None,
        }
    }

    /// Registers a scanner behind those already present.
    pub fn add_scanner(&mut self, scanner: Box<dyn Scanner>)
        ensures
            scanner_models(final(self).scanners@) == scanner_models(old(self).scanners@).push(
                ScannerModel::Opaque,
            ),
            final(self).config == old(self).config,
            final(self).last_errors == old(self).last_errors,
    {
        let entry = ScannerType::Scanner(scanner);
        proof {
            assert(entry@ == ScannerModel::Opaque);
        }
        push_entry(&mut self.scanners, entry);
        proof {
            lemma_scanner_models_push(old(self).scanners@, entry);
        }
    }

    /// Registers a scanner at the given priority: the lower the index,
    /// the earlier it is consulted; an index past the end appends. The
    /// scanners already registered keep their relative order.
    pub fn add_scanner_with_priority(&mut self, scanner: Box<dyn Scanner>, priority: usize)
        ensures
            scanner_models(final(self).scanners@) == scanner_models(old(self).scanners@).insert(
                if priority < old(self).scanners@.len() {
                    priority as int
                } else {
                    old(self).scanners@.len() as int
                },
                ScannerModel::Opaque,
            ),
            final(self).config == old(self).config,
            final(self).last_errors == old(self).last_errors,
    {
        let entry = ScannerType::Scanner(scanner);
        proof {
            assert(entry@ == ScannerModel::Opaque);
        }
        if priority >= self.scanners.len() {
            push_entry(&mut self.scanners, entry);
            proof {
                lemma_scanner_models_push(old(self).scanners@, entry);
                assert(scanner_models(old(self).scanners@).push(ScannerModel::Opaque)
                    =~= scanner_models(old(self).scanners@).insert(
                    old(self).scanners@.len() as int,
                    ScannerModel::Opaque,
                ));
            }
        } else {
            insert_entry(&mut self.scanners, priority, entry);
            proof {
                lemma_scanner_models_insert(old(self).scanners@, priority as int, entry);
            }
        }
    }

    /// Registers a pattern scanner behind those already present.
    pub fn add_regex_scanner(
        &mut self,
        pattern: &str,
        token_type: &str,
        sub_token_type: Option<&str>,
    )
        ensures
            scanner_models(final(self).scanners@) == scanner_models(old(self).scanners@).push(
                ScannerModel::Regex {
                    pattern: pattern@,
                    token_type: token_type@,
                    token_sub_type: match sub_token_type {
                        Some(s) => Some(s@),
                        None => None,
                    },
                    strategy: None,
                },
            ),
            final(self).config == old(self).config,
            final(self).last_errors == old(self).last_errors,
    {
        let s = crate::scanners::regex_scanner::RegexScanner::new(
            pattern,
            token_type,
            sub_token_type,
        );
        self.scanners.push(ScannerType::Regex(s));
        proof {
            assert(scanner_models(self.scanners@) =~= scanner_models(old(self).scanners@).push(
                ScannerModel::Regex {
                    pattern: pattern@,
                    token_type: token_type@,
                    token_sub_type: match sub_token_type {
                        Some(s) => Some(s@),
                        None => None,
                    },
                    strategy: None,
                },
            ));
        }
    }

    /// Registers a fixed-symbol scanner behind those already present.
    pub fn add_symbol_scanner(
        &mut self,
        symbol: &str,
        token_type: &str,
        token_sub_type: Option<&str>,
    )
        ensures
            scanner_models(final(self).scanners@) == scanner_models(old(self).scanners@).push(
                ScannerModel::Symbol {
                    symbol: symbol@,
                    token_type: token_type@,
                    token_sub_type: match token_sub_type {
                        Some(s) => Some(s@),
                        None => None,
                    },
                },
            ),
            final(self).config == old(self).config,
            final(self).last_errors == old(self).last_errors,
    {
        let s = crate::scanners::symbol_scanner::SymbolScanner::new(
            symbol,
            token_type,
            token_sub_type,
        );
        self.scanners.push(ScannerType::Symbol(s));
        proof {
            assert(scanner_models(self.scanners@) =~= scanner_models(old(self).scanners@).push(
                ScannerModel::Symbol {
                    symbol: symbol@,
                    token_type: token_type@,
                    token_sub_type: match token_sub_type {
                        Some(s) => Some(s@),
                        None => None,
                    },
                },
            ));
        }
    }

    /// Registers a callback behind the scanners already present.
    pub fn add_closure_scanner(&mut self, cb: Box<dyn CallbackScanner>)
        ensures
            scanner_models(final(self).scanners@) == scanner_models(old(self).scanners@).push(
                ScannerModel::Opaque,
            ),
            final(self).config == old(self).config,
            final(self).last_errors == old(self).last_errors,
    {
        let entry = ScannerType::Closure(crate::scanners::closure_scanner::ClosureScanner::new(cb));
        proof {
            assert(entry@ == ScannerModel::Opaque);
        }
        push_entry(&mut self.scanners, entry);
        proof {
            lemma_scanner_models_push(old(self).scanners@, entry);
        }
    }

    /// Registers a callback scanner behind those already present.
    pub fn add_callback_scanner(&mut self, cb: Box<dyn CallbackScanner>)
        ensures
            scanner_models(final(self).scanners@) == scanner_models(old(self).scanners@).push(
                ScannerModel::Opaque,
            ),
            final(self).config == old(self).config,
            final(self).last_errors == old(self).last_errors,
    {
        let entry = ScannerType::Callback(cb);
        proof {
            assert(entry@ == ScannerModel::Opaque);
        }
        push_entry(&mut self.scanners, entry);
        proof {
            lemma_scanner_models_push(old(self).scanners@, entry);
        }
    }

    /// Registers a block scanner behind those already present.
    pub fn add_block_scanner(
        &mut self,
        start_delimiter: &str,
        end_delimiter: &str,
        token_type: &str,
        token_sub_type: Option<&str>,
        allow_nesting: bool,
        raw_mode: bool,
        include_delimiters: bool,
    )
        ensures
            scanner_models(final(self).scanners@) == scanner_models(old(self).scanners@).push(
                ScannerModel::Block(
                    crate::scanners::block_scanner::BlockModel {
                        start: start_delimiter@,
                        end: end_delimiter@,
                        token_type: token_type@,
                        token_sub_type: match token_sub_type {
                            Some(s) => Some(s@),
                            None => None,
                        },
                        allow_nesting,
                        raw_mode,
                        include_delimiters,
                        rules: Seq::empty(),
                        map: Seq::empty(),
                        transform: false,
                    },
                ),
            ),
            final(self).config == old(self).config,
            final(self).last_errors == old(self).last_errors,
    {
        let s = crate::scanners::block_scanner::BlockScanner::new(
            start_delimiter,
            end_delimiter,
            token_type,
            token_sub_type,
            allow_nesting,
            raw_mode,
            include_delimiters,
        );
        let ghost sm = s@;
        self.scanners.push(ScannerType::Block(s));
        proof {
            assert(scanner_models(self.scanners@) =~= scanner_models(old(self).scanners@).push(
                ScannerModel::Block(sm),
            ));
        }
    }

    /// Registers an end-of-line scanner behind those already present.
    pub fn add_eol_scanner(
        &mut self,
        delimiter: &str,
        token_type: &str,
        token_sub_type: Option<&str>,
        include_delimiter: bool,
    )
        ensures
            scanner_models(final(self).scanners@) == scanner_models(old(self).scanners@).push(
                ScannerModel::Eol {
                    delimiter: delimiter@,
                    token_type: token_type@,
                    token_sub_type: match token_sub_type {
                        Some(s) => Some(s@),
                        None => None,
                    },
                    include_delimiter,
                },
            ),
            final(self).config == old(self).config,
            final(self).last_errors == old(self).last_errors,
    {
        let s = crate::scanners::eol_scanner::EolScanner::new(
            delimiter,
            token_type,
            token_sub_type,
            include_delimiter,
        );
        self.scanners.push(ScannerType::Eol(s));
        proof {
            assert(scanner_models(self.scanners@) =~= scanner_models(old(self).scanners@).push(
                ScannerModel::Eol {
                    delimiter: delimiter@,
                    token_type: token_type@,
                    token_sub_type: match token_sub_type {
                        Some(s) => Some(s@),
                        None => None,
                    },
                    include_delimiter,
                },
            ));
        }
    }

    /// Sets whether the engine keeps scanning past recoverable errors.
    pub fn set_continue_on_error(&mut self, value: bool)
        ensures
            *final(self) == (Tokenizer {
                config: TokenizerConfig { continue_on_error: value, ..old(self).config },
                ..*old(self)
            }),
    {
        self.config.continue_on_error = value;
    }

    /// Sets whether runs of whitespace become tokens.
    pub fn set_tokenize_whitespace(&mut self, value: bool)
        ensures
            *final(self) == (Tokenizer {
                config: TokenizerConfig { tokenize_whitespace: value, ..old(self).config },
                ..*old(self)
            }),
    {
        self.config.tokenize_whitespace = value;
    }

    /// Sets the error ceiling.
    pub fn set_error_tolerance_limit(&mut self, value: usize)
        ensures
            *final(self) == (Tokenizer {
                config: TokenizerConfig { error_tolerance_limit: value, ..old(self).config },
                ..*old(self)
            }),
    {
        self.config.error_tolerance_limit = value;
    }

    /// Sets whether emitted tokens carry tracked positions.
    pub fn set_track_token_positions(&mut self, value: bool)
        ensures
            *final(self) == (Tokenizer {
                config: TokenizerConfig { track_token_positions: value, ..old(self).config },
                ..*old(self)
            }),
    {
        self.config.track_token_positions = value;
    }

    /// Updates the fields for which a value is given, leaving the others
    /// unchanged.
    pub fn with_options(
        &mut self,
        continue_on_error: Option<bool>,
        tokenize_whitespace: Option<bool>,
        error_tolerance_limit: Option<usize>,
        track_token_positions: Option<bool>,
    )
        ensures
            *final(self) == (Tokenizer {
                config: TokenizerConfig {
                    continue_on_error: match continue_on_error {
                        Some(v) => v,
                        None => old(self).config.continue_on_error,
                    },
                    tokenize_whitespace: match tokenize_whitespace {
                        Some(v) => v,
                        None => old(self).config.tokenize_whitespace,
                    },
                    error_tolerance_limit: match error_tolerance_limit {
                        Some(v) => v,
                        None => old(self).config.error_tolerance_limit,
                    },
                    track_token_positions: match track_token_positions {
                        Some(v) => v,
                        None => old(self).config.track_token_positions,
                    },
                },
                ..*old(self)
            }),
    {
        if let Some(val) = continue_on_error {
            self.config.continue_on_error = val;
        }
        if let Some(val) = tokenize_whitespace {
            self.config.tokenize_whitespace = val;
        }
        if let Some(val) = error_tolerance_limit {
            self.config.error_tolerance_limit = val;
        }
        if let Some(val) = track_token_positions {
            self.config.track_token_positions = val;
        }
    }

    /// Consumes the whole input, producing the token sequence or the
    /// errors met, as the walk `engine_run` describes from a fresh
    /// state. Whatever scanners are registered: an `Err` carries at
    /// least one error and is mirrored in the diagnostic slot, the
    /// error ceiling bounds what tolerant mode accumulates, and a clean
    /// run clears the slot. With concrete scanners only, the result is
    /// exactly the walk's.
    #[verifier::rlimit(100)]
    #[verifier::spinoff_prover]
    pub fn tokenize(&mut self, input: &str) -> (r: Result<Vec<Token>, Vec<TokenizationError>>)
        requires
            input@.len() < usize::MAX,
        ensures
            final(self).scanners == old(self).scanners,
            final(self).config == old(self).config,
            (match r {
                Ok(toks) => match final(self).last_errors {
                    None => true,
                    Some(v) => v@.len() >= 1 && old(self).config.continue_on_error,
                },
                Err(errs) => {
                    &&& errs@.len() >= 1
                    &&& final(self).last_errors matches Some(v) && errs_model(v@) == errs_model(
                        errs@,
                    )
                    &&& old(self).config.continue_on_error ==> (errs@.len() <= old(
                        self,
                    ).config.error_tolerance_limit || errs@.len() == 1)
                },
            }),
            all_concrete(scanner_models(old(self).scanners@)) ==> run_maps_to(
                engine_run(
                    scanner_models(old(self).scanners@),
                    old(self).config,
                    input@,
                    init_state(),
                ),
                old(self).config,
                r,
                final(self).last_errors,
            ),
    {
        let ghost ms = scanner_models(self.scanners@);
        let ghost cfg0 = self.config;
        let chars = crate::text::to_chars(input);
        let n = chars.len();
        let mut tokens: Vec<Token> = Vec::new();
        let mut errors: Vec<TokenizationError> = Vec::new();
        let mut pos: usize = 0;
        let mut line: usize = 1;
        let mut column: usize = 1;
        proof {
            assert(toks_model(tokens@) =~= Seq::<TokenModel>::empty());
            assert(errs_model(errors@) =~= Seq::<ErrorModel>::empty());
            assert(RunState {
                pos: pos as int,
                line: line as int,
                column: column as int,
                tokens: toks_model(tokens@),
                errors: errs_model(errors@),
            } == init_state());
        }
        loop
            invariant
                self.scanners == old(self).scanners,
                self.config == old(self).config,
                ms == scanner_models(self.scanners@),
                cfg0 == self.config,
                chars@ == input@,
                n == input@.len(),
                n < usize::MAX,
                pos <= n,
                1 <= line <= 1 + pos,
                1 <= column <= 1 + pos,
                !cfg0.continue_on_error ==> errors@.len() == 0,
                errors@.len() == 0 || errors@.len() < cfg0.error_tolerance_limit,
                all_concrete(ms) ==> engine_run(
                    ms,
                    cfg0,
                    input@,
                    RunState {
                        pos: pos as int,
                        line: line as int,
                        column: column as int,
                        tokens: toks_model(tokens@),
                        errors: errs_model(errors@),
                    },
                ) == engine_run(ms, cfg0, input@, init_state()),
            ensures
                pos == n,
                self.scanners == old(self).scanners,
                self.config == old(self).config,
                cfg0 == self.config,
                !cfg0.continue_on_error ==> errors@.len() == 0,
                all_concrete(ms) ==> engine_run(ms, cfg0, input@, init_state()) == (RunResult {
                    tokens: toks_model(tokens@),
                    errors: errs_model(errors@),
                    aborted: false,
                }),
            decreases n - pos,
        {
            if pos >= n {
                proof {
                    if all_concrete(ms) {
                        assert(engine_run(
                            ms,
                            cfg0,
                            input@,
                            RunState {
                                pos: pos as int,
                                line: line as int,
                                column: column as int,
                                tokens: toks_model(tokens@),
                                errors: errs_model(errors@),
                            },
                        ) == (RunResult {
                            tokens: toks_model(tokens@),
                            errors: errs_model(errors@),
                            aborted: false,
                        }));
                    }
                }
                break ;
            }
            let ghost st0 = RunState {
                pos: pos as int,
                line: line as int,
                column: column as int,
                tokens: toks_model(tokens@),
                errors: errs_model(errors@),
            };
            let suffix = input.substring_char(pos, n);
            proof {
                assert(suffix@ =~= input@.skip(pos as int));
            }
            let mut j: usize = 0;
            let mut claim: Option<(Token, usize)> = None;
            let mut fail: Option<TokenizationError> = None;
            while j < self.scanners.len()
                invariant_except_break
                    claim is None,
                    fail is None,
                invariant
                    ms == scanner_models(self.scanners@),
                    suffix@ == input@.skip(pos as int),
                    pos < n,
                    n == input@.len(),
                    j <= self.scanners@.len(),
                    all_concrete(ms) ==> forall|t: int|
                        0 <= t < j ==> scan_outcome(#[trigger] ms[t], suffix@) == Some(
                            OutcomeModel::Declined,
                        ),
                ensures
                    !(claim is Some && fail is Some),
                    (match claim {
                        Some(p) => 1 <= p.1 <= input@.len() - pos && (all_concrete(ms)
                            ==> first_action(ms, suffix@) == Some(
                            OutcomeModel::Claimed { token: p.0@, consumed: p.1 as int },
                        )),
                        None => true,
                    }),
                    (match fail {
                        Some(e) => all_concrete(ms) ==> first_action(ms, suffix@) == Some(
                            OutcomeModel::Failed(e@),
                        ),
                        None => true,
                    }),
                    claim is None && fail is None ==> j == self.scanners@.len(),
                decreases self.scanners@.len() - j,
            {
                let outcome = self.scanners[j].scan_step(suffix);
                proof {
                    assert(ms[j as int] == self.scanners@[j as int]@);
                }
                match outcome {
                    Ok(Some(p)) => {
                        proof {
                            if all_concrete(ms) {
                                lemma_first_action_skip(ms, suffix@, j as int);
                                assert(ms.skip(j as int)[0] == ms[j as int]);
                                assert(ms.skip(j as int).drop_first() =~= ms.skip(j + 1));
                            }
                        }
                        claim = Some(p);
                        break ;
                    },
                    Ok(None) => {
                        j = j + 1;
                    },
                    Err(e) => {
                        proof {
                            if all_concrete(ms) {
                                lemma_first_action_skip(ms, suffix@, j as int);
                                assert(ms.skip(j as int)[0] == ms[j as int]);
                            }
                        }
                        fail = Some(e);
                        break ;
                    },
                }
            }
            proof {
                if all_concrete(ms) && claim is None && fail is None {
                    lemma_first_action_skip(ms, suffix@, ms.len() as int);
                    assert(ms.skip(ms.len() as int).len() == 0);
                }
            }
            if claim.is_some() {
                let (t, k) = claim.unwrap();
                let ghost tmodel = t@;
                let tok = if self.config.track_token_positions {
                    Token {
                        token_type: t.token_type,
                        token_sub_type: t.token_sub_type,
                        value: t.value,
                        line,
                        column,
                    }
                } else {
                    t
                };
                proof {
                    assert(tok@ == (if cfg0.track_token_positions {
                        TokenModel { line: line as int, column: column as int, ..tmodel }
                    } else {
                        tmodel
                    }));
                }
                let ghost tokens0 = tokens@;
                tokens.push(tok);
                proof {
                    lemma_toks_model_push(tokens0, tok);
                }
                let lc = crate::text::advance_over(&chars, pos, pos + k, line, column);
                line = lc.0;
                column = lc.1;
                pos = pos + k;
                proof {
                    if all_concrete(ms) {
                        lemma_engine_step_claim(
                            ms,
                            cfg0,
                            input@,
                            st0,
                            RunState {
                                pos: pos as int,
                                line: line as int,
                                column: column as int,
                                tokens: toks_model(tokens@),
                                errors: errs_model(errors@),
                            },
                            tmodel,
                            k as int,
                        );
                    }
                }
            } else if fail.is_some() {
                let e = fail.unwrap();
                let ghost emodel = e@;
                let ghost errors0 = errors@;
                errors.push(e);
                proof {
                    lemma_errs_model_push(errors0, e);
                }
                if errors.len() >= self.config.error_tolerance_limit {
                    proof {
                        if all_concrete(ms) {
                            lemma_engine_abort(ms, cfg0, input@, st0, emodel);
                        }
                    }
                    self.last_errors = Some(clone_errors(&errors));
                    return Err(errors);
                }
                if self.config.continue_on_error {
                    let lc = crate::text::advance_over(&chars, pos, pos + 1, line, column);
                    line = lc.0;
                    column = lc.1;
                    pos = pos + 1;
                    proof {
                        if all_concrete(ms) {
                            lemma_engine_step_skip(
                                ms,
                                cfg0,
                                input@,
                                st0,
                                RunState {
                                    pos: pos as int,
                                    line: line as int,
                                    column: column as int,
                                    tokens: toks_model(tokens@),
                                    errors: errs_model(errors@),
                                },
                                emodel,
                            );
                        }
                    }
                } else {
                    proof {
                        if all_concrete(ms) {
                            lemma_engine_abort(ms, cfg0, input@, st0, emodel);
                        }
                    }
                    self.last_errors = Some(clone_errors(&errors));
                    return Err(errors);
                }
            } else {
                let c = chars[pos];
                if crate::text::is_ws_char(c) {
                    let start_line = line;
                    let start_column = column;
                    let mut wend: usize = pos;
                    let mut has_nl = false;
                    while wend < n && crate::text::is_ws_char(chars[wend])
                        invariant
                            chars@ == input@,
                            n == input@.len(),
                            pos <= wend <= n,
                            forall|t: int|
                                pos <= t < wend ==> crate::text::char_is_ws(#[trigger] input@[t]),
                            has_nl == input@.subrange(pos as int, wend as int).contains('\n'),
                        decreases n - wend,
                    {
                        let ghost w0 = wend as int;
                        if chars[wend] == '\n' {
                            has_nl = true;
                        }
                        wend = wend + 1;
                        proof {
                            let span0 = input@.subrange(pos as int, w0);
                            let span1 = input@.subrange(pos as int, wend as int);
                            assert(span1 =~= span0.push(input@[w0]));
                            if input@[w0] == '\n' {
                                assert(span1[span1.len() - 1] == '\n');
                                assert(span1.contains('\n'));
                            } else {
                                assert(span1.contains('\n') == span0.contains('\n')) by {
                                    if span0.contains('\n') {
                                        let wi = choose|wi: int|
                                            0 <= wi < span0.len() && span0[wi] == '\n';
                                        assert(span1[wi] == '\n');
                                    } else if span1.contains('\n') {
                                        let wi = choose|wi: int|
                                            0 <= wi < span1.len() && span1[wi] == '\n';
                                        assert(span0[wi] == '\n');
                                    }
                                }
                            }
                        }
                    }
                    proof {
                        lemma_ws_run_at(input@, pos as int, wend as int);
                    }
                    if self.config.tokenize_whitespace {
                        let value = crate::text::chars_to_string(&chars, pos, wend);
                        let sub: Option<String> = if has_nl {
                            Some(String::from_str("Newline"))
                        } else {
                            None
                        };
                        let tok = Token {
                            token_type: String::from_str("Whitespace"),
                            token_sub_type: sub,
                            value,
                            line: start_line,
                            column: start_column,
                        };
                        proof {
                            assert(tok@ == ws_token_model(
                                input@.subrange(pos as int, wend as int),
                                start_line as int,
                                start_column as int,
                            ));
                        }
                        let ghost tokens0 = tokens@;
                        tokens.push(tok);
                        proof {
                            lemma_toks_model_push(tokens0, tok);
                        }
                    }
                    let lc = crate::text::advance_over(&chars, pos, wend, line, column);
                    line = lc.0;
                    column = lc.1;
                    pos = wend;
                    proof {
                        if all_concrete(ms) {
                            lemma_engine_step_ws(
                                ms,
                                cfg0,
                                input@,
                                st0,
                                RunState {
                                    pos: pos as int,
                                    line: line as int,
                                    column: column as int,
                                    tokens: toks_model(tokens@),
                                    errors: errs_model(errors@),
                                },
                            );
                        }
                    }
                } else {
                    let mut msg = String::from_str("Unrecognized token at line ");
                    msg.append(crate::text::usize_to_string(line).as_str());
                    msg.append(", column ");
                    msg.append(crate::text::usize_to_string(column).as_str());
                    msg.append(": '");
                    crate::text::push_char(&mut msg, c);
                    msg.append("'");
                    proof {
                        assert(msg@ =~= unrecognized_message(
                            line as int,
                            column as int,
                            input@[pos as int],
                        ));
                    }
                    let e = TokenizationError::UnrecognizedToken(msg);
                    let ghost emodel = e@;
                    let ghost errors0 = errors@;
                    errors.push(e);
                    proof {
                        lemma_errs_model_push(errors0, e);
                    }
                    if errors.len() >= self.config.error_tolerance_limit {
                        proof {
                            if all_concrete(ms) {
                                lemma_engine_abort(ms, cfg0, input@, st0, emodel);
                            }
                        }
                        self.last_errors = Some(clone_errors(&errors));
                        return Err(errors);
                    }
                    if self.config.continue_on_error {
                        let lc = crate::text::advance_over(&chars, pos, pos + 1, line, column);
                        line = lc.0;
                        column = lc.1;
                        pos = pos + 1;
                        proof {
                            if all_concrete(ms) {
                                lemma_engine_step_skip(
                                    ms,
                                    cfg0,
                                    input@,
                                    st0,
                                    RunState {
                                        pos: pos as int,
                                        line: line as int,
                                        column: column as int,
                                        tokens: toks_model(tokens@),
                                        errors: errs_model(errors@),
                                    },
                                    emodel,
                                );
                            }
                        }
                    } else {
                        proof {
                            if all_concrete(ms) {
                                lemma_engine_abort(ms, cfg0, input@, st0, emodel);
                            }
                        }
                        self.last_errors = Some(clone_errors(&errors));
                        return Err(errors);
                    }
                }
            }
        }
        if errors.len() == 0 {
            self.last_errors = None;
            Ok(tokens)
        } else if self.config.continue_on_error {
            self.last_errors = Some(clone_errors(&errors));
            Ok(tokens)
        } else {
            self.last_errors = Some(clone_errors(&errors));
            Err(errors)
        }
    }
}

/// The spans the scanners claim from `pos` on, each a start position
/// with a length, while every consulted position is claimed.
pub open spec fn claim_spans(ms: Seq<ScannerModel>, input: Seq<char>, pos: int) -> Seq<(int, int)>
    decreases input.len() - pos,
{
    if pos < 0 || pos >= input.len() {
        Seq::empty()
    } else {
        match first_action(ms, input.skip(pos)) {
            Some(OutcomeModel::Claimed { token, consumed }) => {
                let k = if 1 <= consumed <= input.len() - pos {
                    consumed
                } else {
                    1
                };
                seq![(pos, k)] + claim_spans(ms, input, pos + k)
            },
            _ => Seq::empty(),
        }
    }
}

/// Whether, from `pos` on, every position the engine reaches is claimed
/// by a scanner: no whitespace handling and no error ever occurs.
pub open spec fn whole_input_claimed(ms: Seq<ScannerModel>, input: Seq<char>, pos: int) -> bool
    decreases input.len() - pos,
{
    if pos < 0 || pos >= input.len() {
        pos == input.len()
    } else {
        match first_action(ms, input.skip(pos)) {
            Some(OutcomeModel::Claimed { token, consumed }) => {
                let k = if 1 <= consumed <= input.len() - pos {
                    consumed
                } else {
                    1
                };
                whole_input_claimed(ms, input, pos + k)
            },
            _ => false,
        }
    }
}

/// The claimed spans of the input written out one after the other.
pub open spec fn concat_spans(input: Seq<char>, spans: Seq<(int, int)>) -> Seq<char>
    decreases spans.len(),
{
    if spans.len() == 0 {
        Seq::empty()
    } else {
        input.subrange(spans[0].0, spans[0].0 + spans[0].1) + concat_spans(
            input,
            spans.drop_first(),
        )
    }
}

/// When the input from `pos` on consists solely of successfully claimed
/// tokens — no whitespace handling and no errors — writing the consumed
/// spans one after the other reconstructs that input exactly.
pub proof fn lemma_claimed_spans_reconstruct(ms: Seq<ScannerModel>, input: Seq<char>, pos: int)
    requires
        0 <= pos <= input.len(),
        whole_input_claimed(ms, input, pos),
    ensures
        concat_spans(input, claim_spans(ms, input, pos)) == input.skip(pos),
    decreases input.len() - pos,
{
    if pos >= input.len() {
        assert(concat_spans(input, claim_spans(ms, input, pos)) =~= input.skip(pos));
    } else {
        match first_action(ms, input.skip(pos)) {
            Some(OutcomeModel::Claimed { token, consumed }) => {
                let k = if 1 <= consumed <= input.len() - pos {
                    consumed
                } else {
                    1
                };
                lemma_claimed_spans_reconstruct(ms, input, pos + k);
                let spans = claim_spans(ms, input, pos);
                assert(spans.drop_first() =~= claim_spans(ms, input, pos + k));
                assert(concat_spans(input, spans) =~= input.skip(pos));
            },
            _ => {
                assert(false);
            },
        }
    }
}

/// On such a run the walk finishes cleanly: nothing aborts it and no
/// error is recorded beyond those already held.
pub proof fn lemma_claimed_run_clean(
    ms: Seq<ScannerModel>,
    cfg: TokenizerConfig,
    input: Seq<char>,
    st: RunState,
)
    requires
        0 <= st.pos <= input.len(),
        whole_input_claimed(ms, input, st.pos),
    ensures
        engine_run(ms, cfg, input, st).errors == st.errors,
        !engine_run(ms, cfg, input, st).aborted,
        engine_run(ms, cfg, input, st).tokens.len() == st.tokens.len() + claim_spans(
            ms,
            input,
            st.pos,
        ).len(),
    decreases input.len() - st.pos,
{
    if st.pos < input.len() {
        match first_action(ms, input.skip(st.pos)) {
            Some(OutcomeModel::Claimed { token, consumed }) => {
                let k = if 1 <= consumed <= input.len() - st.pos {
                    consumed
                } else {
                    1
                };
                let span = input.subrange(st.pos, st.pos + k);
                let tok = if cfg.track_token_positions {
                    TokenModel { line: st.line, column: st.column, ..token }
                } else {
                    token
                };
                let lc = advance_position(st.line, st.column, span);
                lemma_claimed_run_clean(
                    ms,
                    cfg,
                    input,
                    RunState {
                        pos: st.pos + k,
                        line: lc.0,
                        column: lc.1,
                        tokens: st.tokens.push(tok),
                        errors: st.errors,
                    },
                );
            },
            _ => {
                assert(false);
            },
        }
    }
}

/// Appending a token appends its model.
proof fn lemma_toks_model_push(s: Seq<Token>, t: Token)
    ensures
        toks_model(s.push(t)) == toks_model(s).push(t@),
{
    assert forall|j: int| 0 <= j < toks_model(s.push(t)).len() implies toks_model(s.push(t))[j]
        == toks_model(s).push(t@)[j] by {
        assert(toks_model(s.push(t))[j] == s.push(t)[j]@);
    }
    assert(toks_model(s.push(t)) =~= toks_model(s).push(t@));
}

/// Appending an error appends its model.
proof fn lemma_errs_model_push(s: Seq<TokenizationError>, e: TokenizationError)
    ensures
        errs_model(s.push(e)) == errs_model(s).push(e@),
{
    assert forall|j: int| 0 <= j < errs_model(s.push(e)).len() implies errs_model(s.push(e))[j]
        == errs_model(s).push(e@)[j] by {
        assert(errs_model(s.push(e))[j] == s.push(e)[j]@);
    }
    assert(errs_model(s.push(e)) =~= errs_model(s).push(e@));
}

/// A maximal whitespace run is exactly the scanned one.
proof fn lemma_ws_run_at(input: Seq<char>, pos: int, wend: int)
    requires
        0 <= pos <= wend <= input.len(),
        forall|t: int| pos <= t < wend ==> crate::text::char_is_ws(#[trigger] input[t]),
        wend == input.len() || !crate::text::char_is_ws(input[wend]),
    ensures
        ws_run_len(input, pos) == wend - pos,
    decreases wend - pos,
{
    if pos < wend {
        lemma_ws_run_at(input, pos + 1, wend);
    }
}

/// Appends one registered scanner, recording what the append does to
/// the scanner list.
fn push_entry(v: &mut Vec<ScannerType>, entry: ScannerType)
    ensures
        final(v)@ == old(v)@.push(entry),
{
    v.push(entry);
}

/// Appending a scanner appends its model.
proof fn lemma_scanner_models_push(s: Seq<ScannerType>, x: ScannerType)
    ensures
        scanner_models(s.push(x)) == scanner_models(s).push(x@),
{
    assert forall|j: int| 0 <= j < scanner_models(s.push(x)).len() implies scanner_models(
        s.push(x),
    )[j] == scanner_models(s).push(x@)[j] by {
        assert(scanner_models(s.push(x))[j] == s.push(x)[j]@);
    }
    assert(scanner_models(s.push(x)) =~= scanner_models(s).push(x@));
}

/// Inserts one registered scanner at `i`, recording what the insertion
/// does to the scanner list.
fn insert_entry(v: &mut Vec<ScannerType>, i: usize, entry: ScannerType)
    requires
        i <= old(v)@.len(),
    ensures
        final(v)@ == old(v)@.insert(i as int, entry),
{
    v.insert(i, entry);
}

/// Inserting a scanner inserts its model at the same place.
proof fn lemma_scanner_models_insert(s: Seq<ScannerType>, i: int, x: ScannerType)
    requires
        0 <= i <= s.len(),
    ensures
        scanner_models(s.insert(i, x)) == scanner_models(s).insert(i, x@),
{
    assert forall|j: int| 0 <= j < scanner_models(s.insert(i, x)).len() implies scanner_models(
        s.insert(i, x),
    )[j] == scanner_models(s).insert(i, x@)[j] by {
        assert(scanner_models(s.insert(i, x))[j] == s.insert(i, x)[j]@);
    }
    assert(scanner_models(s.insert(i, x)) =~= scanner_models(s).insert(i, x@));
}

/// Duplicates an error list, keeping its content.
fn clone_errors(v: &Vec<TokenizationError>) -> (r: Vec<TokenizationError>)
    ensures
        errs_model(r@) == errs_model(v@),
        r@.len() == v@.len(),
{
    let mut r: Vec<TokenizationError> = Vec::new();
    let mut i: usize = 0;
    while i < v.len()
        invariant
            i <= v@.len(),
            r@.len() == i,
            forall|j: int| 0 <= j < i ==> (#[trigger] r@[j])@ == v@[j]@,
        decreases v@.len() - i,
    {
        r.push(v[i].clone());
        i = i + 1;
    }
    proof {
        assert forall|j: int| 0 <= j < errs_model(r@).len() implies errs_model(r@)[j]
            == errs_model(v@)[j] by {
            assert(r@[j]@ == v@[j]@);
        }
        assert(errs_model(r@) =~= errs_model(v@));
    }
    r
}

} // verus!
