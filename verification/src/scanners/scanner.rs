//! The matcher capability every scanner offers.

use crate::tokens::Token;
use crate::tokens::TokenizationError;
use vstd::prelude::*;
use vstd::string::StrSliceExecFns;

verus! {

/// An admission test a user supplies as an ordinary value with its own
/// logic; nothing is assumed about what it answers.
pub trait AcceptCallback {
    /// Decides whether the scanner should look at this input at all.
    fn accepts(&self, input: &str) -> bool;
}

/// A quick admission test a scanner may run before its full match.
pub enum AcceptStrategy {
    /// Accept when the first character of the input is one of these.
    StartChars(&'static str),
    /// Accept when the input starts with this literal text.
    Pattern(&'static str),
    /// Accept when an arbitrary user-supplied test does; opaque to the
    /// contracts.
    Callback(Box<dyn AcceptCallback>),
}

/// The mathematical content of an `AcceptStrategy`. A user-supplied
/// test is opaque: nothing is known of what it answers.
pub ghost enum StrategyModel {
    StartChars(Seq<char>),
    Pattern(Seq<char>),
    Opaque,
}

impl View for AcceptStrategy {
    type V = StrategyModel;

    open spec fn view(&self) -> StrategyModel {
        match self {
            AcceptStrategy::StartChars(chars) => StrategyModel::StartChars(chars@),
            AcceptStrategy::Pattern(pat) => StrategyModel::Pattern(pat@),
            AcceptStrategy::Callback(_) => StrategyModel::Opaque,
        }
    }
}

/// What `accepts` decides for the transparent strategies; of an opaque
/// test nothing is specified, and nothing in this crate consults this
/// function for one.
pub open spec fn strategy_accepts(s: StrategyModel, input: Seq<char>) -> bool {
    match s {
        StrategyModel::StartChars(chars) => input.len() > 0 && chars.contains(input[0]),
        StrategyModel::Pattern(pat) => crate::text::matches_at(input, 0, pat),
        StrategyModel::Opaque => vstd::pervasive::arbitrary(),
    }
}

/// What `accepts` decides for each transparent strategy.
pub open spec fn accepts_model(s: &AcceptStrategy, input: Seq<char>) -> bool {
    strategy_accepts(s@, input)
}

impl AcceptStrategy {
    /// Runs the admission test on the start of `input`. For the
    /// transparent strategies the answer is exactly what
    /// `strategy_accepts` assigns.
    pub fn accepts(&self, input: &str) -> (r: bool)
        ensures
            !(self@ is Opaque) ==> r == accepts_model(self, input@),
    {
        match self {
            AcceptStrategy::StartChars(chars) => {
                if input.unicode_len() == 0 {
                    return false;
                }
                let first = input.get_char(0);
                let cs = crate::text::to_chars(chars);
                let mut i: usize = 0;
                while i < cs.len()
                    invariant
                        i <= cs@.len(),
                        cs@ == chars@,
                        input@.len() > 0,
                        first == input@[0],
                        self is StartChars,
                        self matches AcceptStrategy::StartChars(c2) && c2@ == chars@,
                        forall|j: int| 0 <= j < i ==> cs@[j] != first,
                    decreases cs@.len() - i,
                {
                    if cs[i] == first {
                        proof {
                            assert(chars@[i as int] == first);
                            assert(chars@.contains(first));
                        }
                        return true;
                    }
                    i = i + 1;
                }
                proof {
                    assert(!chars@.contains(input@[0]));
                }
                false
            },
            AcceptStrategy::Pattern(pat) => {
                let text = crate::text::to_chars(input);
                let p = crate::text::to_chars(pat);
                crate::text::chars_match_at(&text, 0, &p)
            },
            AcceptStrategy::Callback(cb) => cb.accepts(input),
        }
    }
}

/// A unit of lexical recognition: asked about the start of the remaining
/// input, it either claims a token, declines, or reports a structural
/// failure of its own grammar.
///
/// Implementations outside this crate carry no contract; the engine
/// assumes nothing about what they return.
pub trait Scanner {
    /// Examines the start of `input`; `Ok(None)` declines the input,
    /// `Ok(Some(token))` claims it, and `Err` reports a failure.
    fn scan(&self, input: &str) -> Result<Option<Token>, TokenizationError>;
}

} // verus!
