//! The block scanner: delimited, possibly nested spans with an escape
//! sequence sublanguage.

use crate::scanners::scanner::Scanner;
use crate::text::matches_at;
use crate::tokens::Token;
use crate::tokens::TokenizationError;
use crate::tokens::token::TokenModel;
use vstd::prelude::*;
use vstd::string::StrSliceExecFns;

verus! {

/// One way of recognising an embedded escape sequence inside a block.
///
/// Each rule either matches a contiguous run that starts exactly at the
/// probed position, or does not match at all.
pub enum EscapeRule {
    /// The escape character followed by any one character (for example
    /// `\n` or `\"`).
    Simple { escape_char: char },
    /// A run from `start_char` through the first `end_char` found within
    /// `max_length` characters (for example `&amp;`).
    Named { start_char: char, end_char: char, max_length: usize },
    /// A run matched by a left-anchored regular expression.
    Pattern { pattern: String },
    /// A balanced span from `start_seq` to the matching `end_seq`,
    /// tracking nested pairs when `allow_nesting` is set.
    Balanced { start_seq: String, end_seq: String, allow_nesting: bool },
}

/// The mathematical content of an `EscapeRule`.
pub ghost enum EscapeRuleModel {
    Simple { escape_char: char },
    Named { start_char: char, end_char: char, max_length: int },
    Pattern { pattern: Seq<char> },
    Balanced { start_seq: Seq<char>, end_seq: Seq<char>, allow_nesting: bool },
}

impl View for EscapeRule {
    type V = EscapeRuleModel;

    open spec fn view(&self) -> EscapeRuleModel {
        match self {
            EscapeRule::Simple { escape_char } => EscapeRuleModel::Simple {
                escape_char: *escape_char,
            },
            EscapeRule::Named { start_char, end_char, max_length } => EscapeRuleModel::Named {
                start_char: *start_char,
                end_char: *end_char,
                max_length: *max_length as int,
            },
            EscapeRule::Pattern { pattern } => EscapeRuleModel::Pattern { pattern: pattern@ },
            EscapeRule::Balanced { start_seq, end_seq, allow_nesting } => {
                EscapeRuleModel::Balanced {
                    start_seq: start_seq@,
                    end_seq: end_seq@,
                    allow_nesting: *allow_nesting,
                }
            },
        }
    }
}

/// The smallest position in `[from, to)` where `c` stands in `text`.
pub open spec fn find_to(text: Seq<char>, c: char, from: int, to: int) -> Option<int>
    decreases to - from,
{
    if from >= to || from >= text.len() {
        None
    } else if text[from] == c {
        Some(from)
    } else {
        find_to(text, c, from + 1, to)
    }
}

/// What `find_to` finds: the first occurrence within the bounds.
pub proof fn lemma_find_to(text: Seq<char>, c: char, from: int, to: int)
    ensures
        match find_to(text, c, from, to) {
            Some(j) => from <= j < to && j < text.len() && text[j] == c && (forall|k: int|
                from <= k < j ==> text[k] != c),
            None => forall|k: int| from <= k < to && k < text.len() ==> text[k] != c,
        },
    decreases to - from,
{
    if from >= to || from >= text.len() {
    } else if text[from] == c {
    } else {
        lemma_find_to(text, c, from + 1, to);
    }
}

/// How far the escape sequence recognised by `rule` extends at `pos`,
/// or `None` when the rule does not match there. A match is never empty.
pub open spec fn escape_match_len(rule: EscapeRuleModel, text: Seq<char>, pos: int) -> Option<
    int,
> {
    if pos < 0 || pos > text.len() {
        None
    } else {
        match rule {
            EscapeRuleModel::Simple { escape_char } => {
                if pos + 1 < text.len() && text[pos] == escape_char {
                    Some(2)
                } else {
                    None
                }
            },
            EscapeRuleModel::Named { start_char, end_char, max_length } => {
                if pos < text.len() && text[pos] == start_char {
                    match find_to(text, end_char, pos + 1, pos + max_length) {
                        Some(j) => Some(j - pos + 1),
                        None => None,
                    }
                } else {
                    None
                }
            },
            EscapeRuleModel::Pattern { pattern } => {
                // The regex engine answers with a prefix of the probed
                // suffix, so a match never runs past the end of the text;
                // the bound below records that, and an empty match is no
                // claim.
                match crate::scanners::regex_scanner::regex_prefix_match(
                    pattern,
                    text.skip(pos),
                ) {
                    Some(m) => if 0 < m.len() && pos + m.len() <= text.len() {
                        Some(m.len() as int)
                    } else {
                        None
                    },
                    None => None,
                }
            },
            EscapeRuleModel::Balanced { start_seq, end_seq, allow_nesting } => {
                if start_seq.len() > 0 && end_seq.len() > 0 && matches_at(text, pos, start_seq) {
                    match balanced_end(
                        text,
                        pos + start_seq.len(),
                        start_seq,
                        end_seq,
                        allow_nesting,
                        1,
                    ) {
                        Some(e) => Some(e - pos),
                        None => None,
                    }
                } else {
                    None
                }
            },
        }
    }
}

/// The position right after the `end_seq` that balances `depth` open
/// `start_seq`s, scanning from `pos`; `None` when the text runs out
/// first.
pub open spec fn balanced_end(
    text: Seq<char>,
    pos: int,
    start_seq: Seq<char>,
    end_seq: Seq<char>,
    allow_nesting: bool,
    depth: int,
) -> Option<int>
    recommends
        start_seq.len() > 0,
        end_seq.len() > 0,
    decreases text.len() - pos,
{
    if pos >= text.len() || start_seq.len() == 0 || end_seq.len() == 0 {
        None
    } else if matches_at(text, pos, end_seq) {
        if depth == 1 {
            Some(pos + end_seq.len())
        } else {
            balanced_end(text, pos + end_seq.len(), start_seq, end_seq, allow_nesting, depth - 1)
        }
    } else if allow_nesting && matches_at(text, pos, start_seq) {
        balanced_end(text, pos + start_seq.len(), start_seq, end_seq, allow_nesting, depth + 1)
    } else {
        balanced_end(text, pos + 1, start_seq, end_seq, allow_nesting, depth)
    }
}

/// A balanced span ends after `pos` and within the text.
pub proof fn lemma_balanced_end_bounds(
    text: Seq<char>,
    pos: int,
    start_seq: Seq<char>,
    end_seq: Seq<char>,
    allow_nesting: bool,
    depth: int,
)
    ensures
        match balanced_end(text, pos, start_seq, end_seq, allow_nesting, depth) {
            Some(e) => pos + end_seq.len() <= e <= text.len(),
            None => true,
        },
    decreases text.len() - pos,
{
    if pos >= text.len() || start_seq.len() == 0 || end_seq.len() == 0 {
    } else if matches_at(text, pos, end_seq) {
        if depth != 1 {
            lemma_balanced_end_bounds(
                text,
                pos + end_seq.len(),
                start_seq,
                end_seq,
                allow_nesting,
                depth - 1,
            );
        }
    } else if allow_nesting && matches_at(text, pos, start_seq) {
        lemma_balanced_end_bounds(
            text,
            pos + start_seq.len(),
            start_seq,
            end_seq,
            allow_nesting,
            depth + 1,
        );
    } else {
        lemma_balanced_end_bounds(text, pos + 1, start_seq, end_seq, allow_nesting, depth);
    }
}

/// A matched escape sequence covers at least one character and stays
/// inside the text.
pub proof fn lemma_escape_len_bounds(rule: EscapeRuleModel, text: Seq<char>, pos: int)
    ensures
        match escape_match_len(rule, text, pos) {
            Some(k) => 1 <= k && pos + k <= text.len(),
            None => true,
        },
{
    if 0 <= pos <= text.len() {
        match rule {
            EscapeRuleModel::Simple { escape_char } => {},
            EscapeRuleModel::Named { start_char, end_char, max_length } => {
                if pos < text.len() && text[pos] == start_char {
                    lemma_find_to(text, end_char, pos + 1, pos + max_length);
                }
            },
            EscapeRuleModel::Pattern { pattern } => {},
            EscapeRuleModel::Balanced { start_seq, end_seq, allow_nesting } => {
                if start_seq.len() > 0 && end_seq.len() > 0 && matches_at(text, pos, start_seq) {
                    lemma_balanced_end_bounds(
                        text,
                        pos + start_seq.len(),
                        start_seq,
                        end_seq,
                        allow_nesting,
                        1,
                    );
                }
            },
        }
    }
}

/// The first escape rule, in registration order, that matches at `pos`,
/// together with how far its match extends.
pub open spec fn first_escape(rules: Seq<EscapeRuleModel>, text: Seq<char>, pos: int) -> Option<
    (EscapeRuleModel, int),
>
    decreases rules.len(),
{
    if rules.len() == 0 {
        None
    } else {
        match escape_match_len(rules[0], text, pos) {
            Some(k) => Some((rules[0], k)),
            None => first_escape(rules.drop_first(), text, pos),
        }
    }
}

/// The escape the scan takes is one of the rules, and its match is
/// non-empty and inside the text.
pub proof fn lemma_first_escape_bounds(rules: Seq<EscapeRuleModel>, text: Seq<char>, pos: int)
    ensures
        match first_escape(rules, text, pos) {
            Some((r, k)) => 1 <= k && pos + k <= text.len(),
            None => true,
        },
    decreases rules.len(),
{
    if rules.len() > 0 {
        lemma_escape_len_bounds(rules[0], text, pos);
        lemma_first_escape_bounds(rules.drop_first(), text, pos);
    }
}

/// The escape the scan takes matches with exactly the length recorded.
pub proof fn lemma_first_escape_matches(rules: Seq<EscapeRuleModel>, text: Seq<char>, pos: int)
    ensures
        match first_escape(rules, text, pos) {
            Some((r, k)) => escape_match_len(r, text, pos) == Some(k),
            None => true,
        },
    decreases rules.len(),
{
    if rules.len() > 0 {
        lemma_first_escape_matches(rules.drop_first(), text, pos);
    }
}

/// Skipping rules that do not match at `pos` leaves the answer unchanged.
pub proof fn lemma_first_escape_skip(rules: Seq<EscapeRuleModel>, text: Seq<char>, pos: int, i: int)
    requires
        0 <= i <= rules.len(),
        forall|j: int| 0 <= j < i ==> escape_match_len(rules[j], text, pos) is None,
    ensures
        first_escape(rules, text, pos) == first_escape(rules.skip(i), text, pos),
    decreases i,
{
    if i > 0 {
        assert(rules.skip(0) =~= rules);
        lemma_first_escape_skip(rules.drop_first(), text, pos, i - 1);
        assert(rules.drop_first().skip(i - 1) =~= rules.skip(i));
    } else {
        assert(rules.skip(0) =~= rules);
    }
}

/// A replacement registered for an escape sequence.
pub struct EscapeMapping {
    pub sequence: String,
    pub replacement: char,
}

impl View for EscapeMapping {
    type V = (Seq<char>, char);

    open spec fn view(&self) -> (Seq<char>, char) {
        (self.sequence@, self.replacement)
    }
}

/// The replacement registered for `key`, earliest registration first.
pub open spec fn map_lookup(pairs: Seq<(Seq<char>, char)>, key: Seq<char>) -> Option<char>
    decreases pairs.len(),
{
    if pairs.len() == 0 {
        None
    } else if pairs[0].0 == key {
        Some(pairs[0].1)
    } else {
        map_lookup(pairs.drop_first(), key)
    }
}

/// Skipping entries whose key differs leaves the lookup unchanged.
pub proof fn lemma_map_lookup_skip(pairs: Seq<(Seq<char>, char)>, key: Seq<char>, i: int)
    requires
        0 <= i <= pairs.len(),
        forall|j: int| 0 <= j < i ==> (#[trigger] pairs[j]).0 != key,
    ensures
        map_lookup(pairs, key) == map_lookup(pairs.skip(i), key),
    decreases i,
{
    if i > 0 {
        lemma_map_lookup_skip(pairs.drop_first(), key, i - 1);
        assert(pairs.drop_first().skip(i - 1) =~= pairs.skip(i));
    } else {
        assert(pairs.skip(0) =~= pairs);
    }
}

/// The mathematical content of a `BlockScanner`.
pub ghost struct BlockModel {
    pub start: Seq<char>,
    pub end: Seq<char>,
    pub token_type: Seq<char>,
    pub token_sub_type: Option<Seq<char>>,
    pub allow_nesting: bool,
    pub raw_mode: bool,
    pub include_delimiters: bool,
    pub rules: Seq<EscapeRuleModel>,
    pub map: Seq<(Seq<char>, char)>,
    pub transform: bool,
}

/// Whether a block scanner claims the start of `input`: the input begins
/// with the start delimiter, and neither delimiter is empty.
pub open spec fn block_claims(m: BlockModel, input: Seq<char>) -> bool {
    m.start.len() > 0 && m.end.len() > 0 && matches_at(input, 0, m.start)
}

/// The position after the end delimiter that closes the block, walking
/// from `pos` with `depth` delimiters open; `None` when the input runs
/// out first.
///
/// At each position, in this order: a literal end delimiter closes or
/// pops one nesting level; a literal start delimiter pushes one when
/// nesting is allowed; outside raw mode the first matching escape rule is
/// skipped whole, and a backslash not claimed by any rule skips itself
/// and the next character; otherwise one character is consumed.
pub open spec fn block_end_from(m: BlockModel, text: Seq<char>, pos: int, depth: int) -> Option<
    int,
>
    recommends
        m.start.len() > 0,
        m.end.len() > 0,
    decreases text.len() - pos,
    via block_end_from_dec
{
    if pos >= text.len() || m.start.len() == 0 || m.end.len() == 0 {
        None
    } else if matches_at(text, pos, m.end) {
        if depth == 1 {
            Some(pos + m.end.len())
        } else {
            block_end_from(m, text, pos + m.end.len(), depth - 1)
        }
    } else if m.allow_nesting && matches_at(text, pos, m.start) {
        block_end_from(m, text, pos + m.start.len(), depth + 1)
    } else if !m.raw_mode && first_escape(m.rules, text, pos) is Some {
        block_end_from(m, text, pos + first_escape(m.rules, text, pos)->Some_0.1, depth)
    } else if !m.raw_mode && pos + 1 < text.len() && text[pos] == '\\' {
        block_end_from(m, text, pos + 2, depth)
    } else {
        block_end_from(m, text, pos + 1, depth)
    }
}

#[via_fn]
proof fn block_end_from_dec(m: BlockModel, text: Seq<char>, pos: int, depth: int) {
    lemma_first_escape_bounds(m.rules, text, pos);
}

/// The scan stays inside the text and ends after the end delimiter.
pub proof fn lemma_block_end_bounds(m: BlockModel, text: Seq<char>, pos: int, depth: int)
    ensures
        match block_end_from(m, text, pos, depth) {
            Some(e) => pos + m.end.len() <= e <= text.len(),
            None => true,
        },
    decreases text.len() - pos,
{
    lemma_first_escape_bounds(m.rules, text, pos);
    if pos >= text.len() || m.start.len() == 0 || m.end.len() == 0 {
    } else if matches_at(text, pos, m.end) {
        if depth != 1 {
            lemma_block_end_bounds(m, text, pos + m.end.len(), depth - 1);
        }
    } else if m.allow_nesting && matches_at(text, pos, m.start) {
        lemma_block_end_bounds(m, text, pos + m.start.len(), depth + 1);
    } else if !m.raw_mode && first_escape(m.rules, text, pos) is Some {
        lemma_block_end_bounds(m, text, pos + first_escape(m.rules, text, pos)->Some_0.1, depth);
    } else if !m.raw_mode && pos + 1 < text.len() && text[pos] == '\\' {
        lemma_block_end_bounds(m, text, pos + 2, depth);
    } else {
        lemma_block_end_bounds(m, text, pos + 1, depth);
    }
}

/// Where the block claimed at the start of `text` ends: the full span
/// length, delimiters included.
pub open spec fn block_end(m: BlockModel, text: Seq<char>) -> Option<int> {
    block_end_from(m, text, m.start.len() as int, 1)
}

/// The raw text carried by a block that spans `[0, e)`, with the
/// delimiters stripped unless they are included.
pub open spec fn block_raw_value(m: BlockModel, text: Seq<char>, e: int) -> Seq<char> {
    if m.include_delimiters {
        text.subrange(0, e)
    } else {
        text.subrange(m.start.len() as int, e - m.end.len())
    }
}

/// One transformed piece of the value, together with how far the scan
/// advances: the escape match at `pos` substituted through the escape
/// map, or the bare character when no rule matches.
///
/// A `Simple` escape stands for the character it escapes, mapped when a
/// replacement is registered for it. A `Named` escape with content
/// between its delimiters stands for the registered replacement of that
/// content, and is kept whole when none is registered. `Pattern` and
/// `Balanced` matches are always kept whole.
pub open spec fn transform_piece(m: BlockModel, v: Seq<char>, pos: int) -> (Seq<char>, int) {
    match first_escape(m.rules, v, pos) {
        Some((rule, k)) => {
            let piece = match rule {
                EscapeRuleModel::Simple { escape_char } => {
                    match map_lookup(m.map, seq![v[pos + 1]]) {
                        Some(c) => seq![c],
                        None => seq![v[pos + 1]],
                    }
                },
                EscapeRuleModel::Named { start_char, end_char, max_length } => {
                    if k > 2 {
                        match map_lookup(m.map, v.subrange(pos + 1, pos + k - 1)) {
                            Some(c) => seq![c],
                            None => v.subrange(pos, pos + k),
                        }
                    } else {
                        v.subrange(pos, pos + k)
                    }
                },
                EscapeRuleModel::Pattern { pattern } => v.subrange(pos, pos + k),
                EscapeRuleModel::Balanced { start_seq, end_seq, allow_nesting } => v.subrange(
                    pos,
                    pos + k,
                ),
            };
            (piece, k)
        },
        None => (seq![v[pos]], 1),
    }
}

/// The value from `pos` on with every recognised escape substituted.
pub open spec fn transform_from(m: BlockModel, v: Seq<char>, pos: int) -> Seq<char>
    decreases v.len() - pos,
    via transform_from_dec
{
    if pos < 0 || pos >= v.len() {
        Seq::empty()
    } else {
        let pk = transform_piece(m, v, pos);
        pk.0 + transform_from(m, v, pos + pk.1)
    }
}

#[via_fn]
proof fn transform_from_dec(m: BlockModel, v: Seq<char>, pos: int) {
    lemma_first_escape_bounds(m.rules, v, pos);
}

/// The token value of a block: its raw text, escape-transformed only
/// when transformation is on, raw mode is off and escape rules exist.
pub open spec fn transform_value(m: BlockModel, v: Seq<char>) -> Seq<char> {
    if !m.transform || m.raw_mode || m.rules.len() == 0 {
        v
    } else {
        transform_from(m, v, 0)
    }
}

/// In raw mode the token value is exactly the raw input slice of the
/// block — the whole span, or the span with its delimiters stripped —
/// untouched by any transformation.
pub proof fn lemma_raw_mode_value(m: BlockModel, input: Seq<char>)
    requires
        m.raw_mode,
    ensures
        (match crate::scanners::scanner_types::scan_outcome(
            crate::scanners::scanner_types::ScannerModel::Block(m),
            input,
        ) {
            Some(crate::scanners::scanner_types::OutcomeModel::Claimed { token, consumed }) => token.value
                == block_raw_value(m, input, consumed),
            _ => true,
        }),
{
}

/// In raw mode no escape rule is ever consulted: the walk to the end of
/// the block answers the same whatever rules are registered.
pub proof fn lemma_raw_mode_ignores_rules(
    m: BlockModel,
    rules2: Seq<EscapeRuleModel>,
    text: Seq<char>,
    pos: int,
    depth: int,
)
    requires
        m.raw_mode,
    ensures
        block_end_from(m, text, pos, depth) == block_end_from(
            BlockModel { rules: rules2, ..m },
            text,
            pos,
            depth,
        ),
    decreases text.len() - pos,
{
    let m2 = BlockModel { rules: rules2, ..m };
    if pos >= text.len() || m.start.len() == 0 || m.end.len() == 0 {
    } else if matches_at(text, pos, m.end) {
        if depth != 1 {
            lemma_raw_mode_ignores_rules(m, rules2, text, pos + m.end.len(), depth - 1);
        }
    } else if m.allow_nesting && matches_at(text, pos, m.start) {
        lemma_raw_mode_ignores_rules(m, rules2, text, pos + m.start.len(), depth + 1);
    } else {
        lemma_raw_mode_ignores_rules(m, rules2, text, pos + 1, depth);
    }
}

impl EscapeRule {
    /// Decides the rule against `text` at character position `pos`,
    /// exactly as `escape_match_len` describes it.
    pub fn try_match_chars(&self, text: &Vec<char>, pos: usize) -> (r: Option<usize>)
        ensures
            match r {
                Some(k) => escape_match_len(self@, text@, pos as int) == Some(k as int),
                None => escape_match_len(self@, text@, pos as int) is None,
            },
    {
        if pos > text.len() {
            return None;
        }
        match self {
            EscapeRule::Simple { escape_char } => {
                if pos < text.len() && pos + 1 < text.len() && text[pos] == *escape_char {
                    Some(2)
                } else {
                    None
                }
            },
            EscapeRule::Named { start_char, end_char, max_length } => {
                if pos < text.len() && text[pos] == *start_char {
                    let bound: usize = if *max_length > text.len() - pos {
                        text.len()
                    } else {
                        pos + *max_length
                    };
                    let mut j: usize = pos + 1;
                    proof {
                        lemma_find_to(text@, *end_char, pos + 1, pos + *max_length);
                    }
                    while j < bound
                        invariant
                            pos + 1 <= j,
                            bound <= text@.len(),
                            bound == if *max_length > text@.len() - pos {
                                text@.len() as int
                            } else {
                                pos + *max_length
                            },
                            pos < text@.len(),
                            self@ matches EscapeRuleModel::Named {
                                start_char: sc,
                                end_char: ec,
                                max_length: ml,
                            } && sc == *start_char && ec == *end_char && ml == *max_length as int
                                && text@[pos as int] == sc,
                            forall|t: int| pos + 1 <= t < j ==> text@[t] != *end_char,
                        decreases bound - j,
                    {
                        if text[j] == *end_char {
                            proof {
                                lemma_find_to(text@, *end_char, pos + 1, pos + *max_length);
                                assert(j < pos + *max_length);
                                let f = find_to(text@, *end_char, pos + 1, pos + *max_length);
                                if f is None {
                                    assert(text@[j as int] != *end_char);
                                    assert(false);
                                } else {
                                    let w = f->0;
                                    if w < j {
                                        assert(text@[w] != *end_char);
                                        assert(false);
                                    }
                                    if w > j {
                                        assert(text@[j as int] != *end_char);
                                        assert(false);
                                    }
                                }
                                assert(find_to(text@, *end_char, pos + 1, pos + *max_length)
                                    == Some(j as int));
                            }
                            return Some(j - pos + 1);
                        }
                        j = j + 1;
                    }
                    proof {
                        lemma_find_to(text@, *end_char, pos + 1, pos + *max_length);
                    }
                    None
                } else {
                    None
                }
            },
            EscapeRule::Pattern { pattern } => {
                let suffix = crate::text::chars_to_string(text, pos, text.len());
                proof {
                    assert(suffix@ =~= text@.skip(pos as int));
                }
                match crate::scanners::regex_scanner::regex_find_first(
                    pattern.as_str(),
                    suffix.as_str(),
                ) {
                    Some((start, mat)) => {
                        let k = mat.as_str().unicode_len();
                        if start != 0 || k == 0 {
                            None
                        } else {
                            Some(k)
                        }
                    },
                    None => None,
                }
            },
            EscapeRule::Balanced { start_seq, end_seq, allow_nesting } => {
                let s = crate::text::to_chars(start_seq.as_str());
                let e = crate::text::to_chars(end_seq.as_str());
                if s.len() == 0 || e.len() == 0 || !crate::text::chars_match_at(text, pos, &s) {
                    return None;
                }
                let mut p: usize = pos + s.len();
                let mut depth: usize = 1;
                let mut found = false;
                loop
                    invariant_except_break
                        !found,
                        balanced_end(text@, p as int, s@, e@, *allow_nesting, depth as int)
                            == balanced_end(
                            text@,
                            pos + s@.len(),
                            s@,
                            e@,
                            *allow_nesting,
                            1,
                        ),
                    invariant
                        s@ == start_seq@,
                        e@ == end_seq@,
                        s@.len() > 0,
                        e@.len() > 0,
                        pos + s@.len() <= p,
                        text@.len() <= usize::MAX,
                        depth <= 1 + p - pos - s@.len(),
                        depth >= 1,
                    ensures
                        found ==> balanced_end(text@, pos + s@.len(), s@, e@, *allow_nesting, 1)
                            == Some(p as int),
                        !found ==> balanced_end(text@, pos + s@.len(), s@, e@, *allow_nesting, 1)
                            is None,
                        pos <= p,
                    decreases text@.len() - p,
                {
                    if p >= text.len() {
                        break ;
                    }
                    if crate::text::chars_match_at(text, p, &e) {
                        if depth == 1 {
                            proof {
                                assert(balanced_end(
                                    text@,
                                    p as int,
                                    s@,
                                    e@,
                                    *allow_nesting,
                                    1,
                                ) == Some(p + e@.len()));
                            }
                            p = p + e.len();
                            found = true;
                            break ;
                        }
                        depth = depth - 1;
                        p = p + e.len();
                    } else if *allow_nesting && crate::text::chars_match_at(text, p, &s) {
                        depth = depth + 1;
                        p = p + s.len();
                    } else {
                        p = p + 1;
                    }
                }
                if found {
                    Some(p - pos)
                } else {
                    None
                }
            },
        }
    }

    /// Decides the rule against the characters of `input` at character
    /// position `position`, exactly as `escape_match_len` describes it.
    pub fn try_match(&self, input: &str, position: usize) -> (r: Option<usize>)
        ensures
            match r {
                Some(k) => escape_match_len(self@, input@, position as int) == Some(k as int),
                None => escape_match_len(self@, input@, position as int) is None,
            },
    {
        let text = crate::text::to_chars(input);
        self.try_match_chars(&text, position)
    }
}

/// The first escape rule that matches at `pos`, as an index into the
/// rules together with the match length.
fn first_escape_exec(rules: &Vec<EscapeRule>, text: &Vec<char>, pos: usize) -> (r: Option<
    (usize, usize),
>)
    ensures
        match r {
            Some((i, k)) => i < rules@.len() && first_escape(
                rules@.map_values(|er: EscapeRule| er@),
                text@,
                pos as int,
            ) == Some((rules@[i as int]@, k as int)),
            None => first_escape(rules@.map_values(|er: EscapeRule| er@), text@, pos as int)
                is None,
        },
{
    let ghost models = rules@.map_values(|er: EscapeRule| er@);
    let mut i: usize = 0;
    while i < rules.len()
        invariant
            i <= rules@.len(),
            models == rules@.map_values(|er: EscapeRule| er@),
            forall|j: int|
                0 <= j < i ==> escape_match_len(#[trigger] models[j], text@, pos as int) is None,
        decreases rules@.len() - i,
    {
        match rules[i].try_match_chars(text, pos) {
            Some(k) => {
                proof {
                    lemma_first_escape_skip(models, text@, pos as int, i as int);
                    assert(models.skip(i as int)[0] == models[i as int]);
                    assert(models.skip(i as int).len() > 0);
                }
                return Some((i, k));
            },
            None => {
                i = i + 1;
            },
        }
    }
    proof {
        lemma_first_escape_skip(models, text@, pos as int, i as int);
        assert(models.skip(i as int).len() == 0);
    }
    None
}

/// Looks a key up in the escape map, earliest registration first.
fn map_lookup_exec(map: &Vec<EscapeMapping>, key: &Vec<char>) -> (r: Option<char>)
    ensures
        r == map_lookup(map@.map_values(|em: EscapeMapping| em@), key@),
{
    let ghost pairs = map@.map_values(|em: EscapeMapping| em@);
    let mut i: usize = 0;
    while i < map.len()
        invariant
            i <= map@.len(),
            pairs == map@.map_values(|em: EscapeMapping| em@),
            forall|j: int| 0 <= j < i ==> (#[trigger] pairs[j]).0 != key@,
        decreases map@.len() - i,
    {
        let entry_chars = crate::text::to_chars(map[i].sequence.as_str());
        if crate::text::chars_match_at(&entry_chars, 0, key) && entry_chars.len() == key.len() {
            proof {
                assert(entry_chars@.subrange(0, key@.len() as int) =~= entry_chars@);
                lemma_map_lookup_skip(pairs, key@, i as int);
                assert(pairs.skip(i as int)[0] == pairs[i as int]);
            }
            return Some(map[i].replacement);
        }
        i = i + 1;
        proof {
            assert((pairs[i - 1]).0 != key@) by {
                if pairs[i - 1].0 == key@ {
                    assert(entry_chars@ == key@);
                    assert(entry_chars@.subrange(0, key@.len() as int) =~= key@);
                    assert(matches_at(entry_chars@, 0, key@));
                }
            }
        }
    }
    proof {
        lemma_map_lookup_skip(pairs, key@, i as int);
        assert(pairs.skip(i as int).len() == 0);
    }
    None
}

/// `BlockScanner` recognises block structures between a start and an end
/// delimiter, optionally nested, with an escape sublanguage consulted
/// outside raw mode.
///
/// A scanner whose start or end delimiter is empty never claims any
/// input.
pub struct BlockScanner {
    /// The delimiter that opens a block.
    pub start_delimiter: String,
    /// The delimiter that closes a block.
    pub end_delimiter: String,
    /// The token type assigned to matched blocks.
    pub token_type: String,
    /// An optional finer category for matched blocks.
    pub token_sub_type: Option<String>,
    /// Whether nested blocks with the same delimiters are tracked.
    pub allow_nesting: bool,
    /// Whether the content is preserved exactly as written: no escape
    /// rule is consulted and no transformation applied.
    pub raw_mode: bool,
    /// Whether the delimiters stay part of the token value.
    pub include_delimiters: bool,
    /// The escape rules, consulted in registration order.
    pub escape_rules: Vec<EscapeRule>,
    /// The replacements applied when escapes are transformed; a later
    /// registration of the same sequence wins.
    pub escape_map: Vec<EscapeMapping>,
    /// Whether recognised escapes are substituted in the token value.
    pub transform_escapes: bool,
}

impl View for BlockScanner {
    type V = BlockModel;

    open spec fn view(&self) -> BlockModel {
        BlockModel {
            start: self.start_delimiter@,
            end: self.end_delimiter@,
            token_type: self.token_type@,
            token_sub_type: match self.token_sub_type {
                Some(s) => Some(s@),
                None => None,
            },
            allow_nesting: self.allow_nesting,
            raw_mode: self.raw_mode,
            include_delimiters: self.include_delimiters,
            rules: self.escape_rules@.map_values(|er: EscapeRule| er@),
            map: self.escape_map@.map_values(|em: EscapeMapping| em@),
            transform: self.transform_escapes,
        }
    }
}

/// Pushes the character range `[from, to)` of `v` onto `out`.
fn append_range(out: &mut Vec<char>, v: &Vec<char>, from: usize, to: usize)
    requires
        from <= to <= v@.len(),
    ensures
        final(out)@ == old(out)@ + v@.subrange(from as int, to as int),
{
    let mut i: usize = from;
    while i < to
        invariant
            from <= i <= to <= v@.len(),
            out@ =~= old(out)@ + v@.subrange(from as int, i as int),
        decreases to - i,
    {
        out.push(v[i]);
        i = i + 1;
        proof {
            assert(out@ =~= old(out)@ + v@.subrange(from as int, i as int));
        }
    }
    proof {
        assert(out@ =~= old(out)@ + v@.subrange(from as int, to as int));
    }
}

impl BlockScanner {
    /// Builds a scanner for one pair of block delimiters, with no escape
    /// rules, an empty escape map and transformation off.
    pub fn new(
        start_delimiter: &str,
        end_delimiter: &str,
        token_type: &str,
        token_sub_type: Option<&str>,
        allow_nesting: bool,
        raw_mode: bool,
        include_delimiters: bool,
    ) -> (r: BlockScanner)
        ensures
            r@ == (BlockModel {
                start: start_delimiter@,
                end: end_delimiter@,
                token_type: token_type@,
                token_sub_type: match token_sub_type {
                    Some(s) => Some(s@),
                    None => None,
                },
                allow_nesting,
                raw_mode,
                include_delimiters,
                rules: Seq::empty(),
                map: Seq::empty(),
                transform: false,
            }),
    {
        let r = BlockScanner {
            start_delimiter: String::from_str(start_delimiter),
            end_delimiter: String::from_str(end_delimiter),
            token_type: String::from_str(token_type),
            token_sub_type: match token_sub_type {
                Some(s) => Some(String::from_str(s)),
                None => None,
            },
            allow_nesting,
            raw_mode,
            include_delimiters,
            escape_rules: Vec::new(),
            escape_map: Vec::new(),
            transform_escapes: false,
        };
        proof {
            assert(r@.rules =~= Seq::<EscapeRuleModel>::empty());
            assert(r@.map =~= Seq::<(Seq<char>, char)>::empty());
        }
        r
    }

    /// Returns whether delimiters are kept in the token value.
    pub fn includes_delimiters(&self) -> (r: bool)
        ensures
            r == self.include_delimiters,
    {
        self.include_delimiters
    }

    /// Appends an escape rule; it is consulted after the ones already
    /// registered.
    pub fn add_escape_rule(&mut self, rule: EscapeRule)
        ensures
            final(self)@ == (BlockModel { rules: old(self)@.rules.push(rule@), ..old(self)@ }),
    {
        let ghost r = rule@;
        self.escape_rules.push(rule);
        proof {
            assert(self.escape_rules@.map_values(|er: EscapeRule| er@) =~= old(
                self,
            )@.rules.push(r));
        }
    }

    /// Registers a simple escape character, typically a backslash.
    pub fn add_simple_escape(&mut self, escape_char: char)
        ensures
            final(self)@ == (BlockModel {
                rules: old(self)@.rules.push(EscapeRuleModel::Simple { escape_char }),
                ..old(self)@
            }),
    {
        self.add_escape_rule(EscapeRule::Simple { escape_char });
    }

    /// Registers a named escape such as an HTML entity `&...;`.
    pub fn add_named_escape(&mut self, start_char: char, end_char: char, max_length: usize)
        ensures
            final(self)@ == (BlockModel {
                rules: old(self)@.rules.push(
                    EscapeRuleModel::Named {
                        start_char,
                        end_char,
                        max_length: max_length as int,
                    },
                ),
                ..old(self)@
            }),
    {
        self.add_escape_rule(EscapeRule::Named { start_char, end_char, max_length });
    }

    /// Registers a pattern escape. A pattern that does not compile is
    /// rejected and nothing is registered.
    pub fn add_pattern_escape(&mut self, pattern: &str) -> (r: Result<(), TokenizationError>)
        ensures
            r is Ok <==> crate::scanners::regex_scanner::regex_valid(pattern@),
            r is Ok ==> final(self)@ == (BlockModel {
                rules: old(self)@.rules.push(EscapeRuleModel::Pattern { pattern: pattern@ }),
                ..old(self)@
            }),
            r is Err ==> *final(self) == *old(self),
    {
        if !crate::scanners::regex_scanner::regex_compile_ok(pattern) {
            let mut msg = String::from_str("Invalid escape pattern: ");
            msg.append(pattern);
            return Err(TokenizationError::UnrecognizedToken(msg));
        }
        self.add_escape_rule(EscapeRule::Pattern { pattern: String::from_str(pattern) });
        Ok(())
    }

    /// Registers a balanced escape such as `${`...`}`.
    pub fn add_balanced_escape(&mut self, start_seq: &str, end_seq: &str, allow_nesting: bool)
        ensures
            final(self)@ == (BlockModel {
                rules: old(self)@.rules.push(
                    EscapeRuleModel::Balanced {
                        start_seq: start_seq@,
                        end_seq: end_seq@,
                        allow_nesting,
                    },
                ),
                ..old(self)@
            }),
    {
        self.add_escape_rule(
            EscapeRule::Balanced {
                start_seq: String::from_str(start_seq),
                end_seq: String::from_str(end_seq),
                allow_nesting,
            },
        );
    }

    /// Registers the replacement for an escape sequence; a sequence
    /// registered again takes the new replacement.
    pub fn add_escape_mapping(&mut self, sequence: &str, replacement: char)
        ensures
            final(self)@ == (BlockModel {
                map: old(self)@.map.insert(0, (sequence@, replacement)),
                ..old(self)@
            }),
    {
        self.escape_map.insert(
            0,
            EscapeMapping { sequence: String::from_str(sequence), replacement },
        );
        proof {
            assert(self.escape_map@.map_values(|em: EscapeMapping| em@) =~= old(self)@.map.insert(
                0,
                (sequence@, replacement),
            ));
        }
    }

    /// Turns escape transformation on or off.
    pub fn set_transform_escapes(&mut self, transform: bool)
        ensures
            final(self)@ == (BlockModel { transform, ..old(self)@ }),
    {
        self.transform_escapes = transform;
    }

    /// Walks the claimed block and finds where it ends, as
    /// `block_end` describes; `None` means the input ran out with the
    /// block still open.
    fn find_block_end_chars(&self, text: &Vec<char>) -> (r: Option<usize>)
        requires
            block_claims(self@, text@),
        ensures
            match r {
                Some(e) => block_end(self@, text@) == Some(e as int) && e <= text@.len(),
                None => block_end(self@, text@) is None,
            },
    {
        let ghost m = self@;
        let s = crate::text::to_chars(self.start_delimiter.as_str());
        let e = crate::text::to_chars(self.end_delimiter.as_str());
        let total = text.len();
        let mut pos: usize = s.len();
        let mut depth: usize = 1;
        let mut found = false;
        loop
            invariant_except_break
                !found,
                block_end_from(m, text@, pos as int, depth as int) == block_end(m, text@),
            invariant
                m == self@,
                s@ == m.start,
                e@ == m.end,
                s@.len() > 0,
                e@.len() > 0,
                s@.len() <= pos,
                total == text@.len(),
                text@.len() <= usize::MAX,
                depth <= 1 + pos - s@.len(),
                depth >= 1,
            ensures
                found ==> block_end(m, text@) == Some(pos as int) && pos <= text@.len(),
                !found ==> block_end(m, text@) is None,
            decreases text@.len() - pos,
        {
            if pos >= text.len() {
                break ;
            }
            if crate::text::chars_match_at(text, pos, &e) {
                if depth == 1 {
                    proof {
                        assert(block_end_from(m, text@, pos as int, 1) == Some(pos + e@.len()));
                    }
                    pos = pos + e.len();
                    found = true;
                    break ;
                }
                depth = depth - 1;
                pos = pos + e.len();
            } else if self.allow_nesting && crate::text::chars_match_at(text, pos, &s) {
                depth = depth + 1;
                pos = pos + s.len();
            } else if !self.raw_mode {
                match first_escape_exec(&self.escape_rules, text, pos) {
                    Some((i, k)) => {
                        proof {
                            lemma_first_escape_bounds(m.rules, text@, pos as int);
                        }
                        pos = pos + k;
                    },
                    None => {
                        if pos + 1 < text.len() && text[pos] == '\\' {
                            pos = pos + 2;
                        } else {
                            pos = pos + 1;
                        }
                    },
                }
            } else {
                pos = pos + 1;
            }
        }
        if found {
            Some(pos)
        } else {
            None
        }
    }

    /// Finds the full span of the block claimed at the start of `input`:
    /// the character position after the closing delimiter. `Ok(None)`
    /// means the scanner does not claim the input, and the error reports
    /// a block left open when the input ran out.
    pub fn find_match_end(&self, input: &str) -> (r: Result<Option<usize>, TokenizationError>)
        ensures
            match r {
                Ok(Some(e)) => block_claims(self@, input@) && block_end(self@, input@) == Some(
                    e as int,
                ),
                Ok(None) => !block_claims(self@, input@),
                Err(er) => block_claims(self@, input@) && block_end(self@, input@) is None && er@
                    == crate::tokens::error::ErrorModel::UnmatchedBlock(self@.start, self@.end),
            },
    {
        let text = crate::text::to_chars(input);
        if !self.claims_chars(&text) {
            return Ok(None);
        }
        match self.find_block_end_chars(&text) {
            Some(e) => Ok(Some(e)),
            None => Err(
                TokenizationError::UnmatchedBlockDelimiter(
                    self.start_delimiter.clone(),
                    self.end_delimiter.clone(),
                ),
            ),
        }
    }

    /// Whether the scanner claims the start of the given characters.
    fn claims_chars(&self, text: &Vec<char>) -> (r: bool)
        ensures
            r == block_claims(self@, text@),
    {
        let s = crate::text::to_chars(self.start_delimiter.as_str());
        if s.len() == 0 || self.end_delimiter.as_str().unicode_len() == 0 {
            return false;
        }
        crate::text::chars_match_at(text, 0, &s)
    }

    /// Substitutes the recognised escapes of `v`, as `transform_value`
    /// describes; when transformation is off, raw mode is on or no rule
    /// is registered, the text is kept as it is.
    fn transform_chars(&self, v: &Vec<char>) -> (out: Vec<char>)
        ensures
            out@ == transform_value(self@, v@),
    {
        let ghost m = self@;
        let mut out: Vec<char> = Vec::new();
        if !self.transform_escapes || self.raw_mode || self.escape_rules.len() == 0 {
            append_range(&mut out, v, 0, v.len());
            proof {
                assert(out@ =~= v@);
            }
            return out;
        }
        let mut pos: usize = 0;
        while pos < v.len()
            invariant
                m == self@,
                m.transform && !m.raw_mode && m.rules.len() > 0,
                pos <= v@.len(),
                out@ + transform_from(m, v@, pos as int) =~= transform_from(m, v@, 0),
            decreases v@.len() - pos,
        {
            let ghost out0 = out@;
            let ghost piece = transform_piece(m, v@, pos as int);
            proof {
                lemma_first_escape_bounds(m.rules, v@, pos as int);
                lemma_first_escape_matches(m.rules, v@, pos as int);
            }
            let mut step: usize = 1;
            match first_escape_exec(&self.escape_rules, v, pos) {
                Some((i, k)) => {
                    step = k;
                    match &self.escape_rules[i] {
                        EscapeRule::Simple { escape_char } => {
                            let c = v[pos + 1];
                            let mut key: Vec<char> = Vec::new();
                            key.push(c);
                            proof {
                                assert(key@ =~= seq![v@[pos + 1]]);
                            }
                            match map_lookup_exec(&self.escape_map, &key) {
                                Some(rep) => {
                                    out.push(rep);
                                },
                                None => {
                                    out.push(c);
                                },
                            }
                        },
                        EscapeRule::Named { start_char, end_char, max_length } => {
                            if k > 2 {
                                let mut entity: Vec<char> = Vec::new();
                                append_range(&mut entity, v, pos + 1, pos + k - 1);
                                proof {
                                    assert(entity@ =~= v@.subrange(pos + 1, pos + k - 1));
                                }
                                match map_lookup_exec(&self.escape_map, &entity) {
                                    Some(rep) => {
                                        out.push(rep);
                                    },
                                    None => {
                                        append_range(&mut out, v, pos, pos + k);
                                    },
                                }
                            } else {
                                append_range(&mut out, v, pos, pos + k);
                            }
                        },
                        EscapeRule::Pattern { pattern } => {
                            append_range(&mut out, v, pos, pos + k);
                        },
                        EscapeRule::Balanced { start_seq, end_seq, allow_nesting } => {
                            append_range(&mut out, v, pos, pos + k);
                        },
                    }
                },
                None => {
                    out.push(v[pos]);
                },
            }
            proof {
                assert(out@ =~= out0 + piece.0);
                assert(transform_from(m, v@, pos as int) == piece.0 + transform_from(
                    m,
                    v@,
                    pos + piece.1,
                ));
                assert(out0 + transform_from(m, v@, pos as int) =~= (out0 + piece.0)
                    + transform_from(m, v@, pos + piece.1));
            }
            pos = pos + step;
        }
        proof {
            assert(out@ =~= transform_from(m, v@, 0));
        }
        out
    }

    /// Claims the input iff it starts with the start delimiter and the
    /// block is closed before the input ends. The token carries the
    /// block's text, delimiters and escapes treated as configured; the
    /// engine advances by the full span, which `find_match_end` reports.
    pub fn scan(&self, input: &str) -> (r: Result<Option<Token>, TokenizationError>)
        ensures
            match r {
                Ok(Some(t)) => block_claims(self@, input@) && (match block_end(self@, input@) {
                    Some(e) => t@ == (TokenModel {
                        token_type: self@.token_type,
                        token_sub_type: self@.token_sub_type,
                        value: transform_value(self@, block_raw_value(self@, input@, e)),
                        line: 0,
                        column: 0,
                    }),
                    None => false,
                }),
                Ok(None) => !block_claims(self@, input@),
                Err(er) => block_claims(self@, input@) && block_end(self@, input@) is None && er@
                    == crate::tokens::error::ErrorModel::UnmatchedBlock(self@.start, self@.end),
            },
    {
        let ghost m = self@;
        let text = crate::text::to_chars(input);
        if !self.claims_chars(&text) {
            return Ok(None);
        }
        match self.find_block_end_chars(&text) {
            Some(end_pos) => {
                proof {
                    lemma_block_end_bounds(m, text@, m.start.len() as int, 1);
                }
                let s_len = crate::text::to_chars(self.start_delimiter.as_str()).len();
                let e_len = crate::text::to_chars(self.end_delimiter.as_str()).len();
                let mut raw: Vec<char> = Vec::new();
                if self.include_delimiters {
                    append_range(&mut raw, &text, 0, end_pos);
                } else {
                    append_range(&mut raw, &text, s_len, end_pos - e_len);
                }
                proof {
                    assert(raw@ =~= block_raw_value(m, text@, end_pos as int));
                }
                let value_chars = self.transform_chars(&raw);
                let value = crate::text::chars_to_string(&value_chars, 0, value_chars.len());
                proof {
                    assert(value@ =~= value_chars@);
                }
                Ok(
                    Some(
                        Token {
                            token_type: self.token_type.clone(),
                            token_sub_type: crate::tokens::token::clone_opt_string(
                                &self.token_sub_type,
                            ),
                            value,
                            line: 0,
                            column: 0,
                        },
                    ),
                )
            },
            None => Err(
                TokenizationError::UnmatchedBlockDelimiter(
                    self.start_delimiter.clone(),
                    self.end_delimiter.clone(),
                ),
            ),
        }
    }
}

impl Scanner for BlockScanner {
    /// Scans as the inherent `scan` does; positions are assigned by the
    /// engine.
    fn scan(&self, input: &str) -> Result<Option<Token>, TokenizationError> {
        BlockScanner::scan(self, input)
    }
}

} // verus!
