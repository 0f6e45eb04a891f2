//! Readable renderings of token sequences: listings, summaries,
//! comparisons and simple statistics.

use crate::text::dec_digits;
use crate::text::usize_to_string;
use crate::tokens::Token;
use crate::tokens::token::TokenModel;
use vstd::pervasive::VecAdditionalExecFns;
use vstd::prelude::*;

verus! {

broadcast use vstd::string::group_string_axioms;

/// `count` spaces.
pub open spec fn spaces(count: int) -> Seq<char> {
    Seq::new(if count >= 0 {
        count as nat
    } else {
        0
    }, |i: int| ' ')
}

/// `s` padded with spaces on the right up to `width`.
pub open spec fn pad_right(s: Seq<char>, width: int) -> Seq<char> {
    s + spaces(width - s.len())
}

/// `s` padded with spaces on the left up to `width`.
pub open spec fn pad_left(s: Seq<char>, width: int) -> Seq<char> {
    spaces(width - s.len()) + s
}

/// `s` centred in `width`, the odd space going right.
pub open spec fn centered(s: Seq<char>, width: int) -> Seq<char> {
    spaces((width - s.len()) / 2) + s + spaces(width - s.len() - (width - s.len()) / 2)
}

/// `s` with every newline written out as a backslash and an `n`.
pub open spec fn escape_newlines(s: Seq<char>) -> Seq<char>
    decreases s.len(),
{
    if s.len() == 0 {
        Seq::empty()
    } else if s[0] == '\n' {
        seq!['\\', 'n'] + escape_newlines(s.drop_first())
    } else {
        seq![s[0]] + escape_newlines(s.drop_first())
    }
}

/// The subtype of a token, or nothing.
pub open spec fn sub_or_empty(t: TokenModel) -> Seq<char> {
    match t.token_sub_type {
        Some(s) => s,
        None => Seq::empty(),
    }
}

/// What `token_summary` writes for one token.
pub open spec fn token_summary_model(t: TokenModel) -> Seq<char> {
    t.token_type + ":"@ + sub_or_empty(t) + " '"@ + escape_newlines(t.value) + "'"@
}

/// Appends `count` spaces.
fn push_spaces(out: &mut String, count: usize)
    ensures
        final(out)@ == old(out)@ + spaces(count as int),
{
    let mut i: usize = 0;
    while i < count
        invariant
            i <= count,
            out@ =~= old(out)@ + spaces(i as int),
        decreases count - i,
    {
        crate::text::push_char(out, ' ');
        i = i + 1;
        proof {
            assert(out@ =~= old(out)@ + spaces(i as int));
        }
    }
}

/// Appends `s` padded on the right up to `width`.
fn push_pad_right(out: &mut String, s: &str, width: usize)
    ensures
        final(out)@ == old(out)@ + pad_right(s@, width as int),
{
    out.append(s);
    let len = s.unicode_len();
    if len < width {
        push_spaces(out, width - len);
    } else {
        proof {
            assert(out@ =~= old(out)@ + pad_right(s@, width as int));
        }
    }
    proof {
        assert(out@ =~= old(out)@ + pad_right(s@, width as int));
    }
}

/// Appends `s` padded on the left up to `width`.
fn push_pad_left(out: &mut String, s: &str, width: usize)
    ensures
        final(out)@ == old(out)@ + pad_left(s@, width as int),
{
    let len = s.unicode_len();
    if len < width {
        push_spaces(out, width - len);
    }
    out.append(s);
    proof {
        assert(out@ =~= old(out)@ + pad_left(s@, width as int));
    }
}

/// Appends `s` centred in `width`.
fn push_centered(out: &mut String, s: &str, width: usize)
    ensures
        final(out)@ == old(out)@ + centered(s@, width as int),
{
    let len = s.unicode_len();
    if len < width {
        let total = width - len;
        push_spaces(out, total / 2);
        out.append(s);
        push_spaces(out, total - total / 2);
    } else {
        out.append(s);
    }
    proof {
        assert(out@ =~= old(out)@ + centered(s@, width as int));
    }
}

/// Appends the value with newlines escaped.
fn push_escaped(out: &mut String, s: &str)
    ensures
        final(out)@ == old(out)@ + escape_newlines(s@),
{
    let cs = crate::text::to_chars(s);
    proof {
        assert(s@.skip(0) =~= s@);
    }
    let mut i: usize = 0;
    while i < cs.len()
        invariant
            i <= cs@.len(),
            cs@ == s@,
            out@ + escape_newlines(s@.skip(i as int)) =~= old(out)@ + escape_newlines(s@),
        decreases cs@.len() - i,
    {
        let ghost before = s@.skip(i as int);
        proof {
            assert(before.drop_first() =~= s@.skip(i + 1));
            assert(before[0] == s@[i as int]);
        }
        if cs[i] == '\n' {
            crate::text::push_char(out, '\\');
            crate::text::push_char(out, 'n');
        } else {
            crate::text::push_char(out, cs[i]);
        }
        i = i + 1;
        proof {
            assert(out@ + escape_newlines(s@.skip(i as int)) =~= old(out)@ + escape_newlines(s@));
        }
    }
    proof {
        assert(escape_newlines(s@.skip(s@.len() as int)) =~= Seq::<char>::empty());
        assert(out@ =~= old(out)@ + escape_newlines(s@));
    }
}

/// Appends the subtype, or nothing.
fn push_sub(out: &mut String, t: &Token, width: usize)
    ensures
        final(out)@ == old(out)@ + pad_right(sub_or_empty(t@), width as int),
{
    match &t.token_sub_type {
        Some(s) => push_pad_right(out, s.as_str(), width),
        None => {
            push_pad_right(out, "", width);
            proof {
                reveal_strlit("");
                assert(""@ =~= Seq::<char>::empty());
                assert(pad_right(""@, width as int) =~= pad_right(
                    sub_or_empty(t@),
                    width as int,
                ));
            }
        },
    }
}

/// A compact one-line account of a token: its type, subtype and value,
/// newlines written out.
pub fn token_summary(token: &Token) -> (r: String)
    ensures
        r@ == token_summary_model(token@),
{
    let mut out = String::new();
    out.append(token.token_type.as_str());
    out.append(":");
    match &token.token_sub_type {
        Some(s) => out.append(s.as_str()),
        None => (),
    }
    out.append(" '");
    push_escaped(&mut out, token.value.as_str());
    out.append("'");
    proof {
        assert(out@ =~= token_summary_model(token@));
    }
    out
}

/// What `pretty_print_tokens` writes for the token at `idx`.
pub open spec fn pretty_row_model(idx: int, t: TokenModel) -> Seq<char> {
    "> "@ + pad_left(dec_digits(idx), 3) + ": "@ + pad_right(t.token_type, 15) + " "@ + pad_right(
        sub_or_empty(t),
        20,
    ) + " '"@ + escape_newlines(t.value) + "' (line "@ + dec_digits(t.line) + ", col "@
        + dec_digits(t.column) + ") \n\n\n"@
}

/// What `pretty_print_tokens` writes: a header and one row per token.
pub open spec fn pretty_print_model(ts: Seq<TokenModel>, upto: int) -> Seq<char>
    decreases upto,
{
    if upto <= 0 {
        "Tokens:\n"@
    } else {
        pretty_print_model(ts, upto - 1) + pretty_row_model(upto - 1, ts[upto - 1])
    }
}

/// Appends the listing row for the token at `idx`.
#[verifier::rlimit(100)]
fn push_pretty_row(out: &mut String, idx: usize, t: &Token)
    ensures
        final(out)@ == old(out)@ + pretty_row_model(idx as int, t@),
{
    out.append("> ");
    let idx_str = usize_to_string(idx);
    push_pad_left(out, idx_str.as_str(), 3);
    out.append(": ");
    push_pad_right(out, t.token_type.as_str(), 15);
    out.append(" ");
    push_sub(out, t, 20);
    out.append(" '");
    push_escaped(out, t.value.as_str());
    out.append("' (line ");
    let ln = usize_to_string(t.line);
    out.append(ln.as_str());
    out.append(", col ");
    let cn = usize_to_string(t.column);
    out.append(cn.as_str());
    out.append(") \n\n\n");
    proof {
        assert(out@ =~= old(out)@ + pretty_row_model(idx as int, t@));
    }
}

/// Writes every token on a line of its own, in a readable table.
pub fn pretty_print_tokens(tokens: &Vec<Token>) -> (r: String)
    ensures
        r@ == pretty_print_model(
            crate::tokenizers::tokenizer::toks_model(tokens@),
            tokens@.len() as int,
        ),
{
    let ghost ts = crate::tokenizers::tokenizer::toks_model(tokens@);
    let mut out = String::from_str("Tokens:\n");
    let mut i: usize = 0;
    while i < tokens.len()
        invariant
            i <= tokens@.len(),
            ts == crate::tokenizers::tokenizer::toks_model(tokens@),
            out@ == pretty_print_model(ts, i as int),
        decreases tokens@.len() - i,
    {
        push_pretty_row(&mut out, i, &tokens[i]);
        i = i + 1;
        proof {
            assert(ts[i - 1] == tokens@[i - 1]@);
        }
    }
    out
}

/// What `compare_tokens` writes for one pair of rows.
pub open spec fn compare_row_model(
    expected: Seq<TokenModel>,
    actual: Seq<TokenModel>,
    i: int,
) -> Seq<char> {
    let es = if i < expected.len() {
        token_summary_model(expected[i])
    } else {
        Seq::empty()
    };
    let ac = if i < actual.len() {
        token_summary_model(actual[i])
    } else {
        Seq::empty()
    };
    let status = if i < expected.len() && i < actual.len() && expected[i] == actual[i] {
        "\u{2713}"@
    } else {
        "\u{2717}"@
    };
    pad_right(status, 3) + " "@ + pad_right(es, 40) + " "@ + pad_right(ac, 40) + "\n"@
}

/// The rows of the comparison table up to `upto`.
pub open spec fn compare_rows_model(
    expected: Seq<TokenModel>,
    actual: Seq<TokenModel>,
    upto: int,
) -> Seq<char>
    decreases upto,
{
    if upto <= 0 {
        Seq::empty()
    } else {
        compare_rows_model(expected, actual, upto - 1) + compare_row_model(
            expected,
            actual,
            upto - 1,
        )
    }
}

/// `count` dashes.
pub open spec fn dashes(count: int) -> Seq<char> {
    Seq::new(if count >= 0 {
        count as nat
    } else {
        0
    }, |i: int| '-')
}

/// What `compare_tokens` writes: a header and one row per index up to
/// the longer sequence, a tick marking the pairs that agree.
pub open spec fn compare_model(expected: Seq<TokenModel>, actual: Seq<TokenModel>) -> Seq<char> {
    let rows = if expected.len() >= actual.len() {
        expected.len() as int
    } else {
        actual.len() as int
    };
    "Token Comparison:\n"@ + pad_right(Seq::empty(), 3) + " "@ + centered("Expected"@, 40) + " "@
        + centered("Actual"@, 40) + "\n"@ + dashes(85) + "\n"@ + compare_rows_model(
        expected,
        actual,
        rows,
    )
}

/// A line of `s` as displayed: a trailing carriage return is dropped.
pub open spec fn strip_cr(s: Seq<char>) -> Seq<char> {
    if s.len() > 0 && s[s.len() - 1] == '\r' {
        s.drop_last()
    } else {
        s
    }
}

/// The displayed lines of `s`: the segments between newlines, each with
/// a trailing carriage return dropped, the trailing empty segment after
/// a final newline left out.
pub open spec fn split_lines(s: Seq<char>) -> Seq<Seq<char>>
    decreases s.len(),
    via split_lines_dec
{
    if s.len() == 0 {
        Seq::empty()
    } else {
        match crate::scanners::block_scanner::find_to(s, '\n', 0, s.len() as int) {
            Some(j) => seq![strip_cr(s.subrange(0, j))] + split_lines(s.skip(j + 1)),
            None => seq![strip_cr(s)],
        }
    }
}

#[via_fn]
proof fn split_lines_dec(s: Seq<char>) {
    if s.len() > 0 {
        crate::scanners::block_scanner::lemma_find_to(s, '\n', 0, s.len() as int);
    }
}

/// The marker `^i` written into the pointer line of the token's line,
/// padded out to the token's column.
pub open spec fn mark_one(ptr: Seq<Seq<char>>, t: TokenModel, i: int) -> Seq<Seq<char>> {
    if 0 < t.line <= ptr.len() {
        let li = t.line - 1;
        let cur = ptr[li];
        let padded = if cur.len() < t.column - 1 {
            cur + spaces(t.column - 1 - cur.len())
        } else {
            cur
        };
        ptr.update(li, padded + "^"@ + dec_digits(i))
    } else {
        ptr
    }
}

/// The pointer lines after the markers of the first `upto` tokens.
pub open spec fn apply_markers(ptr: Seq<Seq<char>>, ts: Seq<TokenModel>, upto: int) -> Seq<
    Seq<char>,
>
    decreases upto,
{
    if upto <= 0 {
        ptr
    } else {
        mark_one(apply_markers(ptr, ts, upto - 1), ts[upto - 1], upto - 1)
    }
}

/// One displayed source line with its pointer line, when any marker
/// stands in it.
pub open spec fn visualize_row(lines: Seq<Seq<char>>, ptr: Seq<Seq<char>>, i: int) -> Seq<char> {
    pad_left(dec_digits(i + 1), 4) + " | "@ + lines[i] + "\n"@ + (if ptr[i].len() > 0 {
        "     | "@ + ptr[i] + "\n"@
    } else {
        Seq::empty()
    })
}

/// The rows of the visualisation up to `upto`.
pub open spec fn visualize_rows(lines: Seq<Seq<char>>, ptr: Seq<Seq<char>>, upto: int) -> Seq<
    char,
>
    decreases upto,
{
    if upto <= 0 {
        Seq::empty()
    } else {
        visualize_rows(lines, ptr, upto - 1) + visualize_row(lines, ptr, upto - 1)
    }
}

/// The displayed lines of the input, an empty line added at the end
/// when the input does not close with a newline.
pub open spec fn visual_lines(input: Seq<char>) -> Seq<Seq<char>> {
    if !(input.len() > 0 && input[input.len() - 1] == '\n') {
        split_lines(input).push(Seq::empty())
    } else {
        split_lines(input)
    }
}

/// What `visualize_token_positions` writes: each source line numbered,
/// under it a pointer line marking where each token begins.
pub open spec fn visualize_model(input: Seq<char>, ts: Seq<TokenModel>) -> Seq<char> {
    let lines = visual_lines(input);
    let ptr = apply_markers(
        Seq::new(lines.len(), |i: int| Seq::<char>::empty()),
        ts,
        ts.len() as int,
    );
    visualize_rows(lines, ptr, lines.len() as int)
}

/// Splits the characters into displayed lines.
fn split_lines_exec(text: &Vec<char>) -> (r: Vec<String>)
    ensures
        strs_model(r@) == split_lines(text@),
    decreases text@.len(),
{
    let mut r: Vec<String> = Vec::new();
    let mut start: usize = 0;
    let n = text.len();
    proof {
        assert(text@.skip(0) =~= text@);
        assert(strs_model(r@) =~= Seq::<Seq<char>>::empty());
    }
    loop
        invariant
            start <= n == text@.len(),
            split_lines(text@) =~= strs_model(r@) + split_lines(
                text@.skip(start as int),
            ),
        ensures
            start >= n,
            split_lines(text@) =~= strs_model(r@) + split_lines(
                text@.skip(start as int),
            ),
        decreases n - start,
    {
        if start >= n {
            break ;
        }
        let ghost rest = text@.skip(start as int);
        let ghost r0 = r@;
        let mut j: usize = start;
        while j < n
            invariant
                start <= j <= n == text@.len(),
                forall|t: int| start <= t < j ==> text@[t] != '\n',
            ensures
                start <= j <= n,
                forall|t: int| start <= t < j ==> text@[t] != '\n',
                j == n || text@[j as int] == '\n',
            decreases n - j,
        {
            if text[j] == '\n' {
                break ;
            }
            j = j + 1;
        }
        proof {
            crate::scanners::block_scanner::lemma_find_to(rest, '\n', 0, rest.len() as int);
            if j < n {
                assert(rest[j - start] == '\n');
                let f = crate::scanners::block_scanner::find_to(rest, '\n', 0, rest.len() as int);
                assert(f is Some);
                let w = f->0;
                if w < j - start {
                    assert(rest[w] == text@[start + w]);
                    assert(false);
                }
                if w > j - start {
                    assert(rest[j - start] != '\n');
                    assert(false);
                }
                assert(f == Some(j - start));
            } else {
                assert(forall|t: int| 0 <= t < rest.len() ==> rest[t] != '\n');
                assert(crate::scanners::block_scanner::find_to(rest, '\n', 0, rest.len() as int)
                    is None);
            }
        }
        let line_end: usize = if j > start && text[j - 1] == '\r' {
            j - 1
        } else {
            j
        };
        let line = crate::text::chars_to_string(text, start, line_end);
        proof {
            let raw = if j < n {
                rest.subrange(0, j - start)
            } else {
                rest
            };
            assert(rest.subrange(0, j - start) =~= text@.subrange(start as int, j as int));
            assert(rest =~= text@.subrange(start as int, n as int));
            assert(strip_cr(raw) =~= text@.subrange(start as int, line_end as int));
        }
        r.push(line);
        let new_start: usize = if j < n {
            j + 1
        } else {
            n
        };
        proof {
            if j < n {
                assert(rest.skip((j - start) + 1) =~= text@.skip(new_start as int));
                assert(split_lines(rest) == seq![strip_cr(rest.subrange(0, j - start))]
                    + split_lines(rest.skip((j - start) + 1)));
            } else {
                assert(split_lines(rest) =~= seq![strip_cr(rest)]);
                assert(text@.skip(n as int).len() == 0);
                assert(split_lines(text@.skip(new_start as int)) =~= Seq::<Seq<char>>::empty());
            }
            assert(strs_model(r@) =~= r0.map_values(|l: String| l@).push(line@));
            assert(split_lines(text@) =~= strs_model(r@) + split_lines(
                text@.skip(new_start as int),
            ));
        }
        start = new_start;
    }
    proof {
        assert(split_lines(text@.skip(start as int)) =~= Seq::<Seq<char>>::empty());
        assert(strs_model(r@) =~= split_lines(text@));
    }
    r
}

/// Draws the input with a pointer line under each source line, a marker
/// `^i` under the place where token `i` begins.
#[verifier::rlimit(100)]
pub fn visualize_token_positions(input: &str, tokens: &Vec<Token>) -> (r: String)
    ensures
        r@ == visualize_model(input@, crate::tokenizers::tokenizer::toks_model(tokens@)),
{
    let ghost ts = crate::tokenizers::tokenizer::toks_model(tokens@);
    let text = crate::text::to_chars(input);
    let mut lines = split_lines_exec(&text);
    let ends_nl = text.len() > 0 && text[text.len() - 1] == '\n';
    if !ends_nl {
        lines.push(String::new());
        proof {
            assert(strs_model(lines@) =~= split_lines(input@).push(
                Seq::<char>::empty(),
            ));
        }
    }
    let ghost vlines = visual_lines(input@);
    proof {
        assert(strs_model(lines@) == vlines);
    }
    let mut pointer_lines: Vec<String> = Vec::new();
    let mut pi: usize = 0;
    while pi < lines.len()
        invariant
            pi <= lines@.len(),
            pointer_lines@.len() == pi,
            forall|t: int| 0 <= t < pi ==> (#[trigger] pointer_lines@[t])@ == Seq::<char>::empty(),
        decreases lines@.len() - pi,
    {
        pointer_lines.push(String::new());
        pi = pi + 1;
    }
    proof {
        assert(strs_model(pointer_lines@) =~= Seq::new(
            vlines.len(),
            |i: int| Seq::<char>::empty(),
        ));
    }
    let mut i: usize = 0;
    while i < tokens.len()
        invariant
            i <= tokens@.len(),
            ts == crate::tokenizers::tokenizer::toks_model(tokens@),
            vlines == visual_lines(input@),
            strs_model(lines@) == vlines,
            pointer_lines@.len() == vlines.len(),
            strs_model(pointer_lines@) == apply_markers(
                Seq::new(vlines.len(), |t: int| Seq::<char>::empty()),
                ts,
                i as int,
            ),
        decreases tokens@.len() - i,
    {
        let ghost ptr0 = strs_model(pointer_lines@);
        let t = &tokens[i];
        proof {
            assert(ts[i as int] == tokens@[i as int]@);
        }
        if t.line > 0 && t.line <= pointer_lines.len() {
            let li = t.line - 1;
            let ghost cur = ptr0[li as int];
            let mut updated = pointer_lines[li].clone();
            proof {
                assert(updated@ == cur);
            }
            let cur_len = updated.as_str().unicode_len();
            if t.column >= 1 && cur_len < t.column - 1 {
                push_spaces(&mut updated, t.column - 1 - cur_len);
            }
            proof {
                if cur.len() < t@.column - 1 {
                    assert(updated@ == cur + spaces(t@.column - 1 - cur.len()));
                } else {
                    assert(updated@ == cur);
                }
            }
            crate::text::push_char(&mut updated, '^');
            let idx_str = usize_to_string(i);
            updated.append(idx_str.as_str());
            proof {
                let padded = if cur.len() < t@.column - 1 {
                    cur + spaces(t@.column - 1 - cur.len())
                } else {
                    cur
                };
                reveal_strlit("^");
                assert("^"@ =~= seq!['^']);
                assert(updated@ =~= padded + "^"@ + dec_digits(i as int));
            }
            pointer_lines.set(li, updated);
            proof {
                assert(strs_model(pointer_lines@) =~= mark_one(
                    ptr0,
                    ts[i as int],
                    i as int,
                ));
            }
        } else {
            proof {
                assert(mark_one(ptr0, ts[i as int], i as int) == ptr0);
            }
        }
        i = i + 1;
    }
    let ghost ptr = apply_markers(
        Seq::new(vlines.len(), |t: int| Seq::<char>::empty()),
        ts,
        ts.len() as int,
    );
    let mut out = String::new();
    let mut li: usize = 0;
    while li < lines.len()
        invariant
            li <= lines@.len(),
            vlines == visual_lines(input@),
            strs_model(lines@) == vlines,
            pointer_lines@.len() == vlines.len(),
            strs_model(pointer_lines@) == ptr,
            out@ == visualize_rows(vlines, ptr, li as int),
        decreases lines@.len() - li,
    {
        let ghost out0 = out@;
        let row = usize_to_string(li + 1);
        push_pad_left(&mut out, row.as_str(), 4);
        out.append(" | ");
        out.append(lines[li].as_str());
        out.append("\n");
        if pointer_lines[li].as_str().unicode_len() > 0 {
            out.append("     | ");
            out.append(pointer_lines[li].as_str());
            out.append("\n");
        }
        li = li + 1;
        proof {
            assert(vlines[li - 1] == lines@[li - 1]@);
            assert(ptr[li - 1] == pointer_lines@[li - 1]@);
            assert(out@ =~= out0 + visualize_row(vlines, ptr, li - 1));
        }
    }
    out
}

/// One more sighting of `key`: the first entry with that key counts one
/// higher, or a fresh entry is appended.
pub open spec fn bump(counts: Seq<(Seq<char>, int)>, key: Seq<char>) -> Seq<(Seq<char>, int)>
    decreases counts.len(),
{
    if counts.len() == 0 {
        seq![(key, 1int)]
    } else if counts[0].0 == key {
        seq![(counts[0].0, counts[0].1 + 1)] + counts.drop_first()
    } else {
        seq![counts[0]] + bump(counts.drop_first(), key)
    }
}

/// The types of the first `upto` tokens counted, in order of first
/// sighting.
pub open spec fn type_counts(ts: Seq<TokenModel>, upto: int) -> Seq<(Seq<char>, int)>
    decreases upto,
{
    if upto <= 0 {
        Seq::empty()
    } else {
        bump(type_counts(ts, upto - 1), ts[upto - 1].token_type)
    }
}

/// The subtypes of the first `upto` tokens counted, tokens without one
/// left out.
pub open spec fn subtype_counts(ts: Seq<TokenModel>, upto: int) -> Seq<(Seq<char>, int)>
    decreases upto,
{
    if upto <= 0 {
        Seq::empty()
    } else {
        match ts[upto - 1].token_sub_type {
            Some(s) => bump(subtype_counts(ts, upto - 1), s),
            None => subtype_counts(ts, upto - 1),
        }
    }
}

/// One more token on line `key`.
pub open spec fn line_bump(counts: Seq<(int, int)>, key: int) -> Seq<(int, int)>
    decreases counts.len(),
{
    if counts.len() == 0 {
        seq![(key, 1int)]
    } else if counts[0].0 == key {
        seq![(counts[0].0, counts[0].1 + 1)] + counts.drop_first()
    } else {
        seq![counts[0]] + line_bump(counts.drop_first(), key)
    }
}

/// The lines of the first `upto` tokens counted, in order of first
/// sighting.
pub open spec fn line_counts(ts: Seq<TokenModel>, upto: int) -> Seq<(int, int)>
    decreases upto,
{
    if upto <= 0 {
        Seq::empty()
    } else {
        line_bump(line_counts(ts, upto - 1), ts[upto - 1].line)
    }
}

/// The highest line any of the first `upto` tokens stands on.
pub open spec fn max_line(ts: Seq<TokenModel>, upto: int) -> int
    decreases upto,
{
    if upto <= 0 {
        0
    } else if ts[upto - 1].line > max_line(ts, upto - 1) {
        ts[upto - 1].line
    } else {
        max_line(ts, upto - 1)
    }
}

/// One table row of a count listing.
pub open spec fn count_row(name: Seq<char>, count: int) -> Seq<char> {
    pad_right(name, 15) + ": "@ + dec_digits(count) + "\n"@
}

/// The rows of a count listing up to `upto`.
pub open spec fn count_rows(counts: Seq<(Seq<char>, int)>, upto: int) -> Seq<char>
    decreases upto,
{
    if upto <= 0 {
        Seq::empty()
    } else {
        count_rows(counts, upto - 1) + count_row(counts[upto - 1].0, counts[upto - 1].1)
    }
}

/// The warning for a line with an unusually high token count: more than
/// twice the mean per covered line, written with one decimal.
pub open spec fn high_count_issue(l: int, c: int, total: int, maxl: int) -> Seq<char> {
    "Line "@ + dec_digits(l) + " has high token count: "@ + dec_digits(c) + " (avg: "@
        + dec_digits(total / maxl) + "."@ + dec_digits((10 * total / maxl) % 10) + ")"@
}

/// The high-count warnings among the first `upto` counted lines.
pub open spec fn high_issues(
    lcs: Seq<(int, int)>,
    total: int,
    maxl: int,
    upto: int,
) -> Seq<Seq<char>>
    decreases upto,
{
    if upto <= 0 {
        Seq::empty()
    } else {
        let rest = high_issues(lcs, total, maxl, upto - 1);
        if maxl > 0 && lcs[upto - 1].1 * maxl > 2 * total {
            rest.push(high_count_issue(lcs[upto - 1].0, lcs[upto - 1].1, total, maxl))
        } else {
            rest
        }
    }
}

/// The warnings for tokens whose value is empty, among the first `upto`.
pub open spec fn empty_issues(ts: Seq<TokenModel>, upto: int) -> Seq<Seq<char>>
    decreases upto,
{
    if upto <= 0 {
        Seq::empty()
    } else {
        let rest = empty_issues(ts, upto - 1);
        if ts[upto - 1].value.len() == 0 {
            rest.push("Token "@ + dec_digits(upto - 1) + " has empty value"@)
        } else {
            rest
        }
    }
}

/// The issue lines up to `upto`, one dash-led row each.
pub open spec fn issue_rows(issues: Seq<Seq<char>>, upto: int) -> Seq<char>
    decreases upto,
{
    if upto <= 0 {
        Seq::empty()
    } else {
        issue_rows(issues, upto - 1) + "- "@ + issues[upto - 1] + "\n"@
    }
}

/// What `analyze_tokens` writes: totals, the type and subtype
/// distributions in order of first sighting, and the issues found.
pub open spec fn analyze_model(ts: Seq<TokenModel>) -> Seq<char> {
    let total = ts.len() as int;
    let maxl = max_line(ts, total);
    let tc = type_counts(ts, total);
    let sc = subtype_counts(ts, total);
    let issues = high_issues(line_counts(ts, total), total, maxl, line_counts(ts, total).len() as int)
        + empty_issues(ts, total);
    "Token Analysis:\n"@ + "Total Tokens: "@ + dec_digits(total) + "\n"@ + "Lines Covered: "@
        + dec_digits(maxl) + "\n"@ + "\nToken Type Distribution:\n"@ + count_rows(
        tc,
        tc.len() as int,
    ) + (if sc.len() > 0 {
        "\nToken Subtype Distribution:\n"@ + count_rows(sc, sc.len() as int)
    } else {
        Seq::empty()
    }) + "\nPotential Issues:\n"@ + (if issues.len() == 0 {
        "No issues detected\n"@
    } else {
        issue_rows(issues, issues.len() as int)
    })
}

/// Claiming more than the threshold is the same as exceeding the
/// quotient: for a positive divisor, `c * m > 2 * t` holds exactly when
/// `c` exceeds `(2 * t) / m`.
proof fn lemma_mul_div_threshold(c: int, m: int, t: int)
    requires
        m > 0,
        c >= 0,
        t >= 0,
    ensures
        (c * m > 2 * t) <==> (c > (2 * t) / m),
{
    let t2 = 2 * t;
    let q = t2 / m;
    vstd::arithmetic::div_mod::lemma_fundamental_div_mod(t2, m);
    vstd::arithmetic::div_mod::lemma_mod_bound(t2, m);
    let r = t2 % m;
    if c > q {
        assert(c * m >= (q + 1) * m) by (nonlinear_arith)
            requires
                c >= q + 1,
                m > 0,
        ;
        assert((q + 1) * m == q * m + m) by (nonlinear_arith);
        assert(m * q == q * m) by (nonlinear_arith);
    } else {
        assert(c * m <= q * m) by (nonlinear_arith)
            requires
                c <= q,
                m > 0,
                c >= 0,
        ;
        assert(m * q == q * m) by (nonlinear_arith);
    }
}

/// A name seen so far and how often.
struct CountEntry {
    name: String,
    count: usize,
}

/// A line seen so far and how many tokens stand on it.
struct LineEntry {
    line: usize,
    count: usize,
}

/// The texts of a string sequence.
pub open spec fn strs_model(v: Seq<String>) -> Seq<Seq<char>> {
    v.map_values(|s: String| s@)
}

/// Appending a string appends its text.
proof fn lemma_strs_push(s: Seq<String>, x: String)
    ensures
        strs_model(s.push(x)) == strs_model(s).push(x@),
{
    assert forall|j: int| 0 <= j < strs_model(s.push(x)).len() implies strs_model(s.push(x))[j]
        == strs_model(s).push(x@)[j] by {
        assert(strs_model(s.push(x))[j] == s.push(x)[j]@);
    }
    assert(strs_model(s.push(x)) =~= strs_model(s).push(x@));
}

/// The counts as the model sees them.
spec fn count_entries(v: Seq<CountEntry>) -> Seq<(Seq<char>, int)> {
    v.map_values(|e: CountEntry| (e.name@, e.count as int))
}

/// The line counts as the model sees them.
spec fn line_entries(v: Seq<LineEntry>) -> Seq<(int, int)> {
    v.map_values(|e: LineEntry| (e.line as int, e.count as int))
}






/// Bumping a key found first at `idx` raises exactly that tally.
proof fn lemma_bump_at(counts: Seq<(Seq<char>, int)>, key: Seq<char>, idx: int)
    requires
        0 <= idx < counts.len(),
        counts[idx].0 == key,
        forall|j: int| 0 <= j < idx ==> (#[trigger] counts[j]).0 != key,
    ensures
        bump(counts, key) == counts.update(idx, (counts[idx].0, counts[idx].1 + 1)),
    decreases idx,
{
    if idx == 0 {
        assert(bump(counts, key) =~= counts.update(0, (counts[0].0, counts[0].1 + 1)));
    } else {
        assert(forall|j: int|
            0 <= j < idx - 1 ==> (#[trigger] counts.drop_first()[j]).0 != key);
        lemma_bump_at(counts.drop_first(), key, idx - 1);
        assert(bump(counts, key) =~= counts.update(idx, (counts[idx].0, counts[idx].1 + 1)));
    }
}

/// Bumping an unseen key appends a fresh tally of one.
proof fn lemma_bump_absent(counts: Seq<(Seq<char>, int)>, key: Seq<char>)
    requires
        forall|j: int| 0 <= j < counts.len() ==> (#[trigger] counts[j]).0 != key,
    ensures
        bump(counts, key) == counts.push((key, 1int)),
    decreases counts.len(),
{
    if counts.len() == 0 {
        assert(bump(counts, key) =~= counts.push((key, 1int)));
    } else {
        assert(forall|j: int|
            0 <= j < counts.drop_first().len() ==> (#[trigger] counts.drop_first()[j]).0 != key);
        lemma_bump_absent(counts.drop_first(), key);
        assert(bump(counts, key) =~= counts.push((key, 1int)));
    }
}

/// Bumping a line found first at `idx` raises exactly that tally.
proof fn lemma_line_bump_at(counts: Seq<(int, int)>, key: int, idx: int)
    requires
        0 <= idx < counts.len(),
        counts[idx].0 == key,
        forall|j: int| 0 <= j < idx ==> (#[trigger] counts[j]).0 != key,
    ensures
        line_bump(counts, key) == counts.update(idx, (counts[idx].0, counts[idx].1 + 1)),
    decreases idx,
{
    if idx == 0 {
        assert(line_bump(counts, key) =~= counts.update(0, (counts[0].0, counts[0].1 + 1)));
    } else {
        assert(forall|j: int|
            0 <= j < idx - 1 ==> (#[trigger] counts.drop_first()[j]).0 != key);
        lemma_line_bump_at(counts.drop_first(), key, idx - 1);
        assert(line_bump(counts, key) =~= counts.update(idx, (counts[idx].0, counts[idx].1 + 1)));
    }
}

/// Bumping an unseen line appends a fresh tally of one.
proof fn lemma_line_bump_absent(counts: Seq<(int, int)>, key: int)
    requires
        forall|j: int| 0 <= j < counts.len() ==> (#[trigger] counts[j]).0 != key,
    ensures
        line_bump(counts, key) == counts.push((key, 1int)),
    decreases counts.len(),
{
    if counts.len() == 0 {
        assert(line_bump(counts, key) =~= counts.push((key, 1int)));
    } else {
        assert(forall|j: int|
            0 <= j < counts.drop_first().len() ==> (#[trigger] counts.drop_first()[j]).0 != key);
        lemma_line_bump_absent(counts.drop_first(), key);
        assert(line_bump(counts, key) =~= counts.push((key, 1int)));
    }
}

/// Records one sighting of `key` in the counts.
fn bump_exec(counts: &mut Vec<CountEntry>, key: &String, bound: usize)
    requires
        forall|j: int|
            0 <= j < old(counts)@.len() ==> (#[trigger] old(counts)@[j]).count <= bound,
        bound < usize::MAX,
    ensures
        count_entries(final(counts)@) == bump(count_entries(old(counts)@), key@),
        forall|j: int|
            0 <= j < final(counts)@.len() ==> (#[trigger] final(counts)@[j]).count <= bound + 1,
{
    let ghost pairs = count_entries(counts@);
    let mut i: usize = 0;
    while i < counts.len()
        invariant
            i <= counts@.len(),
            pairs == count_entries(counts@),
            pairs == count_entries(old(counts)@),
            forall|j: int| 0 <= j < counts@.len() ==> (#[trigger] counts@[j]).count <= bound,
            bound < usize::MAX,
            forall|j: int| 0 <= j < i ==> (#[trigger] pairs[j]).0 != key@,
        decreases counts@.len() - i,
    {
        if counts[i].name.eq(key) {
            let c = counts[i].count;
            let name = counts[i].name.clone();
            proof {
                assert(pairs[i as int].0 == counts@[i as int].name@);
                assert(pairs[i as int].1 == counts@[i as int].count as int);
            }
            counts.set(i, CountEntry { name, count: c + 1 });
            proof {
                lemma_bump_at(pairs, key@, i as int);
                assert(count_entries(counts@) =~= pairs.update(
                    i as int,
                    (pairs[i as int].0, pairs[i as int].1 + 1),
                ));
            }
            return ;
        }
        proof {
            assert(pairs[i as int].0 == counts@[i as int].name@);
        }
        i = i + 1;
    }
    counts.push(CountEntry { name: key.clone(), count: 1 });
    proof {
        lemma_bump_absent(pairs, key@);
        assert(count_entries(counts@) =~= pairs.push((key@, 1int)));
    }
}

/// Records one sighting of line `key` in the counts.
fn line_bump_exec(counts: &mut Vec<LineEntry>, key: usize, bound: usize)
    requires
        forall|j: int|
            0 <= j < old(counts)@.len() ==> (#[trigger] old(counts)@[j]).count <= bound,
        bound < usize::MAX,
    ensures
        line_entries(final(counts)@) == line_bump(line_entries(old(counts)@), key as int),
        forall|j: int|
            0 <= j < final(counts)@.len() ==> (#[trigger] final(counts)@[j]).count <= bound + 1,
{
    let ghost pairs = line_entries(counts@);
    let mut i: usize = 0;
    while i < counts.len()
        invariant
            i <= counts@.len(),
            pairs == line_entries(counts@),
            pairs == line_entries(old(counts)@),
            forall|j: int| 0 <= j < counts@.len() ==> (#[trigger] counts@[j]).count <= bound,
            bound < usize::MAX,
            forall|j: int| 0 <= j < i ==> (#[trigger] pairs[j]).0 != key as int,
        decreases counts@.len() - i,
    {
        if counts[i].line == key {
            let c = counts[i].count;
            proof {
                assert(pairs[i as int].0 == counts@[i as int].line as int);
                assert(pairs[i as int].1 == counts@[i as int].count as int);
            }
            counts.set(i, LineEntry { line: key, count: c + 1 });
            proof {
                lemma_line_bump_at(pairs, key as int, i as int);
                assert(line_entries(counts@) =~= pairs.update(
                    i as int,
                    (pairs[i as int].0, pairs[i as int].1 + 1),
                ));
            }
            return ;
        }
        proof {
            assert(pairs[i as int].0 == counts@[i as int].line as int);
        }
        i = i + 1;
    }
    counts.push(LineEntry { line: key, count: 1 });
    proof {
        lemma_line_bump_absent(pairs, key as int);
        assert(line_entries(counts@) =~= pairs.push((key as int, 1int)));
    }
}

/// Appends the rows of a count listing.
fn push_count_rows(out: &mut String, counts: &Vec<CountEntry>)
    ensures
        final(out)@ == old(out)@ + count_rows(
            count_entries(counts@),
            counts@.len() as int,
        ),
{
    let ghost pairs = count_entries(counts@);
    let mut i: usize = 0;
    proof {
        assert(out@ =~= old(out)@ + count_rows(pairs, 0));
    }
    while i < counts.len()
        invariant
            i <= counts@.len(),
            pairs == count_entries(counts@),
            out@ == old(out)@ + count_rows(pairs, i as int),
        decreases counts@.len() - i,
    {
        let ghost out0 = out@;
        push_pad_right(out, counts[i].name.as_str(), 15);
        out.append(": ");
        let c = usize_to_string(counts[i].count);
        out.append(c.as_str());
        out.append("\n");
        i = i + 1;
        proof {
            assert(pairs[i - 1].0 == counts@[i - 1].name@);
            assert(pairs[i - 1].1 == counts@[i - 1].count as int);
            assert(out@ =~= out0 + count_row(pairs[i - 1].0, pairs[i - 1].1));
        }
    }
}

/// Counts the tokens by type, subtype and line, and names what looks
/// wrong: lines holding more than twice the mean token count, and
/// tokens with empty values.
#[verifier::rlimit(100)]
pub fn analyze_tokens(tokens: &Vec<Token>) -> (r: String)
    ensures
        r@ == analyze_model(crate::tokenizers::tokenizer::toks_model(tokens@)),
{
    let ghost ts = crate::tokenizers::tokenizer::toks_model(tokens@);
    let total = tokens.len();
    let mut tc: Vec<CountEntry> = Vec::new();
    let mut sc: Vec<CountEntry> = Vec::new();
    let mut lc: Vec<LineEntry> = Vec::new();
    let mut maxl: usize = 0;
    let mut i: usize = 0;
    proof {
        assert(count_entries(tc@) =~= type_counts(ts, 0));
        assert(count_entries(sc@) =~= subtype_counts(ts, 0));
        assert(line_entries(lc@) =~= line_counts(ts, 0));
    }
    while i < total
        invariant
            i <= total == tokens@.len(),
            ts == crate::tokenizers::tokenizer::toks_model(tokens@),
            count_entries(tc@) == type_counts(ts, i as int),
            count_entries(sc@) == subtype_counts(ts, i as int),
            line_entries(lc@) == line_counts(ts, i as int),
            maxl as int == max_line(ts, i as int),
            forall|j: int| 0 <= j < tc@.len() ==> (#[trigger] tc@[j]).count <= i,
            forall|j: int| 0 <= j < sc@.len() ==> (#[trigger] sc@[j]).count <= i,
            forall|j: int| 0 <= j < lc@.len() ==> (#[trigger] lc@[j]).count <= i,
        decreases total - i,
    {
        let t = &tokens[i];
        proof {
            assert(ts[i as int] == tokens@[i as int]@);
        }
        bump_exec(&mut tc, &t.token_type, i);
        match &t.token_sub_type {
            Some(sv) => {
                bump_exec(&mut sc, sv, i);
            },
            None => (),
        }
        line_bump_exec(&mut lc, t.line, i);
        if t.line > maxl {
            maxl = t.line;
        }
        i = i + 1;
    }
    let mut out = String::from_str("Token Analysis:\n");
    out.append("Total Tokens: ");
    let tot_str = usize_to_string(total);
    out.append(tot_str.as_str());
    out.append("\n");
    out.append("Lines Covered: ");
    let maxl_str = usize_to_string(maxl);
    out.append(maxl_str.as_str());
    out.append("\n");
    out.append("\nToken Type Distribution:\n");
    push_count_rows(&mut out, &tc);
    if sc.len() > 0 {
        out.append("\nToken Subtype Distribution:\n");
        push_count_rows(&mut out, &sc);
    }
    out.append("\nPotential Issues:\n");
    let ghost header = out@;
    proof {
        assert(header =~= "Token Analysis:\n"@ + "Total Tokens: "@ + dec_digits(total as int)
            + "\n"@ + "Lines Covered: "@ + dec_digits(max_line(ts, ts.len() as int)) + "\n"@
            + "\nToken Type Distribution:\n"@ + count_rows(
            type_counts(ts, ts.len() as int),
            type_counts(ts, ts.len() as int).len() as int,
        ) + (if subtype_counts(ts, ts.len() as int).len() > 0 {
            "\nToken Subtype Distribution:\n"@ + count_rows(
                subtype_counts(ts, ts.len() as int),
                subtype_counts(ts, ts.len() as int).len() as int,
            )
        } else {
            Seq::empty()
        }) + "\nPotential Issues:\n"@);
    }
    let mut issues: Vec<String> = Vec::new();
    let ghost lpairs = line_entries(lc@);
    let mut li: usize = 0;
    proof {
        assert(strs_model(issues@) =~= high_issues(
            lpairs,
            total as int,
            maxl as int,
            0,
        ));
    }
    while li < lc.len()
        invariant
            li <= lc@.len(),
            total == tokens@.len(),
            lpairs == line_entries(lc@),
            strs_model(issues@) == high_issues(
                lpairs,
                total as int,
                maxl as int,
                li as int,
            ),
        decreases lc@.len() - li,
    {
        let ghost issues0 = strs_model(issues@);
        let c = lc[li].count;
        let l = lc[li].line;
        proof {
            assert(lpairs[li as int].0 == lc@[li as int].line as int);
            assert(lpairs[li as int].1 == lc@[li as int].count as int);
        }
        let high = maxl > 0 && {
            let q: u128 = 2u128 * (total as u128) / (maxl as u128);
            proof {
                lemma_mul_div_threshold(c as int, maxl as int, total as int);
            }
            (c as u128) > q
        };
        if high {
            let mut msg = String::from_str("Line ");
            let ls = usize_to_string(l);
            msg.append(ls.as_str());
            msg.append(" has high token count: ");
            let cs = usize_to_string(c);
            msg.append(cs.as_str());
            msg.append(" (avg: ");
            let whole: usize = total / maxl;
            let tenth: usize = ((10u128 * (total as u128) / (maxl as u128)) % 10u128) as usize;
            let ws = usize_to_string(whole);
            msg.append(ws.as_str());
            msg.append(".");
            let tns = usize_to_string(tenth);
            msg.append(tns.as_str());
            msg.append(")");
            proof {
                assert(whole as int == (total as int) / (maxl as int));
                assert(tenth as int == (10 * (total as int) / (maxl as int)) % 10);
                assert(msg@ =~= high_count_issue(
                    lpairs[li as int].0,
                    lpairs[li as int].1,
                    total as int,
                    maxl as int,
                ));
            }
            let ghost msgv = msg@;
            let ghost before = issues@;
            issues.push(msg);
            proof {
                lemma_strs_push(before, issues@[issues@.len() - 1]);
            }
        }
        li = li + 1;
        proof {
            assert(strs_model(issues@) =~= high_issues(
                lpairs,
                total as int,
                maxl as int,
                li as int,
            ));
        }
    }
    let mut ti: usize = 0;
    let ghost high = strs_model(issues@);
    while ti < total
        invariant
            ti <= total == tokens@.len(),
            ts == crate::tokenizers::tokenizer::toks_model(tokens@),
            strs_model(issues@) == high + empty_issues(ts, ti as int),
        decreases total - ti,
    {
        let ghost issues0 = strs_model(issues@);
        proof {
            assert(ts[ti as int] == tokens@[ti as int]@);
        }
        if tokens[ti].value.as_str().unicode_len() == 0 {
            let mut msg = String::from_str("Token ");
            let is = usize_to_string(ti);
            msg.append(is.as_str());
            msg.append(" has empty value");
            proof {
                assert(msg@ =~= "Token "@ + dec_digits(ti as int) + " has empty value"@);
            }
            let ghost before = issues@;
            issues.push(msg);
            proof {
                lemma_strs_push(before, issues@[issues@.len() - 1]);
            }
        }
        ti = ti + 1;
        proof {
            assert(strs_model(issues@) =~= high + empty_issues(ts, ti as int));
        }
    }
    if issues.len() == 0 {
        out.append("No issues detected\n");
        proof {
            assert((high + empty_issues(ts, ts.len() as int)).len() == 0);
            assert(out@ =~= analyze_model(ts));
        }
    } else {
        let ghost all = high + empty_issues(ts, ts.len() as int);
        let mut oi: usize = 0;
        proof {
            assert(strs_model(issues@) == all);
            assert(out@ =~= header + issue_rows(all, 0));
        }
        while oi < issues.len()
            invariant
                oi <= issues@.len(),
                all == strs_model(issues@),
                out@ == header + issue_rows(all, oi as int),
            decreases issues@.len() - oi,
        {
            let ghost out0 = out@;
            out.append("- ");
            out.append(issues[oi].as_str());
            out.append("\n");
            oi = oi + 1;
            proof {
                assert(all[oi - 1] == issues@[oi - 1]@);
                assert(out@ =~= out0 + "- "@ + all[oi - 1] + "\n"@);
                assert(out@ =~= header + issue_rows(all, oi as int));
            }
        }
        proof {
            assert(all.len() > 0);
            assert(out@ =~= analyze_model(ts));
        }
    }
    out
}

/// Writes expected and actual tokens side by side, marking each pair
/// that agrees.
#[verifier::rlimit(100)]
pub fn compare_tokens(expected: &Vec<Token>, actual: &Vec<Token>) -> (r: String)
    ensures
        r@ == compare_model(
            crate::tokenizers::tokenizer::toks_model(expected@),
            crate::tokenizers::tokenizer::toks_model(actual@),
        ),
{
    let ghost es = crate::tokenizers::tokenizer::toks_model(expected@);
    let ghost ac = crate::tokenizers::tokenizer::toks_model(actual@);
    let mut out = String::from_str("Token Comparison:\n");
    push_pad_right(&mut out, "", 3);
    out.append(" ");
    push_centered(&mut out, "Expected", 40);
    out.append(" ");
    push_centered(&mut out, "Actual", 40);
    out.append("\n");
    proof {
        reveal_strlit("");
        assert(""@ =~= Seq::<char>::empty());
        assert(dashes(0) =~= Seq::<char>::empty());
        assert(out@ =~= "Token Comparison:\n"@ + pad_right(Seq::empty(), 3) + " "@ + centered(
            "Expected"@,
            40,
        ) + " "@ + centered("Actual"@, 40) + "\n"@ + dashes(0));
    }
    let mut d: usize = 0;
    while d < 85
        invariant
            d <= 85,
            out@ =~= "Token Comparison:\n"@ + pad_right(Seq::empty(), 3) + " "@ + centered(
                "Expected"@,
                40,
            ) + " "@ + centered("Actual"@, 40) + "\n"@ + dashes(d as int),
        decreases 85 - d,
    {
        crate::text::push_char(&mut out, '-');
        d = d + 1;
        proof {
            assert(out@ =~= "Token Comparison:\n"@ + pad_right(Seq::empty(), 3) + " "@ + centered(
                "Expected"@,
                40,
            ) + " "@ + centered("Actual"@, 40) + "\n"@ + dashes(d as int));
        }
    }
    out.append("\n");
    let max_len = if expected.len() >= actual.len() {
        expected.len()
    } else {
        actual.len()
    };
    let ghost header = out@;
    let mut i: usize = 0;
    while i < max_len
        invariant
            i <= max_len,
            es == crate::tokenizers::tokenizer::toks_model(expected@),
            ac == crate::tokenizers::tokenizer::toks_model(actual@),
            max_len == if expected@.len() >= actual@.len() {
                expected@.len()
            } else {
                actual@.len()
            },
            out@ == header + compare_rows_model(es, ac, i as int),
            header == "Token Comparison:\n"@ + pad_right(Seq::empty(), 3) + " "@ + centered(
                "Expected"@,
                40,
            ) + " "@ + centered("Actual"@, 40) + "\n"@ + dashes(85) + "\n"@,
        decreases max_len - i,
    {
        let ghost out0 = out@;
        let expected_str: String = if i < expected.len() {
            token_summary(&expected[i])
        } else {
            String::new()
        };
        let actual_str: String = if i < actual.len() {
            token_summary(&actual[i])
        } else {
            String::new()
        };
        let same = i < expected.len() && i < actual.len() && expected[i].eq(&actual[i]);
        let status: &str = if same {
            "\u{2713}"
        } else {
            "\u{2717}"
        };
        push_pad_right(&mut out, status, 3);
        out.append(" ");
        push_pad_right(&mut out, expected_str.as_str(), 40);
        out.append(" ");
        push_pad_right(&mut out, actual_str.as_str(), 40);
        out.append("\n");
        i = i + 1;
        proof {
            assert(out@ =~= out0 + compare_row_model(es, ac, i - 1));
            assert(out@ =~= header + compare_rows_model(es, ac, i as int));
        }
    }
    proof {
        assert(out@ =~= compare_model(es, ac));
    }
    out
}

} // verus!
