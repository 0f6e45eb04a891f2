//! Character-level helpers shared by the scanners and the engine.
//!
//! All scanning in this crate is done over sequences of Unicode scalar
//! values (`char`), so positions and lengths are counted in characters,
//! never in bytes.

use vstd::prelude::*;

verus! {

broadcast use vstd::string::group_string_axioms;

/// The Unicode `White_Space` code points, as `char::is_whitespace`
/// documents them.
pub open spec fn char_is_ws(c: char) -> bool {
    ||| c == ' '
    ||| c == '\t'
    ||| c == '\n'
    ||| c == '\u{0b}'
    ||| c == '\u{0c}'
    ||| c == '\r'
    ||| c == '\u{85}'
    ||| c == '\u{a0}'
    ||| c == '\u{1680}'
    ||| ('\u{2000}' <= c && c <= '\u{200a}')
    ||| c == '\u{2028}'
    ||| c == '\u{2029}'
    ||| c == '\u{202f}'
    ||| c == '\u{205f}'
    ||| c == '\u{3000}'
}

/// Decides whitespace exactly as `char_is_ws` describes it.
pub fn is_ws_char(c: char) -> (b: bool)
    ensures
        b == char_is_ws(c),
{
    c == ' ' || c == '\t' || c == '\n' || c == '\u{0b}' || c == '\u{0c}' || c == '\r'
        || c == '\u{85}' || c == '\u{a0}' || c == '\u{1680}'
        || ('\u{2000}' <= c && c <= '\u{200a}') || c == '\u{2028}' || c == '\u{2029}'
        || c == '\u{202f}' || c == '\u{205f}' || c == '\u{3000}'
}

/// Collects the characters of a string slice into a vector.
pub fn to_chars(s: &str) -> (r: Vec<char>)
    ensures
        r@ == s@,
{
    let mut v: Vec<char> = Vec::new();
    let mut it = s.chars();
    loop
        invariant
            vstd::std_specs::iter::IteratorSpec::obeys_prophetic_iter_laws(&it),
            vstd::std_specs::iter::IteratorSpec::decrease(&it) is Some,
            vstd::std_specs::iter::IteratorSpec::remaining(&it) =~= s@.skip(v@.len() as int),
            v@.len() <= s@.len(),
            v@ == s@.subrange(0, v@.len() as int),
        ensures
            v@ =~= s@,
        decreases vstd::std_specs::iter::IteratorSpec::decrease(&it)->0,
    {
        match it.next() {
            Some(c) => {
                v.push(c);
                proof {
                    assert(v@ =~= s@.subrange(0, v@.len() as int));
                }
            },
            None => {
                break ;
            },
        }
    }
    v
}

/// The 1-based line and column after consuming `cs` from the given
/// position: a newline moves to the start of the next line, any other
/// character moves one column right.
pub open spec fn advance_position(line: int, column: int, cs: Seq<char>) -> (int, int)
    decreases cs.len(),
{
    if cs.len() == 0 {
        (line, column)
    } else if cs[0] == '\n' {
        advance_position(line + 1, 1, cs.drop_first())
    } else {
        advance_position(line, column + 1, cs.drop_first())
    }
}

/// Consuming text moves the counters forward by at most its length, and
/// never below one.
pub proof fn lemma_advance_bounds(line: int, column: int, cs: Seq<char>)
    requires
        line >= 1,
        column >= 1,
    ensures
        ({
            let lc = advance_position(line, column, cs);
            line <= lc.0 <= line + cs.len() && 1 <= lc.1 <= column + cs.len()
        }),
    decreases cs.len(),
{
    if cs.len() > 0 {
        if cs[0] == '\n' {
            lemma_advance_bounds(line + 1, 1, cs.drop_first());
        } else {
            lemma_advance_bounds(line, column + 1, cs.drop_first());
        }
    }
}

/// After consuming text that ends with a newline, the very next
/// position reported is the start of a fresh line: the column is one,
/// and the line count has grown past every newline consumed.
pub proof fn lemma_advance_after_newline(line: int, column: int, cs: Seq<char>)
    requires
        cs.len() > 0,
        cs[cs.len() - 1] == '\n',
    ensures
        advance_position(line, column, cs).1 == 1,
        advance_position(line, column, cs).0 >= line + 1,
    decreases cs.len(),
{
    if cs.len() == 1 {
        assert(cs[0] == '\n');
        assert(cs.drop_first().len() == 0);
        assert(advance_position(line + 1, 1, cs.drop_first()) == (line + 1, 1int));
    } else {
        assert(cs.drop_first()[cs.drop_first().len() - 1] == cs[cs.len() - 1]);
        if cs[0] == '\n' {
            lemma_advance_after_newline(line + 1, 1, cs.drop_first());
        } else {
            lemma_advance_after_newline(line, column + 1, cs.drop_first());
        }
    }
}

/// Walks the counters over the character range `[from, to)` of `text`.
pub fn advance_over(text: &Vec<char>, from: usize, to: usize, line: usize, column: usize) -> (r: (
    usize,
    usize,
))
    requires
        from <= to <= text@.len(),
        1 <= line,
        1 <= column,
        line + (to - from) <= usize::MAX,
        column + (to - from) <= usize::MAX,
    ensures
        (r.0 as int, r.1 as int) == advance_position(
            line as int,
            column as int,
            text@.subrange(from as int, to as int),
        ),
        line <= r.0 <= line + (to - from),
        1 <= r.1 <= column + (to - from),
{
    proof {
        lemma_advance_bounds(line as int, column as int, text@.subrange(from as int, to as int));
    }
    let ghost full = text@.subrange(from as int, to as int);
    let mut l = line;
    let mut c = column;
    let mut i: usize = from;
    while i < to
        invariant
            from <= i <= to <= text@.len(),
            full == text@.subrange(from as int, to as int),
            1 <= l,
            1 <= c,
            line <= l <= line + (i - from),
            c <= column + (i - from),
            line + (to - from) <= usize::MAX,
            column + (to - from) <= usize::MAX,
            advance_position(line as int, column as int, full) == advance_position(
                l as int,
                c as int,
                text@.subrange(i as int, to as int),
            ),
        decreases to - i,
    {
        let ghost before = text@.subrange(i as int, to as int);
        proof {
            assert(before.drop_first() =~= text@.subrange(i + 1, to as int));
        }
        if text[i] == '\n' {
            l = l + 1;
            c = 1;
        } else {
            c = c + 1;
        }
        i = i + 1;
    }
    proof {
        assert(text@.subrange(to as int, to as int) =~= Seq::<char>::empty());
    }
    (l, c)
}

/// Relies on `String::push`: appends one character at the end of the string.
#[verifier::external_body]
pub(crate) fn push_char(s: &mut String, c: char)
    ensures
        final(s)@ == old(s)@.push(c),
{
    s.push(c);
}

/// Builds a string out of the character range `[from, to)` of `v`.
pub fn chars_to_string(v: &Vec<char>, from: usize, to: usize) -> (r: String)
    requires
        from <= to <= v@.len(),
    ensures
        r@ == v@.subrange(from as int, to as int),
{
    let mut r = String::new();
    let mut i: usize = from;
    while i < to
        invariant
            from <= i <= to <= v@.len(),
            r@ =~= v@.subrange(from as int, i as int),
        decreases to - i,
    {
        push_char(&mut r, v[i]);
        i = i + 1;
        proof {
            assert(r@ =~= v@.subrange(from as int, i as int));
        }
    }
    proof {
        assert(r@ =~= v@.subrange(from as int, to as int));
    }
    r
}

/// The decimal digit for a value below ten.
pub open spec fn digit_char(d: int) -> char {
    if d == 0 {
        '0'
    } else if d == 1 {
        '1'
    } else if d == 2 {
        '2'
    } else if d == 3 {
        '3'
    } else if d == 4 {
        '4'
    } else if d == 5 {
        '5'
    } else if d == 6 {
        '6'
    } else if d == 7 {
        '7'
    } else if d == 8 {
        '8'
    } else {
        '9'
    }
}

/// The decimal notation of a natural number, most significant digit first.
pub open spec fn dec_digits(n: int) -> Seq<char>
    decreases n,
{
    if n < 10 {
        seq![digit_char(n)]
    } else {
        dec_digits(n / 10).push(digit_char(n % 10))
    }
}

/// Writes a number in decimal notation.
pub fn usize_to_string(n: usize) -> (r: String)
    ensures
        r@ == dec_digits(n as int),
{
    let mut digits: Vec<char> = Vec::new();
    let mut m: usize = n;
    loop
        invariant
            dec_digits(n as int) =~= dec_digits(m as int) + digits@,
        ensures
            m < 10,
            dec_digits(n as int) =~= dec_digits(m as int) + digits@,
        decreases m,
    {
        if m < 10 {
            break ;
        }
        let d: usize = m % 10;
        digits.insert(0, digit_to_char(d));
        proof {
            assert(dec_digits(m as int) =~= dec_digits(m as int / 10).push(digit_char(d as int)));
            assert(dec_digits(m as int / 10).push(digit_char(d as int)) + digits@.drop_first()
                =~= dec_digits(m as int / 10) + digits@);
        }
        m = m / 10;
    }
    let mut r = String::new();
    push_char(&mut r, digit_to_char(m));
    let mut i: usize = 0;
    proof {
        assert(r@ =~= dec_digits(m as int) + digits@.subrange(0, 0));
    }
    while i < digits.len()
        invariant
            i <= digits@.len(),
            m < 10,
            r@ =~= dec_digits(m as int) + digits@.subrange(0, i as int),
            dec_digits(n as int) =~= dec_digits(m as int) + digits@,
        decreases digits@.len() - i,
    {
        push_char(&mut r, digits[i]);
        i = i + 1;
        proof {
            assert(r@ =~= dec_digits(m as int) + digits@.subrange(0, i as int));
        }
    }
    proof {
        assert(digits@.subrange(0, digits@.len() as int) =~= digits@);
    }
    r
}

/// Picks the digit character for a value below ten.
fn digit_to_char(d: usize) -> (c: char)
    requires
        d < 10,
    ensures
        c == digit_char(d as int),
{
    if d == 0 {
        '0'
    } else if d == 1 {
        '1'
    } else if d == 2 {
        '2'
    } else if d == 3 {
        '3'
    } else if d == 4 {
        '4'
    } else if d == 5 {
        '5'
    } else if d == 6 {
        '6'
    } else if d == 7 {
        '7'
    } else if d == 8 {
        '8'
    } else {
        '9'
    }
}

/// Whether `pat` occurs in `text` starting exactly at `pos`.
pub open spec fn matches_at(text: Seq<char>, pos: int, pat: Seq<char>) -> bool {
    &&& 0 <= pos
    &&& pos + pat.len() <= text.len()
    &&& text.subrange(pos, pos + pat.len()) == pat
}

/// Compares a pattern against `text` at character position `pos`.
pub fn chars_match_at(text: &Vec<char>, pos: usize, pat: &Vec<char>) -> (b: bool)
    ensures
        b == matches_at(text@, pos as int, pat@),
{
    if pat.len() > text.len() || pos > text.len() - pat.len() {
        proof {
            assert(!matches_at(text@, pos as int, pat@));
        }
        return false;
    }
    let mut i: usize = 0;
    while i < pat.len()
        invariant
            pos + pat@.len() <= text@.len(),
            text@.len() <= usize::MAX,
            i <= pat@.len(),
            forall|j: int| 0 <= j < i ==> text@[pos + j] == pat@[j],
        decreases pat@.len() - i,
    {
        if text[pos + i] != pat[i] {
            proof {
                assert(text@.subrange(pos as int, pos + pat@.len())[i as int] != pat@[i as int]);
            }
            return false;
        }
        i = i + 1;
    }
    proof {
        assert(text@.subrange(pos as int, pos + pat@.len()) =~= pat@);
    }
    true
}

} // verus!
