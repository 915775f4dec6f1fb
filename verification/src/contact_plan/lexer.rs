//! Lexing contact-plan text: characters, tokens and decimal numbers.

use vstd::prelude::*;

verus! {

/// The characters of a text.
pub fn text_chars(text: &str) -> (r: Vec<char>)
    ensures
        r@ == text@,
{
    broadcast use vstd::string::axiom_spec_iter;

    let mut out: Vec<char> = Vec::new();
    for c in it: text.chars()
        invariant
            out@.len() == it.index(),
            forall|i: int| 0 <= i < out@.len() ==> out@[i] == it.seq()[i],
    {
        out.push(c);
    }
    assert(out@ =~= text@);
    out
}


/// A separator between the tokens of a plan.
pub open spec fn is_space(c: char) -> bool {
    c == ' ' || c == '\t' || c == '\n' || c == '\r'
}

/// How many line breaks `s` holds.
pub open spec fn count_newlines(s: Seq<char>) -> nat
    decreases s.len(),
{
    if s.len() == 0 {
        0
    } else {
        count_newlines(s.drop_last()) + if s.last() == '\n' {
            1nat
        } else {
            0nat
        }
    }
}

/// A token of a plan's text: where it starts and ends among the characters, on which line
/// (from 1) it stands, and its position on that line (from 1).
#[derive(Clone, Copy, Debug, PartialEq, Eq, Structural)]
pub struct PlanToken {
    /// The position of its first character.
    pub start: usize,
    /// The position after its last character.
    pub end: usize,
    /// Its line, from 1.
    pub line: usize,
    /// Its position on its line, from 1.
    pub toknum: usize,
}

/// Token `t` is a maximal run of characters that are not separators.
pub open spec fn token_at(chars: Seq<char>, t: PlanToken) -> bool {
    &&& t.start < t.end <= chars.len()
    &&& forall|p: int| t.start <= p < t.end ==> !is_space(#[trigger] chars[p])
    &&& t.start == 0 || is_space(chars[t.start - 1])
    &&& t.end == chars.len() || is_space(chars[t.end as int])
    &&& t.line == count_newlines(chars.take(t.start as int)) + 1
}

/// The tokens of `chars`: every maximal run of non-separators, in order, numbered on their
/// lines.
pub open spec fn tokens_of(chars: Seq<char>, toks: Seq<PlanToken>) -> bool {
    &&& forall|i: int| 0 <= i < toks.len() ==> token_at(chars, #[trigger] toks[i])
    &&& forall|i: int, j: int| 0 <= i < j < toks.len() ==> (#[trigger] toks[i]).end < (#[trigger] toks[j]).start
    &&& forall|p: int|
        0 <= p < chars.len() && !is_space(#[trigger] chars[p]) ==> exists|i: int|
            0 <= i < toks.len() && (#[trigger] toks[i]).start <= p < toks[i].end
    &&& forall|i: int|
        0 <= i < toks.len() ==> (#[trigger] toks[i]).toknum == 1 + (if i > 0 && toks[i - 1].line == toks[i].line {
            toks[i - 1].toknum as int
        } else {
            0
        })
}

proof fn lemma_count_newlines_push(s: Seq<char>, c: char)
    ensures
        count_newlines(s.push(c)) == count_newlines(s) + if c == '\n' { 1nat } else { 0nat },
{
    assert(s.push(c).drop_last() == s);
}

proof fn lemma_take_newlines(s: Seq<char>, j: int)
    requires
        0 <= j < s.len(),
    ensures
        count_newlines(s.take(j + 1)) == count_newlines(s.take(j)) + if s[j] == '\n' { 1nat } else { 0nat },
{
    assert(s.take(j + 1) == s.take(j).push(s[j]));
    lemma_count_newlines_push(s.take(j), s[j]);
}

/// Splits characters into tokens at separators.
pub fn tokenize(chars: &Vec<char>) -> (r: Vec<PlanToken>)
    requires
        chars@.len() < usize::MAX,
    ensures
        tokens_of(chars@, r@),
{
    let n = chars.len();
    let mut toks: Vec<PlanToken> = Vec::new();
    let mut i: usize = 0;
    let mut line: usize = 1;
    let mut toknum: usize = 0;
    while i < n
        invariant
            n == chars@.len(),
            n < usize::MAX,
            i <= n,
            line == count_newlines(chars@.take(i as int)) + 1,
            line <= i + 1,
            forall|k: int| 0 <= k < toks@.len() ==> token_at(chars@, #[trigger] toks@[k]),
            forall|a: int, b: int| 0 <= a < b < toks@.len() ==> (#[trigger] toks@[a]).end < (#[trigger] toks@[b]).start,
            forall|k: int| 0 <= k < toks@.len() ==> #[trigger] toks@[k].end <= i,
            forall|p: int|
                0 <= p < i && !is_space(#[trigger] chars@[p]) ==> exists|k: int|
                    0 <= k < toks@.len() && (#[trigger] toks@[k]).start <= p < toks@[k].end,
            forall|k: int|
                0 <= k < toks@.len() ==> (#[trigger] toks@[k]).toknum == 1 + (if k > 0 && toks@[k - 1].line
                    == toks@[k].line {
                    toks@[k - 1].toknum as int
                } else {
                    0
                }),
            toknum == (if toks@.len() > 0 && toks@.last().line == line {
                toks@.last().toknum as int
            } else {
                0
            }),
            toks@.len() > 0 ==> toks@.last().line <= line,
            toknum <= i,
            i == 0 || i == n || is_space(chars@[i - 1]) || is_space(chars@[i as int]),
        decreases n - i,
    {
        let c = chars[i];
        if c == ' ' || c == '\t' || c == '\n' || c == '\r' {
            proof {
                lemma_take_newlines(chars@, i as int);
            }
            if c == '\n' {
                line = line + 1;
                toknum = 0;
            }
            i = i + 1;
        } else {
            let start = i;
            while i < n && !(chars[i] == ' ' || chars[i] == '\t' || chars[i] == '\n' || chars[i] == '\r')
                invariant
                    n == chars@.len(),
                    start < n,
                    start <= i <= n,
                    forall|p: int| start <= p < i ==> !is_space(#[trigger] chars@[p]),
                    count_newlines(chars@.take(i as int)) == count_newlines(chars@.take(start as int)),
                decreases n - i,
            {
                proof {
                    lemma_take_newlines(chars@, i as int);
                }
                i = i + 1;
            }
            proof {
                if start == i {
                    assert(false);
                }
                if toks@.len() > 0 {
                    let e = toks@.last().end;
                    assert(token_at(chars@, toks@.last()));
                    assert(e <= start);
                    if e == start {
                        assert(!is_space(chars@[start as int]));
                    }
                }
            }
            let ghost old_toks = toks@;
            toknum = toknum + 1;
            toks.push(PlanToken { start, end: i, line, toknum });
            proof {
                assert forall|p: int|
                    0 <= p < i && !is_space(#[trigger] chars@[p]) implies exists|k: int|
                        0 <= k < toks@.len() && (#[trigger] toks@[k]).start <= p < toks@[k].end by {
                    if p >= start {
                        assert(toks@[toks@.len() - 1].start <= p < toks@[toks@.len() - 1].end);
                    } else {
                        let k = choose|k: int| 0 <= k < old_toks.len() && (#[trigger] old_toks[k]).start <= p < old_toks[k].end;
                        assert(toks@[k] == old_toks[k]);
                    }
                }
            }
        }
    }
    assert(chars@.take(n as int) == chars@);
    toks
}


/// A decimal digit.
pub open spec fn is_digit(c: char) -> bool {
    '0' <= c && c <= '9'
}

/// The value of a string of decimal digits.
pub open spec fn digits_value(s: Seq<char>) -> int
    decreases s.len(),
{
    if s.len() == 0 {
        0
    } else {
        10 * digits_value(s.drop_last()) + (s.last() as int - '0' as int)
    }
}

/// How many characters of sign `s` begins with.
pub open spec fn sign_len(s: Seq<char>) -> int {
    if s.len() > 0 && (s[0] == '-' || s[0] == '+') {
        1
    } else {
        0
    }
}

/// The 64-bit integer that `s` writes in decimal: an optional sign, then digits only; `None`
/// when `s` is not so written or its value does not fit.
pub open spec fn spec_parse_i64(s: Seq<char>) -> Option<i64> {
    let body = s.skip(sign_len(s));
    let v = if s.len() > 0 && s[0] == '-' {
        -digits_value(body)
    } else {
        digits_value(body)
    };
    if body.len() > 0 && (forall|i: int| 0 <= i < body.len() ==> is_digit(#[trigger] body[i])) && i64::MIN <= v
        <= i64::MAX {
        Some(v as i64)
    } else {
        None
    }
}

proof fn lemma_digits_grow(s: Seq<char>, k: int)
    requires
        0 <= k <= s.len(),
        forall|i: int| 0 <= i < s.len() ==> is_digit(#[trigger] s[i]),
    ensures
        digits_value(s) >= digits_value(s.take(k)) >= 0,
    decreases s.len(),
{
    if k == s.len() {
        assert(s.take(k) == s);
        if s.len() > 0 {
            lemma_digits_grow(s.drop_last(), 0);
        }
    } else {
        lemma_digits_grow(s.drop_last(), k);
        assert(s.drop_last().take(k) == s.take(k));
    }
}

/// Reads the 64-bit integer written in decimal in `chars[start..end]`.
pub fn parse_number(chars: &Vec<char>, start: usize, end: usize) -> (r: Option<i64>)
    requires
        start <= end <= chars@.len(),
    ensures
        r == spec_parse_i64(chars@.subrange(start as int, end as int)),
{
    let ghost s = chars@.subrange(start as int, end as int);
    if start == end {
        return None;
    }
    let mut i = start;
    let neg = chars[i] == '-';
    if chars[i] == '-' || chars[i] == '+' {
        i = i + 1;
    }
    let ghost body = s.skip(sign_len(s));
    assert(body == chars@.subrange(i as int, end as int));
    if i == end {
        return None;
    }
    let limit: i128 = 9223372036854775808;
    let mut acc: i128 = 0;
    let bstart = i;
    while i < end
        invariant
            start <= bstart <= i <= end <= chars@.len(),
            body == chars@.subrange(bstart as int, end as int),
            s == chars@.subrange(start as int, end as int),
            body == s.skip(sign_len(s)),
            neg == (s.len() > 0 && s[0] == '-'),
            forall|k: int| bstart <= k < i ==> is_digit(#[trigger] chars@[k]),
            acc == digits_value(body.take(i - bstart)),
            0 <= acc <= limit,
            limit == 9223372036854775808,
        decreases end - i,
    {
        let c = chars[i];
        if !('0' <= c && c <= '9') {
            proof {
                assert(body[i - bstart] == c);
                assert(!is_digit(body[i - bstart]));
            }
            return None;
        }
        let d = (c as u32 - '0' as u32) as i128;
        proof {
            assert(body.take(i - bstart + 1).drop_last() == body.take(i - bstart));
            assert(body.take(i - bstart + 1).last() == c);
        }
        acc = acc * 10 + d;
        i = i + 1;
        if acc > limit {
            proof {
                if forall|k: int| 0 <= k < body.len() ==> is_digit(#[trigger] body[k]) {
                    lemma_digits_grow(body, i - bstart);
                }
            }
            return None;
        }
    }
    proof {
        assert(body.take(i - bstart) == body);
        assert forall|k: int| 0 <= k < body.len() implies is_digit(#[trigger] body[k]) by {
            assert(body[k] == chars@[bstart + k]);
        }
    }
    if neg {
        let v = -acc;
        Some(v as i64)
    } else {
        if acc > 9223372036854775807 {
            None
        } else {
            Some(acc as i64)
        }
    }
}


/// The characters of token `t`.
pub open spec fn word(chars: Seq<char>, t: PlanToken) -> Seq<char> {
    chars.subrange(t.start as int, t.end as int)
}

/// Whether token `t` is the word `w`.
pub fn word_eq(chars: &Vec<char>, t: PlanToken, w: &[char]) -> (r: bool)
    requires
        t.start <= t.end <= chars@.len(),
    ensures
        r == (word(chars@, t) == w@),
{
    if t.end - t.start != w.len() {
        proof {
            assert(word(chars@, t).len() != w@.len());
        }
        return false;
    }
    let mut i: usize = 0;
    while i < w.len()
        invariant
            t.start <= t.end <= chars@.len(),
            t.end - t.start == w@.len(),
            i <= w@.len(),
            forall|k: int| 0 <= k < i ==> chars@[t.start + k] == w@[k],
        decreases w@.len() - i,
    {
        if chars[t.start + i] != w[i] {
            proof {
                assert(word(chars@, t)[i as int] != w@[i as int]);
            }
            return false;
        }
        i = i + 1;
    }
    assert(word(chars@, t) =~= w@);
    true
}

} // verus!
