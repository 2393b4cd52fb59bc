//! The text of a number as numeric and float fields hold it.
//!
//! A number is an optional sign followed by `inf`, `infinity` or `nan` in
//! any mix of upper and lower case, or by digits with at most one point
//! among them and at least one digit, and then an optional exponent: `e` or
//! `E`, an optional sign, and one or more digits.

use crate::text::{all_digits, chars_of, is_digit};
use vstd::prelude::*;

verus! {

/// Whether `c` is a plus or a minus sign.
pub open spec fn is_sign(c: char) -> bool {
    c == '+' || c == '-'
}

/// Whether `c` opens an exponent.
pub open spec fn is_exponent_mark(c: char) -> bool {
    c == 'e' || c == 'E'
}

/// Whether `c` is the lower-case letter `letter` or its upper case.
pub open spec fn is_letter(c: char, letter: char) -> bool {
    c == letter || c as u32 + 32 == letter as u32
}

/// Whether `s` is the lower-case `word` but for the case of its letters.
pub open spec fn spells(s: Seq<char>, word: Seq<char>) -> bool {
    s.len() == word.len() && forall|i: int| 0 <= i < s.len() ==> is_letter(s[i], word[i])
}

/// `s` without the sign that it may start with.
pub open spec fn without_sign(s: Seq<char>) -> Seq<char> {
    if s.len() > 0 && is_sign(s[0]) {
        s.skip(1)
    } else {
        s
    }
}

/// Whether `s` holds digits and at most one point, and at least one digit.
pub open spec fn is_mantissa(s: Seq<char>) -> bool {
    &&& forall|i: int| 0 <= i < s.len() ==> is_digit(#[trigger] s[i]) || s[i] == '.'
    &&& forall|i: int, j: int|
        0 <= i < j < s.len() ==> !(#[trigger] s[i] == '.' && #[trigger] s[j] == '.')
    &&& exists|i: int| 0 <= i < s.len() && is_digit(#[trigger] s[i])
}

/// Whether `s` is what may follow the mark of an exponent: an optional
/// sign and one or more digits.
pub open spec fn is_exponent(s: Seq<char>) -> bool {
    without_sign(s).len() > 0 && all_digits(without_sign(s))
}

/// Whether `s` is a mantissa, alone or followed by an exponent.
pub open spec fn is_number(s: Seq<char>) -> bool {
    is_mantissa(s) || exists|m: int|
        0 <= m < s.len() && is_exponent_mark(#[trigger] s[m]) && is_mantissa(s.take(m))
            && is_exponent(s.skip(m + 1))
}

/// Whether `s` writes a number.
pub open spec fn is_float_text(s: Seq<char>) -> bool {
    let body = without_sign(s);
    spells(body, seq!['i', 'n', 'f']) || spells(
        body,
        seq!['i', 'n', 'f', 'i', 'n', 'i', 't', 'y'],
    ) || spells(body, seq!['n', 'a', 'n']) || is_number(body)
}

/// The code point of `c`.
fn code_point(c: char) -> (r: u32)
    ensures
        r == c as u32,
        r <= 0x10FFFF,
{
    c as u32
}

/// Whether `chars` from index `from` on are `word` but for the case of
/// their letters.
fn spells_from(chars: &[char], from: usize, word: &[char]) -> (r: bool)
    requires
        from <= chars.len(),
    ensures
        r == spells(chars@.skip(from as int), word@),
{
    if chars.len() - from != word.len() {
        return false;
    }
    let mut i: usize = 0;
    while i < word.len()
        invariant
            from <= chars.len(),
            chars.len() - from == word.len(),
            i <= word.len(),
            forall|k: int| 0 <= k < i ==> is_letter(chars@.skip(from as int)[k], word@[k]),
        decreases word.len() - i,
    {
        let c = chars[from + i];
        let l = word[i];
        if !(c == l || code_point(c) + 32 == code_point(l)) {
            assert(!is_letter(chars@.skip(from as int)[i as int], word@[i as int]));
            return false;
        }
        i = i + 1;
    }
    true
}

/// Whether the characters from `from` up to `to` are a mantissa.
fn mantissa(chars: &[char], from: usize, to: usize) -> (r: bool)
    requires
        from <= to <= chars.len(),
    ensures
        r == is_mantissa(chars@.subrange(from as int, to as int)),
{
    let ghost s = chars@.subrange(from as int, to as int);
    let mut seen_point = false;
    let mut seen_digit = false;
    let ghost mut point_at: int = 0;
    let ghost mut digit_at: int = 0;
    let mut i: usize = from;
    while i < to
        invariant
            from <= i <= to <= chars.len(),
            s == chars@.subrange(from as int, to as int),
            forall|k: int| 0 <= k < i - from ==> is_digit(#[trigger] s[k]) || s[k] == '.',
            forall|k: int|
                0 <= k < i - from && #[trigger] s[k] == '.' ==> seen_point && k == point_at,
            seen_point ==> 0 <= point_at < i - from && s[point_at] == '.',
            seen_digit ==> 0 <= digit_at < i - from && is_digit(s[digit_at]),
            !seen_digit ==> forall|k: int| 0 <= k < i - from ==> !is_digit(#[trigger] s[k]),
        decreases to - i,
    {
        let c = chars[i];
        assert(c == s[i - from]);
        if c == '.' {
            if seen_point {
                assert(s[point_at] == '.' && s[i - from] == '.');
                return false;
            }
            seen_point = true;
            proof {
                point_at = i - from;
            }
        } else if '0' <= c && c <= '9' {
            seen_digit = true;
            proof {
                digit_at = i - from;
            }
        } else {
            return false;
        }
        i = i + 1;
    }
    seen_digit
}

/// Whether the characters from `from` on are what may follow the mark of
/// an exponent.
fn exponent(chars: &[char], from: usize) -> (r: bool)
    requires
        from <= chars.len(),
    ensures
        r == is_exponent(chars@.skip(from as int)),
{
    let ghost s = chars@.skip(from as int);
    let start = if from < chars.len() && (chars[from] == '+' || chars[from] == '-') {
        from + 1
    } else {
        from
    };
    let ghost digits = without_sign(s);
    assert(digits =~= chars@.skip(start as int));
    if start == chars.len() {
        return false;
    }
    let mut i: usize = start;
    while i < chars.len()
        invariant
            start <= i <= chars.len(),
            digits == chars@.skip(start as int),
            digits == without_sign(chars@.skip(from as int)),
            forall|k: int| 0 <= k < i - start ==> is_digit(#[trigger] digits[k]),
        decreases chars.len() - i,
    {
        let c = chars[i];
        assert(c == digits[i - start]);
        if !('0' <= c && c <= '9') {
            assert(!is_digit(digits[i - start]));
            return false;
        }
        i = i + 1;
    }
    true
}

/// Whether the characters from `from` on are a number.
fn number(chars: &[char], from: usize) -> (r: bool)
    requires
        from <= chars.len(),
    ensures
        r == is_number(chars@.skip(from as int)),
{
    let ghost s = chars@.skip(from as int);
    let mut mark: usize = from;
    while mark < chars.len() && chars[mark] != 'e' && chars[mark] != 'E'
        invariant
            from <= mark <= chars.len(),
            forall|k: int| from <= k < mark ==> !is_exponent_mark(#[trigger] chars@[k]),
        decreases chars.len() - mark,
    {
        mark = mark + 1;
    }
    assert(chars@.subrange(from as int, mark as int) =~= s.take(mark - from));
    if mark == chars.len() {
        assert(s.take(mark - from) =~= s);
        assert forall|m: int| 0 <= m < s.len() implies !is_exponent_mark(#[trigger] s[m]) by {
            assert(s[m] == chars@[m + from]);
        }
        return mantissa(chars, from, mark);
    }
    let ghost at = mark - from;
    assert(is_exponent_mark(s[at]));
    assert(s.skip(at + 1) =~= chars@.skip(mark + 1));
    let r = mantissa(chars, from, mark) && exponent(chars, mark + 1);
    proof {
        assert(!is_mantissa(s)) by {
            assert(!is_digit(s[at]) && s[at] != '.');
        }
        assert forall|m: int|
            0 <= m < s.len() && is_exponent_mark(#[trigger] s[m]) && is_mantissa(s.take(m))
                && is_exponent(s.skip(m + 1)) implies m == at by {
            if m < at {
                assert(s[m] == chars@[m + from]);
            } else if m > at {
                let head = s.take(m);
                assert(head[at] == s[at]);
                assert(!is_digit(head[at]) && head[at] != '.');
            }
        }
    }
    r
}

/// Whether `s` writes a number.
pub fn float_text(s: &str) -> (r: bool)
    ensures
        r == is_float_text(s@),
{
    let chars = chars_of(s);
    let from: usize = if chars.len() > 0 && (chars[0] == '+' || chars[0] == '-') {
        1
    } else {
        0
    };
    assert(without_sign(s@) =~= chars@.skip(from as int));
    let inf = ['i', 'n', 'f'];
    let infinity = ['i', 'n', 'f', 'i', 'n', 'i', 't', 'y'];
    let nan = ['n', 'a', 'n'];
    assert(inf@ =~= seq!['i', 'n', 'f']);
    assert(infinity@ =~= seq!['i', 'n', 'f', 'i', 'n', 'i', 't', 'y']);
    assert(nan@ =~= seq!['n', 'a', 'n']);
    spells_from(chars.as_slice(), from, &inf) || spells_from(chars.as_slice(), from, &infinity)
        || spells_from(chars.as_slice(), from, &nan) || number(chars.as_slice(), from)
}

} // verus!
