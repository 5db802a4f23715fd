//! The two numeric notations a value can be written in: a signed decimal integer that fits
//! sixty-four bits, and the grammar of decimal floating-point literals.
//!
//! ```text
//! Integer ::= Sign? Digit+
//! Float   ::= Sign? ( 'inf' | 'infinity' | 'nan' | Number )      letters in either case
//! Number  ::= ( Digit+ | Digit+ '.' Digit* | Digit* '.' Digit+ ) Exp?
//! Exp     ::= ( 'e' | 'E' ) Sign? Digit+
//! Sign    ::= '+' | '-'
//! ```

use vstd::prelude::*;

verus! {

/// Whether `c` is one of `0`..`9`.
pub open spec fn digit(c: char) -> bool {
    '0' <= c <= '9'
}

/// The number that the digit `c` stands for.
pub open spec fn digit_value(c: char) -> int {
    c as int - '0' as int
}

/// Whether `c` is `+` or `-`.
pub open spec fn sign(c: char) -> bool {
    c == '+' || c == '-'
}

/// Whether every character of `s` is a digit.
pub open spec fn all_digits(s: Seq<char>) -> bool {
    forall|i: int| 0 <= i < s.len() ==> digit(#[trigger] s[i])
}

/// The number that the digits `s` denote in base ten.
pub open spec fn decimal(s: Seq<char>) -> int
    decreases s.len(),
{
    if s.len() == 0 {
        0
    } else {
        10 * decimal(s.drop_last()) + digit_value(s.last())
    }
}

/// `s` without a leading sign.
pub open spec fn unsigned(s: Seq<char>) -> Seq<char> {
    if s.len() > 0 && sign(s[0]) {
        s.skip(1)
    } else {
        s
    }
}

/// The integer that `s` denotes: an optional sign and at least one digit, nothing else,
/// and a value within the range of `i64`. `None` for every other text.
pub open spec fn integer_value(s: Seq<char>) -> Option<int> {
    let digits = unsigned(s);
    let value = if s.len() > 0 && s[0] == '-' {
        -decimal(digits)
    } else {
        decimal(digits)
    };
    if digits.len() > 0 && all_digits(digits) && i64::MIN <= value <= i64::MAX {
        Some(value)
    } else {
        None
    }
}

/// How many digits `s` begins with.
pub open spec fn digit_run(s: Seq<char>) -> nat
    decreases s.len(),
{
    if s.len() > 0 && digit(s.first()) {
        1 + digit_run(s.drop_first())
    } else {
        0
    }
}

/// Whether `s` is an exponent without its letter: an optional sign and at least one digit.
pub open spec fn exponent(s: Seq<char>) -> bool {
    unsigned(s).len() > 0 && all_digits(unsigned(s))
}

/// Whether `s` is an unsigned decimal number: digits, with a point before, among or after
/// them or with none, at least one digit in all, and then an exponent or nothing.
pub open spec fn number(s: Seq<char>) -> bool {
    let whole = digit_run(s);
    let rest = s.skip(whole as int);
    let pointed = rest.len() > 0 && rest[0] == '.';
    let fraction: int = if pointed {
        digit_run(rest.skip(1)) as int
    } else {
        0
    };
    let tail = if pointed {
        rest.skip(1 + fraction)
    } else {
        rest
    };
    &&& whole + fraction > 0
    &&& tail.len() > 0 ==> (tail[0] == 'e' || tail[0] == 'E') && exponent(tail.skip(1))
}

/// Whether `s` is `word` but for the case of its letters; `word` is in lower case.
pub open spec fn spells(s: Seq<char>, word: Seq<char>) -> bool {
    &&& s.len() == word.len()
    &&& forall|i: int|
        0 <= i < s.len() ==> #[trigger] s[i] == word[i] || s[i] as int + 32 == word[i] as int
}

/// Whether `s` names infinity or not-a-number.
pub open spec fn special(s: Seq<char>) -> bool {
    ||| spells(s, seq!['i', 'n', 'f'])
    ||| spells(s, seq!['i', 'n', 'f', 'i', 'n', 'i', 't', 'y'])
    ||| spells(s, seq!['n', 'a', 'n'])
}

/// Whether `s` is written as a floating-point literal.
pub open spec fn float_literal(s: Seq<char>) -> bool {
    special(unsigned(s)) || number(unsigned(s))
}

/// More digits never denote less: what the first `k` digits of `s` denote is at most
/// what all of `s` denotes.
pub proof fn lemma_decimal_grows(s: Seq<char>, k: int)
    requires
        all_digits(s),
        0 <= k <= s.len(),
    ensures
        0 <= decimal(s.take(k)) <= decimal(s),
    decreases s.len() - k,
{
    lemma_decimal_nonnegative(s.take(k));
    if k < s.len() {
        lemma_decimal_grows(s, k + 1);
        assert(s.take(k + 1).drop_last() =~= s.take(k));
        assert(s.take(k + 1).last() == s[k]);
        assert(digit(s[k]));
    } else {
        assert(s.take(k) =~= s);
    }
}

/// Digits denote a number that is not negative.
pub proof fn lemma_decimal_nonnegative(s: Seq<char>)
    requires
        all_digits(s),
    ensures
        0 <= decimal(s),
    decreases s.len(),
{
    if s.len() > 0 {
        assert(digit(s.last()));
        lemma_decimal_nonnegative(s.drop_last());
    }
}

/// Where `s` holds digits from `from` up to `to`, and none at `to`, the digits that
/// `s.skip(from)` begins with are those.
pub proof fn lemma_digit_run(s: Seq<char>, from: int, to: int)
    requires
        0 <= from <= to <= s.len(),
        forall|i: int| from <= i < to ==> digit(s[i]),
        to < s.len() ==> !digit(s[to]),
    ensures
        digit_run(s.skip(from)) == to - from,
    decreases to - from,
{
    let t = s.skip(from);
    if from < to {
        assert(t.first() == s[from]);
        assert(t.drop_first() =~= s.skip(from + 1));
        lemma_digit_run(s, from + 1, to);
    } else if to < s.len() {
        assert(t.first() == s[to]);
    }
}

/// Whether `c` is a digit.
pub fn is_digit(c: char) -> (b: bool)
    ensures
        b == digit(c),
{
    '0' <= c && c <= '9'
}

/// Whether `c` is a sign.
pub fn is_sign(c: char) -> (b: bool)
    ensures
        b == sign(c),
{
    c == '+' || c == '-'
}

/// The integer that `chars` denotes, if it denotes one.
pub fn parse_integer(chars: &Vec<char>) -> (value: Option<i64>)
    ensures
        match value {
            Some(n) => integer_value(chars@) == Some(n as int),
            None => integer_value(chars@).is_none(),
        },
{
    let len = chars.len();
    if len == 0 {
        return None;
    }
    let negative = chars[0] == '-';
    let start: usize = if is_sign(chars[0]) {
        1
    } else {
        0
    };
    if start == len {
        return None;
    }
    let ghost digits = unsigned(chars@);
    assert(digits =~= chars@.subrange(start as int, len as int));
    // The magnitude may reach 2^63 below zero and 2^63 - 1 above.
    let limit: u64 = if negative {
        i64::MAX as u64 + 1
    } else {
        i64::MAX as u64
    };
    let mut magnitude: u64 = 0;
    let mut i: usize = start;
    assert(digits.take(0) =~= Seq::empty());
    while i < len
        invariant
            start <= i <= len == chars.len(),
            start < len,
            negative <==> chars@[0] == '-',
            digits == unsigned(chars@),
            digits == chars@.subrange(start as int, len as int),
            all_digits(digits.take(i - start)),
            magnitude == decimal(digits.take(i - start)),
            magnitude <= limit,
            limit == if negative {
                -i64::MIN
            } else {
                i64::MAX as int
            },
        decreases len - i,
    {
        let c = chars[i];
        proof {
            assert(digits[i - start] == c);
            assert(digits.take(i - start + 1).drop_last() =~= digits.take(i - start));
            assert(digits.take(i - start + 1).last() == c);
        }
        if !is_digit(c) {
            assert(!digit(digits[i - start]));
            return None;
        }
        let d: u64 = (c as u32 - '0' as u32) as u64;
        if magnitude > (limit - d) / 10 {
            proof {
                if all_digits(digits) {
                    lemma_decimal_grows(digits, i - start + 1);
                }
            }
            return None;
        }
        magnitude = magnitude * 10 + d;
        i += 1;
    }
    assert(digits.take(len - start) =~= digits);
    if negative {
        if magnitude == i64::MAX as u64 + 1 {
            Some(i64::MIN)
        } else {
            Some(-(magnitude as i64))
        }
    } else {
        Some(magnitude as i64)
    }
}

/// The index of the first character at or after `from` that is no digit, or the length.
fn skip_digits(chars: &Vec<char>, from: usize) -> (to: usize)
    requires
        from <= chars.len(),
    ensures
        from <= to <= chars.len(),
        to - from == digit_run(chars@.skip(from as int)),
        forall|i: int| from <= i < to ==> digit(chars@[i]),
        to < chars.len() ==> !digit(chars@[to as int]),
{
    let mut to: usize = from;
    while to < chars.len() && is_digit(chars[to])
        invariant
            from <= to <= chars.len(),
            forall|i: int| from <= i < to ==> digit(chars@[i]),
        decreases chars.len() - to,
    {
        to += 1;
    }
    proof {
        lemma_digit_run(chars@, from as int, to as int);
    }
    to
}

/// Whether `chars[from..]` is an exponent without its letter.
fn is_exponent(chars: &Vec<char>, from: usize) -> (b: bool)
    requires
        from <= chars.len(),
    ensures
        b == exponent(chars@.skip(from as int)),
{
    let ghost s = chars@.skip(from as int);
    let start: usize = if from < chars.len() && is_sign(chars[from]) {
        from + 1
    } else {
        from
    };
    assert(unsigned(s) =~= chars@.skip(start as int));
    let end = skip_digits(chars, start);
    proof {
        let u = unsigned(s);
        if end == chars.len() {
            assert forall|i: int| 0 <= i < u.len() implies digit(#[trigger] u[i]) by {
                assert(u[i] == chars@[start + i]);
            }
        } else {
            assert(u[end - start] == chars@[end as int]);
        }
    }
    start < chars.len() && end == chars.len()
}

/// Whether `chars[from..]` is `word` but for the case of its letters.
fn is_spelling(chars: &Vec<char>, from: usize, word: &Vec<char>) -> (b: bool)
    requires
        from <= chars.len(),
        forall|i: int| 0 <= i < word.len() ==> 'a' <= #[trigger] word@[i] <= 'z',
    ensures
        b == spells(chars@.skip(from as int), word@),
{
    let ghost s = chars@.skip(from as int);
    if chars.len() - from != word.len() {
        return false;
    }
    let mut i: usize = 0;
    while i < word.len()
        invariant
            0 <= i <= word.len(),
            from + word.len() == chars.len(),
            s == chars@.skip(from as int),
            forall|i: int| 0 <= i < word.len() ==> 'a' <= #[trigger] word@[i] <= 'z',
            forall|j: int|
                0 <= j < i ==> #[trigger] s[j] == word@[j] || s[j] as int + 32 == word@[j] as int,
        decreases word.len() - i,
    {
        let c = chars[from + i];
        let w = word[i];
        assert(s[i as int] == c);
        if !(c == w || ('A' <= c && c <= 'Z' && c as u32 + 32 == w as u32)) {
            return false;
        }
        i += 1;
    }
    true
}

/// Whether `chars[from..]` names infinity or not-a-number.
fn is_special(chars: &Vec<char>, from: usize) -> (b: bool)
    requires
        from <= chars.len(),
    ensures
        b == special(chars@.skip(from as int)),
{
    let inf: Vec<char> = vec!['i', 'n', 'f'];
    assert(inf@ =~= seq!['i', 'n', 'f']);
    if is_spelling(chars, from, &inf) {
        return true;
    }
    let infinity: Vec<char> = vec!['i', 'n', 'f', 'i', 'n', 'i', 't', 'y'];
    assert(infinity@ =~= seq!['i', 'n', 'f', 'i', 'n', 'i', 't', 'y']);
    if is_spelling(chars, from, &infinity) {
        return true;
    }
    let nan: Vec<char> = vec!['n', 'a', 'n'];
    assert(nan@ =~= seq!['n', 'a', 'n']);
    is_spelling(chars, from, &nan)
}

/// Whether `chars[from..]` is an unsigned decimal number.
fn is_number(chars: &Vec<char>, from: usize) -> (b: bool)
    requires
        from <= chars.len(),
    ensures
        b == number(chars@.skip(from as int)),
{
    let len = chars.len();
    let ghost s = chars@.skip(from as int);
    let whole_end = skip_digits(chars, from);
    let ghost rest = s.skip(whole_end - from);
    assert(rest =~= chars@.skip(whole_end as int));
    let pointed = whole_end < len && chars[whole_end] == '.';
    let tail_start = if pointed {
        assert(rest.skip(1) =~= chars@.skip(whole_end + 1));
        skip_digits(chars, whole_end + 1)
    } else {
        whole_end
    };
    let ghost tail = chars@.skip(tail_start as int);
    proof {
        if pointed {
            assert(rest.skip(1 + (tail_start - whole_end - 1)) =~= tail);
        }
    }
    let digits = if pointed {
        tail_start - from - 1
    } else {
        whole_end - from
    };
    if digits == 0 {
        return false;
    }
    if tail_start == len {
        return true;
    }
    assert(tail[0] == chars@[tail_start as int]);
    assert(tail.skip(1) =~= chars@.skip(tail_start + 1));
    (chars[tail_start] == 'e' || chars[tail_start] == 'E') && is_exponent(chars, tail_start + 1)
}

/// Whether `chars` is written as a floating-point literal.
pub fn is_float_literal(chars: &Vec<char>) -> (b: bool)
    ensures
        b == float_literal(chars@),
{
    let start: usize = if chars.len() > 0 && is_sign(chars[0]) {
        1
    } else {
        0
    };
    assert(unsigned(chars@) =~= chars@.skip(start as int));
    is_special(chars, start) || is_number(chars, start)
}

} // verus!
