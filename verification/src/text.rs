//! Characters and strings: the small vocabulary the tokenizer is written in.
//!
//! Text is modelled as `Seq<char>`. The executable functions work on a line that has been
//! spread out into a `Vec<char>` once, so that every character is reached in constant time,
//! and they name parts of it by index ranges.

use vstd::prelude::*;

verus! {

/// Appending one character to a `String` (std's `String::push`): the text afterwards is
/// the text before with `c` at its end. This is assumed, not proved.
pub assume_specification[ String::push ](s: &mut String, c: char)
    ensures
        final(s)@ == old(s)@.push(c),
;

/// The quote character that is dropped from section names and values.
pub open spec fn quote() -> char {
    '"'
}

/// Whether `c` is white space: the characters of Unicode's `White_Space` property.
pub open spec fn whitespace(c: char) -> bool {
    ||| '\u{9}' <= c <= '\u{d}'
    ||| c == ' '
    ||| c == '\u{85}'
    ||| c == '\u{a0}'
    ||| c == '\u{1680}'
    ||| '\u{2000}' <= c <= '\u{200a}'
    ||| c == '\u{2028}'
    ||| c == '\u{2029}'
    ||| c == '\u{202f}'
    ||| c == '\u{205f}'
    ||| c == '\u{3000}'
}

/// Whether `c` is one of `a`..`z`, `A`..`Z`, `0`..`9`.
pub open spec fn ascii_alphanumeric(c: char) -> bool {
    ||| 'a' <= c <= 'z'
    ||| 'A' <= c <= 'Z'
    ||| '0' <= c <= '9'
}

/// `s` without its leading and trailing white space.
pub open spec fn trimmed(s: Seq<char>) -> Seq<char>
    decreases s.len(),
{
    if s.len() > 0 && whitespace(s.first()) {
        trimmed(s.drop_first())
    } else if s.len() > 0 && whitespace(s.last()) {
        trimmed(s.drop_last())
    } else {
        s
    }
}

/// `s` without any quote character, the other characters in their order.
pub open spec fn unquoted(s: Seq<char>) -> Seq<char> {
    s.filter(|c: char| c != quote())
}

/// The part of `s` before the first `c`, or all of `s` where it holds no `c`.
pub open spec fn before_first(s: Seq<char>, c: char) -> Seq<char> {
    match s.index_of_first(c) {
        Some(i) => s.take(i),
        None => s,
    }
}

/// The part of `s` after the first `c`, or nothing where it holds no `c`.
pub open spec fn after_first(s: Seq<char>, c: char) -> Seq<char> {
    match s.index_of_first(c) {
        Some(i) => s.skip(i + 1),
        None => Seq::empty(),
    }
}

/// A range `[a, b)` of `s` that is bounded by white space on both sides, and does not
/// itself begin or end with white space, is what trimming leaves of `s`.
pub proof fn lemma_trimmed_is_subrange(s: Seq<char>, a: int, b: int)
    requires
        0 <= a <= b <= s.len(),
        forall|i: int| 0 <= i < a ==> whitespace(s[i]),
        forall|i: int| b <= i < s.len() ==> whitespace(s[i]),
        a < b ==> !whitespace(s[a]) && !whitespace(s[b - 1]),
    ensures
        trimmed(s) == s.subrange(a, b),
    decreases s.len(),
{
    if s.len() == 0 {
        assert(s.subrange(a, b) =~= s);
    } else if whitespace(s.first()) {
        let rest = s.drop_first();
        assert(forall|i: int| 0 <= i < rest.len() ==> rest[i] == s[i + 1]);
        if a >= 1 {
            lemma_trimmed_is_subrange(rest, a - 1, b - 1);
            assert(rest.subrange(a - 1, b - 1) =~= s.subrange(a, b));
        } else {
            lemma_trimmed_is_subrange(rest, 0, 0);
            assert(rest.subrange(0, 0) =~= s.subrange(a, b));
        }
    } else if whitespace(s.last()) {
        let rest = s.drop_last();
        lemma_trimmed_is_subrange(rest, a, b);
        assert(rest.subrange(a, b) =~= s.subrange(a, b));
    } else {
        assert(s.subrange(a, b) =~= s);
    }
}

/// Trimming never brings in a character that was not there.
pub proof fn lemma_trimmed_keeps_absence(s: Seq<char>, c: char)
    requires
        !s.contains(c),
    ensures
        !trimmed(s).contains(c),
    decreases s.len(),
{
    if s.len() > 0 && whitespace(s.first()) {
        let rest = s.drop_first();
        assert forall|i: int| 0 <= i < rest.len() implies rest[i] != c by {
            assert(rest[i] == s[i + 1]);
        }
        lemma_trimmed_keeps_absence(rest, c);
    } else if s.len() > 0 && whitespace(s.last()) {
        let rest = s.drop_last();
        assert forall|i: int| 0 <= i < rest.len() implies rest[i] != c by {
            assert(rest[i] == s[i]);
        }
        lemma_trimmed_keeps_absence(rest, c);
    }
}

/// No quote character is left in `unquoted(s)`.
pub proof fn lemma_unquoted_has_no_quote(s: Seq<char>)
    ensures
        !unquoted(s).contains(quote()),
{
    broadcast use vstd::seq_lib::group_filter_ensures;

    let keep = |c: char| c != quote();
    if unquoted(s).contains(quote()) {
        let i = choose|i: int| 0 <= i < unquoted(s).len() && unquoted(s)[i] == quote();
        assert(keep(s.filter(keep)[i]));
    }
}

/// Removing the quotes from a text extended by one character.
pub proof fn lemma_unquoted_push(s: Seq<char>, c: char)
    ensures
        unquoted(s.push(c)) == if c != quote() {
            unquoted(s).push(c)
        } else {
            unquoted(s)
        },
{
    let keep = |c: char| c != quote();
    reveal(Seq::filter);
    assert(s.push(c).drop_last() =~= s);
}

/// Whether `c` is white space.
pub fn is_whitespace(c: char) -> (b: bool)
    ensures
        b == whitespace(c),
{
    ('\u{9}' <= c && c <= '\u{d}') || c == ' ' || c == '\u{85}' || c == '\u{a0}' || c == '\u{1680}'
        || ('\u{2000}' <= c && c <= '\u{200a}') || c == '\u{2028}' || c == '\u{2029}' || c
        == '\u{202f}' || c == '\u{205f}' || c == '\u{3000}'
}

/// Whether `c` is an ASCII letter or digit.
pub fn is_ascii_alphanumeric(c: char) -> (b: bool)
    ensures
        b == ascii_alphanumeric(c),
{
    ('a' <= c && c <= 'z') || ('A' <= c && c <= 'Z') || ('0' <= c && c <= '9')
}

/// The characters of `s`, in order.
pub fn chars_of(s: &str) -> (chars: Vec<char>)
    ensures
        chars@ == s@,
{
    let mut chars: Vec<char> = Vec::new();
    for c in it: s.chars()
        invariant
            chars@ == it.seq().take(it.index() as int),
    {
        chars.push(c);
    }
    chars
}

/// The text made of `chars[from..to]`.
pub(crate) fn string_of(chars: &Vec<char>, from: usize, to: usize) -> (text: String)
    requires
        from <= to <= chars.len(),
    ensures
        text@ == chars@.subrange(from as int, to as int),
{
    let mut text = String::new();
    let mut i: usize = from;
    while i < to
        invariant
            from <= i <= to <= chars.len(),
            text@ == chars@.subrange(from as int, i as int),
        decreases to - i,
    {
        text.push(chars[i]);
        i += 1;
    }
    text
}

/// The characters of `chars[from..to]` without the quote characters among them.
pub(crate) fn strip_quotes(chars: &Vec<char>, from: usize, to: usize) -> (kept: Vec<char>)
    requires
        from <= to <= chars.len(),
    ensures
        kept@ == unquoted(chars@.subrange(from as int, to as int)),
{
    let mut kept: Vec<char> = Vec::new();
    let mut i: usize = from;
    assert(chars@.subrange(from as int, from as int) =~= Seq::empty());
    while i < to
        invariant
            from <= i <= to <= chars.len(),
            kept@ == unquoted(chars@.subrange(from as int, i as int)),
        decreases to - i,
    {
        let c = chars[i];
        proof {
            lemma_unquoted_push(chars@.subrange(from as int, i as int), c);
            assert(chars@.subrange(from as int, i as int).push(c) =~= chars@.subrange(
                from as int,
                i + 1,
            ));
        }
        if c != '"' {
            kept.push(c);
        }
        i += 1;
    }
    kept
}

/// The bounds of what trimming leaves of `chars[from..to]`.
pub(crate) fn trim(chars: &Vec<char>, from: usize, to: usize) -> (bounds: (usize, usize))
    requires
        from <= to <= chars.len(),
    ensures
        from <= bounds.0 <= bounds.1 <= to,
        chars@.subrange(bounds.0 as int, bounds.1 as int) == trimmed(
            chars@.subrange(from as int, to as int),
        ),
{
    let mut a: usize = from;
    while a < to && is_whitespace(chars[a])
        invariant
            from <= a <= to <= chars.len(),
            forall|i: int| from <= i < a ==> whitespace(chars@[i]),
        decreases to - a,
    {
        a += 1;
    }
    let mut b: usize = to;
    while a < b && is_whitespace(chars[b - 1])
        invariant
            from <= a <= b <= to <= chars.len(),
            forall|i: int| b <= i < to ==> whitespace(chars@[i]),
        decreases b - a,
    {
        b -= 1;
    }
    proof {
        let s = chars@.subrange(from as int, to as int);
        lemma_trimmed_is_subrange(s, a - from, b - from);
        assert(s.subrange(a - from, b - from) =~= chars@.subrange(a as int, b as int));
    }
    (a, b)
}

/// The index of the first `c` in `chars[from..to]`, counted from the start of `chars`.
pub(crate) fn find(chars: &Vec<char>, from: usize, to: usize, c: char) -> (found: Option<usize>)
    requires
        from <= to <= chars.len(),
    ensures
        match found {
            Some(k) => from <= k < to && chars@.subrange(from as int, to as int).index_of_first(c)
                == Some(k - from),
            None => chars@.subrange(from as int, to as int).index_of_first(c).is_none(),
        },
{
    let ghost s = chars@.subrange(from as int, to as int);
    let mut i: usize = from;
    while i < to
        invariant
            from <= i <= to <= chars.len(),
            s == chars@.subrange(from as int, to as int),
            forall|j: int| 0 <= j < i - from ==> s[j] != c,
        decreases to - i,
    {
        if chars[i] == c {
            proof {
                s.index_of_first_ensures(c);
                assert(s[i - from] == c);
            }
            return Some(i);
        }
        i += 1;
    }
    proof {
        s.index_of_first_ensures(c);
    }
    None
}

} // verus!
