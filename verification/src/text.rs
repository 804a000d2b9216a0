//! Character-level helpers on strings: conversion, searching, decimal
//! parsing and lexicographic order.
//!
//! Every string is modelled by its sequence of characters (`s@`).

use vstd::prelude::*;
use vstd::std_specs::iter::IteratorSpec;

verus! {

/// Position of the first `c` in `s` at or after `from`, or `s.len()` when
/// there is none.
pub open spec fn first_index(s: Seq<char>, c: char, from: int) -> int
    decreases s.len() - from,
{
    if from < 0 || from >= s.len() {
        s.len() as int
    } else if s[from] == c {
        from
    } else {
        first_index(s, c, from + 1)
    }
}

/// `needle` occurs in `hay` starting at position `at`.
pub open spec fn occurs_at(hay: Seq<char>, needle: Seq<char>, at: int) -> bool {
    &&& 0 <= at
    &&& at + needle.len() <= hay.len()
    &&& hay.subrange(at, at + needle.len()) == needle
}

/// `needle` occurs somewhere in `hay`.
pub open spec fn is_substring(hay: Seq<char>, needle: Seq<char>) -> bool {
    exists|at: int| occurs_at(hay, needle, at)
}

pub open spec fn is_digit(c: char) -> bool {
    '0' <= c && c <= '9'
}

pub open spec fn digit_value(c: char) -> nat {
    (c as int - '0' as int) as nat
}

pub open spec fn all_digits(s: Seq<char>) -> bool {
    forall|i: int| 0 <= i < s.len() ==> is_digit(#[trigger] s[i])
}

/// The number that a string of decimal digits denotes (0 for the empty string).
pub open spec fn decimal_value(s: Seq<char>) -> nat
    decreases s.len(),
{
    if s.len() == 0 {
        0
    } else {
        decimal_value(s.drop_last()) * 10 + digit_value(s.last())
    }
}

/// Reading of an unsigned decimal number no larger than `max`: an optional
/// `+`, then one or more ASCII digits and nothing else. Leading zeros are
/// accepted.
pub open spec fn parse_unsigned(s: Seq<char>, max: nat) -> Option<nat> {
    let digits = if s.len() > 0 && s[0] == '+' {
        s.subrange(1, s.len() as int)
    } else {
        s
    };
    if digits.len() > 0 && all_digits(digits) && decimal_value(digits) <= max {
        Some(decimal_value(digits))
    } else {
        None
    }
}

/// Rank of a character in an order of strings. With `separator_first` the
/// path separator `/` sorts before every other character, so that strings
/// compare component by component.
pub open spec fn rank(c: char, separator_first: bool) -> int {
    if separator_first && c == '/' {
        0
    } else {
        c as int + 1
    }
}

/// `a` comes strictly before `b` in the lexicographic order by `rank`, looking
/// only at positions `from` and later (the parts before agree).
pub open spec fn lex_less_from(a: Seq<char>, b: Seq<char>, separator_first: bool, from: int) -> bool
    decreases a.len() - from,
{
    if from < 0 {
        false
    } else if from >= b.len() {
        false
    } else if from >= a.len() {
        true
    } else if rank(a[from], separator_first) < rank(b[from], separator_first) {
        true
    } else if rank(a[from], separator_first) > rank(b[from], separator_first) {
        false
    } else {
        lex_less_from(a, b, separator_first, from + 1)
    }
}

/// `a` comes strictly before `b` in the lexicographic order by `rank`.
pub open spec fn lex_less(a: Seq<char>, b: Seq<char>, separator_first: bool) -> bool {
    lex_less_from(a, b, separator_first, 0)
}

/// The pieces of `s` between the occurrences of `sep`, from position
/// `from` on: one piece more than there are separators, so that a text
/// without separator is one piece and an empty text one empty piece.
pub open spec fn split_from(s: Seq<char>, sep: char, from: int) -> Seq<Seq<char>>
    decreases s.len() - from,
{
    let at = first_index(s, sep, from);
    if 0 <= from <= at < s.len() {
        seq![s.subrange(from, at)] + split_from(s, sep, at + 1)
    } else {
        seq![s.subrange(from, s.len() as int)]
    }
}

/// The pieces of `s` between the occurrences of `sep`.
pub open spec fn split_spec(s: Seq<char>, sep: char) -> Seq<Seq<char>> {
    split_from(s, sep, 0)
}

/// The characters of a string slice, in order.
pub fn to_chars(s: &str) -> (v: Vec<char>)
    ensures
        v@ == s@,
{
    let mut v: Vec<char> = Vec::new();
    for c in it: s.chars()
        invariant
            it.seq() == s@,
            v@ == it.seq().take(it.index()),
    {
        assert(it.seq().take(it.index() + 1) == it.seq().take(it.index()).push(c));
        v.push(c);
    }
    assert(s@.take(s@.len() as int) == s@);
    v
}

/// Position of the first `c` in `s` at or after `from`; `s.len()` if none.
pub fn find_char(s: &Vec<char>, c: char, from: usize) -> (at: usize)
    requires
        from <= s.len(),
    ensures
        at == first_index(s@, c, from as int),
        from <= at <= s.len(),
        at < s.len() ==> s@[at as int] == c,
        forall|i: int| from <= i < at ==> s@[i] != c,
{
    let mut i: usize = from;
    while i < s.len()
        invariant
            from <= i <= s.len(),
            first_index(s@, c, from as int) == first_index(s@, c, i as int),
            forall|j: int| from <= j < i ==> s@[j] != c,
        decreases s.len() - i,
    {
        if s[i] == c {
            return i;
        }
        i += 1;
    }
    i
}

/// The pieces of `text` between the occurrences of `sep`.
pub fn split(text: &str, sep: char) -> (r: Vec<String>)
    ensures
        Seq::new(r@.len(), |i: int| r@[i]@) == split_spec(text@, sep),
{
    let chars = to_chars(text);
    let mut out: Vec<String> = Vec::new();
    let mut from: usize = 0;
    let ghost done: Seq<Seq<char>> = Seq::empty();
    loop
        invariant
            from <= chars.len(),
            chars@ == text@,
            done == Seq::new(out@.len(), |i: int| out@[i]@),
            split_spec(text@, sep) == done + split_from(text@, sep, from as int),
        decreases chars.len() - from,
    {
        let at: usize = find_char(&chars, sep, from);
        let ghost before = out@;
        out.push(text.substring_char(from, at).to_owned());
        proof {
            let piece = text@.subrange(from as int, at as int);
            assert(Seq::new(out@.len(), |i: int| out@[i]@) =~= done.push(piece));
            if at < chars.len() {
                assert(done + (seq![piece] + split_from(text@, sep, at + 1)) =~= done.push(piece)
                    + split_from(text@, sep, at + 1));
            } else {
                assert(done + seq![piece] =~= done.push(piece));
            }
            done = done.push(piece);
        }
        if at >= chars.len() {
            return out;
        }
        from = at + 1;
    }
}

/// Whether `needle` occurs in `hay` at position `at`.
pub fn matches_at(hay: &Vec<char>, needle: &Vec<char>, at: usize) -> (r: bool)
    requires
        at + needle.len() <= hay.len(),
    ensures
        r == occurs_at(hay@, needle@, at as int),
{
    let mut k: usize = 0;
    while k < needle.len()
        invariant
            k <= needle.len(),
            at + needle.len() <= hay.len(),
            forall|j: int| 0 <= j < k ==> hay@[at + j] == needle@[j],
        decreases needle.len() - k,
    {
        if hay[at + k] != needle[k] {
            assert(hay@.subrange(at as int, at + needle.len())[k as int] != needle@[k as int]);
            return false;
        }
        k += 1;
    }
    assert(hay@.subrange(at as int, at + needle.len()) =~= needle@);
    true
}

/// Whether `needle` occurs anywhere in `hay`. The empty string occurs in
/// every string.
pub fn contains(hay: &Vec<char>, needle: &Vec<char>) -> (r: bool)
    ensures
        r == is_substring(hay@, needle@),
{
    if needle.len() > hay.len() {
        return false;
    }
    let last: usize = hay.len() - needle.len();
    let mut at: usize = 0;
    loop
        invariant
            at <= last,
            last == hay.len() - needle.len(),
            needle.len() <= hay.len(),
            forall|j: int| 0 <= j < at ==> !occurs_at(hay@, needle@, j),
        decreases last - at,
    {
        if matches_at(hay, needle, at) {
            return true;
        }
        if at == last {
            return false;
        }
        at += 1;
    }
}

/// Whether `needle` occurs anywhere in `hay`.
pub fn str_contains(hay: &str, needle: &str) -> (r: bool)
    ensures
        r == is_substring(hay@, needle@),
{
    let h = to_chars(hay);
    let n = to_chars(needle);
    contains(&h, &n)
}

/// A non-empty prefix of digits holds a value no larger than the whole.
pub proof fn lemma_decimal_prefix(s: Seq<char>, k: int)
    requires
        0 <= k <= s.len(),
    ensures
        decimal_value(s.take(k)) <= decimal_value(s),
    decreases s.len() - k,
{
    if k == s.len() {
        assert(s.take(k) == s);
    } else {
        lemma_decimal_prefix(s, k + 1);
        assert(s.take(k + 1).drop_last() == s.take(k));
    }
}

/// Reads the characters `s[from..to]` as an unsigned decimal number that
/// fits in 16 bits.
pub fn parse_u16(s: &Vec<char>, from: usize, to: usize) -> (r: Option<u16>)
    requires
        from <= to <= s.len(),
    ensures
        match parse_unsigned(s@.subrange(from as int, to as int), 0xffff) {
            Some(n) => r == Some(n as u16),
            None => r is None,
        },
{
    let ghost text = s@.subrange(from as int, to as int);
    let start: usize = if from < to && s[from] == '+' {
        from + 1
    } else {
        from
    };
    let ghost digits = s@.subrange(start as int, to as int);
    let ghost expected = parse_unsigned(text, 0xffff);
    assert(digits == if text.len() > 0 && text[0] == '+' {
        text.subrange(1, text.len() as int)
    } else {
        text
    });
    if start == to {
        return None;
    }
    let mut value: u32 = 0;
    let mut i: usize = start;
    while i < to
        invariant
            from <= start <= i <= to <= s.len(),
            digits == s@.subrange(start as int, to as int),
            expected == parse_unsigned(s@.subrange(from as int, to as int), 0xffff),
            expected == if digits.len() > 0 && all_digits(digits) && decimal_value(digits)
                <= 0xffff {
                Some(decimal_value(digits))
            } else {
                None::<nat>
            },
            all_digits(digits.take(i - start)),
            value == decimal_value(digits.take(i - start)),
            value <= 0xffff,
        decreases to - i,
    {
        let c = s[i];
        if c < '0' || c > '9' {
            assert(!is_digit(digits[i - start]));
            return None;
        }
        let d: u32 = c as u32 - '0' as u32;
        proof {
            let next = digits.take(i - start + 1);
            assert(next.drop_last() == digits.take(i - start));
            assert(next.last() == c);
            assert(all_digits(next)) by {
                assert forall|j: int| 0 <= j < next.len() implies is_digit(#[trigger] next[j]) by {
                    if j < i - start {
                        assert(next[j] == digits.take(i - start)[j]);
                    }
                }
            }
            assert(decimal_value(next) == value * 10 + d);
        }
        let next_value: u32 = value * 10 + d;
        if next_value > 0xffff {
            proof {
                lemma_decimal_prefix(digits, i - start + 1);
            }
            return None;
        }
        value = next_value;
        i += 1;
    }
    assert(digits.take(to - start) == digits);
    Some(value as u16)
}

/// Whether `a[from..]` comes strictly before `b[from..]`, given that the
/// two agree before `from`.
pub fn lex_less_exec(a: &Vec<char>, b: &Vec<char>, separator_first: bool) -> (r: bool)
    ensures
        r == lex_less(a@, b@, separator_first),
{
    let mut i: usize = 0;
    while i < a.len() && i < b.len()
        invariant
            i <= a.len(),
            i <= b.len(),
            lex_less(a@, b@, separator_first) == lex_less_from(a@, b@, separator_first, i as int),
        decreases a.len() - i,
    {
        let x = char_rank(a[i], separator_first);
        let y = char_rank(b[i], separator_first);
        if x < y {
            return true;
        }
        if x > y {
            return false;
        }
        i += 1;
    }
    i < b.len()
}

/// The rank of a character as a machine integer.
pub fn char_rank(c: char, separator_first: bool) -> (r: u32)
    ensures
        r == rank(c, separator_first),
{
    if separator_first && c == '/' {
        0
    } else {
        c as u32 + 1
    }
}

/// Where `c` stands at `k` and nowhere in `from..k`, the first `c` at or
/// after `from` is at `k`; with `k == s.len()` there is none.
pub proof fn lemma_first_index_is(s: Seq<char>, c: char, from: int, k: int)
    requires
        0 <= from <= k <= s.len(),
        forall|i: int| from <= i < k ==> s[i] != c,
        k < s.len() ==> s[k] == c,
    ensures
        first_index(s, c, from) == k,
    decreases k - from,
{
    if from < k {
        lemma_first_index_is(s, c, from + 1, k);
    }
}

/// A string that reads as a number holds only digits, but for a leading `+`.
pub proof fn lemma_parsed_chars(s: Seq<char>, max: nat)
    requires
        parse_unsigned(s, max) is Some,
    ensures
        s.len() > 0,
        forall|i: int| 0 <= i < s.len() ==> is_digit(#[trigger] s[i]) || (i == 0 && s[i] == '+'),
{
    let digits = if s.len() > 0 && s[0] == '+' {
        s.subrange(1, s.len() as int)
    } else {
        s
    };
    assert forall|i: int| 0 <= i < s.len() implies is_digit(#[trigger] s[i]) || (i == 0 && s[i]
        == '+') by {
        if s[0] == '+' {
            if i > 0 {
                assert(s[i] == digits[i - 1]);
            }
        }
    }
}

/// Different characters have different ranks.
pub proof fn lemma_rank_injective(c: char, d: char, separator_first: bool)
    requires
        rank(c, separator_first) == rank(d, separator_first),
    ensures
        c == d,
{
}

/// Two strings that agree from `from` on in rank agree there in content:
/// if neither comes before the other, they are equal from `from` on.
pub proof fn lemma_lex_trichotomy_from(a: Seq<char>, b: Seq<char>, separator_first: bool, from: int)
    requires
        0 <= from,
        from <= a.len(),
        from <= b.len(),
        !lex_less_from(a, b, separator_first, from),
        !lex_less_from(b, a, separator_first, from),
    ensures
        a.len() == b.len(),
        forall|i: int| from <= i < a.len() ==> a[i] == b[i],
    decreases a.len() - from,
{
    if from < a.len() && from < b.len() {
        lemma_rank_injective(a[from], b[from], separator_first);
        lemma_lex_trichotomy_from(a, b, separator_first, from + 1);
    }
}

/// Of two different strings one comes before the other.
pub proof fn lemma_lex_total(a: Seq<char>, b: Seq<char>, separator_first: bool)
    ensures
        a == b || lex_less(a, b, separator_first) || lex_less(b, a, separator_first),
{
    if !lex_less(a, b, separator_first) && !lex_less(b, a, separator_first) {
        lemma_lex_trichotomy_from(a, b, separator_first, 0);
        assert(a =~= b);
    }
}

/// No string comes before itself, and of two strings at most one comes
/// before the other.
pub proof fn lemma_lex_asymmetric_from(a: Seq<char>, b: Seq<char>, separator_first: bool, from: int)
    requires
        0 <= from,
    ensures
        !(lex_less_from(a, b, separator_first, from) && lex_less_from(b, a, separator_first, from)),
    decreases a.len() - from,
{
    if from < a.len() && from < b.len() {
        lemma_lex_asymmetric_from(a, b, separator_first, from + 1);
    }
}

pub proof fn lemma_lex_transitive_from(
    a: Seq<char>,
    b: Seq<char>,
    c: Seq<char>,
    separator_first: bool,
    from: int,
)
    requires
        0 <= from,
        lex_less_from(a, b, separator_first, from),
        lex_less_from(b, c, separator_first, from),
    ensures
        lex_less_from(a, c, separator_first, from),
    decreases a.len() - from,
{
    if from < a.len() && from < b.len() && from < c.len() {
        if rank(a[from], separator_first) == rank(b[from], separator_first) && rank(
            b[from],
            separator_first,
        ) == rank(c[from], separator_first) {
            lemma_lex_transitive_from(a, b, c, separator_first, from + 1);
        }
    }
}

/// The order is strict: irreflexive, asymmetric and transitive.
pub proof fn lemma_lex_strict(a: Seq<char>, b: Seq<char>, c: Seq<char>, separator_first: bool)
    ensures
        !lex_less(a, a, separator_first),
        !(lex_less(a, b, separator_first) && lex_less(b, a, separator_first)),
        lex_less(a, b, separator_first) && lex_less(b, c, separator_first) ==> lex_less(
            a,
            c,
            separator_first,
        ),
{
    lemma_lex_asymmetric_from(a, a, separator_first, 0);
    lemma_lex_asymmetric_from(a, b, separator_first, 0);
    if lex_less(a, b, separator_first) && lex_less(b, c, separator_first) {
        lemma_lex_transitive_from(a, b, c, separator_first, 0);
    }
}

} // verus!
