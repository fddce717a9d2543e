//! Text as sequences of characters: conversion from and to strings, decimal
//! numbers, and splitting a line at a separator.

use vstd::prelude::*;
use vstd::string::StringExecFns;

verus! {

/// Taken on trust from the standard library, not proved here: `String::push`
/// appends the character to the end of the string and changes nothing else.
pub assume_specification[ String::push ](s: &mut String, c: char)
    ensures
        final(s)@ == old(s)@.push(c),
;

/// The characters of `s`, in order.
pub fn chars_of(s: &str) -> (v: Vec<char>)
    ensures
        v@ == s@,
{
    let mut v: Vec<char> = Vec::new();
    for c in it: s.chars()
        invariant
            v@ == it.seq().take(it.index() as int),
    {
        v.push(c);
    }
    v
}

/// The string made of the characters of `v`, in order.
pub fn string_of(v: &Vec<char>) -> (s: String)
    ensures
        s@ == v@,
{
    let mut s = String::new();
    let mut i: usize = 0;
    while i < v.len()
        invariant
            i <= v.len(),
            s@ == v@.take(i as int),
        decreases v.len() - i,
    {
        s.push(v[i]);
        i += 1;
    }
    s
}

/// Whether `c` is one of the ten decimal digits.
pub open spec fn is_digit(c: char) -> bool {
    '0' <= c <= '9'
}

/// The number that the digit `c` stands for.
pub open spec fn digit_value(c: char) -> nat {
    (c as int - '0' as int) as nat
}

/// The digit that stands for `d`, for `d` below ten.
pub open spec fn digit_char(d: nat) -> char {
    (d + '0' as nat) as char
}

/// The digit that stands for `d`.
pub fn digit_of(d: u8) -> (c: char)
    requires
        d <= 9,
    ensures
        c == digit_char(d as nat),
        is_digit(c),
        digit_value(c) == d,
{
    (d + 48) as char
}

/// The number that the digit `c` stands for.
pub fn value_of(c: char) -> (d: u8)
    requires
        is_digit(c),
    ensures
        d == digit_value(c),
        d <= 9,
{
    (c as u32 - 48) as u8
}

/// The texts of the strings `v`, one sequence of characters for each.
pub open spec fn texts(v: Seq<String>) -> Seq<Seq<char>> {
    Seq::new(v.len(), |i: int| v[i]@)
}

/// Whether every character of `s` is a decimal digit.
pub open spec fn all_digits(s: Seq<char>) -> bool {
    forall|i: int| 0 <= i < s.len() ==> is_digit(#[trigger] s[i])
}

/// The number written by the digits `s`, most significant first.
pub open spec fn digits_value(s: Seq<char>) -> nat
    decreases s.len(),
{
    if s.len() == 0 {
        0
    } else {
        digits_value(s.drop_last()) * 10 + digit_value(s.last())
    }
}

/// `s` without a leading plus sign, if it has one.
pub open spec fn unsigned_part(s: Seq<char>) -> Seq<char> {
    if s.len() > 0 && s[0] == '+' {
        s.skip(1)
    } else {
        s
    }
}

/// The natural number that `s` denotes: an optional plus sign followed by one
/// or more decimal digits, leading zeros allowed. Anything else denotes
/// nothing.
pub open spec fn decimal(s: Seq<char>) -> Option<nat> {
    let digits = unsigned_part(s);
    if digits.len() > 0 && all_digits(digits) {
        Some(digits_value(digits))
    } else {
        None
    }
}

/// Why a text was not read as a number.
#[derive(Clone, Copy, Debug, PartialEq, Eq, Structural)]
pub enum NumberError {
    /// The text is not a decimal number.
    Malformed,
    /// The text is a decimal number above the limit.
    TooLarge,
}

/// What `parse_decimal` returns for the text `s` and the limit `limit`.
pub open spec fn parsed(s: Seq<char>, limit: nat) -> Result<u64, NumberError> {
    match decimal(s) {
        None => Err(NumberError::Malformed),
        Some(n) => if n <= limit {
            Ok(n as u64)
        } else {
            Err(NumberError::TooLarge)
        },
    }
}

/// Reads `s` as a decimal number no greater than `limit`.
pub fn parse_decimal(s: &Vec<char>, limit: u64) -> (r: Result<u64, NumberError>)
    ensures
        r == parsed(s@, limit as nat),
{
    let start: usize = if s.len() > 0 && s[0] == '+' { 1 } else { 0 };
    let ghost digits = unsigned_part(s@);
    if start == s.len() {
        return Err(NumberError::Malformed);
    }
    let mut value: u64 = 0;
    let mut over = false;
    let mut i: usize = start;
    while i < s.len()
        invariant
            start <= i <= s.len(),
            digits == s@.skip(start as int),
            digits == unsigned_part(s@),
            all_digits(digits.take(i - start)),
            !over ==> value == digits_value(digits.take(i - start)) && value <= limit,
            over ==> digits_value(digits.take(i - start)) > limit,
        decreases s.len() - i,
    {
        let c = s[i];
        if !('0' <= c && c <= '9') {
            assert(!is_digit(digits[i - start]));
            return Err(NumberError::Malformed);
        }
        let ghost before = digits.take(i - start);
        let ghost after = digits.take(i - start + 1);
        assert(after.drop_last() == before);
        if !over {
            let d: u128 = (c as u32 - '0' as u32) as u128;
            let next: u128 = (value as u128) * 10 + d;
            if next > limit as u128 {
                over = true;
            } else {
                value = next as u64;
            }
        }
        i += 1;
    }
    assert(digits.take(i - start) == digits);
    if over {
        Err(NumberError::TooLarge)
    } else {
        Ok(value)
    }
}

/// The number that `s` denotes where it lies between `low` and `high`, both
/// included; nothing where `s` denotes no number or one outside.
pub open spec fn between(s: Seq<char>, low: nat, high: nat) -> Option<u64> {
    match decimal(s) {
        Some(n) => if low <= n <= high {
            Some(n as u64)
        } else {
            None
        },
        None => None,
    }
}

/// Reads `s` as a decimal number between `low` and `high`, both included.
pub fn number_between(s: &str, low: u64, high: u64) -> (r: Option<u64>)
    ensures
        r == between(s@, low as nat, high as nat),
{
    let text = chars_of(s);
    match parse_decimal(&text, high) {
        Ok(n) => if n >= low {
            Some(n)
        } else {
            None
        },
        Err(_) => None,
    }
}

/// The decimal digits of `n`, most significant first, without leading zeros.
pub open spec fn digits_of(n: nat) -> Seq<char>
    decreases n,
{
    if n < 10 {
        seq![digit_char(n)]
    } else {
        digits_of(n / 10).push(digit_char(n % 10))
    }
}

/// The digits of a number denote that number.
pub proof fn lemma_decimal_of_digits(n: nat)
    ensures
        digits_of(n).len() >= 1,
        all_digits(digits_of(n)),
        digits_value(digits_of(n)) == n,
        decimal(digits_of(n)) == Some(n),
    decreases n,
{
    let s = digits_of(n);
    if n < 10 {
        assert(digits_value(s.drop_last()) == 0);
    } else {
        lemma_decimal_of_digits(n / 10);
        assert(s.drop_last() == digits_of(n / 10));
    }
}

/// Writes `n` in decimal digits.
pub fn decimal_text(n: u64) -> (v: Vec<char>)
    ensures
        v@ == digits_of(n as nat),
    decreases n,
{
    if n < 10 {
        let mut v: Vec<char> = Vec::new();
        v.push(digit_of(n as u8));
        v
    } else {
        let mut v = decimal_text(n / 10);
        v.push(digit_of((n % 10) as u8));
        v
    }
}

/// `s` without its carriage returns and line feeds.
pub open spec fn without_line_ends(s: Seq<char>) -> Seq<char>
    decreases s.len(),
{
    if s.len() == 0 {
        s
    } else if s.last() == '\n' || s.last() == '\r' {
        without_line_ends(s.drop_last())
    } else {
        without_line_ends(s.drop_last()).push(s.last())
    }
}

/// Removes every carriage return and line feed from `s`.
pub fn strip_line_ends(s: &Vec<char>) -> (v: Vec<char>)
    ensures
        v@ == without_line_ends(s@),
{
    let mut v: Vec<char> = Vec::new();
    let mut i: usize = 0;
    while i < s.len()
        invariant
            i <= s.len(),
            v@ == without_line_ends(s@.take(i as int)),
        decreases s.len() - i,
    {
        let c = s[i];
        assert(s@.take(i + 1).drop_last() == s@.take(i as int));
        if c != '\n' && c != '\r' {
            v.push(c);
        }
        i += 1;
    }
    assert(s@.take(i as int) == s@);
    v
}

/// The texts of the vectors `v`, one sequence of characters for each.
pub open spec fn views(v: Seq<Vec<char>>) -> Seq<Seq<char>> {
    Seq::new(v.len(), |i: int| v[i]@)
}

/// The texts of the string slices `v`, one sequence of characters for each.
pub open spec fn words(v: Seq<&str>) -> Seq<Seq<char>> {
    Seq::new(v.len(), |i: int| v[i]@)
}

/// The parts into which the separator `sep` cuts `s`: what stands before its
/// first occurrence, between each two, and after the last. There is one part
/// more than there are separators, and a part may be empty.
pub open spec fn split_on(s: Seq<char>, sep: char) -> Seq<Seq<char>>
    decreases s.len(),
{
    if s.len() == 0 {
        seq![Seq::empty()]
    } else {
        let parts = split_on(s.drop_last(), sep);
        if s.last() == sep {
            parts.push(Seq::empty())
        } else {
            parts.drop_last().push(parts.last().push(s.last()))
        }
    }
}

/// The parts `parts` in one sequence, with `sep` between each two.
pub open spec fn join(parts: Seq<Seq<char>>, sep: char) -> Seq<char>
    decreases parts.len(),
{
    if parts.len() == 0 {
        Seq::empty()
    } else if parts.len() == 1 {
        parts[0]
    } else {
        join(parts.drop_last(), sep).push(sep) + parts.last()
    }
}

/// Splitting loses nothing and leaves no separator: there is at least one
/// part, no part holds the separator, and the parts joined with the separator
/// are the text that was split.
pub proof fn lemma_split_join(s: Seq<char>, sep: char)
    ensures
        split_on(s, sep).len() >= 1,
        forall|i: int|
            0 <= i < split_on(s, sep).len() ==> !(#[trigger] split_on(s, sep)[i]).contains(sep),
        join(split_on(s, sep), sep) == s,
    decreases s.len(),
{
    let all = split_on(s, sep);
    if s.len() == 0 {
        assert(all[0] == Seq::<char>::empty());
    } else {
        let d = s.drop_last();
        let x = s.last();
        let parts = split_on(d, sep);
        lemma_split_join(d, sep);
        assert(d.push(x) == s);
        if x == sep {
            assert(all.drop_last() == parts);
            assert(join(all, sep) == join(parts, sep).push(sep) + Seq::<char>::empty());
            assert(join(all, sep) == s);
        } else {
            let tail = parts.last().push(x);
            assert(all.last() == tail);
            assert(!tail.contains(sep)) by {
                if tail.contains(sep) {
                    let i = choose|i: int| 0 <= i < tail.len() && tail[i] == sep;
                    assert(parts.last()[i] == sep);
                }
            }
            if parts.len() == 1 {
                assert(join(all, sep) == s);
            } else {
                assert(all.drop_last() == parts.drop_last());
                assert(join(all, sep) == (join(parts.drop_last(), sep).push(sep)
                    + parts.last()).push(x));
                assert(join(all, sep) == s);
            }
        }
    }
}

/// Cuts `s` at every occurrence of `sep`.
pub fn split(s: &Vec<char>, sep: char) -> (parts: Vec<Vec<char>>)
    ensures
        views(parts@) == split_on(s@, sep),
{
    let mut parts: Vec<Vec<char>> = Vec::new();
    let mut current: Vec<char> = Vec::new();
    let mut i: usize = 0;
    while i < s.len()
        invariant
            i <= s.len(),
            views(parts@).push(current@) == split_on(s@.take(i as int), sep),
        decreases s.len() - i,
    {
        let c = s[i];
        assert(s@.take(i + 1).drop_last() == s@.take(i as int));
        if c == sep {
            parts.push(current);
            current = Vec::new();
        } else {
            current.push(c);
        }
        i += 1;
    }
    assert(s@.take(i as int) == s@);
    parts.push(current);
    parts
}

/// The lines `lines` as one text, each followed by a line feed.
pub open spec fn unlines(lines: Seq<Seq<char>>) -> Seq<char>
    decreases lines.len(),
{
    if lines.len() == 0 {
        Seq::empty()
    } else {
        unlines(lines.drop_last()) + lines.last().push('\n')
    }
}

/// Writes the lines `lines` as one text, each followed by a line feed.
pub fn unlines_text(lines: &Vec<String>) -> (text: String)
    ensures
        text@ == unlines(texts(lines@)),
{
    let mut text = String::new();
    let mut i: usize = 0;
    let ghost all = texts(lines@);
    while i < lines.len()
        invariant
            i <= lines.len(),
            all == texts(lines@),
            text@ == unlines(all.take(i as int)),
        decreases lines.len() - i,
    {
        assert(all.take(i + 1).drop_last() == all.take(i as int));
        text.append(lines[i].as_str());
        text.push('\n');
        i += 1;
    }
    assert(all.take(i as int) == all);
    text
}

} // verus!
