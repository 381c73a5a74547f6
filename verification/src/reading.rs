//! Reading raw version texts.
//!
//! Texts are read leniently: a missing minor or patch number counts as
//! zero, and further parts become pre-release identifiers or build
//! metadata. One rule is kept strictly, for versions as it is for range
//! requirements: no number is written with a leading zero. A text whose
//! major, minor, patch or further number has one is not a version.
use crate::ranges::{lenient_version, parse_lenient};
use crate::text::{pieces, split, texts, trim, trimmed};
use crate::version::{Version, VersionView};
use vstd::prelude::*;

verus! {

/// Whether `c` is one of the digits `0` to `9`.
pub open spec fn is_digit(c: char) -> bool {
    '0' <= c <= '9'
}

/// How many characters stand before the first `-` or `+` of `text`.
pub open spec fn numbers_end(text: Seq<char>) -> int
    decreases text.len(),
{
    if text.len() == 0 || text[0] == '-' || text[0] == '+' {
        0
    } else {
        1 + numbers_end(text.skip(1))
    }
}

/// The part of a version text that holds its numbers: what stands before
/// the first `-` or `+`.
pub open spec fn number_part(text: Seq<char>) -> Seq<char> {
    text.take(numbers_end(text))
}

/// `part` without the `v` or `V` that it may start with.
pub open spec fn unprefixed(part: Seq<char>) -> Seq<char> {
    if part.len() > 0 && (part[0] == 'v' || part[0] == 'V') {
        part.skip(1)
    } else {
        part
    }
}

/// Whether `part` is a number written with a leading zero: two digits or
/// more, the first of them `0`.
pub open spec fn zero_led(part: Seq<char>) -> bool {
    part.len() >= 2 && part[0] == '0' && forall|j: int|
        0 <= j < part.len() ==> is_digit(#[trigger] part[j])
}

/// The parts of the number part of `text` between its dots, each trimmed, and the
/// first without a leading `v`.
pub open spec fn numbers(text: Seq<char>) -> Seq<Seq<char>> {
    let parts = pieces(number_part(text), '.');
    Seq::new(
        parts.len(),
        |i: int|
            if i == 0 {
                unprefixed(trimmed(parts[i]))
            } else {
                trimmed(parts[i])
            },
    )
}

/// Whether one of the numbers of `text` is written with a leading zero.
pub open spec fn has_zero_led_number(text: Seq<char>) -> bool {
    exists|i: int| 0 <= i < numbers(text).len() && zero_led(#[trigger] numbers(text)[i])
}

/// The version that `text` is read as: what lenient parsing makes of it,
/// unless one of its numbers is written with a leading zero.
pub open spec fn read_version(text: Seq<char>) -> Option<VersionView> {
    if has_zero_led_number(text) {
        None
    } else {
        lenient_version(text)
    }
}

/// The characters before position `n` hold neither `-` nor `+`, and the
/// one at `n`, if any, is one of the two: then the numbers end at `n`.
pub proof fn lemma_numbers_end(text: Seq<char>, n: int)
    requires
        0 <= n <= text.len(),
        forall|j: int| 0 <= j < n ==> #[trigger] text[j] != '-' && text[j] != '+',
        n < text.len() ==> text[n] == '-' || text[n] == '+',
    ensures
        numbers_end(text) == n,
    decreases n,
{
    if n > 0 {
        let rest = text.skip(1);
        assert forall|j: int| 0 <= j < n - 1 implies #[trigger] rest[j] != '-' && rest[j]
            != '+' by {
            assert(rest[j] == text[j + 1]);
        }
        lemma_numbers_end(rest, n - 1);
    }
}

/// Whether `part` is a number written with a leading zero.
fn is_zero_led(part: &str) -> (led: bool)
    ensures
        led == zero_led(part@),
{
    let len = part.unicode_len();
    if len < 2 {
        return false;
    }
    let mut i: usize = 0;
    for c in it: part.chars()
        invariant
            len == part@.len(),
            len >= 2,
            it.seq() == part@,
            i == it.index(),
            i <= len,
            i > 0 ==> part@[0] == '0',
            forall|j: int| 0 <= j < i ==> is_digit(#[trigger] part@[j]),
    {
        if !('0' <= c && c <= '9') {
            return false;
        }
        if i == 0 && c != '0' {
            return false;
        }
        i = i + 1;
    }
    true
}

/// Whether none of the numbers of `text` is written with a leading zero.
pub fn has_strict_numbers(text: &str) -> (strict: bool)
    ensures
        strict == !has_zero_led_number(text@),
{
    let len = text.unicode_len();
    let mut n: usize = 0;
    let mut found = false;
    for c in it: text.chars()
        invariant
            len == text@.len(),
            it.seq() == text@,
            n <= it.index() <= len,
            !found ==> n == it.index(),
            forall|j: int| 0 <= j < n ==> #[trigger] text@[j] != '-' && text@[j] != '+',
            found ==> n < len && (text@[n as int] == '-' || text@[n as int] == '+'),
    {
        if !found {
            if c == '-' || c == '+' {
                found = true;
            } else {
                n = n + 1;
            }
        }
    }
    proof {
        lemma_numbers_end(text@, n as int);
    }
    let parts = split(text.substring_char(0, n), '.');
    let ghost all = numbers(text@);
    proof {
        assert(text@.subrange(0, n as int) == number_part(text@));
        assert(texts(parts@).len() == parts@.len());
    }
    let mut i: usize = 0;
    while i < parts.len()
        invariant
            all == numbers(text@),
            texts(parts@) == pieces(number_part(text@), '.'),
            i <= parts@.len(),
            forall|j: int| 0 <= j < i ==> !zero_led(#[trigger] all[j]),
        decreases parts@.len() - i,
    {
        proof {
            assert(texts(parts@)[i as int] == parts@[i as int]@);
        }
        let trimmed_part = trim(parts[i]);
        let number = if i == 0 && !trimmed_part.is_empty() && (trimmed_part.get_char(0) == 'v'
            || trimmed_part.get_char(0) == 'V') {
            let size = trimmed_part.unicode_len();
            proof {
                assert(trimmed_part@.subrange(1, size as int) == trimmed_part@.skip(1));
            }
            trimmed_part.substring_char(1, size)
        } else {
            trimmed_part
        };
        assert(number@ == all[i as int]);
        if is_zero_led(number) {
            return false;
        }
        i = i + 1;
    }
    true
}

/// The version that `text` is read as, if it is one.
pub fn read(text: &str) -> (version: Option<Version>)
    ensures
        match version {
            Some(v) => read_version(text@) == Some(v@),
            None => read_version(text@) is None,
        },
{
    if has_strict_numbers(text) {
        parse_lenient(text)
    } else {
        None
    }
}

} // verus!
