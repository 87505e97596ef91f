//! Numbers read from the environment.

use vstd::prelude::*;

#[allow(unused_imports)]
use crate::error;
use crate::symheap::DEFAULT_HEAP_SIZE;

verus! {

/// Whether a character is a decimal digit.
pub open spec fn is_digit(c: char) -> bool {
    '0' <= c <= '9'
}

/// The number that decimal digits stand for.
pub open spec fn digits_value(digits: Seq<char>) -> nat
    decreases digits.len(),
{
    if digits.len() == 0 {
        0
    } else {
        digits_value(digits.drop_last()) * 10 + (digits.last() as nat - '0' as nat) as nat
    }
}

/// The digits of a number in text: what follows an optional plus sign.
pub open spec fn digits_of(text: Seq<char>) -> Seq<char> {
    if text.len() > 0 && text[0] == '+' {
        text.skip(1)
    } else {
        text
    }
}

/// The unsigned number that a text spells: an optional plus sign, then one or more decimal
/// digits, and a value that a `usize` can hold.
pub open spec fn parsed(text: Seq<char>) -> Option<usize> {
    let digits = digits_of(text);
    if digits.len() > 0 && (forall|i: int| 0 <= i < digits.len() ==> is_digit(#[trigger] digits[i]))
        && digits_value(digits) <= usize::MAX {
        Some(digits_value(digits) as usize)
    } else {
        None
    }
}

proof fn lemma_value_grows(digits: Seq<char>, n: int)
    requires
        0 <= n <= digits.len(),
    ensures
        digits_value(digits.take(n)) <= digits_value(digits),
    decreases digits.len() - n,
{
    if n < digits.len() {
        lemma_value_grows(digits, n + 1);
        assert(digits.take(n + 1).drop_last() =~= digits.take(n));
    } else {
        assert(digits.take(n) =~= digits);
    }
}

/// A digit stands for its value.
pub proof fn law_digit_has_its_value(c: char)
    requires
        '0' <= c <= '9',
    ensures
        digits_value(seq![c]) == c as nat - '0' as nat,
        is_digit(c),
{
    reveal_with_fuel(digits_value, 2);
    assert(seq![c].drop_last() =~= seq![]);
}

/// The value of digits is positional: those in front count ten times as much for each digit that
/// follows them.
pub proof fn law_digits_are_positional(front: Seq<char>, back: Seq<char>)
    requires
        forall|i: int| 0 <= i < back.len() ==> is_digit(#[trigger] back[i]),
    ensures
        digits_value(front + back) == digits_value(front) * vstd::arithmetic::power::pow(
            10,
            back.len(),
        ) + digits_value(back),
    decreases back.len(),
{
    reveal(vstd::arithmetic::power::pow);
    if back.len() == 0 {
        assert(front + back =~= front);
    } else {
        let rest = back.drop_last();
        assert forall|i: int| 0 <= i < rest.len() implies is_digit(#[trigger] rest[i]) by {
            assert(rest[i] == back[i]);
        }
        law_digits_are_positional(front, rest);
        assert((front + back).drop_last() =~= front + rest);
        assert((front + back).last() == back.last());
        let f = digits_value(front) as int;
        let p = vstd::arithmetic::power::pow(10, rest.len());
        assert(f * (10 * p) == (f * p) * 10) by (nonlinear_arith);
    }
}

/// Only the characters from zero to nine are digits.
pub proof fn law_digits_are_zero_to_nine(c: char)
    ensures
        is_digit(c) <==> 48 <= c as nat <= 57,
{
}

/// A number in decimal is read as that number where a `usize` holds it, with or without a plus
/// sign, and is refused otherwise.
pub proof fn law_decimal_reads_back(n: nat)
    ensures
        n <= usize::MAX ==> (parsed(error::decimal_digits(n)) matches Some(read) && read == n),
        n <= usize::MAX ==> (parsed(seq!['+'] + error::decimal_digits(n)) matches Some(read) && read
            == n),
        n > usize::MAX ==> parsed(error::decimal_digits(n)) is None,
        n > usize::MAX ==> parsed(seq!['+'] + error::decimal_digits(n)) is None,
{
    let digits = error::decimal_digits(n);
    error::law_decimal_digits_stand_for_the_number(n);
    assert(digits[0] != '+');
    let signed = seq!['+'] + digits;
    assert(signed.skip(1) =~= digits);
}

/// A text that is empty, or a plus sign alone, or has anything but a digit after the first
/// character or anything but a digit or a plus sign as its first, is no number.
pub proof fn law_only_digits_are_read(text: Seq<char>)
    ensures
        text.len() == 0 ==> parsed(text) is None,
        text == seq!['+'] ==> parsed(text) is None,
        (exists|i: int| 1 <= i < text.len() && !('0' <= #[trigger] text[i] <= '9')) ==> parsed(
            text,
        ) is None,
        text.len() > 0 && text[0] != '+' && !('0' <= text[0] <= '9') ==> parsed(text) is None,
{
    let digits = digits_of(text);
    if exists|i: int| 1 <= i < text.len() && !('0' <= #[trigger] text[i] <= '9') {
        let i = choose|i: int| 1 <= i < text.len() && !('0' <= #[trigger] text[i] <= '9');
        let at = if text[0] == '+' {
            i - 1
        } else {
            i
        };
        assert(digits[at] == text[i]);
        assert(!is_digit(digits[at]));
    }
    if text.len() > 0 && text[0] != '+' && !('0' <= text[0] <= '9') {
        assert(!is_digit(digits[0]));
    }
}

/// Leading zeros do not matter.
pub proof fn law_leading_zero_does_not_matter(digits: Seq<char>)
    requires
        digits.len() > 0,
        digits[0] != '+',
    ensures
        parsed(seq!['0'] + digits) == parsed(digits),
{
    let longer = seq!['0'] + digits;
    assert(digits_of(longer) == longer);
    assert(digits_of(digits) == digits);
    let spelled = forall|i: int| 0 <= i < digits.len() ==> is_digit(#[trigger] digits[i]);
    if spelled {
        law_digits_are_positional(seq!['0'], digits);
        law_digit_has_its_value('0');
        let p = vstd::arithmetic::power::pow(10, digits.len());
        assert(0 * p == 0);
        assert forall|i: int| 0 <= i < longer.len() implies is_digit(#[trigger] longer[i]) by {
            if i > 0 {
                assert(longer[i] == digits[i - 1]);
            }
        }
    } else {
        let i = choose|i: int| 0 <= i < digits.len() && !is_digit(#[trigger] digits[i]);
        assert(longer[i + 1] == digits[i]);
    }
}

/// Read an unsigned number.
pub fn parse_usize(text: &str) -> (number: Option<usize>)
    ensures
        number == parsed(text@),
{
    let len = text.unicode_len();
    let mut at: usize = 0;
    if len > 0 && text.get_char(0) == '+' {
        at = 1;
    }
    let ghost digits = digits_of(text@);
    let ghost skipped = at as int;
    assert(digits =~= text@.skip(skipped));
    if at == len {
        return None;
    }
    let mut number: usize = 0;
    assert(digits.take(0) =~= seq![]);
    while at < len
        invariant
            skipped <= at <= len == text@.len(),
            digits == text@.skip(skipped),
            digits == digits_of(text@),
            0 <= skipped,
            forall|i: int| 0 <= i < at - skipped ==> is_digit(#[trigger] digits[i]),
            number == digits_value(digits.take(at - skipped)),
        decreases len - at,
    {
        let c = text.get_char(at);
        assert(c == digits[at - skipped]);
        if !('0' <= c && c <= '9') {
            return None;
        }
        let digit = c as u32 - '0' as u32;
        proof {
            lemma_value_grows(digits, at - skipped + 1);
            assert(digits.take(at - skipped + 1).drop_last() =~= digits.take(at - skipped));
        }
        let tens = match number.checked_mul(10) {
            None => return None,
            Some(tens) => tens,
        };
        number = match tens.checked_add(digit as usize) {
            None => return None,
            Some(sum) => sum,
        };
        at = at + 1;
    }
    assert(digits.take(at - skipped) =~= digits);
    Some(number)
}

/// The heap size that a setting asks for.
pub open spec fn heap_size(setting: Option<&str>) -> usize {
    match setting {
        Some(text) => match parsed(text@) {
            Some(size) => size,
            None => DEFAULT_HEAP_SIZE,
        },
        None => DEFAULT_HEAP_SIZE,
    }
}

/// A setting that spells a number gives that many bytes. One that does not, or that is not there,
/// gives 64 MiB.
pub proof fn law_heap_size_is_as_set(setting: Option<&str>)
    ensures
        setting is None ==> heap_size(setting) == 64 * 1024 * 1024,
        setting matches Some(text) ==> (parsed(text@) is None ==> heap_size(setting) == 64 * 1024
            * 1024),
        setting matches Some(text) ==> (parsed(text@) matches Some(size) ==> heap_size(setting)
            == size),
{
}

/// Return the heap size in bytes that `SHMEM_SYMMETRIC_SIZE` asks for: the default where the
/// variable is not set or is not an unsigned number.
pub fn configured_heap_size(setting: Option<&str>) -> (size: usize)
    ensures
        size == heap_size(setting),
{
    match setting {
        Some(text) => match parse_usize(text) {
            Some(size) => size,
            None => DEFAULT_HEAP_SIZE,
        },
        None => DEFAULT_HEAP_SIZE,
    }
}

} // verus!
