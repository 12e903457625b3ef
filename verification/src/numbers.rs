//! Reading decimal integers.
use vstd::arithmetic::power::*;
use vstd::prelude::*;
use crate::text;
use crate::text::chars_of;

verus! {

/// Whether `c` is one of the ten ASCII digits.
pub open spec fn is_digit(c: char) -> bool {
    '0' <= c <= '9'
}

/// Whether all of `s` is digits.
pub open spec fn all_digits(s: Seq<char>) -> bool {
    forall|i: int| 0 <= i < s.len() ==> is_digit(#[trigger] s[i])
}

/// The number that the digit `c` stands for.
pub open spec fn digit_value(c: char) -> nat
    recommends
        is_digit(c),
{
    (c as int - '0' as int) as nat
}

/// The number that the digits `s` stand for in decimal.
pub open spec fn digits_value(s: Seq<char>) -> nat
    recommends
        all_digits(s),
    decreases s.len(),
{
    if s.len() == 0 {
        0
    } else {
        digits_value(s.drop_last()) * 10 + digit_value(s.last())
    }
}

/// The number written as `s`: one digit or more, if it is at most `max`.
pub open spec fn digits_read(s: Seq<char>, max: nat) -> Option<nat> {
    if s.len() > 0 && all_digits(s) && digits_value(s) <= max {
        Some(digits_value(s))
    } else {
        None
    }
}

/// The unsigned integer written as `s`: digits, after an optional plus sign.
pub open spec fn unsigned_read(s: Seq<char>, max: nat) -> Option<nat> {
    if s.len() > 0 && s[0] == '+' {
        digits_read(s.skip(1), max)
    } else {
        digits_read(s, max)
    }
}

/// The `i32` written as `s`: digits, after an optional plus or minus sign.
pub open spec fn signed_read(s: Seq<char>) -> Option<i32> {
    if s.len() > 0 && s[0] == '-' {
        match digits_read(s.skip(1), 0x8000_0000) {
            Some(n) => Some((-n) as i32),
            None => None,
        }
    } else {
        match unsigned_read(s, 0x7fff_ffff) {
            Some(n) => Some(n as i32),
            None => None,
        }
    }
}

/// More digits never make a smaller number.
pub proof fn lemma_digits_value_grows(s: Seq<char>, k: int)
    requires
        0 <= k <= s.len(),
    ensures
        digits_value(s.take(k)) <= digits_value(s),
    decreases s.len() - k,
{
    if k < s.len() {
        lemma_digits_value_grows(s, k + 1);
        assert(s.take(k + 1).drop_last() == s.take(k));
    } else {
        assert(s.take(k) == s);
    }
}

/// Whether `c` is a digit.
pub fn digit(c: char) -> (found: bool)
    ensures
        found == is_digit(c),
{
    '0' <= c && c <= '9'
}

fn read_digits(chars: &Vec<char>, from: usize, max: u64) -> (number: Option<u64>)
    requires
        from <= chars.len(),
    ensures
        match number {
            Some(n) => digits_read(chars@.skip(from as int), max as nat) == Some(n as nat),
            None => digits_read(chars@.skip(from as int), max as nat) is None,
        },
{
    let ghost s = chars@.skip(from as int);
    if from == chars.len() {
        return None;
    }
    let mut value: u64 = 0;
    let mut i: usize = from;
    assert(s.take(0) == Seq::<char>::empty());
    while i < chars.len()
        invariant
            from <= i <= chars.len(),
            s == chars@.skip(from as int),
            value == digits_value(s.take(i - from)),
            value <= max,
            all_digits(s.take(i - from)),
        decreases chars.len() - i,
    {
        let c = chars[i];
        proof {
            let next = s.take(i - from + 1);
            assert(s[i - from] == c);
            assert(next.drop_last() == s.take(i - from));
            assert(next.last() == c);
            lemma_digits_value_grows(s, i - from + 1);
        }
        if !digit(c) {
            assert(!all_digits(s));
            return None;
        }
        let d: u64 = (c as u32 - 48) as u64;
        if value > max / 10 || d > max - value * 10 {
            return None;
        }
        value = value * 10 + d;
        i += 1;
    }
    assert(s.take(chars.len() - from) == s);
    Some(value)
}

fn read_unsigned(chars: &Vec<char>, max: u64) -> (number: Option<u64>)
    ensures
        match number {
            Some(n) => unsigned_read(chars@, max as nat) == Some(n as nat),
            None => unsigned_read(chars@, max as nat) is None,
        },
{
    if chars.len() > 0 && chars[0] == '+' {
        read_digits(chars, 1, max)
    } else {
        assert(chars@.skip(0) == chars@);
        read_digits(chars, 0, max)
    }
}

/// Reads a `u64`.
pub fn read_u64(s: &str) -> (number: Option<u64>)
    ensures
        match number {
            Some(n) => unsigned_read(s@, u64::MAX as nat) == Some(n as nat),
            None => unsigned_read(s@, u64::MAX as nat) is None,
        },
{
    read_unsigned(&chars_of(s), u64::MAX)
}

/// Reads a `usize`.
pub fn read_usize(s: &str) -> (number: Option<usize>)
    ensures
        match number {
            Some(n) => unsigned_read(s@, usize::MAX as nat) == Some(n as nat),
            None => unsigned_read(s@, usize::MAX as nat) is None,
        },
{
    match read_unsigned(&chars_of(s), usize::MAX as u64) {
        Some(n) => Some(n as usize),
        None => None,
    }
}

/// Reads an `i32` out of a list of characters.
pub fn read_i32(chars: &Vec<char>) -> (number: Option<i32>)
    ensures
        number == signed_read(chars@),
{
    if chars.len() > 0 && chars[0] == '-' {
        match read_digits(chars, 1, 0x8000_0000) {
            Some(n) => Some((-(n as i64)) as i32),
            None => None,
        }
    } else {
        match read_unsigned(chars, 0x7fff_ffff) {
            Some(n) => Some(n as i32),
            None => None,
        }
    }
}

/// The decimal numeral of a number is digits that stand for that number.
pub proof fn law_decimal_reads_back(n: nat)
    ensures
        text::decimal(n).len() > 0,
        all_digits(text::decimal(n)),
        digits_value(text::decimal(n)) == n,
    decreases n,
{
    let s = text::decimal(n);
    if n < 10 {
        assert(s.drop_last() == Seq::<char>::empty());
        assert(s.last() == text::digit_char(n));
        assert(digits_value(s.drop_last()) == 0);
    } else {
        law_decimal_reads_back(n / 10);
        assert(s.drop_last() == text::decimal(n / 10));
        assert(s.last() == text::digit_char(n % 10));
        assert forall|i: int| 0 <= i < s.len() implies is_digit(#[trigger] s[i]) by {
            if i < s.len() - 1 {
                assert(s[i] == text::decimal(n / 10)[i]);
            }
        }
    }
}

/// Two numbers with the same decimal numeral are the same.
pub proof fn law_decimal_is_injective(a: nat, b: nat)
    requires
        text::decimal(a) == text::decimal(b),
    ensures
        a == b,
{
    law_decimal_reads_back(a);
    law_decimal_reads_back(b);
}

/// Reading the decimal numeral of an `i32` gives that `i32`.
pub proof fn law_signed_decimal_reads_back(i: i32)
    ensures
        signed_read(text::signed_decimal(i as int)) == Some(i),
{
    let s = text::signed_decimal(i as int);
    if i < 0 {
        law_decimal_reads_back((-i) as nat);
        assert(s.skip(1) == text::decimal((-i) as nat));
    } else {
        law_decimal_reads_back(i as nat);
        assert(is_digit(s[0]));
    }
}

/// Digits stand for numbers by their places: digits that come before `k` others count `10^k`
/// times, and a digit counts its distance from the digit zero.
pub proof fn law_digits_have_places(a: Seq<char>, b: Seq<char>)
    requires
        all_digits(b),
    ensures
        digits_value(a + b) == digits_value(a) * pow(10, b.len()) + digits_value(b),
        b.len() == 1 ==> digits_value(b) == b[0] as int - '0' as int,
    decreases b.len(),
{
    reveal(pow);
    if b.len() == 0 {
        assert(a + b =~= a);
    } else {
        let init = b.drop_last();
        assert(all_digits(init)) by {
            assert(forall|i: int| 0 <= i < init.len() ==> init[i] == b[i]);
        }
        law_digits_have_places(a, init);
        assert((a + b).drop_last() =~= a + init);
        assert((a + b).last() == b.last());
        let x = digits_value(a) as int;
        let y = digits_value(init) as int;
        let place = pow(10, init.len());
        assert(pow(10, b.len()) == 10 * place);
        assert((x * place + y) * 10 == x * (10 * place) + y * 10) by (nonlinear_arith);
        if b.len() == 1 {
            assert(init =~= Seq::<char>::empty());
            assert(digits_value(init) == 0);
            assert(is_digit(b[0]));
        }
    }
}

/// A numeral is read if its number is at most `max`, with or without a plus sign and zeros in
/// front; one that is empty, holds anything but digits, has a second sign or is too large is
/// refused.
pub proof fn law_unsigned_numbers(s: Seq<char>, n: nat, max: nat)
    ensures
        unsigned_read(text::decimal(n), max) == (if n <= max {
            Some(n)
        } else {
            None
        }),
        unsigned_read(seq!['+'] + text::decimal(n), max) == unsigned_read(text::decimal(n), max),
        all_digits(s) && s.len() > 0 ==> unsigned_read(seq!['0'] + s, max) == unsigned_read(s, max),
        unsigned_read(Seq::<char>::empty(), max) is None,
        unsigned_read(seq!['+'], max) is None,
        forall|i: int| 0 < i < s.len() && !is_digit(#[trigger] s[i]) ==> unsigned_read(s, max) is None,
        s.len() > 0 && !is_digit(s[0]) && s[0] != '+' ==> unsigned_read(s, max) is None,
{
    law_decimal_reads_back(n);
    let d = text::decimal(n);
    assert(is_digit(d[0]));
    assert((seq!['+'] + d).skip(1) =~= d);
    assert(seq!['+'].skip(1) =~= Seq::<char>::empty());
    if all_digits(s) && s.len() > 0 {
        let zero = seq!['0'];
        law_digits_have_places(zero, s);
        law_digits_have_places(Seq::<char>::empty(), zero);
        assert(Seq::<char>::empty() + zero =~= zero);
        assert(digits_value(zero) == 0);
        assert(is_digit(s[0]));
        assert forall|i: int| 0 <= i < (zero + s).len() implies is_digit(
            #[trigger] (zero + s)[i],
        ) by {
            if i > 0 {
                assert((zero + s)[i] == s[i - 1]);
            }
        }
        assert(digits_value(zero) * pow(10, s.len()) == 0) by (nonlinear_arith)
            requires
                digits_value(zero) == 0,
        ;
    }
    assert forall|i: int| 0 < i < s.len() && !is_digit(#[trigger] s[i]) implies unsigned_read(
        s,
        max,
    ) is None by {
        assert(s.skip(1)[i - 1] == s[i]);
    }
}

/// An `i32` is read from its numeral, also with a plus sign before one that is not negative, and
/// no number outside the range of `i32` is read.
pub proof fn law_signed_numbers(s: Seq<char>, n: nat)
    ensures
        n <= 0x7fff_ffff ==> signed_read(text::decimal(n)) == Some(n as i32),
        n <= 0x7fff_ffff ==> signed_read(seq!['+'] + text::decimal(n)) == Some(n as i32),
        n <= 0x8000_0000 ==> signed_read(seq!['-'] + text::decimal(n)) == Some((-n) as i32),
        n > 0x7fff_ffff ==> signed_read(text::decimal(n)) is None && signed_read(
            seq!['+'] + text::decimal(n),
        ) is None,
        n > 0x8000_0000 ==> signed_read(seq!['-'] + text::decimal(n)) is None,
        signed_read(Seq::<char>::empty()) is None,
        signed_read(seq!['-']) is None,
        forall|i: int| 0 < i < s.len() && !is_digit(#[trigger] s[i]) ==> signed_read(s) is None,
        s.len() > 0 && !is_digit(s[0]) && s[0] != '+' && s[0] != '-' ==> signed_read(s) is None,
{
    law_decimal_reads_back(n);
    let d = text::decimal(n);
    assert(is_digit(d[0]));
    assert((seq!['+'] + d).skip(1) =~= d);
    assert((seq!['-'] + d).skip(1) =~= d);
    assert(seq!['-'].skip(1) =~= Seq::<char>::empty());
    law_unsigned_numbers(s, n, 0x7fff_ffff);
    assert forall|i: int| 0 < i < s.len() && !is_digit(#[trigger] s[i]) implies signed_read(
        s,
    ) is None by {
        assert(s.skip(1)[i - 1] == s[i]);
    }
}

} // verus!
