//! The 256-bit target: reading it and holding a hash against it.
use vstd::arithmetic::power::*;
use vstd::prelude::*;
use vstd::string::*;
use crate::numbers;
use crate::numbers::digit;
use crate::text::chars_of;

verus! {

/// The number that `bytes` stand for in base 256, the most significant byte first.
pub open spec fn big_endian(bytes: Seq<u8>) -> nat
    decreases bytes.len(),
{
    if bytes.len() == 0 {
        0
    } else {
        bytes[0] as nat * pow(256, (bytes.len() - 1) as nat) as nat + big_endian(bytes.skip(1))
    }
}

/// The first number that does not fit in 256 bits.
pub open spec fn two_to_256() -> nat {
    pow(256, 32) as nat
}

/// `n` bytes stand for a number below `256^n`.
pub proof fn lemma_big_endian_bound(bytes: Seq<u8>)
    ensures
        big_endian(bytes) < pow(256, bytes.len()),
    decreases bytes.len(),
{
    reveal(pow);
    if bytes.len() > 0 {
        let rest = bytes.skip(1);
        let place = pow(256, rest.len());
        lemma_big_endian_bound(rest);
        lemma_pow_positive(256, rest.len());
        assert(bytes[0] as int * place + big_endian(rest) < 256 * place) by (nonlinear_arith)
            requires
                bytes[0] <= 255,
                big_endian(rest) < place,
                place > 0,
        ;
    }
}

/// Of two byte strings of one length that differ first at `at`, the one with the smaller byte
/// there stands for the smaller number.
proof fn lemma_first_difference_decides(a: Seq<u8>, b: Seq<u8>, at: int)
    requires
        a.len() == b.len(),
        0 <= at < a.len(),
        a.take(at) == b.take(at),
        a[at] < b[at],
    ensures
        big_endian(a) < big_endian(b),
    decreases a.len(),
{
    let place = pow(256, (a.len() - 1) as nat);
    lemma_pow_positive(256, (a.len() - 1) as nat);
    if at == 0 {
        lemma_big_endian_bound(a.skip(1));
        let x = a[0] as int;
        let y = b[0] as int;
        assert(x * place + place <= y * place) by (nonlinear_arith)
            requires
                x + 1 <= y,
                place > 0,
        ;
    } else {
        assert(a[0] == a.take(at)[0]);
        assert(b[0] == b.take(at)[0]);
        assert(a.skip(1).take(at - 1) == a.take(at).skip(1));
        assert(b.skip(1).take(at - 1) == b.take(at).skip(1));
        lemma_first_difference_decides(a.skip(1), b.skip(1), at - 1);
    }
}

/// Two byte strings of one length that stand for the same number are the same.
pub proof fn law_big_endian_is_injective(a: Seq<u8>, b: Seq<u8>)
    requires
        a.len() == b.len(),
        big_endian(a) == big_endian(b),
    ensures
        a == b,
    decreases a.len(),
{
    if a.len() > 0 {
        if a[0] < b[0] {
            assert(a.take(0) == b.take(0));
            lemma_first_difference_decides(a, b, 0);
        } else if b[0] < a[0] {
            assert(a.take(0) == b.take(0));
            lemma_first_difference_decides(b, a, 0);
        } else {
            law_big_endian_is_injective(a.skip(1), b.skip(1));
            assert(a == seq![a[0]] + a.skip(1));
            assert(b == seq![b[0]] + b.skip(1));
        }
    }
}

/// Whether the hash, read as a 256-bit number, is at most the target.
pub fn hash_meets_target(hash: &[u8; 32], target: &[u8; 32]) -> (meets: bool)
    ensures
        meets == (big_endian(hash@) <= big_endian(target@)),
{
    let mut i: usize = 0;
    while i < 32
        invariant
            i <= 32,
            hash@.take(i as int) == target@.take(i as int),
        decreases 32 - i,
    {
        if hash[i] != target[i] {
            proof {
                if hash[i as int] < target[i as int] {
                    lemma_first_difference_decides(hash@, target@, i as int);
                } else {
                    lemma_first_difference_decides(target@, hash@, i as int);
                }
            }
            return hash[i] < target[i];
        }
        assert(hash@.take(i + 1) == hash@.take(i as int).push(hash[i as int]));
        assert(target@.take(i + 1) == target@.take(i as int).push(target[i as int]));
        i += 1;
    }
    assert(hash@.take(32) == hash@);
    assert(target@.take(32) == target@);
    true
}

/// Multiplies the number in `value` by ten and adds `d`; returns what does not fit.
fn append_digit(value: &mut [u8; 32], d: u8) -> (carry: u16)
    requires
        d <= 9,
    ensures
        big_endian(final(value)@) + carry * two_to_256() == big_endian(old(value)@) * 10 + d,
{
    let ghost before = value@;
    let mut carry: u16 = d as u16;
    let mut i: usize = 32;
    proof {
        reveal(pow);
        assert(before.skip(32) == Seq::<u8>::empty());
        assert(value@.skip(32) == Seq::<u8>::empty());
    }
    while i > 0
        invariant
            i <= 32,
            carry <= 9,
            before.len() == 32,
            value@.take(i as int) == before.take(i as int),
            big_endian(value@.skip(i as int)) + carry * pow(256, (32 - i) as nat) == big_endian(
                before.skip(i as int),
            ) * 10 + d,
        decreases i,
    {
        let ghost ended = value@.skip(i as int);
        let ghost ended_before = before.skip(i as int);
        let ghost carried = carry as int;
        let ghost place = pow(256, (32 - i) as nat);
        i -= 1;
        let slot: u8 = value[i];
        assert(slot == before[i as int]) by {
            assert(value@.take(i + 1)[i as int] == before.take(i + 1)[i as int]);
        }
        let next: u16 = (slot as u16) * 10 + carry;
        let low: u8 = (next & 0xff) as u8;
        let high: u16 = next >> 8;
        assert((next & 0xff) < 256 && (next & 0xff) + high * 256 == next && high == next / 256)
            by (bit_vector)
            requires
                high == next >> 8,
        ;
        value[i] = low;
        carry = high;
        proof {
            assert(value@.take(i as int) == before.take(i as int)) by {
                assert forall|j: int| 0 <= j < i implies value@[j] == before[j] by {
                    assert(before.take(i + 1)[j] == before[j]);
                }
            }
            assert(value@.skip(i as int).skip(1) == ended);
            assert(before.skip(i as int).skip(1) == ended_before);
            assert(value@.skip(i as int)[0] == low);
            assert(before.skip(i as int)[0] == slot);
            lemma_pow_positive(256, (31 - i) as nat);
            assert(pow(256, (32 - i) as nat) == 256 * place) by {
                reveal(pow);
            }
            let new_end = big_endian(ended) as int;
            let old_end = big_endian(ended_before) as int;
            let lo = low as int;
            let hi = high as int;
            let b = slot as int;
            let last = d as int;
            assert(lo * place + new_end + hi * (256 * place) == (b * place + old_end) * 10 + last)
                by (nonlinear_arith)
                requires
                    lo + hi * 256 == b * 10 + carried,
                    new_end + carried * place == old_end * 10 + last,
            ;
        }
    }
    proof {
        assert(before.skip(0) == before);
        assert(value@.skip(0) == value@);
        lemma_pow_positive(256, 32);
    }
    carry
}

/// Whether `s`, or digits that it begins with, stand for a number that takes more than 256 bits.
pub open spec fn exceeds_256_bits(s: Seq<char>) -> bool {
    exists|k: int|
        0 <= k <= s.len() && numbers::all_digits(s.take(k)) && #[trigger] numbers::digits_value(
            s.take(k),
        ) >= two_to_256()
}

/// Whether `s` is a target: the decimal digits of a positive number of at most 256 bits.
pub open spec fn is_target(s: Seq<char>) -> bool {
    &&& numbers::all_digits(s)
    &&& 0 < numbers::digits_value(s) < two_to_256()
}

/// Why `s` is no target.
pub open spec fn target_error(s: Seq<char>) -> Seq<char> {
    if exceeds_256_bits(s) {
        "target does not fit in 256 bits: "@ + s
    } else {
        "invalid decimal target: "@ + s
    }
}

/// Reads a decimal target into 32 bytes, the most significant byte first.
pub fn parse_target_bytes(target: &str) -> (result: Result<[u8; 32], String>)
    ensures
        match result {
            Ok(bytes) => is_target(target@) && big_endian(bytes@) == numbers::digits_value(target@),
            Err(message) => !is_target(target@) && message@ == target_error(target@),
        },
{
    let chars = chars_of(target);
    let ghost s = target@;
    let mut value: [u8; 32] = [0u8; 32];
    let mut i: usize = 0;
    proof {
        lemma_zero_is_zero(value@);
        assert(s.take(0) == Seq::<char>::empty());
        lemma_pow_positive(256, 32);
    }
    while i < chars.len()
        invariant
            chars@ == s,
            s == target@,
            i <= chars.len(),
            numbers::all_digits(s.take(i as int)),
            big_endian(value@) == numbers::digits_value(s.take(i as int)),
            big_endian(value@) < two_to_256(),
        decreases chars.len() - i,
    {
        let c = chars[i];
        if !digit(c) {
            proof {
                assert(!numbers::all_digits(s));
                assert forall|k: int| 0 <= k <= s.len() && numbers::all_digits(s.take(k)) implies
                    #[trigger] numbers::digits_value(s.take(k)) < two_to_256() by {
                    if k > i {
                        assert(s.take(k)[i as int] == c);
                    }
                    assert(s.take(i as int).take(k) == s.take(k));
                    numbers::lemma_digits_value_grows(s.take(i as int), k);
                }
            }
            return Err("invalid decimal target: ".to_owned().concat(target));
        }
        let d: u8 = (c as u32 - 48) as u8;
        let carry = append_digit(&mut value, d);
        proof {
            let next = s.take(i + 1);
            assert(next.drop_last() == s.take(i as int));
            assert(next.last() == c);
            assert(numbers::digits_value(next) == big_endian(value@) + carry * two_to_256());
            lemma_big_endian_bound(value@);
            lemma_pow_positive(256, 32);
            let limit = two_to_256() as int;
            assert(carry >= 1 ==> carry * limit >= limit) by (nonlinear_arith)
                requires
                    limit > 0,
            ;
        }
        if carry != 0 {
            proof {
                assert(numbers::all_digits(s.take(i + 1)));
                assert(exceeds_256_bits(s));
                numbers::lemma_digits_value_grows(s, i + 1);
            }
            return Err("target does not fit in 256 bits: ".to_owned().concat(target));
        }
        i += 1;
    }
    proof {
        assert(s.take(s.len() as int) == s);
        assert forall|k: int| 0 <= k <= s.len() implies #[trigger] numbers::digits_value(s.take(k))
            < two_to_256() by {
            numbers::lemma_digits_value_grows(s, k);
        }
    }
    let mut all_zero = true;
    let mut j: usize = 0;
    while j < 32
        invariant
            j <= 32,
            all_zero == (forall|k: int| 0 <= k < j ==> value@[k] == 0),
        decreases 32 - j,
    {
        if value[j] != 0 {
            all_zero = false;
        }
        j += 1;
    }
    proof {
        lemma_zero_is_zero(value@);
    }
    if all_zero {
        return Err("invalid decimal target: ".to_owned().concat(target));
    }
    Ok(value)
}

/// Every positive number of at most 256 bits is a target when it is written in decimal.
pub proof fn law_decimals_are_targets(n: nat)
    requires
        0 < n < two_to_256(),
    ensures
        is_target(crate::text::decimal(n)),
        numbers::digits_value(crate::text::decimal(n)) == n,
{
    numbers::law_decimal_reads_back(n);
}

/// Bytes stand for zero if and only if each of them is zero.
proof fn lemma_zero_is_zero(bytes: Seq<u8>)
    ensures
        big_endian(bytes) == 0 <==> forall|k: int| 0 <= k < bytes.len() ==> bytes[k] == 0,
    decreases bytes.len(),
{
    if bytes.len() > 0 {
        let rest = bytes.skip(1);
        let place = pow(256, rest.len());
        lemma_zero_is_zero(rest);
        lemma_pow_positive(256, rest.len());
        let first = bytes[0] as int;
        assert(first * place == 0 <==> first == 0) by (nonlinear_arith)
            requires
                place > 0,
        ;
        assert(first * place >= 0) by (nonlinear_arith)
            requires
                place > 0,
                first >= 0,
        ;
        assert(forall|k: int| 0 <= k < rest.len() ==> rest[k] == bytes[k + 1]);
        if big_endian(bytes) == 0 {
            assert forall|k: int| 0 <= k < bytes.len() implies bytes[k] == 0 by {
                if k > 0 {
                    assert(rest[k - 1] == 0);
                }
            }
        }
    }
}

/// A byte after others counts itself, and the others count 256 times what they did.
pub proof fn law_bytes_have_places(bytes: Seq<u8>, b: u8)
    ensures
        big_endian(bytes.push(b)) == big_endian(bytes) * 256 + b,
        big_endian(Seq::<u8>::empty()) == 0,
    decreases bytes.len(),
{
    reveal(pow);
    let longer = bytes.push(b);
    if bytes.len() == 0 {
        assert(longer.skip(1) =~= Seq::<u8>::empty());
        assert(big_endian(longer.skip(1)) == 0);
        assert(big_endian(bytes) == 0);
        assert(pow(256, 0) == 1);
        assert(big_endian(longer) == b as nat * pow(256, 0) as nat);
    } else {
        law_bytes_have_places(bytes.skip(1), b);
        assert(longer.skip(1) =~= bytes.skip(1).push(b));
        let place = pow(256, (bytes.len() - 1) as nat);
        lemma_pow_positive(256, (bytes.len() - 1) as nat);
        assert(pow(256, bytes.len()) == 256 * place);
        let x = bytes[0] as int;
        lemma_pow_positive(256, bytes.len());
        assert(longer[0] == bytes[0]);
        let rest = big_endian(bytes.skip(1)) as int;
        assert(x * (256 * place) + (rest * 256 + b) == (x * place + rest) * 256 + b)
            by (nonlinear_arith);
        assert(big_endian(longer) == x * (256 * place) + big_endian(longer.skip(1)));
    }
}

/// A target is a nonempty text of digits that are not all zero; zeros in front do not matter, so
/// that it is the number that counts, and that number has at most 256 bits.
pub proof fn law_targets(s: Seq<char>)
    ensures
        is_target(s) ==> s.len() > 0,
        is_target(s) ==> exists|i: int| 0 <= i < s.len() && s[i] != '0',
        forall|i: int| 0 <= i < s.len() && !numbers::is_digit(#[trigger] s[i]) ==> !is_target(s),
        is_target(s) ==> numbers::digits_value(s) < pow(2, 256),
        numbers::all_digits(s) && !is_target(s) ==> numbers::digits_value(s) == 0
            || numbers::digits_value(s) >= pow(2, 256),
        numbers::all_digits(s) ==> (is_target(seq!['0'] + s) <==> is_target(s)),
{
    lemma_two_to_256();
    if numbers::all_digits(s) {
        lemma_zero_in_front(s);
    }
    if is_target(s) {
        if forall|i: int| 0 <= i < s.len() ==> s[i] == '0' {
            lemma_zeros(s);
        }
    }
}

proof fn lemma_zero_in_front(s: Seq<char>)
    requires
        numbers::all_digits(s),
    ensures
        numbers::all_digits(seq!['0'] + s),
        numbers::digits_value(seq!['0'] + s) == numbers::digits_value(s),
{
    let zero = seq!['0'];
    lemma_zeros(zero);
    numbers::law_digits_have_places(zero, s);
    assert(numbers::digits_value(zero) * pow(10, s.len()) == 0) by (nonlinear_arith)
        requires
            numbers::digits_value(zero) == 0,
    ;
    assert forall|i: int| 0 <= i < (zero + s).len() implies numbers::is_digit(
        #[trigger] (zero + s)[i],
    ) by {
        if i > 0 {
            assert((zero + s)[i] == s[i - 1]);
        }
    }
}

proof fn lemma_two_to_256()
    ensures
        two_to_256() == pow(2, 256),
{
    lemma_pow_multiplies(2, 8, 32);
    assert(pow(2, 8) == 256) by {
        reveal_with_fuel(pow, 9);
    }
    lemma_pow_positive(256, 32);
}

proof fn lemma_zeros(s: Seq<char>)
    requires
        forall|i: int| 0 <= i < s.len() ==> s[i] == '0',
    ensures
        numbers::digits_value(s) == 0,
    decreases s.len(),
{
    if s.len() > 0 {
        assert(forall|i: int| 0 <= i < s.len() - 1 ==> s.drop_last()[i] == s[i]);
        lemma_zeros(s.drop_last());
    }
}

/// The word that a text is no target repeats the text. It speaks of 256 bits if and only if the
/// text begins with digits of too large a number; for digits alone, if and only if their own
/// number is too large.
pub proof fn law_target_errors(s: Seq<char>)
    ensures
        s.is_suffix_of(target_error(s)),
        "target does not fit in 256 bits: "@.is_prefix_of(target_error(s)) <==> exists|k: int|
            0 <= k <= s.len() && numbers::all_digits(s.take(k)) && #[trigger] numbers::digits_value(
                s.take(k),
            ) >= pow(2, 256),
        "invalid decimal target: "@.is_prefix_of(target_error(s))
            <==> !"target does not fit in 256 bits: "@.is_prefix_of(target_error(s)),
        target_error(s).len() == s.len() + (if "invalid decimal target: "@.is_prefix_of(
            target_error(s),
        ) {
            24int
        } else {
            33
        }),
        numbers::all_digits(s) ==> ("target does not fit in 256 bits: "@.is_prefix_of(
            target_error(s),
        ) <==> numbers::digits_value(s) >= pow(2, 256)),
{
    lemma_two_to_256();
    let large = "target does not fit in 256 bits: "@;
    let invalid = "invalid decimal target: "@;
    let error = target_error(s);
    assert(large.len() == 33 && large[0] == 't' && invalid.len() == 24 && invalid[0] == 'i') by {
        reveal_strlit("target does not fit in 256 bits: ");
        reveal_strlit("invalid decimal target: ");
    }
    let lead = if exceeds_256_bits(s) {
        large
    } else {
        invalid
    };
    assert(error == lead + s);
    assert(error.take(lead.len() as int) =~= lead);
    assert(error.skip(lead.len() as int) =~= s);
    assert(error.subrange(error.len() - s.len(), error.len() as int) =~= s);
    assert(error[0] == lead[0]);
    assert(large.is_prefix_of(error) ==> error[0] == large[0]);
    assert(invalid.is_prefix_of(error) ==> error[0] == invalid[0]);
    if numbers::all_digits(s) {
        assert(s.take(s.len() as int) =~= s);
        if exceeds_256_bits(s) {
            let k = choose|k: int|
                0 <= k <= s.len() && numbers::all_digits(s.take(k))
                    && #[trigger] numbers::digits_value(s.take(k)) >= two_to_256();
            numbers::lemma_digits_value_grows(s, k);
        }
    }
}

} // verus!
