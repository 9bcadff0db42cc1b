//! That numbers written as text read back as themselves.
use vstd::prelude::*;
use crate::ipc::error::{byte_count_text, double_step, nearest_double, round_half_even};
use crate::text::{decimal, digit_text, digits, hex_digits, hex_word};

verus! {

/// The number that a digit stands for, up to fifteen.
pub open spec fn digit_of(c: char) -> int {
    if '0' <= c <= '9' {
        c as int - '0' as int
    } else {
        c as int - 'a' as int + 10
    }
}

/// The number that digits to a base are, the most significant first.
pub open spec fn number_in(text: Seq<char>, base: int) -> int
    decreases text.len(),
{
    if text.len() == 0 {
        0
    } else {
        number_in(text.drop_last(), base) * base + digit_of(text.last())
    }
}

/// Whether text is decimal digits, without a zero before others.
pub open spec fn plain_digits(text: Seq<char>) -> bool {
    &&& text.len() > 0
    &&& forall|i: int| #![trigger text[i]] 0 <= i < text.len() ==> '0' <= text[i] <= '9'
    &&& text.len() > 1 ==> text[0] != '0'
}

/// A digit is one character that stands for its number.
proof fn lemma_digit(d: int)
    requires
        0 <= d < 16,
    ensures
        digit_text(d).len() == 1,
        digit_of(digit_text(d)[0]) == d,
        d < 10 ==> '0' <= digit_text(d)[0] <= '9',
        d != 0 ==> digit_text(d)[0] != '0',
{
    reveal_strlit("0");
    reveal_strlit("1");
    reveal_strlit("2");
    reveal_strlit("3");
    reveal_strlit("4");
    reveal_strlit("5");
    reveal_strlit("6");
    reveal_strlit("7");
    reveal_strlit("8");
    reveal_strlit("9");
    reveal_strlit("a");
    reveal_strlit("b");
    reveal_strlit("c");
    reveal_strlit("d");
    reveal_strlit("e");
    reveal_strlit("f");
}

/// Digits read back as the number.
proof fn lemma_digits(n: nat)
    ensures
        plain_digits(digits(n)),
        number_in(digits(n), 10) == n,
        n > 0 ==> digits(n)[0] != '0',
    decreases n,
{
    lemma_digit((n % 10) as int);
    if n < 10 {
        lemma_digit(n as int);
        let t = digits(n);
        assert(t.drop_last() =~= Seq::<char>::empty());
        assert(number_in(t.drop_last(), 10) == 0);
        assert(t.last() == t[0]);
    } else {
        lemma_digits(n / 10);
        let t = digits(n);
        let last = digit_text((n % 10) as int);
        assert(t.drop_last() =~= digits(n / 10));
        assert(t.last() == last[0]);
        assert(t[0] == digits(n / 10)[0]);
        assert forall|i: int| #![trigger t[i]] 0 <= i < t.len() implies '0' <= t[i] <= '9' by {
            if i < digits(n / 10).len() {
                assert(t[i] == digits(n / 10)[i]);
            }
        }
    }
}

/// A number in decimal is its digits, after a minus sign where it is negative.
pub proof fn law_decimals_read_back(n: int)
    ensures
        n >= 0 ==> plain_digits(decimal(n)) && number_in(decimal(n), 10) == n,
        n < 0 ==> decimal(n)[0] == '-' && plain_digits(decimal(n).skip(1)) && number_in(decimal(n).skip(1), 10) == -n,
{
    if n >= 0 {
        lemma_digits(n as nat);
    } else {
        lemma_digits((-n) as nat);
        reveal_strlit("-");
        assert(decimal(n).skip(1) =~= digits((-n) as nat));
    }
}

/// Hexadecimal digits read back as the number, as far as they reach.
proof fn lemma_hex(n: nat, count: nat)
    ensures
        hex_digits(n, count).len() == count,
        number_in(hex_digits(n, count), 16) == n % vstd::arithmetic::power::pow(16, count) as nat,
    decreases count,
{
    vstd::arithmetic::power::lemma_pow_positive(16, count);
    if count == 0 {
        vstd::arithmetic::power::lemma_pow0(16);
    } else {
        let c = (count - 1) as nat;
        lemma_hex(n / 16, c);
        lemma_digit((n % 16) as int);
        let t = hex_digits(n, count);
        assert(t.drop_last() =~= hex_digits(n / 16, c));
        assert(t.last() == digit_text((n % 16) as int)[0]);
        vstd::arithmetic::power::lemma_pow_adds(16, 1, c);
        vstd::arithmetic::power::lemma_pow1(16);
        let p = vstd::arithmetic::power::pow(16, c);
        vstd::arithmetic::power::lemma_pow_positive(16, c);
        assert(vstd::arithmetic::power::pow(16, count) == 16 * p);
        vstd::arithmetic::div_mod::lemma_mod_breakdown(n as int, 16, p);
    }
}

/// A word in hexadecimal is `0x` and eight digits that read back as it.
pub proof fn law_words_read_back(n: u32)
    ensures
        hex_word(n).len() == 10,
        hex_word(n)[0] == '0' && hex_word(n)[1] == 'x',
        number_in(hex_word(n).skip(2), 16) == n,
{
    reveal_strlit("0x");
    lemma_hex(n as nat, 8);
    assert(hex_word(n).skip(2) =~= hex_digits(n as nat, 8));
    assert(vstd::arithmetic::power::pow(16, 8) == 0x1_0000_0000) by {
        reveal_with_fuel(vstd::arithmetic::power::pow, 9);
    }
    assert(n as nat % 0x1_0000_0000 == n as nat);
}

/// Rounding goes to the nearest, of two as near to the even one.
pub proof fn law_quotients_are_rounded_to_the_nearest(a: nat, b: nat)
    requires
        b > 0,
    ensures
        2 * (round_half_even(a, b) * b) <= 2 * a + b,
        2 * a <= 2 * (round_half_even(a, b) * b) + b,
        2 * (round_half_even(a, b) * b) == 2 * a + b || 2 * a == 2 * (round_half_even(a, b) * b) + b ==> round_half_even(
            a,
            b,
        ) % 2 == 0,
{
    let q = a / b;
    let r = a % b;
    vstd::arithmetic::div_mod::lemma_fundamental_div_mod(a as int, b as int);
    assert(b * q == q * b && (q + 1) * b == q * b + b) by (nonlinear_arith);
}

/// The size of the unit that a count of bytes is written in, and its name.
pub open spec fn unit_of(n: u64) -> (nat, Seq<char>) {
    if n < 0x400 {
        (1, " B"@)
    } else if n < 0x10_0000 {
        (0x400, " KiB"@)
    } else if n < 0x4000_0000 {
        (0x10_0000, " MiB"@)
    } else if n < 0x100_0000_0000 {
        (0x4000_0000, " GiB"@)
    } else {
        (0x100_0000_0000, " TiB"@)
    }
}

/// A count of bytes below a thousand and twenty-four is written as it is; a larger
/// one in its unit with one decimal, off by half of the decimal at most, and by a
/// little more in the largest unit.
pub proof fn law_byte_counts_are_close(n: u64) -> (r: (nat, nat))
    ensures
        n < 0x400 ==> byte_count_text(n) == decimal(n as int) + " B"@,
        n >= 0x400 ==> ({
            let (whole, tenth) = r;
            let (size, name) = unit_of(n);
            let written = (10 * whole + tenth) * size;
            let slack = if n < 0x100_0000_0000 {
                0int
            } else {
                0x5000
            };
            &&& tenth < 10
            &&& byte_count_text(n) == decimal(whole as int) + "."@ + decimal(tenth as int) + name
            &&& 2 * written <= 20 * n + size + slack
            &&& 20 * n <= 2 * written + size + slack
        }),
{
    let (size, name) = unit_of(n);
    let exact = if n < 0x100_0000_0000 {
        n as nat
    } else {
        nearest_double(n as nat)
    };
    let tenths = round_half_even(10 * exact, size);
    law_quotients_are_rounded_to_the_nearest(10 * exact, size);
    vstd::arithmetic::power2::lemma2_to64();
    lemma_step(n as nat, 11);
    law_quotients_are_rounded_to_the_nearest(n as nat, double_step(n as nat));
    assert(10 * (tenths / 10) + tenths % 10 == tenths);
    (tenths / 10, tenths % 10)
}

/// The step between doubles is small next to what they count.
proof fn lemma_step(n: nat, k: nat)
    requires
        n < 0x20_0000_0000_0000 * vstd::arithmetic::power2::pow2(k),
        k <= 11,
    ensures
        1 <= double_step(n) <= vstd::arithmetic::power2::pow2(k),
        vstd::arithmetic::power2::pow2(11) == 2048,
    decreases k,
{
    vstd::arithmetic::power2::lemma2_to64();
    vstd::arithmetic::power2::lemma_pow2_pos(k);
    if n >= 0x20_0000_0000_0000 {
        assert(k > 0);
        vstd::arithmetic::power2::lemma_pow2_unfold(k);
        lemma_step(n / 2, (k - 1) as nat);
    }
}

} // verus!
