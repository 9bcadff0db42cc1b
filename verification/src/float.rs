//! Floating-point numbers as bits: what number bits are, and the bits nearest
//! to a number.
//!
//! A finite number is a sign, a mantissa and a power of two. Rounding goes to
//! the nearest number of the format, to the one with the even mantissa where two
//! are equally near, and to infinity past the largest.
use vstd::prelude::*;
use vstd::arithmetic::power2::{
    lemma2_to64, lemma2_to64_rest, lemma_pow2_adds, lemma_pow2_pos, lemma_pow2_strictly_increases, lemma_pow2_unfold,
    pow2,
};

verus! {

/// The three binary formats.
#[derive(Debug, Clone, Copy, PartialEq, Eq, Structural)]
pub enum FloatKind {
    /// Half precision.
    Half,
    /// Single precision.
    Single,
    /// Double precision.
    Double,
}

/// The bits of a full mantissa.
pub open spec fn precision(k: FloatKind) -> int {
    match k {
        FloatKind::Half => 11,
        FloatKind::Single => 24,
        FloatKind::Double => 53,
    }
}

/// The power of two of the least number.
pub open spec fn least_exponent(k: FloatKind) -> int {
    match k {
        FloatKind::Half => -24,
        FloatKind::Single => -149,
        FloatKind::Double => -1074,
    }
}

/// The least full mantissa.
pub open spec fn hidden_bit(k: FloatKind) -> int {
    match k {
        FloatKind::Half => 0x400,
        FloatKind::Single => 0x80_0000,
        FloatKind::Double => 0x10_0000_0000_0000,
    }
}

/// The bits of infinity.
pub open spec fn infinity(k: FloatKind) -> int {
    match k {
        FloatKind::Half => 0x7C00,
        FloatKind::Single => 0x7F80_0000,
        FloatKind::Double => 0x7FF0_0000_0000_0000,
    }
}

/// The sign bit.
pub open spec fn sign_bit(k: FloatKind) -> int {
    match k {
        FloatKind::Half => 0x8000,
        FloatKind::Single => 0x8000_0000,
        FloatKind::Double => 0x8000_0000_0000_0000,
    }
}

/// What bits are.
#[derive(Debug, Clone, Copy, PartialEq, Eq, Structural)]
pub enum Number {
    /// Not a number.
    NotANumber {
        /// Whether the sign bit is set.
        negative: bool,
    },
    /// Infinity.
    Infinite {
        /// Whether the sign bit is set.
        negative: bool,
    },
    /// The mantissa, times a power of two.
    Finite {
        /// Whether the sign bit is set.
        negative: bool,
        /// The mantissa.
        mantissa: u64,
        /// The power of two.
        exponent: i32,
    },
}

/// The magnitude, without the sign bit.
pub open spec fn magnitude(bits: int, k: FloatKind) -> int {
    if bits >= sign_bit(k) {
        bits - sign_bit(k)
    } else {
        bits
    }
}

/// What bits of a format are.
pub open spec fn number_of(bits: int, k: FloatKind) -> Number {
    let negative = bits >= sign_bit(k);
    let m = magnitude(bits, k);
    if m > infinity(k) {
        Number::NotANumber { negative }
    } else if m == infinity(k) {
        Number::Infinite { negative }
    } else if m < hidden_bit(k) {
        Number::Finite { negative, mantissa: m as u64, exponent: least_exponent(k) as i32 }
    } else {
        Number::Finite {
            negative,
            mantissa: (hidden_bit(k) + m % hidden_bit(k)) as u64,
            exponent: (least_exponent(k) + m / hidden_bit(k) - 1) as i32,
        }
    }
}

/// How many bits a magnitude has.
pub open spec fn bits_in(m: nat) -> nat
    decreases m,
{
    if m == 0 {
        0
    } else {
        1 + bits_in(m / 2)
    }
}

/// The integer nearest to `m` times `2` to the `s`, the even one of two.
pub open spec fn nearest_even(m: nat, s: int) -> nat {
    if s >= 0 {
        m * pow2(s as nat)
    } else {
        let d = pow2((-s) as nat);
        let q = m / d;
        let rest = m % d;
        if 2 * rest > d || (2 * rest == d && q % 2 == 1) {
            q + 1
        } else {
            q
        }
    }
}

/// The power of two of the format's numbers next to `m` times `2` to the `x`.
pub open spec fn step_exponent(m: nat, x: int, k: FloatKind) -> int {
    let e = bits_in(m) + x - precision(k);
    if e < least_exponent(k) {
        least_exponent(k)
    } else {
        e
    }
}

/// The magnitude of the format's number nearest to `m` times `2` to the `x`.
pub open spec fn rounded(m: nat, x: int, k: FloatKind) -> int {
    if m == 0 {
        0
    } else {
        let e = step_exponent(m, x, k);
        let near = (e - least_exponent(k)) * hidden_bit(k) + nearest_even(m, x - e);
        if near < infinity(k) {
            near
        } else {
            infinity(k)
        }
    }
}

/// The format's bits for a number.
pub open spec fn bits_of(n: Number, k: FloatKind) -> int {
    match n {
        Number::NotANumber { negative } => signed(negative, infinity(k) + hidden_bit(k) / 2, k),
        Number::Infinite { negative } => signed(negative, infinity(k), k),
        Number::Finite { negative, mantissa, exponent } => signed(
            negative,
            rounded(mantissa as nat, exponent as int, k),
            k,
        ),
    }
}

/// A magnitude under a sign.
pub open spec fn signed(negative: bool, m: int, k: FloatKind) -> int {
    if negative {
        sign_bit(k) + m
    } else {
        m
    }
}

/// The number is one that bits of a format, or an integer, can be.
pub open spec fn in_reach(n: Number) -> bool {
    n matches Number::Finite { exponent, .. } ==> -1074 <= exponent <= 971
}

/// Doubling counts one more bit; a magnitude lies below `2` to its bits.
pub proof fn lemma_bits_in(m: nat)
    ensures
        m < pow2(bits_in(m)),
        m > 0 ==> bits_in(m) > 0 && pow2((bits_in(m) - 1) as nat) <= m,
    decreases m,
{
    if m > 0 {
        lemma_bits_in(m / 2);
        lemma_pow2_unfold(bits_in(m));
        if m / 2 > 0 {
            lemma_pow2_unfold(bits_in(m / 2));
        } else {
            lemma2_to64();
        }
    } else {
        lemma2_to64();
    }
}

/// A magnitude below a power of two has no more bits than it.
proof fn lemma_bits_below(m: nat, n: nat)
    requires
        m < pow2(n),
    ensures
        bits_in(m) <= n,
{
    lemma_bits_in(m);
    if bits_in(m) > n {
        if bits_in(m) - 1 > n {
            lemma_pow2_strictly_increases(n, (bits_in(m) - 1) as nat);
        }
    }
}

/// Scaling up stays below the scaled bound; scaling down rounds to no more than
/// it.
proof fn lemma_nearest_even_bound(m: nat, s: int, p: int)
    requires
        m > 0,
        bits_in(m) + s <= p,
        p >= 0,
    ensures
        nearest_even(m, s) <= pow2(p as nat),
{
    let b = bits_in(m);
    lemma_bits_in(m);
    if s >= 0 {
        lemma_pow2_adds(b, s as nat);
        lemma_pow2_pos(s as nat);
        assert(m * pow2(s as nat) <= pow2(b) * pow2(s as nat)) by (nonlinear_arith)
            requires
                m < pow2(b),
        ;
        if b + s < p {
            lemma_pow2_strictly_increases((b + s) as nat, p as nat);
        }
    } else {
        let n = (-s) as nat;
        let d = pow2(n);
        lemma_pow2_pos(n);
        lemma_pow2_adds(p as nat, n);
        if b < p + n {
            lemma_pow2_strictly_increases(b, (p + n) as nat);
        }
        let top = pow2(p as nat);
        assert(m < top * d);
        assert(m / d < top) by (nonlinear_arith)
            requires
                m < top * d,
                d > 0,
                m >= 0,
        ;
    }
}

/// How many bits a magnitude has.
fn count_bits(m: u64) -> (r: u32)
    ensures
        r == bits_in(m as nat),
        r <= 64,
{
    let mut rest: u64 = m;
    let mut count: u32 = 0;
    proof {
        lemma2_to64();
        lemma_bits_below(m as nat, 64);
    }
    while rest > 0
        invariant
            count + bits_in(rest as nat) == bits_in(m as nat),
            bits_in(m as nat) <= 64,
        decreases rest,
    {
        rest = rest / 2;
        count = count + 1;
    }
    count
}

/// `2` to the `n`.
fn power_of_two(n: u32) -> (r: u128)
    requires
        n <= 64,
    ensures
        r == pow2(n as nat),
        0 < r <= 0x1_0000_0000_0000_0000,
{
    let mut out: u128 = 1;
    let mut i: u32 = 0;
    proof {
        lemma2_to64();
    }
    while i < n
        invariant
            0 <= i <= n <= 64,
            out == pow2(i as nat),
            0 < out,
            pow2(64) == 0x1_0000_0000_0000_0000,
        decreases n - i,
    {
        proof {
            lemma_pow2_unfold((i + 1) as nat);
            lemma_pow2_strictly_increases(i as nat, 64);
        }
        out = out * 2;
        i = i + 1;
    }
    proof {
        if n < 64 {
            lemma_pow2_strictly_increases(n as nat, 64);
        }
    }
    out
}

/// The integer nearest to `m` times `2` to the `s`.
fn round_scaled(m: u64, s: i32) -> (r: u64)
    requires
        m > 0,
        bits_in(m as nat) + s <= 53,
        s >= -2200,
    ensures
        r == nearest_even(m as nat, s as int),
        r <= 0x20_0000_0000_0000,
{
    proof {
        lemma2_to64();
        lemma2_to64_rest();
        lemma_nearest_even_bound(m as nat, s as int, 53);
        lemma_bits_in(m as nat);
    }
    if s >= 0 {
        let d: u128 = power_of_two(s as u32);
        proof {
            assert(m as nat * pow2(s as nat) == nearest_even(m as nat, s as int));
        }
        ((m as u128) * d) as u64
    } else {
        let n: i32 = -s;
        if n > 65 {
            proof {
                let d = pow2(n as nat);
                lemma_pow2_strictly_increases(65, n as nat);
                lemma_pow2_unfold(65);
                assert(m as nat / d == 0) by (nonlinear_arith)
                    requires
                        m < d,
                        d > 0,
                ;
                assert(m as nat % d == m as nat) by (nonlinear_arith)
                    requires
                        m < d,
                        d > 0,
                ;
            }
            0
        } else if n == 65 {
            proof {
                let d = pow2(65);
                lemma_pow2_unfold(65);
                assert(m as nat / d == 0) by (nonlinear_arith)
                    requires
                        m < d,
                        d > 0,
                ;
                assert(m as nat % d == m as nat) by (nonlinear_arith)
                    requires
                        m < d,
                        d > 0,
                ;
            }
            0
        } else {
            let d: u128 = power_of_two(n as u32);
            let q: u128 = m as u128 / d;
            let rest: u128 = m as u128 % d;
            proof {
                assert(0 <= q <= m) by (nonlinear_arith)
                    requires
                        q == m as u128 / d,
                        d > 0,
                ;
                assert(rest < d);
            }
            if 2 * rest > d || (2 * rest == d && q % 2 == 1) {
                (q + 1) as u64
            } else {
                q as u64
            }
        }
    }
}

/// The constants of a format: precision, least exponent, hidden bit, infinity,
/// sign bit.
fn format_of(k: FloatKind) -> (r: (i32, i32, u64, u64, u64))
    ensures
        r.0 == precision(k),
        r.1 == least_exponent(k),
        r.2 == hidden_bit(k),
        r.3 == infinity(k),
        r.4 == sign_bit(k),
{
    match k {
        FloatKind::Half => (11, -24, 0x400, 0x7C00, 0x8000),
        FloatKind::Single => (24, -149, 0x80_0000, 0x7F80_0000, 0x8000_0000),
        FloatKind::Double => (53, -1074, 0x10_0000_0000_0000, 0x7FF0_0000_0000_0000, 0x8000_0000_0000_0000),
    }
}

/// What bits are.
pub fn decode_float(bits: u64, k: FloatKind) -> (r: Number)
    requires
        bits < 2 * sign_bit(k),
    ensures
        r == number_of(bits as int, k),
        in_reach(r),
        r matches Number::Finite { mantissa, .. } ==> mantissa < 0x20_0000_0000_0000,
{
    let (_, least, hidden, infinite, sign) = format_of(k);
    let negative = bits >= sign;
    let m: u64 = if negative {
        bits - sign
    } else {
        bits
    };
    if m > infinite {
        Number::NotANumber { negative }
    } else if m == infinite {
        Number::Infinite { negative }
    } else if m < hidden {
        Number::Finite { negative, mantissa: m, exponent: least }
    } else {
        proof {
            assert(m / hidden < 2047 && m % hidden < hidden && m / hidden >= 1) by {
                match k {
                    FloatKind::Half => {},
                    FloatKind::Single => {},
                    FloatKind::Double => {},
                }
            }
            match k {
                FloatKind::Half => {
                    assert(m / 0x400 < 31);
                },
                FloatKind::Single => {
                    assert(m / 0x80_0000 < 255);
                },
                FloatKind::Double => {
                    assert(m / 0x10_0000_0000_0000 < 2047);
                },
            }
        }
        Number::Finite {
            negative,
            mantissa: hidden + m % hidden,
            exponent: least + (m / hidden) as i32 - 1,
        }
    }
}

/// The magnitude nearest to a mantissa times a power of two.
fn round_to(mantissa: u64, exponent: i32, k: FloatKind) -> (r: u64)
    requires
        -1074 <= exponent <= 971,
    ensures
        r == rounded(mantissa as nat, exponent as int, k),
        0 <= r <= infinity(k),
{
    if mantissa == 0 {
        return 0;
    }
    let (width, least, hidden, infinite, _) = format_of(k);
    let count: u32 = count_bits(mantissa);
    let wanted: i32 = count as i32 + exponent - width;
    let e: i32 = if wanted < least {
        least
    } else {
        wanted
    };
    let q: u64 = round_scaled(mantissa, exponent - e);
    let steps: i32 = e - least;
    proof {
        assert(0 <= steps * hidden <= 2200 * 0x10_0000_0000_0000) by (nonlinear_arith)
            requires
                0 <= steps <= 2200,
                0 <= hidden <= 0x10_0000_0000_0000,
        ;
    }
    let near: u128 = (steps as u128) * (hidden as u128) + q as u128;
    if near < infinite as u128 {
        near as u64
    } else {
        infinite
    }
}

/// The format's bits for a number.
pub fn encode_float(n: Number, k: FloatKind) -> (r: u64)
    requires
        in_reach(n),
    ensures
        r == bits_of(n, k),
        r < 2 * sign_bit(k),
{
    let (_, _, hidden, infinite, sign) = format_of(k);
    let (negative, m) = match n {
        Number::NotANumber { negative } => (negative, infinite + hidden / 2),
        Number::Infinite { negative } => (negative, infinite),
        Number::Finite { negative, mantissa, exponent } => (negative, round_to(mantissa, exponent, k)),
    };
    if negative {
        sign + m
    } else {
        m
    }
}

/// An integer of no more than a mantissa's bits is a number of the double
/// format: the bits nearest to it are its own.
pub proof fn law_small_integers_are_exact(m: nat, negative: bool)
    requires
        m <= 0x20_0000_0000_0000,
    ensures
        ({
            let given = Number::Finite { negative, mantissa: m as u64, exponent: 0 };
            let n = number_of(bits_of(given, FloatKind::Double), FloatKind::Double);
            &&& n is Finite
            &&& n->Finite_negative == negative
            &&& whole_part(n->Finite_mantissa as nat, n->Finite_exponent as int) == m
            &&& !has_fraction(n->Finite_mantissa as nat, n->Finite_exponent as int)
        }),
{
    lemma2_to64();
    lemma2_to64_rest();
    let k = FloatKind::Double;
    if m == 0 {
        lemma_pow2_pos(1074);
        let d = pow2(1074);
        assert(0nat / d == 0 && 0nat % d == 0) by (nonlinear_arith)
            requires
                d > 0,
        ;
        assert(number_of(signed(negative, 0, k), k) == (Number::Finite { negative, mantissa: 0, exponent: (-1074) as i32 }));
        assert(whole_part(0, -1074) == 0);
        assert(!has_fraction(0, -1074));
    } else if m == 0x20_0000_0000_0000 {
        lemma_bits_in(m);
        lemma_bits_below(m, 54);
        assert(bits_in(m) == 54) by {
            if bits_in(m) < 54 {
                if bits_in(m) < 53 {
                    lemma_pow2_strictly_increases(bits_in(m), 53);
                }
            }
        }
        assert(step_exponent(m, 0, k) == 1);
        assert(nearest_even(m, -1) == 0x10_0000_0000_0000);
        let near: int = 1076int * 0x10_0000_0000_0000;
        assert(rounded(m, 0, k) == near);
        assert(number_of(signed(negative, near, k), k) == (Number::Finite {
            negative,
            mantissa: 0x10_0000_0000_0000,
            exponent: 1,
        }));
        assert(whole_part(0x10_0000_0000_0000, 1) == m);
    } else {
        let b = bits_in(m);
        lemma_bits_in(m);
        lemma_bits_below(m, 53);
        let e = b - 53;
        assert(step_exponent(m, 0, k) == e);
        let s = (53 - b) as nat;
        let d = pow2(s);
        let q = m * d;
        lemma_pow2_pos(s);
        lemma_pow2_adds((b - 1) as nat, s);
        lemma_pow2_adds(b, s);
        assert(q >= pow2((b - 1) as nat) * d) by (nonlinear_arith)
            requires
                m >= pow2((b - 1) as nat),
                q == m * d,
        ;
        assert(q < pow2(b) * d) by (nonlinear_arith)
            requires
                m < pow2(b),
                q == m * d,
                d > 0,
        ;
        assert(0x10_0000_0000_0000 <= q < 0x20_0000_0000_0000);
        assert(nearest_even(m, -e) == q);
        let near = (e + 1074) * 0x10_0000_0000_0000 + q;
        assert(rounded(m, 0, k) == near);
        assert(near / 0x10_0000_0000_0000 == e + 1075);
        assert(near % 0x10_0000_0000_0000 == q - 0x10_0000_0000_0000);
        assert(q / d == m && q % d == 0) by (nonlinear_arith)
            requires
                q == m * d,
                d > 0,
        ;
        if e == 0 {
            assert(d == 1);
            assert(whole_part(q, e) == q * d);
            assert(q * d == q) by (nonlinear_arith)
                requires
                    d == 1,
            ;
            assert(q == m) by (nonlinear_arith)
                requires
                    q == m * d,
                    d == 1,
            ;
        } else {
            assert((-e) as nat == s);
            assert(whole_part(q, e) == m);
        }
        assert(!has_fraction(q, e));
        assert(number_of(signed(negative, near, k), k) == (Number::Finite {
            negative,
            mantissa: q as u64,
            exponent: e as i32,
        }));
    }
}

/// The integer part of a magnitude.
pub open spec fn whole_part(m: nat, x: int) -> nat {
    if x >= 0 {
        m * pow2(x as nat)
    } else {
        m / pow2((-x) as nat)
    }
}

/// Whether a magnitude is no integer.
pub open spec fn has_fraction(m: nat, x: int) -> bool {
    x < 0 && m % pow2((-x) as nat) != 0
}

/// An integer moved into a range.
pub open spec fn clamped(n: int, lo: int, hi: int) -> int {
    if n < lo {
        lo
    } else if n > hi {
        hi
    } else {
        n
    }
}

/// The integer of a range that a number becomes: its fraction dropped, moved
/// into the range; zero for what is no number.
pub open spec fn integer_near(n: Number, lo: int, hi: int) -> int {
    match n {
        Number::NotANumber { .. } => 0,
        Number::Infinite { negative } => if negative {
            lo
        } else {
            hi
        },
        Number::Finite { negative, mantissa, exponent } => {
            let w = whole_part(mantissa as nat, exponent as int) as int;
            clamped(
                if negative {
                    -w
                } else {
                    w
                },
                lo,
                hi,
            )
        },
    }
}

/// Whether a number, its fraction dropped, lies in the range.
pub open spec fn fits_range(n: Number, lo: int, hi: int) -> bool {
    match n {
        Number::Finite { negative, mantissa, exponent } => {
            let w = whole_part(mantissa as nat, exponent as int) as int;
            if negative {
                lo <= -w
            } else {
                w <= hi
            }
        },
        _ => false,
    }
}

/// The integer part of a magnitude, up to a bound past every range.
fn whole_number(mantissa: u64, exponent: i32) -> (r: u128)
    requires
        -1074 <= exponent <= 971,
        mantissa < 0x20_0000_0000_0000,
    ensures
        r == whole_part(mantissa as nat, exponent as int) || (r == 0x2_0000_0000_0000_0000 && whole_part(
            mantissa as nat,
            exponent as int,
        ) >= r),
        r <= 0x20_0000_0000_0000_0000_0000_0000_0000,
{
    proof {
        lemma2_to64();
    }
    if exponent >= 0 {
        if mantissa == 0 {
            assert(0nat * pow2(exponent as nat) == 0) by (nonlinear_arith);
            return 0;
        }
        if exponent > 64 {
            proof {
                let x = exponent as nat;
                lemma_pow2_strictly_increases(64, x);
                lemma_pow2_unfold(65);
                if exponent > 65 {
                    lemma_pow2_strictly_increases(65, x);
                }
                assert(mantissa as nat * pow2(x) >= pow2(x)) by (nonlinear_arith)
                    requires
                        mantissa >= 1,
                ;
            }
            return 0x2_0000_0000_0000_0000;
        }
        let d: u128 = power_of_two(exponent as u32);
        proof {
            assert(mantissa * d <= 0x20_0000_0000_0000 * 0x1_0000_0000_0000_0000) by (nonlinear_arith)
                requires
                    0 <= mantissa < 0x20_0000_0000_0000,
                    0 < d <= 0x1_0000_0000_0000_0000,
            ;
            assert(mantissa * d >= 0) by (nonlinear_arith)
                requires
                    mantissa >= 0,
                    d >= 0,
            ;
        }
        (mantissa as u128) * d
    } else {
        let n: i32 = -exponent;
        if n > 64 {
            proof {
                let d = pow2(n as nat);
                lemma_pow2_strictly_increases(64, n as nat);
                assert(mantissa as nat / d == 0) by (nonlinear_arith)
                    requires
                        mantissa < d,
                        d > 0,
                ;
            }
            0
        } else {
            let d: u128 = power_of_two(n as u32);
            let q: u128 = mantissa as u128 / d;
            proof {
                assert(0 <= q <= mantissa) by (nonlinear_arith)
                    requires
                        q == mantissa as u128 / d,
                        d > 0,
                ;
            }
            q
        }
    }
}

/// The integer of a range that a number becomes, and whether the number, its
/// fraction dropped, lies in the range.
pub fn to_integer(n: Number, lo: i128, hi: i128) -> (r: (i128, bool))
    requires
        in_reach(n),
        n matches Number::Finite { mantissa, .. } ==> mantissa < 0x20_0000_0000_0000,
        -0x8000_0000_0000_0000 <= lo <= 0 < hi <= 0xFFFF_FFFF_FFFF_FFFF,
    ensures
        r.0 == integer_near(n, lo as int, hi as int),
        r.1 == fits_range(n, lo as int, hi as int),
        lo <= r.0 <= hi,
{
    match n {
        Number::NotANumber { .. } => (0, false),
        Number::Infinite { negative } => (
            if negative {
                lo
            } else {
                hi
            },
            false,
        ),
        Number::Finite { negative, mantissa, exponent } => {
            let w: i128 = whole_number(mantissa, exponent) as i128;
            if negative {
                if w > -lo {
                    (lo, false)
                } else {
                    (-w, true)
                }
            } else if w > hi {
                (hi, false)
            } else {
                (w, true)
            }
        },
    }
}

} // verus!
