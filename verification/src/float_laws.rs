//! What the bits of the three formats are worth, and that numbers are kept or
//! rounded to the nearest.
//!
//! Worths are whole numbers: they count the least positive double, `2` to the
//! power of minus 1074.
use vstd::prelude::*;
use vstd::arithmetic::power2::{
    lemma2_to64, lemma2_to64_rest, lemma_pow2_adds, lemma_pow2_pos, lemma_pow2_strictly_increases, lemma_pow2_unfold,
    pow2,
};
use crate::float::{
    bits_in, bits_of, hidden_bit, infinity, least_exponent, lemma_bits_in, magnitude, nearest_even, number_of,
    precision, rounded, signed, step_exponent, FloatKind, Number,
};

verus! {

/// What an exponent field over a fraction field of `span` values is worth,
/// counted in the format's least number.
pub open spec fn scaled(m: int, span: int) -> nat {
    if m / span == 0 {
        (m % span) as nat
    } else {
        ((span + m % span) as nat) * pow2((m / span - 1) as nat)
    }
}

/// What bits are worth without their sign.
pub open spec fn worth(bits: int, k: FloatKind) -> nat {
    match k {
        FloatKind::Half => scaled(bits % 0x8000, 0x400) * pow2(1050),
        FloatKind::Single => scaled(bits % 0x8000_0000, 0x80_0000) * pow2(925),
        FloatKind::Double => scaled(bits % 0x8000_0000_0000_0000, 0x10_0000_0000_0000) * pow2(0),
    }
}

/// Whether the sign bit is set.
pub open spec fn has_sign(bits: int, k: FloatKind) -> bool {
    match k {
        FloatKind::Half => bits / 0x8000 == 1,
        FloatKind::Single => bits / 0x8000_0000 == 1,
        FloatKind::Double => bits / 0x8000_0000_0000_0000 == 1,
    }
}

/// Whether bits are a finite number.
pub open spec fn is_finite(bits: int, k: FloatKind) -> bool {
    match k {
        FloatKind::Half => bits % 0x8000 / 0x400 < 31,
        FloatKind::Single => bits % 0x8000_0000 / 0x80_0000 < 255,
        FloatKind::Double => bits % 0x8000_0000_0000_0000 / 0x10_0000_0000_0000 < 2047,
    }
}

/// Whether bits are an infinity.
pub open spec fn is_endless(bits: int, k: FloatKind) -> bool {
    match k {
        FloatKind::Half => bits % 0x8000 == 0x7C00,
        FloatKind::Single => bits % 0x8000_0000 == 0x7F80_0000,
        FloatKind::Double => bits % 0x8000_0000_0000_0000 == 0x7FF0_0000_0000_0000,
    }
}

/// Whether integers are bits of a format.
pub open spec fn are_bits(bits: int, k: FloatKind) -> bool {
    match k {
        FloatKind::Half => 0 <= bits < 0x1_0000,
        FloatKind::Single => 0 <= bits < 0x1_0000_0000,
        FloatKind::Double => 0 <= bits < 0x1_0000_0000_0000_0000,
    }
}

/// What a mantissa times a power of two is worth.
pub open spec fn product(mantissa: nat, exponent: int) -> nat {
    mantissa * pow2((exponent + 1074) as nat)
}

/// How much two worths are apart.
pub open spec fn apart(a: nat, b: nat) -> nat {
    if a < b {
        (b - a) as nat
    } else {
        (a - b) as nat
    }
}

/// The power of two that a format's least number is, above that of doubles.
spec fn lift(k: FloatKind) -> nat {
    (least_exponent(k) + 1074) as nat
}

/// What bits are read as is what they are worth, under their sign.
pub proof fn law_bits_are_read_as_worth(bits: int, k: FloatKind)
    requires
        are_bits(bits, k),
    ensures
        match number_of(bits, k) {
            Number::Finite { negative, mantissa, exponent } => {
                &&& is_finite(bits, k)
                &&& negative == has_sign(bits, k)
                &&& product(mantissa as nat, exponent as int) == worth(bits, k)
                &&& mantissa < 0x20_0000_0000_0000
                &&& -1074 <= exponent <= 971
            },
            Number::Infinite { negative } => is_endless(bits, k) && negative == has_sign(bits, k),
            Number::NotANumber { negative } => !is_finite(bits, k) && !is_endless(bits, k) && negative == has_sign(
                bits,
                k,
            ),
        },
{
    let h = hidden_bit(k);
    let m = magnitude(bits, k);
    match k {
        FloatKind::Half => {
            assert(m == bits % 0x8000);
        },
        FloatKind::Single => {
            assert(m == bits % 0x8000_0000);
        },
        FloatKind::Double => {
            assert(m == bits % 0x8000_0000_0000_0000);
        },
    }
    assert(worth(bits, k) == scaled(m, h) * pow2(lift(k)));
    if number_of(bits, k) is Finite {
        let f = m / h;
        match k {
            FloatKind::Half => {
                assert(f < 31);
            },
            FloatKind::Single => {
                assert(f < 255);
            },
            FloatKind::Double => {
                assert(f < 2047);
            },
        }
        if m >= h {
            assert(f >= 1);
            lemma_pow2_adds((f - 1) as nat, lift(k));
            let full = (h + m % h) as nat;
            assert(full * pow2((f - 1) as nat) * pow2(lift(k)) == full * (pow2((f - 1) as nat) * pow2(lift(k))))
                by (nonlinear_arith);
        }
    }
}

/// The magnitude steps `q` places from the start of a power of two is worth `q`
/// steps of it.
proof fn lemma_placed(e: int, q: nat, k: FloatKind)
    requires
        least_exponent(k) <= e,
        q <= 2 * hidden_bit(k),
        e == least_exponent(k) || q >= hidden_bit(k),
    ensures
        ({
            let near = (e - least_exponent(k)) * hidden_bit(k) + q;
            &&& near >= 0
            &&& scaled(near, hidden_bit(k)) * pow2(lift(k)) == product(q, e)
        }),
{
    let h = hidden_bit(k);
    let s = (e - least_exponent(k)) as nat;
    let near = s * h + q;
    lemma2_to64();
    lemma_pow2_adds(s, lift(k));
    assert(near >= 0) by (nonlinear_arith)
        requires
            near == s * h + q,
            h > 0,
            s >= 0,
            q >= 0,
    ;
    if q < h {
        assert(s == 0);
        assert(near == q);
        assert(near / h == 0 && near % h == q) by (nonlinear_arith)
            requires
                0 <= near < h,
                near == q,
        ;
    } else if q < 2 * h {
        assert(near / h == s + 1 && near % h == q - h) by (nonlinear_arith)
            requires
                near == s * h + q,
                h <= q < 2 * h,
        ;
        assert(q * pow2(s) * pow2(lift(k)) == q * (pow2(s) * pow2(lift(k)))) by (nonlinear_arith);
    } else {
        assert(near / h == s + 2 && near % h == 0) by (nonlinear_arith)
            requires
                near == s * h + q,
                q == 2 * h,
                h > 0,
        ;
        lemma_pow2_unfold(s + 1);
        let p = pow2(s);
        let l = pow2(lift(k));
        assert((h as nat) * (2 * p) * l == q * (p * l)) by (nonlinear_arith)
            requires
                q == 2 * h,
        ;
    }
}

/// A number rounded to steps of a power of two: at most half a step off, to the
/// even one of two, within one power of two of the format.
proof fn lemma_steps(m: nat, x: int, k: FloatKind)
    requires
        m > 0,
        x >= -1074,
    ensures
        ({
            let e = step_exponent(m, x, k);
            let q = nearest_even(m, x - e);
            let h = hidden_bit(k) as nat;
            let off = apart(product(q, e), product(m, x));
            &&& least_exponent(k) <= e
            &&& q <= 2 * h
            &&& e == least_exponent(k) || q >= h
            &&& 2 * off <= pow2((e + 1074) as nat)
            &&& 2 * off == pow2((e + 1074) as nat) ==> q % 2 == 0
            &&& e > least_exponent(k) ==> product(m, x) >= product(h, e)
            &&& product(m, x) < product(2 * h, e)
            &&& e <= x ==> off == 0
        }),
{
    let e = step_exponent(m, x, k);
    let q = nearest_even(m, x - e);
    let h = hidden_bit(k) as nat;
    let p = precision(k);
    let b = bits_in(m);
    let u = pow2((e + 1074) as nat);
    let w = pow2((x + 1074) as nat);
    let v = m * w;
    lemma2_to64();
    lemma2_to64_rest();
    lemma_bits_in(m);
    assert(pow2((p - 1) as nat) == h && pow2(p as nat) == 2 * h);
    lemma_pow2_pos((e + 1074) as nat);
    lemma_pow2_pos((x + 1074) as nat);
    lemma_pow2_adds(b, (x + 1074) as nat);
    lemma_pow2_adds(p as nat, (e + 1074) as nat);
    if b + x < p + e {
        lemma_pow2_strictly_increases((b + x + 1074) as nat, (p + e + 1074) as nat);
    }
    assert(v < pow2(b) * w) by (nonlinear_arith)
        requires
            m < pow2(b),
            v == m * w,
            w > 0,
    ;
    assert(v < 2 * h * u);
    if e > least_exponent(k) {
        lemma_pow2_adds((b - 1) as nat, (x + 1074) as nat);
        lemma_pow2_adds((p - 1) as nat, (e + 1074) as nat);
        assert(v >= pow2((b - 1) as nat) * w) by (nonlinear_arith)
            requires
                m >= pow2((b - 1) as nat),
                v == m * w,
        ;
        assert(v >= h * u);
    }
    if x >= e {
        let d = pow2((x - e) as nat);
        lemma_pow2_adds((x - e) as nat, (e + 1074) as nat);
        assert(q * u == v) by (nonlinear_arith)
            requires
                q == m * d,
                v == m * w,
                w == d * u,
        ;
        assert(q < 2 * h) by (nonlinear_arith)
            requires
                q * u < 2 * h * u,
                u > 0,
        ;
        if e > least_exponent(k) {
            assert(q >= h) by (nonlinear_arith)
                requires
                    q * u >= h * u,
                    u > 0,
            ;
        }
    } else {
        let d = pow2((e - x) as nat);
        lemma_pow2_pos((e - x) as nat);
        lemma_pow2_adds((e - x) as nat, (x + 1074) as nat);
        let c = m / d;
        let rest = m % d;
        assert(m == c * d + rest) by (nonlinear_arith)
            requires
                c == m / d,
                rest == m % d,
                d > 0,
        ;
        assert(c < 2 * h) by (nonlinear_arith)
            requires
                m * w < 2 * h * u,
                u == d * w,
                m == c * d + rest,
                rest >= 0,
                w > 0,
                d > 0,
        ;
        if e > least_exponent(k) {
            assert(c >= h) by (nonlinear_arith)
                requires
                    m * w >= h * u,
                    u == d * w,
                    m == c * d + rest,
                    0 <= rest < d,
                    w > 0,
                    d > 0,
            ;
        }
        assert(c * u + rest * w == v) by (nonlinear_arith)
            requires
                u == d * w,
                v == m * w,
                m == c * d + rest,
        ;
        assert((c + 1) * u == c * u + u) by (nonlinear_arith);
        assert(rest * w + (d - rest) * w == u) by (nonlinear_arith)
            requires
                u == d * w,
        ;
        assert(0 <= rest * w && 0 <= (d - rest) * w) by (nonlinear_arith)
            requires
                0 <= rest < d,
                w > 0,
        ;
        if q == c + 1 {
            assert(2 * ((d - rest) * w) <= u) by (nonlinear_arith)
                requires
                    2 * rest >= d,
                    u == d * w,
                    w > 0,
            ;
            if 2 * ((d - rest) * w) == u {
                assert(2 * rest == d) by (nonlinear_arith)
                    requires
                        2 * ((d - rest) * w) == u,
                        u == d * w,
                        w > 0,
                ;
            }
        } else {
            assert(2 * (rest * w) <= u) by (nonlinear_arith)
                requires
                    2 * rest <= d,
                    u == d * w,
                    w > 0,
            ;
            if 2 * (rest * w) == u {
                assert(2 * rest == d) by (nonlinear_arith)
                    requires
                        2 * (rest * w) == u,
                        u == d * w,
                        w > 0,
                ;
            }
        }
    }
}

/// The worth from which on a format has no finite number nearest, doubled: half a
/// step past the largest.
pub open spec fn reach(k: FloatKind) -> nat {
    match k {
        FloatKind::Half => 0xFFF * pow2(1079),
        FloatKind::Single => 0x1FF_FFFF * pow2(1178),
        FloatKind::Double => 0x3F_FFFF_FFFF_FFFF * pow2(2045),
    }
}

/// The power of two of the largest numbers.
spec fn top(k: FloatKind) -> int {
    match k {
        FloatKind::Half => 5,
        FloatKind::Single => 104,
        FloatKind::Double => 971,
    }
}

/// Whether rounding stays below infinity is told by the number alone.
proof fn lemma_in_range(m: nat, x: int, k: FloatKind)
    requires
        m > 0,
        x >= -1074,
    ensures
        ({
            let e = step_exponent(m, x, k);
            let near = (e - least_exponent(k)) * hidden_bit(k) + nearest_even(m, x - e);
            near >= infinity(k) <==> 2 * product(m, x) >= reach(k)
        }),
{
    let e = step_exponent(m, x, k);
    let q = nearest_even(m, x - e);
    let h = hidden_bit(k) as nat;
    let s = e - least_exponent(k);
    let near = s * h + q;
    let u = pow2((e + 1074) as nat);
    let t = pow2((top(k) + 1074) as nat);
    let v = product(m, x);
    let last = top(k) - least_exponent(k);
    lemma_steps(m, x, k);
    lemma_pow2_pos((e + 1074) as nat);
    assert(infinity(k) == (last + 2) * h);
    assert(reach(k) == (4 * h - 1) * t);
    assert(4 * h * t == (4 * h - 1) * t + t) by (nonlinear_arith);
    if e == top(k) {
        if q >= 2 * h {
            assert(near >= (last + 2) * h) by (nonlinear_arith)
                requires
                    near == last * h + q,
                    q >= 2 * h,
            ;
            assert(2 * (2 * h * u) == 4 * h * u) by (nonlinear_arith);
            assert(q * u == 2 * h * u);
        } else {
            assert(near < (last + 2) * h) by (nonlinear_arith)
                requires
                    near == last * h + q,
                    q < 2 * h,
            ;
            assert(q * u <= (2 * h - 1) * u) by (nonlinear_arith)
                requires
                    q <= 2 * h - 1,
                    u > 0,
            ;
            assert(2 * ((2 * h - 1) * u) + u == (4 * h - 1) * u) by (nonlinear_arith);
            if 2 * v >= (4 * h - 1) * u {
                assert(2 * apart(q * u, v) == u);
                assert(q * u == (2 * h - 1) * u);
                assert(q == 2 * h - 1) by (nonlinear_arith)
                    requires
                        q * u == (2 * h - 1) * u,
                        u > 0,
                ;
                assert(false);
            }
        }
    } else if e > top(k) {
        assert(near >= (last + 2) * h) by (nonlinear_arith)
            requires
                near == s * h + q,
                s >= last + 1,
                q >= h,
        ;
        lemma_pow2_unfold((top(k) + 1075) as nat);
        if e > top(k) + 1 {
            lemma_pow2_strictly_increases((top(k) + 1075) as nat, (e + 1074) as nat);
        }
        assert(2 * (h * u) >= 4 * h * t) by (nonlinear_arith)
            requires
                u >= 2 * t,
        ;
    } else {
        assert(near < (last + 2) * h) by (nonlinear_arith)
            requires
                near == s * h + q,
                s <= last - 1,
                q <= 2 * h,
                h > 0,
        ;
        lemma_pow2_unfold((e + 1075) as nat);
        if e + 1 < top(k) {
            lemma_pow2_strictly_increases((e + 1075) as nat, (top(k) + 1074) as nat);
        }
        assert(2 * (2 * h * u) <= 2 * h * t) by (nonlinear_arith)
            requires
                2 * u <= t,
        ;
        assert(2 * h * t <= (4 * h - 1) * t) by (nonlinear_arith)
            requires
                h >= 1,
                t >= 0,
        ;
    }
}

/// No multiple of a step is nearer than one at most half a step off.
proof fn lemma_closest(q: nat, j: nat, u: nat, v: nat)
    requires
        2 * apart(q * u, v) <= u,
    ensures
        apart(q * u, v) <= apart(j * u, v),
        apart(q * u, v) == apart(j * u, v) && q * u != j * u ==> 2 * apart(q * u, v) == u,
{
    if q < j {
        assert(j * u >= q * u + u) by (nonlinear_arith)
            requires
                j >= q + 1,
        ;
    } else if j < q {
        assert(q * u >= j * u + u) by (nonlinear_arith)
            requires
                q >= j + 1,
        ;
    }
}

/// What bits of a format are worth: a mantissa of the format's width, times a
/// power of two no less than its least.
proof fn lemma_shape(c: int, k: FloatKind) -> (r: (nat, int))
    requires
        are_bits(c, k),
        is_finite(c, k),
    ensures
        r.0 < 2 * hidden_bit(k),
        r.1 >= least_exponent(k),
        worth(c, k) == product(r.0, r.1),
{
    law_bits_are_read_as_worth(c, k);
    let n = number_of(c, k);
    assert(n is Finite) by {
        match k {
            FloatKind::Half => {},
            FloatKind::Single => {},
            FloatKind::Double => {},
        }
    }
    (n->Finite_mantissa as nat, n->Finite_exponent as int)
}

/// A number becomes a nearest one of the format under its sign: none of the
/// format's numbers is nearer, and where another is as near, the last bit is
/// zero. It becomes an infinity exactly where it lies half a step or more past
/// the largest.
pub proof fn law_rounding_is_to_the_nearest(negative: bool, mantissa: u64, exponent: i32, k: FloatKind, other: int)
    requires
        -1074 <= exponent <= 971,
        are_bits(other, k),
        is_finite(other, k),
    ensures
        ({
            let r = bits_of(Number::Finite { negative, mantissa, exponent }, k);
            let v = product(mantissa as nat, exponent as int);
            &&& are_bits(r, k)
            &&& has_sign(r, k) == negative
            &&& is_endless(r, k) <==> 2 * v >= reach(k)
            &&& is_finite(r, k) <==> 2 * v < reach(k)
            &&& is_finite(r, k) ==> apart(worth(r, k), v) <= apart(worth(other, k), v)
            &&& is_finite(r, k) && apart(worth(r, k), v) == apart(worth(other, k), v) && worth(r, k) != worth(
                other,
                k,
            ) ==> r % 2 == 0
        }),
{
    let m = mantissa as nat;
    let x = exponent as int;
    let v = product(m, x);
    let mag = rounded(m, x, k);
    let r = bits_of(Number::Finite { negative, mantissa, exponent }, k);
    let h = hidden_bit(k) as nat;
    assert(reach(k) > 0) by {
        lemma_pow2_pos(1079);
        lemma_pow2_pos(1178);
        lemma_pow2_pos(2045);
        let t = pow2((top(k) + 1074) as nat);
        assert((4 * h - 1) * t > 0) by (nonlinear_arith)
            requires
                h >= 1,
                t > 0,
        ;
        assert(reach(k) == (4 * h - 1) * t);
    }
    assert(r == signed(negative, mag, k));
    if m == 0 {
        assert(v == 0) by (nonlinear_arith)
            requires
                v == m * pow2((x + 1074) as nat),
                m == 0,
        ;
        lemma_result(negative, 0, k);
        assert(scaled(0, h as int) == 0);
        assert(0 * pow2(lift(k)) == 0) by (nonlinear_arith);
    } else {
        let e = step_exponent(m, x, k);
        let q = nearest_even(m, x - e);
        let u = pow2((e + 1074) as nat);
        let s = e - least_exponent(k);
        let near = s * h + q;
        lemma_steps(m, x, k);
        lemma_in_range(m, x, k);
        assert(near >= 0) by (nonlinear_arith)
            requires
                near == s * h + q,
                s >= 0,
        ;
        lemma_result(negative, mag, k);
        if near < infinity(k) {
            lemma_placed(e, q, k);
            assert(worth(r, k) == q * u);
            assert(near % 2 == q % 2) by {
                let half = h / 2;
                assert(h == 2 * half);
                assert(near == 2 * (s * half) + q) by (nonlinear_arith)
                    requires
                        near == s * h + q,
                        h == 2 * half,
                ;
            }
            let (g, y) = lemma_shape(other, k);
            if y >= e {
                let d = pow2((y - e) as nat);
                lemma_pow2_adds((y - e) as nat, (e + 1074) as nat);
                assert(g * (d * u) == (g * d) * u) by (nonlinear_arith);
                lemma_closest(q, g * d, u, v);
            } else {
                lemma_closest(q, h, u, v);
                let w = pow2((y + 1074) as nat);
                lemma_pow2_pos((y + 1074) as nat);
                lemma_pow2_unfold((y + 1075) as nat);
                if y + 1 < e {
                    lemma_pow2_strictly_increases((y + 1075) as nat, (e + 1074) as nat);
                }
                assert(g * w < h * u) by (nonlinear_arith)
                    requires
                        g < 2 * h,
                        2 * w <= u,
                        w > 0,
                ;
            }
        }
    }
}

/// A magnitude under a sign is bits of the format, with that sign and worth.
proof fn lemma_result(negative: bool, mag: int, k: FloatKind)
    requires
        0 <= mag <= infinity(k),
    ensures
        ({
            let r = signed(negative, mag, k);
            &&& are_bits(r, k)
            &&& has_sign(r, k) == negative
            &&& is_endless(r, k) <==> mag == infinity(k)
            &&& is_finite(r, k) <==> mag < infinity(k)
            &&& worth(r, k) == scaled(mag, hidden_bit(k)) * pow2(lift(k))
            &&& r % 2 == mag % 2
        }),
{
    match k {
        FloatKind::Half => {},
        FloatKind::Single => {},
        FloatKind::Double => {},
    }
}

/// A number whose bits fit the wider format is kept there, whatever narrower
/// format it comes from.
pub proof fn law_widening_keeps_the_number(bits: int, k: FloatKind)
    requires
        are_bits(bits, k),
    ensures
        ({
            let d = bits_of(number_of(bits, k), FloatKind::Double);
            &&& are_bits(d, FloatKind::Double)
            &&& has_sign(d, FloatKind::Double) == has_sign(bits, k)
            &&& is_finite(d, FloatKind::Double) == is_finite(bits, k)
            &&& is_endless(d, FloatKind::Double) == is_endless(bits, k)
            &&& is_finite(bits, k) ==> worth(d, FloatKind::Double) == worth(bits, k)
        }),
{
    law_bits_are_read_as_worth(bits, k);
    match number_of(bits, k) {
        Number::Finite { negative, mantissa, exponent } => {
            law_doubles_hold_their_mantissas(negative, mantissa, exponent);
            assert(is_finite(bits, k));
            assert(!is_endless(bits, k));
        },
        Number::Infinite { negative } => {
            assert(!is_finite(bits, k));
        },
        Number::NotANumber { negative } => {},
    }
}

/// A number of at most 53 bits, in the range of the exponents, is a double.
pub proof fn law_doubles_hold_their_mantissas(negative: bool, mantissa: u64, exponent: i32)
    requires
        mantissa < 0x20_0000_0000_0000,
        -1074 <= exponent <= 971,
    ensures
        ({
            let d = bits_of(Number::Finite { negative, mantissa, exponent }, FloatKind::Double);
            &&& are_bits(d, FloatKind::Double)
            &&& is_finite(d, FloatKind::Double)
            &&& has_sign(d, FloatKind::Double) == negative
            &&& worth(d, FloatKind::Double) == product(mantissa as nat, exponent as int)
        }),
{
    let k = FloatKind::Double;
    let m = mantissa as nat;
    let x = exponent as int;
    let v = product(m, x);
    lemma2_to64();
    lemma2_to64_rest();
    law_rounding_is_to_the_nearest(negative, mantissa, exponent, k, 0);
    if m == 0 {
        lemma_result(negative, 0, k);
        assert(0 * pow2((x + 1074) as nat) == 0) by (nonlinear_arith);
        assert(scaled(0, 0x10_0000_0000_0000) == 0);
    } else {
        let b = bits_in(m);
        lemma_bits_in(m);
        assert(b <= 53) by {
            if b > 53 && b - 1 > 53 {
                lemma_pow2_strictly_increases(53, (b - 1) as nat);
            }
        }
        let e = step_exponent(m, x, k);
        let q = nearest_even(m, x - e);
        lemma_steps(m, x, k);
        lemma_in_range(m, x, k);
        let near = (e - least_exponent(k)) * hidden_bit(k) + q;
        let u = pow2((e + 1074) as nat);
        lemma_pow2_pos((e + 1074) as nat);
        assert(q < 0x20_0000_0000_0000) by (nonlinear_arith)
            requires
                q * u < 0x20_0000_0000_0000 * u,
                u > 0,
        ;
        assert(e <= 971);
        assert(near == (e + 1074) * 0x10_0000_0000_0000 + q);
        assert(near < infinity(k));
        lemma_placed(e, q, k);
        lemma_result(negative, near, k);
    }
}

/// Whether bits of a format are a nearest number to `v` under a sign: no number of
/// the format is nearer, of two as near the last bit is zero, and an infinity
/// stands exactly for what lies half a step or more past the largest.
pub open spec fn rounds_to(r: int, k: FloatKind, v: nat, negative: bool) -> bool {
    &&& are_bits(r, k)
    &&& has_sign(r, k) == negative
    &&& is_endless(r, k) <==> 2 * v >= reach(k)
    &&& is_finite(r, k) <==> 2 * v < reach(k)
    &&& is_finite(r, k) ==> forall|c: int|
        #![trigger worth(c, k)]
        are_bits(c, k) && is_finite(c, k) ==> apart(worth(r, k), v) <= apart(worth(c, k), v) && (apart(worth(r, k), v)
            == apart(worth(c, k), v) && worth(r, k) != worth(c, k) ==> r % 2 == 0)
}

/// Whether bits of a format are what bits of another become in it: a nearest
/// number for a number, an infinity for an infinity, no number for no number, and
/// the same sign.
pub open spec fn becomes(r: int, k: FloatKind, bits: int, from: FloatKind) -> bool {
    if is_finite(bits, from) {
        rounds_to(r, k, worth(bits, from), has_sign(bits, from))
    } else {
        &&& are_bits(r, k)
        &&& has_sign(r, k) == has_sign(bits, from)
        &&& !is_finite(r, k)
        &&& is_endless(r, k) == is_endless(bits, from)
    }
}

/// A number is rounded to a nearest one.
pub proof fn law_numbers_round(negative: bool, mantissa: u64, exponent: i32, k: FloatKind)
    requires
        -1074 <= exponent <= 971,
    ensures
        rounds_to(
            bits_of(Number::Finite { negative, mantissa, exponent }, k),
            k,
            product(mantissa as nat, exponent as int),
            negative,
        ),
{
    let r = bits_of(Number::Finite { negative, mantissa, exponent }, k);
    let v = product(mantissa as nat, exponent as int);
    law_rounding_is_to_the_nearest(negative, mantissa, exponent, k, 0);
    assert forall|c: int| #![trigger worth(c, k)] are_bits(c, k) && is_finite(c, k) && is_finite(r, k) implies apart(
        worth(r, k),
        v,
    ) <= apart(worth(c, k), v) && (apart(worth(r, k), v) == apart(worth(c, k), v) && worth(r, k) != worth(c, k) ==> r % 2
        == 0) by {
        law_rounding_is_to_the_nearest(negative, mantissa, exponent, k, c);
    }
}

/// Bits of one format become a nearest number of another.
pub proof fn law_formats_round(bits: int, from: FloatKind, k: FloatKind)
    requires
        are_bits(bits, from),
    ensures
        becomes(bits_of(number_of(bits, from), k), k, bits, from),
{
    law_bits_are_read_as_worth(bits, from);
    match number_of(bits, from) {
        Number::Finite { negative, mantissa, exponent } => {
            law_numbers_round(negative, mantissa, exponent, k);
        },
        Number::Infinite { negative } => {
            assert(!is_finite(bits, from));
        },
        Number::NotANumber { negative } => {},
    }
}

} // verus!
