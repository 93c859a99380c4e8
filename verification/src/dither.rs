//! Quantizing linear colour to eight bits per channel with ordered dithering.
//!
//! A channel in `[0, 1]` is multiplied by 255 in double precision and cut to an integer; the
//! fractional remainder rounds up where it exceeds the Bayer threshold of the pixel. The
//! product is computed here over the integers, with the one rounding to 53 significant bits
//! that double-precision multiplication performs.

use vstd::prelude::*;
use vstd::arithmetic::power2::{pow2, lemma_pow2_pos, lemma_pow2_adds, lemma_pow2_unfold, lemma_pow2_strictly_increases};
use vstd::arithmetic::div_mod::{lemma_div_denominator, lemma_fundamental_div_mod, lemma_fundamental_div_mod_converse};
use crate::binary64::{Binary64, UNIT, ONE, lemma_div_common};

verus! {

broadcast use lemma_pow2_pos;

/// How many bits `p` has beyond the 53 of a significand.
pub open spec fn excess(p: nat) -> nat
    decreases p,
{
    if p < 2 * UNIT {
        0
    } else {
        1 + excess(p / 2)
    }
}

/// `p` rounded to 53 significant bits, ties to even.
pub open spec fn round_to_53(p: nat) -> nat {
    let unit = pow2(excess(p));
    let quotient = p / unit;
    let rest = p % unit;
    if 2 * rest > unit || (2 * rest == unit && quotient % 2 == 1) {
        (quotient + 1) * unit
    } else {
        quotient * unit
    }
}

/// Rounding commutes with doubling.
proof fn lemma_round_doubles(p: nat)
    ensures
        round_to_53(2 * p) == 2 * round_to_53(p),
{
    let unit = pow2(excess(p));
    assert((2 * p) / 2 == p);
    if p < 2 * UNIT {
        assert(pow2(0) == 1) by {
            vstd::arithmetic::power2::lemma2_to64();
        }
        assert(round_to_53(p) == p);
        if 2 * p >= 2 * UNIT {
            assert(excess(2 * p) == 1) by {
                reveal_with_fuel(excess, 2);
            }
            lemma_pow2_unfold(1);
            assert(pow2(1) == 2);
        } else {
            assert(excess(2 * p) == 0);
        }
        assert(round_to_53(2 * p) == 2 * p);
    } else {
        assert(excess(2 * p) == 1 + excess(p));
        lemma_pow2_unfold(1 + excess(p));
        let quotient = p / unit;
        let rest = p % unit;
        lemma_fundamental_div_mod(p as int, unit as int);
        assert(2 * p == (2 * unit) * quotient + 2 * rest) by (nonlinear_arith)
            requires
                p == unit * quotient + rest,
        ;
        lemma_fundamental_div_mod_converse(
            2 * p as int,
            2 * unit as int,
            quotient as int,
            2 * rest as int,
        );
        assert((2 * p) / (2 * unit) == quotient);
        assert((2 * p) % (2 * unit) == 2 * rest);
        assert((quotient + 1) * (2 * unit) == 2 * ((quotient + 1) * unit)) by (nonlinear_arith);
        assert(quotient * (2 * unit) == 2 * (quotient * unit)) by (nonlinear_arith);
    }
}

/// Rounding commutes with scaling by a power of two.
proof fn lemma_round_scales(p: nat, a: nat)
    ensures
        round_to_53(p * pow2(a)) == round_to_53(p) * pow2(a),
    decreases a,
{
    if a == 0 {
        vstd::arithmetic::power2::lemma2_to64();
    } else {
        let half = pow2((a - 1) as nat);
        lemma_pow2_unfold(a);
        lemma_round_scales(p, (a - 1) as nat);
        lemma_round_doubles(p * half);
        assert(p * pow2(a) == 2 * (p * half)) by (nonlinear_arith)
            requires
                pow2(a) == 2 * half,
        ;
        assert(round_to_53(p) * pow2(a) == 2 * (round_to_53(p) * half)) by (nonlinear_arith)
            requires
                pow2(a) == 2 * half,
        ;
    }
}

/// `p` rounded to 53 significant bits, ties to even.
fn round_significand(p: u64) -> (r: u64)
    requires
        p < 0x2000_0000_0000_0000,
    ensures
        r == round_to_53(p as nat),
        r <= 0x3000_0000_0000_0000,
{
    let mut unit: u64 = 1;
    let mut quotient: u64 = p;
    let ghost mut j: nat = 0;
    proof {
        vstd::arithmetic::power2::lemma2_to64();
    }
    while quotient >= 2 * UNIT
        invariant
            p < 0x2000_0000_0000_0000,
            unit == pow2(j),
            quotient == p as nat / pow2(j),
            excess(p as nat) == j + excess(quotient as nat),
            unit <= 256,
            unit <= 0x100 && unit * quotient <= p,
        decreases quotient,
    {
        assert(unit < 256) by (nonlinear_arith)
            requires
                unit * quotient <= p,
                quotient >= 2 * UNIT,
                p < 0x2000_0000_0000_0000,
        ;
        proof {
            lemma_pow2_unfold(j + 1);
            lemma_div_denominator(p as int, pow2(j) as int, 2);
            lemma_fundamental_div_mod(p as int, pow2(j + 1) as int);
            j = j + 1;
        }
        assert(unit * 2 <= 256) by {
            assert(unit < 256 ==> j > 0 && unit <= 128) by {
                lemma_pow2_below_256((j - 1) as nat);
            }
        }
        unit = unit * 2;
        quotient = quotient / 2;
        assert(unit * quotient <= p) by {
            lemma_fundamental_div_mod(p as int, unit as int);
        }
    }
    let rest: u64 = p % unit;
    proof {
        lemma_fundamental_div_mod(p as int, unit as int);
    }
    assert(quotient * unit <= p) by (nonlinear_arith)
        requires
            unit * quotient <= p,
    ;
    assert((quotient + 1) * unit == quotient * unit + unit) by (nonlinear_arith);
    if 2 * rest > unit || (2 * rest == unit && quotient % 2 == 1) {
        (quotient + 1) * unit
    } else {
        quotient * unit
    }
}

/// The thresholds of the 4×4 ordered (Bayer) dither, by pixel column and row modulo 4.
pub open spec fn bayer(x: int, y: int) -> int {
    let row = if y % 4 == 0 {
        seq![0int, 8, 2, 10]
    } else if y % 4 == 1 {
        seq![12int, 4, 14, 6]
    } else if y % 4 == 2 {
        seq![3int, 11, 1, 9]
    } else {
        seq![15int, 7, 13, 5]
    };
    row[x % 4]
}

/// One channel cut to eight bits against threshold `(2 * t + 1) / 32`: NaN and everything up to
/// zero give 0, everything from one up gives 255, and between them the rounded product
/// `255 * c` loses its fraction, rounding up where the fraction exceeds the threshold.
pub open spec fn channel(c: Binary64, t: int) -> int {
    if crate::binary64::nan(c) || crate::binary64::rank(c) <= 0 {
        0
    } else if crate::binary64::rank(c) >= ONE {
        255
    } else {
        let one = pow2(1074);
        let product = round_to_53((255 * crate::binary64::scaled(c)) as nat);
        let base = product / one;
        let up: nat = if 32 * (product % one) > (2 * t + 1) * one {
            1
        } else {
            0
        };
        if base + up < 255 {
            (base + up) as int
        } else {
            255
        }
    }
}

/// A power of two below 256 is at most 128.
proof fn lemma_pow2_below_256(j: nat)
    requires
        pow2(j) < 256,
    ensures
        pow2(j) <= 128,
{
    vstd::arithmetic::power2::lemma2_to64();
    if j >= 8 {
        if j > 8 {
            lemma_pow2_strictly_increases(8, j);
        }
    }
}

/// Quotient and remainder by `2^1074` of a product with a known power of two in it.
proof fn lemma_split_product(s: nat, a: nat)
    requires
        a <= 1074,
    ensures
        (s * pow2(a)) / pow2(1074) == s / pow2((1074 - a) as nat),
        (s * pow2(a)) % pow2(1074) == (s % pow2((1074 - a) as nat)) * pow2(a),
{
    let d = (1074 - a) as nat;
    lemma_div_common(s, a, d);
    lemma_pow2_adds(a, d);
    let (pa, pd) = (pow2(a), pow2(d));
    let (q, r) = (s / pd, s % pd);
    lemma_fundamental_div_mod(s as int, pd as int);
    assert(s * pa == (pa * pd) * q + r * pa) by (nonlinear_arith)
        requires
            s == pd * q + r,
    ;
    assert(0 <= r * pa < pa * pd) by (nonlinear_arith)
        requires
            0 <= r < pd,
            pa > 0,
    ;
    lemma_fundamental_div_mod_converse(
        (s * pa) as int,
        (pa * pd) as int,
        q as int,
        (r * pa) as int,
    );
}

/// The eight-bit value of one channel at a pixel whose threshold is `t`.
fn quantize_channel(c: Binary64, t: u8) -> (r: u8)
    requires
        t < 16,
    ensures
        r == channel(c, t as int),
{
    let zero: Binary64 = Binary64::from_bits(0);
    let one: Binary64 = Binary64::from_bits(ONE);
    if c.is_nan() || c.le(zero) {
        return 0;
    }
    if one.le(c) {
        return 255;
    }
    let exponent: u64 = c.bits / UNIT;
    let fraction: u64 = c.bits % UNIT;
    let (m, a): (u64, u64) = if exponent == 0 {
        (fraction, 0)
    } else {
        (UNIT + fraction, exponent - 1)
    };
    let s: u64 = round_significand(255 * m);
    let d: u64 = 1074 - a;
    proof {
        vstd::arithmetic::power2::lemma2_to64();
        vstd::arithmetic::power2::lemma2_to64_rest();
        assert(crate::binary64::scaled(c) == m * pow2(a as nat));
        assert(255 * (m * pow2(a as nat)) == (255 * m) * pow2(a as nat)) by (nonlinear_arith);
        lemma_round_scales((255 * m) as nat, a as nat);
        lemma_split_product(s as nat, a as nat);
        lemma_pow2_adds(a as nat, d as nat);
        lemma_threshold(s as nat % pow2(d as nat), a as nat, d as nat, t as int);
    }
    if d >= 70 {
        proof {
            lemma_pow2_adds(64, 6);
            if d > 70 {
                lemma_pow2_strictly_increases(70, d as nat);
            }
            vstd::arithmetic::div_mod::lemma_basic_div(s as int, pow2(d as nat) as int);
            vstd::arithmetic::div_mod::lemma_small_mod(s as nat, pow2(d as nat));
            assert((2 * t + 1) * pow2(d as nat) >= pow2(d as nat)) by (nonlinear_arith)
                requires
                    t >= 0,
            ;
        }
        return 0;
    }
    proof {
        vstd::bits::lemma_u64_shl_is_mul(1, (d - 52) as u64);
        lemma_pow2_strictly_increases((d - 52) as nat, 18);
        lemma_pow2_adds(52, (d - 52) as nat);
    }
    let high: u64 = 1u64 << (d - 52);
    assert(UNIT * high <= UNIT * 0x4_0000) by (nonlinear_arith)
        requires
            high <= 0x4_0000,
    ;
    let whole: u128 = (UNIT as u128) * (high as u128);
    assert(whole == pow2(d as nat));
    let base: u128 = (s as u128) / whole;
    let rest: u128 = (s as u128) % whole;
    assert((2 * t + 1) * whole <= 31 * whole) by (nonlinear_arith)
        requires
            t < 16,
    ;
    let up: u128 = if 32 * rest > (2 * (t as u128) + 1) * whole {
        1
    } else {
        0
    };
    assert(base <= s) by {
        vstd::arithmetic::div_mod::lemma_div_nonincreasing(s as int, whole as int);
    }
    if base + up < 255 {
        (base + up) as u8
    } else {
        255
    }
}

/// Comparing a remainder with the threshold is unaffected by a common power of two.
proof fn lemma_threshold(rest: nat, a: nat, d: nat, t: int)
    requires
        a + d == 1074,
        t >= 0,
    ensures
        32 * (rest * pow2(a)) > (2 * t + 1) * pow2(1074) <==> 32 * rest > (2 * t + 1) * pow2(d),
{
    lemma_pow2_adds(a, d);
    let (pa, pd) = (pow2(a) as int, pow2(d) as int);
    let k = 2 * t + 1;
    assert(k * (pa * pd) == (k * pd) * pa) by (nonlinear_arith);
    assert(32 * (rest * pa) == (32 * rest) * pa) by (nonlinear_arith);
    assert((32 * rest) * pa > (k * pd) * pa <==> 32 * rest > k * pd) by (nonlinear_arith)
        requires
            pa > 0,
    ;
}

/// The threshold of the pixel at column `x`, row `y`.
fn threshold(x: usize, y: usize) -> (r: u8)
    ensures
        r == bayer(x as int, y as int),
        r < 16,
{
    match (y % 4, x % 4) {
        (0, 0) => 0,
        (0, 1) => 8,
        (0, 2) => 2,
        (0, _) => 10,
        (1, 0) => 12,
        (1, 1) => 4,
        (1, 2) => 14,
        (1, _) => 6,
        (2, 0) => 3,
        (2, 1) => 11,
        (2, 2) => 1,
        (2, _) => 9,
        (_, 0) => 15,
        (_, 1) => 7,
        (_, 2) => 13,
        (_, _) => 5,
    }
}

/// Quantize linear `[0, 1]` RGB to eight bits per channel at pixel `(x, y)`: the Bayer threshold
/// of the position decides whether the fractional remainder rounds up, so smooth gradients
/// break into a stable dot pattern instead of banding.
pub fn quantize(rgb: [Binary64; 3], x: usize, y: usize) -> (r: [u8; 3])
    ensures
        forall|i: int|
            0 <= i < 3 ==> (#[trigger] r[i]) == channel(rgb[i], bayer(x as int, y as int)),
{
    let t: u8 = threshold(x, y);
    [quantize_channel(rgb[0], t), quantize_channel(rgb[1], t), quantize_channel(rgb[2], t)]
}

/// Black stays black and full intensity stays full, whatever the pixel.
pub proof fn law_quantize_endpoints(x: int, y: int)
    ensures
        channel(Binary64 { bits: 0 }, bayer(x, y)) == 0,
        channel(Binary64 { bits: ONE }, bayer(x, y)) == 255,
{
}

/// How many bits `p` has beyond 53 is said by the power of two that it lies at.
proof fn lemma_excess(p: nat)
    ensures
        p < 2 * UNIT * pow2(excess(p)),
        excess(p) > 0 ==> UNIT * pow2(excess(p)) <= p,
        excess(p) == 0 <==> p < 2 * UNIT,
    decreases p,
{
    vstd::arithmetic::power2::lemma2_to64();
    if p >= 2 * UNIT {
        let half = p / 2;
        let e = excess(half);
        lemma_excess(half);
        lemma_pow2_unfold(e + 1);
        let k = pow2(e) as int;
        assert(2 * UNIT * (2 * k) == 2 * (2 * UNIT * k)) by (nonlinear_arith);
        assert(UNIT * (2 * k) == 2 * (UNIT * k)) by (nonlinear_arith);
        if e == 0 {
            assert(half >= UNIT);
        }
    }
}

/// Rounding to 53 bits gives the nearest number with at most that many, and of two equally near
/// the even one. The spacing of such numbers near `p` is `2^e`.
pub proof fn law_rounding_is_to_the_nearest(p: nat) -> (e: nat)
    ensures
        p < 2 * UNIT ==> e == 0 && round_to_53(p) == p,
        p >= 2 * UNIT ==> UNIT * pow2(e) <= p < 2 * UNIT * pow2(e),
        round_to_53(p) % pow2(e) == 0,
        2 * (round_to_53(p) - p) <= pow2(e),
        2 * (p - round_to_53(p)) <= pow2(e),
        p >= 2 * UNIT && (2 * (round_to_53(p) - p) == pow2(e) || 2 * (p - round_to_53(p)) == pow2(
            e,
        )) ==> (round_to_53(p) / pow2(e)) % 2 == 0,
{
    let e = excess(p);
    let unit = pow2(e) as int;
    let (q, rest) = (p as int / unit, p as int % unit);
    let r = round_to_53(p) as int;
    lemma_excess(p);
    vstd::arithmetic::power2::lemma2_to64();
    lemma_fundamental_div_mod(p as int, unit);
    assert((q + 1) * unit == unit * q + unit) by (nonlinear_arith);
    assert(q * unit == unit * q) by (nonlinear_arith);
    let k = if 2 * rest > unit || (2 * rest == unit && q % 2 == 1) { q + 1 } else { q };
    assert(r == k * unit);
    assert(r == unit * k + 0) by (nonlinear_arith)
        requires
            r == k * unit,
    ;
    lemma_fundamental_div_mod_converse(r, unit, k, 0);
    e
}

/// Between zero and one, a channel's byte is the least whose distance below the product with 255
/// is at most the threshold `(2 t + 1) / 32`: dithering rounds down by no more than that and up
/// by less than what is left of one. At and beyond the ends it is 0 and 255, and 0 for what is
/// not a number.
#[verifier::rlimit(30)]
pub proof fn law_channel_rounds_by_the_threshold(c: Binary64, t: int)
    requires
        0 <= t < 16,
    ensures
        0 <= channel(c, t) <= 255,
        crate::binary64::finite(c) && crate::binary64::scaled(c) <= 0 ==> channel(c, t) == 0,
        crate::binary64::finite(c) && crate::binary64::scaled(c) >= pow2(1074) ==> channel(c, t)
            == 255,
        !crate::binary64::finite(c) ==> channel(c, t) == if !crate::binary64::nan(c)
            && !crate::binary64::negative(c) {
            255int
        } else {
            0
        },
        crate::binary64::finite(c) && 0 < crate::binary64::scaled(c) < pow2(1074) ==> {
            let product = round_to_53((255 * crate::binary64::scaled(c)) as nat);
            &&& (32 * (channel(c, t) - 1) + 2 * t + 1) * pow2(1074) < 32 * product
            &&& channel(c, t) < 255 ==> 32 * product <= (32 * channel(c, t) + 2 * t + 1) * pow2(
                1074,
            )
        },
{
    let (zero, full) = (Binary64 { bits: 0 }, Binary64 { bits: ONE });
    crate::binary64::lemma_one();
    if crate::binary64::finite(c) {
        crate::binary64::law_rank_orders_values(c, zero);
        crate::binary64::law_rank_orders_values(full, c);
        if 0 < crate::binary64::scaled(c) < pow2(1074) {
            let one = pow2(1074) as int;
            let product = round_to_53((255 * crate::binary64::scaled(c)) as nat) as int;
            let (base, rest) = (product / one, product % one);
            lemma_fundamental_div_mod(product, one);
            let up: int = if 32 * rest > (2 * t + 1) * one { 1 } else { 0 };
            let ch = channel(c, t);
            assert(0 <= base) by {
                vstd::arithmetic::div_mod::lemma_div_pos_is_pos(product, one);
            }
            assert(ch == if base + up < 255 { base + up } else { 255 });
            assert((32 * (base + up - 1) + 2 * t + 1) * one < 32 * product) by (nonlinear_arith)
                requires
                    product == one * base + rest,
                    0 <= rest < one,
                    0 <= t < 16,
                    up == 1 ==> 32 * rest > (2 * t + 1) * one,
                    up == 0 || up == 1,
            ;
            assert(32 * product <= (32 * (base + up) + 2 * t + 1) * one) by (nonlinear_arith)
                requires
                    product == one * base + rest,
                    0 <= rest < one,
                    0 <= t < 16,
                    up == 0 ==> 32 * rest <= (2 * t + 1) * one,
                    up == 0 || up == 1,
            ;
            if base + up >= 255 {
                assert((32 * (255 - 1) + 2 * t + 1) * one <= (32 * (base + up - 1) + 2 * t + 1)
                    * one) by (nonlinear_arith)
                    requires
                        base + up >= 255,
                        one > 0,
                ;
            }
        }
    } else {
        crate::binary64::law_order_at_the_edges(zero, c);
        crate::binary64::law_order_at_the_edges(full, c);
    }
}

/// The smallest ordered dither: 0 and 2 over 3 and 1, by column and row modulo 2.
pub open spec fn bayer_two(x: int, y: int) -> int {
    2 * ((x + y) % 2) + y % 2
}

/// The 4×4 dither is made from the smallest one, four times finer within its own tiles: its
/// thresholds repeat every four pixels, and neighbours differ as much as they can.
pub proof fn law_thresholds_nest(x: int, y: int)
    requires
        x >= 0,
        y >= 0,
    ensures
        bayer(x, y) == 4 * bayer_two(x, y) + bayer_two(x / 2, y / 2),
        0 <= bayer(x, y) < 16,
        bayer(x + 4, y) == bayer(x, y),
        bayer(x, y + 4) == bayer(x, y),
{
    let (a, b) = (x % 4, y % 4);
    lemma_halves(x);
    lemma_halves(y);
    lemma_tile(a, b);
    assert((x + 4) % 4 == a && (y + 4) % 4 == b && a % 4 == a && b % 4 == b);
    assert(bayer(x, y) == bayer(a, b));
    lemma_parity(x, y);
    lemma_parity(a, b);
    lemma_parity(x / 2, y / 2);
    lemma_parity(a / 2, b / 2);
}

/// A number and its half are even or odd as its remainder by four and the half of that are.
proof fn lemma_halves(x: int)
    requires
        x >= 0,
    ensures
        x % 2 == (x % 4) % 2,
        (x / 2) % 2 == ((x % 4) / 2) % 2,
        0 <= x % 4 < 4,
{
}

/// Whether a sum is even follows from whether its terms are.
proof fn lemma_parity(x: int, y: int)
    ensures
        bayer_two(x, y) == bayer_two(x % 2, y % 2),
{
    assert((x + y) % 2 == (x % 2 + y % 2) % 2);
}

/// The nesting of the thresholds within one tile.
#[verifier::rlimit(30)]
proof fn lemma_tile(a: int, b: int)
    requires
        0 <= a < 4,
        0 <= b < 4,
    ensures
        bayer(a, b) == 4 * bayer_two(a, b) + bayer_two(a / 2, b / 2),
        0 <= bayer(a, b) < 16,
{
    if b == 0 {
        assert(a == 0 || a == 1 || a == 2 || a == 3);
    } else if b == 1 {
        assert(a == 0 || a == 1 || a == 2 || a == 3);
    } else if b == 2 {
        assert(a == 0 || a == 1 || a == 2 || a == 3);
    } else {
        assert(a == 0 || a == 1 || a == 2 || a == 3);
    }
}

/// Every one of the sixteen thresholds stands at one place of a tile and no other, so that a tile
/// of one intensity rounds up in as many pixels as its remainder asks for.
#[verifier::rlimit(30)]
pub proof fn law_thresholds_are_each_used_once(x: int, y: int, u: int, v: int)
    requires
        0 <= x < 4,
        0 <= y < 4,
        0 <= u < 4,
        0 <= v < 4,
    ensures
        bayer(x, y) == bayer(u, v) ==> x == u && y == v,
{
}

} // verus!
