//! IEEE 754 double-precision numbers held by their bit patterns.
//!
//! The scene carries measured quantities (positions, epochs, radii) without computing on
//! them; what it does decide about them — is this finite, is this below the near plane, which
//! dot does this coordinate fall on — is decided here exactly, over the integers. A finite
//! pattern stands for the number `scaled(b) / 2^1074`, an integer multiple of the smallest
//! subnormal.

use vstd::prelude::*;
use vstd::arithmetic::power2::{pow2, lemma_pow2_pos, lemma_pow2_adds, lemma_pow2_unfold, lemma_pow2_strictly_increases, lemma2_to64};

verus! {

/// A double-precision number, by bit pattern. Equality is equality of patterns.
#[derive(Clone, Copy, Debug, PartialEq, Eq, Structural)]
pub struct Binary64 {
    /// Sign (bit 63), biased exponent (bits 52–62) and fraction (bits 0–51).
    pub bits: u64,
}

/// The weight of the sign bit.
pub const SIGN: u64 = 0x8000_0000_0000_0000;

/// The magnitude bits of an infinity; larger magnitudes are NaNs.
pub const INF: u64 = 0x7FF0_0000_0000_0000;

/// The weight of the lowest exponent bit, and of the implicit leading one.
pub const UNIT: u64 = 0x0010_0000_0000_0000;

/// The pattern of `1.0`.
pub const ONE: u64 = 0x3FF0_0000_0000_0000;

/// Exponent and fraction bits: the pattern without its sign.
pub open spec fn magnitude(b: Binary64) -> int {
    b.bits as int % SIGN as int
}

/// Whether the sign bit is set.
pub open spec fn negative(b: Binary64) -> bool {
    b.bits >= SIGN
}

/// Neither infinite nor NaN.
pub open spec fn finite(b: Binary64) -> bool {
    magnitude(b) < INF
}

/// Not a number.
pub open spec fn nan(b: Binary64) -> bool {
    magnitude(b) > INF
}

/// The absolute value of a finite magnitude, in units of `2^-1074`: the fraction alone for a
/// subnormal, the fraction with its leading one shifted by the exponent otherwise.
pub open spec fn scaled_magnitude(mag: int) -> nat {
    let exponent = mag / UNIT as int;
    let fraction = mag % UNIT as int;
    if exponent == 0 {
        fraction as nat
    } else {
        ((UNIT + fraction) * pow2((exponent - 1) as nat)) as nat
    }
}

/// The value of a finite number, in units of `2^-1074`.
pub open spec fn scaled(b: Binary64) -> int {
    if negative(b) {
        -(scaled_magnitude(magnitude(b)) as int)
    } else {
        scaled_magnitude(magnitude(b)) as int
    }
}

/// The position of a number on the extended line: the magnitude, signed.
pub open spec fn rank(b: Binary64) -> int {
    if negative(b) {
        -magnitude(b)
    } else {
        magnitude(b)
    }
}

/// `a < b` as numbers; false when either is NaN.
pub open spec fn less(a: Binary64, b: Binary64) -> bool {
    !nan(a) && !nan(b) && rank(a) < rank(b)
}

/// `a <= b` as numbers; false when either is NaN.
pub open spec fn at_most(a: Binary64, b: Binary64) -> bool {
    !nan(a) && !nan(b) && rank(a) <= rank(b)
}

/// `floor(b * 2^k)` for a finite non-negative `b`.
pub open spec fn floor_shifted(b: Binary64, k: nat) -> int {
    (scaled(b) * pow2(k)) / pow2(1074) as int
}

/// A larger finite magnitude is a larger number.
pub proof fn lemma_magnitude_increases(a: int, b: int)
    requires
        0 <= a < b < INF,
    ensures
        scaled_magnitude(a) < scaled_magnitude(b),
{
    let unit = UNIT as int;
    let (ea, fa) = (a / unit, a % unit);
    let (eb, fb) = (b / unit, b % unit);
    assert(a == ea * unit + fa && 0 <= fa < unit);
    assert(b == eb * unit + fb && 0 <= fb < unit);
    assert(ea <= eb);
    if ea == eb {
        if ea > 0 {
            lemma_pow2_pos((ea - 1) as nat);
            assert((unit + fa) * pow2((ea - 1) as nat) < (unit + fb) * pow2((ea - 1) as nat))
                by (nonlinear_arith)
                requires
                    fa < fb,
                    pow2((ea - 1) as nat) > 0,
            ;
        }
    } else {
        let pb = pow2((eb - 1) as nat) as int;
        lemma_pow2_pos((eb - 1) as nat);
        assert((unit + fb) * pb >= unit * pb) by (nonlinear_arith)
            requires
                fb >= 0,
                pb > 0,
        ;
        if ea == 0 {
            assert(unit * pb >= unit) by (nonlinear_arith)
                requires
                    pb >= 1,
                    unit >= 0,
            ;
        } else {
            let pa = pow2((ea - 1) as nat) as int;
            lemma_pow2_pos((ea - 1) as nat);
            lemma_pow2_unfold(ea as nat);
            if ea < eb - 1 {
                lemma_pow2_strictly_increases(ea as nat, (eb - 1) as nat);
            }
            assert(2 * pa <= pb);
            assert((unit + fa) * pa < unit * pb) by (nonlinear_arith)
                requires
                    0 <= fa < unit,
                    pa > 0,
                    2 * pa <= pb,
            ;
        }
    }
}

/// The comparison of patterns is the comparison of the numbers they stand for.
pub proof fn law_rank_orders_values(a: Binary64, b: Binary64)
    requires
        finite(a),
        finite(b),
    ensures
        less(a, b) <==> scaled(a) < scaled(b),
        at_most(a, b) <==> scaled(a) <= scaled(b),
{
    let (ma, mb) = (magnitude(a), magnitude(b));
    if ma < mb {
        lemma_magnitude_increases(ma, mb);
    } else if mb < ma {
        lemma_magnitude_increases(mb, ma);
    }
    if 0 < ma {
        lemma_magnitude_increases(0, ma);
    }
    if 0 < mb {
        lemma_magnitude_increases(0, mb);
    }
    assert(scaled_magnitude(0) == 0);
}

/// Dropping a common power of two from a quotient.
pub proof fn lemma_div_common(m: nat, a: nat, s: nat)
    ensures
        (m * pow2(a)) / pow2(a + s) == m / pow2(s),
{
    lemma_pow2_pos(a);
    lemma_pow2_pos(s);
    lemma_pow2_adds(a, s);
    let pa = pow2(a) as int;
    let ps = pow2(s) as int;
    vstd::arithmetic::div_mod::lemma_div_denominator(m * pa, pa, ps);
    vstd::arithmetic::div_mod::lemma_div_multiples_vanish(m as int, pa);
    vstd::arithmetic::mul::lemma_mul_is_commutative(m as int, pa);
}

/// The floor of a finite non-negative number shifted by `k`, by cases on the exponent.
proof fn lemma_floor_shifted(b: Binary64, k: nat)
    requires
        finite(b),
        !negative(b) || magnitude(b) == 0,
        k <= 52,
    ensures
        ({
            let exponent = magnitude(b) / UNIT as int;
            let leading = UNIT + magnitude(b) % UNIT as int;
            let floor = floor_shifted(b, k);
            &&& exponent == 0 ==> floor == 0
            &&& exponent > 0 && exponent + k < 1075 ==> floor == leading / pow2(
                (1075 - k - exponent) as nat,
            ) as int
            &&& exponent > 0 && exponent + k >= 1075 ==> floor >= UNIT
        }),
{
    let mag = magnitude(b);
    let unit = UNIT as int;
    let exponent = mag / unit;
    let leading = unit + mag % unit;
    let value = scaled_magnitude(mag) as int;
    assert(scaled(b) == value);
    lemma_pow2_pos(1074);
    lemma_pow2_pos(k);
    lemma2_to64();
    if exponent == 0 {
        assert(value < unit);
        lemma_pow2_adds(52, k);
        assert(pow2(52) == 0x10_0000_0000_0000) by {
            vstd::arithmetic::power2::lemma2_to64_rest();
        }
        assert(value * pow2(k) < unit * pow2(k)) by (nonlinear_arith)
            requires
                value < unit,
                pow2(k) > 0,
        ;
        if 52 + k < 1074 {
            lemma_pow2_strictly_increases(52 + k, 1074);
        }
        assert((value * pow2(k)) / pow2(1074) as int == 0) by {
            vstd::arithmetic::div_mod::lemma_basic_div(value * pow2(k), pow2(1074) as int);
        }
    } else {
        let e1 = (exponent - 1) as nat;
        lemma_pow2_adds(e1, k);
        assert(value * pow2(k) == leading * pow2(e1 + k)) by (nonlinear_arith)
            requires
                value == leading * pow2(e1),
                pow2(e1) * pow2(k) == pow2(e1 + k),
        ;
        if exponent + k < 1075 {
            let s = (1075 - k - exponent) as nat;
            lemma_div_common(leading as nat, e1 + k, s);
            assert(e1 + k + s == 1074);
        } else {
            let extra = (e1 + k - 1074) as nat;
            lemma_pow2_adds(1074, extra);
            lemma_pow2_pos(extra);
            assert(leading * pow2(e1 + k) == (leading * pow2(extra)) * pow2(1074)) by (nonlinear_arith)
                requires
                    pow2(1074) * pow2(extra) == pow2(e1 + k),
            ;
            vstd::arithmetic::div_mod::lemma_div_multiples_vanish(
                leading * pow2(extra),
                pow2(1074) as int,
            );
            vstd::arithmetic::mul::lemma_mul_is_commutative(
                leading * pow2(extra),
                pow2(1074) as int,
            );
            assert(leading * pow2(extra) >= unit) by (nonlinear_arith)
                requires
                    leading >= unit,
                    pow2(extra) >= 1,
                    unit >= 0,
            ;
        }
    }
}

impl Binary64 {
    /// The number with the given bit pattern.
    pub fn from_bits(bits: u64) -> (r: Binary64)
        ensures
            r.bits == bits,
    {
        Binary64 { bits }
    }

    /// The bit pattern.
    pub fn to_bits(self) -> (r: u64)
        ensures
            r == self.bits,
    {
        self.bits
    }

    /// The pattern without its sign.
    fn magnitude_bits(self) -> (r: u64)
        ensures
            r == magnitude(self),
            r < SIGN,
    {
        if self.bits >= SIGN {
            self.bits - SIGN
        } else {
            self.bits
        }
    }

    /// Whether this is neither infinite nor NaN.
    pub fn is_finite(self) -> (r: bool)
        ensures
            r == finite(self),
    {
        self.magnitude_bits() < INF
    }

    /// Whether this is not a number.
    pub fn is_nan(self) -> (r: bool)
        ensures
            r == nan(self),
    {
        self.magnitude_bits() > INF
    }

    /// `self < other`; false when either is NaN.
    pub fn lt(self, other: Binary64) -> (r: bool)
        ensures
            r == less(self, other),
    {
        let a: u64 = self.magnitude_bits();
        let b: u64 = other.magnitude_bits();
        if a > INF || b > INF {
            false
        } else if self.bits >= SIGN {
            if other.bits >= SIGN {
                b < a
            } else {
                a > 0 || b > 0
            }
        } else if other.bits >= SIGN {
            false
        } else {
            a < b
        }
    }

    /// `self <= other`; false when either is NaN.
    pub fn le(self, other: Binary64) -> (r: bool)
        ensures
            r == at_most(self, other),
    {
        !self.is_nan() && !other.is_nan() && !other.lt(self)
    }

    /// `floor(self * 2^k)` of a finite number that is not below zero, capped at `2^52`.
    pub fn floor_shl(self, k: u64) -> (r: u64)
        requires
            finite(self),
            !less(self, Binary64 { bits: 0 }),
            k <= 52,
        ensures
            floor_shifted(self, k as nat) < UNIT ==> r == floor_shifted(self, k as nat),
            floor_shifted(self, k as nat) >= UNIT ==> r == UNIT,
    {
        let mag: u64 = self.magnitude_bits();
        let exponent: u64 = mag / UNIT;
        let leading: u64 = UNIT + mag % UNIT;
        proof {
            lemma_floor_shifted(self, k as nat);
            vstd::arithmetic::power2::lemma2_to64_rest();
        }
        if exponent == 0 {
            0
        } else if exponent + k >= 1075 {
            UNIT
        } else {
            let s: u64 = 1075 - k - exponent;
            if s > 53 {
                proof {
                    lemma_pow2_strictly_increases(53, s as nat);
                    vstd::arithmetic::div_mod::lemma_basic_div(
                        leading as int,
                        pow2(s as nat) as int,
                    );
                }
                0
            } else {
                proof {
                    vstd::bits::lemma_u64_shr_is_div(leading, s);
                    lemma_pow2_pos(s as nat);
                    lemma_pow2_unfold(s as nat);
                    assert(leading as int / pow2(s as nat) as int <= leading as int / 2) by {
                        lemma_pow2_pos((s - 1) as nat);
                        vstd::arithmetic::div_mod::lemma_div_is_ordered_by_denominator(
                            leading as int,
                            2,
                            pow2(s as nat) as int,
                        );
                    }
                }
                leading >> s
            }
        }
    }
}

/// The fields of a pattern say what it stands for: an exponent field of all ones is an infinity
/// with an empty fraction and a NaN with any other, and the top bit is the sign.
pub proof fn law_fields_tell_the_classes_apart(b: Binary64)
    ensures
        finite(b) <==> (b.bits / UNIT) % 2048 != 2047,
        nan(b) <==> (b.bits / UNIT) % 2048 == 2047 && b.bits % UNIT != 0,
        negative(b) <==> b.bits / SIGN == 1,
{
    let (m, u) = (magnitude(b), UNIT as int);
    assert(b.bits as int == m || b.bits as int == m + SIGN);
    assert(SIGN as int == 2048 * u && INF as int == 2047 * u);
    assert(m == u * (m / u) + m % u);
    if b.bits >= SIGN {
        assert(b.bits as int / u == 2048 + m / u && b.bits as int % u == m % u);
    }
    assert(0 <= m / u < 2048);
    assert((2048 + m / u) % 2048 == m / u);
}

/// The smallest patterns count by ones, and from there on one step of the exponent doubles.
/// Setting the sign negates. This fixes the value of every finite pattern.
pub proof fn law_values_double_with_the_exponent(bits: u64)
    ensures
        bits < 2 * UNIT ==> scaled(Binary64 { bits }) == bits,
        UNIT <= bits && bits + UNIT < INF ==> scaled(Binary64 { bits: (bits + UNIT) as u64 }) == 2
            * scaled(Binary64 { bits }),
        bits < INF ==> scaled(Binary64 { bits: (bits + SIGN) as u64 }) == -scaled(
            Binary64 { bits },
        ),
{
    let u = UNIT as int;
    lemma2_to64();
    if bits < 2 * UNIT {
        assert(magnitude(Binary64 { bits }) == bits);
        if bits >= UNIT {
            assert(bits as int / u == 1 && bits as int % u == bits - u);
            assert(scaled_magnitude(bits as int) == bits * pow2(0)) by (nonlinear_arith)
                requires
                    scaled_magnitude(bits as int) == bits * pow2(0),
            ;
        } else {
            assert(bits as int / u == 0 && bits as int % u == bits);
        }
    }
    if UNIT <= bits && bits + UNIT < INF {
        let next = bits + UNIT;
        let e = bits as int / u;
        let f = bits as int % u;
        assert(next as int / u == e + 1 && next as int % u == f);
        lemma_pow2_unfold(e as nat);
        let p = pow2((e - 1) as nat) as int;
        assert((u + f) * (2 * p) == 2 * ((u + f) * p)) by (nonlinear_arith);
    }
    if bits < INF {
        assert((bits + SIGN) as int % SIGN as int == bits);
    }
}

/// A NaN is neither less than, equal to nor more than anything; the infinities bound the line.
pub proof fn law_order_at_the_edges(a: Binary64, b: Binary64)
    ensures
        nan(a) || nan(b) ==> !less(a, b) && !at_most(a, b),
        finite(a) && !finite(b) && !nan(b) ==> (less(a, b) <==> !negative(b)) && (less(b, a)
            <==> negative(b)),
        !finite(a) && !nan(a) && !finite(b) && !nan(b) ==> (less(a, b) <==> negative(a)
            && !negative(b)),
        !nan(a) && !nan(b) ==> (at_most(a, b) <==> !less(b, a)),
{
}

/// The floor of a shifted number is the integer just at or below it.
pub proof fn law_floor_is_next_below(b: Binary64, k: nat)
    ensures
        floor_shifted(b, k) * pow2(1074) <= scaled(b) * pow2(k) < (floor_shifted(b, k) + 1) * pow2(
            1074,
        ),
{
    lemma_pow2_pos(1074);
    let (v, d) = (scaled(b) * pow2(k), pow2(1074) as int);
    vstd::arithmetic::div_mod::lemma_fundamental_div_mod(v, d);
    let q = v / d;
    assert(q * d <= v < (q + 1) * d) by (nonlinear_arith)
        requires
            v == d * q + v % d,
            0 <= v % d < d,
    ;
}

/// A positive normal pattern with exponent field `e` and significand `m` stands for `m / d`,
/// where `d` is `2^(1075 - e)`.
pub proof fn lemma_value(b: Binary64, e: nat, m: int, d: int)
    requires
        1 <= e <= 1075,
        d == pow2((1075 - e) as nat),
        UNIT <= m < 2 * UNIT,
        b.bits == e * UNIT + (m - UNIT),
    ensures
        finite(b),
        !nan(b),
        scaled(b) * d == m * pow2(1074),
{
    let u = UNIT as int;
    assert(b.bits as int / u == e && b.bits as int % u == m - u) by {
        vstd::arithmetic::div_mod::lemma_fundamental_div_mod_converse(
            b.bits as int,
            u,
            e as int,
            m - u,
        );
    }
    assert(b.bits < INF);
    assert(magnitude(b) == b.bits);
    let (p, q) = (pow2((e - 1) as nat) as int, pow2((1075 - e) as nat) as int);
    lemma_pow2_adds((e - 1) as nat, (1075 - e) as nat);
    assert((m * p) * q == m * (p * q)) by (nonlinear_arith);
}

/// One is one, and zero is zero.
pub proof fn lemma_one()
    ensures
        finite(Binary64 { bits: ONE }),
        finite(Binary64 { bits: 0 }),
        scaled(Binary64 { bits: ONE }) == pow2(1074),
        scaled(Binary64 { bits: 0 }) == 0,
{
    let one = Binary64 { bits: ONE };
    vstd::arithmetic::power2::lemma2_to64_rest();
    lemma_value(one, 1023, 0x0010_0000_0000_0000, 0x0010_0000_0000_0000);
}

/// The number lies at or above `lo / d` and below `hi / d`.
pub open spec fn between(b: Binary64, lo: int, hi: int, d: int) -> bool {
    finite(b) && lo * pow2(1074) <= d * scaled(b) < hi * pow2(1074)
}

/// The floor of a non-negative number shifted by one or two places tells in which half or quarter
/// it lies.
pub proof fn lemma_floor_between(b: Binary64, k: nat, d: int)
    requires
        finite(b),
        !less(b, Binary64 { bits: 0 }),
        d == pow2(k),
        k <= 2,
    ensures
        scaled(b) >= 0,
        floor_shifted(b, k) >= 0,
        between(b, floor_shifted(b, k), floor_shifted(b, k) + 1, d),
        forall|i: int| #[trigger] between(b, i, i + 1, d) ==> i == floor_shifted(b, k),
        forall|w: int| floor_shifted(b, k) < w <==> d * scaled(b) < #[trigger] (w * pow2(1074)),
{
    let one = pow2(1074) as int;
    let f = floor_shifted(b, k);
    let v = d * scaled(b);
    lemma_pow2_pos(1074);
    lemma_pow2_pos(k);
    lemma_one();
    law_rank_orders_values(b, Binary64 { bits: 0 });
    law_floor_is_next_below(b, k);
    assert(v == scaled(b) * pow2(k)) by (nonlinear_arith)
        requires
            v == d * scaled(b),
            d == pow2(k),
    ;
    assert(v >= 0) by (nonlinear_arith)
        requires
            v == d * scaled(b),
            d > 0,
            scaled(b) >= 0,
    ;
    assert(f >= 0) by (nonlinear_arith)
        requires
            v >= 0,
            v < (f + 1) * one,
            one > 0,
    ;
    assert forall|w: int| f < w <==> v < #[trigger] (w * pow2(1074)) by {
        if f < w {
            assert((f + 1) * one <= w * one) by (nonlinear_arith)
                requires
                    f + 1 <= w,
                    one > 0,
            ;
        } else {
            assert(w * one <= f * one) by (nonlinear_arith)
                requires
                    w <= f,
                    one > 0,
            ;
        }
    }
    assert forall|i: int| #[trigger] between(b, i, i + 1, d) implies i == f by {
        assert(f < i + 1 <==> v < (i + 1) * pow2(1074));
        assert(f < i <==> v < i * pow2(1074));
    }
}

} // verus!
