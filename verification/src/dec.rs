//! Exact fixed-point decimal numbers.
//!
//! A [`Dec`] is a sign, an integer magnitude and a decimal scale; it denotes
//! the rational number `±magnitude / 10^scale`. The magnitude is kept below
//! `2^96` and the scale at most 28, and every stored value is normalized (no
//! trailing zero digits unless the scale is zero), so structural equality of
//! two well-formed values coincides with equality of the numbers they denote.
//!
//! All arithmetic is exact: an operation either returns the mathematically
//! exact result or, when that result cannot be represented within the
//! magnitude and scale bounds, reports failure. Nothing is ever rounded.

use vstd::prelude::*;

verus! {

/// Exclusive upper bound on a mantissa magnitude: `2^96`.
pub const MANTISSA_LIMIT: u128 = 79228162514264337593543950336;

/// Largest representable scale (number of fractional digits).
pub const MAX_SCALE: u32 = 28;

/// An exact decimal number `±magnitude / 10^scale`, kept in normalized form.
///
/// Values should be built through [`Dec::new`] or the arithmetic methods,
/// which establish [`dec_wf`]; the fields are exposed for specification
/// purposes only.
#[derive(Clone, Copy, PartialEq, Eq, Structural, Debug)]
pub struct Dec {
    pub negative: bool,
    pub magnitude: u128,
    pub scale: u32,
}

/// `10^e`.
pub open spec fn pow10(e: nat) -> int
    decreases e,
{
    if e == 0 {
        1
    } else {
        10 * pow10((e - 1) as nat)
    }
}

/// The signed integer `±mag`.
pub open spec fn signed_of(negative: bool, mag: u128) -> int {
    if negative {
        -(mag as int)
    } else {
        mag as int
    }
}

/// The signed mantissa of a decimal.
pub open spec fn mantissa_of(d: Dec) -> int {
    signed_of(d.negative, d.magnitude)
}

/// Well-formedness: bounded and normalized. Under this invariant each
/// rational value has exactly one representation.
pub open spec fn dec_wf(d: Dec) -> bool {
    &&& d.magnitude < MANTISSA_LIMIT
    &&& d.scale <= MAX_SCALE
    &&& d.magnitude % 10 != 0 || d.scale == 0
    &&& d.magnitude == 0 ==> !d.negative
}

/// The number a decimal denotes, measured in units of `10^-56`. Two scales
/// of at most 28 can arise from one multiplication, so every exact product
/// or sum of well-formed decimals is an integer at this resolution.
pub open spec fn dec_value(d: Dec) -> int {
    mantissa_of(d) * pow10((56 - d.scale) as nat)
}

/// Removes factors of ten from a mantissa, lowering the scale, until the
/// mantissa is no longer divisible by ten or the scale reaches zero.
pub open spec fn strip_zeros(m: int, s: nat) -> (int, nat)
    decreases s,
{
    if s > 0 && m % 10 == 0 {
        strip_zeros(m / 10, (s - 1) as nat)
    } else {
        (m, s)
    }
}

/// The unique well-formed decimal denoting `num / 10^scale`, or `None` when
/// that rational has no representation within the bounds.
pub open spec fn dec_of_int_scale(num: int, scale: nat) -> Option<Dec> {
    let (m, s) = strip_zeros(num, scale);
    if s <= MAX_SCALE && -(MANTISSA_LIMIT as int) < m < MANTISSA_LIMIT as int {
        Some(
            Dec {
                negative: m < 0,
                magnitude: (if m < 0 {
                    -m
                } else {
                    m
                }) as u128,
                scale: s as u32,
            },
        )
    } else {
        None
    }
}

/// The zero decimal.
pub open spec fn dec_zero() -> Dec {
    Dec { negative: false, magnitude: 0, scale: 0 }
}

/// The exact sum of two decimals, if representable.
pub open spec fn spec_dec_add(a: Dec, b: Dec) -> Option<Dec> {
    dec_of_int_scale(
        mantissa_of(a) * pow10(b.scale as nat) + mantissa_of(b) * pow10(a.scale as nat),
        (a.scale + b.scale) as nat,
    )
}

/// The exact product of two decimals, if representable; `None` also when the
/// product of the magnitudes exceeds `u128::MAX`.
pub open spec fn spec_dec_mul(a: Dec, b: Dec) -> Option<Dec> {
    if a.magnitude * b.magnitude > u128::MAX {
        None
    } else {
        dec_of_int_scale(mantissa_of(a) * mantissa_of(b), (a.scale + b.scale) as nat)
    }
}

/// The negation of a decimal.
pub open spec fn spec_dec_neg(d: Dec) -> Dec {
    if d.magnitude == 0 {
        d
    } else {
        Dec { negative: !d.negative, ..d }
    }
}

pub proof fn lemma_pow10_pos(e: nat)
    ensures
        pow10(e) >= 1,
    decreases e,
{
    if e > 0 {
        lemma_pow10_pos((e - 1) as nat);
    }
}

pub proof fn lemma_pow10_adds(a: nat, b: nat)
    ensures
        pow10(a) * pow10(b) == pow10((a + b) as nat),
    decreases a,
{
    if a == 0 {
        assert(pow10(0) * pow10(b) == pow10(b));
    } else {
        lemma_pow10_adds((a - 1) as nat, b);
        assert(pow10(a) * pow10(b) == 10 * pow10((a - 1) as nat) * pow10(b));
        assert(10 * pow10((a - 1) as nat) * pow10(b) == 10 * (pow10((a - 1) as nat) * pow10(b)))
            by (nonlinear_arith);
    }
}

pub proof fn lemma_pow10_monotone(a: nat, b: nat)
    requires
        a <= b,
    ensures
        pow10(a) <= pow10(b),
    decreases b,
{
    if a < b {
        lemma_pow10_monotone(a, (b - 1) as nat);
        lemma_pow10_pos((b - 1) as nat);
    }
}

/// Stripping zeros keeps the denoted rational, lowers the scale, reaches a
/// canonical pair, and preserves the sign.
pub proof fn lemma_strip_properties(m: int, s: nat)
    ensures
        ({
            let (m2, s2) = strip_zeros(m, s);
            &&& s2 <= s
            &&& m2 * pow10(s) == m * pow10(s2)
            &&& m2 % 10 != 0 || s2 == 0
            &&& (m2 < 0 <==> m < 0)
            &&& (m2 == 0 <==> m == 0)
        }),
    decreases s,
{
    if s > 0 && m % 10 == 0 {
        lemma_strip_properties(m / 10, (s - 1) as nat);
        let (m2, s2) = strip_zeros(m / 10, (s - 1) as nat);
        assert(m == 10 * (m / 10));
        assert(m2 * pow10((s - 1) as nat) == (m / 10) * pow10(s2));
        assert(m2 * pow10(s) == m2 * (10 * pow10((s - 1) as nat)));
        assert(m2 * (10 * pow10((s - 1) as nat)) == 10 * (m2 * pow10((s - 1) as nat)))
            by (nonlinear_arith);
        assert(10 * ((m / 10) * pow10(s2)) == (10 * (m / 10)) * pow10(s2)) by (nonlinear_arith);
    }
}

/// Multiplying the mantissa by `10^k` while raising the scale by `k` does not
/// change the canonical form.
pub proof fn lemma_strip_shift(m: int, s: nat, k: nat)
    ensures
        strip_zeros(m * pow10(k), s + k) == strip_zeros(m, s),
    decreases k,
{
    if k > 0 {
        let mk = m * pow10(k);
        assert(pow10(k) == 10 * pow10((k - 1) as nat));
        assert(m * (10 * pow10((k - 1) as nat)) == 10 * (m * pow10((k - 1) as nat)))
            by (nonlinear_arith);
        let prev = m * pow10((k - 1) as nat);
        assert(mk == 10 * prev);
        assert(mk % 10 == 0);
        assert(mk / 10 == prev);
        assert(strip_zeros(mk, s + k) == strip_zeros(prev, (s + k - 1) as nat));
        lemma_strip_shift(m, s, (k - 1) as nat);
    }
}

/// Turns an integer mantissa and scale into the normalized decimal denoting
/// the same rational, or `None` when it is out of range. Mirrors
/// [`dec_of_int_scale`] exactly.
fn normalize(negative: bool, magnitude: u128, scale: u32) -> (r: Option<Dec>)
    ensures
        r == dec_of_int_scale(signed_of(negative, magnitude), scale as nat),
{
    let mut m: u128 = magnitude;
    let mut s: u32 = scale;
    while s > 0 && m % 10 == 0
        invariant
            strip_zeros(signed_of(negative, m), s as nat) == strip_zeros(
                signed_of(negative, magnitude),
                scale as nat,
            ),
        decreases s,
    {
        proof {
            let mi = signed_of(negative, m);
            assert(m == 10 * (m / 10));
            assert(mi % 10 == 0);
            assert(mi / 10 == signed_of(negative, m / 10));
        }
        m = m / 10;
        s = s - 1;
    }
    proof {
        let mi = signed_of(negative, m);
        assert(mi % 10 != 0 || s == 0);
        assert(strip_zeros(mi, s as nat) == (mi, s as nat));
    }
    if m < MANTISSA_LIMIT && s <= MAX_SCALE {
        Some(
            Dec {
                negative: if m == 0 {
                    false
                } else {
                    negative
                },
                magnitude: m,
                scale: s,
            },
        )
    } else {
        None
    }
}

/// `10^e` as a machine integer.
pub fn pow10_u128(e: u32) -> (r: u128)
    requires
        e <= 28,
    ensures
        r == pow10(e as nat),
{
    proof {
        assert(pow10(28) == 10000000000000000000000000000) by {
            reveal_with_fuel(pow10, 29);
        }
    }
    let mut i: u32 = 0;
    let mut acc: u128 = 1;
    while i < e
        invariant
            i <= e,
            e <= 28,
            acc == pow10(i as nat),
        decreases e - i,
    {
        proof {
            assert(pow10(28) == 10000000000000000000000000000) by {
                reveal_with_fuel(pow10, 29);
            }
            lemma_pow10_monotone(i as nat, 27);
            assert(pow10(28) == 10 * pow10(27));
            lemma_pow10_pos(i as nat);
        }
        acc = acc * 10;
        i = i + 1;
    }
    acc
}

impl Dec {
    /// The unique normalized decimal denoting `mantissa / 10^scale`, or
    /// `None` when that number cannot be represented.
    pub fn new(mantissa: i128, scale: u32) -> (r: Option<Dec>)
        ensures
            r == dec_of_int_scale(mantissa as int, scale as nat),
    {
        let negative = mantissa < 0;
        let magnitude: u128 = if mantissa < 0 {
            ((-(mantissa + 1)) as u128) + 1
        } else {
            mantissa as u128
        };
        proof {
            assert(signed_of(negative, magnitude) == mantissa as int);
        }
        normalize(negative, magnitude, scale)
    }

    /// The unique normalized decimal denoting `±magnitude / 10^scale`, or
    /// `None` when that number cannot be represented.
    pub fn from_sign_magnitude(negative: bool, magnitude: u128, scale: u32) -> (r: Option<Dec>)
        ensures
            r == dec_of_int_scale(signed_of(negative, magnitude), scale as nat),
    {
        normalize(negative, magnitude, scale)
    }

    /// Zero.
    pub fn zero() -> (r: Dec)
        ensures
            r == dec_zero(),
    {
        Dec { negative: false, magnitude: 0, scale: 0 }
    }

    /// Exact negation; always representable.
    pub fn neg(&self) -> (r: Dec)
        ensures
            r == spec_dec_neg(*self),
    {
        if self.magnitude == 0 {
            *self
        } else {
            Dec { negative: !self.negative, magnitude: self.magnitude, scale: self.scale }
        }
    }
}

/// `|x|`.
pub open spec fn iabs(x: int) -> int {
    if x < 0 {
        -x
    } else {
        x
    }
}

impl Dec {
    /// Exact addition: the sum, or `None` when the sum has no representation
    /// within the magnitude and scale bounds. Never rounds.
    pub fn checked_add(&self, other: &Dec) -> (r: Option<Dec>)
        requires
            dec_wf(*self),
            dec_wf(*other),
        ensures
            r == spec_dec_add(*self, *other),
    {
        let (lo, hi) = if self.scale <= other.scale {
            (*self, *other)
        } else {
            (*other, *self)
        };
        proof {
            assert(spec_dec_add(*self, *other) == spec_dec_add(lo, hi));
        }
        let d = hi.scale - lo.scale;
        let f = pow10_u128(d);
        proof {
            lemma_pow10_pos(d as nat);
            lemma_add_reduces_to_common_scale(lo, hi);
        }
        let ghost s_int: int = mantissa_of(lo) * pow10(d as nat) + mantissa_of(hi);
        match lo.magnitude.checked_mul(f) {
            None => {
                proof {
                    assert(d > 0) by {
                        if d == 0 {
                            assert(pow10(0) == 1);
                            assert(lo.magnitude * 1 == lo.magnitude) by (nonlinear_arith);
                        }
                    }
                    assert(iabs(s_int) > u128::MAX - MANTISSA_LIMIT) by {
                        lemma_signed_mul_pow(lo.negative, lo.magnitude, d as nat);
                        assert(lo.magnitude * pow10(d as nat) > u128::MAX);
                    }
                    lemma_unstrippable_overflow(lo, hi, d as nat, s_int);
                }
                None
            },
            Some(lm) => {
                proof {
                    lemma_signed_mul_pow(lo.negative, lo.magnitude, d as nat);
                }
                if lo.negative == hi.negative {
                    match lm.checked_add(hi.magnitude) {
                        None => {
                            proof {
                                assert(d > 0) by {
                                    if d == 0 {
                                        assert(pow10(0) == 1);
                                        assert(lo.magnitude * 1 == lo.magnitude)
                                            by (nonlinear_arith);
                                    }
                                }
                                assert(iabs(s_int) == lm + hi.magnitude);
                                lemma_unstrippable_overflow(lo, hi, d as nat, s_int);
                            }
                            None
                        },
                        Some(msum) => {
                            proof {
                                assert(signed_of(lo.negative, msum) == s_int);
                            }
                            normalize(lo.negative, msum, hi.scale)
                        },
                    }
                } else {
                    if lm >= hi.magnitude {
                        proof {
                            assert(signed_of(lo.negative, (lm - hi.magnitude) as u128) == s_int);
                        }
                        normalize(lo.negative, lm - hi.magnitude, hi.scale)
                    } else {
                        proof {
                            assert(signed_of(hi.negative, (hi.magnitude - lm) as u128) == s_int);
                        }
                        normalize(hi.negative, hi.magnitude - lm, hi.scale)
                    }
                }
            },
        }
    }

    /// Exact multiplication: the product, or `None` when the product has no
    /// representation within the bounds or its raw mantissa product exceeds
    /// `u128::MAX`. Never rounds.
    pub fn checked_mul(&self, other: &Dec) -> (r: Option<Dec>)
        requires
            dec_wf(*self),
            dec_wf(*other),
        ensures
            r == spec_dec_mul(*self, *other),
    {
        match self.magnitude.checked_mul(other.magnitude) {
            None => None,
            Some(p) => {
                let negative = self.negative != other.negative;
                proof {
                    assert(signed_of(negative, p) == mantissa_of(*self) * mantissa_of(*other))
                        by (nonlinear_arith)
                        requires
                            p == self.magnitude * other.magnitude,
                            negative == (self.negative != other.negative),
                    ;
                }
                normalize(negative, p, self.scale + other.scale)
            },
        }
    }

    /// Whether `|self| > |other|`, exactly.
    pub fn abs_gt(&self, other: &Dec) -> (r: bool)
        requires
            dec_wf(*self),
            dec_wf(*other),
        ensures
            r == (iabs(dec_value(*self)) > iabs(dec_value(*other))),
    {
        let (lo, hi, flipped) = if self.scale <= other.scale {
            (*self, *other, false)
        } else {
            (*other, *self, true)
        };
        let f = pow10_u128(hi.scale - lo.scale);
        proof {
            lemma_pow10_pos((hi.scale - lo.scale) as nat);
            lemma_abs_cmp_common_scale(lo, hi);
        }
        match lo.magnitude.checked_mul(f) {
            None => {
                proof {
                    assert(lo.magnitude * f > hi.magnitude);
                }
                !flipped
            },
            Some(x) => {
                if flipped {
                    x < hi.magnitude
                } else {
                    x > hi.magnitude
                }
            },
        }
    }
}

/// `±mag * 10^k == ±(mag * 10^k)`.
proof fn lemma_signed_mul_pow(negative: bool, mag: u128, k: nat)
    ensures
        signed_of(negative, mag) * pow10(k) == if negative {
            -(mag * pow10(k))
        } else {
            mag * pow10(k)
        },
{
    if negative {
        assert((-(mag as int)) * pow10(k) == -((mag as int) * pow10(k))) by (nonlinear_arith);
    }
}

/// Adding two decimals reduces to one mantissa sum at the larger scale:
/// stripping the common power of ten of the smaller scale does not change
/// the canonical form.
proof fn lemma_add_reduces_to_common_scale(lo: Dec, hi: Dec)
    requires
        lo.scale <= hi.scale,
    ensures
        spec_dec_add(lo, hi) == dec_of_int_scale(
            mantissa_of(lo) * pow10((hi.scale - lo.scale) as nat) + mantissa_of(hi),
            hi.scale as nat,
        ),
{
    let d = (hi.scale - lo.scale) as nat;
    let s_int = mantissa_of(lo) * pow10(d) + mantissa_of(hi);
    let num = mantissa_of(lo) * pow10(hi.scale as nat) + mantissa_of(hi) * pow10(lo.scale as nat);
    lemma_pow10_adds(d, lo.scale as nat);
    assert(pow10(hi.scale as nat) == pow10(d) * pow10(lo.scale as nat));
    assert(mantissa_of(lo) * (pow10(d) * pow10(lo.scale as nat)) == (mantissa_of(lo) * pow10(d))
        * pow10(lo.scale as nat)) by (nonlinear_arith);
    assert(num == s_int * pow10(lo.scale as nat)) by (nonlinear_arith)
        requires
            num == (mantissa_of(lo) * pow10(d)) * pow10(lo.scale as nat) + mantissa_of(hi) * pow10(
                lo.scale as nat,
            ),
            s_int == mantissa_of(lo) * pow10(d) + mantissa_of(hi),
    ;
    lemma_strip_shift(s_int, hi.scale as nat, lo.scale as nat);
    assert(strip_zeros(num, (lo.scale + hi.scale) as nat) == strip_zeros(s_int, hi.scale as nat));
}

/// When the mantissa sum at the larger scale is too large for a `u128` it is
/// not divisible by ten, so the sum has no representation at all.
proof fn lemma_unstrippable_overflow(lo: Dec, hi: Dec, d: nat, s_int: int)
    requires
        dec_wf(lo),
        dec_wf(hi),
        lo.scale < hi.scale,
        d == hi.scale - lo.scale,
        s_int == mantissa_of(lo) * pow10(d) + mantissa_of(hi),
        iabs(s_int) > u128::MAX - MANTISSA_LIMIT,
    ensures
        dec_of_int_scale(s_int, hi.scale as nat) == None::<Dec>,
        spec_dec_add(lo, hi) == None::<Dec>,
{
    lemma_add_reduces_to_common_scale(lo, hi);
    // The larger-scale operand has a positive scale, so by normalization its
    // mantissa is not divisible by ten; the scaled smaller mantissa is.
    assert(hi.magnitude % 10 != 0);
    let lp = mantissa_of(lo) * pow10(d);
    assert(lp % 10 == 0) by {
        lemma_pow10_adds(1, (d - 1) as nat);
        assert(pow10(d) == 10 * pow10((d - 1) as nat));
        assert(mantissa_of(lo) * (10 * pow10((d - 1) as nat)) == 10 * (mantissa_of(lo) * pow10(
            (d - 1) as nat,
        ))) by (nonlinear_arith);
        let q = mantissa_of(lo) * pow10((d - 1) as nat);
        assert(lp == 10 * q);
        assert((10 * q) % 10 == 0) by (nonlinear_arith);
    }
    assert(mantissa_of(hi) % 10 != 0) by {
        let mag = hi.magnitude as int;
        if hi.negative {
            assert((-mag) % 10 == 0 ==> mag % 10 == 0) by (nonlinear_arith);
        }
    }
    assert(s_int % 10 != 0) by {
        let q = lp / 10;
        assert(lp == 10 * q);
        assert(s_int == 10 * q + mantissa_of(hi));
        assert((10 * q + mantissa_of(hi)) % 10 == mantissa_of(hi) % 10) by (nonlinear_arith);
    }
    assert(strip_zeros(s_int, hi.scale as nat) == (s_int, hi.scale as nat));
}

/// At a common scale, comparing magnitudes compares absolute values.
proof fn lemma_abs_cmp_common_scale(lo: Dec, hi: Dec)
    requires
        dec_wf(lo),
        dec_wf(hi),
        lo.scale <= hi.scale,
    ensures
        (iabs(dec_value(lo)) > iabs(dec_value(hi))) == (lo.magnitude * pow10(
            (hi.scale - lo.scale) as nat,
        ) > hi.magnitude),
        (iabs(dec_value(hi)) > iabs(dec_value(lo))) == (lo.magnitude * pow10(
            (hi.scale - lo.scale) as nat,
        ) < hi.magnitude),
{
    let d = (hi.scale - lo.scale) as nat;
    let e = (56 - hi.scale) as nat;
    lemma_pow10_pos(e);
    lemma_pow10_pos(d);
    lemma_pow10_pos((56 - lo.scale) as nat);
    assert(iabs(dec_value(lo)) == lo.magnitude * pow10((56 - lo.scale) as nat)) by {
        lemma_signed_mul_pow(lo.negative, lo.magnitude, (56 - lo.scale) as nat);
        assert(lo.magnitude * pow10((56 - lo.scale) as nat) >= 0) by (nonlinear_arith)
            requires
                pow10((56 - lo.scale) as nat) >= 1,
        ;
    }
    assert(iabs(dec_value(hi)) == hi.magnitude * pow10(e)) by {
        lemma_signed_mul_pow(hi.negative, hi.magnitude, e);
        assert(hi.magnitude * pow10(e) >= 0) by (nonlinear_arith)
            requires
                pow10(e) >= 1,
        ;
    }
    lemma_pow10_adds(d, e);
    assert(pow10((56 - lo.scale) as nat) == pow10(d) * pow10(e));
    assert(lo.magnitude * (pow10(d) * pow10(e)) == (lo.magnitude * pow10(d)) * pow10(e))
        by (nonlinear_arith);
    assert(((lo.magnitude * pow10(d)) * pow10(e) > hi.magnitude * pow10(e)) == (lo.magnitude
        * pow10(d) > hi.magnitude)) by (nonlinear_arith)
        requires
            pow10(e) >= 1,
    ;
    assert(((lo.magnitude * pow10(d)) * pow10(e) < hi.magnitude * pow10(e)) == (lo.magnitude
        * pow10(d) < hi.magnitude)) by (nonlinear_arith)
        requires
            pow10(e) >= 1,
    ;
}

/// Zero is representable at every scale, as the zero decimal.
pub proof fn lemma_of_zero(scale: nat)
    ensures
        dec_of_int_scale(0, scale) == Some(dec_zero()),
    decreases scale,
{
    if scale > 0 {
        lemma_of_zero((scale - 1) as nat);
    }
}

/// A nonzero mantissa that fits a `u128` cannot carry a scale of 67 or
/// more: stripping can remove at most 38 factors of ten from it, leaving
/// the scale above the bound.
pub proof fn lemma_large_scale_none(num: int, scale: nat)
    requires
        num != 0,
        iabs(num) <= u128::MAX,
        scale >= 67,
    ensures
        dec_of_int_scale(num, scale) == None::<Dec>,
{
    lemma_strip_properties(num, scale);
    let (m2, s2) = strip_zeros(num, scale);
    if s2 <= MAX_SCALE {
        let k = (scale - s2) as nat;
        assert(k >= 39);
        // From the strip identity, num == m2 * 10^k.
        lemma_pow10_adds(k, s2);
        lemma_pow10_pos(s2);
        lemma_pow10_pos(k);
        let p2 = pow10(s2);
        let pk = pow10(k);
        assert(m2 * (pk * p2) == (m2 * pk) * p2) by (nonlinear_arith);
        assert(m2 * pow10(scale) == (m2 * pk) * p2);
        assert((m2 * pk) * p2 == num * p2);
        assert(m2 * pk == num) by (nonlinear_arith)
            requires
                (m2 * pk) * p2 == num * p2,
                p2 >= 1,
        ;
        assert(pow10(39) == 1000000000000000000000000000000000000000) by {
            reveal_with_fuel(pow10, 40);
        }
        lemma_pow10_monotone(39, k);
        assert(iabs(m2) >= 1);
        assert(iabs(num) >= pk) by (nonlinear_arith)
            requires
                num == m2 * pk,
                iabs(m2) >= 1,
                pk >= 1,
        ;
        assert(false);
    }
}

/// A successful [`dec_of_int_scale`] yields a well-formed decimal.
pub proof fn lemma_of_int_scale_wf(num: int, scale: nat)
    requires
        dec_of_int_scale(num, scale) is Some,
    ensures
        dec_wf(dec_of_int_scale(num, scale)->Some_0),
{
    lemma_strip_properties(num, scale);
}

/// A successful [`dec_of_int_scale`] yields a well-formed decimal whose
/// value is exactly `num / 10^scale` (in units of `10^-56`).
pub proof fn lemma_of_int_scale_value(num: int, scale: nat)
    requires
        scale <= 56,
        dec_of_int_scale(num, scale) is Some,
    ensures
        dec_wf(dec_of_int_scale(num, scale)->Some_0),
        dec_value(dec_of_int_scale(num, scale)->Some_0) == num * pow10((56 - scale) as nat),
{
    let c = dec_of_int_scale(num, scale)->Some_0;
    lemma_strip_properties(num, scale);
    let (m2, s2) = strip_zeros(num, scale);
    assert(mantissa_of(c) == m2);
    assert(m2 * pow10(scale) == num * pow10(s2));
    let e = (56 - scale) as nat;
    let e2 = (56 - s2) as nat;
    // Multiply the strip identity by 10^(56 - scale) and cancel 10^s2,
    // using s2 + e2 == scale + e == 56.
    assert(pow10(s2) * pow10(e2) == pow10(scale) * pow10(e)) by {
        lemma_pow10_adds(s2, e2);
        lemma_pow10_adds(scale, e);
    }
    let p2 = pow10(s2);
    let goal_l = m2 * pow10(e2);
    let goal_r = num * pow10(e);
    assert(goal_l * p2 == goal_r * p2) by (nonlinear_arith)
        requires
            goal_l == m2 * pow10(e2),
            goal_r == num * pow10(e),
            m2 * pow10(scale) == num * pow10(s2),
            pow10(s2) * pow10(e2) == pow10(scale) * pow10(e),
            p2 == pow10(s2),
    ;
    lemma_pow10_pos(s2);
    assert(goal_l == goal_r) by (nonlinear_arith)
        requires
            goal_l * p2 == goal_r * p2,
            p2 >= 1,
    ;
}

/// A successful exact addition is well-formed and adds the values.
pub proof fn lemma_add_value(a: Dec, b: Dec)
    requires
        dec_wf(a),
        dec_wf(b),
        spec_dec_add(a, b) is Some,
    ensures
        dec_wf(spec_dec_add(a, b)->Some_0),
        dec_value(spec_dec_add(a, b)->Some_0) == dec_value(a) + dec_value(b),
{
    let num = mantissa_of(a) * pow10(b.scale as nat) + mantissa_of(b) * pow10(a.scale as nat);
    let scale = (a.scale + b.scale) as nat;
    lemma_of_int_scale_value(num, scale);
    let e = (56 - scale) as nat;
    assert(num * pow10(e) == dec_value(a) + dec_value(b)) by {
        lemma_pow10_adds(b.scale as nat, e);
        lemma_pow10_adds(a.scale as nat, e);
        assert(pow10(b.scale as nat) * pow10(e) == pow10((56 - a.scale) as nat));
        assert(pow10(a.scale as nat) * pow10(e) == pow10((56 - b.scale) as nat));
        let ma = mantissa_of(a);
        let mb = mantissa_of(b);
        let pa = pow10(a.scale as nat);
        let pb = pow10(b.scale as nat);
        let pe = pow10(e);
        assert((ma * pb + mb * pa) * pe == ma * (pb * pe) + mb * (pa * pe)) by (nonlinear_arith);
    }
}

/// Adding zero is the identity.
pub proof fn lemma_add_zero(a: Dec)
    requires
        dec_wf(a),
    ensures
        spec_dec_add(dec_zero(), a) == Some(a),
        spec_dec_add(a, dec_zero()) == Some(a),
{
    let num = mantissa_of(a);
    assert(mantissa_of(dec_zero()) == 0);
    assert(pow10(0) == 1);
    assert(0 * pow10(a.scale as nat) == 0) by (nonlinear_arith);
    assert(mantissa_of(a) * 1 == mantissa_of(a)) by (nonlinear_arith);
    assert(num % 10 != 0 || a.scale == 0) by {
        if a.negative && a.magnitude % 10 != 0 {
            assert(a.magnitude == 10 * (a.magnitude as int / 10) + a.magnitude % 10);
            assert((-(a.magnitude as int)) % 10 != 0) by (nonlinear_arith)
                requires
                    a.magnitude % 10 != 0,
            ;
        }
    }
    assert(strip_zeros(num, a.scale as nat) == (num, a.scale as nat));
    assert(spec_dec_add(dec_zero(), a) == Some(a));
    assert(spec_dec_add(a, dec_zero()) == Some(a));
}

/// A successful exact multiplication is well-formed and multiplies the
/// values: the result denotes `(ma * mb) / 10^(sa + sb)`.
pub proof fn lemma_mul_value(a: Dec, b: Dec)
    requires
        dec_wf(a),
        dec_wf(b),
        spec_dec_mul(a, b) is Some,
    ensures
        dec_wf(spec_dec_mul(a, b)->Some_0),
        dec_value(spec_dec_mul(a, b)->Some_0) == mantissa_of(a) * mantissa_of(b) * pow10(
            (56 - a.scale - b.scale) as nat,
        ),
{
    lemma_of_int_scale_value(mantissa_of(a) * mantissa_of(b), (a.scale + b.scale) as nat);
}

/// Each number has exactly one well-formed representation: for normalized
/// decimals, structural equality coincides with equality of the denoted
/// numbers.
pub proof fn lemma_value_unique(a: Dec, b: Dec)
    requires
        dec_wf(a),
        dec_wf(b),
        dec_value(a) == dec_value(b),
    ensures
        a == b,
{
    let (lo, hi) = if a.scale <= b.scale {
        (a, b)
    } else {
        (b, a)
    };
    let d = (hi.scale - lo.scale) as nat;
    let e = (56 - hi.scale) as nat;
    lemma_pow10_pos(e);
    lemma_pow10_pos(d);
    lemma_pow10_adds(d, e);
    assert(pow10((56 - lo.scale) as nat) == pow10(d) * pow10(e));
    assert(mantissa_of(lo) * (pow10(d) * pow10(e)) == (mantissa_of(lo) * pow10(d)) * pow10(e))
        by (nonlinear_arith);
    assert((mantissa_of(lo) * pow10(d)) * pow10(e) == mantissa_of(hi) * pow10(e));
    assert(mantissa_of(lo) * pow10(d) == mantissa_of(hi)) by (nonlinear_arith)
        requires
            (mantissa_of(lo) * pow10(d)) * pow10(e) == mantissa_of(hi) * pow10(e),
            pow10(e) >= 1,
    ;
    if d > 0 {
        // The larger scale is positive, so its mantissa is not divisible by
        // ten; but it equals the smaller mantissa times a power of ten.
        assert(hi.scale > 0);
        assert(hi.magnitude % 10 != 0);
        lemma_pow10_adds(1, (d - 1) as nat);
        assert(pow10(d) == 10 * pow10((d - 1) as nat));
        let q = mantissa_of(lo) * pow10((d - 1) as nat);
        assert(mantissa_of(lo) * (10 * pow10((d - 1) as nat)) == 10 * q) by (nonlinear_arith)
            requires
                q == mantissa_of(lo) * pow10((d - 1) as nat),
        ;
        assert(mantissa_of(hi) == 10 * q);
        assert(mantissa_of(hi) % 10 == 0) by (nonlinear_arith)
            requires
                mantissa_of(hi) == 10 * q,
        ;
        assert(mantissa_of(hi) % 10 != 0) by {
            if hi.negative {
                assert((-(hi.magnitude as int)) % 10 == 0 ==> hi.magnitude % 10 == 0)
                    by (nonlinear_arith);
            }
        }
        assert(false);
    }
    assert(pow10(0) == 1);
    assert(mantissa_of(lo) * 1 == mantissa_of(lo)) by (nonlinear_arith);
    assert(mantissa_of(lo) == mantissa_of(hi));
    assert(lo == hi);
}

/// Negation preserves well-formedness and negates the value.
pub proof fn lemma_neg_value(d: Dec)
    requires
        dec_wf(d),
    ensures
        dec_wf(spec_dec_neg(d)),
        dec_value(spec_dec_neg(d)) == -dec_value(d),
        spec_dec_neg(spec_dec_neg(d)) == d,
{
    let n = spec_dec_neg(d);
    assert(mantissa_of(n) == -mantissa_of(d));
    assert((-mantissa_of(d)) * pow10((56 - d.scale) as nat) == -(mantissa_of(d) * pow10(
        (56 - d.scale) as nat,
    ))) by (nonlinear_arith);
}

} // verus!
