//! Saturating signed fixed-point arithmetic with twenty-two fractional bits
//! and whole parts up to 524288.
//!
//! Every operation is total: results that do not fit are clamped to the
//! range, which is the same on both sides of zero, and quotients are rounded
//! toward zero.

use vstd::prelude::*;
use vstd::std_specs::ops::AddSpecImpl;
use vstd::std_specs::ops::DivSpecImpl;
use vstd::std_specs::ops::MulSpecImpl;
use vstd::std_specs::ops::NegSpecImpl;
use vstd::std_specs::ops::SubSpecImpl;

verus! {

/// The raw representation of the number one.
pub const ONE_RAW: i64 = 0x40_0000;

/// The largest raw value; the smallest is its opposite.
pub const MAX_RAW: i64 = 0x200_0000_0000;

/// The raw scale as a mathematical integer: two to the power twenty-two.
pub open spec fn scale() -> int {
    0x40_0000
}

/// The largest raw value as a mathematical integer: two to the power
/// forty-one.
pub open spec fn limit() -> int {
    0x200_0000_0000
}

/// A signed fixed-point number with twenty-two fractional bits.
///
/// The raw integer `raw` stands for the rational number `raw / 4194304`.
/// Every operation yields a raw value between `-MAX_RAW` and `MAX_RAW`; a
/// raw value beyond these, which only a literal can give, counts as the
/// nearest of the two.
#[derive(Copy, Clone, Debug, PartialEq, Eq, Structural, PartialOrd, Ord, Hash)]
pub struct Fixed {
    pub raw: i64,
}

impl View for Fixed {
    type V = int;

    open spec fn view(&self) -> int {
        sat(self.raw as int)
    }
}

/// Clamps an integer into the range of raw values.
pub open spec fn sat(v: int) -> int {
    if v < -limit() {
        -limit()
    } else if v > limit() {
        limit()
    } else {
        v
    }
}

/// The quotient of `a` by a nonzero `b`, rounded toward zero.
pub open spec fn trunc_div(a: int, b: int) -> int {
    if a >= 0 {
        if b > 0 {
            a / b
        } else {
            -(a / (-b))
        }
    } else {
        if b > 0 {
            -((-a) / b)
        } else {
            (-a) / (-b)
        }
    }
}

/// The fixed-point value with the given raw integer, clamped into the
/// range.
pub open spec fn fx(raw: int) -> Fixed {
    Fixed { raw: sat(raw) as i64 }
}

/// Raw value of the saturated quotient of two integers, rounded toward
/// zero; division by zero saturates by the sign of `n`.
pub open spec fn quot_raw(n: int, d: int) -> int {
    if d == 0 {
        if n > 0 {
            limit()
        } else if n < 0 {
            -limit()
        } else {
            0
        }
    } else {
        sat(trunc_div(n, d))
    }
}

/// Raw value of the quotient `n / d` of two integers as a fixed-point
/// number.
pub open spec fn ratio_raw(n: int, d: int) -> int {
    quot_raw(n * scale(), d)
}

/// The whole number `i` as a fixed-point value, saturated.
pub open spec fn whole(i: int) -> Fixed {
    fx(sat(i * scale()))
}

/// The quotient `n / d` of two whole numbers as a fixed-point value.
pub open spec fn frac(n: int, d: int) -> Fixed {
    fx(ratio_raw(n, d))
}

impl Fixed {
    /// Raw value of the saturated sum.
    pub open spec fn add_raw(self, rhs: Fixed) -> int {
        sat(self@ + rhs@)
    }

    /// Raw value of the saturated difference.
    pub open spec fn sub_raw(self, rhs: Fixed) -> int {
        sat(self@ - rhs@)
    }

    /// Raw value of the saturated product, rounded toward zero.
    pub open spec fn mul_raw(self, rhs: Fixed) -> int {
        sat(trunc_div(self@ * rhs@, scale()))
    }

    /// Raw value of the saturated quotient, rounded toward zero.
    pub open spec fn div_raw(self, rhs: Fixed) -> int {
        ratio_raw(self@, rhs@)
    }

    /// The saturated sum as a value.
    pub open spec fn plus(self, rhs: Fixed) -> Fixed {
        fx(self.add_raw(rhs))
    }

    /// The saturated difference as a value.
    pub open spec fn minus(self, rhs: Fixed) -> Fixed {
        fx(self.sub_raw(rhs))
    }

    /// The saturated product as a value.
    pub open spec fn times(self, rhs: Fixed) -> Fixed {
        fx(self.mul_raw(rhs))
    }

    /// The saturated quotient as a value.
    pub open spec fn over(self, rhs: Fixed) -> Fixed {
        fx(self.div_raw(rhs))
    }

    /// The saturated negation as a value.
    pub open spec fn negated(self) -> Fixed {
        fx(sat(-self@))
    }

    /// The value with the given raw representation, clamped into the
    /// range.
    pub fn from_raw(raw: i64) -> (r: Fixed)
        ensures
            r == fx(raw as int),
            r@ == sat(raw as int),
    {
        saturate(raw as i128)
    }

    /// The raw representation, clamped into the range.
    pub fn value(self) -> (r: i64)
        ensures
            r == self@,
    {
        if self.raw < -MAX_RAW {
            -MAX_RAW
        } else if self.raw > MAX_RAW {
            MAX_RAW
        } else {
            self.raw
        }
    }

    /// The number zero.
    pub fn zero() -> (r: Fixed)
        ensures
            r == fx(0),
            r@ == 0,
    {
        Fixed { raw: 0 }
    }

    /// The number one.
    pub fn one() -> (r: Fixed)
        ensures
            r == fx(scale()),
            r@ == scale(),
    {
        Fixed { raw: ONE_RAW }
    }

    /// The whole number `i`, saturated.
    pub fn from_int(i: i32) -> (r: Fixed)
        ensures
            r == whole(i as int),
            r@ == sat(i * scale()),
    {
        saturate(i as i128 * 0x40_0000)
    }

    /// The quotient `n / d` of two whole numbers, rounded toward zero and
    /// saturated; a zero denominator saturates by the sign of `n`.
    pub fn ratio(n: i32, d: i32) -> (r: Fixed)
        ensures
            r == frac(n as int, d as int),
            r@ == ratio_raw(n as int, d as int),
    {
        quotient(n as i128 * 0x40_0000, d as i128)
    }

    /// The whole part, rounded toward zero.
    pub fn trunc(self) -> (r: i32)
        ensures
            r == trunc_div(self@, scale()),
    {
        (self.value() / ONE_RAW) as i32
    }

    /// Whether this value is strictly below `rhs`.
    pub fn lt(self, rhs: Fixed) -> (r: bool)
        ensures
            r == (self@ < rhs@),
    {
        self.value() < rhs.value()
    }

    /// Whether this value is at most `rhs`.
    pub fn le(self, rhs: Fixed) -> (r: bool)
        ensures
            r == (self@ <= rhs@),
    {
        self.value() <= rhs.value()
    }

    /// Whether this value is zero.
    pub fn is_zero(self) -> (r: bool)
        ensures
            r == (self@ == 0),
    {
        self.value() == 0
    }
}

impl AddSpecImpl for Fixed {
    open spec fn obeys_add_spec() -> bool {
        true
    }

    open spec fn add_req(self, rhs: Fixed) -> bool {
        true
    }

    open spec fn add_spec(self, rhs: Fixed) -> Fixed {
        self.plus(rhs)
    }
}

/// Saturating addition.
impl core::ops::Add for Fixed {
    type Output = Fixed;

    fn add(self, rhs: Fixed) -> Fixed {
        saturate(self.value() as i128 + rhs.value() as i128)
    }
}

impl SubSpecImpl for Fixed {
    open spec fn obeys_sub_spec() -> bool {
        true
    }

    open spec fn sub_req(self, rhs: Fixed) -> bool {
        true
    }

    open spec fn sub_spec(self, rhs: Fixed) -> Fixed {
        self.minus(rhs)
    }
}

/// Saturating subtraction.
impl core::ops::Sub for Fixed {
    type Output = Fixed;

    fn sub(self, rhs: Fixed) -> Fixed {
        saturate(self.value() as i128 - rhs.value() as i128)
    }
}

impl MulSpecImpl for Fixed {
    open spec fn obeys_mul_spec() -> bool {
        true
    }

    open spec fn mul_req(self, rhs: Fixed) -> bool {
        true
    }

    open spec fn mul_spec(self, rhs: Fixed) -> Fixed {
        self.times(rhs)
    }
}

/// Saturating multiplication, rounded toward zero.
impl core::ops::Mul for Fixed {
    type Output = Fixed;

    fn mul(self, rhs: Fixed) -> Fixed {
        let a: i128 = self.value() as i128;
        let b: i128 = rhs.value() as i128;
        proof {
            lemma_product_bound(a as int, b as int, limit());
        }
        let p: i128 = a * b;
        saturate(p / 0x40_0000)
    }
}

impl DivSpecImpl for Fixed {
    open spec fn obeys_div_spec() -> bool {
        true
    }

    open spec fn div_req(self, rhs: Fixed) -> bool {
        true
    }

    open spec fn div_spec(self, rhs: Fixed) -> Fixed {
        self.over(rhs)
    }
}

/// Saturating division, rounded toward zero; division by zero saturates by
/// the sign of the dividend.
impl core::ops::Div for Fixed {
    type Output = Fixed;

    fn div(self, rhs: Fixed) -> Fixed {
        quotient(self.value() as i128 * 0x40_0000, rhs.value() as i128)
    }
}

impl NegSpecImpl for Fixed {
    open spec fn obeys_neg_spec() -> bool {
        true
    }

    open spec fn neg_req(self) -> bool {
        true
    }

    open spec fn neg_spec(self) -> Fixed {
        self.negated()
    }
}

/// Saturating negation.
impl core::ops::Neg for Fixed {
    type Output = Fixed;

    fn neg(self) -> Fixed {
        saturate(-(self.value() as i128))
    }
}

/// Whether `r` is the integer square root of `n`.
pub open spec fn is_sqrt(n: int, r: int) -> bool {
    0 <= r && r * r <= n < (r + 1) * (r + 1)
}

/// The integer square root of `n`: the largest `r` with `r * r <= n`.
pub open spec fn isqrt(n: int) -> int {
    choose|r: int| is_sqrt(n, r)
}

/// An integer has at most one integer square root.
pub proof fn lemma_sqrt_unique(n: int, r1: int, r2: int)
    requires
        is_sqrt(n, r1),
        is_sqrt(n, r2),
    ensures
        r1 == r2,
{
    if r1 < r2 {
        assert((r1 + 1) * (r1 + 1) <= r2 * r2) by (nonlinear_arith)
            requires
                0 <= r1,
                r1 + 1 <= r2,
        ;
    }
    if r2 < r1 {
        assert((r2 + 1) * (r2 + 1) <= r1 * r1) by (nonlinear_arith)
            requires
                0 <= r2,
                r2 + 1 <= r1,
        ;
    }
}

/// Computes the integer square root by bisection.
pub fn int_sqrt(n: u128) -> (r: u64)
    ensures
        is_sqrt(n as int, r as int),
        r as int == isqrt(n as int),
{
    let mut lo: u128 = 0;
    let mut hi: u128 = 0x1_0000_0000_0000_0000;
    proof {
        assert(0x1_0000_0000_0000_0000 * 0x1_0000_0000_0000_0000 > u128::MAX) by (nonlinear_arith);
    }
    while hi - lo > 1
        invariant
            lo < hi <= 0x1_0000_0000_0000_0000,
            lo * lo <= n < hi * hi,
        decreases hi - lo,
    {
        let mid: u128 = lo + (hi - lo) / 2;
        proof {
            lemma_product_bound(mid as int, mid as int, 0xffff_ffff_ffff_ffff);
            assert(0xffff_ffff_ffff_ffff * 0xffff_ffff_ffff_ffff <= u128::MAX) by (nonlinear_arith);
        }
        if mid * mid <= n {
            lo = mid;
        } else {
            hi = mid;
        }
    }
    proof {
        assert(is_sqrt(n as int, lo as int));
        lemma_sqrt_unique(n as int, lo as int, isqrt(n as int));
    }
    lo as u64
}

/// Clamps a wide integer into a fixed-point value.
pub fn saturate(v: i128) -> (r: Fixed)
    ensures
        r@ == sat(v as int),
        r == fx(v as int),
        r == fx(sat(v as int)),
{
    if v < -(MAX_RAW as i128) {
        Fixed { raw: -MAX_RAW }
    } else if v > MAX_RAW as i128 {
        Fixed { raw: MAX_RAW }
    } else {
        Fixed { raw: v as i64 }
    }
}

/// The saturated quotient of two wide integers, rounded toward zero; a zero
/// divisor saturates by the sign of the dividend.
pub fn quotient(n: i128, d: i128) -> (r: Fixed)
    requires
        i128::MIN < n,
        i128::MIN < d,
    ensures
        r@ == quot_raw(n as int, d as int),
        r == fx(quot_raw(n as int, d as int)),
{
    if d == 0 {
        if n > 0 {
            Fixed { raw: MAX_RAW }
        } else if n < 0 {
            Fixed { raw: -MAX_RAW }
        } else {
            Fixed { raw: 0 }
        }
    } else if d > 0 {
        proof {
            lemma_trunc_div_bound(n as int, d as int);
        }
        saturate(n / d)
    } else {
        proof {
            lemma_trunc_div_bound(-n as int, -d as int);
        }
        saturate((-n) / (-d))
    }
}

/// A product of two integers bounded by `m` in magnitude is bounded by
/// `m * m`.
pub proof fn lemma_product_bound(a: int, b: int, m: int)
    requires
        -m <= a <= m,
        -m <= b <= m,
    ensures
        -(m * m) <= a * b <= m * m,
{
    assert(-(m * m) <= a * b <= m * m) by (nonlinear_arith)
        requires
            -m <= a <= m,
            -m <= b <= m,
    ;
}

/// A product of two integers bounded in magnitude, the one by `ma` and the
/// other by `mb`, is bounded by `ma * mb`.
pub proof fn lemma_product_bounds(a: int, b: int, ma: int, mb: int)
    requires
        -ma <= a <= ma,
        -mb <= b <= mb,
    ensures
        -(ma * mb) <= a * b <= ma * mb,
{
    assert(-(ma * mb) <= a * b <= ma * mb) by (nonlinear_arith)
        requires
            -ma <= a <= ma,
            -mb <= b <= mb,
    ;
}

/// Rounding toward zero never increases the magnitude of the dividend.
pub proof fn lemma_trunc_div_bound(a: int, b: int)
    requires
        b != 0,
    ensures
        a >= 0 ==> -a <= trunc_div(a, b) <= a,
        a < 0 ==> a <= trunc_div(a, b) <= -a,
{
    let ma = if a >= 0 { a } else { -a };
    let mb = if b > 0 { b } else { -b };
    assert(0 <= ma / mb <= ma) by (nonlinear_arith)
        requires
            ma >= 0,
            mb > 0,
    ;
}

} // verus!
