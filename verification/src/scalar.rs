//! Single precision numbers, held as their bit patterns.
//!
//! A [`Scalar`] is compared, never computed with: the order of two numbers, their maximum and the
//! sign of a number can all be read off the bits.
use vstd::arithmetic::power2::{lemma_pow2_adds, lemma_pow2_pos, lemma_pow2_unfold, pow2};
use vstd::prelude::*;

verus! {

/// A number in the IEEE 754 single precision format.
///
/// `==` compares the bits. Use [`Scalar::num_eq`] to compare the numbers, to which both zeros are
/// the same and a NaN is different from everything.
#[derive(Clone, Copy, PartialEq, Eq, Structural, Debug)]
pub struct Scalar {
    /// From the most significant bit: one bit of sign, eight of exponent, 23 of fraction.
    pub bits: u32,
}

/// The bit pattern of positive infinity, and the largest pattern of a positive number.
pub const INFINITY_BITS: u32 = 0x7f80_0000;

/// The weight of the sign bit.
pub const SIGN_BIT: u32 = 0x8000_0000;

/// The weight of the lowest bit of the exponent.
pub const EXPONENT_UNIT: u32 = 0x80_0000;

/// The number that a bit pattern without a sign stands for, in units of 2^-149, which is the
/// distance of the two smallest numbers. Infinity comes right behind the largest finite number.
pub open spec fn magnitude_value(magnitude: int) -> int {
    let exponent = magnitude / EXPONENT_UNIT as int;
    let fraction = magnitude % EXPONENT_UNIT as int;
    if exponent <= 0 {
        fraction
    } else {
        (EXPONENT_UNIT + fraction) * pow2((exponent - 1) as nat)
    }
}

impl Scalar {
    /// Whether the sign bit is set.
    pub open spec fn is_negative(self) -> bool {
        self.bits >= SIGN_BIT
    }

    /// The bits without the sign.
    pub open spec fn magnitude(self) -> int {
        if self.is_negative() {
            self.bits - SIGN_BIT
        } else {
            self.bits as int
        }
    }

    /// Whether the bits stand for no number.
    pub open spec fn is_nan(self) -> bool {
        self.magnitude() > INFINITY_BITS
    }

    /// The number, in units of 2^-149.
    pub open spec fn value(self) -> int {
        if self.is_negative() {
            -magnitude_value(self.magnitude())
        } else {
            magnitude_value(self.magnitude())
        }
    }

    /// `self < other`, which no NaN takes part in.
    pub open spec fn less(self, other: Scalar) -> bool {
        !self.is_nan() && !other.is_nan() && self.value() < other.value()
    }

    /// `self <= other`, which no NaN takes part in.
    pub open spec fn less_or_same(self, other: Scalar) -> bool {
        !self.is_nan() && !other.is_nan() && self.value() <= other.value()
    }

    /// `self == other` as numbers, which no NaN takes part in.
    pub open spec fn same(self, other: Scalar) -> bool {
        !self.is_nan() && !other.is_nan() && self.value() == other.value()
    }

    /// The larger number. Of a number and a NaN it is the number; of two equal numbers, `other`.
    pub open spec fn spec_max(self, other: Scalar) -> Scalar {
        if other.is_nan() || other.less(self) {
            self
        } else {
            other
        }
    }

    /// The smaller number. Of a number and a NaN it is the number; of two equal numbers, `other`.
    pub open spec fn spec_min(self, other: Scalar) -> Scalar {
        if other.is_nan() || self.less(other) {
            self
        } else {
            other
        }
    }

    /// The same bits with the other sign.
    pub open spec fn spec_negated(self) -> Scalar {
        if self.is_negative() {
            Scalar { bits: (self.bits - SIGN_BIT) as u32 }
        } else {
            Scalar { bits: (self.bits + SIGN_BIT) as u32 }
        }
    }

    /// The same bits without the sign.
    pub open spec fn spec_absolute(self) -> Scalar {
        Scalar { bits: self.magnitude() as u32 }
    }

    /// Positive zero.
    pub open spec fn spec_zero() -> Scalar {
        Scalar { bits: 0 }
    }

    /// One.
    pub open spec fn spec_one() -> Scalar {
        Scalar { bits: 0x3f80_0000 }
    }

    /// Zero.
    pub fn zero() -> (r: Scalar)
        ensures
            r == Scalar::spec_zero(),
            r.value() == 0,
            !r.is_nan(),
    {
        Scalar { bits: 0 }
    }

    /// One.
    pub fn one() -> (r: Scalar)
        ensures
            r == Scalar::spec_one(),
    {
        Scalar { bits: 0x3f80_0000 }
    }

    /// Whether this is a NaN.
    pub fn is_not_a_number(self) -> (r: bool)
        ensures
            r == self.is_nan(),
    {
        if self.bits >= SIGN_BIT {
            self.bits - SIGN_BIT > INFINITY_BITS
        } else {
            self.bits > INFINITY_BITS
        }
    }

    /// A number that stands to other such numbers as the scalar does to other scalars.
    fn rank(self) -> (r: i64)
        ensures
            r == if self.is_negative() { -self.magnitude() } else { self.magnitude() },
    {
        if self.bits >= SIGN_BIT {
            -((self.bits - SIGN_BIT) as i64)
        } else {
            self.bits as i64
        }
    }

    /// `self < other`.
    pub fn lt(self, other: Scalar) -> (r: bool)
        ensures
            r == self.less(other),
    {
        proof {
            lemma_rank_orders_values(self, other);
        }
        !self.is_not_a_number() && !other.is_not_a_number() && self.rank() < other.rank()
    }

    /// `self <= other`.
    pub fn le(self, other: Scalar) -> (r: bool)
        ensures
            r == self.less_or_same(other),
    {
        proof {
            lemma_rank_orders_values(self, other);
            lemma_rank_orders_values(other, self);
        }
        !self.is_not_a_number() && !other.is_not_a_number() && self.rank() <= other.rank()
    }

    /// `self == other`, as numbers.
    pub fn num_eq(self, other: Scalar) -> (r: bool)
        ensures
            r == self.same(other),
    {
        proof {
            lemma_rank_orders_values(self, other);
            lemma_rank_orders_values(other, self);
        }
        !self.is_not_a_number() && !other.is_not_a_number() && self.rank() == other.rank()
    }

    /// The larger of two numbers.
    pub fn max(self, other: Scalar) -> (r: Scalar)
        ensures
            r == self.spec_max(other),
    {
        if other.is_not_a_number() || other.lt(self) {
            self
        } else {
            other
        }
    }

    /// The smaller of two numbers.
    pub fn min(self, other: Scalar) -> (r: Scalar)
        ensures
            r == self.spec_min(other),
    {
        if other.is_not_a_number() || self.lt(other) {
            self
        } else {
            other
        }
    }

    /// The number with its sign changed.
    pub fn negated(self) -> (r: Scalar)
        ensures
            r == self.spec_negated(),
    {
        if self.bits >= SIGN_BIT {
            Scalar { bits: self.bits - SIGN_BIT }
        } else {
            Scalar { bits: self.bits + SIGN_BIT }
        }
    }

    /// The number without its sign.
    pub fn absolute(self) -> (r: Scalar)
        ensures
            r == self.spec_absolute(),
    {
        if self.bits >= SIGN_BIT {
            Scalar { bits: self.bits - SIGN_BIT }
        } else {
            self
        }
    }
}

/// The distance of the two numbers of the format that enclose the integer `n`, or 1 where every
/// integer near `n` has a number.
pub open spec fn rounding_unit(n: nat) -> nat
    decreases n,
{
    if n < 0x100_0000 {
        1
    } else {
        2 * rounding_unit(n / 2)
    }
}

/// The integer nearest to `n` that has a number of the format. Half way between two of them it is
/// the even multiple of their distance.
pub open spec fn rounded(n: nat) -> nat {
    let unit = rounding_unit(n);
    let quotient = n / unit;
    let rest = n % unit;
    if 2 * rest < unit || (2 * rest == unit && quotient % 2 == 0) {
        quotient * unit
    } else {
        (quotient + 1) * unit
    }
}

impl Scalar {
    /// Whether this is the number nearest to an integer.
    pub open spec fn is_nearest(self, n: nat) -> bool {
        &&& self.value() == rounded(n) * pow2(149)
        &&& !self.is_nan()
        &&& !self.is_negative()
    }

    /// The number nearest to an integer. There is one and no other, as
    /// [`lemma_nearest_is_unique`] and [`Scalar::from_u32`] show.
    pub open spec fn spec_from_u32(n: u32) -> Scalar {
        choose|r: Scalar| r.is_nearest(n as nat)
    }

    /// The number nearest to an integer. Half way between two numbers it is the one with an even
    /// fraction.
    pub fn from_u32(n: u32) -> (r: Scalar)
        ensures
            r == Scalar::spec_from_u32(n),
            r.is_nearest(n as nat),
    {
        let r = Scalar::nearest(n);
        proof {
            lemma_nearest_is_unique(r, Scalar::spec_from_u32(n), n as nat);
        }
        r
    }

    fn nearest(n: u32) -> (r: Scalar)
        ensures
            r.is_nearest(n as nat),
    {
        if n == 0 {
            assert(rounding_unit(0) == 1);
            assert(0nat / 1 == 0 && 0nat % 1 == 0);
            assert(0nat * pow2(149) == 0);
            return Scalar { bits: 0 };
        }
        let whole: u64 = n as u64;
        let mut quotient: u64 = whole;
        let mut unit: u64 = 1;
        let mut shift: u32 = 0;
        proof {
            lemma_pow2_values();
        }
        while quotient >= 0x100_0000
            invariant
                whole == n,
                0 < quotient,
                0 < unit,
                quotient * unit <= whole,
                whole < quotient * unit + unit,
                unit == pow2(shift as nat),
                unit * rounding_unit(quotient as nat) == rounding_unit(n as nat),
                shift <= 8,
                shift == 0 || quotient >= 0x80_0000,
            decreases quotient,
        {
            proof {
                lemma_pow2_unfold((shift + 1) as nat);
                lemma_halving(whole as int, quotient as int, unit as int);
                let half = rounding_unit((quotient / 2) as nat);
                assert(unit * (2 * half) == (2 * unit) * half) by (nonlinear_arith);
                assert(0x100_0000 * unit <= quotient * unit) by (nonlinear_arith)
                    requires
                        quotient >= 0x100_0000,
                ;
                lemma_shift_limit(whole as nat, 2 * unit as nat, (shift + 1) as nat);
            }
            quotient = quotient / 2;
            unit = unit * 2;
            shift = shift + 1;
        }
        proof {
            assert(rounding_unit(quotient as nat) == 1);
            assert(unit * 1 == unit);
            vstd::arithmetic::div_mod::lemma_fundamental_div_mod_converse(
                whole as int,
                unit as int,
                quotient as int,
                whole - quotient * unit,
            );
            vstd::arithmetic::mul::lemma_mul_is_commutative(quotient as int, unit as int);
        }
        let rest: u64 = whole - quotient * unit;
        let nearest: u64 = if 2 * rest < unit || (2 * rest == unit && quotient % 2 == 0) {
            quotient
        } else {
            quotient + 1
        };
        assert(nearest * unit == rounded(n as nat));
        let mut significand: u64 = nearest;
        let mut lift: u32 = 0;
        assert(nearest * pow2(0) == nearest);
        while significand < 0x80_0000
            invariant
                0 < significand <= 0x100_0000,
                significand == nearest * pow2(lift as nat),
                lift <= 23,
                significand < 0x80_0000 ==> nearest < 0x80_0000,
                nearest >= 1,
                lift > 0 ==> significand >= pow2(lift as nat),
            decreases 0x100_0000 - significand,
        {
            proof {
                let p = pow2(lift as nat);
                lemma_pow2_unfold((lift + 1) as nat);
                assert(nearest * (2 * p) == 2 * (nearest * p)) by (nonlinear_arith);
                assert(nearest * (2 * p) >= 2 * p) by (nonlinear_arith)
                    requires
                        nearest >= 1,
                        p >= 0,
                ;
                lemma_lift_bound(significand as int, lift as nat, nearest as int);
            }
            significand = significand * 2;
            lift = lift + 1;
        }
        let scaled: u32 = 149 + shift - lift;
        let bits: u32 = scaled * EXPONENT_UNIT + significand as u32;
        proof {
            lemma_assembled(scaled as int, significand as int);
            lemma_pow2_adds(lift as nat, scaled as nat);
            lemma_pow2_adds(shift as nat, 149);
            assert((nearest * pow2(lift as nat)) * pow2(scaled as nat) == nearest * (pow2(
                lift as nat,
            ) * pow2(scaled as nat))) by (nonlinear_arith);
            assert((nearest * unit) * pow2(149) == nearest * (pow2(shift as nat) * pow2(149)))
                by (nonlinear_arith)
                requires
                    unit == pow2(shift as nat),
            ;
        }
        Scalar { bits }
    }
}

/// No two numbers are nearest to the same integer.
pub proof fn lemma_nearest_is_unique(a: Scalar, b: Scalar, n: nat)
    requires
        a.is_nearest(n),
        b.is_nearest(n),
    ensures
        a == b,
{
    if a.magnitude() < b.magnitude() {
        lemma_magnitude_value_increases(a.magnitude(), b.magnitude());
    } else if b.magnitude() < a.magnitude() {
        lemma_magnitude_value_increases(b.magnitude(), a.magnitude());
    }
}

/// How often a small integer can be doubled.
proof fn lemma_lift(n: nat) -> (lift: nat)
    requires
        0 < n < 0x100_0000,
    ensures
        0x80_0000 <= n * pow2(lift) < 0x100_0000,
        lift <= 23,
    decreases 0x100_0000 - n,
{
    lemma_pow2_values();
    if n >= 0x80_0000 {
        assert(n * 1 == n);
        0
    } else {
        let lift = lemma_lift(2 * n);
        lemma_pow2_unfold(lift + 1);
        let p = pow2(lift);
        assert((2 * n) * p == n * (2 * p)) by (nonlinear_arith);
        assert((2 * n) * p == 2 * (n * p)) by (nonlinear_arith);
        lemma_lift_bound((n * p) as int, lift, n as int);
        lift + 1
    }
}

/// Every integer of 32 bits has a number that is nearest to it.
pub proof fn lemma_nearest_exists(n: u32)
    ensures
        Scalar::spec_from_u32(n).is_nearest(n as nat),
{
    let whole = n as nat;
    let unit = rounding_unit(whole);
    let shift = lemma_rounding_unit(whole);
    lemma_pow2_values();
    if n == 0 {
        assert(0nat / 1 == 0 && 0nat % 1 == 0);
        assert(0nat * pow2(149) == 0);
        assert((Scalar { bits: 0 }).is_nearest(0));
    } else if shift == 0 {
        law_small_integers_are_exact(whole);
        let lift = lemma_lift(whole);
        let scaled = (149 - lift) as nat;
        let significand = whole * pow2(lift);
        lemma_assembled(scaled as int, significand as int);
        lemma_pow2_adds(lift, scaled);
        assert((whole * pow2(lift)) * pow2(scaled) == whole * (pow2(lift) * pow2(scaled)))
            by (nonlinear_arith);
        let r = Scalar { bits: (scaled * EXPONENT_UNIT + significand) as u32 };
        assert(r.is_nearest(whole));
    } else {
        lemma_rounded_between(whole);
        let quotient = whole / unit;
        let nearest = if 2 * (whole % unit) < unit || (2 * (whole % unit) == unit && quotient % 2
            == 0) {
            quotient
        } else {
            quotient + 1
        };
        assert(quotient < 0x100_0000) by (nonlinear_arith)
            requires
                quotient * unit <= whole,
                whole < 0x100_0000 * unit,
                unit > 0,
        ;
        assert(quotient >= 0x80_0000) by (nonlinear_arith)
            requires
                0x80_0000 * unit <= whole,
                whole < (quotient + 1) * unit,
                unit > 0,
        ;
        lemma_shift_limit(whole, unit, shift);
        let scaled = 149 + shift;
        lemma_assembled(scaled as int, nearest as int);
        lemma_pow2_adds(shift, 149);
        assert((nearest * unit) * pow2(149) == nearest * (unit * pow2(149))) by (nonlinear_arith);
        let r = Scalar { bits: (scaled * EXPONENT_UNIT + nearest) as u32 };
        assert(r.is_nearest(whole));
    }
}

/// An integer of 32 bits loses at most eight of them.
proof fn lemma_shift_limit(whole: nat, unit: nat, shift: nat)
    requires
        whole < 0x1_0000_0000,
        0x80_0000 * unit <= whole,
        unit == pow2(shift),
    ensures
        shift <= 8,
{
    lemma_pow2_values();
    lemma_pow2_unfold(9);
    if shift > 8 {
        if shift > 9 {
            vstd::arithmetic::power2::lemma_pow2_strictly_increases(9, shift);
        }
        assert(unit >= 0x200);
    }
}

/// An integer is at least 2^23 and less than 2^24 units, unless the unit is 1.
proof fn lemma_rounding_unit(n: nat) -> (shift: nat)
    ensures
        rounding_unit(n) == pow2(shift),
        rounding_unit(n) > 0,
        n < 0x100_0000 * rounding_unit(n),
        shift == 0 || 0x80_0000 * rounding_unit(n) <= n,
        n < 0x100_0000 <==> shift == 0,
    decreases n,
{
    lemma_pow2_values();
    if n < 0x100_0000 {
        0
    } else {
        let half = lemma_rounding_unit(n / 2);
        lemma_pow2_unfold(half + 1);
        half + 1
    }
}

/// A rounded integer is between the multiples of the unit that enclose the integer.
proof fn lemma_rounded_between(n: nat)
    ensures
        ({
            let unit = rounding_unit(n);
            &&& unit > 0
            &&& (n / unit) * unit <= rounded(n) <= (n / unit + 1) * unit
            &&& (n / unit) * unit <= n < (n / unit + 1) * unit
        }),
{
    lemma_rounding_unit(n);
    let unit = rounding_unit(n) as int;
    let quotient = n as int / unit;
    vstd::arithmetic::div_mod::lemma_fundamental_div_mod(n as int, unit);
    assert((quotient + 1) * unit == quotient * unit + unit) by (nonlinear_arith);
    assert(unit * quotient == quotient * unit) by (nonlinear_arith);
}

/// Rounding to a multiple of the same unit does not change the order of integers.
proof fn lemma_rounded_same_unit(m: nat, n: nat)
    requires
        m <= n,
        rounding_unit(m) == rounding_unit(n),
    ensures
        rounded(m) <= rounded(n),
{
    lemma_rounded_between(m);
    lemma_rounded_between(n);
    let unit = rounding_unit(n);
    let p = m / unit;
    let q = n / unit;
    vstd::arithmetic::div_mod::lemma_div_is_ordered(m as int, n as int, unit as int);
    if p < q {
        assert((p + 1) * unit <= q * unit) by (nonlinear_arith)
            requires
                p < q,
        ;
    } else {
        vstd::arithmetic::div_mod::lemma_fundamental_div_mod(m as int, unit as int);
        vstd::arithmetic::div_mod::lemma_fundamental_div_mod(n as int, unit as int);
        assert(m % unit <= n % unit);
        assert(q * unit <= (q + 1) * unit) by (nonlinear_arith);
    }
}

/// Rounding does not change the order of integers.
pub proof fn law_rounding_keeps_order(m: nat, n: nat)
    requires
        m <= n,
    ensures
        rounded(m) <= rounded(n),
{
    let s = lemma_rounding_unit(m);
    let t = lemma_rounding_unit(n);
    if s == t {
        lemma_rounded_same_unit(m, n);
    } else {
        let u = rounding_unit(m);
        let v = rounding_unit(n);
        if t < s {
            vstd::arithmetic::power2::lemma_pow2_strictly_increases(t, s);
            lemma_pow2_pos(t);
            assert(v + v <= u) by {
                lemma_pow2_doubles(t, s);
            }
            assert(false);
        }
        lemma_pow2_doubles(s, t);
        lemma_rounded_between(m);
        lemma_rounded_between(n);
        let p = m / u;
        let q = n / v;
        assert(p < 0x100_0000) by {
            assert(p * u < 0x100_0000 * u);
            assert(p < 0x100_0000) by (nonlinear_arith)
                requires
                    p * u < 0x100_0000 * u,
                    u > 0,
            ;
        }
        assert((p + 1) * u <= 0x100_0000 * u) by (nonlinear_arith)
            requires
                p < 0x100_0000,
        ;
        assert(0x80_0000 * v < (q + 1) * v);
        assert(q >= 0x80_0000) by (nonlinear_arith)
            requires
                0x80_0000 * v < (q + 1) * v,
                v > 0,
        ;
        assert(0x80_0000 * v <= q * v) by (nonlinear_arith)
            requires
                q >= 0x80_0000,
        ;
    }
}

/// A larger power of two is at least twice as large.
proof fn lemma_pow2_doubles(s: nat, t: nat)
    requires
        s < t,
    ensures
        2 * pow2(s) <= pow2(t),
{
    lemma_pow2_unfold(s + 1);
    if s + 1 < t {
        vstd::arithmetic::power2::lemma_pow2_strictly_increases(s + 1, t);
    }
}

/// Integers up to 2^24 are not rounded.
pub proof fn law_small_integers_are_exact(n: nat)
    requires
        n <= 0x100_0000,
    ensures
        rounded(n) == n,
{
    if n == 0x100_0000 {
        assert(rounding_unit(0x80_0000) == 1);
        assert(rounding_unit(n) == 2);
        assert(n / 2 == 0x80_0000 && n % 2 == 0);
    } else {
        assert(rounding_unit(n) == 1);
        assert(n / 1 == n && n % 1 == 0);
    }
}

/// The first powers of two.
proof fn lemma_pow2_values()
    ensures
        pow2(0) == 1,
        pow2(8) == 0x100,
        pow2(23) == 0x80_0000,
{
    vstd::arithmetic::power2::lemma2_to64();
}

/// Halving a quotient while doubling the divisor keeps the bounds of the remainder.
proof fn lemma_halving(whole: int, quotient: int, unit: int)
    by (nonlinear_arith)
    requires
        0 < unit,
        0 < quotient,
        quotient * unit <= whole < quotient * unit + unit,
    ensures
        (quotient / 2) * (unit * 2) <= whole < (quotient / 2) * (unit * 2) + unit * 2,
{
    let h = quotient / 2;
    assert(h * (unit * 2) == (2 * h) * unit);
    assert(quotient == 2 * h || quotient == 2 * h + 1);
    if quotient == 2 * h + 1 {
        assert(quotient * unit == (2 * h) * unit + unit);
    }
}

/// Next larger bits stand for a larger number.
proof fn lemma_magnitude_value_step(m: int)
    requires
        0 <= m,
    ensures
        magnitude_value(m) < magnitude_value(m + 1),
{
    let unit = EXPONENT_UNIT as int;
    let e = m / unit;
    let f = m % unit;
    if e > 0 {
        lemma_pow2_pos((e - 1) as nat);
    }
    if f + 1 < unit {
        assert((m + 1) / unit == e && (m + 1) % unit == f + 1);
        if e > 0 {
            let p = pow2((e - 1) as nat) as int;
            assert((unit + f) * p < (unit + f + 1) * p) by (nonlinear_arith)
                requires
                    p > 0,
            ;
        }
    } else {
        assert((m + 1) / unit == e + 1 && (m + 1) % unit == 0);
        if e > 0 {
            let p = pow2((e - 1) as nat) as int;
            lemma_pow2_unfold(e as nat);
            assert((unit + f) * p < unit * (2 * p)) by (nonlinear_arith)
                requires
                    p > 0,
                    f < unit,
            ;
        } else {
            assert(pow2(0) == 1) by {
                reveal(pow2);
                reveal(vstd::arithmetic::power::pow);
            }
        }
    }
}

/// Larger bits stand for a larger number.
proof fn lemma_magnitude_value_increases(m: int, n: int)
    requires
        0 <= m < n,
    ensures
        magnitude_value(m) < magnitude_value(n),
    decreases n - m,
{
    lemma_magnitude_value_step(n - 1);
    if m < n - 1 {
        lemma_magnitude_value_increases(m, n - 1);
    }
}

/// A number without a sign is not less than zero, and zero only if its bits are.
proof fn lemma_magnitude_value_sign(m: int)
    requires
        0 <= m,
    ensures
        magnitude_value(m) >= 0,
        magnitude_value(m) == 0 <==> m == 0,
{
    assert(magnitude_value(0) == 0);
    if m > 0 {
        lemma_magnitude_value_increases(0, m);
    }
}

/// A number without its sign is not less than zero, and zero only if the number is.
pub proof fn lemma_absolute_value(a: Scalar)
    ensures
        a.spec_absolute().is_nan() == a.is_nan(),
        a.spec_absolute().value() == if a.value() < 0 {
            -a.value()
        } else {
            a.value()
        },
{
    lemma_magnitude_value_sign(a.magnitude());
}

/// Numbers are in the order of their bits, read as a sign and a magnitude.
pub proof fn lemma_rank_orders_values(a: Scalar, b: Scalar)
    ensures
        ({
            let rank_a = if a.is_negative() { -a.magnitude() } else { a.magnitude() };
            let rank_b = if b.is_negative() { -b.magnitude() } else { b.magnitude() };
            rank_a < rank_b <==> a.value() < b.value()
        }),
{
    let m = a.magnitude();
    let n = b.magnitude();
    lemma_magnitude_value_sign(m);
    lemma_magnitude_value_sign(n);
    if m < n {
        lemma_magnitude_value_increases(m, n);
    } else if n < m {
        lemma_magnitude_value_increases(n, m);
    }
}

/// Doubling a positive integer up to 24 bits takes at most 23 steps.
proof fn lemma_lift_bound(significand: int, lift: nat, nearest: int)
    requires
        significand < 0x80_0000,
        nearest >= 1,
        significand == nearest * pow2(lift),
    ensures
        lift < 23,
{
    lemma_pow2_values();
    lemma_pow2_pos(lift);
    if lift > 23 {
        vstd::arithmetic::power2::lemma_pow2_strictly_increases(23, lift);
    }
    let p = pow2(lift) as int;
    assert(nearest * p >= p) by (nonlinear_arith)
        requires
            nearest >= 1,
            p > 0,
    ;
}

/// What a pattern with a given exponent stands for. A significand of 25 bits carries into the
/// exponent.
proof fn lemma_assembled(scaled: int, significand: int)
    requires
        0 <= scaled < 200,
        0x80_0000 <= significand <= 0x100_0000,
    ensures
        magnitude_value(scaled * EXPONENT_UNIT + significand) == significand * pow2(scaled as nat),
{
    let unit = EXPONENT_UNIT as int;
    let bits = scaled * unit + significand;
    if significand < 0x100_0000 {
        assert(bits / unit == scaled + 1 && bits % unit == significand - unit);
    } else {
        assert(bits / unit == scaled + 2 && bits % unit == 0);
        lemma_pow2_unfold((scaled + 1) as nat);
        assert(unit * (2 * pow2(scaled as nat)) == (2 * unit) * pow2(scaled as nat))
            by (nonlinear_arith);
    }
}

/// The bits of the numbers up to twice the smallest normal number count them; after that, the next
/// exponent doubles the number.
pub proof fn law_exponent_doubles(a: Scalar)
    ensures
        a.bits < 0x100_0000 ==> a.value() == a.bits,
        0x80_0000 <= a.bits < 0x7f00_0000 ==> (Scalar { bits: (a.bits + 0x80_0000) as u32 }).value()
            == 2 * a.value(),
        a.bits == 0x3f80_0000 ==> a.value() == pow2(149),
{
    lemma_pow2_values();
    let unit = EXPONENT_UNIT as int;
    let m = a.bits as int;
    if m < 2 * unit {
        if m >= unit {
            assert(m / unit == 1 && m % unit == m - unit);
            assert((unit + (m - unit)) * 1 == m);
        } else {
            assert(m / unit == 0 && m % unit == m);
        }
    }
    if unit <= m < 0x7f00_0000 {
        let e = m / unit;
        let f = m % unit;
        assert((m + unit) / unit == e + 1 && (m + unit) % unit == f);
        lemma_pow2_unfold(e as nat);
        let p = pow2((e - 1) as nat) as int;
        assert((unit + f) * (2 * p) == 2 * ((unit + f) * p)) by (nonlinear_arith);
    }
    if m == 0x3f80_0000 {
        assert(m / unit == 127 && m % unit == 0);
        lemma_pow2_adds(23, 126);
        assert((unit + 0) * pow2(126) == unit * pow2(126));
    }
}

/// Of two numbers, one is less than the other or they are the same, and no two of these hold. A NaN
/// takes part in no comparison.
pub proof fn law_numbers_are_ordered(a: Scalar, b: Scalar)
    ensures
        a.magnitude() > 0x7f80_0000 || b.magnitude() > 0x7f80_0000 ==> !a.less(b) && !a.same(b)
            && !a.less_or_same(b),
        a.magnitude() <= 0x7f80_0000 && b.magnitude() <= 0x7f80_0000 ==> {
            &&& a.less(b) || a.same(b) || b.less(a)
            &&& !(a.less(b) && a.same(b)) && !(a.less(b) && b.less(a))
            &&& a.less_or_same(b) == !b.less(a)
            &&& a.same(b) == b.same(a)
            &&& a.less(b) == (a.value() < b.value())
            &&& a.same(b) == (a.value() == b.value())
        },
        (Scalar { bits: 0 }).same(Scalar { bits: 0x8000_0000 }),
        (Scalar { bits: 0x8000_0001 }).less(Scalar { bits: 0 }),
        (Scalar { bits: 0 }).less(Scalar { bits: 1 }),
{
}

/// What is less than something less is less.
pub proof fn law_order_is_transitive(a: Scalar, b: Scalar, c: Scalar)
    requires
        a.less_or_same(b),
        b.less_or_same(c),
    ensures
        a.less_or_same(c),
        a.less(b) || b.less(c) ==> a.less(c),
{
}

/// The larger of two numbers is one of them and not less than either; with a NaN it is the other.
pub proof fn law_larger_number(a: Scalar, b: Scalar)
    ensures
        ({
            let r = a.spec_max(b);
            &&& r == a || r == b
            &&& a.magnitude() > 0x7f80_0000 ==> r == b || b.magnitude() > 0x7f80_0000
            &&& b.magnitude() > 0x7f80_0000 ==> r == a
            &&& a.magnitude() <= 0x7f80_0000 && b.magnitude() <= 0x7f80_0000 ==> a.value()
                <= r.value() && b.value() <= r.value()
        }),
{
}

/// The smaller of two numbers is one of them and not more than either; with a NaN it is the other.
pub proof fn law_smaller_number(a: Scalar, b: Scalar)
    ensures
        ({
            let r = a.spec_min(b);
            &&& r == a || r == b
            &&& a.magnitude() > 0x7f80_0000 ==> r == b || b.magnitude() > 0x7f80_0000
            &&& b.magnitude() > 0x7f80_0000 ==> r == a
            &&& a.magnitude() <= 0x7f80_0000 && b.magnitude() <= 0x7f80_0000 ==> r.value()
                <= a.value() && r.value() <= b.value()
        }),
{
}

/// Changing the sign changes the sign of the number and nothing else, and undoes itself.
pub proof fn law_negation(a: Scalar)
    ensures
        a.spec_negated().value() == -a.value(),
        a.spec_negated().magnitude() == a.magnitude(),
        a.spec_negated() != a,
        a.spec_negated().spec_negated() == a,
{
}

/// The number without its sign is the number or its negation, and never negative.
pub proof fn law_absolute(a: Scalar)
    ensures
        a.spec_absolute() == a || a.spec_absolute() == a.spec_negated(),
        a.spec_absolute().bits < 0x8000_0000,
        a.spec_absolute().value() >= 0,
{
    lemma_absolute_value(a);
}

/// Zero and one are the numbers that they are called.
pub proof fn law_zero_and_one()
    ensures
        Scalar::spec_zero().value() == 0,
        Scalar::spec_zero().bits < 0x8000_0000,
        Scalar::spec_one().value() == pow2(149),
        Scalar::spec_one() == Scalar::spec_from_u32(1),
{
    let one = Scalar { bits: 0x3f80_0000 };
    law_exponent_doubles(one);
    law_small_integers_are_exact(1);
    assert(one.is_nearest(1));
    lemma_nearest_exists(1);
    lemma_nearest_is_unique(one, Scalar::spec_from_u32(1), 1);
}

/// How far a number is from an integer.
pub open spec fn distance(a: Scalar, n: u32) -> int {
    let d = a.value() - n * pow2(149);
    if d < 0 {
        -d
    } else {
        d
    }
}

/// No number is nearer to an integer than the one that it becomes, and where another is as near,
/// the one that it becomes has even bits.
pub proof fn law_no_number_is_nearer(n: u32, a: Scalar)
    requires
        a.magnitude() <= 0x7f80_0000,
    ensures
        distance(Scalar::spec_from_u32(n), n) <= distance(a, n),
        a.value() != Scalar::spec_from_u32(n).value() && distance(a, n) == distance(
            Scalar::spec_from_u32(n),
            n,
        ) ==> Scalar::spec_from_u32(n).bits % 2 == 0,
{
    let r = Scalar::spec_from_u32(n);
    let whole = n as nat;
    lemma_nearest_exists(n);
    if n <= 0x100_0000 {
        law_small_integers_are_exact(whole);
    } else {
        let unit = rounding_unit(whole);
        let shift = lemma_rounding_unit(whole);
        lemma_rounded_between(whole);
        lemma_shift_limit(whole, unit, shift);
        let quotient = whole / unit;
        assert(quotient < 0x100_0000) by (nonlinear_arith)
            requires
                quotient * unit <= whole,
                whole < 0x100_0000 * unit,
                unit > 0,
        ;
        assert(quotient >= 0x80_0000) by (nonlinear_arith)
            requires
                0x80_0000 * unit <= whole,
                whole < (quotient + 1) * unit,
                unit > 0,
        ;
        let scaled = 149 + shift;
        lemma_pow2_adds(shift, 149);
        lemma_pow2_pos(149);
        let p = pow2(149);
        let low = Scalar { bits: (scaled * EXPONENT_UNIT + quotient) as u32 };
        let high = Scalar { bits: (scaled * EXPONENT_UNIT + quotient + 1) as u32 };
        lemma_assembled(scaled as int, quotient as int);
        lemma_assembled(scaled as int, (quotient + 1) as int);
        assert(low.value() == quotient * (unit * p));
        assert(high.value() == (quotient + 1) * (unit * p));
        assert(quotient * (unit * p) == (quotient * unit) * p) by (nonlinear_arith);
        assert((quotient + 1) * (unit * p) == ((quotient + 1) * unit) * p) by (nonlinear_arith);
        assert((quotient * unit) * p <= whole * p) by (nonlinear_arith)
            requires
                quotient * unit <= whole,
        ;
        assert(whole * p <= ((quotient + 1) * unit) * p) by (nonlinear_arith)
            requires
                whole <= (quotient + 1) * unit,
        ;
        vstd::arithmetic::div_mod::lemma_fundamental_div_mod(whole as int, unit as int);
        let rest = whole % unit;
        assert(unit * quotient == quotient * unit) by (nonlinear_arith);
        assert((quotient + 1) * unit == quotient * unit + unit) by (nonlinear_arith);
        let below = whole * p - (quotient * unit) * p;
        let above = ((quotient + 1) * unit) * p - whole * p;
        assert(below == rest * p) by (nonlinear_arith)
            requires
                below == whole * p - (quotient * unit) * p,
                whole == quotient * unit + rest,
        ;
        assert(above == (unit - rest) * p) by (nonlinear_arith)
            requires
                above == ((quotient + 1) * unit) * p - whole * p,
                (quotient + 1) * unit == quotient * unit + unit,
                whole == quotient * unit + rest,
        ;
        if 2 * rest < unit {
            assert(below < above) by (nonlinear_arith)
                requires
                    below == rest * p,
                    above == (unit - rest) * p,
                    2 * rest < unit,
                    p > 0,
            ;
        } else if 2 * rest > unit {
            assert(above < below) by (nonlinear_arith)
                requires
                    below == rest * p,
                    above == (unit - rest) * p,
                    2 * rest > unit,
                    p > 0,
            ;
        } else {
            assert(above == below) by (nonlinear_arith)
                requires
                    below == rest * p,
                    above == (unit - rest) * p,
                    2 * rest == unit,
            ;
        }
        assert(r.value() == low.value() || r.value() == high.value());
        let same = if r.value() == low.value() {
            low
        } else {
            high
        };
        lemma_nearest_is_unique(r, same, whole);
        lemma_rank_orders_values(low, a);
        lemma_rank_orders_values(a, high);
        assert(a.value() <= low.value() || a.value() >= high.value());
        assert(scaled * EXPONENT_UNIT % 2 == 0);
    }
}

} // verus!
