//! Double-precision numbers carried by their bit pattern.
//!
//! The bar's coordinates and slider positions are IEEE 754 doubles. Arithmetic
//! on them is done by the program around this crate; what this crate decides
//! about them (which of two is larger, whether one is a number at all, where a
//! clamp puts it) depends on the bit pattern alone.
use vstd::arithmetic::power2::pow2;
use vstd::prelude::*;

verus! {

/// The sign bit.
pub const SIGN: u64 = 0x8000_0000_0000_0000;

/// The pattern of positive infinity: larger magnitudes are NaN.
pub const INFINITE: u64 = 0x7ff0_0000_0000_0000;

/// One unit of the exponent field.
pub const IMPLICIT: u64 = 0x0010_0000_0000_0000;

/// A double, as `f64::to_bits` gives it.
#[derive(Clone, Copy, Debug, PartialEq, Eq, Structural)]
pub struct Scalar {
    pub bits: u64,
}

/// The pattern of 1.
pub const ONE_BITS: u64 = 0x3ff0_0000_0000_0000;

impl Scalar {
    pub open spec fn negative(self) -> bool {
        self.bits >= SIGN
    }

    /// The pattern without its sign bit.
    pub open spec fn magnitude_spec(self) -> u64 {
        if self.bits >= SIGN {
            (self.bits - SIGN) as u64
        } else {
            self.bits
        }
    }

    pub open spec fn nan(self) -> bool {
        self.magnitude_spec() > INFINITE
    }

    pub open spec fn finite(self) -> bool {
        self.magnitude_spec() < INFINITE
    }

    /// Position on the number line: patterns of one sign are ordered as
    /// integers, and both zeros stand at 0.
    pub open spec fn rank(self) -> int {
        if self.bits >= SIGN {
            -(self.magnitude_spec() as int)
        } else {
            self.magnitude_spec() as int
        }
    }

    /// `self < other` as doubles compare: never when either is NaN.
    pub open spec fn below(self, other: Scalar) -> bool {
        !self.nan() && !other.nan() && self.rank() < other.rank()
    }

    /// `self == other` as doubles compare.
    pub open spec fn same(self, other: Scalar) -> bool {
        !self.nan() && !other.nan() && self.rank() == other.rank()
    }

    /// `self` held to the range from `low` to `high`.
    pub open spec fn clamped(self, low: Scalar, high: Scalar) -> Scalar {
        if self.below(low) {
            low
        } else if high.below(self) {
            high
        } else {
            self
        }
    }

    /// `self` with its sign bit cleared.
    pub open spec fn absolute(self) -> Scalar {
        Scalar { bits: self.magnitude_spec() }
    }

    /// `self` with its sign bit flipped.
    pub open spec fn negated(self) -> Scalar {
        if self.bits >= SIGN {
            Scalar { bits: (self.bits - SIGN) as u64 }
        } else {
            Scalar { bits: (self.bits + SIGN) as u64 }
        }
    }

    /// Exponent field, counted so that subnormal and smallest normal numbers
    /// share the value 1.
    pub open spec fn exponent(self) -> nat {
        let field = self.magnitude_spec() / IMPLICIT;
        if field == 0 {
            1
        } else {
            field as nat
        }
    }

    /// The integer significand: `self` is, sign aside,
    /// `significand * 2^(exponent - 1075)`.
    pub open spec fn significand(self) -> nat {
        if self.magnitude_spec() / IMPLICIT == 0 {
            self.magnitude_spec() as nat
        } else {
            (self.magnitude_spec() % IMPLICIT + IMPLICIT) as nat
        }
    }

    #[verifier::allow_in_spec]
    pub fn zero() -> (s: Scalar)
        returns
            (Scalar { bits: 0 }),
    {
        Scalar { bits: 0 }
    }

    #[verifier::allow_in_spec]
    pub fn one() -> (s: Scalar)
        returns
            (Scalar { bits: ONE_BITS }),
    {
        Scalar { bits: ONE_BITS }
    }

    pub fn from_bits(bits: u64) -> (s: Scalar)
        ensures
            s.bits == bits,
    {
        Scalar { bits }
    }

    pub fn magnitude(self) -> (m: u64)
        ensures
            m == self.magnitude_spec(),
    {
        if self.bits >= SIGN {
            self.bits - SIGN
        } else {
            self.bits
        }
    }

    pub fn is_nan(self) -> (b: bool)
        ensures
            b == self.nan(),
    {
        self.magnitude() > INFINITE
    }

    pub fn is_finite(self) -> (b: bool)
        ensures
            b == self.finite(),
    {
        self.magnitude() < INFINITE
    }

    pub fn lt(self, other: Scalar) -> (b: bool)
        ensures
            b == self.below(other),
    {
        if self.is_nan() || other.is_nan() {
            return false;
        }
        let m: u64 = self.magnitude();
        let n: u64 = other.magnitude();
        if self.bits >= SIGN {
            if other.bits >= SIGN {
                n < m
            } else {
                m > 0 || n > 0
            }
        } else if other.bits >= SIGN {
            false
        } else {
            m < n
        }
    }

    pub fn same_as(self, other: Scalar) -> (b: bool)
        ensures
            b == self.same(other),
    {
        !self.is_nan() && !other.is_nan() && !self.lt(other) && !other.lt(self)
    }

    pub fn clamp(self, low: Scalar, high: Scalar) -> (s: Scalar)
        requires
            !low.nan(),
            !high.nan(),
            !high.below(low),
        ensures
            s == self.clamped(low, high),
            !self.nan() ==> !s.below(low) && !high.below(s),
    {
        if self.lt(low) {
            low
        } else if high.lt(self) {
            high
        } else {
            self
        }
    }

    pub fn abs(self) -> (s: Scalar)
        ensures
            s == self.absolute(),
            !s.negative(),
    {
        Scalar { bits: self.magnitude() }
    }

    pub fn negate(self) -> (s: Scalar)
        ensures
            s == self.negated(),
    {
        if self.bits >= SIGN {
            Scalar { bits: self.bits - SIGN }
        } else {
            Scalar { bits: self.bits + SIGN }
        }
    }
}

/// Position of the highest set bit of a positive integer.
pub open spec fn top_bit(n: nat) -> nat
    decreases n,
{
    if n < 2 {
        0
    } else {
        1 + top_bit(n / 2)
    }
}

/// The pattern that denotes the integer `n`: exponent field, then the bits
/// below the highest one, moved up to fill the fraction.
pub open spec fn whole_magnitude(n: nat) -> int {
    if n == 0 {
        0
    } else {
        (1023 + top_bit(n)) * 0x0010_0000_0000_0000 + (n - pow2(top_bit(n))) * pow2(
            (52 - top_bit(n)) as nat,
        )
    }
}

/// The double that denotes the integer `n`, for `n` of at most 32 bits.
pub open spec fn whole(n: int) -> Scalar {
    if n >= 0 {
        Scalar { bits: whole_magnitude(n as nat) as u64 }
    } else {
        Scalar { bits: (SIGN + whole_magnitude((-n) as nat)) as u64 }
    }
}

proof fn lemma_top_bit(n: nat)
    requires
        0 < n,
    ensures
        pow2(top_bit(n)) <= n < 2 * pow2(top_bit(n)),
    decreases n,
{
    if n < 2 {
        vstd::arithmetic::power2::lemma2_to64();
    } else {
        lemma_top_bit(n / 2);
        vstd::arithmetic::power2::lemma_pow2_unfold(top_bit(n));
    }
}

proof fn lemma_top_bit_unique(n: nat, k: nat)
    requires
        pow2(k) <= n < 2 * pow2(k),
    ensures
        top_bit(n) == k,
    decreases n,
{
    vstd::arithmetic::power2::lemma_pow2_pos(k);
    if n < 2 {
        if k > 0 {
            vstd::arithmetic::power2::lemma_pow2_unfold(k);
            vstd::arithmetic::power2::lemma_pow2_pos((k - 1) as nat);
        }
    } else {
        if k == 0 {
            vstd::arithmetic::power2::lemma2_to64();
        } else {
            vstd::arithmetic::power2::lemma_pow2_unfold(k);
            lemma_top_bit_unique(n / 2, (k - 1) as nat);
        }
    }
}

/// Bounds of an integer's pattern: inside the block of its own exponent.
proof fn lemma_whole_magnitude(n: nat)
    requires
        0 < n <= 0x8000_0000,
    ensures
        top_bit(n) <= 31,
        (1023 + top_bit(n)) * IMPLICIT <= whole_magnitude(n) < (1024 + top_bit(n)) * IMPLICIT,
        whole_magnitude(n) < INFINITE,
        whole_magnitude(n) % (IMPLICIT as int) == (n - pow2(top_bit(n))) * pow2(
            (52 - top_bit(n)) as nat,
        ),
        whole_magnitude(n) / (IMPLICIT as int) == 1023 + top_bit(n),
{
    let k = top_bit(n);
    lemma_top_bit(n);
    vstd::arithmetic::power2::lemma2_to64();
    if k > 31 {
        vstd::arithmetic::power2::lemma_pow2_strictly_increases(31, k);
        assert(pow2(31) == 0x8000_0000);
    }
    vstd::arithmetic::power2::lemma_pow2_adds(k, (52 - k) as nat);
    vstd::arithmetic::power2::lemma2_to64_rest();
    let p = pow2(k) as int;
    let w = pow2((52 - k) as nat) as int;
    assert(p * w == 0x0010_0000_0000_0000);
    let f = (n - p) * w;
    assert(0 <= f < 0x0010_0000_0000_0000) by (nonlinear_arith)
        requires
            f == (n - p) * w,
            p <= n < 2 * p,
            0 < w,
            p * w == 0x0010_0000_0000_0000,
    ;
    assert(whole_magnitude(n) == (1023 + k) * 0x0010_0000_0000_0000 + f);
}

/// Patterns of non-negative integers are ordered as the integers are.
proof fn lemma_whole_magnitude_monotone(a: nat, b: nat)
    requires
        a <= b <= 0x8000_0000,
    ensures
        0 <= whole_magnitude(a) <= whole_magnitude(b) < INFINITE,
        a < b ==> whole_magnitude(a) < whole_magnitude(b),
{
    if b > 0 {
        lemma_whole_magnitude(b);
    }
    if a > 0 {
        lemma_whole_magnitude(a);
        lemma_top_bit(a);
        lemma_top_bit(b);
        let ka = top_bit(a);
        let kb = top_bit(b);
        if ka > kb {
            vstd::arithmetic::power2::lemma_pow2_unfold(ka);
            if ka - 1 > kb {
                vstd::arithmetic::power2::lemma_pow2_strictly_increases(kb, (ka - 1) as nat);
            }
        } else if ka == kb {
            let w = pow2((52 - ka) as nat) as int;
            vstd::arithmetic::power2::lemma_pow2_pos((52 - ka) as nat);
            let p = pow2(ka) as int;
            assert((a - p) * w <= (b - p) * w) by (nonlinear_arith)
                requires
                    a <= b,
                    0 < w,
            ;
            if a < b {
                assert((a - p) * w < (b - p) * w) by (nonlinear_arith)
                    requires
                        a < b,
                        0 < w,
                ;
            }
        }
    }
}

/// The doubles that denote integers stand on the number line in the
/// integers' order.
pub proof fn whole_numbers_keep_their_order(a: int, b: int)
    requires
        -0x8000_0000 <= a <= 0x8000_0000,
        -0x8000_0000 <= b <= 0x8000_0000,
    ensures
        whole(a).finite(),
        whole(a).below(whole(b)) <==> a < b,
        whole(a).same(whole(b)) <==> a == b,
{
    let ma = (if a >= 0 { a } else { -a }) as nat;
    let mb = (if b >= 0 { b } else { -b }) as nat;
    if ma <= mb {
        lemma_whole_magnitude_monotone(ma, mb);
    } else {
        lemma_whole_magnitude_monotone(mb, ma);
    }
    lemma_whole_magnitude_monotone(0, ma);
    lemma_whole_magnitude_monotone(0, mb);
}

/// The double of an integer has exactly that integer as its value.
pub proof fn whole_numbers_are_exact(n: nat)
    requires
        0 < n <= 0x8000_0000,
    ensures
        !whole(n as int).negative(),
        whole(n as int).exponent() <= 1075,
        whole(n as int).significand() == n * pow2((1075 - whole(n as int).exponent()) as nat),
{
    lemma_whole_magnitude(n);
    let k = top_bit(n);
    vstd::arithmetic::power2::lemma_pow2_adds(k, (52 - k) as nat);
    vstd::arithmetic::power2::lemma2_to64_rest();
    let p = pow2(k) as int;
    let w = pow2((52 - k) as nat) as int;
    assert((n - p) * w + p * w == n * w) by (nonlinear_arith);
}

impl Scalar {
    /// The double that denotes `n`.
    pub fn from_whole(n: i32) -> (s: Scalar)
        ensures
            s == whole(n as int),
            s.finite(),
    {
        let m: u64 = if n >= 0 {
            n as u64
        } else {
            (-(n as i64)) as u64
        };
        if m == 0 {
            return Scalar { bits: 0 };
        }
        let mut k: u64 = 0;
        let mut p: u64 = 1;
        proof {
            vstd::arithmetic::power2::lemma2_to64();
            lemma_whole_magnitude(m as nat);
        }
        while p <= m / 2
            invariant
                p == pow2(k as nat),
                p <= m,
                1 <= p,
                m <= 0x8000_0000,
                k <= p,
            decreases m - p,
        {
            proof {
                vstd::arithmetic::power2::lemma_pow2_unfold((k + 1) as nat);
            }
            p = p * 2;
            k = k + 1;
        }
        proof {
            lemma_top_bit_unique(m as nat, k as nat);
            vstd::arithmetic::power2::lemma_pow2_adds(k as nat, (52 - k) as nat);
            vstd::arithmetic::power2::lemma2_to64_rest();
            let w = pow2((52 - k) as nat) as int;
            vstd::arithmetic::div_mod::lemma_div_by_multiple(w, p as int);
            assert(w * p == p * w) by (nonlinear_arith);
            assert(IMPLICIT / p == w);
            assert(0 <= (m - p) * w < 0x0010_0000_0000_0000) by (nonlinear_arith)
                requires
                    p <= m < 2 * p,
                    0 < w,
                    p * w == 0x0010_0000_0000_0000,
            ;
        }
        let magnitude: u64 = (1023 + k) * IMPLICIT + (m - p) * (IMPLICIT / p);
        if n >= 0 {
            Scalar { bits: magnitude }
        } else {
            Scalar { bits: magnitude + SIGN }
        }
    }
}

/// `n / d` rounded to the nearest integer, and to the even one of two that
/// are equally near.
pub open spec fn nearest_even(n: nat, d: nat) -> nat {
    let q = n / d;
    let r = n % d;
    if 2 * r < d || (2 * r == d && q % 2 == 0) {
        q
    } else {
        q + 1
    }
}

impl Scalar {
    /// The value of a number from 0 to 1 in ten-thousandths, rounded to the
    /// nearest.
    pub open spec fn ten_thousandths_spec(self) -> nat {
        nearest_even(10000 * self.significand(), pow2((1075 - self.exponent()) as nat))
    }

    pub fn ten_thousandths(self) -> (t: u32)
        requires
            self.magnitude_spec() <= ONE_BITS,
        ensures
            t == self.ten_thousandths_spec(),
            t <= 10000,
    {
        let field: u64 = self.magnitude() / IMPLICIT;
        let fraction: u64 = self.magnitude() % IMPLICIT;
        let exponent: u64 = if field == 0 {
            1
        } else {
            field
        };
        let significand: u64 = if field == 0 {
            fraction
        } else {
            fraction + IMPLICIT
        };
        let shift: u64 = 1075 - exponent;
        proof {
            self.lemma_unit_interval();
            vstd::arithmetic::power2::lemma2_to64_rest();
        }
        let scaled: u128 = 10000 * (significand as u128);
        if shift >= 70 {
            proof {
                let d = pow2(shift as nat);
                if shift > 70 {
                    vstd::arithmetic::power2::lemma_pow2_strictly_increases(70, shift as nat);
                }
                vstd::arithmetic::power2::lemma_pow2_adds(64, 6);
                vstd::arithmetic::power2::lemma2_to64();
                assert(2 * scaled < d);
                vstd::arithmetic::div_mod::lemma_basic_div(scaled as int, d as int);
                vstd::arithmetic::div_mod::lemma_small_mod(scaled as nat, d);
            }
            return 0;
        }
        let mut d: u128 = 1;
        let mut k: u64 = 0;
        proof {
            vstd::arithmetic::power2::lemma2_to64();
        }
        while k < shift
            invariant
                k <= shift < 70,
                d == pow2(k as nat),
            decreases shift - k,
        {
            proof {
                vstd::arithmetic::power2::lemma_pow2_unfold((k + 1) as nat);
                vstd::arithmetic::power2::lemma_pow2_adds(64, 6);
                vstd::arithmetic::power2::lemma2_to64_rest();
                vstd::arithmetic::power2::lemma2_to64();
                vstd::arithmetic::power2::lemma_pow2_strictly_increases(k as nat, 70);
            }
            d = d * 2;
            k = k + 1;
        }
        proof {
            vstd::arithmetic::power2::lemma_pow2_pos(shift as nat);
            assert(scaled <= 10000 * d);
            assert(scaled as int / d as int <= 10000) by (nonlinear_arith)
                requires
                    0 <= scaled <= 10000 * d,
                    0 < d,
            ;
            assert(scaled as int / d as int == 10000 ==> scaled as int % d as int == 0)
                by (nonlinear_arith)
                requires
                    0 <= scaled <= 10000 * d,
                    0 < d,
            ;
        }
        let q: u128 = scaled / d;
        let r: u128 = scaled % d;
        if r < d - r || (r == d - r && q % 2 == 0) {
            q as u32
        } else {
            (q + 1) as u32
        }
    }

    /// A number from 0 to 1 is at most 1: its significand does not exceed the
    /// power of two it is divided by.
    proof fn lemma_unit_interval(self)
        requires
            self.magnitude_spec() <= ONE_BITS,
        ensures
            1 <= self.exponent() <= 1023,
            self.significand() < 0x0020_0000_0000_0000,
            self.significand() <= pow2((1075 - self.exponent()) as nat),
    {
        let field = self.magnitude_spec() / IMPLICIT;
        assert(field <= 1023);
        vstd::arithmetic::power2::lemma2_to64_rest();
        if field == 1023 {
            assert(self.magnitude_spec() % IMPLICIT == 0);
        } else {
            let gap = (1075 - self.exponent()) as nat;
            if gap > 53 {
                vstd::arithmetic::power2::lemma_pow2_strictly_increases(53, gap);
            }
        }
    }
}

} // verus!
