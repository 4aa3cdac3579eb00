//! Shares in double precision, in integers throughout: a number has 53 significant bits, and every
//! result is rounded to the nearest such number, halves to the even one. Exponents are not bounded:
//! nothing here comes near the smallest or largest that double precision has.

use vstd::prelude::*;
use vstd::arithmetic::div_mod;
use vstd::arithmetic::power2;

verus! {

/// Two to the 52nd: the smallest significand.
pub const LOW: u64 = 0x10_0000_0000_0000;

/// Two to the 53rd: past the largest significand.
pub const HIGH: u64 = 0x20_0000_0000_0000;

/// A number in double precision: significand and exponent to base two.
pub type Number = (int, int);

/// The number is zero, or its significand has 53 bits.
pub open spec fn is_number(a: Number) -> bool {
    a == (0int, 0int) || LOW <= a.0 < HIGH
}

/// The whole number nearest to `n / d`, halves to the even one.
pub open spec fn half_even(n: int, d: int) -> int {
    let q = n / d;
    let r = n % d;
    if 2 * r < d || (2 * r == d && q % 2 == 0) {
        q
    } else {
        q + 1
    }
}

/// How far `n / d` is from having 53 bits before the point.
pub open spec fn distance(n: int, d: int) -> int {
    if n < LOW * d {
        LOW * d - n
    } else if n >= HIGH * d {
        n - HIGH * d + 1
    } else {
        0
    }
}

/// The number with its exponent changed by `k`.
pub open spec fn shifted(a: Number, k: int) -> Number {
    (a.0, a.1 + k)
}

/// The number that is nearest to `n / d`.
pub open spec fn nearest(n: int, d: int) -> Number
    decreases distance(n, d),
{
    if n <= 0 || d <= 0 {
        (0, 0)
    } else if n < LOW * d {
        shifted(nearest(2 * n, d), -1)
    } else if n >= HIGH * d {
        shifted(nearest(n, 2 * d), 1)
    } else if half_even(n, d) == HIGH {
        (LOW as int, 1)
    } else {
        (half_even(n, d), 0)
    }
}

/// A whole number in double precision.
pub open spec fn of(n: int) -> Number {
    nearest(n, 1)
}

/// One number divided by another.
pub open spec fn quotient(a: Number, b: Number) -> Number {
    if a.0 == 0 {
        (0, 0)
    } else {
        shifted(nearest(a.0, b.0), a.1 - b.1)
    }
}

/// One number times another.
pub open spec fn product(a: Number, b: Number) -> Number {
    if a.0 == 0 || b.0 == 0 {
        (0, 0)
    } else {
        shifted(nearest(a.0 * b.0, 1), a.1 + b.1)
    }
}

/// A number as a multiple of two to the power `lo`, which is no larger than its own.
pub open spec fn aligned(a: Number, lo: int) -> int {
    a.0 * two_to(a.1 - lo)
}

/// The smaller exponent of two numbers.
pub open spec fn lower(a: Number, b: Number) -> int {
    if a.1 <= b.1 {
        a.1
    } else {
        b.1
    }
}

/// One number plus another.
pub open spec fn sum(a: Number, b: Number) -> Number {
    let lo = lower(a, b);
    if a.0 == 0 {
        b
    } else if b.0 == 0 {
        a
    } else {
        shifted(nearest(aligned(a, lo) + aligned(b, lo), 1), lo)
    }
}

/// How far two numbers are apart.
pub open spec fn gap(a: Number, b: Number) -> Number {
    let lo = lower(a, b);
    if a == b {
        (0, 0)
    } else if a.0 == 0 {
        b
    } else if b.0 == 0 {
        a
    } else if less(a, b) {
        shifted(nearest(aligned(b, lo) - aligned(a, lo), 1), lo)
    } else {
        shifted(nearest(aligned(a, lo) - aligned(b, lo), 1), lo)
    }
}

/// `a` is smaller than `b`.
pub open spec fn less(a: Number, b: Number) -> bool {
    if a.0 == 0 || b.0 == 0 {
        a.0 < b.0
    } else {
        a.1 < b.1 || (a.1 == b.1 && a.0 < b.0)
    }
}

/// A power of two.
pub open spec fn two_to(k: int) -> int {
    power2::pow2(k as nat) as int
}

/// The whole part of a number.
pub open spec fn whole(a: Number) -> int {
    if a.1 >= 0 {
        a.0 * two_to(a.1)
    } else {
        a.0 / two_to(-a.1)
    }
}

/// The whole number nearest to a number, halves up.
pub open spec fn rounded(a: Number) -> int {
    if a.1 >= 0 {
        a.0 * two_to(a.1)
    } else {
        (2 * a.0 + two_to(-a.1)) / (2 * two_to(-a.1))
    }
}

/// A number with a sign: whether it is below zero, and its size.
pub type Signed = (bool, Number);

/// One signed number plus another.
pub open spec fn signed_sum(a: Signed, b: Signed) -> Signed {
    if a.0 == b.0 {
        (a.0, sum(a.1, b.1))
    } else if less(a.1, b.1) {
        (b.0, gap(a.1, b.1))
    } else {
        (a.0, gap(a.1, b.1))
    }
}

/// A whole number, below zero or not, no further from zero than a number of 64 bits can be.
pub open spec fn saturated(below: bool, n: int) -> int {
    if below {
        -up_to(n, 0x8000_0000_0000_0000)
    } else {
        up_to(n, i64::MAX as int)
    }
}

/// The whole number nearest to a signed number, halves away from zero.
pub open spec fn signed_rounded(a: Signed) -> int {
    saturated(a.0, rounded(a.1))
}

/// At most `cap`.
pub open spec fn up_to(n: int, cap: int) -> int {
    if n <= cap {
        n
    } else {
        cap
    }
}

/// A number in double precision.
#[derive(Clone, Copy)]
pub struct Double {
    m: u64,
    e: i64,
}

/// A significand between the limits keeps them when it is rounded.
proof fn half_even_fits(n: int, d: int)
    requires
        d > 0,
        LOW * d <= n < HIGH * d,
    ensures
        LOW <= half_even(n, d) <= HIGH,
{
    assert(LOW <= n / d < HIGH) by (nonlinear_arith)
        requires
            d > 0,
            0x10_0000_0000_0000 * d <= n < 0x20_0000_0000_0000 * d,
            LOW == 0x10_0000_0000_0000,
            HIGH == 0x20_0000_0000_0000,
    ;
}

/// The nearest number to a positive fraction has 53 bits.
pub proof fn nearest_is_number(n: int, d: int)
    requires
        n > 0,
        d > 0,
    ensures
        LOW <= nearest(n, d).0 < HIGH,
    decreases distance(n, d),
{
    if n < LOW * d {
        nearest_is_number(2 * n, d);
    } else if n >= HIGH * d {
        nearest_is_number(n, 2 * d);
    } else {
        half_even_fits(n, d);
    }
}

proof fn large_powers()
    ensures
        power2::pow2(0) == 1,
        power2::pow2(52) == LOW,
        power2::pow2(53) == HIGH,
        power2::pow2(63) == 0x8000_0000_0000_0000,
        power2::pow2(107) == 0x40_0000_0000_0000 * 0x20_0000_0000_0000,
{
    power2::lemma2_to64();
    power2::lemma2_to64_rest();
    power2::lemma_pow2_adds(53, 54);
}

impl Double {
    /// Significand and exponent.
    pub closed spec fn number(self) -> Number {
        (self.m as int, self.e as int)
    }

    /// How far the exponent is from zero.
    pub open spec fn size(self) -> int {
        if self.number().1 < 0 {
            -self.number().1
        } else {
            self.number().1
        }
    }

    /// The number is zero, or its significand has 53 bits.
    pub open spec fn wf(self) -> bool {
        is_number(self.number())
    }

    /// The number nearest to `n / d`.
    fn near(n: u128, d: u128) -> (r: Self)
        requires
            n <= 0x20_0000_0000_0000 * 0x2000_0000_0000_0000,
            0 < d <= 0x20_0000_0000_0000,
        ensures
            r.number() == nearest(n as int, d as int),
            r.wf(),
            r.size() <= 300,
    {
        if n == 0 {
            return Double { m: 0, e: 0 };
        }
        let mut p: u128 = n;
        let mut q: u128 = d;
        let mut e: i64 = 0;
        assert(shifted(nearest(n as int, d as int), 0) == nearest(n as int, d as int));
        proof {
            large_powers();
        }
        while p < LOW as u128 * q
            invariant
                0 < n <= p < HIGH * q || p == n,
                0 < p,
                0 < q <= 0x20_0000_0000_0000,
                q == d,
                e <= 0,
                n <= 0x20_0000_0000_0000 * 0x2000_0000_0000_0000,
                p <= 0x20_0000_0000_0000 * 0x2000_0000_0000_0000,
                power2::pow2((-e) as nat) <= p,
                power2::pow2(107) == 0x40_0000_0000_0000 * 0x20_0000_0000_0000,
                -200 <= e,
                nearest(n as int, d as int) == shifted(nearest(p as int, q as int), e as int),
            decreases 200 + e,
        {
            proof {
                power2::lemma_pow2_unfold((1 - e) as nat);
                if -e >= 107 {
                    if -e > 107 {
                        power2::lemma_pow2_strictly_increases(107, (-e) as nat);
                    }
                    assert(false);
                }
            }
            p = 2 * p;
            e = e - 1;
        }
        let mut k: i64 = 0;
        while p >= HIGH as u128 * q
            invariant
                0 < p <= 0x20_0000_0000_0000 * 0x2000_0000_0000_0000,
                0 < q,
                0 <= k <= 200,
                -200 <= e <= 0,
                HIGH * q <= 2 * p || k == 0,
                q <= 0x4000_0000_0000_0000,
                power2::pow2(k as nat) <= q,
                power2::pow2(63) == 0x8000_0000_0000_0000,
                LOW * q <= p,
                nearest(n as int, d as int) == shifted(nearest(p as int, q as int), e + k),
            decreases 200 - k,
        {
            proof {
                power2::lemma_pow2_unfold((k + 1) as nat);
                if k >= 63 {
                    if k > 63 {
                        power2::lemma_pow2_strictly_increases(63, k as nat);
                    }
                    assert(false);
                }
            }
            q = 2 * q;
            k = k + 1;
        }
        let whole: u128 = p / q;
        let rest: u128 = p % q;
        proof {
            half_even_fits(p as int, q as int);
        }
        let m: u128 = if 2 * rest < q || (2 * rest == q && whole % 2 == 0) {
            whole
        } else {
            whole + 1
        };
        if m == HIGH as u128 {
            Double { m: LOW, e: e + k + 1 }
        } else {
            Double { m: m as u64, e: e + k }
        }
    }

    /// A whole number.
    pub fn count(n: u64) -> (r: Self)
        ensures
            r.number() == of(n as int),
            r.wf(),
            r.size() <= 300,
    {
        Self::near(n as u128, 1)
    }

    /// A fraction of whole numbers.
    pub fn fraction(n: u32, d: u32) -> (r: Self)
        requires
            d > 0,
        ensures
            r.number() == nearest(n as int, d as int),
            r.wf(),
            r.size() <= 300,
    {
        Self::near(n as u128, d as u128)
    }

    /// One number divided by another.
    pub fn over(self, b: Self) -> (r: Self)
        requires
            self.wf(),
            b.wf(),
            b.number().0 > 0,
            self.size() <= 1_000_000,
            b.size() <= 1_000_000,
        ensures
            r.number() == quotient(self.number(), b.number()),
            r.wf(),
            r.size() <= self.size() + b.size() + 300,
    {
        if self.m == 0 {
            return Double { m: 0, e: 0 };
        }
        let r = Self::near(self.m as u128, b.m as u128);
        proof {
            nearest_is_number(self.m as int, b.m as int);
        }
        Double { m: r.m, e: r.e + self.e - b.e }
    }

    /// One number times another.
    pub fn times(self, b: Self) -> (r: Self)
        requires
            self.wf(),
            b.wf(),
            self.size() <= 1_000_000,
            b.size() <= 1_000_000,
        ensures
            r.number() == product(self.number(), b.number()),
            r.wf(),
            r.size() <= self.size() + b.size() + 300,
    {
        if self.m == 0 || b.m == 0 {
            return Double { m: 0, e: 0 };
        }
        proof {
            let (x, y) = (self.m as int, b.m as int);
            assert(0 < x * y <= 0x20_0000_0000_0000 * 0x20_0000_0000_0000) by (nonlinear_arith)
                requires
                    0 < x <= 0x20_0000_0000_0000,
                    0 < y <= 0x20_0000_0000_0000,
            ;
            nearest_is_number(x * y, 1);
        }
        let r = Self::near(self.m as u128 * b.m as u128, 1);
        Double { m: r.m, e: r.e + self.e + b.e }
    }

    /// Whether one number is smaller than another.
    pub fn is_less(self, b: Self) -> (r: bool)
        ensures
            r == less(self.number(), b.number()),
    {
        if self.m == 0 || b.m == 0 {
            self.m < b.m
        } else {
            self.e < b.e || (self.e == b.e && self.m < b.m)
        }
    }

    /// The number without its fraction, at most `cap`, where it has none.
    fn scaled_up(self, cap: u64) -> (r: u64)
        requires
            self.number().1 >= 0,
        ensures
            r == up_to(self.number().0 * two_to(self.number().1), cap as int),
    {
        let mut v: u128 = self.m as u128;
        let mut k: i64 = 0;
        proof {
            power2::lemma2_to64();
            assert(two_to(0) == 1);
            assert(self.m * 1 == self.m);
        }
        while k < self.e && v <= cap as u128
            invariant
                0 <= k <= self.e,
                v == self.m * two_to(k as int),
            decreases self.e - k,
        {
            proof {
                power2::lemma_pow2_unfold((k + 1) as nat);
                let (m, t) = (self.m as int, two_to(k as int));
                assert(m * (2 * t) == 2 * (m * t)) by (nonlinear_arith);
            }
            v = 2 * v;
            k = k + 1;
        }
        if v <= cap as u128 {
            v as u64
        } else {
            proof {
                if k < self.e {
                    power2::lemma_pow2_strictly_increases(k as nat, self.e as nat);
                    let (m, s, t) = (self.m as int, two_to(k as int), two_to(self.e as int));
                    assert(m * s <= m * t) by (nonlinear_arith)
                        requires
                            0 <= m,
                            s <= t,
                    ;
                }
            }
            cap
        }
    }

    /// A power of two.
    fn power(k: i64) -> (r: u128)
        requires
            0 <= k <= 60,
        ensures
            r == two_to(k as int),
            0 < r <= 0x1000_0000_0000_0000,
    {
        let mut r: u128 = 1;
        let mut i: i64 = 0;
        proof {
            power2::lemma2_to64();
            power2::lemma2_to64_rest();
        }
        while i < k
            invariant
                0 <= i <= k <= 60,
                r == two_to(i as int),
                power2::pow2(60) == 0x1000_0000_0000_0000,
                0 < r <= 0x1000_0000_0000_0000,
            decreases k - i,
        {
            proof {
                power2::lemma_pow2_unfold((i + 1) as nat);
                if i + 1 < 60 {
                    power2::lemma_pow2_strictly_increases((i + 1) as nat, 60);
                }
            }
            r = 2 * r;
            i = i + 1;
        }
        r
    }

    /// The nearest whole number, halves up, and at most `cap`.
    pub fn rounded_up_to(self, cap: u64) -> (r: u64)
        requires
            self.wf(),
            self.size() <= 1_000_000,
        ensures
            r == up_to(rounded(self.number()), cap as int),
    {
        if self.e >= 0 {
            return self.scaled_up(cap);
        }
        if self.e < -60 {
            proof {
                tiny_numbers(self.m as int, -self.e);
            }
            return 0;
        }
        let d: u128 = Self::power(-self.e);
        let n: u128 = (2 * self.m as u128 + d) / (2 * d);
        if n <= cap as u128 {
            n as u64
        } else {
            cap
        }
    }

    /// The whole part, at most `cap`.
    pub fn whole_up_to(self, cap: u64) -> (r: u64)
        requires
            self.wf(),
            self.size() <= 1_000_000,
        ensures
            r == up_to(whole(self.number()), cap as int),
    {
        if self.e >= 0 {
            return self.scaled_up(cap);
        }
        if self.e < -60 {
            proof {
                tiny_numbers(self.m as int, -self.e);
            }
            return 0;
        }
        let d: u128 = Self::power(-self.e);
        let n: u128 = self.m as u128 / d;
        if n <= cap as u128 {
            n as u64
        } else {
            cap
        }
    }

    /// The larger of two numbers with the smaller added or taken away.
    fn join(a: Self, b: Self, add: bool) -> (r: Self)
        requires
            a.number().0 >= LOW,
            b.number().0 >= LOW,
            a.wf(),
            b.wf(),
            a.number().1 >= b.number().1,
            !add ==> less(b.number(), a.number()),
            a.size() <= 1_000_000,
            b.size() <= 1_000_000,
        ensures
            r.number() == (if add {
                sum(a.number(), b.number())
            } else {
                gap(a.number(), b.number())
            }),
            r.wf(),
            r.size() <= a.size() + b.size() + 300,
    {
        let k: i64 = a.e - b.e;
        proof {
            power_is_positive(0);
            assert(b.m * 1 == b.m);
        }
        if k > 60 {
            proof {
                far_apart(a.m as int, b.m as int, k as int);
            }
            return a;
        }
        let t: u128 = Self::power(k);
        proof {
            let (m, u) = (a.m as int, t as int);
            assert(LOW * u <= m * u <= 0x1f_ffff_ffff_ffff * 0x1000_0000_0000_0000) by (nonlinear_arith)
                requires
                    LOW <= m <= 0x1f_ffff_ffff_ffff,
                    0 < u <= 0x1000_0000_0000_0000,
            ;
            if k > 0 {
                power_is_positive(k - 1);
                assert(m * u >= HIGH) by (nonlinear_arith)
                    requires
                        m >= LOW,
                        u >= 2,
                        HIGH == 2 * LOW,
                ;
            } else {
                assert(m * u == m) by (nonlinear_arith)
                    requires
                        u == 1,
                ;
            }
        }
        let big: u128 = a.m as u128 * t;
        let n: u128 = if add {
            big + b.m as u128
        } else {
            big - b.m as u128
        };
        let r = Self::near(n, 1);
        proof {
            nearest_is_number(n as int, 1);
        }
        Double { m: r.m, e: r.e + b.e }
    }

    /// One number plus another.
    pub fn plus(self, b: Self) -> (r: Self)
        requires
            self.wf(),
            b.wf(),
            self.size() <= 1_000_000,
            b.size() <= 1_000_000,
        ensures
            r.number() == sum(self.number(), b.number()),
            r.wf(),
            r.size() <= self.size() + b.size() + 300,
    {
        if self.m == 0 {
            return b;
        }
        if b.m == 0 {
            return self;
        }
        if self.e >= b.e {
            Self::join(self, b, true)
        } else {
            Self::join(b, self, true)
        }
    }

    /// How far two numbers are apart.
    pub fn apart(self, b: Self) -> (r: Self)
        requires
            self.wf(),
            b.wf(),
            self.size() <= 1_000_000,
            b.size() <= 1_000_000,
        ensures
            r.number() == gap(self.number(), b.number()),
            r.wf(),
            r.size() <= self.size() + b.size() + 300,
    {
        if self.m == b.m && self.e == b.e {
            return Double { m: 0, e: 0 };
        }
        if self.m == 0 {
            return b;
        }
        if b.m == 0 {
            return self;
        }
        if self.is_less(b) {
            Self::join(b, self, false)
        } else {
            Self::join(self, b, false)
        }
    }
}

/// A number in double precision with a sign.
#[derive(Clone, Copy)]
pub struct SignedDouble {
    /// Whether the number is below zero.
    pub below: bool,
    pub size: Double,
}

impl SignedDouble {
    /// Sign and size.
    pub open spec fn number(self) -> Signed {
        (self.below, self.size.number())
    }

    /// The size is a number, with an exponent no further from zero than `k`.
    pub open spec fn within(self, k: int) -> bool {
        self.size.wf() && self.size.size() <= k
    }

    /// A whole number over a positive one.
    pub fn share(part: i64, whole: i64) -> (r: Self)
        requires
            whole > 0,
        ensures
            r.number() == (part < 0, quotient(of(magnitude(part as int)), of(whole as int))),
            r.within(1000),
    {
        proof {
            nearest_is_number(whole as int, 1);
        }
        SignedDouble { below: part < 0, size: Double::count(magnitude_of(part)).over(Double::count(whole as u64)) }
    }

    /// One number plus another.
    pub fn plus(self, b: Self) -> (r: Self)
        requires
            self.within(10_000),
            b.within(10_000),
        ensures
            r.number() == signed_sum(self.number(), b.number()),
            r.within(self.size.size() + b.size.size() + 300),
    {
        if self.below == b.below {
            SignedDouble { below: self.below, size: self.size.plus(b.size) }
        } else if self.size.is_less(b.size) {
            SignedDouble { below: b.below, size: self.size.apart(b.size) }
        } else {
            SignedDouble { below: self.below, size: self.size.apart(b.size) }
        }
    }

    /// The nearest whole number, halves away from zero.
    pub fn nearest_whole(self) -> (r: i64)
        requires
            self.within(1_000_000),
        ensures
            r == signed_rounded(self.number()),
    {
        if self.below {
            let n: u64 = self.size.rounded_up_to(0x8000_0000_0000_0000);
            (-(n as i128)) as i64
        } else {
            self.size.rounded_up_to(i64::MAX as u64) as i64
        }
    }
}

/// A number without its sign.
pub open spec fn magnitude(n: int) -> int {
    if n < 0 {
        -n
    } else {
        n
    }
}

/// A number without its sign.
pub fn magnitude_of(n: i64) -> (r: u64)
    ensures
        r == magnitude(n as int),
{
    if n < 0 {
        (-(n as i128)) as u64
    } else {
        n as u64
    }
}

/// A number that is far smaller changes nothing.
proof fn far_apart(m: int, s: int, k: int)
    requires
        LOW <= m < HIGH,
        0 < s < HIGH,
        k > 60,
    ensures
        nearest(m * two_to(k) + s, 1) == (m, k),
        nearest(m * two_to(k) - s, 1) == (m, k),
{
    power_is_positive(0);
    far_fraction(m, s, k, 0);
    far_fraction(m, -s, k, 0);
}

proof fn far_fraction(m: int, s: int, k: int, j: int)
    requires
        LOW <= m < HIGH,
        -HIGH < s < HIGH,
        k > 60,
        0 <= j <= k,
        j == k ==> LOW * two_to(k) <= m * two_to(k) + s,
    ensures
        nearest(m * two_to(k) + s, two_to(j)) == (m, k - j),
    decreases k - j,
{
    power2::lemma2_to64_rest();
    power_is_positive(j);
    power_is_positive(k - 1);
    power_is_positive(k);
    let (t, u) = (two_to(k), two_to(j));
    let n = m * t + s;
    if k > 61 {
        power2::lemma_pow2_strictly_increases(60, (k - 1) as nat);
    }
    assert(t >= 256 * HIGH);
    assert(LOW * t <= m * t <= HIGH * t - t) by (nonlinear_arith)
        requires
            LOW <= m <= HIGH - 1,
            t > 0,
    ;
    if j == k {
        let (q, r) = if s >= 0 {
            (m, s)
        } else {
            (m - 1, t + s)
        };
        assert(n == q * t + r) by (nonlinear_arith)
            requires
                n == m * t + s,
                (q == m && r == s) || (q == m - 1 && r == t + s),
        ;
        div_mod::lemma_fundamental_div_mod_converse(n, t, q, r);
    } else if j == k - 1 && n < HIGH * u {
        // Just below a power of two.
        assert(t == 2 * u);
        assert(m == LOW) by (nonlinear_arith)
            requires
                m * (2 * u) + s < HIGH * u,
                m >= LOW,
                HIGH == 2 * LOW,
                s > -HIGH,
                u >= 128 * HIGH,
        ;
        assert(LOW * t == HIGH * u) by (nonlinear_arith)
            requires
                t == 2 * u,
                HIGH == 2 * LOW,
        ;
        let (q, r) = (HIGH - 1, u + s);
        assert(n == q * u + r) by (nonlinear_arith)
            requires
                n == HIGH * u + s,
                q == HIGH - 1,
                r == u + s,
        ;
        div_mod::lemma_fundamental_div_mod_converse(n, u, q, r);
        assert(half_even(n, u) == HIGH);
        assert(LOW * u <= n);
    } else {
        if j < k - 1 {
            power2::lemma_pow2_strictly_increases(j as nat, (k - 1) as nat);
            assert(4 * u <= t) by {
                power_is_positive(j + 1);
                if j + 1 < k - 1 {
                    power2::lemma_pow2_strictly_increases((j + 1) as nat, (k - 1) as nat);
                }
            }
            assert(HIGH * u <= n) by (nonlinear_arith)
                requires
                    LOW * t <= n - s,
                    4 * u <= t,
                    HIGH == 2 * LOW,
                    s > -HIGH,
                    t >= 256 * HIGH,
                    LOW >= 4,
            ;
        } else {
            assert(LOW * t == HIGH * u) by (nonlinear_arith)
                requires
                    t == 2 * u,
                    HIGH == 2 * LOW,
            ;
        }
        far_fraction(m, s, k, j + 1);
    }
}

/// Numbers below one half round to nothing.
proof fn tiny_numbers(m: int, k: int)
    requires
        0 <= m < HIGH,
        k > 60,
    ensures
        (2 * m + two_to(k)) / (2 * two_to(k)) == 0,
        m / two_to(k) == 0,
{
    power2::lemma2_to64_rest();
    power2::lemma_pow2_strictly_increases(60, k as nat);
    let d = two_to(k);
    div_mod::lemma_basic_div(2 * m + d, 2 * d);
    div_mod::lemma_basic_div(m, d);
}

/// `a` is no larger than `b`.
pub open spec fn no_larger(a: Number, b: Number) -> bool {
    !less(b, a)
}

proof fn half_even_grows(a: int, b: int, d: int)
    requires
        d > 0,
        a <= b,
    ensures
        half_even(a, d) <= half_even(b, d),
{
    div_mod::lemma_div_is_ordered(a, b, d);
    div_mod::lemma_fundamental_div_mod(a, d);
    div_mod::lemma_fundamental_div_mod(b, d);
}

proof fn half_even_scales(n: int, d: int)
    requires
        d > 0,
    ensures
        half_even(2 * n, 2 * d) == half_even(n, d),
{
    let (q, r) = (n / d, n % d);
    div_mod::lemma_fundamental_div_mod(n, d);
    div_mod::lemma_mod_bound(n, d);
    assert(2 * n == q * (2 * d) + 2 * r) by (nonlinear_arith)
        requires
            n == d * q + r,
    ;
    div_mod::lemma_fundamental_div_mod_converse(2 * n, 2 * d, q, 2 * r);
}

/// A fraction below `LOW` is no larger than it when it is rounded, nor is one below `HIGH`.
proof fn nearest_below(n: int, d: int)
    requires
        n > 0,
        d > 0,
        n < HIGH * d,
    ensures
        no_larger(nearest(n, d), (LOW as int, 1)),
        n < LOW * d ==> no_larger(nearest(n, d), (LOW as int, 0)),
    decreases distance(n, d),
{
    nearest_is_number(n, d);
    if n < LOW * d {
        nearest_is_number(2 * n, d);
        nearest_below(2 * n, d);
    } else {
        half_even_fits(n, d);
    }
}

/// A fraction from `LOW` on is no smaller than it when it is rounded, nor is one from `HIGH` on.
proof fn nearest_above(n: int, d: int)
    requires
        d > 0,
        n >= LOW * d,
    ensures
        no_larger((LOW as int, 0), nearest(n, d)),
        n >= HIGH * d ==> no_larger((LOW as int, 1), nearest(n, d)),
    decreases distance(n, d),
{
    nearest_is_number(n, d);
    if n >= HIGH * d {
        nearest_is_number(n, 2 * d);
        nearest_above(n, 2 * d);
    } else {
        half_even_fits(n, d);
    }
}

/// Rounding keeps the order of fractions with the same denominator.
pub proof fn nearest_grows(a: int, b: int, d: int)
    requires
        d > 0,
        a <= b,
    ensures
        no_larger(nearest(a, d), nearest(b, d)),
    decreases distance(a, d) + distance(b, d),
{
    if b > 0 {
        nearest_is_number(b, d);
    }
    if a > 0 {
        nearest_is_number(a, d);
        if b < LOW * d {
            nearest_grows(2 * a, 2 * b, d);
            nearest_is_number(2 * a, d);
            nearest_is_number(2 * b, d);
        } else if a >= HIGH * d {
            nearest_grows(a, b, 2 * d);
            nearest_is_number(a, 2 * d);
            nearest_is_number(b, 2 * d);
        } else if a < LOW * d {
            nearest_below(a, d);
            nearest_above(b, d);
        } else if b >= HIGH * d {
            nearest_below(a, d);
            nearest_above(b, d);
        } else {
            half_even_grows(a, b, d);
            half_even_fits(a, d);
            half_even_fits(b, d);
        }
    }
}

/// Rounding does not mind whether a fraction is reduced.
proof fn nearest_scales(n: int, d: int)
    requires
        n > 0,
        d > 0,
    ensures
        nearest(2 * n, 2 * d) == nearest(n, d),
    decreases distance(n, d),
{
    if n < LOW * d {
        nearest_scales(2 * n, d);
    } else if n >= HIGH * d {
        nearest_scales(n, 2 * d);
    } else {
        half_even_scales(n, d);
    }
}

/// Twice a fraction has the same significand and the next exponent.
pub proof fn nearest_doubles(n: int, d: int)
    requires
        n > 0,
        d > 0,
    ensures
        nearest(2 * n, d) == shifted(nearest(n, d), 1),
    decreases distance(n, d),
{
    if n >= HIGH * d {
        nearest_doubles(n, 2 * d);
        nearest_scales(n, d);
    } else if n >= LOW * d {
        nearest_scales(n, d);
    }
}

/// The larger of two numbers has the larger quotient.
pub proof fn quotients_grow(a: Number, b: Number, d: Number)
    requires
        is_number(a),
        is_number(b),
        d.0 > 0,
        no_larger(a, b),
    ensures
        no_larger(quotient(a, d), quotient(b, d)),
        is_number(quotient(a, d)),
{
    if b.0 > 0 {
        nearest_is_number(b.0, d.0);
    }
    if a.0 > 0 {
        nearest_is_number(a.0, d.0);
        if a.1 == b.1 {
            nearest_grows(a.0, b.0, d.0);
        } else {
            nearest_grows(a.0, 2 * b.0, d.0);
            nearest_doubles(b.0, d.0);
        }
    }
}

/// The larger of two numbers has the larger product.
pub proof fn products_grow(a: Number, b: Number, c: Number)
    requires
        is_number(a),
        is_number(b),
        is_number(c),
        no_larger(a, b),
    ensures
        no_larger(product(a, c), product(b, c)),
        is_number(product(a, c)),
{
    if c.0 > 0 {
        if b.0 > 0 {
            assert(b.0 * c.0 > 0) by (nonlinear_arith)
                requires
                    b.0 > 0,
                    c.0 > 0,
            ;
            nearest_is_number(b.0 * c.0, 1);
        }
        if a.0 > 0 {
            assert(a.0 * c.0 > 0) by (nonlinear_arith)
                requires
                    a.0 > 0,
                    c.0 > 0,
            ;
            nearest_is_number(a.0 * c.0, 1);
            if a.1 == b.1 {
                assert(a.0 * c.0 <= b.0 * c.0) by (nonlinear_arith)
                    requires
                        a.0 <= b.0,
                        c.0 > 0,
                ;
                nearest_grows(a.0 * c.0, b.0 * c.0, 1);
            } else {
                assert(a.0 * c.0 <= 2 * (b.0 * c.0)) by (nonlinear_arith)
                    requires
                        a.0 <= 2 * b.0,
                        c.0 > 0,
                ;
                nearest_grows(a.0 * c.0, 2 * (b.0 * c.0), 1);
                nearest_doubles(b.0 * c.0, 1);
            }
        }
    }
}

proof fn power_is_positive(k: int)
    requires
        k >= 0,
    ensures
        two_to(k) > 0,
        two_to(k + 1) == 2 * two_to(k),
        two_to(0) == 1,
{
    power2::lemma_pow2_pos(k as nat);
    power2::lemma_pow2_unfold((k + 1) as nat);
    power2::lemma2_to64();
}

/// Of two numbers with the same exponent the larger rounds to no less.
proof fn significands_round_in_order(m: int, n: int, e: int)
    requires
        0 <= m <= n,
    ensures
        0 <= rounded((m, e)) <= rounded((n, e)),
{
    if e >= 0 {
        power_is_positive(e);
        let t = two_to(e);
        assert(0 <= m * t <= n * t) by (nonlinear_arith)
            requires
                0 <= m <= n,
                t > 0,
        ;
    } else {
        power_is_positive(-e);
        let t = two_to(-e);
        div_mod::lemma_div_is_ordered(2 * m + t, 2 * n + t, 2 * t);
        div_mod::lemma_div_pos_is_pos(2 * m + t, 2 * t);
    }
}

/// Half the significand with the next exponent is the same number.
proof fn next_exponent_rounds_alike(m: int, e: int)
    requires
        m >= 0,
    ensures
        rounded((2 * m, e)) == rounded((m, e + 1)),
{
    if e >= 0 {
        power_is_positive(e);
        let t = two_to(e);
        assert(2 * m * t == m * (2 * t)) by (nonlinear_arith);
    } else if e == -1 {
        power_is_positive(0);
        assert(two_to(1) == 2);
        assert(m * 1 == m);
        assert((2 * (2 * m) + 2) / 4 == m);
    } else {
        power_is_positive(-e - 1);
        let t = two_to(-e - 1);
        half_of_both(2 * m + t, 2 * t);
        assert(rounded((2 * m, e)) == (2 * (2 * m + t)) / (2 * (2 * t)));
    }
}

proof fn half_of_both(n: int, d: int)
    requires
        d > 0,
    ensures
        (2 * n) / (2 * d) == n / d,
{
    let (q, r) = (n / d, n % d);
    div_mod::lemma_fundamental_div_mod(n, d);
    div_mod::lemma_mod_bound(n, d);
    assert(2 * n == q * (2 * d) + 2 * r) by (nonlinear_arith)
        requires
            n == d * q + r,
    ;
    div_mod::lemma_fundamental_div_mod_converse(2 * n, 2 * d, q, 2 * r);
}

proof fn low_numbers_round_in_order(e: int, f: int)
    requires
        e <= f,
    ensures
        rounded((LOW as int, e)) <= rounded((LOW as int, f)),
    decreases f - e,
{
    if e < f {
        significands_round_in_order(LOW as int, 2 * LOW, e);
        next_exponent_rounds_alike(LOW as int, e);
        low_numbers_round_in_order(e + 1, f);
    }
}

/// The larger of two numbers rounds to no less.
pub proof fn rounding_keeps_order(a: Number, b: Number)
    requires
        is_number(a),
        is_number(b),
        no_larger(a, b),
    ensures
        0 <= rounded(a) <= rounded(b),
{
    significands_round_in_order(0, b.0, b.1);
    if a.0 == 0 {
        power_is_positive(0);
        assert(rounded(a) == 0);
    } else if a.1 == b.1 {
        significands_round_in_order(a.0, b.0, a.1);
    } else {
        significands_round_in_order(a.0, 2 * LOW, a.1);
        next_exponent_rounds_alike(LOW as int, a.1);
        low_numbers_round_in_order(a.1 + 1, b.1);
        significands_round_in_order(LOW as int, b.0, b.1);
    }
}

/// A number divided by itself is one.
pub proof fn quotient_of_equals(a: Number)
    requires
        a.0 > 0,
    ensures
        quotient(a, a) == (LOW as int, -52int),
{
    large_powers();
    power_is_positive(0);
    equals_divided(a.0, 0);
    assert(a.0 * 1 == a.0);
}

proof fn equals_divided(m: int, j: int)
    requires
        m > 0,
        0 <= j <= 52,
    ensures
        nearest(m * two_to(j), m) == (LOW as int, j - 52),
    decreases 52 - j,
{
    large_powers();
    let t = two_to(j);
    if j == 52 {
        assert(m * LOW < HIGH * m) by (nonlinear_arith)
            requires
                m > 0,
                LOW == 0x10_0000_0000_0000,
                HIGH == 0x20_0000_0000_0000,
        ;
        div_mod::lemma_div_multiples_vanish(LOW as int, m);
        div_mod::lemma_mod_multiples_basic(LOW as int, m);
        assert(m * LOW == LOW * m) by (nonlinear_arith);
    } else {
        power2::lemma_pow2_strictly_increases(j as nat, 52);
        power_is_positive(j);
        assert(0 < m * t < LOW * m) by (nonlinear_arith)
            requires
                m > 0,
                0 < t < LOW,
        ;
        equals_divided(m, j + 1);
        assert(m * (2 * t) == 2 * (m * t)) by (nonlinear_arith);
    }
}

/// One times a number is the number.
pub proof fn one_times(a: Number)
    requires
        is_number(a),
    ensures
        product((LOW as int, -52int), a) == a,
{
    if a.0 > 0 {
        power_is_positive(0);
        one_divided(a.0, 0);
    }
}

proof fn one_divided(m: int, j: int)
    requires
        LOW <= m < HIGH,
        0 <= j <= 52,
    ensures
        nearest(LOW * m, two_to(j)) == (m, 52 - j),
    decreases 52 - j,
{
    large_powers();
    let t = two_to(j);
    if j == 52 {
        assert(LOW * LOW <= LOW * m < HIGH * LOW) by (nonlinear_arith)
            requires
                LOW <= m < HIGH,
                LOW > 0,
        ;
        div_mod::lemma_div_multiples_vanish(m, LOW as int);
        div_mod::lemma_mod_multiples_basic(m, LOW as int);
        assert(LOW * m == m * LOW) by (nonlinear_arith);
    } else {
        power2::lemma_pow2_strictly_increases(j as nat, 52);
        power_is_positive(j);
        power_is_positive(j + 1);
        if j < 51 {
            power2::lemma_pow2_strictly_increases((j + 1) as nat, 52);
        }
        assert(HIGH * t <= LOW * m) by (nonlinear_arith)
            requires
                0 < 2 * t <= LOW,
                LOW <= m,
                HIGH == 2 * LOW,
        ;
        assert(LOW * m > 0);
        one_divided(m, j + 1);
    }
}

proof fn count_form(n: int) -> (k: int)
    requires
        0 < n < HIGH,
    ensures
        k >= 0,
        of(n) == (n * two_to(k), -k),
    decreases distance(n, 1),
{
    power_is_positive(0);
    if n < LOW {
        let k = count_form(2 * n);
        power_is_positive(k);
        let t = two_to(k);
        assert(2 * n * t == n * (2 * t)) by (nonlinear_arith);
        k + 1
    } else {
        assert(half_even(n, 1) == n);
        assert(n * 1 == n);
        0
    }
}

/// A whole number of up to 53 bits is exact.
pub proof fn counts_are_exact(n: int)
    requires
        0 <= n <= HIGH,
    ensures
        rounded(of(n)) == n,
        is_number(of(n)),
{
    power_is_positive(0);
    if n == HIGH {
        nearest_is_number(n, 1);
        assert(half_even(n, 2) == LOW);
        assert(nearest(n, 2) == (LOW as int, 0int));
        assert(two_to(1) == 2);
    } else if n > 0 {
        nearest_is_number(n, 1);
        let k = count_form(n);
        power_is_positive(k);
        let t = two_to(k);
        if k > 0 {
            assert(2 * (n * t) + t == n * (2 * t) + t) by (nonlinear_arith);
            div_mod::lemma_fundamental_div_mod_converse(2 * (n * t) + t, 2 * t, n, t);
        } else {
            assert(n * 1 == n);
            assert(n * 1 * 1 == n);
        }
    }
}

/// A fraction of small numbers below one is smaller than one.
pub proof fn below_one(n: int, d: int)
    requires
        0 < n < d <= 0x1_0000_0000,
    ensures
        less(nearest(n, d), (LOW as int, -52int)),
{
    power_is_positive(0);
    assert(n * 1 == n);
    scaled_below(n, d, 0);
}

proof fn scaled_below(n: int, d: int, j: int)
    requires
        0 < n < d <= 0x1_0000_0000,
        0 <= j <= 52,
    ensures
        less(nearest(n * two_to(j), d), (LOW as int, j - 52)),
    decreases 52 - j,
{
    large_powers();
    power_is_positive(j);
    let t = two_to(j);
    if j == 52 {
        // The next step up is a full `LOW` away from rounding.
        assert(0 < n * LOW < LOW * d) by (nonlinear_arith)
            requires
                0 < n < d,
                LOW > 0,
        ;
        nearest_below_low(n * LOW, d, n);
    } else {
        power2::lemma_pow2_strictly_increases(j as nat, 52);
        assert(0 < n * t < LOW * d) by (nonlinear_arith)
            requires
                0 < n < d,
                0 < t < LOW,
        ;
        scaled_below(n, d, j + 1);
        assert(n * (2 * t) == 2 * (n * t)) by (nonlinear_arith);
        nearest_is_number(n * t, d);
        nearest_is_number(2 * (n * t), d);
    }
}

/// What is a whole denominator below `LOW` stays below it when it is rounded.
proof fn nearest_below_low(p: int, d: int, n: int)
    requires
        0 < n < d <= 0x1_0000_0000,
        p == n * LOW,
    ensures
        less(nearest(p, d), (LOW as int, 0int)),
{
    assert(0 < p && p + LOW <= LOW * d) by (nonlinear_arith)
        requires
            0 < n < d,
            p == n * LOW,
            LOW > 0,
    ;
    nearest_is_number(p, d);
    nearest_is_number(2 * p, d);
    if 2 * p >= LOW * d {
        half_even_fits(2 * p, d);
        assert(half_even(2 * p, d) < HIGH) by {
            let (q, r) = ((2 * p) / d, (2 * p) % d);
            div_mod::lemma_fundamental_div_mod(2 * p, d);
            div_mod::lemma_mod_bound(2 * p, d);
            assert(q + 1 < HIGH) by (nonlinear_arith)
                requires
                    2 * p == d * q + r,
                    0 <= r < d,
                    2 * p + HIGH <= HIGH * d,
                    0 < d <= 0x1_0000_0000,
                    HIGH == 0x20_0000_0000_0000,
            ;
        }
    } else {
        nearest_below(2 * p, d);
    }
}

/// The number one.
pub proof fn one_is_one()
    ensures
        of(1) == (LOW as int, -52int),
{
    assert(half_even(1, 1) == 1);
    power_is_positive(0);
    equals_divided(1, 0);
}

/// The whole part of a number is not negative.
pub proof fn whole_is_not_negative(a: Number)
    requires
        is_number(a),
    ensures
        0 <= whole(a),
{
    if a.1 >= 0 {
        power_is_positive(a.1);
        let t = two_to(a.1);
        assert(0 <= a.0 * t) by (nonlinear_arith)
            requires
                0 <= a.0,
                t > 0,
        ;
    } else {
        power_is_positive(-a.1);
        div_mod::lemma_div_pos_is_pos(a.0, two_to(-a.1));
    }
}

/// A multiple of a power of two that has 53 bits is a number.
proof fn nearest_of_number(m: int, j: int)
    requires
        LOW <= m < HIGH,
        j >= 0,
    ensures
        m * two_to(j) > 0,
        nearest(m * two_to(j), 1) == (m, j),
    decreases j,
{
    power_is_positive(0);
    assert(m * 1 == m);
    if j == 0 {
        assert(half_even(m, 1) == m);
    } else {
        nearest_of_number(m, j - 1);
        power_is_positive(j - 1);
        let t = two_to(j - 1);
        assert(m * (2 * t) == 2 * (m * t)) by (nonlinear_arith);
        nearest_doubles(m * t, 1);
    }
}

/// Multiples of one power of two are in the order of their numbers.
proof fn aligned_in_order(a: Number, b: Number, lo: int)
    requires
        is_number(a),
        is_number(b),
        a.0 > 0,
        b.0 > 0,
        lo <= a.1,
        no_larger(a, b),
    ensures
        0 < aligned(a, lo) <= aligned(b, lo),
        a != b ==> aligned(a, lo) < aligned(b, lo),
{
    power_is_positive(a.1 - lo);
    let t = two_to(a.1 - lo);
    assert(0 < a.0 * t) by (nonlinear_arith)
        requires
            0 < a.0,
            t > 0,
    ;
    if a.1 == b.1 {
        assert(a.0 * t <= b.0 * t) by (nonlinear_arith)
            requires
                a.0 <= b.0,
                t > 0,
        ;
        if a.0 < b.0 {
            assert(a.0 * t < b.0 * t) by (nonlinear_arith)
                requires
                    a.0 < b.0,
                    t > 0,
            ;
        }
    } else {
        power_is_positive(b.1 - lo);
        if a.1 + 1 < b.1 {
            power2::lemma_pow2_strictly_increases((a.1 + 1 - lo) as nat, (b.1 - lo) as nat);
        }
        let u = two_to(b.1 - lo);
        assert(a.0 * t < b.0 * u) by (nonlinear_arith)
            requires
                0 < a.0 < 2 * b.0,
                0 < 2 * t <= u,
        ;
    }
}

/// Two shares of at most one come to at most two.
pub proof fn sum_of_shares(a: Number, b: Number)
    requires
        is_number(a),
        is_number(b),
        no_larger(a, (LOW as int, -52int)),
        no_larger(b, (LOW as int, -52int)),
    ensures
        is_number(sum(a, b)),
        no_larger(sum(a, b), (LOW as int, -51int)),
{
    let one = (LOW as int, -52int);
    if a.0 > 0 && b.0 > 0 {
        let lo = lower(a, b);
        aligned_in_order(a, one, lo);
        aligned_in_order(b, one, lo);
        let n = aligned(a, lo) + aligned(b, lo);
        nearest_of_number(LOW as int, -51 - lo);
        power_is_positive(-52 - lo);
        let t = two_to(-52 - lo);
        assert(LOW * (2 * t) == 2 * (LOW * t)) by (nonlinear_arith);
        nearest_grows(n, LOW * two_to(-51 - lo), 1);
        nearest_is_number(n, 1);
    }
}

/// Taking a number away leaves no more than there was.
pub proof fn gap_at_most(a: Number, b: Number)
    requires
        is_number(a),
        is_number(b),
        no_larger(b, a),
    ensures
        is_number(gap(a, b)),
        no_larger(gap(a, b), a),
{
    if a != b && b.0 > 0 {
        let lo = b.1;
        aligned_in_order(b, a, lo);
        nearest_of_number(a.0, a.1 - lo);
        let n = aligned(a, lo) - aligned(b, lo);
        nearest_grows(n, aligned(a, lo), 1);
        nearest_is_number(n, 1);
    }
}

/// What is at most twice a number is no further from it than that number.
pub proof fn gap_to_half(a: Number, b: Number)
    requires
        is_number(a),
        is_number(b),
        b.0 > 0,
        no_larger(a, shifted(b, 1)),
    ensures
        is_number(gap(a, b)),
        no_larger(gap(a, b), b),
{
    if a != b && a.0 > 0 {
        if less(a, b) {
            let lo = a.1;
            aligned_in_order(a, b, lo);
            nearest_of_number(b.0, b.1 - lo);
            let n = aligned(b, lo) - aligned(a, lo);
            nearest_grows(n, aligned(b, lo), 1);
            nearest_is_number(n, 1);
        } else {
            let lo = b.1;
            let twice = shifted(b, 1);
            aligned_in_order(b, a, lo);
            aligned_in_order(a, twice, lo);
            power_is_positive(0);
            let (x, y) = (two_to(0), two_to(1));
            assert(b.0 * y == 2 * (b.0 * x)) by (nonlinear_arith)
                requires
                    y == 2 * x,
            ;
            nearest_of_number(b.0, 0);
            let n = aligned(a, lo) - aligned(b, lo);
            nearest_grows(n, aligned(b, lo), 1);
            nearest_is_number(n, 1);
        }
    }
}

proof fn half_even_reduces(n: int, d: int, k: int)
    requires
        d > 0,
        k > 0,
    ensures
        half_even(k * n, k * d) == half_even(n, d),
{
    let (q, r) = (n / d, n % d);
    div_mod::lemma_fundamental_div_mod(n, d);
    div_mod::lemma_mod_bound(n, d);
    assert(k * n == q * (k * d) + k * r && 0 <= k * r < k * d && k * d != 0) by (nonlinear_arith)
        requires
            n == d * q + r,
            0 <= r < d,
            k > 0,
            d > 0,
    ;
    div_mod::lemma_fundamental_div_mod_converse(k * n, k * d, q, k * r);
    assert((2 * (k * r) < k * d) == (2 * r < d) && (2 * (k * r) == k * d) == (2 * r == d)) by (nonlinear_arith)
        requires
            k > 0,
    ;
}

/// Rounding does not mind by what a fraction is reduced.
pub proof fn nearest_reduces(n: int, d: int, k: int)
    requires
        n > 0,
        d > 0,
        k > 0,
    ensures
        nearest(k * n, k * d) == nearest(n, d),
    decreases distance(n, d),
{
    assert(k * n > 0 && k * d > 0 && (k * n < LOW * (k * d)) == (n < LOW * d) && (k * n >= HIGH * (k * d)) == (n
        >= HIGH * d) && 2 * (k * n) == k * (2 * n) && 2 * (k * d) == k * (2 * d)) by (nonlinear_arith)
        requires
            n > 0,
            d > 0,
            k > 0,
    ;
    if n < LOW * d {
        nearest_reduces(2 * n, d, k);
    } else if n >= HIGH * d {
        assert(distance(n, 2 * d) < distance(n, d));
        nearest_reduces(n, 2 * d, k);
    } else {
        half_even_reduces(n, d, k);
    }
}

/// A power of two in the numerator only changes the exponent.
proof fn nearest_raised(n: int, d: int, k: int)
    requires
        n > 0,
        d > 0,
        k >= 0,
    ensures
        n * two_to(k) > 0,
        nearest(n * two_to(k), d) == shifted(nearest(n, d), k),
    decreases k,
{
    power_is_positive(k);
    power_is_positive(0);
    let t = two_to(k);
    assert(n * t > 0) by (nonlinear_arith)
        requires
            n > 0,
            t > 0,
    ;
    if k > 0 {
        power_is_positive(k - 1);
        nearest_raised(n, d, k - 1);
        nearest_doubles(n * two_to(k - 1), d);
        let u = two_to(k - 1);
        assert(n * (2 * u) == 2 * (n * u)) by (nonlinear_arith);
    } else {
        assert(t == 1);
        assert(n * t == n) by (nonlinear_arith)
            requires
                t == 1,
        ;
    }
}

/// The quotient of two counts is the number nearest to their fraction.
pub proof fn quotient_of_counts(n: int, d: int)
    requires
        0 < n < HIGH,
        0 < d < HIGH,
    ensures
        quotient(of(n), of(d)) == nearest(n, d),
{
    let j = count_form(n);
    let k = count_form(d);
    power_is_positive(j);
    power_is_positive(k);
    let (u, v) = (two_to(j), two_to(k));
    assert(d * v > 0) by (nonlinear_arith)
        requires
            d > 0,
            v > 0,
    ;
    nearest_raised(n, d, j);
    nearest_raised(n * two_to(j), d * two_to(k), k);
    assert(n * u * v == v * (n * u) && d * v == v * d) by (nonlinear_arith);
    nearest_reduces(n * u, d, v);
    assert(n * u > 0);
}

/// Fractions that are further apart than the precision keep their order strictly.
pub proof fn nearest_grows_strictly(a: int, b: int, d: int)
    requires
        d > 0,
        0 < a < b < HIGH * d,
        b <= (b - a) * 0x4_0000_0000_0000,
    ensures
        less(nearest(a, d), nearest(b, d)),
    decreases distance(b, d),
{
    nearest_is_number(a, d);
    nearest_is_number(b, d);
    if b < LOW * d {
        assert(2 * b <= (2 * b - 2 * a) * 0x4_0000_0000_0000);
        nearest_grows_strictly(2 * a, 2 * b, d);
        assert(a < LOW * d);
    } else {
        assert(b - a >= 4 * d) by (nonlinear_arith)
            requires
                b <= (b - a) * 0x4_0000_0000_0000,
                b >= LOW * d,
                LOW == 0x10_0000_0000_0000,
                d > 0,
        ;
        half_even_fits(b, d);
        let (q, r) = (b / d, b % d);
        div_mod::lemma_fundamental_div_mod(b, d);
        div_mod::lemma_mod_bound(b, d);
        if a >= LOW * d {
            half_even_fits(a, d);
            let (p, s) = (a / d, a % d);
            div_mod::lemma_fundamental_div_mod(a, d);
            div_mod::lemma_mod_bound(a, d);
            assert(p + 2 <= q) by (nonlinear_arith)
                requires
                    b - a >= 4 * d,
                    a == d * p + s,
                    b == d * q + r,
                    0 <= s < d,
                    0 <= r < d,
                    d > 0,
            ;
        } else if b >= (LOW + 1) * d {
            nearest_below(a, d);
            assert(q >= LOW + 1) by (nonlinear_arith)
                requires
                    b == d * q + r,
                    0 <= r < d,
                    b >= (LOW + 1) * d,
                    d > 0,
            ;
        } else {
            nearest_is_number(2 * a, d);
            if 2 * a < LOW * d {
                nearest_below(2 * a, d);
            } else {
                assert(2 * a < HIGH * d) by (nonlinear_arith)
                    requires
                        a < LOW * d,
                        HIGH == 2 * LOW,
                ;
                half_even_fits(2 * a, d);
                let (p, s) = ((2 * a) / d, (2 * a) % d);
                div_mod::lemma_fundamental_div_mod(2 * a, d);
                div_mod::lemma_mod_bound(2 * a, d);
                assert(p + 1 < HIGH) by (nonlinear_arith)
                    requires
                        b - a >= 4 * d,
                        b < (LOW + 1) * d,
                        2 * a == d * p + s,
                        0 <= s < d,
                        d > 0,
                        HIGH == 2 * LOW,
                ;
            }
            nearest_above(b, d);
        }
    }
}

/// The quotient of two counts is on the same side of a small fraction as their own fraction is.
pub proof fn quotient_against_fraction(n: int, d: int, p: int, q: int)
    requires
        0 < n < HIGH,
        0 < d < HIGH,
        0 < p,
        0 < q,
        n * q <= 0x4_0000_0000_0000,
        p * d <= 0x4_0000_0000_0000,
    ensures
        less(quotient(of(n), of(d)), nearest(p, q)) <==> n * q < p * d,
        less(nearest(p, q), quotient(of(n), of(d))) <==> p * d < n * q,
        is_number(quotient(of(n), of(d))),
{
    quotient_of_counts(n, d);
    nearest_reduces(n, d, q);
    nearest_reduces(p, q, d);
    nearest_is_number(n, d);
    let (a, b, c) = (q * n, d * p, q * d);
    assert(d * q == c && n * q == a && p * d == b && 0 < a && 0 < b && 0 < c) by (nonlinear_arith)
        requires
            a == q * n,
            b == d * p,
            c == q * d,
            0 < n,
            0 < d,
            0 < p,
            0 < q,
    ;
    assert(a < HIGH * c && b < HIGH * c) by (nonlinear_arith)
        requires
            c > 0,
            a <= 0x4_0000_0000_0000,
            b <= 0x4_0000_0000_0000,
            HIGH == 0x20_0000_0000_0000,
    ;
    nearest_is_number(a, c);
    nearest_is_number(b, c);
    if a < b {
        nearest_grows_strictly(a, b, c);
    } else if b < a {
        nearest_grows_strictly(b, a, c);
    }
}

/// The whole part of a number reaches a count exactly where the number does.
pub proof fn whole_against_count(a: Number, k: int)
    requires
        LOW <= a.0 < HIGH,
        0 < k < HIGH,
    ensures
        whole(a) >= k <==> no_larger(of(k), a),
{
    let j = count_form(k);
    nearest_is_number(k, 1);
    power_is_positive(j);
    let (m, e) = a;
    let t = two_to(j);
    if e >= 0 {
        power_is_positive(e);
        let u = two_to(e);
        assert(m * u >= m) by (nonlinear_arith)
            requires
                m > 0,
                u > 0,
        ;
        if e > -j {
            assert(m * u >= k) by {
                if e == 0 {
                    power_is_positive(j - 1);
                    assert(k * t >= 2 * k) by (nonlinear_arith)
                        requires
                            k > 0,
                            t >= 2,
                    ;
                } else {
                    power_is_positive(e - 1);
                    let v = two_to(e - 1);
                    assert(m * u >= 2 * m) by (nonlinear_arith)
                        requires
                            m > 0,
                            u == 2 * v,
                            v > 0,
                    ;
                }
            }
        } else {
            assert(j == 0 && t == 1 && u == 1);
            assert(k * t == k && m * u == m) by (nonlinear_arith)
                requires
                    t == 1,
                    u == 1,
            ;
        }
    } else {
        let f = -e;
        power_is_positive(f);
        let u = two_to(f);
        let q = m / u;
        div_mod::lemma_fundamental_div_mod(m, u);
        div_mod::lemma_mod_bound(m, u);
        if f == j {
            assert(q >= k <==> m >= k * u) by (nonlinear_arith)
                requires
                    m == u * q + m % u,
                    0 <= m % u < u,
                    u > 0,
            ;
        } else if f < j {
            power2::lemma_pow2_adds(f as nat, (j - f) as nat);
            power_is_positive(j - f);
            power_is_positive(j - f - 1);
            let w = two_to(j - f);
            let x = two_to(j - f - 1);
            assert(t == u * w);
            assert(q >= k) by (nonlinear_arith)
                requires
                    m == u * q + m % u,
                    0 <= m % u < u,
                    u > 0,
                    w == 2 * x,
                    x > 0,
                    t == u * w,
                    k * t < HIGH,
                    m >= LOW,
                    HIGH == 2 * LOW,
                    k > 0,
            ;
        } else {
            power2::lemma_pow2_adds(j as nat, (f - j) as nat);
            power_is_positive(f - j);
            power_is_positive(f - j - 1);
            let w = two_to(f - j);
            let x = two_to(f - j - 1);
            assert(u == t * w);
            assert(q < k) by (nonlinear_arith)
                requires
                    m == u * q + m % u,
                    0 <= m % u < u,
                    u > 0,
                    w == 2 * x,
                    x > 0,
                    u == t * w,
                    t > 0,
                    k * t >= LOW,
                    m < HIGH,
                    HIGH == 2 * LOW,
                    k > 0,
            ;
        }
    }
}

/// Half of a number or less is half or less when it is divided by it, and twice or more is twice or more,
/// however large both are.
pub proof fn quotient_by_far(n: int, d: int)
    requires
        n > 0,
        d > 0,
    ensures
        2 * n <= d ==> no_larger(quotient(of(n), of(d)), (LOW as int, -53int)),
        n >= 2 * d ==> no_larger((LOW as int, -51int), quotient(of(n), of(d))),
{
    nearest_is_number(n, 1);
    nearest_is_number(d, 1);
    quotient_of_equals(of(d));
    if 2 * n <= d {
        nearest_grows(2 * n, d, 1);
        nearest_doubles(n, 1);
        quotients_grow(of(n), shifted(of(d), -1), of(d));
    }
    if n >= 2 * d {
        nearest_grows(2 * d, n, 1);
        nearest_doubles(d, 1);
        quotients_grow(shifted(of(d), 1), of(n), of(d));
    }
}

/// Twice a number is as far from it as it is from nothing.
pub proof fn gap_of_twice(a: Number)
    requires
        LOW <= a.0 < HIGH,
    ensures
        gap(shifted(a, 1), a) == a,
{
    power_is_positive(0);
    power_is_positive(1);
    nearest_of_number(a.0, 0);
    let m = a.0;
    assert(two_to(1) == 2);
    assert(m * 2 - m * 1 == m * 1);
}

/// One and one are two.
pub proof fn one_and_one()
    ensures
        sum(of(1), of(1)) == of(2),
{
    one_is_one();
    nearest_doubles(1, 1);
    power_is_positive(0);
    power_is_positive(1);
    let m = LOW as int;
    nearest_of_number(m, 1);
    assert(m * 1 + m * 1 == m * 2);
}

/// Nothing is nothing when it is rounded.
pub proof fn nothing_rounds_to_nothing()
    ensures
        rounded((0int, 0int)) == 0,
        of(0) == (0int, 0int),
{
    power_is_positive(0);
}

/// A number is on the same side of another when both are told over a power of two.
proof fn nearest_over_power(n: int, j: int)
    requires
        n > 0,
        j >= 0,
    ensures
        two_to(j) > 0,
        nearest(n, 1) == shifted(nearest(n, two_to(j)), j),
{
    power_is_positive(j);
    let t = two_to(j);
    nearest_reduces(n, 1, t);
    nearest_raised(n, t, j);
    assert(t * n == n * t && t * 1 == t) by (nonlinear_arith);
}

/// The number nearest to one fifth.
proof fn one_fifth()
    ensures
        nearest(1, 5) == (0x19_9999_9999_999aint, -55int),
{
    power2::lemma2_to64_rest();
    nearest_raised(1, 5, 55);
    let n = two_to(55);
    assert(n == 0x80_0000_0000_0000);
    assert(half_even(n, 5) == 0x19_9999_9999_999a);
    assert(nearest(n, 5) == (0x19_9999_9999_999aint, 0int));
}

/// A count lies on the same side of a fifth of another one in double precision as it does in truth; where
/// it is exactly a fifth nothing is said.
pub proof fn count_against_a_fifth(other: int, count: int)
    requires
        0 <= other <= 0x100_0000_0000,
        0 < count <= 0x100_0000_0000,
    ensures
        5 * other < count ==> less(of(other), product(of(count), nearest(1, 5))),
        5 * other > count ==> !less(of(other), product(of(count), nearest(1, 5))),
{
    let m = 0x19_9999_9999_999aint;
    one_fifth();
    power2::lemma2_to64_rest();
    let k = count_form(count);
    power_is_positive(k);
    let t = two_to(k);
    let c = count * m;
    assert(c > 0) by (nonlinear_arith)
        requires
            c == count * m,
            count > 0,
            m > 0,
    ;
    nearest_is_number(c, 1);
    nearest_raised(c, 1, k);
    assert(count * t * m == c * t) by (nonlinear_arith)
        requires
            c == count * m,
    ;
    assert(product(of(count), nearest(1, 5)) == shifted(nearest(c, 1), -55)) by {
        nearest_is_number(count, 1);
    }
    if other > 0 {
        let p = 0x80_0000_0000_0000int;
        nearest_raised(other, 1, 55);
        let o = other * p;
        assert(two_to(55) == p);
        nearest_is_number(o, 1);
        nearest_over_power(c, 60);
        nearest_over_power(o, 60);
        let d = two_to(60);
        assert(d == 0x1000_0000_0000_0000);
        assert(5 * m == p + 2);
        assert(c <= 0x100_0000_0000 * m && o <= 0x100_0000_0000 * p) by (nonlinear_arith)
            requires
                c == count * m,
                o == other * p,
                0 <= other <= 0x100_0000_0000,
                0 <= count <= 0x100_0000_0000,
                m > 0,
                p > 0,
        ;
        if 5 * other < count {
            assert(c - o >= m && c > o) by (nonlinear_arith)
                requires
                    c == count * m,
                    o == other * p,
                    p == 5 * m - 2,
                    count >= 5 * other + 1,
                    other > 0,
                    m > 0,
            ;
            assert(o > 0);
            nearest_grows_strictly(o, c, d);
        }
        if 5 * other > count {
            assert(o - c >= m - 2 * other) by (nonlinear_arith)
                requires
                    c == count * m,
                    o == other * p,
                    p == 5 * m - 2,
                    5 * other >= count + 1,
                    m > 0,
            ;
            nearest_grows_strictly(c, o, d);
        }
    }
}

/// A number with exponent zero is no further than one half from the fraction that it is nearest to.
proof fn nearest_is_close(n: int, d: int, m: int)
    requires
        n > 0,
        d > 0,
        nearest(n, d) == (m, 0int),
    ensures
        -d <= 2 * (m * d) - 2 * n <= d,
{
    nearest_is_number(n, d);
    if n >= HIGH * d {
        nearest_is_number(n, 2 * d);
        assert(n >= LOW * (2 * d)) by (nonlinear_arith)
            requires
                n >= HIGH * d,
                HIGH == 2 * LOW,
        ;
        nearest_above(n, 2 * d);
    } else if n < LOW * d {
        nearest_is_number(2 * n, d);
        assert(2 * n < HIGH * d) by (nonlinear_arith)
            requires
                n < LOW * d,
                HIGH == 2 * LOW,
        ;
        if 2 * n < LOW * d {
            nearest_below(2 * n, d);
        }
        let q = (2 * n) / d;
        div_mod::lemma_fundamental_div_mod(2 * n, d);
        div_mod::lemma_mod_bound(2 * n, d);
        assert(half_even(2 * n, d) == HIGH);
        assert(q >= HIGH - 1);
        assert(m == LOW);
        assert(-d <= 2 * (m * d) - 2 * n <= d) by (nonlinear_arith)
            requires
                m == LOW,
                HIGH == 2 * LOW,
                2 * n == d * q + (2 * n) % d,
                0 <= (2 * n) % d < d,
                q >= HIGH - 1,
                2 * n < HIGH * d,
                d > 0,
        ;
    } else {
        let (q, r) = (n / d, n % d);
        div_mod::lemma_fundamental_div_mod(n, d);
        div_mod::lemma_mod_bound(n, d);
        assert(m == half_even(n, d));
        if m == q {
            assert(2 * r <= d);
            assert(2 * (m * d) - 2 * n == -2 * r) by (nonlinear_arith)
                requires
                    m == q,
                    n == d * q + r,
            ;
        } else {
            assert(2 * r >= d);
            assert(2 * (m * d) - 2 * n == 2 * d - 2 * r) by (nonlinear_arith)
                requires
                    m == q + 1,
                    n == d * q + r,
            ;
        }
    }
}

/// A number rounds to a count or more exactly where twice the number reaches one less than twice the count.
proof fn rounding_against_count(a: Number, t: int)
    requires
        LOW <= a.0 < HIGH,
        t > 0,
    ensures
        rounded(a) >= t <==> whole(shifted(a, 1)) >= 2 * t - 1,
{
    let (m, e) = a;
    if e >= 0 {
        power_is_positive(e);
        let u = two_to(e);
        assert(m * (2 * u) == 2 * (m * u)) by (nonlinear_arith);
    } else {
        let f = -e;
        power_is_positive(f);
        power_is_positive(f - 1);
        let u = two_to(f - 1);
        assert(two_to(f) == 2 * u);
        let x = 2 * m + 2 * u;
        let y = 4 * u;
        let (p, q) = (x / y, m / u);
        div_mod::lemma_fundamental_div_mod(x, y);
        div_mod::lemma_mod_bound(x, y);
        div_mod::lemma_fundamental_div_mod(m, u);
        div_mod::lemma_mod_bound(m, u);
        assert(rounded(a) == p);
        assert(whole(shifted(a, 1)) == q) by {
            if f == 1 {
                power_is_positive(0);
                assert(u == 1);
                assert(m * 1 == m / 1);
            }
        }
        assert(p >= t <==> q >= 2 * t - 1) by (nonlinear_arith)
            requires
                x == y * p + x % y,
                0 <= x % y < y,
                m == u * q + m % u,
                0 <= m % u < u,
                x == 2 * m + 2 * u,
                y == 4 * u,
                u > 0,
        ;
    }
}

/// The share of a count, times a width, rounds to the whole number that is nearest in truth: to `t` or more
/// above the half below `t`, and to less below it. Exactly at the half nothing is said.
pub proof fn share_rounds_to_nearest(n: int, d: int, width: int, t: int)
    requires
        0 < n <= d <= 0x1_0000_0000,
        0 < t <= width <= 0x400,
    ensures
        2 * (width * n) > (2 * t - 1) * d ==> rounded(product(quotient(of(n), of(d)), of(width))) >= t,
        2 * (width * n) < (2 * t - 1) * d ==> rounded(product(quotient(of(n), of(d)), of(width))) < t,
{
    quotient_of_counts(n, d);
    nearest_is_number(n, d);
    let (m, e) = nearest(n, d);
    // The share is at most one.
    nearest_grows(n, d, d);
    nearest_reduces(1, 1, d);
    one_is_one();
    assert(d * 1 == d);
    let f = -e;
    assert(f >= 52);
    power2::lemma_pow2_strictly_increases(51, f as nat);
    power2::lemma2_to64_rest();
    power_is_positive(f);
    let g = two_to(f);
    assert(g >= LOW && m <= g) by {
        if f > 52 {
            power2::lemma_pow2_strictly_increases(52, f as nat);
            if f > 53 {
                power2::lemma_pow2_strictly_increases(53, f as nat);
            }
        }
    }
    nearest_raised(n, d, f);
    nearest_is_close(n * g, d, m);
    // The product is that of the significand with the width.
    let k = count_form(width);
    power_is_positive(k);
    let c = m * width;
    assert(c > 0) by (nonlinear_arith)
        requires
            c == m * width,
            m > 0,
            width > 0,
    ;
    nearest_is_number(width, 1);
    nearest_is_number(c, 1);
    nearest_raised(c, 1, k);
    let v = two_to(k);
    assert(m * (width * v) == c * v) by (nonlinear_arith)
        requires
            c == m * width,
    ;
    let b = product(nearest(n, d), of(width));
    assert(b == shifted(nearest(c, 1), e));
    rounding_against_count(b, t);
    let w = 2 * t - 1;
    nearest_is_number(w, 1);
    whole_against_count(shifted(b, 1), w);
    nearest_doubles(c, 1);
    nearest_raised(w, 1, f);
    let (x, y) = (2 * c, w * g);
    nearest_is_number(x, 1);
    nearest_is_number(y, 1);
    nearest_over_power(x, f);
    nearest_over_power(y, f);
    let p = n * g;
    assert(x <= 0x800 * g && y <= 0x800 * g && y > 0) by (nonlinear_arith)
        requires
            x == 2 * (m * width),
            y == w * g,
            0 < m <= g,
            0 < width <= 0x400,
            0 < w < 2 * width,
    ;
    assert(x < HIGH * g && y < HIGH * g);
    let q = width * d;
    assert(q <= 0x400_0000_0000 && 2 * q <= g) by (nonlinear_arith)
        requires
            q == width * d,
            0 < width <= 0x400,
            0 < d <= 0x1_0000_0000,
            g >= 0x10_0000_0000_0000,
    ;
    // What the significand lacks or has too much, times the width.
    assert(-q <= 2 * (width * (m * d)) - 2 * (width * p) <= q) by (nonlinear_arith)
        requires
            -d <= 2 * (m * d) - 2 * p <= d,
            q == width * d,
            width > 0,
    ;
    assert(x * d == 2 * (width * (m * d)) && y * d == (w * d) * g && 2 * (width * p) == (2 * (width * n)) * g)
        by (nonlinear_arith)
        requires
            x == 2 * (m * width),
            y == w * g,
            p == n * g,
    ;
    let (r, s) = (2 * (width * n), w * d);
    if r > s {
        assert((x - y) * d >= g - q) by (nonlinear_arith)
            requires
                x * d >= r * g - q,
                y * d == s * g,
                r >= s + 1,
                g > 0,
        ;
        further_apart(x - y, g, d, q);
        assert(x <= (x - y) * 0x4_0000_0000_0000);
        nearest_grows_strictly(y, x, g);
    }
    if r < s {
        assert((y - x) * d >= g - q) by (nonlinear_arith)
            requires
                x * d <= r * g + q,
                y * d == s * g,
                r + 1 <= s,
                g > 0,
        ;
        further_apart(y - x, g, d, q);
        assert(y <= (y - x) * 0x4_0000_0000_0000);
        nearest_grows_strictly(x, y, g);
    }
}

proof fn further_apart(z: int, g: int, d: int, q: int)
    requires
        z * d >= g - q,
        2 * q <= g,
        0 < d <= 0x1_0000_0000,
        g > 0,
    ensures
        z > 0,
        0x800 * g <= z * 0x4_0000_0000_0000,
{
    assert(z * 0x2_0000_0000 >= g) by (nonlinear_arith)
        requires
            2 * (z * d) >= g,
            0 < d <= 0x1_0000_0000,
            g > 0,
    ;
}

/// Two numbers are as far from each other either way.
pub proof fn gap_either_way(a: Number, b: Number)
    requires
        LOW <= a.0 < HIGH,
        LOW <= b.0 < HIGH,
    ensures
        gap(a, b) == gap(b, a),
{
}

/// Half of 25 rounds up to 13.
pub proof fn half_of_twenty_five()
    ensures
        rounded(shifted(of(25), -1)) == 13,
{
    nearest_is_number(25, 1);
    let x = shifted(of(25), -1);
    rounding_against_count(x, 13);
    rounding_against_count(x, 14);
    assert(shifted(x, 1) == of(25));
    whole_against_count(of(25), 25);
    whole_against_count(of(25), 27);
    nearest_is_number(27, 1);
    nearest_grows_strictly(25, 27, 1);
}

}
