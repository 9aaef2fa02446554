//! Binary64 numbers held by their bit pattern.
//!
//! Utilizations, thresholds and chart positions are binary64 numbers. The
//! library holds such a number as its 64 bits and computes on them with integer
//! arithmetic, so that every comparison and every rounding is proved. The
//! mathematical value of a number is an integer: its multiple of the smallest
//! positive binary64 number, 2^-1074.

use vstd::arithmetic::div_mod::{
    lemma_div_denominator, lemma_div_multiples_vanish, lemma_fundamental_div_mod,
    lemma_fundamental_div_mod_converse,
};
use vstd::arithmetic::mul::lemma_mul_is_commutative;
use vstd::arithmetic::power2::{
    lemma2_to64, lemma2_to64_rest, lemma_pow2_adds, lemma_pow2_pos, lemma_pow2_strictly_increases,
    lemma_pow2_unfold, pow2,
};
use vstd::prelude::*;

verus! {

/// 2^52: the weight of the implicit leading bit.
pub const HIDDEN_BIT: u64 = 0x10_0000_0000_0000;

/// 2^53: mantissas stay below it.
pub const MANTISSA_LIMIT: u64 = 0x20_0000_0000_0000;

/// 2^63: the weight of the sign bit.
pub const SIGN_BIT: u64 = 0x8000_0000_0000_0000;

/// The distance between neighbouring numbers at the magnitude `x`, both in
/// multiples of 2^-1074.
pub open spec fn ulp(x: nat) -> nat
    decreases x,
{
    if x < MANTISSA_LIMIT {
        1
    } else {
        2 * ulp(x / 2)
    }
}

/// The magnitude nearest to `x` that 53 bits can hold, a tie going to the even
/// mantissa.
pub open spec fn nearest(x: nat) -> nat {
    let u = ulp(x);
    let q = x / u;
    let r = x % u;
    if 2 * r > u || (2 * r == u && q % 2 == 1) {
        (q + 1) * u
    } else {
        q * u
    }
}

/// The magnitude nearest to the quotient `n / d` that 53 bits can hold, a tie
/// going to the even mantissa.
pub open spec fn nearest_quotient(n: nat, d: nat) -> nat {
    let u = ulp(n / d);
    let q = n / (d * u);
    let r = n % (d * u);
    if 2 * r > d * u || (2 * r == d * u && q % 2 == 1) {
        (q + 1) * u
    } else {
        q * u
    }
}

/// What arithmetic on binary64 numbers makes of the exact result `x`.
pub open spec fn rounded(x: int) -> int {
    if x < 0 {
        -(nearest((-x) as nat) as int)
    } else {
        nearest(x as nat) as int
    }
}

/// What the division of the value `x` by the whole number `d` gives.
pub open spec fn quotient(x: int, d: nat) -> int {
    if x < 0 {
        -(nearest_quotient((-x) as nat, d) as int)
    } else {
        nearest_quotient(x as nat, d) as int
    }
}

/// The value of one, in multiples of 2^-1074.
pub open spec fn one() -> nat {
    pow2(1074)
}

/// The whole number nearest to the value `x`, halves going away from zero.
pub open spec fn whole(x: int) -> int {
    if x < 0 {
        -((-2 * x + one()) / (2 * one() as int))
    } else {
        (2 * x + one()) / (2 * one() as int)
    }
}

/// `x` moved to the nearer end of the range `low..=high` where it lies outside.
pub open spec fn clamped(x: int, low: int, high: int) -> int {
    if x < low {
        low
    } else if x > high {
        high
    } else {
        x
    }
}

proof fn lemma_limits()
    ensures
        HIDDEN_BIT == pow2(52),
        MANTISSA_LIMIT == pow2(53),
        SIGN_BIT == pow2(63),
        pow2(64) == 0x1_0000_0000_0000_0000,
        pow2(0) == 1,
        pow2(1) == 2,
{
    lemma2_to64();
    lemma2_to64_rest();
}

/// In the range whose mantissas have all 53 bits, the distance is the weight of
/// the lowest mantissa bit.
proof fn lemma_ulp_in_binade(x: nat, k: nat)
    requires
        HIDDEN_BIT * pow2(k) <= x < MANTISSA_LIMIT * pow2(k),
    ensures
        ulp(x) == pow2(k),
    decreases k,
{
    lemma_limits();
    if k > 0 {
        lemma_pow2_unfold(k);
        let h = pow2((k - 1) as nat);
        lemma_pow2_pos((k - 1) as nat);
        assert(HIDDEN_BIT * h <= x / 2 < MANTISSA_LIMIT * h);
        assert(x >= MANTISSA_LIMIT) by (nonlinear_arith)
            requires
                HIDDEN_BIT * (2 * h) <= x,
                h >= 1,
                HIDDEN_BIT == 0x10_0000_0000_0000,
                MANTISSA_LIMIT == 0x20_0000_0000_0000,
        ;
        lemma_ulp_in_binade(x / 2, (k - 1) as nat);
    }
}

/// The distance is positive and divides every number that a 53-bit mantissa
/// holds.
proof fn lemma_ulp_divides(m: nat, e: nat)
    requires
        m < MANTISSA_LIMIT,
    ensures
        ulp(m * pow2(e)) > 0,
        (m * pow2(e)) % ulp(m * pow2(e)) == 0,
    decreases e,
{
    lemma_limits();
    let x = m * pow2(e);
    if e == 0 {
        assert(x == m) by (nonlinear_arith)
            requires
                x == m * pow2(e),
                pow2(e) == 1,
        ;
    } else if x >= MANTISSA_LIMIT {
        let h = pow2((e - 1) as nat);
        lemma_pow2_unfold(e);
        lemma_ulp_divides(m, (e - 1) as nat);
        let y = m * h;
        assert(x == 2 * y) by (nonlinear_arith)
            requires
                x == m * (2 * h),
                y == m * h,
        ;
        assert(x / 2 == y);
        let u = ulp(y);
        lemma_fundamental_div_mod(y as int, u as int);
        let q = y / u;
        assert(x == q * (2 * u)) by (nonlinear_arith)
            requires
                x == 2 * y,
                y == u * q,
        ;
        lemma_fundamental_div_mod_converse(x as int, (2 * u) as int, q as int, 0);
    }
}

/// A number that a 53-bit mantissa holds is its own nearest number.
proof fn lemma_nearest_exact(m: nat, e: nat)
    requires
        m < MANTISSA_LIMIT,
    ensures
        nearest(m * pow2(e)) == m * pow2(e),
{
    lemma_ulp_divides(m, e);
    let x = m * pow2(e);
    let u = ulp(x);
    lemma_fundamental_div_mod(x as int, u as int);
    lemma_mul_is_commutative(u as int, (x / u) as int);
}

/// A common power of two cancels in the rounding decision: where `m` lies in the
/// range with mantissas of 53 bits and lowest bit 2^s, `m * 2^e` is rounded as
/// `m` is.
proof fn lemma_nearest_scaled(m: nat, s: nat, e: nat)
    requires
        HIDDEN_BIT * pow2(s) <= m < MANTISSA_LIMIT * pow2(s),
    ensures
        nearest(m * pow2(e)) == ({
            let unit = pow2(s);
            let q = m / unit;
            let r = m % unit;
            if 2 * r > unit || (2 * r == unit && q % 2 == 1) {
                (q + 1) * pow2(s + e)
            } else {
                q * pow2(s + e)
            }
        }),
{
    let unit = pow2(s);
    let f = pow2(e);
    let x = m * f;
    lemma_pow2_pos(s);
    lemma_pow2_pos(e);
    lemma_pow2_adds(s, e);
    let u = pow2(s + e);
    assert(HIDDEN_BIT * u <= x < MANTISSA_LIMIT * u) by (nonlinear_arith)
        requires
            HIDDEN_BIT * unit <= m < MANTISSA_LIMIT * unit,
            f > 0,
            u == unit * f,
            x == m * f,
    ;
    lemma_ulp_in_binade(x, s + e);
    let q = m / unit;
    let r = m % unit;
    lemma_fundamental_div_mod(m as int, unit as int);
    assert(x == q * u + r * f) by (nonlinear_arith)
        requires
            m == unit * q + r,
            x == m * f,
            u == unit * f,
    ;
    assert(0 <= r * f < u) by (nonlinear_arith)
        requires
            0 <= r < unit,
            f > 0,
            u == unit * f,
    ;
    lemma_fundamental_div_mod_converse(x as int, u as int, q as int, (r * f) as int);
    assert((2 * (r * f) > u) == (2 * r > unit)) by (nonlinear_arith)
        requires
            f > 0,
            u == unit * f,
    ;
    assert((2 * (r * f) == u) == (2 * r == unit)) by (nonlinear_arith)
        requires
            f > 0,
            u == unit * f,
    ;
}

/// A magnitude `mantissa * 2^shift` with its sign, in multiples of 2^-1074.
struct Scaled {
    negative: bool,
    mantissa: u64,
    shift: u32,
}

impl Scaled {
    spec fn magnitude(self) -> nat {
        self.mantissa as nat * pow2(self.shift as nat)
    }

    spec fn value(self) -> int {
        if self.negative {
            -(self.magnitude() as int)
        } else {
            self.magnitude() as int
        }
    }

    /// What holds of a number taken apart: 53 bits of mantissa, all of them used
    /// unless the number is in the lowest range.
    spec fn normal(self) -> bool {
        &&& self.mantissa < MANTISSA_LIMIT
        &&& self.shift <= 2046
        &&& self.shift > 0 ==> self.mantissa >= HIDDEN_BIT
    }
}

/// 2^n.
fn power(n: u32) -> (p: u128)
    requires
        n < 128,
    ensures
        p == pow2(n as nat),
{
    let mut p: u128 = 1;
    let mut i: u32 = 0;
    proof {
        lemma_limits();
    }
    while i < n
        invariant
            i <= n < 128,
            p == pow2(i as nat),
        decreases n - i,
    {
        proof {
            lemma_pow2_unfold((i + 1) as nat);
            lemma_below_u128((i + 1) as nat);
        }
        p = p * 2;
        i = i + 1;
    }
    p
}

proof fn lemma_below_u128(n: nat)
    requires
        n < 128,
    ensures
        pow2(n) <= u128::MAX,
{
    lemma2_to64();
    lemma_pow2_adds(64, 63);
    lemma2_to64_rest();
    if n < 127 {
        lemma_pow2_strictly_increases(n, 127);
    }
}

/// Rounds `mantissa * 2^shift` to 53 bits of mantissa.
fn round(mantissa: u128, shift: u32) -> (r: (u64, u32))
    requires
        shift <= 0xffff,
    ensures
        r.0 <= MANTISSA_LIMIT,
        shift <= r.1 <= shift + 76,
        r.0 as nat * pow2(r.1 as nat) == nearest(mantissa as nat * pow2(shift as nat)),
{
    let mut unit: u128 = 1;
    let mut s: u32 = 0;
    proof {
        lemma_limits();
    }
    while mantissa / unit >= MANTISSA_LIMIT as u128
        invariant
            unit == pow2(s as nat),
            unit > 0,
            s <= 76,
            s > 0 ==> mantissa >= HIDDEN_BIT * unit,
        decreases mantissa / unit,
    {
        proof {
            lemma_pow2_unfold((s + 1) as nat);
            lemma_fundamental_div_mod(mantissa as int, unit as int);
            let q = mantissa / unit;
            assert(mantissa >= MANTISSA_LIMIT * unit) by (nonlinear_arith)
                requires
                    mantissa == unit * q + mantissa % unit,
                    q >= MANTISSA_LIMIT,
                    unit > 0,
                    mantissa % unit >= 0,
            ;
            assert(s < 76) by {
                if s >= 76 {
                    lemma2_to64();
                    lemma_pow2_adds(64, 12);
                    assert(pow2(76) == 0x1_0000_0000_0000_0000 * 0x1000);
                }
            }
            assert(unit < 0x1_0000_0000_0000_0000_0000);
            lemma_div_denominator(mantissa as int, unit as int, 2);
        }
        unit = unit * 2;
        s = s + 1;
    }
    let q = mantissa / unit;
    let r = mantissa % unit;
    proof {
        lemma_fundamental_div_mod(mantissa as int, unit as int);
    }
    if s == 0 {
        proof {
            lemma_nearest_exact(mantissa as nat, shift as nat);
        }
        (q as u64, shift)
    } else {
        proof {
            assert(mantissa < MANTISSA_LIMIT * unit) by (nonlinear_arith)
                requires
                    mantissa == unit * q + r,
                    q < MANTISSA_LIMIT,
                    r < unit,
            ;
            lemma_nearest_scaled(mantissa as nat, s as nat, shift as nat);
            lemma_pow2_unfold(s as nat);
        }
        let half = unit / 2;
        if r > half || (r == half && q % 2 == 1) {
            ((q + 1) as u64, shift + s)
        } else {
            (q as u64, shift + s)
        }
    }
}

/// Whether the bits stand for a finite number: infinities and NaNs have an
/// exponent field of all ones.
pub open spec fn is_finite_pattern(bits: u64) -> bool {
    (bits / HIDDEN_BIT) % 2048 != 2047
}

/// The magnitude that the bits stand for, in multiples of 2^-1074.
pub open spec fn pattern_magnitude(bits: u64) -> nat {
    let exponent = (bits / HIDDEN_BIT) % 2048;
    let fraction = (bits % HIDDEN_BIT) as nat;
    if exponent == 0 {
        fraction
    } else {
        (HIDDEN_BIT + fraction) as nat * pow2((exponent - 1) as nat)
    }
}

/// The value that the bits stand for, in multiples of 2^-1074.
pub open spec fn pattern_value(bits: u64) -> int {
    if bits >= SIGN_BIT {
        -(pattern_magnitude(bits) as int)
    } else {
        pattern_magnitude(bits) as int
    }
}

/// A finite binary64 number.
#[derive(Clone, Copy, Debug)]
pub struct Double {
    bits: u64,
}

impl View for Double {
    type V = int;

    /// The value, in multiples of 2^-1074.
    open spec fn view(&self) -> int {
        pattern_value(self.pattern())
    }
}

impl Double {
    /// The bits of the number.
    pub closed spec fn pattern(self) -> u64 {
        self.bits
    }

    /// The number with a given value; zero has no sign.
    pub open spec fn of(value: int) -> Double {
        choose|d: Double| d.is_of(value)
    }

    /// Whether this is the number with a given value, zero without a sign.
    pub open spec fn is_of(self, value: int) -> bool {
        &&& self@ == value
        &&& is_finite_pattern(self.pattern())
        &&& value == 0 ==> self.pattern() == 0
    }

    /// The number with these bits; `None` for an infinity or a NaN.
    pub fn from_bits(bits: u64) -> (number: Option<Double>)
        ensures
            number is Some <==> is_finite_pattern(bits),
            number matches Some(d) ==> d.pattern() == bits,
    {
        if (bits / HIDDEN_BIT) % 2048 == 2047 {
            None
        } else {
            Some(Double { bits })
        }
    }

    /// The bits of the number.
    pub fn to_bits(self) -> (bits: u64)
        ensures
            bits == self.pattern(),
    {
        self.bits
    }

    /// The number taken apart into sign, mantissa and shift.
    fn parts(self) -> (p: Scaled)
        ensures
            p.normal(),
            p.value() == self@,
    {
        let exponent: u64 = (self.bits / HIDDEN_BIT) % 2048;
        let fraction: u64 = self.bits % HIDDEN_BIT;
        let negative = self.bits >= SIGN_BIT;
        if exponent == 0 {
            proof {
                lemma_limits();
                assert(fraction as nat * pow2(0) == fraction) by (nonlinear_arith)
                    requires
                        pow2(0) == 1,
                ;
            }
            Scaled { negative, mantissa: fraction, shift: 0 }
        } else {
            Scaled { negative, mantissa: HIDDEN_BIT + fraction, shift: (exponent - 1) as u32 }
        }
    }
}

/// Whether `m1 * 2^e1 >= m2 * 2^e2`.
fn magnitude_at_least(m1: u64, e1: u32, m2: u64, e2: u32) -> (r: bool)
    ensures
        r == (m1 as nat * pow2(e1 as nat) >= m2 as nat * pow2(e2 as nat)),
{
    proof {
        lemma_pow2_pos(e1 as nat);
        lemma_pow2_pos(e2 as nat);
    }
    if e1 >= e2 {
        let d: u32 = e1 - e2;
        proof {
            lemma_pow2_adds(d as nat, e2 as nat);
            lemma_cancel(m1 as int, m2 as int, pow2(d as nat) as int, pow2(e2 as nat) as int);
        }
        dominates(m1, d, m2)
    } else {
        let d: u32 = e2 - e1;
        proof {
            lemma_pow2_adds(d as nat, e1 as nat);
            lemma_cancel(m2 as int, m1 as int, pow2(d as nat) as int, pow2(e1 as nat) as int);
        }
        let strict = dominates_strictly(m2, d, m1);
        !strict
    }
}

proof fn lemma_cancel(a: int, b: int, p: int, f: int)
    requires
        f > 0,
    ensures
        (a * (p * f) >= b * f) == (a * p >= b),
        (a * (p * f) > b * f) == (a * p > b),
{
    assert(a * (p * f) == (a * p) * f) by (nonlinear_arith);
    let c = a * p;
    assert((c * f >= b * f) == (c >= b)) by (nonlinear_arith)
        requires
            f > 0,
    ;
    assert((c * f > b * f) == (c > b)) by (nonlinear_arith)
        requires
            f > 0,
    ;
}

/// Whether `m * 2^d >= n`.
fn dominates(m: u64, d: u32, n: u64) -> (r: bool)
    ensures
        r == (m as nat * pow2(d as nat) >= n),
{
    if m == 0 {
        return n == 0;
    }
    if d >= 64 {
        proof {
            lemma_large_shift(m, d);
        }
        return true;
    }
    let p = power(d);
    proof {
        lemma_small_shift(m, d);
    }
    m as u128 * p >= n as u128
}

/// Whether `m * 2^d > n`.
fn dominates_strictly(m: u64, d: u32, n: u64) -> (r: bool)
    ensures
        r == (m as nat * pow2(d as nat) > n),
{
    if m == 0 {
        return false;
    }
    if d >= 64 {
        proof {
            lemma_large_shift(m, d);
        }
        return true;
    }
    let p = power(d);
    proof {
        lemma_small_shift(m, d);
    }
    m as u128 * p > n as u128
}

proof fn lemma_large_shift(m: u64, d: u32)
    requires
        m > 0,
        d >= 64,
    ensures
        m as nat * pow2(d as nat) > u64::MAX,
{
    lemma2_to64();
    if d > 64 {
        lemma_pow2_strictly_increases(64, d as nat);
    }
    let p = pow2(d as nat);
    assert(m as nat * p >= p) by (nonlinear_arith)
        requires
            m > 0,
    ;
}

proof fn lemma_small_shift(m: u64, d: u32)
    requires
        d < 64,
    ensures
        m as nat * pow2(d as nat) <= u128::MAX,
{
    lemma2_to64();
    lemma_pow2_strictly_increases(d as nat, 64);
    let p = pow2(d as nat);
    assert(m as nat * p <= 0xffff_ffff_ffff_ffff * 0x1_0000_0000_0000_0000) by (nonlinear_arith)
        requires
            m <= 0xffff_ffff_ffff_ffff,
            p < 0x1_0000_0000_0000_0000,
    ;
}

/// Whether the first number is at least the second.
fn value_at_least(a: Scaled, b: Scaled) -> (r: bool)
    ensures
        r == (a.value() >= b.value()),
{
    proof {
        lemma_zero_magnitude(a);
        lemma_zero_magnitude(b);
    }
    if a.negative {
        if b.negative {
            magnitude_at_least(b.mantissa, b.shift, a.mantissa, a.shift)
        } else {
            a.mantissa == 0 && b.mantissa == 0
        }
    } else if b.negative {
        true
    } else {
        magnitude_at_least(a.mantissa, a.shift, b.mantissa, b.shift)
    }
}

proof fn lemma_zero_magnitude(a: Scaled)
    ensures
        a.magnitude() == 0 <==> a.mantissa == 0,
{
    let p = pow2(a.shift as nat);
    lemma_pow2_pos(a.shift as nat);
    let m = a.mantissa as nat;
    assert(m * p == 0 <==> m == 0) by (nonlinear_arith)
        requires
            p > 0,
    ;
}

/// A number with all 53 bits of mantissa in use is not moved by another that is
/// far below its lowest bit.
proof fn lemma_nearest_absorbs(m: nat, e: nat, small: nat)
    requires
        HIDDEN_BIT <= m < MANTISSA_LIMIT,
        e > 0,
        4 * small < pow2(e),
    ensures
        nearest(m * pow2(e) + small) == m * pow2(e),
        m * pow2(e) >= small,
        nearest((m * pow2(e) - small) as nat) == m * pow2(e),
{
    lemma_limits();
    let u = pow2(e);
    let a = m * u;
    lemma_pow2_pos(e);
    lemma_pow2_unfold(e);
    let h = pow2((e - 1) as nat);
    assert(HIDDEN_BIT * u <= a <= (MANTISSA_LIMIT - 1) * u) by (nonlinear_arith)
        requires
            HIDDEN_BIT <= m <= MANTISSA_LIMIT - 1,
            a == m * u,
    ;
    let above = a + small;
    lemma_ulp_in_binade(above, e);
    lemma_mul_is_commutative(m as int, u as int);
    lemma_fundamental_div_mod_converse(above as int, u as int, m as int, small as int);
    let below = (a - small) as nat;
    if small == 0 {
    } else if m == HIDDEN_BIT {
        assert(below < MANTISSA_LIMIT * h);
        assert(HIDDEN_BIT * h <= below);
        lemma_ulp_in_binade(below, (e - 1) as nat);
        let q = (MANTISSA_LIMIT - 1) as int;
        assert(below == q * h + (h - small));
        lemma_fundamental_div_mod_converse(below as int, h as int, q, h - small);
        assert((q + 1) * h == a);
    } else {
        assert(a >= (HIDDEN_BIT + 1) * u) by (nonlinear_arith)
            requires
                a == m * u,
                m >= HIDDEN_BIT + 1,
        ;
        lemma_ulp_in_binade(below, e);
        let q = (m - 1) as int;
        assert(below == q * u + (u - small)) by (nonlinear_arith)
            requires
                below == a - small,
                a == m * u,
                q == m - 1,
        ;
        lemma_fundamental_div_mod_converse(below as int, u as int, q, u - small);
        assert((q + 1) * u == a) by (nonlinear_arith)
            requires
                a == m * u,
                q == m - 1,
        ;
    }
}

/// The rounded sum of two numbers of which the first has the larger shift.
fn sum_ordered(a: Scaled, b: Scaled) -> (r: Scaled)
    requires
        a.normal(),
        b.normal(),
        a.shift >= b.shift,
    ensures
        r.mantissa <= MANTISSA_LIMIT,
        r.shift <= a.shift + 76,
        r.value() == rounded(a.value() + b.value()),
{
    let d: u32 = a.shift - b.shift;
    proof {
        lemma_limits();
        lemma_pow2_adds(d as nat, b.shift as nat);
    }
    if d > 64 {
        proof {
            lemma_far_apart(a, b);
        }
        a
    } else {
        let p = power(d);
        let ghost f = pow2(b.shift as nat);
        proof {
            lemma_pow2_pos(b.shift as nat);
            assert(p <= 0x1_0000_0000_0000_0000) by {
                if d < 64 {
                    lemma_pow2_strictly_increases(d as nat, 64);
                }
            }
            assert(a.mantissa as nat * p <= 0x20_0000_0000_0000 * 0x1_0000_0000_0000_0000)
                by (nonlinear_arith)
                requires
                    a.mantissa <= 0x20_0000_0000_0000,
                    p <= 0x1_0000_0000_0000_0000,
            ;
        }
        let high: u128 = a.mantissa as u128 * p;
        let low: u128 = b.mantissa as u128;
        proof {
            assert(a.magnitude() == high as nat * f) by (nonlinear_arith)
                requires
                    a.magnitude() == a.mantissa as nat * (p as nat * f),
                    high == a.mantissa as nat * p as nat,
            ;
            assert((high + low) as nat * f == a.magnitude() + b.magnitude()) by (nonlinear_arith)
                requires
                    a.magnitude() == high as nat * f,
                    b.magnitude() == low as nat * f,
            ;
            assert((high - low) * f == a.magnitude() - b.magnitude()) by (nonlinear_arith)
                requires
                    a.magnitude() == high as nat * f,
                    b.magnitude() == low as nat * f,
            ;
            assert((low - high) * f == b.magnitude() - a.magnitude()) by (nonlinear_arith)
                requires
                    a.magnitude() == high as nat * f,
                    b.magnitude() == low as nat * f,
            ;
        }
        let (negative, mantissa): (bool, u128) = if a.negative == b.negative {
            (a.negative, high + low)
        } else if high >= low {
            (a.negative, high - low)
        } else {
            (b.negative, low - high)
        };
        proof {
            assert(mantissa as nat * f >= 0);
            if mantissa == 0 {
                lemma_nearest_exact(0, b.shift as nat);
            } else {
                assert(mantissa as nat * f > 0) by (nonlinear_arith)
                    requires
                        mantissa > 0,
                        f > 0,
                ;
            }
        }
        let r = round(mantissa, b.shift);
        Scaled { negative, mantissa: r.0, shift: r.1 }
    }
}

proof fn lemma_far_apart(a: Scaled, b: Scaled)
    requires
        a.normal(),
        b.normal(),
        a.shift > b.shift + 64,
    ensures
        a.value() == rounded(a.value() + b.value()),
{
    lemma_limits();
    let u = pow2(a.shift as nat);
    let f = pow2(b.shift as nat);
    let d = (a.shift - b.shift) as nat;
    lemma_pow2_adds(d, b.shift as nat);
    lemma_pow2_strictly_increases(64, d);
    lemma_pow2_pos(b.shift as nat);
    let p = pow2(d);
    let small = b.magnitude();
    assert(4 * small < u) by (nonlinear_arith)
        requires
            small == b.mantissa as nat * f,
            b.mantissa < 0x20_0000_0000_0000,
            u == p * f,
            p > 0x1_0000_0000_0000_0000,
            f > 0,
    ;
    lemma_nearest_absorbs(a.mantissa as nat, a.shift as nat, small);
    assert(a.mantissa as nat * u >= u) by (nonlinear_arith)
        requires
            a.mantissa >= 1,
    ;
    if a.negative {
        assert(a.value() + b.value() < 0);
    } else {
        assert(a.value() + b.value() > 0);
    }
}

/// The rounded sum of two numbers.
fn sum(a: Scaled, b: Scaled) -> (r: Scaled)
    requires
        a.normal(),
        b.normal(),
    ensures
        r.mantissa <= MANTISSA_LIMIT,
        r.shift <= a.shift + 76 || r.shift <= b.shift + 76,
        r.value() == rounded(a.value() + b.value()),
{
    if a.shift >= b.shift {
        sum_ordered(a, b)
    } else {
        sum_ordered(b, a)
    }
}

/// A common factor cancels in a quotient.
proof fn lemma_quotient_cancels(a: int, b: int, f: int)
    requires
        a >= 0,
        b > 0,
        f > 0,
    ensures
        b * f > 0,
        (a * f) / (b * f) == a / b,
{
    assert(b * f > 0) by (nonlinear_arith)
        requires
            b > 0,
            f > 0,
    ;
    assert(a * f >= 0) by (nonlinear_arith)
        requires
            a >= 0,
            f > 0,
    ;
    lemma_div_denominator(a * f, f, b);
    lemma_mul_is_commutative(f, b);
    lemma_mul_is_commutative(a, f);
    lemma_div_multiples_vanish(a, f);
}

/// The whole number nearest to the magnitude, halves going up, or `limit` where
/// it is larger than that.
fn whole_magnitude(mantissa: u64, shift: u32, limit: u64) -> (r: u64)
    requires
        mantissa <= MANTISSA_LIMIT,
    ensures
        r == clamped(whole((mantissa as nat * pow2(shift as nat)) as int), 0, limit as int),
{
    let ghost x = mantissa as nat * pow2(shift as nat);
    proof {
        lemma_limits();
        lemma_pow2_pos(shift as nat);
        lemma_pow2_pos(1074);
        assert(x >= 0);
    }
    if shift >= 1074 {
        let d: u32 = shift - 1074;
        proof {
            lemma_pow2_adds(d as nat, 1074);
            let n = (mantissa as nat * pow2(d as nat)) as int;
            assert(x == n * one()) by (nonlinear_arith)
                requires
                    x == mantissa as nat * (pow2(d as nat) * one()),
                    n == mantissa as nat * pow2(d as nat),
            ;
            lemma_pow2_pos(d as nat);
            lemma_quotient_cancels(2 * n + 1, 2, one() as int);
            assert((2 * n + 1) * one() == 2 * x + one()) by (nonlinear_arith)
                requires
                    x == n * one(),
            ;
            assert(whole(x as int) == n);
        }
        if dominates(mantissa, d, limit) {
            limit
        } else {
            let p = if mantissa == 0 { 1 } else { exact_power(mantissa, d, limit) };
            proof {
                if mantissa == 0 {
                    assert(mantissa as nat * pow2(d as nat) == 0) by (nonlinear_arith)
                        requires
                            mantissa == 0,
                    ;
                }
            }
            mantissa * p
        }
    } else {
        let s: u32 = 1074 - shift;
        let ghost f = pow2(shift as nat) as int;
        proof {
            lemma_pow2_adds(s as nat, shift as nat);
            lemma_pow2_pos(s as nat);
            let a = 2 * mantissa as int + pow2(s as nat);
            lemma_quotient_cancels(a, 2 * pow2(s as nat) as int, f);
            assert(a * f == 2 * x + one()) by (nonlinear_arith)
                requires
                    a == 2 * mantissa as int + pow2(s as nat),
                    x == mantissa as nat * f,
                    one() == pow2(s as nat) * f,
            ;
            assert((2 * pow2(s as nat)) * f == 2 * one()) by (nonlinear_arith)
                requires
                    one() == pow2(s as nat) * f,
            ;
            assert(whole(x as int) == a / (2 * pow2(s as nat) as int));
        }
        if s >= 64 {
            proof {
                if s > 64 {
                    lemma_pow2_strictly_increases(64, s as nat);
                }
                let a = 2 * mantissa as int + pow2(s as nat);
                lemma_fundamental_div_mod_converse(a, 2 * pow2(s as nat) as int, 0, a);
            }
            0
        } else {
            let p = power(s);
            proof {
                lemma_pow2_strictly_increases(s as nat, 64);
            }
            let w: u128 = (2 * mantissa as u128 + p) / (2 * p);
            if w > limit as u128 {
                limit
            } else {
                w as u64
            }
        }
    }
}

/// 2^d, where `m * 2^d` stays below a limit.
fn exact_power(m: u64, d: u32, limit: u64) -> (p: u64)
    requires
        m > 0,
        m as nat * pow2(d as nat) < limit,
    ensures
        p == pow2(d as nat),
{
    proof {
        lemma2_to64();
        let q = pow2(d as nat);
        assert(m as nat * q >= q) by (nonlinear_arith)
            requires
                m > 0,
        ;
        if d >= 64 {
            lemma_large_shift(m, d);
        }
    }
    power(d) as u64
}

/// The number `±mantissa * 2^shift` as bits.
fn encode(n: Scaled) -> (d: Double)
    requires
        n.mantissa <= MANTISSA_LIMIT,
        n.shift <= 1500,
    ensures
        d@ == n.value(),
        is_finite_pattern(d.pattern()),
        n.value() == 0 && !n.negative ==> d.pattern() == 0,
{
    let mut m: u64 = n.mantissa;
    let mut e: u32 = n.shift;
    proof {
        lemma_limits();
    }
    if m == MANTISSA_LIMIT {
        proof {
            lemma_pow2_unfold((e + 1) as nat);
            let f = pow2(e as nat);
            assert(m as nat * f == HIDDEN_BIT as nat * (2 * f)) by (nonlinear_arith)
                requires
                    m == 2 * HIDDEN_BIT,
            ;
        }
        m = HIDDEN_BIT;
        e = e + 1;
    }
    while m < HIDDEN_BIT && e > 0
        invariant
            m < MANTISSA_LIMIT,
            e <= 1501,
            m as nat * pow2(e as nat) == n.magnitude(),
        decreases e,
    {
        proof {
            lemma_pow2_unfold(e as nat);
            let f = pow2((e - 1) as nat);
            assert(m as nat * (2 * f) == (2 * m) as nat * f) by (nonlinear_arith);
        }
        m = m * 2;
        e = e - 1;
    }
    let sign: u64 = if n.negative { SIGN_BIT } else { 0 };
    if m < HIDDEN_BIT {
        proof {
            assert(m as nat * pow2(0) == m) by (nonlinear_arith)
                requires
                    pow2(0) == 1,
            ;
        }
        let bits: u64 = sign + m;
        assert(bits / HIDDEN_BIT == sign / HIDDEN_BIT);
        assert((sign / HIDDEN_BIT) % 2048 == 0);
        Double { bits }
    } else {
        proof {
            let f = pow2(e as nat);
            lemma_pow2_pos(e as nat);
            assert(m as nat * f > 0) by (nonlinear_arith)
                requires
                    m > 0,
                    f > 0,
            ;
        }
        let exponent: u64 = e as u64 + 1;
        let bits: u64 = sign + exponent * HIDDEN_BIT + (m - HIDDEN_BIT);
        assert(bits % HIDDEN_BIT == m - HIDDEN_BIT);
        assert(bits / HIDDEN_BIT == sign / HIDDEN_BIT + exponent);
        Double { bits }
    }
}

/// The number times a small whole factor, rounded.
fn product(a: Scaled, factor: u32) -> (r: Scaled)
    requires
        a.normal(),
    ensures
        r.mantissa <= MANTISSA_LIMIT,
        r.value() == rounded(a.value() * factor),
{
    let ghost f = pow2(a.shift as nat);
    proof {
        let m = a.mantissa as int;
        assert(0 <= m * factor <= 0x20_0000_0000_0000 * 0xffff_ffff) by (nonlinear_arith)
            requires
                0 <= m <= 0x20_0000_0000_0000,
                0 <= factor <= 0xffff_ffff,
        ;
    }
    let mantissa: u128 = a.mantissa as u128 * factor as u128;
    let r = round(mantissa, a.shift);
    proof {
        lemma_pow2_pos(a.shift as nat);
        let x = mantissa as nat * f;
        assert(x == a.magnitude() * factor) by (nonlinear_arith)
            requires
                x == mantissa as nat * f,
                mantissa == a.mantissa as nat * factor as nat,
                a.magnitude() == a.mantissa as nat * f,
        ;
        assert(a.negative ==> a.value() * factor == -(x as int)) by (nonlinear_arith)
            requires
                a.negative ==> a.value() == -(a.magnitude() as int),
                x == a.magnitude() * factor,
        ;
        if x == 0 {
            lemma_nearest_exact(0, 0);
            assert(0nat * pow2(0) == 0);
        }
    }
    Scaled { negative: a.negative, mantissa: r.0, shift: r.1 }
}

/// A whole number as a magnitude.
fn whole_parts(n: u32) -> (p: Scaled)
    ensures
        p.mantissa == n,
        p.value() == n * one(),
{
    Scaled { negative: false, mantissa: n as u64, shift: 1074 }
}

impl Double {
    /// Whether the number is at least `other`.
    pub fn at_least(self, other: Double) -> (r: bool)
        ensures
            r == (self@ >= other@),
    {
        value_at_least(self.parts(), other.parts())
    }

    /// Whether the difference `self - other`, rounded, is at least `bound`.
    pub fn difference_at_least(self, other: Double, bound: Double) -> (r: bool)
        ensures
            r == (rounded(self@ - other@) >= bound@),
    {
        let p = other.parts();
        let negated = Scaled { negative: !p.negative, mantissa: p.mantissa, shift: p.shift };
        value_at_least(sum(self.parts(), negated), bound.parts())
    }

    /// The product with a whole factor, rounded and taken to the nearest whole
    /// number, within the range of `i64`.
    pub fn scaled_whole(self, factor: u32) -> (n: i64)
        ensures
            n == clamped(whole(rounded(self@ * factor)), i64::MIN as int, i64::MAX as int),
            n > i64::MIN ==> (2 * n - 1) * one() <= 2 * rounded(self@ * factor),
            n < i64::MAX ==> 2 * rounded(self@ * factor) <= (2 * n + 1) * one(),
    {
        proof {
            law_clamped_whole_is_nearest(rounded(self@ * factor), i64::MIN as int, i64::MAX as int);
        }
        let p = product(self.parts(), factor);
        proof {
            lemma_whole_sign(p.magnitude() as int);
        }
        if p.negative {
            let w = whole_magnitude(p.mantissa, p.shift, SIGN_BIT);
            if w == SIGN_BIT {
                i64::MIN
            } else {
                -(w as i64)
            }
        } else {
            whole_magnitude(p.mantissa, p.shift, 0x7fff_ffff_ffff_ffff) as i64
        }
    }

    /// Whether the product with a whole factor, rounded, is above a whole bound.
    pub fn scaled_exceeds(self, factor: u32, bound: u32) -> (r: bool)
        ensures
            r == (rounded(self@ * factor) > bound * one()),
    {
        !value_at_least(whole_parts(bound), product(self.parts(), factor))
    }

    /// The nearest whole number, within the range of `u32`.
    pub fn to_percent(self) -> (n: u32)
        ensures
            n == clamped(whole(self@), 0, u32::MAX as int),
            n > 0 ==> (2 * n - 1) * one() <= 2 * self@,
            n < u32::MAX ==> 2 * self@ < (2 * n + 1) * one(),
    {
        proof {
            law_clamped_whole_is_nearest(self@, 0, u32::MAX as int);
        }
        let p = self.parts();
        proof {
            lemma_whole_sign(p.magnitude() as int);
        }
        if p.negative {
            0
        } else {
            whole_magnitude(p.mantissa, p.shift, 0xffff_ffff) as u32
        }
    }

    /// The number nearest to an unsigned whole number.
    pub fn from_u64(n: u64) -> (d: Double)
        ensures
            d == Double::of(rounded(n * one())),
            d.is_of(rounded(n * one())),
            -0x20_0000_0000_0000 < n < 0x20_0000_0000_0000 ==> d@ == n * one(),
    {
        let r = round(n as u128, 1074);
        proof {
            lemma_pow2_pos(1074);
        }
        let d = encode(Scaled { negative: false, mantissa: r.0, shift: r.1 });
        proof {
            lemma_of(d, rounded(n * one()));
            if n < 0x20_0000_0000_0000 {
                law_small_wholes_are_exact(n as int);
            }
        }
        d
    }

    /// The number nearest to a signed whole number.
    pub fn from_i64(n: i64) -> (d: Double)
        ensures
            d == Double::of(rounded(n * one())),
            d.is_of(rounded(n * one())),
            -0x20_0000_0000_0000 < n < 0x20_0000_0000_0000 ==> d@ == n * one(),
    {
        if n >= 0 {
            Double::from_u64(n as u64)
        } else {
            let m: u64 = if n == i64::MIN { SIGN_BIT } else { (-n) as u64 };
            let r = round(m as u128, 1074);
            proof {
                lemma_pow2_pos(1074);
                assert(n * one() == -(m * one())) by (nonlinear_arith)
                    requires
                        n == -m,
                ;
                assert(m * one() > 0) by (nonlinear_arith)
                    requires
                        m > 0,
                        one() > 0,
                ;
            }
            proof {
                lemma_positive_nearest((m * one()) as nat);
            }
            let d = encode(Scaled { negative: true, mantissa: r.0, shift: r.1 });
            proof {
                lemma_of(d, rounded(n * one()));
                if n > -0x20_0000_0000_0000 {
                    law_small_wholes_are_exact(n as int);
                }
            }
            d
        }
    }
}

/// Two finite numbers of the same value other than zero have the same bits.
proof fn lemma_unique_pattern(a: u64, b: u64)
    requires
        is_finite_pattern(a),
        is_finite_pattern(b),
        pattern_value(a) == pattern_value(b),
        pattern_value(a) != 0,
    ensures
        a == b,
{
    lemma_limits();
    assert((a >= SIGN_BIT) == (b >= SIGN_BIT));
    lemma_magnitude_orders(a, b);
    lemma_magnitude_orders(b, a);
}

/// The magnitude decides the exponent field.
proof fn lemma_magnitude_orders(a: u64, b: u64)
    ensures
        (a / HIDDEN_BIT) % 2048 < (b / HIDDEN_BIT) % 2048 ==> pattern_magnitude(a)
            < pattern_magnitude(b),
        (a / HIDDEN_BIT) % 2048 == (b / HIDDEN_BIT) % 2048 && pattern_magnitude(a)
            == pattern_magnitude(b) ==> a % HIDDEN_BIT == b % HIDDEN_BIT,
{
    lemma_limits();
    let x = (a / HIDDEN_BIT) % 2048;
    let y = (b / HIDDEN_BIT) % 2048;
    let fa = (a % HIDDEN_BIT) as nat;
    let fb = (b % HIDDEN_BIT) as nat;
    if x < y {
        let p = pow2((y - 1) as nat);
        lemma_pow2_pos((y - 1) as nat);
        assert((HIDDEN_BIT + fb) as nat * p >= HIDDEN_BIT * p) by (nonlinear_arith);
        if x == 0 {
            assert(HIDDEN_BIT * p >= HIDDEN_BIT) by (nonlinear_arith)
                requires
                    p >= 1,
            ;
        } else {
            let r = pow2((x - 1) as nat);
            lemma_pow2_pos((x - 1) as nat);
            lemma_pow2_unfold(x as nat);
            if x < y - 1 {
                lemma_pow2_strictly_increases(x as nat, (y - 1) as nat);
            }
            assert(p >= 2 * r);
            assert((HIDDEN_BIT + fa) as nat * r < HIDDEN_BIT * p) by (nonlinear_arith)
                requires
                    fa < HIDDEN_BIT,
                    r >= 1,
                    p >= 2 * r,
            ;
        }
    } else if x == y && x > 0 {
        let p = pow2((x - 1) as nat);
        lemma_pow2_pos((x - 1) as nat);
        if fa != fb {
            assert((HIDDEN_BIT + fa) as nat * p != (HIDDEN_BIT + fb) as nat * p)
                by (nonlinear_arith)
                requires
                    fa != fb,
                    p >= 1,
            ;
        }
    }
}

proof fn lemma_of(d: Double, value: int)
    requires
        d.is_of(value),
    ensures
        d == Double::of(value),
{
    let c = Double::of(value);
    assert(c.is_of(value));
    if value != 0 {
        lemma_unique_pattern(d.pattern(), c.pattern());
    }
}

proof fn lemma_whole_sign(x: int)
    requires
        x >= 0,
    ensures
        whole(-x) == -whole(x),
        whole(x) >= 0,
{
    lemma_pow2_pos(1074);
    let a = 2 * x + one();
    let b = 2 * one() as int;
    vstd::arithmetic::div_mod::lemma_div_pos_is_pos(a, b);
    if x == 0 {
        lemma_fundamental_div_mod_converse(a, b, 0, a);
    }
}

/// The integer part of a quotient that lies between `2 * m` and `2 * m + 2`, in
/// multiples of `f`.
proof fn lemma_quotient_between(n: int, d: int, m: int, left: int, f: int)
    requires
        d > 0,
        f > 0,
        m >= 0,
        n == (2 * m * d + 2 * left) * f,
        0 <= left < d,
    ensures
        2 * m * f <= n / d < (2 * m + 2) * f,
{
    let whole_part = n / d;
    lemma_fundamental_div_mod(n, d);
    let low = 2 * m * f;
    let high = (2 * m + 2) * f;
    let extra = 2 * left * f;
    assert(n == low * d + extra) by (nonlinear_arith)
        requires
            n == (2 * m * d + 2 * left) * f,
            low == 2 * m * f,
            extra == 2 * left * f,
    ;
    assert(0 <= extra < 2 * f * d) by (nonlinear_arith)
        requires
            extra == 2 * left * f,
            0 <= left < d,
            f > 0,
    ;
    assert(high * d == low * d + 2 * f * d) by (nonlinear_arith)
        requires
            low == 2 * m * f,
            high == (2 * m + 2) * f,
    ;
    assert(low <= whole_part) by (nonlinear_arith)
        requires
            low * d <= d * whole_part + n % d,
            n % d < d,
            d > 0,
    ;
    assert(whole_part < high) by (nonlinear_arith)
        requires
            d * whole_part + n % d < high * d,
            n % d >= 0,
            d > 0,
    ;
}

/// What is left of `n` after taking out `q` units, and how it compares with half
/// a unit: `r` is what is left of the even part.
proof fn lemma_quotient_rest(
    n: int,
    d: int,
    m: int,
    left: int,
    f: int,
    half: int,
    unit: int,
    q: int,
    r: int,
)
    requires
        unit == d * (2 * half * f),
        d > 0,
        f > 0,
        n == (2 * m * d + 2 * left) * f,
        0 <= left < d,
        0 <= q,
        2 * m == 2 * half * q + r,
        0 <= r,
        r + 2 <= 2 * half,
        r % 2 == 0,
        half % 2 == 0,
    ensures
        n / unit == q,
        (2 * (n % unit) > unit) == (r > half || (r == half && left > 0)),
        (2 * (n % unit) == unit) == (r == half && left == 0),
{
    let c = r * d + 2 * left;
    let rest = c * f;
    let hd = half * d;
    assert(unit == 2 * hd * f) by (nonlinear_arith)
        requires
            unit == d * (2 * half * f),
            hd == half * d,
    ;
    assert(2 * m * d == 2 * hd * q + r * d) by (nonlinear_arith)
        requires
            2 * m == 2 * half * q + r,
            hd == half * d,
    ;
    assert(n == (2 * hd * q + c) * f);
    assert(n == q * unit + rest) by (nonlinear_arith)
        requires
            n == (2 * hd * q + c) * f,
            unit == 2 * hd * f,
            rest == c * f,
    ;
    assert((r + 2) * d <= 2 * half * d) by (nonlinear_arith)
        requires
            r + 2 <= 2 * half,
            d > 0,
    ;
    assert((r + 2) * d == r * d + 2 * d) by (nonlinear_arith);
    assert(2 * half * d == 2 * hd) by (nonlinear_arith)
        requires
            hd == half * d,
    ;
    assert(r * d >= 0) by (nonlinear_arith)
        requires
            r >= 0,
            d > 0,
    ;
    assert(0 <= c < 2 * hd);
    assert(0 <= rest < unit) by (nonlinear_arith)
        requires
            0 <= c < 2 * hd,
            f > 0,
            rest == c * f,
            unit == 2 * hd * f,
    ;
    lemma_fundamental_div_mod_converse(n, unit, q, rest);
    assert((2 * rest > unit) == (c > hd)) by (nonlinear_arith)
        requires
            rest == c * f,
            unit == 2 * hd * f,
            f > 0,
    ;
    assert((2 * rest == unit) == (c == hd)) by (nonlinear_arith)
        requires
            rest == c * f,
            unit == 2 * hd * f,
            f > 0,
    ;
    if r > half {
        assert(r * d > hd) by (nonlinear_arith)
            requires
                r > half,
                d > 0,
                hd == half * d,
        ;
    } else if r < half {
        assert((r + 2) * d <= hd) by (nonlinear_arith)
            requires
                r + 2 <= half,
                d > 0,
                hd == half * d,
        ;
    } else {
        assert(r * d == hd);
    }
}

/// The quotient of `n` by `d` lies between `2 * m` and `2 * m + 2`, in multiples
/// of `2^e`, and equals `2 * m` exactly where nothing was left over; the odd
/// number in between stands for it in the rounding.
proof fn lemma_sticky(n: nat, d: nat, m: nat, left: nat, e: nat)
    requires
        d > 0,
        n == (2 * m * d + 2 * left) * pow2(e),
        left < d,
        m >= 2 * MANTISSA_LIMIT,
    ensures
        nearest_quotient(n, d) == nearest((2 * m + (if left > 0 {
            1nat
        } else {
            0nat
        })) * pow2(e)),
{
    let f = pow2(e);
    lemma_pow2_pos(e);
    let odd: nat = if left > 0 {
        1
    } else {
        0
    };
    let w = 2 * m + odd;
    let s = binade(w);
    lemma_binade(w);
    let unit = pow2(s);
    lemma_pow2_pos(s);
    assert(s >= 2) by {
        lemma_limits();
        if s < 2 {
            assert(unit <= 2);
            assert(w < MANTISSA_LIMIT * 2) by (nonlinear_arith)
                requires
                    w < MANTISSA_LIMIT * unit,
                    unit <= 2,
            ;
        }
    }
    lemma_pow2_unfold(s);
    lemma_pow2_unfold((s - 1) as nat);
    let quarter = pow2((s - 2) as nat);
    let half = 2 * quarter;
    assert(unit == 2 * half);
    lemma_nearest_scaled(w, s, e);
    lemma_pow2_adds(s, e);
    let u = unit * f;
    lemma_quotient_between(n as int, d as int, m as int, left as int, f as int);
    // `w` and its even neighbours below and above lie between the same bounds.
    assert(HIDDEN_BIT * unit == 4 * (HIDDEN_BIT * quarter)) by (nonlinear_arith)
        requires
            unit == 4 * quarter,
    ;
    assert(MANTISSA_LIMIT * unit == 4 * (MANTISSA_LIMIT * quarter)) by (nonlinear_arith)
        requires
            unit == 4 * quarter,
    ;
    assert(HIDDEN_BIT * unit <= 2 * m);
    assert(2 * m + 2 <= MANTISSA_LIMIT * unit);
    assert(HIDDEN_BIT * u <= 2 * m * f) by (nonlinear_arith)
        requires
            HIDDEN_BIT * unit <= 2 * m,
            u == unit * f,
            f > 0,
    ;
    assert((2 * m + 2) * f <= MANTISSA_LIMIT * u) by (nonlinear_arith)
        requires
            2 * m + 2 <= MANTISSA_LIMIT * unit,
            u == unit * f,
            f > 0,
    ;
    lemma_ulp_in_binade(n / d, s + e);
    // Dividing by the unit gives the same integer for both.
    let q = w / unit;
    let r = w % unit;
    lemma_fundamental_div_mod(w as int, unit as int);
    assert(unit * q == 4 * (quarter * q)) by (nonlinear_arith)
        requires
            unit == 4 * quarter,
    ;
    let even = r - odd;
    assert(r % 2 == odd);
    assert(2 * half * q == unit * q) by (nonlinear_arith)
        requires
            unit == 2 * half,
    ;
    let du = d * u;
    assert(d * (2 * half * f) == du) by (nonlinear_arith)
        requires
            u == unit * f,
            unit == 2 * half,
            du == d * u,
    ;
    lemma_quotient_rest(
        n as int,
        d as int,
        m as int,
        left as int,
        f as int,
        half as int,
        du as int,
        q as int,
        even,
    );
    assert(n / du == q);
    assert((2 * r > unit) == (even > half || (even == half && left > 0)));
    assert((2 * r == unit) == (even == half && left == 0));
    assert(du > 0) by (nonlinear_arith)
        requires
            du == d * u,
            d > 0,
            u == unit * f,
            unit > 0,
            f > 0,
    ;
    let rest = n as int % du as int;
    assert(rest == n % du);
    assert((2 * rest > du) == (even > half || (even == half && left > 0)));
    assert((2 * rest == du) == (even == half && left == 0));
    assert(ulp(n / d) == u);
}

/// The exponent of the range with mantissas of 53 bits that `x` lies in.
spec fn binade(x: nat) -> nat
    decreases x,
{
    if x < MANTISSA_LIMIT {
        0
    } else {
        1 + binade(x / 2)
    }
}

proof fn lemma_binade(x: nat)
    requires
        x >= HIDDEN_BIT,
    ensures
        HIDDEN_BIT * pow2(binade(x)) <= x < MANTISSA_LIMIT * pow2(binade(x)),
    decreases x,
{
    lemma_limits();
    if x >= MANTISSA_LIMIT {
        lemma_binade(x / 2);
        lemma_pow2_unfold(binade(x));
        let p = pow2(binade(x / 2));
        assert(HIDDEN_BIT * (2 * p) == 2 * (HIDDEN_BIT * p)) by (nonlinear_arith);
        assert(MANTISSA_LIMIT * (2 * p) == 2 * (MANTISSA_LIMIT * p)) by (nonlinear_arith);
    }
}

/// Below the range that begins at `2^53 * 2^k`, neighbours are at most `2^k`
/// apart.
pub proof fn lemma_ulp_bound(x: nat, k: nat)
    requires
        x < MANTISSA_LIMIT * pow2(k),
    ensures
        0 < ulp(x) <= pow2(k),
    decreases k,
{
    lemma_limits();
    lemma_pow2_pos(k);
    if x >= MANTISSA_LIMIT && k > 0 {
        lemma_pow2_unfold(k);
        let p = pow2((k - 1) as nat);
        assert(MANTISSA_LIMIT * (2 * p) == 2 * (MANTISSA_LIMIT * p)) by (nonlinear_arith);
        lemma_ulp_bound(x / 2, (k - 1) as nat);
    } else if k == 0 {
        assert(MANTISSA_LIMIT * pow2(0) == MANTISSA_LIMIT) by (nonlinear_arith)
            requires
                pow2(0) == 1,
        ;
    }
}

/// Rounding moves a magnitude by at most half the distance between neighbours.
pub proof fn lemma_nearest_error(x: nat)
    requires
        ulp(x) > 0,
    ensures
        2 * nearest(x) <= 2 * x + ulp(x),
        2 * x <= 2 * nearest(x) + ulp(x),
{
    let u = ulp(x);
    let q = x / u;
    let r = x % u;
    lemma_fundamental_div_mod(x as int, u as int);
    assert(u * q == q * u) by (nonlinear_arith);
    assert((q + 1) * u == q * u + u) by (nonlinear_arith);
}

/// Rounding a quotient moves it by less than the distance between neighbours.
pub proof fn lemma_nearest_quotient_error(n: nat, d: nat)
    requires
        d > 0,
        ulp(n / d) > 0,
    ensures
        nearest_quotient(n, d) <= n / d + ulp(n / d),
{
    let u = ulp(n / d);
    let du = d * u;
    assert(du > 0) by (nonlinear_arith)
        requires
            d > 0,
            u > 0,
            du == d * u,
    ;
    let q = n / du;
    lemma_div_denominator(n as int, d as int, u as int);
    lemma_fundamental_div_mod((n / d) as int, u as int);
    assert(u * q == q * u) by (nonlinear_arith);
    assert((q + 1) * u == q * u + u) by (nonlinear_arith);
}

/// Rounding a quotient moves it by at most half the distance between neighbours.
pub proof fn lemma_nearest_quotient_close(n: nat, d: nat)
    requires
        d > 0,
        ulp(n / d) > 0,
    ensures
        2 * (d * nearest_quotient(n, d)) <= 2 * n + d * ulp(n / d),
        2 * n <= 2 * (d * nearest_quotient(n, d)) + d * ulp(n / d),
{
    let u = ulp(n / d);
    let du = d * u;
    assert(du > 0) by (nonlinear_arith)
        requires
            d > 0,
            u > 0,
            du == d * u,
    ;
    let q = n / du;
    lemma_fundamental_div_mod(n as int, du as int);
    assert(d * (q * u) == du * q) by (nonlinear_arith)
        requires
            du == d * u,
    ;
    assert(d * ((q + 1) * u) == du * q + du) by (nonlinear_arith)
        requires
            du == d * u,
    ;
}

/// Whole numbers below 2^53 are not moved by rounding.
pub proof fn lemma_small_whole(n: nat)
    requires
        n < MANTISSA_LIMIT,
    ensures
        rounded((n * one()) as int) == n * one(),
{
    lemma_nearest_exact(n, 1074);
}

/// A bound on a number bounds its shift.
proof fn lemma_shift_bound(p: Scaled)
    requires
        p.normal(),
        p.magnitude() < pow2(1300),
    ensures
        p.shift <= 1300,
{
    if p.shift > 1300 {
        lemma_pow2_strictly_increases(1300, p.shift as nat);
        let f = pow2(p.shift as nat);
        assert(p.mantissa as nat * f >= f) by (nonlinear_arith)
            requires
                p.mantissa >= 1,
        ;
    }
}

impl Double {
    /// The rounded sum.
    pub fn plus(self, other: Double) -> (r: Double)
        requires
            -pow2(1300) < self@ < pow2(1300),
            -pow2(1300) < other@ < pow2(1300),
        ensures
            is_finite_pattern(r.pattern()),
            r@ == rounded(self@ + other@),
    {
        let a = self.parts();
        let b = other.parts();
        proof {
            lemma_shift_bound(a);
            lemma_shift_bound(b);
        }
        encode(sum(a, b))
    }

    /// The number with the other sign.
    pub fn negated(self) -> (r: Double)
        ensures
            r@ == -self@,
            is_finite_pattern(r.pattern()) == is_finite_pattern(self.pattern()),
    {
        let bits: u64 = if self.bits >= SIGN_BIT {
            self.bits - SIGN_BIT
        } else {
            self.bits + SIGN_BIT
        };
        assert(bits % HIDDEN_BIT == self.bits % HIDDEN_BIT);
        assert((bits / HIDDEN_BIT) % 2048 == (self.bits / HIDDEN_BIT) % 2048);
        Double { bits }
    }

    /// A number of seconds in hours: the number nearest to `seconds`, divided by
    /// 3600.
    pub fn hours(seconds: i64) -> (r: Double)
        ensures
            is_finite_pattern(r.pattern()),
            r@ == quotient(rounded(seconds * one()), 3600),
    {
        let m: u64 = if seconds >= 0 {
            seconds as u64
        } else if seconds == i64::MIN {
            SIGN_BIT
        } else {
            (-seconds) as u64
        };
        let whole_seconds = round(m as u128, 1074);
        let ghost n = nearest(m as nat * one());
        proof {
            lemma_limits();
            lemma_pow2_pos(1074);
            assert(seconds < 0 ==> seconds * one() == -(m * one())) by (nonlinear_arith)
                requires
                    seconds < 0 ==> seconds == -m,
            ;
            assert(m > 0 ==> m * one() > 0) by (nonlinear_arith)
                requires
                    one() > 0,
            ;
        }
        if m == 0 {
            proof {
                lemma_nearest_exact(0, 1074);
                assert(0nat * one() == 0);
                assert(seconds * one() == 0) by (nonlinear_arith)
                    requires
                        seconds == 0,
                ;
                assert(ulp(0) == 1);
                assert(nearest_quotient(0, 3600) == 0);
                assert(pattern_magnitude(0) == 0);
            }
            return Double { bits: 0 };
        }
        let scale = power(70);
        let ghost p = pow2(70);
        proof {
            lemma_pow2_adds(64, 6);
            lemma2_to64();
            assert(whole_seconds.0 as nat * p <= 0x20_0000_0000_0000 * 0x40_0000_0000_0000_0000)
                by (nonlinear_arith)
                requires
                    whole_seconds.0 <= 0x20_0000_0000_0000,
                    p == 0x40_0000_0000_0000_0000,
            ;
            lemma_positive_nearest(m as nat * one());
            lemma_zero_factor(whole_seconds.0 as nat, pow2(whole_seconds.1 as nat));
            assert(whole_seconds.0 >= 1);
            assert(whole_seconds.0 as nat * p >= 0x40_0000_0000_0000_0000) by (nonlinear_arith)
                requires
                    whole_seconds.0 >= 1,
                    p == 0x40_0000_0000_0000_0000,
            ;
        }
        let wide: u128 = whole_seconds.0 as u128 * scale;
        let half: u128 = wide / 3600;
        let left: u128 = wide % 3600;
        let odd: u128 = if left > 0 { 1 } else { 0 };
        let shift: u32 = whole_seconds.1 - 71;
        proof {
            lemma_fundamental_div_mod(wide as int, 3600);
            lemma_pow2_adds(71, shift as nat);
            lemma_pow2_unfold(71);
            let f = pow2(shift as nat);
            assert(n == (2 * half as nat * 3600 + 2 * left as nat) * f) by (nonlinear_arith)
                requires
                    n == whole_seconds.0 as nat * ((2 * p) * f),
                    wide == whole_seconds.0 as nat * p,
                    wide == 3600 * half + left,
            ;
            lemma_sticky(n, 3600, half as nat, left as nat, shift as nat);
        }
        let r = round(2 * half + odd, shift);
        encode(Scaled { negative: seconds < 0, mantissa: r.0, shift: r.1 })
    }
}

proof fn lemma_positive_nearest(x: nat)
    requires
        x > 0,
    ensures
        nearest(x) > 0,
{
    if x < MANTISSA_LIMIT {
        assert(ulp(x) == 1);
        assert(nearest(x) == x);
    } else {
        lemma_binade(x);
        let k = binade(x);
        lemma_ulp_in_binade(x, k);
        lemma_nearest_error(x);
        let u = pow2(k);
        lemma_pow2_pos(k);
        assert(x >= 2 * u) by (nonlinear_arith)
            requires
                x >= HIDDEN_BIT * u,
                HIDDEN_BIT >= 2,
        ;
    }
}

proof fn lemma_zero_factor(m: nat, p: nat)
    requires
        m * p > 0,
    ensures
        m > 0,
{
    if m == 0 {
        assert(m * p == 0) by (nonlinear_arith)
            requires
                m == 0,
        ;
    }
}

/// Rounding keeps the order of magnitudes.
proof fn lemma_nearest_monotone(x: nat, y: nat)
    requires
        x <= y,
    ensures
        nearest(x) <= nearest(y),
{
    if y < MANTISSA_LIMIT {
        assert(ulp(x) == 1 && ulp(y) == 1);
    } else {
        lemma_binade(y);
        let k = binade(y);
        let u = pow2(k);
        lemma_pow2_pos(k);
        lemma_ulp_in_binade(y, k);
        lemma_fundamental_div_mod(y as int, u as int);
        let q = y / u;
        assert(u * q == q * u) by (nonlinear_arith);
        assert(nearest(y) >= q * u) by {
            assert((q + 1) * u == q * u + u) by (nonlinear_arith);
        }
        if x >= HIDDEN_BIT * u {
            lemma_ulp_in_binade(x, k);
            lemma_fundamental_div_mod(x as int, u as int);
            let p = x / u;
            assert(u * p == p * u) by (nonlinear_arith);
            assert((p + 1) * u == p * u + u) by (nonlinear_arith);
            if p == q {
            } else {
                assert(p < q) by (nonlinear_arith)
                    requires
                        x <= y,
                        x == u * p + x % u,
                        y == u * q + y % u,
                        0 <= x % u < u,
                        0 <= y % u < u,
                        p != q,
                ;
                assert((p + 1) * u <= q * u) by (nonlinear_arith)
                    requires
                        p + 1 <= q,
                        u > 0,
                ;
            }
        } else {
            // The lower bound of the range of `y` lies between the two.
            let bound = HIDDEN_BIT * u;
            assert(q >= HIDDEN_BIT) by (nonlinear_arith)
                requires
                    y >= HIDDEN_BIT * u,
                    y == u * q + y % u,
                    0 <= y % u < u,
            ;
            assert(q * u >= bound) by (nonlinear_arith)
                requires
                    q >= HIDDEN_BIT,
                    bound == HIDDEN_BIT * u,
            ;
            lemma_nearest_below(x, k);
        }
    }
}

/// A magnitude below the range that begins at `2^52 * 2^k` is not rounded past
/// its beginning.
proof fn lemma_nearest_below(x: nat, k: nat)
    requires
        x < HIDDEN_BIT * pow2(k),
    ensures
        nearest(x) <= HIDDEN_BIT * pow2(k),
{
    lemma_limits();
    lemma_pow2_pos(k);
    if x < MANTISSA_LIMIT {
        assert(ulp(x) == 1);
        assert(nearest(x) == x);
    } else {
        lemma_binade(x);
        let j = binade(x);
        let v = pow2(j);
        lemma_pow2_pos(j);
        lemma_ulp_in_binade(x, j);
        if j >= k {
            if j > k {
                lemma_pow2_strictly_increases(k, j);
            }
            assert(HIDDEN_BIT * v >= HIDDEN_BIT * pow2(k)) by (nonlinear_arith)
                requires
                    v >= pow2(k),
            ;
        } else {
            lemma_pow2_unfold((j + 1) as nat);
            if j + 1 < k {
                lemma_pow2_strictly_increases(j + 1, k);
            }
            lemma_fundamental_div_mod(x as int, v as int);
            let q = x / v;
            assert(q < MANTISSA_LIMIT) by (nonlinear_arith)
                requires
                    x < MANTISSA_LIMIT * v,
                    x == v * q + x % v,
                    0 <= x % v,
                    v > 0,
            ;
            assert((q + 1) * v <= MANTISSA_LIMIT * v) by (nonlinear_arith)
                requires
                    q + 1 <= MANTISSA_LIMIT,
                    v > 0,
            ;
            assert(q * v <= (q + 1) * v) by (nonlinear_arith)
                requires
                    v > 0,
            ;
            assert(MANTISSA_LIMIT * v <= HIDDEN_BIT * pow2(k)) by (nonlinear_arith)
                requires
                    2 * v <= pow2(k),
                    MANTISSA_LIMIT == 2 * HIDDEN_BIT,
            ;
        }
    }
}

/// Rounding keeps the order of values.
pub proof fn law_rounding_is_monotone(x: int, y: int)
    requires
        x <= y,
    ensures
        rounded(x) <= rounded(y),
{
    if y < 0 {
        lemma_nearest_monotone((-y) as nat, (-x) as nat);
    } else if x >= 0 {
        lemma_nearest_monotone(x as nat, y as nat);
    }
}

/// A binary64 number is not moved by rounding.
pub proof fn law_numbers_are_exact(number: Double)
    ensures
        rounded(number@) == number@,
{
    let bits = number.pattern();
    let exponent = (bits / HIDDEN_BIT) % 2048;
    let fraction = (bits % HIDDEN_BIT) as nat;
    if exponent == 0 {
        lemma_nearest_exact(fraction, 0);
        lemma_limits();
        assert(fraction * pow2(0) == fraction) by (nonlinear_arith)
            requires
                pow2(0) == 1,
        ;
    } else {
        lemma_nearest_exact((HIDDEN_BIT + fraction) as nat, (exponent - 1) as nat);
    }
}

/// The whole number is the nearest one: no more than a half away, a half going
/// away from zero.
pub proof fn law_whole_is_nearest(x: int)
    ensures
        -(one() as int) <= 2 * (whole(x) * one() - x) <= one(),
        x >= 0 ==> 2 * (whole(x) * one() - x) > -(one() as int),
        x <= 0 ==> 2 * (whole(x) * one() - x) < one(),
{
    lemma_pow2_pos(1074);
    let s = one() as int;
    let m = if x < 0 {
        -x
    } else {
        x
    };
    let a = 2 * m + s;
    let w = a / (2 * s);
    lemma_fundamental_div_mod(a, 2 * s);
    vstd::arithmetic::div_mod::lemma_mod_bound(a, 2 * s);
    assert((2 * s) * w == 2 * (w * s)) by (nonlinear_arith);
    assert((-w) * s == -(w * s)) by (nonlinear_arith);
    if x == 0 {
        lemma_whole_sign(0);
    }
}

/// Inside a range, the whole number shown is no more than a half away from the
/// value; only at the ends of the range does it differ by more.
pub proof fn law_clamped_whole_is_nearest(x: int, low: int, high: int)
    requires
        low <= high,
    ensures
        low <= clamped(whole(x), low, high) <= high,
        clamped(whole(x), low, high) > low ==> (2 * clamped(whole(x), low, high) - 1) * one() <= 2
            * x,
        clamped(whole(x), low, high) < high ==> 2 * x <= (2 * clamped(whole(x), low, high) + 1)
            * one(),
        clamped(whole(x), low, high) < high && (x >= 0 || low >= 0) ==> 2 * x < (2 * clamped(
            whole(x),
            low,
            high,
        ) + 1) * one(),
{
    lemma_pow2_pos(1074);
    law_whole_is_nearest(x);
    let w = whole(x);
    let n = clamped(w, low, high);
    let s = one() as int;
    assert((2 * n - 1) * s == 2 * (n * s) - s) by (nonlinear_arith);
    assert((2 * n + 1) * s == 2 * (n * s) + s) by (nonlinear_arith);
    if n > low {
        assert(n * s <= w * s) by (nonlinear_arith)
            requires
                n <= w,
                s > 0,
        ;
    }
    if n < high {
        assert(w * s <= n * s) by (nonlinear_arith)
            requires
                w <= n,
                s > 0,
        ;
        if low >= 0 {
            assert(n * s >= 0) by (nonlinear_arith)
                requires
                    n >= 0,
                    s > 0,
            ;
        }
    }
}

/// Rounding moves a value by no more than 2^-53 of it, so that values below 2^53
/// units stay.
pub proof fn law_rounding_error_is_small(x: int)
    ensures
        x >= 0 ==> 0x20_0000_0000_0000 * (rounded(x) - x) <= x && 0x20_0000_0000_0000 * (x
            - rounded(x)) <= x,
        x <= 0 ==> 0x20_0000_0000_0000 * (rounded(x) - x) <= -x && 0x20_0000_0000_0000 * (x
            - rounded(x)) <= -x,
{
    if x < 0 {
        lemma_relative_error((-x) as nat);
    } else {
        lemma_relative_error(x as nat);
    }
}

proof fn lemma_relative_error(x: nat)
    ensures
        0x20_0000_0000_0000 * (nearest(x) - x) <= x,
        0x20_0000_0000_0000 * (x - nearest(x)) <= x,
{
    if x < MANTISSA_LIMIT {
        assert(ulp(x) == 1);
        assert(nearest(x) == x);
    } else {
        lemma_binade(x);
        let k = binade(x);
        lemma_pow2_pos(k);
        lemma_ulp_in_binade(x, k);
        lemma_nearest_error(x);
    }
}

/// The value nearest to a difference or a sum is zero only where the two cancel,
/// and has its sign otherwise.
pub proof fn law_rounding_keeps_the_sign(x: int)
    ensures
        rounded(x) == 0 <==> x == 0,
        rounded(x) > 0 <==> x > 0,
        rounded(-x) == -rounded(x),
{
    if x > 0 {
        lemma_positive_nearest(x as nat);
    } else if x < 0 {
        lemma_positive_nearest((-x) as nat);
    } else {
        assert(ulp(0) == 1);
        assert(nearest(0) == 0);
    }
}

/// Whole numbers below 2^53, of either sign, are numbers.
pub proof fn law_small_wholes_are_exact(n: int)
    requires
        -0x20_0000_0000_0000 < n < 0x20_0000_0000_0000,
    ensures
        rounded(n * one()) == n * one(),
{
    let m: nat = if n < 0 {
        (-n) as nat
    } else {
        n as nat
    };
    lemma_small_whole(m);
    lemma_pow2_pos(1074);
    law_rounding_keeps_the_sign((m * one()) as int);
    assert(n < 0 ==> n * one() == -(m * one())) by (nonlinear_arith)
        requires
            n < 0 ==> n == -m,
    ;
}

/// Rounding goes to the nearest number: of a magnitude whose mantissa of 53 bits
/// has the lowest bit 2^k, the result is a multiple of 2^k no more than half of it
/// away.
pub proof fn law_rounding_is_to_nearest(x: nat, k: nat)
    requires
        0x10_0000_0000_0000 * pow2(k) <= x < 0x20_0000_0000_0000 * pow2(k),
    ensures
        2 * (rounded(x as int) - x) <= pow2(k),
        2 * (x - rounded(x as int)) <= pow2(k),
        rounded(x as int) % (pow2(k) as int) == 0,
{
    lemma_pow2_pos(k);
    lemma_ulp_in_binade(x, k);
    lemma_nearest_error(x);
    let u = pow2(k) as int;
    let q = x as int / u;
    assert(q * u % u == 0) by {
        vstd::arithmetic::div_mod::lemma_mod_multiples_basic(q, u);
    }
    assert((q + 1) * u % u == 0) by {
        vstd::arithmetic::div_mod::lemma_mod_multiples_basic(q + 1, u);
    }
}

/// A value half way between two neighbours goes to the one with the even
/// mantissa.
pub proof fn law_ties_go_to_even(q: nat, k: nat)
    requires
        0x10_0000_0000_0000 <= q < 0x20_0000_0000_0000,
    ensures
        q % 2 == 0 ==> rounded(((2 * q + 1) * pow2(k)) as int) == q * pow2(k + 1),
        q % 2 == 1 ==> rounded(((2 * q + 1) * pow2(k)) as int) == (q + 1) * pow2(k + 1),
{
    lemma_limits();
    lemma_nearest_scaled(2 * q + 1, 1, k);
    assert((2 * q + 1) / 2 == q);
    assert((2 * q + 1) % 2 == 1);
    assert((2 * q + 1) * pow2(k) >= 0) by (nonlinear_arith);
}

/// What bits stand for: up to the second range the magnitude is the bits
/// themselves, each further range doubles it, and the sign bit changes the sign.
pub proof fn law_bits_stand_for_values(bits: u64)
    requires
        bits < 0x7ff0_0000_0000_0000,
    ensures
        bits < 0x20_0000_0000_0000 ==> pattern_value(bits) == bits,
        0x10_0000_0000_0000 <= bits < 0x7fe0_0000_0000_0000 ==> pattern_value(
            (bits + 0x10_0000_0000_0000) as u64,
        ) == 2 * pattern_value(bits),
        pattern_value((bits + 0x8000_0000_0000_0000) as u64) == -pattern_value(bits),
{
    lemma_limits();
    let e = bits / HIDDEN_BIT;
    let f = (bits % HIDDEN_BIT) as nat;
    assert(e % 2048 == e);
    if 1 <= e < 2046 {
        let up = (bits + HIDDEN_BIT) as u64;
        assert(up / HIDDEN_BIT == e + 1 && up % HIDDEN_BIT == f);
        assert((up / HIDDEN_BIT) % 2048 == e + 1);
        lemma_pow2_unfold(e as nat);
        let p = pow2((e - 1) as nat);
        assert((HIDDEN_BIT + f) as nat * (2 * p) == 2 * ((HIDDEN_BIT + f) as nat * p))
            by (nonlinear_arith);
    }
    if e == 1 {
        assert((HIDDEN_BIT + f) as nat * pow2(0) == HIDDEN_BIT + f) by (nonlinear_arith)
            requires
                pow2(0) == 1,
        ;
    }
    let down = (bits + SIGN_BIT) as u64;
    assert(down % HIDDEN_BIT == f);
    assert((down / HIDDEN_BIT) % 2048 == e);
}

} // verus!
