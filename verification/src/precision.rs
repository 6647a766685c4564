//! The scalar type of the core: a fixed-point real number.
//!
//! A `Real` stores `raw` such that the represented value is `raw / SCALE`.
//! All arithmetic is exact integer arithmetic on `raw`; products and
//! quotients are rounded toward negative infinity (floor), so every
//! operation has a precise mathematical contract.

use vstd::prelude::*;
use vstd::arithmetic::div_mod::{lemma_fundamental_div_mod, lemma_fundamental_div_mod_converse};

verus! {

/// Number of raw units per whole unit: `Real { raw: SCALE }` represents 1.
pub const SCALE: i64 = 1_000_000;

/// Fixed-point real number; the represented value is `raw / SCALE`.
#[derive(Clone, Copy, Debug, PartialEq, Eq, Structural)]
pub struct Real {
    pub raw: i64,
}

impl View for Real {
    type V = int;

    open spec fn view(&self) -> int {
        self.raw as int
    }
}

/// Whether a mathematical integer fits in the raw representation.
pub open spec fn in_real_range(x: int) -> bool {
    i64::MIN <= x <= i64::MAX
}

/// The raw value of the product of two reals, rounded toward negative
/// infinity (ghost `/` is Euclidean division, which floors for a positive
/// divisor).
pub open spec fn mul_r(a: int, b: int) -> int {
    (a * b) / (SCALE as int)
}

/// The raw value of the quotient of two reals, rounded toward negative
/// infinity. Both branches divide by a positive number, so ghost `/`
/// is the floor.
pub open spec fn div_r(a: int, b: int) -> int
    recommends
        b != 0,
{
    if b > 0 {
        (a * SCALE) / b
    } else {
        ((-a) * SCALE) / (-b)
    }
}

/// Flooring division of a negative dividend, written with a non-negative one:
/// `floor(-m / d) == -ceil(m / d)`.
proof fn lemma_div_neg(m: int, d: int)
    requires
        0 <= m,
        0 < d,
    ensures
        (-m) / d == -((m + d - 1) / d),
{
    let q = m / d;
    let r = m % d;
    lemma_fundamental_div_mod(m, d);
    if r == 0 {
        assert((-m) == (-q) * d + 0) by (nonlinear_arith)
            requires
                m == d * q + r,
                r == 0,
        ;
        assert(m + d - 1 == q * d + (d - 1)) by (nonlinear_arith)
            requires
                m == d * q + r,
                r == 0,
        ;
        lemma_fundamental_div_mod_converse(-m, d, -q, 0);
        lemma_fundamental_div_mod_converse(m + d - 1, d, q, d - 1);
    } else {
        assert((-m) == (-q - 1) * d + (d - r)) by (nonlinear_arith)
            requires
                m == d * q + r,
        ;
        assert(m + d - 1 == (q + 1) * d + (r - 1)) by (nonlinear_arith)
            requires
                m == d * q + r,
        ;
        lemma_fundamental_div_mod_converse(-m, d, -q - 1, d - r);
        lemma_fundamental_div_mod_converse(m + d - 1, d, q + 1, r - 1);
    }
}

/// Flooring division on `i128`, for dividends whose magnitude is at most
/// 2^126 and positive divisors.
pub(crate) fn floor_div_i128(n: i128, d: i128) -> (q: i128)
    requires
        0 < d,
        -0x4000_0000_0000_0000_0000_0000_0000_0000 <= n
            <= 0x4000_0000_0000_0000_0000_0000_0000_0000,
    ensures
        q == n as int / d as int,
{
    let du: u128 = d as u128;
    if n >= 0 {
        let qu: u128 = (n as u128) / du;
        qu as i128
    } else {
        let m: u128 = (-n) as u128;
        let qu: u128 = m / du;
        let ru: u128 = m % du;
        let qq: u128 = if ru == 0 {
            qu
        } else {
            qu + 1
        };
        proof {
            lemma_div_neg(m as int, d as int);
            lemma_fundamental_div_mod(m as int, d as int);
            if m as int % (d as int) == 0 {
                assert(qq == (m + d - 1) as int / d as int) by {
                    lemma_fundamental_div_mod_converse(
                        m as int + d - 1,
                        d as int,
                        m as int / d as int,
                        d - 1,
                    );
                    assert(m as int + d - 1 == (m as int / d as int) * d + (d - 1))
                        by (nonlinear_arith)
                        requires
                            m as int == d * (m as int / d as int),
                            d > 0,
                    ;
                }
            } else {
                assert(qq == (m + d - 1) as int / d as int) by {
                    assert(m as int + d - 1 == (m as int / d as int + 1) * d + (m as int % d
                        as int - 1)) by (nonlinear_arith)
                        requires
                            m as int == d * (m as int / d as int) + m as int % d as int,
                            d > 0,
                    ;
                    lemma_fundamental_div_mod_converse(
                        m as int + d - 1,
                        d as int,
                        m as int / d as int + 1,
                        m as int % d as int - 1,
                    );
                }
            }
        }
        -(qq as i128)
    }
}

/// Trait for values that can be converted to the real type. Conversions
/// happen at the call boundary; the core's own signatures all take `Real`.
pub trait AsReal: Sized {
    /// The raw fixed-point value this value converts to.
    spec fn real_rep(self) -> int;

    /// Whether the value is small enough for the raw representation.
    spec fn real_in_range(self) -> bool;

    /// Converts the value to a `Real`.
    fn as_real(self) -> (r: Real)
        requires
            self.real_in_range(),
        ensures
            r@ == self.real_rep(),
    ;
}

impl AsReal for i8 {
    open spec fn real_rep(self) -> int {
        self * SCALE
    }

    open spec fn real_in_range(self) -> bool {
        true
    }

    fn as_real(self) -> (r: Real) {
        Real { raw: (self as i64) * SCALE }
    }
}

impl AsReal for i16 {
    open spec fn real_rep(self) -> int {
        self * SCALE
    }

    open spec fn real_in_range(self) -> bool {
        true
    }

    fn as_real(self) -> (r: Real) {
        Real { raw: (self as i64) * SCALE }
    }
}

impl AsReal for i32 {
    open spec fn real_rep(self) -> int {
        self * SCALE
    }

    open spec fn real_in_range(self) -> bool {
        true
    }

    fn as_real(self) -> (r: Real) {
        Real { raw: (self as i64) * SCALE }
    }
}

impl AsReal for i64 {
    open spec fn real_rep(self) -> int {
        self * SCALE
    }

    open spec fn real_in_range(self) -> bool {
        -9_000_000_000_000 <= self <= 9_000_000_000_000
    }

    fn as_real(self) -> (r: Real) {
        Real { raw: self * SCALE }
    }
}

impl AsReal for i128 {
    open spec fn real_rep(self) -> int {
        self * SCALE
    }

    open spec fn real_in_range(self) -> bool {
        -9_000_000_000_000 <= self <= 9_000_000_000_000
    }

    fn as_real(self) -> (r: Real) {
        Real { raw: (self as i64) * SCALE }
    }
}

impl AsReal for u8 {
    open spec fn real_rep(self) -> int {
        self * SCALE
    }

    open spec fn real_in_range(self) -> bool {
        true
    }

    fn as_real(self) -> (r: Real) {
        Real { raw: (self as i64) * SCALE }
    }
}

impl AsReal for u16 {
    open spec fn real_rep(self) -> int {
        self * SCALE
    }

    open spec fn real_in_range(self) -> bool {
        true
    }

    fn as_real(self) -> (r: Real) {
        Real { raw: (self as i64) * SCALE }
    }
}

impl AsReal for u32 {
    open spec fn real_rep(self) -> int {
        self * SCALE
    }

    open spec fn real_in_range(self) -> bool {
        true
    }

    fn as_real(self) -> (r: Real) {
        Real { raw: (self as i64) * SCALE }
    }
}

impl AsReal for u64 {
    open spec fn real_rep(self) -> int {
        self * SCALE
    }

    open spec fn real_in_range(self) -> bool {
        self <= 9_000_000_000_000
    }

    fn as_real(self) -> (r: Real) {
        Real { raw: (self as i64) * SCALE }
    }
}

impl AsReal for u128 {
    open spec fn real_rep(self) -> int {
        self * SCALE
    }

    open spec fn real_in_range(self) -> bool {
        self <= 9_000_000_000_000
    }

    fn as_real(self) -> (r: Real) {
        Real { raw: (self as i64) * SCALE }
    }
}

/// `r` is the integer square root of `n`, rounded down.
pub open spec fn is_sqrt_floor(n: int, r: int) -> bool {
    &&& 0 <= r
    &&& r * r <= n
    &&& n < (r + 1) * (r + 1)
}

/// The integer square root, rounded down; pinned by `is_sqrt_floor`,
/// which has exactly one solution for each `n >= 0`.
pub closed spec fn sqrt_floor(n: int) -> int {
    choose|r: int| is_sqrt_floor(n, r)
}

/// The rounded-down square root exists for every non-negative integer, so
/// `sqrt_floor` always satisfies `is_sqrt_floor`.
pub proof fn lemma_sqrt_floor_exists(n: int)
    requires
        0 <= n,
    ensures
        is_sqrt_floor(n, sqrt_floor(n)),
    decreases n,
{
    if n == 0 {
        assert(is_sqrt_floor(0, 0));
    } else {
        lemma_sqrt_floor_exists(n - 1);
        let p = sqrt_floor(n - 1);
        if (p + 1) * (p + 1) <= n {
            assert(is_sqrt_floor(n, p + 1)) by (nonlinear_arith)
                requires
                    is_sqrt_floor(n - 1, p),
                    (p + 1) * (p + 1) <= n,
            ;
        } else {
            assert(is_sqrt_floor(n, p));
        }
    }
}

/// The rounded-down square root is unique.
proof fn lemma_sqrt_floor_unique(n: int, r1: int, r2: int)
    by (nonlinear_arith)
    requires
        is_sqrt_floor(n, r1),
        is_sqrt_floor(n, r2),
    ensures
        r1 == r2,
{
}

/// Ties a value satisfying `is_sqrt_floor` to the `sqrt_floor` function.
pub proof fn lemma_sqrt_floor_is(n: int, r: int)
    requires
        0 <= n,
        is_sqrt_floor(n, r),
    ensures
        sqrt_floor(n) == r,
{
    lemma_sqrt_floor_exists(n);
    lemma_sqrt_floor_unique(n, r, sqrt_floor(n));
}

/// Integer square root by bisection.
pub fn isqrt_u128(n: u128) -> (r: u128)
    ensures
        is_sqrt_floor(n as int, r as int),
        r == sqrt_floor(n as int),
{
    if n == 0 {
        proof {
            lemma_sqrt_floor_is(0, 0);
        }
        return 0;
    }
    let mut lo: u128 = 0;
    let mut hi: u128 = 0x1_0000_0000_0000_0000;
    while hi - lo > 1
        invariant
            lo < hi <= 0x1_0000_0000_0000_0000,
            (lo as int) * (lo as int) <= n as int,
            (n as int) < (hi as int) * (hi as int),
        decreases hi - lo,
    {
        let mid: u128 = lo + (hi - lo) / 2;
        proof {
            assert((mid as int) * (mid as int) < 0x1_0000_0000_0000_0000_0000_0000_0000_0000)
                by (nonlinear_arith)
                requires
                    0 <= mid as int,
                    (mid as int) < 0x1_0000_0000_0000_0000,
            ;
        }
        if mid * mid <= n {
            lo = mid;
        } else {
            hi = mid;
        }
    }
    proof {
        lemma_sqrt_floor_is(n as int, lo as int);
    }
    lo
}

/// Number of binary digits of the exponent's fractional part that `Real::pow`
/// consumes.
pub const FRAC_STEPS: u64 = 30;

/// Raw value of `b` raised to the whole number `n`, one rounded product per
/// step (`SCALE` is the fixed-point one).
pub open spec fn pow_int(b: int, n: nat) -> int
    decreases n,
{
    if n == 0 {
        SCALE as int
    } else {
        mul_r(b, pow_int(b, (n - 1) as nat))
    }
}

/// Raw value of the square root of a real: `sqrt(x / SCALE) * SCALE`,
/// rounded down, is `sqrt_floor(x * SCALE)`.
pub open spec fn sqrt_r(x: int) -> int {
    sqrt_floor(x * SCALE)
}

/// Raw value of `cur` raised to the fractional exponent `f / SCALE`, times
/// `acc`, consuming `k` binary digits of `f`: at each step `cur` becomes its
/// square root and is multiplied into `acc` exactly when the next binary
/// digit of `f / SCALE` is one.
pub open spec fn pow_frac(cur: int, f: int, acc: int, k: nat) -> int
    decreases k,
{
    if k == 0 {
        acc
    } else {
        let c = sqrt_r(cur);
        let f2 = 2 * f;
        if f2 >= SCALE {
            pow_frac(c, f2 - SCALE, mul_r(acc, c), (k - 1) as nat)
        } else {
            pow_frac(c, f2, acc, (k - 1) as nat)
        }
    }
}

/// Raw value of `b` raised to the non-negative real exponent `e / SCALE`:
/// the whole part exactly, the fractional part to `FRAC_STEPS` binary digits.
pub open spec fn pow_r(b: int, e: int) -> int
    recommends
        0 <= e,
{
    mul_r(
        pow_int(b, (e / (SCALE as int)) as nat),
        pow_frac(b, e % (SCALE as int), SCALE as int, FRAC_STEPS as nat),
    )
}

/// A rounded product of factors from `[0, 1]` stays in `[0, 1]` and below
/// either factor.
pub proof fn lemma_mul_r_unit(a: int, b: int)
    requires
        0 <= a <= SCALE,
        0 <= b <= SCALE,
    ensures
        0 <= mul_r(a, b),
        mul_r(a, b) <= a,
        mul_r(a, b) <= b,
{
    assert(0 <= a * b && a * b <= a * (SCALE as int) && a * b <= b * (SCALE as int))
        by (nonlinear_arith)
        requires
            0 <= a <= SCALE,
            0 <= b <= SCALE,
    ;
    lemma_div_bounds_for_unit(a * b, a, b);
}

/// Helper for `lemma_mul_r_unit`: bounds of `p / SCALE` for `p == a * b`.
proof fn lemma_div_bounds_for_unit(p: int, a: int, b: int)
    requires
        0 <= p,
        p <= a * (SCALE as int),
        p <= b * (SCALE as int),
    ensures
        0 <= p / (SCALE as int),
        p / (SCALE as int) <= a,
        p / (SCALE as int) <= b,
{
    vstd::arithmetic::div_mod::lemma_div_pos_is_pos(p, SCALE as int);
    vstd::arithmetic::div_mod::lemma_div_is_ordered(p, a * (SCALE as int), SCALE as int);
    vstd::arithmetic::div_mod::lemma_div_by_multiple(a, SCALE as int);
    vstd::arithmetic::div_mod::lemma_div_is_ordered(p, b * (SCALE as int), SCALE as int);
    vstd::arithmetic::div_mod::lemma_div_by_multiple(b, SCALE as int);
}

/// Scaling by a factor from `[0, 1]` moves a value toward zero, so the
/// rounded product stays representable whenever the value is.
pub proof fn lemma_mul_r_toward_zero(v: int, d: int)
    requires
        0 <= d <= SCALE,
    ensures
        v >= 0 ==> 0 <= mul_r(v, d) <= v,
        v < 0 ==> v <= mul_r(v, d) <= 0,
{
    if v >= 0 {
        assert(0 <= v * d && v * d <= v * (SCALE as int)) by (nonlinear_arith)
            requires
                0 <= d <= SCALE,
                0 <= v,
        ;
        vstd::arithmetic::div_mod::lemma_div_pos_is_pos(v * d, SCALE as int);
        vstd::arithmetic::div_mod::lemma_div_is_ordered(v * d, v * (SCALE as int), SCALE as int);
        vstd::arithmetic::div_mod::lemma_div_by_multiple(v, SCALE as int);
    } else {
        assert(v * (SCALE as int) <= v * d && v * d <= 0) by (nonlinear_arith)
            requires
                0 <= d <= SCALE,
                v < 0,
        ;
        vstd::arithmetic::div_mod::lemma_div_is_ordered(v * (SCALE as int), v * d, SCALE as int);
        vstd::arithmetic::div_mod::lemma_div_is_ordered(v * d, 0, SCALE as int);
        assert((v * (SCALE as int)) / (SCALE as int) == v) by {
            vstd::arithmetic::div_mod::lemma_div_multiples_vanish(v, SCALE as int);
            vstd::arithmetic::mul::lemma_mul_is_commutative(v, SCALE as int);
        }
        vstd::arithmetic::div_mod::lemma_div_of0(SCALE as int);
    }
}

/// A whole power of a factor from `[0, 1]` stays in `[0, 1]`.
pub proof fn lemma_pow_int_bounds(b: int, n: nat)
    requires
        0 <= b <= SCALE,
    ensures
        0 <= pow_int(b, n) <= SCALE,
    decreases n,
{
    if n > 0 {
        lemma_pow_int_bounds(b, (n - 1) as nat);
        lemma_mul_r_unit(b, pow_int(b, (n - 1) as nat));
    }
}

/// The square root of a real from `[0, 1]` stays in `[0, 1]`.
pub proof fn lemma_sqrt_r_unit(x: int)
    requires
        0 <= x <= SCALE,
    ensures
        0 <= sqrt_r(x) <= SCALE,
        is_sqrt_floor(x * SCALE, sqrt_r(x)),
{
    lemma_sqrt_floor_exists(x * SCALE);
    let r = sqrt_floor(x * SCALE);
    assert(r <= SCALE) by (nonlinear_arith)
        requires
            is_sqrt_floor(x * SCALE, r),
            x <= SCALE,
    ;
}

/// A fractional power accumulated from factors in `[0, 1]` stays in `[0, 1]`
/// and below its starting accumulator.
pub proof fn lemma_pow_frac_bounds(cur: int, f: int, acc: int, k: nat)
    requires
        0 <= cur <= SCALE,
        0 <= acc <= SCALE,
    ensures
        0 <= pow_frac(cur, f, acc, k) <= acc,
    decreases k,
{
    if k > 0 {
        let c = sqrt_r(cur);
        lemma_sqrt_r_unit(cur);
        let f2 = 2 * f;
        if f2 >= SCALE {
            lemma_mul_r_unit(acc, c);
            lemma_pow_frac_bounds(c, f2 - SCALE, mul_r(acc, c), (k - 1) as nat);
        } else {
            lemma_pow_frac_bounds(c, f2, acc, (k - 1) as nat);
        }
    }
}

/// A zero fractional part contributes no factor.
proof fn lemma_pow_frac_zero(cur: int, acc: int, k: nat)
    requires
        0 <= cur <= SCALE,
    ensures
        pow_frac(cur, 0, acc, k) == acc,
    decreases k,
{
    if k > 0 {
        lemma_sqrt_r_unit(cur);
        lemma_pow_frac_zero(sqrt_r(cur), acc, (k - 1) as nat);
    }
}

/// On a whole exponent the power is the exact repeated rounded product.
pub proof fn lemma_pow_r_integral(b: int, e: int)
    requires
        0 <= b <= SCALE,
        0 <= e,
        e % (SCALE as int) == 0,
    ensures
        pow_r(b, e) == pow_int(b, (e / (SCALE as int)) as nat),
{
    lemma_pow_frac_zero(b, SCALE as int, FRAC_STEPS as nat);
    let p = pow_int(b, (e / (SCALE as int)) as nat);
    lemma_pow_int_bounds(b, (e / (SCALE as int)) as nat);
    assert(mul_r(p, SCALE as int) == p) by {
        vstd::arithmetic::div_mod::lemma_div_by_multiple(p, SCALE as int);
    }
}

/// The first whole power is the base itself.
pub proof fn lemma_pow_int_one(b: int)
    requires
        0 <= b <= SCALE,
    ensures
        pow_int(b, 1) == b,
{
    assert(pow_int(b, 1) == mul_r(b, SCALE as int)) by {
        reveal_with_fuel(pow_int, 2);
    }
    vstd::arithmetic::div_mod::lemma_div_by_multiple(b, SCALE as int);
}

/// One fixed-point square-root step, exact per `sqrt_r`.
fn sqrt_unit(x: i64) -> (r: i64)
    requires
        0 <= x <= SCALE,
    ensures
        r as int == sqrt_r(x as int),
        0 <= r <= SCALE,
{
    proof {
        assert((x as int) * (SCALE as int) <= 1_000_000_000_000) by (nonlinear_arith)
            requires
                0 <= x as int <= 1_000_000,
        ;
    }
    let n: u128 = (x as u128) * (SCALE as u128);
    let s: u128 = isqrt_u128(n);
    proof {
        lemma_sqrt_r_unit(x as int);
        lemma_sqrt_floor_unique(x as int * SCALE, s as int, sqrt_r(x as int));
    }
    s as i64
}

impl Real {
    /// Builds a real number directly from its raw fixed-point representation.
    pub fn from_raw(raw: i64) -> (r: Real)
        ensures
            r@ == raw as int,
    {
        Real { raw }
    }

    /// Builds the real number representing the given integer.
    pub fn from_int(value: i64) -> (r: Real)
        requires
            -9_000_000_000_000 <= value <= 9_000_000_000_000,
        ensures
            r@ == value * SCALE,
    {
        Real { raw: value * SCALE }
    }

    /// The real number zero.
    pub fn zero() -> (r: Real)
        ensures
            r@ == 0,
    {
        Real { raw: 0 }
    }

    /// The real number one.
    pub fn one() -> (r: Real)
        ensures
            r@ == SCALE as int,
    {
        Real { raw: SCALE }
    }

    /// Exact sum of two reals.
    pub fn add(self, other: Real) -> (r: Real)
        requires
            in_real_range(self@ + other@),
        ensures
            r@ == self@ + other@,
    {
        Real { raw: self.raw + other.raw }
    }

    /// Exact difference of two reals.
    pub fn sub(self, other: Real) -> (r: Real)
        requires
            in_real_range(self@ - other@),
        ensures
            r@ == self@ - other@,
    {
        Real { raw: self.raw - other.raw }
    }

    /// Exact negation.
    pub fn neg(self) -> (r: Real)
        requires
            in_real_range(-self@),
        ensures
            r@ == -self@,
    {
        Real { raw: -self.raw }
    }

    /// Product, rounded toward negative infinity.
    pub fn mul(self, other: Real) -> (r: Real)
        requires
            in_real_range(mul_r(self@, other@)),
        ensures
            r@ == mul_r(self@, other@),
    {
        proof {
            assert(-0x4000_0000_0000_0000_0000_0000_0000_0000 <= self@ * other@
                <= 0x4000_0000_0000_0000_0000_0000_0000_0000) by (nonlinear_arith)
                requires
                    i64::MIN <= self@ <= i64::MAX,
                    i64::MIN <= other@ <= i64::MAX,
            ;
        }
        let p: i128 = (self.raw as i128) * (other.raw as i128);
        let q: i128 = floor_div_i128(p, SCALE as i128);
        Real { raw: q as i64 }
    }

    /// Quotient, rounded toward negative infinity. The divisor must not be
    /// zero; `Vec3::div` surfaces that case as an error instead.
    pub fn div(self, other: Real) -> (r: Real)
        requires
            other@ != 0,
            in_real_range(div_r(self@, other@)),
        ensures
            r@ == div_r(self@, other@),
    {
        proof {
            assert(-0x4000_0000_0000_0000_0000_0000_0000_0000 <= self@ * SCALE
                <= 0x4000_0000_0000_0000_0000_0000_0000_0000) by (nonlinear_arith)
                requires
                    i64::MIN <= self@ <= i64::MAX,
            ;
            assert(-0x4000_0000_0000_0000_0000_0000_0000_0000 <= (-self@) * SCALE
                <= 0x4000_0000_0000_0000_0000_0000_0000_0000) by (nonlinear_arith)
                requires
                    i64::MIN <= self@ <= i64::MAX,
            ;
        }
        let n: i128 = (self.raw as i128) * (SCALE as i128);
        if other.raw > 0 {
            let q: i128 = floor_div_i128(n, other.raw as i128);
            Real { raw: q as i64 }
        } else {
            let q: i128 = floor_div_i128(-n, -(other.raw as i128));
            proof {
                assert((-self@) * SCALE == -(self@ * SCALE)) by (nonlinear_arith);
            }
            Real { raw: q as i64 }
        }
    }

    /// `self` raised to the non-negative exponent, for a base in `[0, 1]`:
    /// the whole part of the exponent exactly, the fractional part to
    /// `FRAC_STEPS` binary digits.
    pub fn pow(self, exponent: Real) -> (r: Real)
        requires
            0 <= self@ <= SCALE,
            0 <= exponent@,
        ensures
            r@ == pow_r(self@, exponent@),
            0 <= r@ <= SCALE,
            exponent@ % (SCALE as int) == 0 ==> r@ == pow_int(
                self@,
                (exponent@ / (SCALE as int)) as nat,
            ),
            exponent@ == SCALE ==> r@ == self@,
    {
        proof {
            if exponent@ % (SCALE as int) == 0 {
                lemma_pow_r_integral(self@, exponent@);
            }
            if exponent@ == SCALE {
                lemma_pow_int_one(self@);
            }
        }
        let xu: u64 = exponent.raw as u64;
        let n: u64 = xu / (SCALE as u64);
        let f: u64 = xu % (SCALE as u64);
        proof {
            assert(n as int == exponent@ / (SCALE as int));
            assert(f as int == exponent@ % (SCALE as int));
        }
        let mut acc: Real = Real { raw: SCALE };
        let mut i: u64 = 0;
        while i < n
            invariant
                i <= n,
                0 <= self@ <= SCALE,
                0 <= acc@ <= SCALE,
                acc@ == pow_int(self@, i as nat),
            decreases n - i,
        {
            proof {
                lemma_mul_r_unit(self@, acc@);
            }
            acc = self.mul(acc);
            i = i + 1;
        }
        let mut cur: Real = self;
        let mut fr: u64 = f;
        let mut facc: Real = Real { raw: SCALE };
        let mut k: u64 = 0;
        while k < FRAC_STEPS
            invariant
                k <= FRAC_STEPS,
                0 <= cur@ <= SCALE,
                0 <= facc@ <= SCALE,
                fr < SCALE,
                pow_frac(cur@, fr as int, facc@, (FRAC_STEPS - k) as nat) == pow_frac(
                    self@,
                    f as int,
                    SCALE as int,
                    FRAC_STEPS as nat,
                ),
            decreases FRAC_STEPS - k,
        {
            let c: i64 = sqrt_unit(cur.raw);
            let fr2: u64 = fr * 2;
            if fr2 >= SCALE as u64 {
                proof {
                    lemma_mul_r_unit(facc@, c as int);
                }
                fr = fr2 - SCALE as u64;
                facc = facc.mul(Real { raw: c });
            } else {
                fr = fr2;
            }
            cur = Real { raw: c };
            k = k + 1;
        }
        proof {
            lemma_mul_r_unit(acc@, facc@);
        }
        acc.mul(facc)
    }
}

} // verus!
