//! Fixed-point numbers with six decimal places and saturating arithmetic.

use vstd::prelude::*;

verus! {

/// How many raw units make up the number one.
pub const SCALE: i64 = 1_000_000;

/// A signed fixed-point number: `raw` counts millionths.
#[derive(Clone, Copy, Debug, PartialEq, Eq, Structural)]
pub struct Fixed {
    pub raw: i64,
}

/// Division of integers that rounds toward zero; zero where `b` is zero.
pub open spec fn quotient(a: int, b: int) -> int {
    let qa = if a >= 0 { a } else { -a };
    let qb = if b >= 0 { b } else { -b };
    if b == 0 {
        0
    } else if (a >= 0) == (b > 0) {
        qa / qb
    } else {
        -(qa / qb)
    }
}

/// The quotient has the sign of the dividend, and its product with a
/// positive divisor lies between zero and the dividend.
pub proof fn lemma_quotient_bounds(a: int, b: int)
    requires
        b > 0,
    ensures
        a >= 0 ==> 0 <= quotient(a, b) * b <= a,
        a <= 0 ==> a <= quotient(a, b) * b <= 0,
        a >= 0 ==> quotient(a, b) >= 0,
        a <= 0 ==> quotient(a, b) <= 0,
{
    let qa = if a >= 0 { a } else { -a };
    vstd::arithmetic::div_mod::lemma_fundamental_div_mod(qa, b);
    vstd::arithmetic::div_mod::lemma_mod_bound(qa, b);
    vstd::arithmetic::div_mod::lemma_div_pos_is_pos(qa, b);
    let q = qa / b;
    assert(b * q == q * b) by (nonlinear_arith);
    assert((-q) * b == -(q * b)) by (nonlinear_arith);
}

/// The largest natural number whose square does not exceed `n`.
pub open spec fn root_floor(n: int) -> int
    decreases n,
{
    if n <= 0 {
        0
    } else {
        let r = 2 * root_floor(n / 4);
        if (r + 1) * (r + 1) <= n {
            r + 1
        } else {
            r
        }
    }
}

/// `root_floor(n)` is the one natural number `r` with `r * r <= n < (r + 1) * (r + 1)`.
pub proof fn lemma_root_floor(n: int)
    requires
        n >= 0,
    ensures
        root_floor(n) >= 0,
        root_floor(n) * root_floor(n) <= n,
        n < (root_floor(n) + 1) * (root_floor(n) + 1),
    decreases n,
{
    if n > 0 {
        lemma_root_floor(n / 4);
        let h = root_floor(n / 4);
        let r = 2 * h;
        assert(r * r == 4 * (h * h)) by (nonlinear_arith)
            requires
                r == 2 * h,
        ;
        assert((r + 2) * (r + 2) == 4 * ((h + 1) * (h + 1))) by (nonlinear_arith)
            requires
                r == 2 * h,
        ;
        assert((r + 1) * (r + 1) == r * r + 2 * r + 1) by (nonlinear_arith);
        assert((r + 2) * (r + 2) == r * r + 4 * r + 4) by (nonlinear_arith);
    }
}

/// Any `r` between whose square and the next square `n` lies is `root_floor(n)`.
pub proof fn lemma_root_floor_unique(n: int, r: int)
    requires
        r >= 0,
        r * r <= n < (r + 1) * (r + 1),
    ensures
        r == root_floor(n),
{
    lemma_root_floor(n);
    let s = root_floor(n);
    if r < s {
        assert((r + 1) * (r + 1) <= s * s) by (nonlinear_arith)
            requires
                0 <= r,
                r + 1 <= s,
        ;
    } else if s < r {
        assert((s + 1) * (s + 1) <= r * r) by (nonlinear_arith)
            requires
                0 <= s,
                s + 1 <= r,
        ;
    }
}

/// A product is not negative where its factors have the same sign, and
/// not positive where they have different signs.
pub proof fn lemma_times_sign(a: Fixed, b: Fixed)
    ensures
        (a.raw >= 0 && b.raw >= 0) || (a.raw <= 0 && b.raw <= 0) ==> a.spec_times(b).raw >= 0,
        (a.raw >= 0 && b.raw <= 0) || (a.raw <= 0 && b.raw >= 0) ==> a.spec_times(b).raw <= 0,
{
    let p = a.raw * b.raw;
    assert((a.raw >= 0 && b.raw >= 0) || (a.raw <= 0 && b.raw <= 0) ==> p >= 0)
        by (nonlinear_arith)
        requires
            p == a.raw * b.raw,
    ;
    assert((a.raw >= 0 && b.raw <= 0) || (a.raw <= 0 && b.raw >= 0) ==> p <= 0)
        by (nonlinear_arith)
        requires
            p == a.raw * b.raw,
    ;
    lemma_quotient_bounds(p, SCALE as int);
}

/// A ratio with a positive divisor has the sign of its dividend.
pub proof fn lemma_over_sign(a: Fixed, b: Fixed)
    requires
        b.raw > 0,
    ensures
        a.raw >= 0 ==> a.spec_over(b).raw >= 0,
        a.raw <= 0 ==> a.spec_over(b).raw <= 0,
{
    lemma_quotient_bounds(a.raw * SCALE, b.raw as int);
}

/// The size of a product, in raw units and times the scale, is at most
/// the product of the sizes of its factors.
pub proof fn lemma_times_size(a: Fixed, b: Fixed)
    requires
        b.raw >= 0,
    ensures
        ({
            let size_a = if a.raw >= 0 { a.raw as int } else { -a.raw };
            let p = a.spec_times(b);
            let size_p = if p.raw >= 0 { p.raw as int } else { -p.raw };
            size_p * SCALE <= size_a * b.raw
        }),
{
    let size_a = if a.raw >= 0 { a.raw as int } else { -a.raw };
    let q = quotient(a.raw * b.raw, SCALE as int);
    lemma_quotient_bounds(a.raw * b.raw, SCALE as int);
    assert(a.raw >= 0 ==> a.raw * b.raw >= 0 && a.raw * b.raw == size_a * b.raw)
        by (nonlinear_arith)
        requires
            b.raw >= 0,
            size_a == a.raw || size_a == -a.raw,
            size_a >= 0,
    ;
    assert(a.raw <= 0 ==> a.raw * b.raw <= 0 && a.raw * b.raw == -(size_a * b.raw))
        by (nonlinear_arith)
        requires
            b.raw >= 0,
            size_a == a.raw || size_a == -a.raw,
            size_a >= 0,
    ;
}

/// The size of a ratio with a positive divisor, times the divisor, is at
/// most the size of the dividend times the scale.
pub proof fn lemma_over_size(a: Fixed, b: Fixed)
    requires
        b.raw > 0,
    ensures
        ({
            let size_a = if a.raw >= 0 { a.raw as int } else { -a.raw };
            let q = a.spec_over(b);
            let size_q = if q.raw >= 0 { q.raw as int } else { -q.raw };
            size_q * b.raw <= size_a * SCALE
        }),
{
    lemma_quotient_bounds(a.raw * SCALE, b.raw as int);
    let q = quotient(a.raw * SCALE, b.raw as int);
    let s = Fixed::saturate(q);
    let size_q = if q >= 0 { q } else { -q };
    let size_s = if s.raw >= 0 { s.raw as int } else { -s.raw };
    assert(size_s <= size_q);
    assert(size_s * b.raw <= size_q * b.raw) by (nonlinear_arith)
        requires
            0 <= size_s <= size_q,
            b.raw > 0,
    ;
    assert((-q) * b.raw == -(q * b.raw)) by (nonlinear_arith);
}

impl Fixed {
    /// The number nearest to `v` that a `Fixed` can hold, `v` counted in raw units.
    pub open spec fn saturate(v: int) -> Fixed {
        Fixed {
            raw: if v < i64::MIN {
                i64::MIN
            } else if v > i64::MAX {
                i64::MAX
            } else {
                v as i64
            },
        }
    }

    pub open spec fn spec_zero() -> Fixed {
        Fixed { raw: 0 }
    }

    pub open spec fn spec_one() -> Fixed {
        Fixed { raw: SCALE }
    }

    pub open spec fn spec_from_int(n: i64) -> Fixed {
        Self::saturate(n * SCALE)
    }

    pub open spec fn spec_plus(self, rhs: Fixed) -> Fixed {
        Self::saturate(self.raw + rhs.raw)
    }

    pub open spec fn spec_minus(self, rhs: Fixed) -> Fixed {
        Self::saturate(self.raw - rhs.raw)
    }

    /// The product, rounded toward zero to the sixth decimal place.
    pub open spec fn spec_times(self, rhs: Fixed) -> Fixed {
        Self::saturate(quotient(self.raw * rhs.raw, SCALE as int))
    }

    /// The ratio, rounded toward zero to the sixth decimal place.
    pub open spec fn spec_over(self, rhs: Fixed) -> Fixed {
        Self::saturate(quotient(self.raw * SCALE, rhs.raw as int))
    }

    pub open spec fn spec_magnitude(self) -> Fixed {
        Self::saturate(if self.raw >= 0 { self.raw as int } else { -self.raw })
    }

    /// The number nearest to `self` that is at least `low` and at most
    /// `high`.
    pub open spec fn spec_clamped(self, low: Fixed, high: Fixed) -> Fixed {
        if self.raw < low.raw {
            low
        } else if self.raw > high.raw {
            high
        } else {
            self
        }
    }

    /// The length of the vector `(x, y)`, rounded down to the sixth decimal place.
    pub open spec fn spec_hypot(x: Fixed, y: Fixed) -> Fixed {
        Self::saturate(root_floor(x.raw * x.raw + y.raw * y.raw))
    }

    pub fn from_raw(raw: i64) -> (r: Fixed)
        ensures
            r.raw == raw,
    {
        Fixed { raw }
    }

    pub fn zero() -> (r: Fixed)
        ensures
            r == Self::spec_zero(),
    {
        Fixed { raw: 0 }
    }

    pub fn one() -> (r: Fixed)
        ensures
            r == Self::spec_one(),
    {
        Fixed { raw: SCALE }
    }

    /// The whole number `n`.
    pub fn from_int(n: i64) -> (r: Fixed)
        ensures
            r == Self::spec_from_int(n),
    {
        narrow(wide_product(n, SCALE))
    }

    pub fn plus(self, rhs: Fixed) -> (r: Fixed)
        ensures
            r == self.spec_plus(rhs),
    {
        narrow(self.raw as i128 + rhs.raw as i128)
    }

    pub fn minus(self, rhs: Fixed) -> (r: Fixed)
        ensures
            r == self.spec_minus(rhs),
    {
        narrow(self.raw as i128 - rhs.raw as i128)
    }

    pub fn times(self, rhs: Fixed) -> (r: Fixed)
        ensures
            r == self.spec_times(rhs),
    {
        let wide: i128 = wide_product(self.raw, rhs.raw);
        narrow(wide_quotient(wide, SCALE as i128))
    }

    /// Division; the divisor must not be zero.
    pub fn over(self, rhs: Fixed) -> (r: Fixed)
        requires
            rhs.raw != 0,
        ensures
            r == self.spec_over(rhs),
    {
        let wide: i128 = wide_product(self.raw, SCALE);
        narrow(wide_quotient(wide, rhs.raw as i128))
    }

    pub fn magnitude(self) -> (r: Fixed)
        ensures
            r == self.spec_magnitude(),
    {
        if self.raw >= 0 {
            self
        } else {
            narrow(0 - self.raw as i128)
        }
    }

    /// The number nearest to `self` between `low` and `high`; `low` must
    /// not lie above `high`.
    pub fn clamped(self, low: Fixed, high: Fixed) -> (r: Fixed)
        requires
            low.raw <= high.raw,
        ensures
            r == self.spec_clamped(low, high),
            low.raw <= r.raw <= high.raw,
    {
        if self.raw < low.raw {
            low
        } else if self.raw > high.raw {
            high
        } else {
            self
        }
    }

    /// The length of the vector `(x, y)`.
    pub fn hypot(x: Fixed, y: Fixed) -> (r: Fixed)
        ensures
            r == Self::spec_hypot(x, y),
    {
        let sum: u128 = wide_square(x.raw) + wide_square(y.raw);
        let root: u128 = wide_root(sum);
        if root > i64::MAX as u128 {
            Fixed { raw: i64::MAX }
        } else {
            Fixed { raw: root as i64 }
        }
    }
}

fn narrow(v: i128) -> (r: Fixed)
    ensures
        r == Fixed::saturate(v as int),
{
    if v < i64::MIN as i128 {
        Fixed { raw: i64::MIN }
    } else if v > i64::MAX as i128 {
        Fixed { raw: i64::MAX }
    } else {
        Fixed { raw: v as i64 }
    }
}

fn wide_product(a: i64, b: i64) -> (p: i128)
    ensures
        p == a * b,
        -0x4000_0000_0000_0000_0000_0000_0000_0000 <= p <= 0x4000_0000_0000_0000_0000_0000_0000_0000,
{
    proof {
        assert(-0x4000_0000_0000_0000_0000_0000_0000_0000 <= a * b
            <= 0x4000_0000_0000_0000_0000_0000_0000_0000) by (nonlinear_arith)
            requires
                -0x8000_0000_0000_0000 <= a <= 0x7fff_ffff_ffff_ffff,
                -0x8000_0000_0000_0000 <= b <= 0x7fff_ffff_ffff_ffff,
        ;
    }
    a as i128 * b as i128
}

fn wide_square(a: i64) -> (p: u128)
    ensures
        p == a * a,
        p <= 0x4000_0000_0000_0000_0000_0000_0000_0000,
{
    let p: i128 = wide_product(a, a);
    proof {
        assert(a * a >= 0) by (nonlinear_arith);
    }
    p as u128
}

fn wide_quotient(a: i128, b: i128) -> (q: i128)
    requires
        b != 0,
        -0x4000_0000_0000_0000_0000_0000_0000_0000 <= a <= 0x4000_0000_0000_0000_0000_0000_0000_0000,
    ensures
        q == quotient(a as int, b as int),
{
    proof {
        let qa = if a >= 0 { a as int } else { -a };
        let qb = if b >= 0 { b as int } else { -b };
        assert(0 <= qa / qb <= qa) by (nonlinear_arith)
            requires
                qa >= 0,
                qb >= 1,
        ;
    }
    match a.checked_div(b) {
        Some(q) => q,
        None => 0,
    }
}

fn wide_root(n: u128) -> (r: u128)
    requires
        n <= 0x8000_0000_0000_0000_0000_0000_0000_0000,
    ensures
        r == root_floor(n as int),
{
    let mut lo: u128 = 0;
    let mut hi: u128 = 0x1_0000_0000_0000_0000;
    proof {
        assert(0x1_0000_0000_0000_0000int * 0x1_0000_0000_0000_0000int
            == 0x1_0000_0000_0000_0000_0000_0000_0000_0000int) by (nonlinear_arith);
    }
    while hi - lo > 1
        invariant
            lo < hi <= 0x1_0000_0000_0000_0000,
            lo * lo <= n < hi * hi,
        decreases hi - lo,
    {
        let mid: u128 = lo + (hi - lo) / 2;
        proof {
            assert(mid * mid <= 0xffff_ffff_ffff_ffffint * 0xffff_ffff_ffff_ffffint)
                by (nonlinear_arith)
                requires
                    0 <= mid <= 0xffff_ffff_ffff_ffff,
            ;
            assert(0xffff_ffff_ffff_ffffint * 0xffff_ffff_ffff_ffffint
                < 0x1_0000_0000_0000_0000_0000_0000_0000_0000int) by (nonlinear_arith);
        }
        if mid * mid <= n {
            lo = mid;
        } else {
            hi = mid;
        }
    }
    proof {
        lemma_root_floor_unique(n as int, lo as int);
    }
    lo
}

} // verus!
