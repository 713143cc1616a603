//! Fixed-point scalars: every real quantity `x` is stored as the integer
//! `floor(x * SCALE)`. Division rounds toward negative infinity and square
//! roots are floor square roots, so every result is an exact integer function
//! of its inputs.

use vstd::prelude::*;

verus! {

/// Number of fixed-point units in one real unit.
pub const SCALE: i64 = 1000;

/// Largest value whose square `sqrt_floor` accepts, plus one.
pub const SQRT_INPUT_LIMIT: u128 = 0x4000_0000_0000_0000_0000_0000_0000_0000;

/// `r` is the floor square root of `n`.
pub open spec fn is_sqrt_floor(n: int, r: int) -> bool {
    0 <= r && r * r <= n && n < (r + 1) * (r + 1)
}

proof fn lemma_sqrt_floor_unique(n: int, r1: int, r2: int)
    requires
        is_sqrt_floor(n, r1),
        is_sqrt_floor(n, r2),
    ensures
        r1 == r2,
{
    if r1 < r2 {
        assert((r1 + 1) * (r1 + 1) <= r2 * r2) by (nonlinear_arith)
            requires 0 <= r1 + 1 <= r2;
    } else if r2 < r1 {
        assert((r2 + 1) * (r2 + 1) <= r1 * r1) by (nonlinear_arith)
            requires 0 <= r2 + 1 <= r1;
    }
}

/// The floor square root of a non-negative integer (0 for negative input).
pub open spec fn sqrt_floor_spec(n: int) -> int {
    if n >= 0 && exists|r: int| is_sqrt_floor(n, r) {
        choose|r: int| is_sqrt_floor(n, r)
    } else {
        0
    }
}

/// Every non-negative integer has a floor square root.
pub proof fn lemma_sqrt_floor_exists(n: int)
    requires
        n >= 0,
    ensures
        is_sqrt_floor(n, sqrt_floor_spec(n)),
    decreases n,
{
    if n == 0 {
        assert(is_sqrt_floor(0, 0));
    } else {
        lemma_sqrt_floor_exists(n - 1);
        let r = sqrt_floor_spec(n - 1);
        if (r + 1) * (r + 1) <= n {
            assert(n < (r + 2) * (r + 2)) by (nonlinear_arith)
                requires n - 1 < (r + 1) * (r + 1), r >= 0;
            assert(is_sqrt_floor(n, r + 1));
            lemma_sqrt_floor_spec(n, r + 1);
        } else {
            assert(is_sqrt_floor(n, r));
            lemma_sqrt_floor_spec(n, r);
        }
    }
}

/// Any floor square root is the one `sqrt_floor_spec` names.
pub proof fn lemma_sqrt_floor_spec(n: int, r: int)
    requires
        is_sqrt_floor(n, r),
    ensures
        sqrt_floor_spec(n) == r,
{
    let c = choose|r: int| is_sqrt_floor(n, r);
    lemma_sqrt_floor_unique(n, r, c);
}

/// Floor square root by bisection.
pub fn sqrt_floor(n: u128) -> (r: u128)
    requires
        n < SQRT_INPUT_LIMIT,
    ensures
        is_sqrt_floor(n as int, r as int),
        r == sqrt_floor_spec(n as int),
        r < 0x8000_0000_0000_0000,
{
    let mut lo: u128 = 0;
    let mut hi: u128 = 0x8000_0000_0000_0000;
    assert(hi * hi == SQRT_INPUT_LIMIT);
    while hi - lo > 1
        invariant
            lo < hi <= 0x8000_0000_0000_0000,
            lo * lo <= n,
            n < hi * hi,
        decreases hi - lo,
    {
        let mid: u128 = lo + (hi - lo) / 2;
        assert(mid * mid <= 0x8000_0000_0000_0000u128 * 0x8000_0000_0000_0000u128) by (nonlinear_arith)
            requires mid < 0x8000_0000_0000_0000u128;
        if mid * mid <= n {
            lo = mid;
        } else {
            hi = mid;
        }
    }
    assert(hi == lo + 1);
    proof {
        lemma_sqrt_floor_spec(n as int, lo as int);
    }
    lo
}

pub open spec fn abs(a: int) -> int {
    if a < 0 {
        -a
    } else {
        a
    }
}

/// `|a * b| <= ab * bb` when `|a| <= ab` and `|b| <= bb`.
pub proof fn lemma_mul_abs_bound(a: int, b: int, ab: int, bb: int)
    requires
        abs(a) <= ab,
        abs(b) <= bb,
    ensures
        abs(a * b) <= ab * bb,
        -(ab * bb) <= a * b <= ab * bb,
{
    vstd::arithmetic::mul::lemma_mul_upper_bound(abs(a), ab, abs(b), bb);
    assert(abs(a * b) == abs(a) * abs(b)) by (nonlinear_arith);
}

/// A number whose square is at most `n` is at most the floor square root of `n`.
pub proof fn lemma_abs_le_sqrt_floor(o: int, n: int, r: int)
    requires
        is_sqrt_floor(n, r),
        o * o <= n,
    ensures
        abs(o) <= r,
{
    if abs(o) > r {
        assert((r + 1) * (r + 1) <= abs(o) * abs(o)) by (nonlinear_arith)
            requires abs(o) >= r + 1, r >= 0;
        assert(abs(o) * abs(o) == o * o) by (nonlinear_arith);
    }
}

/// `|a / b| <= m` when `|a| <= m * b`.
pub proof fn lemma_quotient_bound(a: int, b: int, m: int)
    requires
        b > 0,
        m >= 0,
        abs(a) <= m * b,
    ensures
        -m <= a / b <= m,
{
    vstd::arithmetic::div_mod::lemma_div_is_ordered(a, m * b, b);
    vstd::arithmetic::div_mod::lemma_div_is_ordered(-(m * b), a, b);
    vstd::arithmetic::div_mod::lemma_div_multiples_vanish(m, b);
    vstd::arithmetic::div_mod::lemma_div_multiples_vanish(-m, b);
    assert(m * b == b * m && -(m * b) == b * (-m)) by (nonlinear_arith);
}

/// Magnitude of a division rounded up: `ceil(u / b)` for `u >= 0`, `b > 0`.
pub open spec fn ceil_div(u: int, b: int) -> int {
    if u % b == 0 {
        u / b
    } else {
        u / b + 1
    }
}

/// Division rounding away from zero, by a positive divisor. `-a` divides to
/// exactly the negation of what `a` does, and a nonzero `a` never divides to
/// zero, so the sign of the quotient is always the sign of `a`.
pub open spec fn div_away(a: int, b: int) -> int {
    if a >= 0 {
        ceil_div(a, b)
    } else {
        -ceil_div(-a, b)
    }
}

/// Sign, bound and oddness of `div_away`.
pub proof fn lemma_div_away(a: int, b: int, m: int)
    requires
        b > 0,
    ensures
        a > 0 ==> div_away(a, b) >= 1,
        a < 0 ==> div_away(a, b) <= -1,
        a == 0 ==> div_away(a, b) == 0,
        div_away(-a, b) == -div_away(a, b),
        m >= 0 && abs(a) <= m * b ==> -m <= div_away(a, b) <= m,
{
    let u = abs(a);
    vstd::arithmetic::div_mod::lemma_fundamental_div_mod(u, b);
    vstd::arithmetic::div_mod::lemma_div_pos_is_pos(u, b);
    vstd::arithmetic::div_mod::lemma_div_basics(b);
    let q = u / b;
    let r = u % b;
    if u > 0 && q == 0 {
        assert(r == u) by (nonlinear_arith)
            requires u == b * q + r, q == 0;
    }
    if m >= 0 && u <= m * b {
        lemma_quotient_bound(u, b, m);
        if r != 0 {
            assert(q < m) by (nonlinear_arith)
                requires u == b * q + r, r > 0, u <= m * b, b > 0;
        }
    }
}

/// Scaling numerator and divisor alike does not change `div_away`.
pub proof fn lemma_div_away_scale(k: int, b: int, c: int)
    requires
        b > 0,
        c > 0,
    ensures
        div_away(k * c, b * c) == div_away(k, b),
{
    let u = abs(k);
    assert(abs(k * c) == u * c && (k >= 0 <==> k * c >= 0) && -(k * c) == (-k) * c) by (nonlinear_arith)
        requires c > 0, u == abs(k);
    vstd::arithmetic::div_mod::lemma_truncate_middle(u, c, b);
    vstd::arithmetic::div_mod::lemma_fundamental_div_mod(u, b);
    let q = u / b;
    let r = u % b;
    assert(u * c == (b * c) * q + c * r && c * u == u * c && c * b == b * c && 0 <= c * r < b * c) by (nonlinear_arith)
        requires u == b * q + r, 0 <= r < b, c > 0;
    vstd::arithmetic::div_mod::lemma_fundamental_div_mod_converse(u * c, b * c, q, c * r);
    assert(c * r == 0 <==> r == 0) by (nonlinear_arith)
        requires c > 0;
}

/// Division rounding away from zero, by a positive divisor.
pub fn div_away_exec(a: i128, b: i128) -> (r: i128)
    requires
        b > 0,
        a > i128::MIN,
    ensures
        r == div_away(a as int, b as int),
{
    let u: i128 = if a < 0 { -a } else { a };
    let q = div_floor(u, b);
    proof {
        vstd::arithmetic::div_mod::lemma_fundamental_div_mod(u as int, b as int);
        vstd::arithmetic::div_mod::lemma_div_pos_is_pos(u as int, b as int);
        assert(u <= u * b) by (nonlinear_arith)
            requires u >= 0, b >= 1;
        lemma_quotient_bound(u as int, b as int, u as int);
        assert(b * q <= u) by (nonlinear_arith)
            requires u == b * q + (u as int) % (b as int), (u as int) % (b as int) >= 0;
        assert(0 <= b * q) by (nonlinear_arith)
            requires b > 0, q >= 0;
        assert(u - b * q != 0 ==> q < u) by (nonlinear_arith)
            requires b * q <= u, b >= 1, q >= 0, q <= u;
    }
    let c = if u - b * q == 0 { q } else { q + 1 };
    if a < 0 {
        -c
    } else {
        c
    }
}

/// Division rounding toward negative infinity, by a positive divisor.
pub fn div_floor(a: i128, b: i128) -> (r: i128)
    requires
        b > 0,
    ensures
        r == a / b,
{
    proof {
        let q = a / b;
        let m = a % b;
        assert(a == b * q + m && 0 <= m < b) by {
            vstd::arithmetic::div_mod::lemma_fundamental_div_mod(a as int, b as int);
        }
        if a >= 0 {
            assert(0 <= q <= a) by (nonlinear_arith)
                requires a == b * q + m, 0 <= m < b, b >= 1, a >= 0;
        } else {
            assert(a <= q < 0) by (nonlinear_arith)
                requires a == b * q + m, 0 <= m < b, b >= 1, a < 0;
        }
    }
    match a.checked_div_euclid(b) {
        Some(q) => q,
        None => 0,
    }
}

} // verus!
