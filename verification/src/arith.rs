//! Facts of integer arithmetic that the exact scalar, `i64`, rests on: the
//! integer square root, division that truncates toward zero, and the size of
//! products.

use vstd::prelude::*;

verus! {

/// Whether `r` is the integer square root of `n`: the largest natural number
/// whose square does not exceed `n`.
pub open spec fn is_isqrt(n: int, r: int) -> bool {
    0 <= r && r * r <= n < (r + 1) * (r + 1)
}

/// The integer square root of `n`, for `n >= 0`. For a given `n` and `r`,
/// `lemma_isqrt_unique` settles whether `isqrt(n)` is `r`.
pub open spec fn isqrt(n: int) -> int {
    choose|r: int| is_isqrt(n, r)
}

/// At most one number is the integer square root of `n`.
pub proof fn lemma_isqrt_unique(n: int, r: int)
    requires
        is_isqrt(n, r),
    ensures
        isqrt(n) == r,
{
    let s = isqrt(n);
    assert(is_isqrt(n, s));
    if s < r {
        assert((s + 1) * (s + 1) <= r * r) by (nonlinear_arith)
            requires
                0 <= s + 1 <= r,
        ;
    }
    if r < s {
        assert((r + 1) * (r + 1) <= s * s) by (nonlinear_arith)
            requires
                0 <= r + 1 <= s,
        ;
    }
}

/// Every natural number has an integer square root, which is not above the
/// number itself.
pub proof fn lemma_isqrt_exists(n: int)
    requires
        0 <= n,
    ensures
        is_isqrt(n, isqrt(n)),
        0 <= isqrt(n) <= n,
    decreases n,
{
    if n == 0 {
        assert(is_isqrt(0, 0));
    } else {
        lemma_isqrt_exists(n - 1);
        let r = isqrt(n - 1);
        if n < (r + 1) * (r + 1) {
            assert(is_isqrt(n, r));
        } else {
            assert((r + 1) * (r + 1) < (r + 2) * (r + 2)) by (nonlinear_arith)
                requires
                    0 <= r,
            ;
            assert(is_isqrt(n, r + 1));
        }
    }
    let s = isqrt(n);
    assert(s <= s * s) by (nonlinear_arith)
        requires
            0 <= s,
    ;
}

/// The integer square root of a perfect square is its root.
pub proof fn lemma_isqrt_of_square(r: int)
    requires
        0 <= r,
    ensures
        isqrt(r * r) == r,
{
    assert(r * r < (r + 1) * (r + 1)) by (nonlinear_arith)
        requires
            0 <= r,
    ;
    lemma_isqrt_unique(r * r, r);
}

/// Division that truncates toward zero, as `i64` divides, over the integers.
pub open spec fn trunc_div(x: int, d: int) -> int {
    if x >= 0 {
        x / d
    } else {
        -((-x) / d)
    }
}

/// Truncating division by a positive number keeps the order of what it
/// divides.
pub proof fn lemma_trunc_div_ordered(x: int, y: int, d: int)
    requires
        x <= y,
        0 < d,
    ensures
        trunc_div(x, d) <= trunc_div(y, d),
{
    if x >= 0 {
        vstd::arithmetic::div_mod::lemma_div_is_ordered(x, y, d);
    } else if y >= 0 {
        vstd::arithmetic::div_mod::lemma_div_pos_is_pos(-x, d);
        vstd::arithmetic::div_mod::lemma_div_pos_is_pos(y, d);
    } else {
        vstd::arithmetic::div_mod::lemma_div_is_ordered(-y, -x, d);
    }
}

/// Truncating division by a positive number does not move away from zero, and
/// division by one changes nothing.
pub proof fn lemma_trunc_div_shrinks(x: int, d: int)
    requires
        0 < d,
    ensures
        x >= 0 ==> 0 <= trunc_div(x, d) <= x,
        x <= 0 ==> x <= trunc_div(x, d) <= 0,
        d == 1 ==> trunc_div(x, d) == x,
{
    if x >= 0 {
        vstd::arithmetic::div_mod::lemma_div_pos_is_pos(x, d);
        vstd::arithmetic::div_mod::lemma_div_basics_5(x, d);
    } else {
        vstd::arithmetic::div_mod::lemma_div_pos_is_pos(-x, d);
        vstd::arithmetic::div_mod::lemma_div_basics_5(-x, d);
    }
    if d == 1 {
        vstd::arithmetic::div_mod::lemma_div_basics_2(x);
        vstd::arithmetic::div_mod::lemma_div_basics_2(-x);
    }
}

/// A multiple of a positive `d`, divided by `d`, is the factor it was made
/// with.
pub proof fn lemma_trunc_div_of_multiple(x: int, d: int)
    requires
        0 < d,
    ensures
        trunc_div(x * d, d) == x,
{
    if x >= 0 {
        assert(x * d >= 0) by (nonlinear_arith)
            requires
                x >= 0,
                d > 0,
        ;
        assert(x * d == d * x) by (nonlinear_arith);
        vstd::arithmetic::div_mod::lemma_div_multiples_vanish(x, d);
    } else {
        assert(x * d < 0) by (nonlinear_arith)
            requires
                x < 0,
                d > 0,
        ;
        assert(-(x * d) == d * (-x)) by (nonlinear_arith);
        vstd::arithmetic::div_mod::lemma_div_multiples_vanish(-x, d);
    }
}

/// The product of two numbers of bounded size is of bounded size.
pub proof fn lemma_mul_bounded(x: int, y: int, a: int, b: int)
    requires
        -a <= x <= a,
        -b <= y <= b,
    ensures
        -(a * b) <= x * y <= a * b,
{
    assert(-(a * b) <= x * y <= a * b) by (nonlinear_arith)
        requires
            -a <= x <= a,
            -b <= y <= b,
    ;
}

/// A square is never negative; it is zero only for zero, and one only for one
/// and minus one.
pub proof fn lemma_small_square(x: int)
    ensures
        x * x >= 0,
        x * x == 0 <==> x == 0,
        x * x == 1 <==> x == 1 || x == -1,
{
    assert(x * x >= 0) by (nonlinear_arith);
    assert(x == 0 ==> x * x == 0) by (nonlinear_arith);
    assert(x == 1 || x == -1 ==> x * x == 1) by (nonlinear_arith);
    assert(x >= 2 || x <= -2 ==> x * x >= 4) by (nonlinear_arith);
}

/// The sign of `x`: -1, 0 or 1.
pub open spec fn signum(x: int) -> int {
    if x > 0 {
        1
    } else if x < 0 {
        -1
    } else {
        0
    }
}

/// What `e * x` is for `e` one of -1, 0 and 1.
pub proof fn lemma_mul_sign(e: int, x: int)
    requires
        -1 <= e <= 1,
    ensures
        e * x == if e == 1 {
            x
        } else if e == 0 {
            0
        } else {
            -x
        },
{
    assert(e == 1 ==> e * x == x) by (nonlinear_arith);
    assert(e == 0 ==> e * x == 0) by (nonlinear_arith);
    assert(e == -1 ==> e * x == -x) by (nonlinear_arith);
}

} // verus!
