use vstd::prelude::*;

verus! {

/// Fixed-point 1.0: coordinates, depths, weights and color components are `i32` values with
/// sixteen fractional bits.
pub const ONE: i32 = 65536;

/// Absolute value.
pub open spec fn abs(v: int) -> int {
    if v < 0 {
        -v
    } else {
        v
    }
}

/// `v` moved into the range of `i32`, as a saturating conversion does.
pub open spec fn saturate(v: int) -> int {
    if v < i32::MIN {
        i32::MIN as int
    } else if v > i32::MAX {
        i32::MAX as int
    } else {
        v
    }
}

/// `n / d` rounded toward zero, for `d > 0`.
pub open spec fn div_trunc(n: int, d: int) -> int {
    if n >= 0 {
        n / d
    } else {
        -((-n) / d)
    }
}

/// `n / d` rounded toward zero, for `d > 0`.
pub fn div_trunc_i64(n: i64, d: i64) -> (r: i64)
    requires
        d > 0,
        n > i64::MIN,
    ensures
        r == div_trunc(n as int, d as int),
{
    if n >= 0 {
        n / d
    } else {
        -((-n) / d)
    }
}

/// `n / d` rounded down, for `d > 0`.
pub fn div_floor_i64(n: i64, d: i64) -> (r: i64)
    requires
        d > 0,
    ensures
        r == n as int / d as int,
{
    if n >= 0 {
        n / d
    } else {
        // -n - 1 does not overflow for any negative n
        let m = -(n + 1);
        let q = m / d;
        proof {
            lemma_floor_of_negative(n as int, d as int);
        }
        -q - 1
    }
}

proof fn lemma_floor_of_negative(n: int, d: int)
    requires
        d > 0,
        n < 0,
    ensures
        n / d == -((-(n + 1)) / d) - 1,
{
    let m = -(n + 1);
    let q = m / d;
    let r = m % d;
    vstd::arithmetic::div_mod::lemma_fundamental_div_mod(m, d);
    assert(m == d * q + r && 0 <= r < d);
    // n = -m - 1 = d * (-q - 1) + (d - 1 - r)
    assert(n == d * (-q - 1) + (d - 1 - r)) by (nonlinear_arith)
        requires
            m == d * q + r,
            n == -m - 1,
    ;
    vstd::arithmetic::div_mod::lemma_fundamental_div_mod_converse_div(n, d, -q - 1, d - 1 - r);
}

/// `v` moved into the range of `i32`.
pub fn saturate_i64(v: i64) -> (r: i32)
    ensures
        r == saturate(v as int),
{
    if v < i32::MIN as i64 {
        i32::MIN
    } else if v > i32::MAX as i64 {
        i32::MAX
    } else {
        v as i32
    }
}

} // verus!
