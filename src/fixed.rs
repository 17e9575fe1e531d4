use vstd::prelude::*;

verus! {

/// Steps in one unit of the fixed-point values: map coordinates, camera
/// height, horizon offset and render distance are all counted in 1/256ths.
pub const FIXED_ONE: i64 = 256;

/// `n / d` rounded to the nearest integer, halves away from zero
/// (the rounding of `f32::round`).
pub open spec fn round_div(n: int, d: int) -> int
    recommends
        d > 0,
{
    if n >= 0 {
        (2 * n + d) / (2 * d)
    } else {
        -((-2 * n + d) / (2 * d))
    }
}

/// Executable `round_div` on values small enough that no step overflows.
pub fn round_div_exec(n: i64, d: i64) -> (r: i64)
    requires
        d > 0,
        d < 0x1000_0000_0000_0000,
        -0x1000_0000_0000_0000 < n < 0x1000_0000_0000_0000,
    ensures
        r == round_div(n as int, d as int),
{
    if n >= 0 {
        (2 * n + d) / (2 * d)
    } else {
        let q = (-2 * n + d) / (2 * d);
        proof {
            assert(q <= -2 * n + d) by (nonlinear_arith)
                requires
                    q == (-2 * n + d) / (2 * d),
                    d > 0,
                    -2 * n + d > 0,
            ;
        }
        -q
    }
}

/// Floor of `v / d` for a positive divisor (Verus's `/` on `int`).
pub fn floor_div(v: i64, d: i64) -> (r: i64)
    requires
        d > 0,
    ensures
        r == v as int / d as int,
{
    proof {
        if v >= 0 {
            assert(0 <= (v as int / d as int) <= v) by (nonlinear_arith)
                requires
                    v >= 0,
                    d > 0,
            ;
        } else {
            assert(v <= (v as int / d as int) < 0) by (nonlinear_arith)
                requires
                    v < 0,
                    d > 0,
            ;
        }
    }
    v.checked_div_euclid(d).unwrap()
}

/// `v` reduced into `[0, m)` (Verus's `%` on `int`).
pub fn wrap_index(v: i64, m: usize) -> (r: usize)
    requires
        0 < m <= i64::MAX,
    ensures
        r == v as int % m as int,
        r < m,
{
    let q = v.checked_rem_euclid(m as i64).unwrap();
    q as usize
}

} // verus!
