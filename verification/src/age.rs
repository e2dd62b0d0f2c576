//! The age sampler: turns a uniform draw into an age in `[0, 100]` by
//! inverse piecewise-linear interpolation of an empirical age CDF.
//!
//! The CDF is an eleven-point control table `(x_i, y_i)` with `x_0 = 0`,
//! `x_10 = CDF_SCALE` (standing for probability 1) and `y_0 = 0`,
//! `y_10 = 100`. A draw `u` in `[x_i, x_{i+1})` for `i < 9` is mapped to
//! `y_i + (y_{i+1} - y_i) * (u - x_i) / (x_{i+1} - x_i)`, truncated; a draw
//! at or above `x_9` is mapped to 100.

use vstd::arithmetic::div_mod::lemma_div_is_ordered;
use vstd::arithmetic::div_mod::lemma_fundamental_div_mod_converse;
use vstd::arithmetic::mul::lemma_mul_inequality;
use vstd::prelude::*;

verus! {

/// Denominator of the fixed-point CDF coordinates: a draw `u` in
/// `[0, CDF_SCALE)` stands for the uniform real `u / CDF_SCALE` in `[0, 1)`.
pub const CDF_SCALE: u64 = 100_000_000;

/// `x` coordinates of the age-CDF control points, scaled by `CDF_SCALE`.
pub open spec fn age_cdf_x(i: int) -> int {
    if i <= 0 {
        0
    } else if i == 1 {
        944_196
    } else if i == 2 {
        5_640_964
    } else if i == 3 {
        13_170_318
    } else if i == 4 {
        15_966_590
    } else if i == 5 {
        19_101_804
    } else if i == 6 {
        23_604_890
    } else if i == 7 {
        42_779_325
    } else if i == 8 {
        71_710_447
    } else if i == 9 {
        78_356_131
    } else {
        100_000_000
    }
}

/// `y` coordinates (ages) of the age-CDF control points.
pub open spec fn age_cdf_y(i: int) -> int {
    if i <= 0 {
        0
    } else if i == 1 {
        1
    } else if i == 2 {
        5
    } else if i == 3 {
        14
    } else if i == 4 {
        17
    } else if i == 5 {
        20
    } else if i == 6 {
        24
    } else if i == 7 {
        39
    } else if i == 8 {
        59
    } else if i == 9 {
        64
    } else {
        100
    }
}

/// Shape of the control table: `x` strictly increases, `y` strictly
/// increases, every `y` step is smaller than the matching `x` step, and the
/// ages stay within `[0, 100]`.
pub proof fn lemma_age_cdf_table()
    ensures
        forall|i: int|
            0 <= i <= 9 ==> #[trigger] age_cdf_x(i) < age_cdf_x(i + 1),
        forall|i: int|
            0 <= i <= 9 ==> #[trigger] age_cdf_y(i) < age_cdf_y(i + 1),
        forall|i: int|
            0 <= i <= 9 ==> age_cdf_y(i + 1) - age_cdf_y(i) < age_cdf_x(i + 1) - #[trigger] age_cdf_x(i),
        forall|i: int| 0 <= i <= 10 ==> 0 <= #[trigger] age_cdf_y(i) <= 100,
        age_cdf_x(0) == 0,
        age_cdf_x(10) == CDF_SCALE,
{
}

/// Linear interpolation on segment `i` of the control table, truncated to an
/// integer (integer division; both operands are non-negative on a segment).
pub open spec fn age_interp(i: int, u: int) -> int {
    age_cdf_y(i) + (age_cdf_y(i + 1) - age_cdf_y(i)) * (u - age_cdf_x(i)) / (age_cdf_x(i + 1)
        - age_cdf_x(i))
}

/// The age that a draw `u` maps to, scanning segments from `i` upward; a
/// draw in no segment below 9 maps to `y_10 = 100`.
pub open spec fn age_of_from(u: int, i: int) -> int
    decreases 9 - i,
{
    if i >= 9 {
        100
    } else if age_cdf_x(i) <= u < age_cdf_x(i + 1) {
        age_interp(i, u)
    } else {
        age_of_from(u, i + 1)
    }
}

/// The age that a uniform draw `u` in `[0, CDF_SCALE)` maps to.
pub open spec fn age_of(u: int) -> int {
    age_of_from(u, 0)
}

/// On its segment, the interpolated age lies in `[y_i, y_{i+1})`.
proof fn lemma_age_interp_bounds(i: int, u: int)
    requires
        0 <= i < 9,
        age_cdf_x(i) <= u < age_cdf_x(i + 1),
    ensures
        age_cdf_y(i) <= age_interp(i, u) < age_cdf_y(i + 1),
{
    lemma_age_cdf_table();
    let yd = age_cdf_y(i + 1) - age_cdf_y(i);
    let xd = age_cdf_x(i + 1) - age_cdf_x(i);
    let off = u - age_cdf_x(i);
    assert(1 <= yd < xd);
    assert(0 <= off < xd);
    assert(0 * xd <= yd * off) by {
        lemma_mul_inequality(0, yd, off);
        lemma_mul_inequality(0, off, yd);
    }
    lemma_div_is_ordered(0, yd * off, xd);
    assert(yd * off <= yd * (xd - 1)) by {
        lemma_mul_inequality(off, xd - 1, yd);
    }
    assert(yd * (xd - 1) == (yd - 1) * xd + (xd - yd)) by {
        assert(yd * (xd - 1) == yd * xd - yd) by (nonlinear_arith);
        assert((yd - 1) * xd == yd * xd - xd) by (nonlinear_arith);
    }
    lemma_fundamental_div_mod_converse(yd * (xd - 1), xd, yd - 1, xd - yd);
    lemma_div_is_ordered(yd * off, yd * (xd - 1), xd);
    assert(yd * off / xd <= yd - 1);
}

/// On one segment the interpolation is monotone in the draw.
proof fn lemma_age_interp_monotone(i: int, u1: int, u2: int)
    requires
        0 <= i < 9,
        age_cdf_x(i) <= u1 <= u2 < age_cdf_x(i + 1),
    ensures
        age_interp(i, u1) <= age_interp(i, u2),
{
    lemma_age_cdf_table();
    let yd = age_cdf_y(i + 1) - age_cdf_y(i);
    let xd = age_cdf_x(i + 1) - age_cdf_x(i);
    assert(yd * (u1 - age_cdf_x(i)) <= yd * (u2 - age_cdf_x(i))) by {
        lemma_mul_inequality(u1 - age_cdf_x(i), u2 - age_cdf_x(i), yd);
        assert(yd * (u1 - age_cdf_x(i)) == (u1 - age_cdf_x(i)) * yd) by (nonlinear_arith);
        assert(yd * (u2 - age_cdf_x(i)) == (u2 - age_cdf_x(i)) * yd) by (nonlinear_arith);
    }
    lemma_div_is_ordered(yd * (u1 - age_cdf_x(i)), yd * (u2 - age_cdf_x(i)), xd);
}

/// Scanning from segment `i`, any draw at or above `x_i` maps to an age in
/// `[y_i, 100]`.
proof fn lemma_age_of_from_bounds(u: int, i: int)
    requires
        0 <= i <= 9,
        age_cdf_x(i) <= u,
    ensures
        age_cdf_y(i) <= age_of_from(u, i) <= 100,
    decreases 9 - i,
{
    lemma_age_cdf_table();
    if i == 9 {
    } else if age_cdf_x(i) <= u < age_cdf_x(i + 1) {
        lemma_age_interp_bounds(i, u);
    } else {
        lemma_age_of_from_bounds(u, i + 1);
    }
}

/// Scanning from segment `i`, the mapped age is monotone in the draw.
proof fn lemma_age_of_from_monotone(u1: int, u2: int, i: int)
    requires
        0 <= i <= 9,
        age_cdf_x(i) <= u1 <= u2,
    ensures
        age_of_from(u1, i) <= age_of_from(u2, i),
    decreases 9 - i,
{
    lemma_age_cdf_table();
    if i == 9 {
    } else if u1 < age_cdf_x(i + 1) {
        if u2 < age_cdf_x(i + 1) {
            lemma_age_interp_monotone(i, u1, u2);
        } else {
            lemma_age_interp_bounds(i, u1);
            lemma_age_of_from_bounds(u2, i + 1);
        }
    } else {
        lemma_age_of_from_monotone(u1, u2, i + 1);
    }
}

/// The sampler is monotone: a larger uniform draw never maps to a smaller
/// age.
pub proof fn lemma_age_of_monotone(u1: int, u2: int)
    requires
        0 <= u1 <= u2,
    ensures
        age_of(u1) <= age_of(u2),
{
    lemma_age_of_from_monotone(u1, u2, 0);
}

/// Boundary behaviour of the sampler: a draw of 0 maps to age 0, and the
/// largest draw (just below probability 1) maps to age 100.
pub proof fn lemma_age_of_boundaries()
    ensures
        age_of(0) == 0,
        age_of(CDF_SCALE - 1) == 100,
        forall|u: int| 0 <= u ==> 0 <= #[trigger] age_of(u) <= 100,
{
    assert(age_of(0) == 0);
    assert(age_of(CDF_SCALE - 1) == 100) by {
        reveal_with_fuel(age_of_from, 11);
    }
    assert forall|u: int| 0 <= u implies 0 <= #[trigger] age_of(u) <= 100 by {
        lemma_age_of_from_bounds(u, 0);
    }
}

/// Exec mirror of [`age_cdf_x`].
fn age_cdf_x_at(i: usize) -> (x: u64)
    requires
        i <= 10,
    ensures
        x as int == age_cdf_x(i as int),
{
    match i {
        0 => 0,
        1 => 944_196,
        2 => 5_640_964,
        3 => 13_170_318,
        4 => 15_966_590,
        5 => 19_101_804,
        6 => 23_604_890,
        7 => 42_779_325,
        8 => 71_710_447,
        9 => 78_356_131,
        _ => 100_000_000,
    }
}

/// Exec mirror of [`age_cdf_y`].
fn age_cdf_y_at(i: usize) -> (y: u64)
    requires
        i <= 10,
    ensures
        y as int == age_cdf_y(i as int),
{
    match i {
        0 => 0,
        1 => 1,
        2 => 5,
        3 => 14,
        4 => 17,
        5 => 20,
        6 => 24,
        7 => 39,
        8 => 59,
        9 => 64,
        _ => 100,
    }
}

/// Converts a uniform draw `u` in `[0, CDF_SCALE)` into an age in
/// `[0, 100]` by inverse interpolation of the age CDF.
pub fn sample_age(u: u64) -> (age: u32)
    requires
        u < CDF_SCALE,
    ensures
        age as int == age_of(u as int),
        age <= 100,
{
    proof {
        lemma_age_cdf_table();
    }
    let mut i: usize = 0;
    while i < 9
        invariant
            i <= 9,
            u < CDF_SCALE,
            age_of(u as int) == age_of_from(u as int, i as int),
        decreases 9 - i,
    {
        let lo = age_cdf_x_at(i);
        let hi = age_cdf_x_at(i + 1);
        if lo <= u && u < hi {
            let y_lo = age_cdf_y_at(i);
            let y_hi = age_cdf_y_at(i + 1);
            proof {
                lemma_age_cdf_table();
                lemma_age_interp_bounds(i as int, u as int);
                assert((y_hi - y_lo) * (u - lo) <= 100 * (CDF_SCALE as int)) by (nonlinear_arith)
                    requires
                        y_hi - y_lo <= 100,
                        0 <= u - lo <= CDF_SCALE as int,
                ;
            }
            let val = y_lo + (y_hi - y_lo) * (u - lo) / (hi - lo);
            return val as u32;
        }
        i = i + 1;
        proof {
            lemma_age_cdf_table();
        }
    }
    100
}

} // verus!
