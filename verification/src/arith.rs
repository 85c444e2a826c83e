//! Rounding to a multiple of a size.

use vstd::prelude::*;

verus! {

/// The number of pieces of `unit` that are needed to hold `value`.
pub open spec fn pieces(value: int, unit: int) -> int {
    (value + unit - 1) / unit
}

/// The smallest multiple of `unit` that is at least `value`.
pub open spec fn rounded_up(value: int, unit: int) -> int {
    pieces(value, unit) * unit
}

/// `rounded_up` is the least multiple of `unit` that is not below `value`.
pub proof fn lemma_rounded_up(value: int, unit: int)
    requires
        0 <= value,
        0 < unit,
    ensures
        value <= rounded_up(value, unit) < value + unit,
        rounded_up(value, unit) % unit == 0,
        0 <= pieces(value, unit),
        pieces(value, unit) <= value,
        pieces(value, unit) == value / unit + (if value % unit == 0 {
            0int
        } else {
            1int
        }),
{
    let q = value / unit;
    let r = value % unit;
    assert(value == unit * q + r && 0 <= r < unit && 0 <= q) by (nonlinear_arith)
        requires
            0 <= value,
            0 < unit,
            q == value / unit,
            r == value % unit,
    ;
    let p = pieces(value, unit);
    if r == 0 {
        assert(p == q) by (nonlinear_arith)
            requires
                p == (value + unit - 1) / unit,
                value == unit * q,
                0 < unit,
        ;
    } else {
        assert(p == q + 1) by (nonlinear_arith)
            requires
                p == (value + unit - 1) / unit,
                value == unit * q + r,
                0 < r < unit,
        ;
    }
    assert(p * unit == unit * q + (if r == 0 {
        0
    } else {
        unit
    })) by (nonlinear_arith)
        requires
            p == q + (if r == 0 {
                0int
            } else {
                1int
            }),
    ;
    assert((p * unit) % unit == 0) by (nonlinear_arith)
        requires
            0 < unit,
    ;
    assert(q <= value && (r != 0 ==> q + 1 <= value)) by (nonlinear_arith)
        requires
            value == unit * q + r,
            0 <= r < unit,
            0 <= q,
    ;
}

/// Rounds `value` up to a multiple of `unit`.
pub fn align_up(value: usize, unit: usize) -> (result: usize)
    requires
        0 < unit,
        value + unit - 1 <= usize::MAX,
    ensures
        result == rounded_up(value as int, unit as int),
{
    proof {
        lemma_rounded_up(value as int, unit as int);
    }
    let remainder: usize = value % unit;
    if remainder == 0 {
        proof {
            let v = value as int;
            let u = unit as int;
            assert(v == (v / u) * u) by (nonlinear_arith)
                requires
                    v % u == 0,
                    0 < u,
            ;
        }
        value
    } else {
        proof {
            let v = value as int;
            let u = unit as int;
            assert(v + (u - v % u) == (v / u + 1) * u) by (nonlinear_arith)
                requires
                    0 < u,
            ;
        }
        value + (unit - remainder)
    }
}

/// Rounds `value` down to a multiple of `unit`.
pub fn align_down(value: usize, unit: usize) -> (result: usize)
    requires
        0 < unit,
    ensures
        result == value - value % unit,
{
    proof {
        vstd::arithmetic::div_mod::lemma_mod_decreases(value as nat, unit as nat);
    }
    value - value % unit
}

/// The number of pieces of `unit` that hold `value`.
pub fn div_ceil(value: usize, unit: usize) -> (result: usize)
    requires
        0 < unit,
    ensures
        result == pieces(value as int, unit as int),
{
    proof {
        lemma_rounded_up(value as int, unit as int);
    }
    let quotient: usize = value / unit;
    if value % unit == 0 {
        quotient
    } else {
        quotient + 1
    }
}

} // verus!
