//! Whole numbers as percentages.
//!
//! A percentage is a hundred times its number, worked out in double precision: numbers of more
//! than 53 bits are rounded, first the number itself and then the product.

use vstd::prelude::*;
use vstd::string::StringExecFns;

use crate::text::{decimal, int_text, push_decimal};

verus! {

broadcast use vstd::string::group_string_axioms;

/// The first whole number that needs more than the 53 bits of a double.
pub const DOUBLE_LIMIT: u128 = 9_007_199_254_740_992;

/// The distance of the doubles around a whole number: the least power of two that leaves 53 bits.
pub open spec fn double_step(n: nat) -> nat
    decreases n,
{
    if n < DOUBLE_LIMIT {
        1
    } else {
        2 * double_step(n / 2)
    }
}

/// The double next to a whole number, the even one of two that are equally near.
pub open spec fn nearest_double(n: nat) -> nat {
    let step = double_step(n);
    let below = n / step;
    let rest = n % step;
    if 2 * rest > step || 2 * rest == step && below % 2 == 1 {
        (below + 1) * step
    } else {
        below * step
    }
}

/// The magnitude of a hundred times a whole number in double precision.
pub open spec fn percent_magnitude(n: nat) -> nat {
    nearest_double(100 * nearest_double(n))
}

/// A whole number as a percentage with one decimal place.
pub open spec fn percent_text(i: int) -> Seq<char> {
    if i < 0 {
        seq!['-'] + decimal(percent_magnitude((-i) as nat)) + ".0%"@
    } else {
        decimal(percent_magnitude(i as nat)) + ".0%"@
    }
}

/// The distance of the doubles around a whole number.
fn double_step_of(n: u128) -> (step: u128)
    ensures
        step == double_step(n as nat),
        1 <= step,
        step == 1 || step <= n,
    decreases n,
{
    if n < DOUBLE_LIMIT {
        1
    } else {
        2 * double_step_of(n / 2)
    }
}

/// The double next to a whole number.
fn round_to_double(n: u128) -> (double: u128)
    requires
        2 * n <= u128::MAX,
    ensures
        double == nearest_double(n as nat),
        double <= 2 * n,
{
    let step: u128 = double_step_of(n);
    let below: u128 = n / step;
    let rest: u128 = n % step;
    proof {
        vstd::arithmetic::div_mod::lemma_fundamental_div_mod(n as int, step as int);
        assert(step * below == below * step) by (nonlinear_arith);
        assert((below + 1) * step == below * step + step) by (nonlinear_arith);
        assert(step == 1 ==> rest == 0);
    }
    if rest > step - rest || (rest == step - rest && below % 2 == 1) {
        (below + 1) * step
    } else {
        below * step
    }
}

/// Appends a whole number to `out` as a percentage with one decimal place.
pub fn push_percent(out: &mut String, i: i64)
    ensures
        final(out)@ == old(out)@ + percent_text(i as int),
{
    let wide: i128 = i as i128;
    if wide < 0 {
        out.push('-');
    }
    let magnitude: u128 = if wide < 0 {
        (-wide) as u128
    } else {
        wide as u128
    };
    let number: u128 = round_to_double(magnitude);
    push_decimal(out, round_to_double(100 * number));
    out.append(".0%");
}

/// A whole number of at most 53 bits is a double.
proof fn lemma_small_is_double(n: nat)
    requires
        n < DOUBLE_LIMIT,
    ensures
        nearest_double(n) == n,
{
    let step = double_step(n);
    assert(n / step == n && n % step == 0 && n * step == n) by (nonlinear_arith)
        requires
            step == 1,
    ;
}

/// While a hundred times a whole number has at most 53 bits, its percentage is exact.
pub proof fn law_small_percentages_are_exact(i: int)
    requires
        -DOUBLE_LIMIT < 100 * i < DOUBLE_LIMIT,
    ensures
        percent_text(i) == int_text(100 * i) + ".0%"@,
{
    let magnitude: nat = if i < 0 {
        (-i) as nat
    } else {
        i as nat
    };
    lemma_small_is_double(magnitude);
    lemma_small_is_double(100 * magnitude);
}

}
