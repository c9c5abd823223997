//! What holds of whole numbers as percentages.

use vstd::arithmetic::power2::{
    lemma2_to64, lemma_pow2_adds, lemma_pow2_pos, lemma_pow2_strictly_increases, lemma_pow2_unfold,
    pow2,
};
use vstd::prelude::*;

use crate::number_laws::{is_written_integer, lemma_integer_text};
use crate::percent::{double_step, nearest_double, percent_text};
use crate::text::int_text;

verus! {

broadcast use vstd::string::group_string_axioms;

/// Whether a number is `m` times a power of two, where `m` has no more than 53 bits.
pub open spec fn is_scaled(x: nat, m: nat, e: nat) -> bool {
    m < 0x20_0000_0000_0000 && x == m * pow2(e)
}

/// Whether a whole number is a double.
pub open spec fn is_double(x: nat) -> bool {
    exists|m: nat, e: nat| is_scaled(x, m, e)
}

/// How far two numbers lie apart.
pub open spec fn distance(a: nat, b: nat) -> nat {
    if a < b {
        (b - a) as nat
    } else {
        (a - b) as nat
    }
}

/// Whether `r` is the double that a number is rounded to: none is nearer, and of two that are
/// equally near it is the one that is an even multiple of their distance.
pub open spec fn is_rounded_to(n: nat, r: nat) -> bool {
    &&& is_double(r)
    &&& forall|x: nat| #[trigger]
        is_double(x) ==> {
            &&& distance(r, n) <= distance(x, n)
            &&& x != r && distance(r, n) == distance(x, n) ==> r % (2 * distance(r, x)) == 0
        }
}

/// The distance of doubles around a number is a power of two, and leaves 53 bits of it.
proof fn lemma_step(n: nat) -> (e: nat)
    ensures
        double_step(n) == pow2(e),
        e == 0 ==> n < 0x20_0000_0000_0000,
        e > 0 ==> 0x10_0000_0000_0000 * pow2(e) <= n < 0x20_0000_0000_0000 * pow2(e),
    decreases n,
{
    if n < 0x20_0000_0000_0000 {
        lemma2_to64();
        0
    } else {
        let before = lemma_step(n / 2);
        let e: nat = before + 1;
        lemma_pow2_unfold(e);
        lemma2_to64();
        e
    }
}

/// A double that is no multiple of the distance of doubles around a number lies below that number
/// by more than a whole such distance could bridge.
proof fn lemma_finer_double(n: nat, e: nat, x: nat, m: nat, f: nat)
    requires
        e > 0,
        0x10_0000_0000_0000 * pow2(e) <= n,
        is_scaled(x, m, f),
        f < e,
    ensures
        x < 0x10_0000_0000_0000 * pow2(e),
{
    let half = pow2((e - 1) as nat);
    lemma_pow2_unfold(e);
    lemma_pow2_pos(f);
    if f < e - 1 {
        lemma_pow2_strictly_increases(f, (e - 1) as nat);
    }
    let p = pow2(f);
    assert(m * p < 0x20_0000_0000_0000 * half) by (nonlinear_arith)
        requires
            m < 0x20_0000_0000_0000,
            0 < p <= half,
    ;
    assert(0x20_0000_0000_0000 * half == 0x10_0000_0000_0000 * (2 * half)) by (nonlinear_arith);
}

/// A coarser double is a multiple of a finer power of two.
proof fn lemma_coarser_double(e: nat, x: nat, m: nat, f: nat) -> (k: nat)
    requires
        is_scaled(x, m, f),
        e <= f,
    ensures
        x == k * pow2(e),
{
    let g: nat = (f - e) as nat;
    lemma_pow2_adds(g, e);
    let (a, b) = (pow2(g), pow2(e));
    let k = m * a;
    assert(m * (a * b) == (m * a) * b) by (nonlinear_arith);
    k
}

/// A multiple of the distance of doubles is a double, as long as it has 53 bits or is the first
/// with more.
proof fn lemma_multiple_is_double(k: nat, e: nat)
    requires
        k <= 0x20_0000_0000_0000,
    ensures
        is_double(k * pow2(e)),
{
    let x = k * pow2(e);
    if k < 0x20_0000_0000_0000 {
        assert(is_scaled(x, k, e));
    } else {
        lemma_pow2_unfold(e + 1);
        let p = pow2(e);
        assert(0x20_0000_0000_0000 * p == 0x10_0000_0000_0000 * (2 * p)) by (nonlinear_arith);
        assert(is_scaled(x, 0x10_0000_0000_0000, e + 1));
    }
}

/// Of the multiples of a number the nearest is the one that rounding gives, the even one of two.
proof fn lemma_nearest_multiple(n: nat, step: nat, below: nat, rest: nat, r: nat, k: nat, c: nat)
    requires
        step > 0,
        n == below * step + rest,
        rest < step,
        k == if 2 * rest > step || 2 * rest == step && below % 2 == 1 {
            below + 1
        } else {
            below
        },
        r == k * step,
    ensures
        distance(r, n) <= distance(c * step, n),
        c * step != r && distance(r, n) == distance(c * step, n) ==> r % (2 * distance(
            r,
            c * step,
        )) == 0,
{
    let x = c * step;
    assert((below + 1) * step == below * step + step) by (nonlinear_arith);
    if c < below {
        assert(x <= below * step - step) by (nonlinear_arith)
            requires
                c <= below - 1,
                x == c * step,
                step > 0,
        ;
    } else if c > below + 1 {
        assert(x >= below * step + 2 * step) by (nonlinear_arith)
            requires
                c >= below + 2,
                x == c * step,
                step > 0,
        ;
    }
    if x != r && distance(r, n) == distance(x, n) {
        assert(c == below || c == below + 1);
        assert(2 * rest == step);
        assert(distance(r, x) == step);
        assert(k % 2 == 0);
        let h = k / 2;
        assert(r == h * (2 * step)) by (nonlinear_arith)
            requires
                r == k * step,
                k == 2 * h,
        ;
        vstd::arithmetic::div_mod::lemma_fundamental_div_mod_converse(
            r as int,
            (2 * step) as int,
            h as int,
            0,
        );
    }
}

/// The double that is taken for a number is the one that it is rounded to.
proof fn lemma_nearest_is_rounded(n: nat)
    ensures
        is_rounded_to(n, nearest_double(n)),
{
    let e = lemma_step(n);
    let step = double_step(n);
    lemma_pow2_pos(e);
    let below = n / step;
    let rest = n % step;
    let r = nearest_double(n);
    vstd::arithmetic::div_mod::lemma_fundamental_div_mod(n as int, step as int);
    assert(step * below == below * step) by (nonlinear_arith);
    vstd::arithmetic::div_mod::lemma_mod_bound(n as int, step as int);
    let k: nat = if 2 * rest > step || 2 * rest == step && below % 2 == 1 {
        below + 1
    } else {
        below
    };
    assert(r == k * step);
    lemma2_to64();
    assert(below < 0x20_0000_0000_0000) by (nonlinear_arith)
        requires
            below * step <= n,
            n < 0x20_0000_0000_0000 * step,
            step > 0,
    ;
    lemma_multiple_is_double(k, e);
    assert forall|x: nat| #[trigger] is_double(x) implies {
        &&& distance(r, n) <= distance(x, n)
        &&& x != r && distance(r, n) == distance(x, n) ==> r % (2 * distance(r, x)) == 0
    } by {
        let (m, f) = choose|m: nat, f: nat| is_scaled(x, m, f);
        if e <= f {
            let c = lemma_coarser_double(e, x, m, f);
            lemma_nearest_multiple(n, step, below, rest, r, k, c);
        } else {
            lemma_finer_double(n, e, x, m, f);
            assert(0x10_0000_0000_0000 <= below) by (nonlinear_arith)
                requires
                    0x10_0000_0000_0000 * step <= n,
                    n == below * step + rest,
                    rest < step,
                    step > 0,
            ;
            assert(0x10_0000_0000_0000 * step <= below * step) by (nonlinear_arith)
                requires
                    0x10_0000_0000_0000 <= below,
            ;
            lemma_nearest_multiple(n, step, below, rest, r, k, below);
        }
    }
}

/// The magnitude of an integer.
pub open spec fn magnitude(i: int) -> nat {
    if i < 0 {
        (-i) as nat
    } else {
        i as nat
    }
}

/// Whether a text is an integer as a percentage: its magnitude is rounded to the double `r`, a
/// hundred times that to the double `v`, and the text is `v` with the sign of the integer, the
/// decimal place 0 and a percent sign.
pub open spec fn is_percentage(text: Seq<char>, i: int, r: nat, v: nat) -> bool {
    &&& is_rounded_to(magnitude(i), r)
    &&& is_rounded_to(100 * r, v)
    &&& text.len() > 3
    &&& text.skip(text.len() - 3) == seq!['.', '0', '%']
    &&& i < 0 ==> is_written_integer(text.take(text.len() - 3), -(v as int))
    &&& i >= 0 ==> is_written_integer(text.take(text.len() - 3), v as int)
}

/// A whole number as a percentage is a hundred times the number with the decimal place 0 and a
/// percent sign, where both the number and the product are rounded to doubles.
pub proof fn law_percentages_are_rounded_products(i: int)
    ensures
        exists|r: nat, v: nat| is_percentage(percent_text(i), i, r, v),
{
    let text = percent_text(i);
    let r = nearest_double(magnitude(i));
    let v = nearest_double(100 * r);
    lemma_nearest_is_rounded(magnitude(i));
    lemma_nearest_is_rounded(100 * r);
    reveal_strlit(".0%");
    let number = text.take(text.len() - 3);
    if i < 0 {
        lemma_not_rounded_to_zero(magnitude(i), r);
        lemma_not_rounded_to_zero(100 * r, v);
        lemma_integer_text(-(v as int));
        assert((-(-(v as int))) as nat == v);
        assert(number == int_text(-(v as int)));
    } else {
        lemma_integer_text(v as int);
        assert(number == int_text(v as int));
    }
    assert(number.len() > 0);
    assert(text.skip(text.len() - 3) == seq!['.', '0', '%']);
    assert(is_percentage(text, i, r, v));
}

/// No number but 0 is rounded to 0.
proof fn lemma_not_rounded_to_zero(n: nat, r: nat)
    requires
        n > 0,
        is_rounded_to(n, r),
    ensures
        r > 0,
{
    lemma2_to64();
    assert(is_scaled(1, 1, 0));
    assert(is_double(1));
}

}
