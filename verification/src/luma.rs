//! The brightness of a colour, `0.299 r + 0.587 g + 0.114 b`, evaluated with
//! the rounding of IEEE single precision and cut to a whole number.
//!
//! Every intermediate value is a multiple of 2^-27, so it is held as an
//! integer in that unit. The three weights are the single-precision numbers
//! nearest to their decimal fractions.
use vstd::prelude::*;

verus! {

/// The weight of red: the single-precision number nearest 0.299, times 2^27.
pub const RED_WEIGHT: u64 = 40131100;

/// The weight of green: the single-precision number nearest 0.587, times 2^27.
pub const GREEN_WEIGHT: u64 = 78785808;

/// The weight of blue: the single-precision number nearest 0.114, times 2^27.
pub const BLUE_WEIGHT: u64 = 15300821;

/// The distance between neighbouring single-precision numbers at `n`: the
/// smallest power of two that leaves a significand of at most 24 bits.
pub open spec fn single_step(n: nat) -> nat
    decreases n,
{
    if n < 0x1000000 {
        1
    } else {
        2 * single_step(n / 2)
    }
}

/// `n` rounded to single precision: to the nearest multiple of the step, and
/// halfway between two of them to the even one.
pub open spec fn to_single(n: nat) -> nat {
    let step = single_step(n);
    let below = n / step;
    let rest = n % step;
    if 2 * rest < step || (2 * rest == step && below % 2 == 0) {
        below * step
    } else {
        (below + 1) * step
    }
}

/// The brightness of a colour: products first, then the two sums from left to
/// right, each rounded to single precision; the result is cut to an integer.
pub open spec fn luma_of(r: u8, g: u8, b: u8) -> nat {
    let red_green = to_single(
        to_single(RED_WEIGHT as nat * r as nat) + to_single(GREEN_WEIGHT as nat * g as nat),
    );
    to_single(red_green + to_single(BLUE_WEIGHT as nat * b as nat)) / 0x8000000
}

proof fn lemma_step_bounds(n: nat)
    ensures
        single_step(n) >= 1,
        n >= 0x1000000 ==> single_step(n) * 0x800000 <= n,
        n < 0x1000000 ==> single_step(n) == 1,
    decreases n,
{
    if n >= 0x1000000 {
        lemma_step_bounds(n / 2);
    }
}

/// Rounding moves a number by less than one part in 2^23.
proof fn lemma_to_single_bound(n: nat)
    ensures
        to_single(n) <= n + n / 0x800000,
{
    lemma_step_bounds(n);
    let step = single_step(n);
    let below = n / step;
    let rest = n % step;
    vstd::arithmetic::div_mod::lemma_fundamental_div_mod(n as int, step as int);
    assert(step * below == below * step) by (nonlinear_arith);
    assert((below + 1) * step == below * step + step) by (nonlinear_arith);
    if n >= 0x1000000 {
        assert(step <= n / 0x800000);
    }
}

/// The brightness of a colour never exceeds that of a byte.
pub proof fn lemma_luma_is_a_byte(r: u8, g: u8, b: u8)
    ensures
        luma_of(r, g, b) <= 255,
{
    let red = RED_WEIGHT as nat * r as nat;
    let green = GREEN_WEIGHT as nat * g as nat;
    let blue = BLUE_WEIGHT as nat * b as nat;
    lemma_to_single_bound(red);
    lemma_to_single_bound(green);
    lemma_to_single_bound(blue);
    let sum = to_single(red) + to_single(green);
    lemma_to_single_bound(sum);
    lemma_to_single_bound(to_single(sum) + to_single(blue));
}

/// Rounds an integer to single precision.
fn round_to_single(n: u64) -> (r: u64)
    requires
        n <= 0x1000000000000,
    ensures
        r == to_single(n as nat),
        r <= n + n / 0x800000,
{
    let mut step: u64 = 1;
    let mut top: u64 = n;
    assert(step * top <= n);
    while top >= 0x1000000
        invariant
            n <= 0x1000000000000,
            1 <= step,
            step * top <= n,
            step * single_step(top as nat) == single_step(n as nat),
        decreases top,
    {
        proof {
            let half = top / 2;
            assert(single_step(top as nat) == 2 * single_step(half as nat));
            assert(step * (2 * half) <= step * top) by (nonlinear_arith)
                requires
                    2 * half <= top,
            ;
            assert(step * (2 * half) == (2 * step) * half) by (nonlinear_arith);
            assert(step * (2 * single_step(half as nat)) == (2 * step) * single_step(half as nat))
                by (nonlinear_arith);
            assert(step * top >= step * 0x1000000) by (nonlinear_arith)
                requires
                    top >= 0x1000000,
            ;
        }
        top = top / 2;
        step = step * 2;
    }
    assert(single_step(top as nat) == 1);
    assert(step * 1 == step);
    let below: u64 = n / step;
    let rest: u64 = n % step;
    proof {
        lemma_step_bounds(n as nat);
        lemma_to_single_bound(n as nat);
        vstd::arithmetic::div_mod::lemma_fundamental_div_mod(n as int, step as int);
        assert(step * below == below * step) by (nonlinear_arith);
        assert((below + 1) * step == below * step + step) by (nonlinear_arith);
    }
    if 2 * rest < step || (2 * rest == step && below % 2 == 0) {
        below * step
    } else {
        (below + 1) * step
    }
}

/// The brightness of a colour.
pub fn luma(r: u8, g: u8, b: u8) -> (y: u8)
    ensures
        y as nat == luma_of(r, g, b),
{
    let red: u64 = round_to_single(RED_WEIGHT * (r as u64));
    let green: u64 = round_to_single(GREEN_WEIGHT * (g as u64));
    let blue: u64 = round_to_single(BLUE_WEIGHT * (b as u64));
    let sum: u64 = round_to_single(red + green);
    let y: u64 = round_to_single(sum + blue) / 0x8000000;
    proof {
        lemma_luma_is_a_byte(r, g, b);
    }
    y as u8
}

} // verus!
