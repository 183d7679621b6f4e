//! How dense a panel is, as the doubles that is worked out in have it.

use crate::double::{
    bounds_of_steps, half_even, half_even_bounds, half_even_scales, one, round_half_even, rounded,
    rounding_reaches, rounding_takes_steps, two, two_adds_up, two_grows, two_is_positive,
};
use vstd::arithmetic::div_mod::lemma_fundamental_div_mod;
use vstd::prelude::*;

verus! {

/// The dots to an inch from which on a display is treated as needing two device
/// pixels to a logical one.
pub const HIDPI: u64 = 192;

/// The millimetres to an inch, as a double.
pub open spec fn inch() -> nat {
    rounded(254, 10)
}

/// The dots to an inch of a panel `millimetres` wide that shows `pixels`: how
/// many inches it is wide, as a double, and how many dots there are to those, as
/// another.
pub open spec fn density(millimetres: nat, pixels: nat) -> nat {
    let inches = rounded(millimetres * one(), inch());
    rounded(pixels * one(), inches)
}

/// Whether a panel `millimetres` wide that shows `pixels` has at least
/// [`HIDPI`] of them to an inch.
pub open spec fn is_dense(millimetres: i32, pixels: i32) -> bool {
    millimetres > 0 && pixels > 0 && density(millimetres as nat, pixels as nat) >= HIDPI * one()
}

/// The millimetres to an inch, in two to the minus 48ths of one.
const INCH: u128 = 0x19_6666_6666_6666;

/// The dots to that from which on a quotient rounds to [`HIDPI`]: half a step
/// between doubles short of it.
const LINE: u128 = 0xbf_ffff_ffff_fffc;

/// What stays between two numbers does so with all three multiplied.
proof fn scaled_between(low: nat, n: nat, top: nat, scale: nat)
    by (nonlinear_arith)
    requires
        low <= n < top,
        scale > 0,
    ensures
        low * scale <= n * scale < top * scale,
{
}

/// A product of three with its factors put together otherwise.
proof fn regrouped(a: nat, b: nat, c: nat)
    by (nonlinear_arith)
    ensures
        a * (b * c) == (a * b) * c,
        a * (b * c) == (a * c) * b,
        a * (b * c) == b * (a * c),
{
}

proof fn an_inch_is_rounded()
    ensures
        inch() == INCH * two(1026),
{
    let unit = two(1026);
    let n = 254 * two(48);
    assert(two(48) == 0x1_0000_0000_0000) by {
        reveal_with_fuel(two, 49);
    }
    bounds_of_steps();
    two_is_positive(1026);
    assert(254 * one() == n * unit) by {
        two_adds_up(48, 1026);
        regrouped(254, two(48), unit);
    }
    assert(two(52 + 1026) * 10 == (two(52) * 10) * unit) by {
        two_adds_up(52, 1026);
        regrouped(10, two(52), unit);
    }
    assert(two(53 + 1026) * 10 == (two(53) * 10) * unit) by {
        two_adds_up(53, 1026);
        regrouped(10, two(53), unit);
    }
    scaled_between(two(52) * 10, n, two(53) * 10, unit);
    rounding_takes_steps(254, 10, 1026);
    half_even_scales(n, 10, unit);
    assert(half_even(n, 10) == INCH) by {
        reveal(half_even);
    }
}

/// How many inches wide a panel is, in numbers of a size to calculate with: `k`
/// doublings of its millimetres put the inches, in whole steps, between two
/// powers of two.
#[verifier::spinoff_prover]
proof fn inches_in_steps(millimetres: nat, k: nat)
    requires
        k <= 128,
        two(52) * INCH <= millimetres * two(k) < two(53) * INCH,
    ensures
        rounded(millimetres * one(), inch()) == half_even(millimetres * two(k), INCH as nat) * two(
            (1122 - k) as nat,
        ),
{
    let w = millimetres * two(k);
    let s = (1122 - k) as nat;
    let far = two((2148 - k) as nat);
    let step = two(s);
    let n = millimetres * one();
    let d = inch();
    let inch_steps = INCH as nat;
    assert(d == inch_steps * two(1026)) by {
        an_inch_is_rounded();
    }
    two_is_positive((2148 - k) as nat);
    assert(n * one() == w * far) by {
        two_adds_up(1074, 1074);
        two_adds_up(k, (2148 - k) as nat);
        regrouped(millimetres, one(), one());
        regrouped(millimetres, two(k), far);
    }
    assert(d * step == inch_steps * far) by {
        two_adds_up(1026, s);
        regrouped(inch_steps, two(1026), step);
    }
    assert(two(52 + s) * d == (two(52) * inch_steps) * far) by {
        two_adds_up(52, s);
        regrouped(two(52), step, d);
        regrouped(two(52), inch_steps, far);
        assert(step * d == d * step) by (nonlinear_arith);
    }
    assert(two(53 + s) * d == (two(53) * inch_steps) * far) by {
        two_adds_up(53, s);
        regrouped(two(53), step, d);
        regrouped(two(53), inch_steps, far);
        assert(step * d == d * step) by (nonlinear_arith);
    }
    assert(d > 0) by {
        two_is_positive(1026);
    }
    scaled_between(two(52) * inch_steps, w, two(53) * inch_steps, far);
    rounding_takes_steps(n, d, s);
    half_even_scales(w, inch_steps, far);
}

/// The line in steps between the doubles about it.
proof fn hidpi_in_steps()
    ensures
        HIDPI * one() == 0x18_0000_0000_0000 * two(1029),
{
    two_adds_up(45, 1029);
    assert(two(45) == 0x2000_0000_0000) by {
        reveal_with_fuel(two, 46);
    }
    regrouped(192, 0x2000_0000_0000, two(1029));
}

/// A density reaches the line as doubles where it does so in steps.
#[verifier::spinoff_prover]
proof fn density_reaches(pixels: nat, inches: nat)
    requires
        inches > 0,
    ensures
        rounded(pixels * one(), inches) >= HIDPI * one() <==> 2 * ((pixels * one()) * one()) >= (
        0x30_0000_0000_0000 - 1) * (inches * two(1029)),
{
    hidpi_in_steps();
    bounds_of_steps();
    rounding_reaches(pixels * one(), inches, 0x18_0000_0000_0000, 1029);
}

/// What a density comes to in such numbers.
#[verifier::spinoff_prover]
proof fn density_in_steps(millimetres: nat, pixels: nat, k: nat)
    requires
        2 <= k <= 128,
        two(52) * INCH <= millimetres * two(k) < two(53) * INCH,
    ensures
        density(millimetres, pixels) >= HIDPI * one() <==> pixels * two(k) >= LINE * half_even(
            millimetres * two(k),
            INCH as nat,
        ),
{
    let s = (1122 - k) as nat;
    let far = two((2148 - k) as nat);
    let m = half_even(millimetres * two(k), INCH as nat);
    let inches = m * two(s);
    inches_in_steps(millimetres, k);
    assert(inches > 0) by {
        half_even_bounds(millimetres * two(k), INCH as nat, two(52));
        bounds_of_steps();
        two_is_positive(s);
        let step = two(s);
        assert(m * step > 0) by (nonlinear_arith)
            requires
                m > 0,
                step > 0,
        ;
    }
    density_reaches(pixels, inches);
    assert(inches * two(1029) == m * (8 * far)) by {
        two_adds_up(s, 1029);
        two_adds_up(3, (2148 - k) as nat);
        assert(two(3) == 8) by {
            reveal_with_fuel(two, 4);
        }
        regrouped(m, two(s), two(1029));
    }
    assert((pixels * one()) * one() == (pixels * two(k)) * far) by {
        two_adds_up(1074, 1074);
        two_adds_up(k, (2148 - k) as nat);
        regrouped(pixels, one(), one());
        regrouped(pixels, two(k), far);
    }
    two_is_positive((2148 - k) as nat);
    the_scale_is_taken_out(pixels * two(k), m, far);
}

/// The line in steps, times four, without the scale that it comes with.
proof fn the_scale_is_taken_out(a: nat, b: nat, far: nat)
    by (nonlinear_arith)
    requires
        far > 0,
    ensures
        2 * (a * far) >= (0x30_0000_0000_0000 - 1) * (b * (8 * far)) <==> a
            >= 0xbf_ffff_ffff_fffc * b,
{
}

/// A panel with a great many dots to each millimetre is past the line.
proof fn far_past_the_line(millimetres: nat, pixels: nat, k: nat)
    requires
        two(52) * INCH <= millimetres * two(k),
        pixels >= 24 * millimetres,
    ensures
        pixels * two(k) >= LINE * half_even(millimetres * two(k), INCH as nat),
{
    bounds_of_steps();
    let wide = millimetres * two(k);
    let inches = half_even(wide, INCH as nat);
    half_even_bounds(wide, INCH as nat, two(52));
    half_even_bounds(wide, INCH as nat, (inches - 1) as nat);
    assert(wide > (inches - 1) * INCH);
    assert(24 * wide >= LINE * inches);
    assert(pixels * two(k) >= 24 * wide) by (nonlinear_arith)
        requires
            pixels >= 24 * millimetres,
            wide == millimetres * two(k),
    ;
}

/// How many doublings put the inches between the two powers of two.
proof fn some_doublings(millimetres: nat, k: nat)
    requires
        1 <= millimetres <= i32::MAX,
        two(52) * INCH <= millimetres * two(k) < two(53) * INCH,
    ensures
        2 <= k <= 128,
{
    bounds_of_steps();
    let t = two(k);
    let wide = millimetres * t;
    assert(0x10_0000_0000_0000 * INCH <= wide < 0x20_0000_0000_0000 * INCH);
    if k < 2 {
        assert(two(0) == 1 && two(1) == 2);
        assert(wide <= 2 * millimetres) by (nonlinear_arith)
            requires
                wide == millimetres * t,
                t <= 2,
        ;
    }
    if k > 128 {
        two_grows(108, k);
        two_adds_up(54, 54);
        let power = two(54);
        assert(power * power >= 0x20_0000_0000_0000 * 0x19_6666_6666_6666) by (nonlinear_arith)
            requires
                power == 0x40_0000_0000_0000,
        ;
        assert(wide >= t) by (nonlinear_arith)
            requires
                wide == millimetres * t,
                millimetres >= 1,
        ;
    }
}

/// What is left to compare once a panel is doubled up until its inches are
/// between the two powers of two.
#[verifier::spinoff_prover]
proof fn the_line_is_left(millimetres: nat, pixels: nat, counted: nat, k: nat)
    requires
        1 <= millimetres <= i32::MAX,
        counted == if pixels < 24 * millimetres {
            pixels
        } else {
            24 * millimetres
        },
        two(52) * INCH <= millimetres * two(k) < two(53) * INCH,
    ensures
        half_even(millimetres * two(k), INCH as nat) <= two(53),
        density(millimetres, pixels) >= HIDPI * one() <==> counted * two(k) >= LINE * half_even(
            millimetres * two(k),
            INCH as nat,
        ),
{
    some_doublings(millimetres, k);
    density_in_steps(millimetres, pixels, k);
    half_even_bounds(millimetres * two(k), INCH as nat, two(53));
    if pixels >= 24 * millimetres {
        far_past_the_line(millimetres, pixels, k);
        far_past_the_line(millimetres, 24 * millimetres, k);
    }
}

/// Whether a panel has at least [`HIDPI`] dots to an inch.
pub fn dense(millimetres: i32, pixels: i32) -> (r: bool)
    ensures
        r == is_dense(millimetres, pixels),
{
    if millimetres <= 0 || pixels <= 0 {
        return false;
    }
    let across: u128 = millimetres as u128;
    let shown: u128 = pixels as u128;
    // Far past the line, how far makes no difference.
    let most: u128 = 24 * across;
    let counted: u128 = if shown < most {
        shown
    } else {
        most
    };
    let low: u128 = INCH * 0x10_0000_0000_0000;
    let mut wide: u128 = across;
    let mut dots: u128 = counted;
    let ghost mut k: nat = 0;
    assert(two(0) == 1);
    while wide < low
        invariant
            low == INCH * 0x10_0000_0000_0000,
            wide == across * two(k),
            dots == counted * two(k),
            dots <= 24 * wide,
            1 <= wide < 2 * low,
        decreases 2 * low - wide,
    {
        proof {
            regrouped(across as nat, 2, two(k));
            regrouped(counted as nat, 2, two(k));
            k = k + 1;
        }
        wide = wide * 2;
        dots = dots * 2;
    }
    let inches: u128 = round_half_even(wide, INCH);
    proof {
        bounds_of_steps();
        the_line_is_left(across as nat, shown as nat, counted as nat, k);
        assert(LINE * inches <= LINE * 0x20_0000_0000_0000) by (nonlinear_arith)
            requires
                inches <= 0x20_0000_0000_0000,
        ;
    }
    dots >= LINE * inches
}

/// Enough doublings put the inches between the two powers of two.
proof fn enough_doublings(millimetres: nat, k: nat) -> (enough: nat)
    requires
        millimetres >= 1,
        millimetres * two(k) < two(53) * INCH,
    ensures
        two(52) * INCH <= millimetres * two(enough) < two(53) * INCH,
    decreases two(53) * INCH - millimetres * two(k),
{
    bounds_of_steps();
    if two(52) * INCH <= millimetres * two(k) {
        k
    } else {
        regrouped(millimetres, 2, two(k));
        two_is_positive(k);
        let t = two(k);
        assert(millimetres * t >= 1) by (nonlinear_arith)
            requires
                millimetres >= 1,
                t >= 1,
        ;
        enough_doublings(millimetres, k + 1)
    }
}

/// A whole number nearest to a quotient is no further from it than a half.
proof fn half_even_is_near(n: nat, d: nat)
    requires
        d > 0,
    ensures
        2 * (half_even(n, d) * d) <= 2 * n + d,
        2 * n <= 2 * (half_even(n, d) * d) + d,
{
    reveal(half_even);
    let whole = n / d;
    let rest = n % d;
    lemma_fundamental_div_mod(n as int, d as int);
    assert(n == d * whole + rest);
    let r = half_even(n, d);
    assert(r == whole || r == whole + 1);
    if r == whole {
        assert(r * d == d * whole) by (nonlinear_arith)
            requires
                r == whole,
        ;
    } else {
        assert(r * d == d * whole + d) by (nonlinear_arith)
            requires
                r == whole + 1,
        ;
    }
}

/// A panel is dense where it has more than 192 dots to each inch of 25.4
/// millimetres, and is not where it has fewer, but for the last place of the
/// doubles that is worked out in: a dot in two thousand settles it either way.
pub proof fn dense_is_more_than_192_to_the_inch(millimetres: i32, pixels: i32)
    ensures
        millimetres > 0 && pixels * 254 >= 1921 * millimetres ==> is_dense(millimetres, pixels),
        millimetres > 0 && pixels * 254 <= 1919 * millimetres ==> !is_dense(millimetres, pixels),
        millimetres <= 0 || pixels <= 0 ==> !is_dense(millimetres, pixels),
{
    if millimetres > 0 && pixels > 0 {
        bounds_of_steps();
        let mm = millimetres as nat;
        let px = pixels as nat;
        assert(two(0) == 1);
        assert(mm * 1 == mm);
        let k = enough_doublings(mm, 0);
        some_doublings(mm, k);
        density_in_steps(mm, px, k);
        let t = two(k);
        let wide = mm * t;
        let dots = px * t;
        let inches = half_even(wide, INCH as nat);
        half_even_is_near(wide, INCH as nat);
        assert(px * 254 >= 1921 * mm ==> dots * 254 >= 1921 * wide) by (nonlinear_arith)
            requires
                wide == mm * t,
                dots == px * t,
        ;
        assert(px * 254 <= 1919 * mm ==> dots * 254 <= 1919 * wide) by (nonlinear_arith)
            requires
                wide == mm * t,
                dots == px * t,
        ;
        settled_either_way(dots, wide, inches);
    }
}

proof fn settled_either_way(dots: nat, wide: nat, inches: nat)
    requires
        2 * (inches * INCH) <= 2 * wide + INCH,
        2 * wide <= 2 * (inches * INCH) + INCH,
        wide >= 0x10_0000_0000_0000 * INCH,
    ensures
        dots * 254 >= 1921 * wide ==> dots >= LINE * inches,
        dots * 254 <= 1919 * wide ==> dots < LINE * inches,
{
}

/// More dots on as wide a panel are no less dense.
pub proof fn density_grows(millimetres: i32, pixels: i32, more: i32)
    requires
        is_dense(millimetres, pixels),
        more >= pixels,
    ensures
        is_dense(millimetres, more),
{
    bounds_of_steps();
    let mm = millimetres as nat;
    assert(two(0) == 1);
    assert(mm * 1 == mm);
    let k = enough_doublings(mm, 0);
    some_doublings(mm, k);
    density_in_steps(mm, pixels as nat, k);
    density_in_steps(mm, more as nat, k);
    let t = two(k);
    assert(more * t >= pixels * t) by (nonlinear_arith)
        requires
            more >= pixels,
            t >= 0,
    ;
}

} // verus!
