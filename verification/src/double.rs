//! Floating-point numbers, exactly as they round.
//!
//! A double is a multiple of the smallest of them above nothing, two to the
//! minus 1074th, and is written here as how many of that it is. From two to the
//! 53rd of them on, not every multiple is a double: those that are lie a step
//! apart, and there are never more than two to the 53rd steps to one.

use vstd::arithmetic::div_mod::{lemma_fundamental_div_mod, lemma_fundamental_div_mod_converse};
use vstd::prelude::*;

verus! {

/// A power of two.
pub open spec fn two(n: nat) -> nat
    decreases n,
{
    if n == 0 {
        1
    } else {
        2 * two((n - 1) as nat)
    }
}

/// How many of the smallest double there are to one.
pub open spec fn one() -> nat {
    two(1074)
}

/// How many binary digits a number has.
pub open spec fn bits(n: nat) -> nat
    decreases n,
{
    if n == 0 {
        0
    } else {
        1 + bits(n / 2)
    }
}

/// The whole number nearest to a quotient, an even one where two are as near.
#[verifier::opaque]
pub open spec fn half_even(n: nat, d: nat) -> nat {
    let whole = n / d;
    let rest = n % d;
    if 2 * rest < d {
        whole
    } else if 2 * rest > d {
        whole + 1
    } else {
        whole + whole % 2
    }
}

/// How many doublings the step between doubles is, around a number with a whole
/// part of `whole`.
pub open spec fn coarseness(whole: nat) -> nat {
    if bits(whole) > 53 {
        (bits(whole) - 53) as nat
    } else {
        0
    }
}

/// The double nearest to `n` over `d`, the even one of two that are as near.
/// One past the largest double there is stands for infinity.
#[verifier::opaque]
pub open spec fn rounded(n: nat, d: nat) -> nat {
    let step = two(coarseness(n * one() / d));
    half_even(n * one(), d * step) * step
}

/// The powers of two that bound the steps of a double.
pub proof fn bounds_of_steps()
    ensures
        two(52) == 0x10_0000_0000_0000,
        two(53) == 0x20_0000_0000_0000,
        two(54) == 0x40_0000_0000_0000,
{
    reveal_with_fuel(two, 55);
}

pub proof fn two_is_positive(n: nat)
    ensures
        two(n) >= 1,
    decreases n,
{
    if n > 0 {
        two_is_positive((n - 1) as nat);
    }
}

pub proof fn two_adds_up(n: nat, m: nat)
    ensures
        two(n + m) == two(n) * two(m),
    decreases n,
{
    if n == 0 {
        assert(two(0) * two(m) == two(m)) by (nonlinear_arith)
            requires
                two(0) == 1,
        ;
    } else {
        two_adds_up((n - 1) as nat, m);
        assert(two(n + m) == 2 * two((n - 1) as nat + m));
        let a = two((n - 1) as nat);
        let b = two(m);
        assert((2 * a) * b == 2 * (a * b)) by (nonlinear_arith);
    }
}

pub proof fn two_grows(n: nat, m: nat)
    requires
        n <= m,
    ensures
        two(n) <= two(m),
        n < m ==> 2 * two(n) <= two(m),
    decreases m,
{
    two_is_positive(n);
    if n < m {
        two_grows(n, (m - 1) as nat);
    }
}

/// A number has as many digits as it is between two powers of two.
pub proof fn bits_bound(n: nat)
    ensures
        n < two(bits(n)),
        n > 0 ==> two((bits(n) - 1) as nat) <= n,
    decreases n,
{
    if n > 0 {
        bits_bound(n / 2);
    }
}

/// Rounding to a whole number is monotone about the whole numbers.
pub proof fn half_even_bounds(n: nat, d: nat, k: nat)
    requires
        d > 0,
    ensures
        n >= k * d ==> half_even(n, d) >= k,
        n <= k * d ==> half_even(n, d) <= k,
{
    reveal(half_even);
    let whole = n / d;
    let rest = n % d;
    lemma_fundamental_div_mod(n as int, d as int);
    assert(n == d * whole + rest);
    assert(rest < d);
    if n >= k * d {
        assert(whole >= k) by (nonlinear_arith)
            requires
                n >= k * d,
                n == d * whole + rest,
                rest < d,
        ;
    }
    if n <= k * d {
        if whole == k {
            assert(rest == 0) by (nonlinear_arith)
                requires
                    n <= k * d,
                    n == d * whole + rest,
                    whole == k,
                    rest >= 0,
            ;
        } else {
            assert(whole < k) by (nonlinear_arith)
                requires
                    n <= k * d,
                    n == d * whole + rest,
                    whole != k,
                    d > 0,
                    rest >= 0,
            ;
        }
    }
}

/// A quotient rounds to an even number or past it from half below it on.
proof fn half_even_reaches(n: nat, d: nat, k: nat)
    requires
        d > 0,
        k > 0,
        k % 2 == 0,
    ensures
        half_even(n, d) >= k <==> 2 * n >= (2 * k - 1) * d,
{
    reveal(half_even);
    let whole = n / d;
    let rest = n % d;
    lemma_fundamental_div_mod(n as int, d as int);
    assert(n == d * whole + rest);
    assert(rest < d);
    if whole >= k {
        assert(2 * n >= (2 * k - 1) * d) by (nonlinear_arith)
            requires
                n == d * whole + rest,
                whole >= k,
                d > 0,
                rest >= 0,
        ;
    } else if whole == k - 1 {
        assert(2 * n == (2 * k - 1) * d - d + 2 * rest) by (nonlinear_arith)
            requires
                n == d * whole + rest,
                whole == k - 1,
        ;
    } else {
        assert(2 * n < (2 * k - 1) * d) by (nonlinear_arith)
            requires
                n == d * whole + rest,
                whole <= k - 2,
                rest < d,
                d > 0,
        ;
    }
}

/// Where a number has more digits than a double, how large it is.
proof fn coarse_is_large(n: nat, d: nat)
    requires
        d > 0,
    ensures
        ({
            let c = coarseness(n / d);
            c > 0 ==> n >= two(52 + c) * d
        }),
        ({
            let c = coarseness(n / d);
            n < two(53 + c) * d
        }),
{
    let whole = n / d;
    let rest = n % d;
    lemma_fundamental_div_mod(n as int, d as int);
    assert(n == d * whole + rest);
    assert(rest < d);
    bits_bound(whole);
    let c = coarseness(whole);
    two_grows(bits(whole), 53 + c);
    let top = two(53 + c);
    assert(n < top * d) by (nonlinear_arith)
        requires
            n == d * whole + rest,
            rest < d,
            whole < top,
    ;
    if c > 0 {
        let low = two(52 + c);
        assert((bits(whole) - 1) as nat == 52 + c);
        assert(n >= low * d) by (nonlinear_arith)
            requires
                n == d * whole + rest,
                rest >= 0,
                whole >= low,
                d > 0,
        ;
    }
}

/// Rounding keeps to its side of every double: `x` steps of `s` doublings each.
pub proof fn rounding_is_monotone(n: nat, d: nat, x: nat, s: nat)
    requires
        d > 0,
        x <= two(53),
    ensures
        n * one() >= x * two(s) * d ==> rounded(n, d) >= x * two(s),
        n * one() <= x * two(s) * d ==> rounded(n, d) <= x * two(s),
{
    reveal(rounded);
    let a = n * one();
    let c = coarseness(a / d);
    let step = two(c);
    let mark = x * two(s);
    two_is_positive(c);
    two_is_positive(s);
    assert(d * step > 0) by (nonlinear_arith)
        requires
            d > 0,
            step > 0,
    ;
    coarse_is_large(a, d);
    let r = half_even(a, d * step);
    if c <= s {
        let k = x * two((s - c) as nat);
        two_adds_up((s - c) as nat, c);
        let t = two((s - c) as nat);
        assert(k * step == mark) by (nonlinear_arith)
            requires
                k == x * t,
                two(s) == t * step,
                mark == x * two(s),
        ;
        assert(k * (d * step) == mark * d) by (nonlinear_arith)
            requires
                k * step == mark,
        ;
        half_even_bounds(a, d * step, k);
        if a >= mark * d {
            assert(r * step >= mark) by (nonlinear_arith)
                requires
                    r >= k,
                    k * step == mark,
            ;
        }
        if a <= mark * d {
            assert(r * step <= mark) by (nonlinear_arith)
                requires
                    r <= k,
                    k * step == mark,
            ;
        }
    } else {
        two_grows((53 + s) as nat, (52 + c) as nat);
        two_adds_up(53, s);
        two_adds_up(52, c);
        let low = two(52 + c);
        assert(mark <= low) by (nonlinear_arith)
            requires
                mark == x * two(s),
                x <= two(53),
                two(53 + s) == two(53) * two(s),
                two((53 + s) as nat) <= low,
        ;
        assert(two(52) * (d * step) == low * d) by (nonlinear_arith)
            requires
                low == two(52) * step,
        ;
        half_even_bounds(a, d * step, two(52));
        assert(r * step >= low) by (nonlinear_arith)
            requires
                r >= two(52),
                low == two(52) * step,
        ;
        if a <= mark * d {
            assert(mark * d <= low * d) by (nonlinear_arith)
                requires
                    mark <= low,
            ;
            assert(mark == low) by (nonlinear_arith)
                requires
                    mark * d >= low * d,
                    mark <= low,
                    d > 0,
            ;
            assert(r * step <= low) by (nonlinear_arith)
                requires
                    r <= two(52),
                    low == two(52) * step,
            ;
        }
    }
}

/// A quotient rounds to a double of `x` steps or past it from half a step below
/// it on, where the steps below it are as long as that.
pub proof fn rounding_reaches(n: nat, d: nat, x: nat, s: nat)
    requires
        d > 0,
        two(52) < x <= two(53),
        x % 2 == 0,
    ensures
        rounded(n, d) >= x * two(s) <==> 2 * (n * one()) >= (2 * x - 1) * (d * two(s)),
{
    reveal(rounded);
    let a = n * one();
    let c = coarseness(a / d);
    let mark = x * two(s);
    let unit = d * two(s);
    two_is_positive(s);
    two_is_positive(52);
    assert(unit > 0) by (nonlinear_arith)
        requires
            unit == d * two(s),
            d > 0,
            two(s) > 0,
    ;
    assert(mark * d == x * unit) by (nonlinear_arith)
        requires
            mark == x * two(s),
            unit == d * two(s),
    ;
    coarse_is_large(a, d);
    if c == s {
        half_even_reaches(a, unit, x);
        let r = half_even(a, unit);
        assert(r * two(s) >= x * two(s) <==> r >= x) by (nonlinear_arith)
            requires
                two(s) > 0,
        ;
    } else if c > s {
        // The quotient is past the mark.
        two_grows((53 + s) as nat, (52 + c) as nat);
        two_adds_up(53, s);
        assert(x * unit <= two(53 + s) * d) by (nonlinear_arith)
            requires
                x <= two(53),
                unit == d * two(s),
                two(53 + s) == two(53) * two(s),
        ;
        assert(two(53 + s) * d <= two(52 + c) * d) by (nonlinear_arith)
            requires
                two((53 + s) as nat) <= two((52 + c) as nat),
        ;
        rounding_is_monotone(n, d, x, s);
        assert((2 * x - 1) * unit == 2 * (x * unit) - unit) by (nonlinear_arith);
    } else {
        // The quotient is below every double with steps as long.
        two_grows((53 + c) as nat, (52 + s) as nat);
        two_adds_up(52, s);
        let low = two(52);
        assert(two(53 + c) * d <= low * unit) by (nonlinear_arith)
            requires
                two((53 + c) as nat) <= two((52 + s) as nat),
                two(52 + s) == low * two(s),
                unit == d * two(s),
        ;
        assert(low * two(s) * d == low * unit) by (nonlinear_arith)
            requires
                unit == d * two(s),
        ;
        two_grows(52, 53);
        rounding_is_monotone(n, d, low, s);
        assert(low * two(s) < x * two(s)) by (nonlinear_arith)
            requires
                low < x,
                two(s) > 0,
        ;
        assert(2 * (low * unit) <= (2 * x - 1) * unit) by (nonlinear_arith)
            requires
                low < x,
                unit > 0,
        ;
    }
}

/// What rounds to nothing: half of the smallest double and less.
pub proof fn rounding_to_nothing(n: nat, d: nat)
    requires
        d > 0,
    ensures
        rounded(n, d) == 0 <==> 2 * (n * one()) <= d,
{
    reveal(half_even);
    reveal(rounded);
    let a = n * one();
    let whole = a / d;
    let rest = a % d;
    lemma_fundamental_div_mod(a as int, d as int);
    assert(a == d * whole + rest);
    if whole == 0 {
        assert(d * whole == 0) by (nonlinear_arith)
            requires
                whole == 0,
        ;
        assert(bits(whole) == 0);
        assert(two(0) == 1);
        assert(d * 1 == d);
        assert(half_even(a, d) * 1 == half_even(a, d));
    } else {
        assert(a >= d) by (nonlinear_arith)
            requires
                a == d * whole + rest,
                whole >= 1,
                rest >= 0,
        ;
        assert(1 * two(0) * d == d) by (nonlinear_arith)
            requires
                two(0) == 1,
        ;
        two_grows(0, 53);
        rounding_is_monotone(n, d, 1, 0);
        assert(1 * two(0) == 1) by (nonlinear_arith)
            requires
                two(0) == 1,
        ;
    }
}

/// A number between two powers of two has the digits of the greater.
proof fn bits_between(n: nat, k: nat)
    requires
        two(k) <= n < two(k + 1),
    ensures
        bits(n) == k + 1,
{
    bits_bound(n);
    two_is_positive(k);
    if bits(n) <= k {
        two_grows(bits(n), k);
    } else if bits(n) > k + 1 {
        two_grows(k + 1, (bits(n) - 1) as nat);
    }
}

/// A quotient between two powers of two rounds to a whole number of the steps
/// that lie between them.
pub proof fn rounding_takes_steps(n: nat, d: nat, s: nat)
    requires
        d > 0,
        two(52 + s) * d <= n * one() < two(53 + s) * d,
    ensures
        rounded(n, d) == half_even(n * one(), d * two(s)) * two(s),
{
    reveal(rounded);
    let a = n * one();
    let whole = a / d;
    let rest = a % d;
    lemma_fundamental_div_mod(a as int, d as int);
    assert(a == d * whole + rest);
    assert(rest < d);
    let low = two(52 + s);
    let top = two(53 + s);
    assert(low <= whole) by (nonlinear_arith)
        requires
            low * d <= a,
            a == d * whole + rest,
            rest < d,
    ;
    assert(whole < top) by (nonlinear_arith)
        requires
            a < top * d,
            a == d * whole + rest,
            rest >= 0,
    ;
    bits_between(whole, 52 + s);
}

/// A quotient rounds the same, however its two sides are multiplied.
pub proof fn half_even_scales(n: nat, d: nat, c: nat)
    requires
        d > 0,
        c > 0,
    ensures
        half_even(n * c, d * c) == half_even(n, d),
{
    reveal(half_even);
    let whole = n / d;
    let rest = n % d;
    lemma_fundamental_div_mod(n as int, d as int);
    assert(n == d * whole + rest);
    assert(n * c == whole * (d * c) + rest * c) by (nonlinear_arith)
        requires
            n == d * whole + rest,
    ;
    assert(0 <= rest * c < d * c) by (nonlinear_arith)
        requires
            0 <= rest < d,
            c > 0,
    ;
    assert(d * c > 0);
    lemma_fundamental_div_mod_converse(
        (n * c) as int,
        (d * c) as int,
        whole as int,
        (rest * c) as int,
    );
    assert(2 * (rest * c) < d * c <==> 2 * rest < d) by (nonlinear_arith)
        requires
            c > 0,
    ;
    assert(2 * (rest * c) > d * c <==> 2 * rest > d) by (nonlinear_arith)
        requires
            c > 0,
    ;
}

/// The whole number nearest to a quotient, an even one where two are as near.
pub fn round_half_even(n: u128, d: u128) -> (r: u128)
    requires
        d > 0,
        n <= u128::MAX / 2,
        d <= u128::MAX / 2,
    ensures
        r == half_even(n as nat, d as nat),
{
    let whole: u128 = n / d;
    let rest: u128 = n % d;
    proof {
        reveal(half_even);
        lemma_fundamental_div_mod(n as int, d as int);
        assert(whole <= n) by (nonlinear_arith)
            requires
                n == d * whole + rest,
                d >= 1,
                rest >= 0,
        ;
    }
    if 2 * rest < d {
        whole
    } else if 2 * rest > d {
        whole + 1
    } else {
        whole + whole % 2
    }
}

/// The bits of infinity.
pub const INFINITY: u64 = 0x7ff0_0000_0000_0000;

/// The bit that is set for a negative double.
pub const SIGN: u64 = 0x8000_0000_0000_0000;

/// The bits of a double without its sign.
pub open spec fn magnitude(bits: u64) -> u64 {
    if bits >= SIGN {
        (bits - SIGN) as u64
    } else {
        bits
    }
}

/// Whether two doubles are equal, by their bits: one that is not a number is
/// equal to none, itself included, and the two zeros are equal.
pub open spec fn equal(one: u64, other: u64) -> bool {
    &&& magnitude(one) <= INFINITY
    &&& magnitude(other) <= INFINITY
    &&& one == other || (magnitude(one) == 0 && magnitude(other) == 0)
}

/// The bits of a double without its sign.
fn unsigned(bits: u64) -> (r: u64)
    ensures
        r == magnitude(bits),
{
    if bits >= SIGN {
        bits - SIGN
    } else {
        bits
    }
}

/// Whether two doubles are equal, by their bits.
pub fn equals(one: u64, other: u64) -> (r: bool)
    ensures
        r == equal(one, other),
{
    unsigned(one) <= INFINITY && unsigned(other) <= INFINITY && (one == other || (unsigned(one)
        == 0 && unsigned(other) == 0))
}

/// Doubles are equal by what they stand for: those with the same bits, unless
/// they are not numbers, and the two zeros. Numbers have bits up to those of
/// infinity, with the topmost for a minus or without it.
pub proof fn doubles_are_equal_by_value(a: u64, b: u64)
    ensures
        equal(a, b) == equal(b, a),
        a <= 0x7ff0_0000_0000_0000 ==> equal(a, a),
        0x8000_0000_0000_0000 <= a <= 0xfff0_0000_0000_0000 ==> equal(a, a),
        0x7ff0_0000_0000_0000 < a < 0x8000_0000_0000_0000 ==> !equal(a, b),
        0xfff0_0000_0000_0000 < a ==> !equal(a, b),
        equal(0, 0x8000_0000_0000_0000),
        equal(a, b) && a != b ==> (a == 0 && b == 0x8000_0000_0000_0000) || (b == 0 && a
            == 0x8000_0000_0000_0000),
{
}

/// A power of two is the twos it is made of, and a double counts in the smallest
/// of them, of which there are two to the 1074th to one.
pub proof fn powers_of_two(n: nat)
    ensures
        two(0) == 1,
        two(n + 1) == two(n) + two(n),
        one() == two(1074),
{
}

/// The whole number nearest to a quotient: no other is nearer, and where another
/// is as near this is the even one.
pub proof fn the_nearest_whole_number(n: nat, d: nat, other: nat)
    requires
        d > 0,
    ensures
        ({
            let gap = |k: nat|
                if k * d >= n {
                    k * d - n
                } else {
                    n - k * d
                };
            &&& gap(half_even(n, d)) <= gap(other)
            &&& gap(half_even(n, d)) == gap(other) && other != half_even(n, d) ==> half_even(n, d)
                % 2 == 0
        }),
{
    reveal(half_even);
    let whole = n / d;
    let rest = n % d;
    lemma_fundamental_div_mod(n as int, d as int);
    assert(n == d * whole + rest);
    assert(whole * d == d * whole && (whole + 1) * d == d * whole + d) by (nonlinear_arith);
    if other < whole {
        assert(other * d <= d * whole - d) by (nonlinear_arith)
            requires
                other + 1 <= whole,
        ;
    } else if other > whole + 1 {
        assert(other * d >= d * whole + 2 * d) by (nonlinear_arith)
            requires
                other >= whole + 2,
        ;
    }
}

} // verus!
