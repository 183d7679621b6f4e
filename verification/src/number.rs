//! Reading the numbers people write in a configuration.

use crate::double::{
    bits, bits_bound, bounds_of_steps, one, rounded, rounding_is_monotone, rounding_reaches,
    rounding_to_nothing, two, two_adds_up, two_grows, two_is_positive,
};
use crate::text::{find, first_at, first_at_is_first, part, spells};
use vstd::arithmetic::div_mod::{lemma_fundamental_div_mod, lemma_fundamental_div_mod_converse};
use vstd::prelude::*;

verus! {

/// The first number past the largest coordinate.
const PAST: i128 = 0x8000_0000;

/// An exponent that outweighs any number of digits.
const HUGE: i128 = 0x1_0000_0000_0000_0000_0000;

/// Whether a character is a decimal digit.
pub open spec fn is_digit(c: char) -> bool {
    '0' <= c <= '9'
}

/// The number a digit stands for.
pub open spec fn digit(c: char) -> nat {
    (c as u32 - 48) as nat
}

/// Whether there is nothing but digits in a text.
pub open spec fn all_digits(text: Seq<char>) -> bool {
    forall|i: int| 0 <= i < text.len() ==> is_digit(#[trigger] text[i])
}

/// The number a run of digits stands for.
pub open spec fn value(text: Seq<char>) -> nat
    decreases text.len(),
{
    if text.len() == 0 {
        0
    } else {
        value(text.drop_last()) * 10 + digit(text.last())
    }
}

/// A power of ten.
pub open spec fn ten(n: nat) -> nat
    decreases n,
{
    if n == 0 {
        1
    } else {
        10 * ten((n - 1) as nat)
    }
}

/// A text without the plus or the minus sign in front of it.
pub open spec fn unsigned(text: Seq<char>) -> Seq<char> {
    if text.len() > 0 && (text[0] == '+' || text[0] == '-') {
        text.drop_first()
    } else {
        text
    }
}

/// Whether a text begins with a minus sign.
pub open spec fn negative(text: Seq<char>) -> bool {
    text.len() > 0 && text[0] == '-'
}

/// The whole number from one up to the largest coordinate that a text spells:
/// digits, with a plus sign in front of them or not.
pub open spec fn positive(text: Seq<char>) -> Option<i32> {
    let body = unsigned(text);
    if !negative(text) && body.len() > 0 && all_digits(body) && 1 <= value(body) <= i32::MAX {
        Some(value(body) as i32)
    } else {
        None
    }
}

proof fn ten_is_positive(n: nat)
    ensures
        ten(n) >= 1,
        n >= 1 ==> ten(n) >= 10,
        n >= 10 ==> ten(n) >= 10_000_000_000,
    decreases n,
{
    if n > 0 {
        ten_is_positive((n - 1) as nat);
    }
    if n >= 10 {
        reveal_with_fuel(ten, 11);
        ten_grows(10, n);
    }
}

proof fn ten_grows(n: nat, m: nat)
    requires
        n <= m,
    ensures
        ten(n) <= ten(m),
    decreases m,
{
    if n < m {
        ten_grows(n, (m - 1) as nat);
    }
}

/// A run of digits is worth its front shifted past its back, and its back.
proof fn value_splits(text: Seq<char>, at: int)
    requires
        0 <= at <= text.len(),
    ensures
        value(text) == value(text.subrange(0, at)) * ten((text.len() - at) as nat) + value(
            text.subrange(at, text.len() as int),
        ),
    decreases text.len(),
{
    let len = text.len() as int;
    if at == len {
        assert(text.subrange(0, at) =~= text);
        assert(text.subrange(at, len) =~= Seq::<char>::empty());
        assert(ten(0) == 1);
        assert(value(text) * 1 == value(text)) by (nonlinear_arith);
    } else {
        let short = text.drop_last();
        value_splits(short, at);
        assert(short.subrange(0, at) =~= text.subrange(0, at));
        assert(text.subrange(at, len).drop_last() =~= short.subrange(at, len - 1));
        let front = value(text.subrange(0, at));
        let shift = ten((len - 1 - at) as nat);
        assert(front * (10 * shift) == (front * shift) * 10) by (nonlinear_arith);
    }
}

/// Digits are worth less than the power of ten that there are of them.
proof fn value_is_below(text: Seq<char>)
    requires
        all_digits(text),
    ensures
        value(text) < ten(text.len()),
    decreases text.len(),
{
    if text.len() > 0 {
        let short = text.drop_last();
        assert forall|i: int| 0 <= i < short.len() implies is_digit(#[trigger] short[i]) by {
            assert(short[i] == text[i]);
        }
        value_is_below(short);
        assert(is_digit(text[text.len() - 1]));
    }
}

/// A character is a digit: which one.
fn digit_of(c: char) -> (d: Option<i128>)
    ensures
        match d {
            Some(d) => is_digit(c) && d == digit(c) && 0 <= d <= 9,
            None => !is_digit(c),
        },
{
    if '0' <= c && c <= '9' {
        Some(c as u32 as i128 - 48)
    } else {
        None
    }
}

/// Whether there is nothing but digits from one place to another.
fn digits_only(letters: &Vec<char>, from: usize) -> (r: bool)
    requires
        from <= letters.len(),
    ensures
        r == all_digits(letters@.subrange(from as int, letters.len() as int)),
{
    let ghost body = letters@.subrange(from as int, letters.len() as int);
    let mut i: usize = from;
    while i < letters.len()
        invariant
            from <= i <= letters.len(),
            body == letters@.subrange(from as int, letters.len() as int),
            forall|k: int| 0 <= k < i - from ==> is_digit(#[trigger] body[k]),
        decreases letters.len() - i,
    {
        assert(body[i - from] == letters@[i as int]);
        if digit_of(letters[i]).is_none() {
            return false;
        }
        i = i + 1;
    }
    true
}

/// The number some digits stand for, and `top` for any number past `top`.
fn value_up_to(letters: &Vec<char>, from: usize, to: usize, top: i128) -> (n: i128)
    requires
        from <= to <= letters.len(),
        all_digits(letters@.subrange(from as int, to as int)),
        0 <= top <= i128::MAX / 16,
    ensures
        n == if value(letters@.subrange(from as int, to as int)) < top {
            value(letters@.subrange(from as int, to as int)) as int
        } else {
            top as int
        },
{
    let ghost body = letters@.subrange(from as int, to as int);
    let mut n: i128 = 0;
    let mut i: usize = from;
    assert(body.subrange(0, 0) =~= Seq::<char>::empty());
    while i < to
        invariant
            from <= i <= to <= letters.len(),
            body == letters@.subrange(from as int, to as int),
            all_digits(body),
            0 <= n <= top <= i128::MAX / 16,
            n == if value(body.subrange(0, i - from)) < top {
                value(body.subrange(0, i - from)) as int
            } else {
                top as int
            },
        decreases to - i,
    {
        let ghost k = i - from;
        assert(body[k] == letters@[i as int]);
        assert(body.subrange(0, k + 1).drop_last() =~= body.subrange(0, k));
        assert(is_digit(body[k]));
        match digit_of(letters[i]) {
            Some(d) => {
                let next: i128 = n * 10 + d;
                n = if next < top {
                    next
                } else {
                    top
                };
            },
            None => {
                assert(false);
            },
        }
        i = i + 1;
    }
    assert(body.subrange(0, to - from) =~= body);
    n
}

/// Read a whole number from one up to the largest coordinate.
pub fn positive_of(letters: &Vec<char>) -> (n: Option<i32>)
    ensures
        n == positive(letters@),
{
    let mut from: usize = 0;
    if letters.len() > 0 && letters[0] == '-' {
        return None;
    }
    if letters.len() > 0 && letters[0] == '+' {
        from = 1;
    }
    let ghost body = letters@.subrange(from as int, letters.len() as int);
    assert(body =~= unsigned(letters@));
    if from == letters.len() || !digits_only(letters, from) {
        return None;
    }
    let n: i128 = value_up_to(letters, from, letters.len(), PAST);
    if 1 <= n && n < PAST {
        Some(n as i32)
    } else {
        None
    }
}

/// The digits of a decimal number, whole and fraction together: the text with
/// its point taken out.
pub open spec fn mantissa(text: Seq<char>) -> Seq<char> {
    match first_at(text, '.') {
        Some(point) => text.subrange(0, point) + text.subrange(point + 1, text.len() as int),
        None => text,
    }
}

/// How many of those digits stand before the point.
pub open spec fn whole_digits(text: Seq<char>) -> int {
    match first_at(text, '.') {
        Some(point) => point,
        None => text.len() as int,
    }
}

/// The part of a number in front of its exponent.
pub open spec fn before_exponent(text: Seq<char>) -> Seq<char> {
    match first_at(text, 'e') {
        Some(e) => text.subrange(0, e),
        None => text,
    }
}

/// The exponent of a number that has one.
pub open spec fn exponent_text(text: Seq<char>) -> Option<Seq<char>> {
    match first_at(text, 'e') {
        Some(e) => Some(text.subrange(e + 1, text.len() as int)),
        None => None,
    }
}

/// Whether an exponent is one: digits, with a sign or without.
pub open spec fn exponent_reads(exponent: Option<Seq<char>>) -> bool {
    match exponent {
        Some(text) => unsigned(text).len() > 0 && all_digits(unsigned(text)),
        None => true,
    }
}

/// The power of ten an exponent stands for.
pub open spec fn exponent(exponent: Option<Seq<char>>) -> int {
    match exponent {
        Some(text) => if negative(text) {
            -(value(unsigned(text)) as int)
        } else {
            value(unsigned(text)) as int
        },
        None => 0,
    }
}

/// Whether a text without a sign is a decimal number: digits with at most one
/// point among them or around them, and an exponent or none.
pub open spec fn is_decimal(text: Seq<char>) -> bool {
    let digits = mantissa(before_exponent(text));
    digits.len() > 0 && all_digits(digits) && exponent_reads(exponent_text(text))
}

/// How far behind the first digit of a decimal number its point stands, once
/// the exponent has moved it.
pub open spec fn point(text: Seq<char>) -> int {
    whole_digits(before_exponent(text)) + exponent(exponent_text(text))
}

/// The double that `digits` with a point behind the first `at` of them are read
/// as: the one nearest to what they stand for.
pub open spec fn reading(digits: Seq<char>, at: int) -> nat {
    if at >= digits.len() {
        rounded(value(digits) * ten((at - digits.len()) as nat), 1)
    } else {
        rounded(value(digits), ten((digits.len() - at) as nat))
    }
}

/// The whole number nearest to a double, halves going up.
pub open spec fn nearest_whole(double: nat) -> nat {
    (2 * double + one()) / (2 * one())
}

/// The rate in whole hertz that a text spells: the whole number nearest to the
/// double that a decimal number is read as, if that is above nothing, the
/// largest coordinate for one past it or for infinity, and zero for what is not
/// a number.
pub open spec fn rate(text: Seq<char>) -> Option<i32> {
    let body = unsigned(text);
    if body == "nan"@ {
        Some(0)
    } else if negative(text) {
        None
    } else if body == "inf"@ || body == "infinity"@ {
        Some(i32::MAX)
    } else if !is_decimal(body) {
        None
    } else {
        whole_rate(reading(mantissa(before_exponent(body)), point(body)))
    }
}

/// The whole rate of one that was read as a double.
pub open spec fn whole_rate(double: nat) -> Option<i32> {
    if double == 0 {
        None
    } else if nearest_whole(double) <= i32::MAX {
        Some(nearest_whole(double) as i32)
    } else {
        Some(i32::MAX)
    }
}

/// A double from one whole number and a half to the next.
proof fn whole_of(double: nat, w: nat)
    requires
        (2 * w) * one() <= 2 * double + one() < (2 * w + 2) * one(),
    ensures
        nearest_whole(double) == w,
{
    two_is_positive(1074);
    let a = (2 * double + one()) as int;
    let unit = (2 * one()) as int;
    let rest = a - w * unit;
    assert(w * unit == (2 * w) * one()) by (nonlinear_arith)
        requires
            unit == 2 * one(),
    ;
    assert((2 * w + 2) * one() == (2 * w) * one() + 2 * one()) by (nonlinear_arith);
    lemma_fundamental_div_mod_converse(a, unit, w as int, rest);
}

/// A double from some whole number on.
proof fn whole_is_at_least(double: nat, w: nat)
    requires
        double >= w * one(),
    ensures
        nearest_whole(double) >= w,
{
    two_is_positive(1074);
    let a = (2 * double + one()) as int;
    let unit = (2 * one()) as int;
    lemma_fundamental_div_mod(a, unit);
    let q = a / unit;
    let rest = a % unit;
    assert(q >= w) by (nonlinear_arith)
        requires
            a == unit * q + rest,
            rest < unit,
            a == 2 * double + one(),
            unit == 2 * one(),
            double >= w * one(),
            one() > 0,
    ;
}

/// The digit that stands for a number.
fn letter(d: i128) -> (c: char)
    requires
        0 <= d <= 9,
    ensures
        is_digit(c),
        digit(c) == d,
{
    if d == 0 {
        '0'
    } else if d == 1 {
        '1'
    } else if d == 2 {
        '2'
    } else if d == 3 {
        '3'
    } else if d == 4 {
        '4'
    } else if d == 5 {
        '5'
    } else if d == 6 {
        '6'
    } else if d == 7 {
        '7'
    } else if d == 8 {
        '8'
    } else {
        '9'
    }
}

/// What one digit in front of others is worth.
proof fn value_of_first(text: Seq<char>)
    requires
        text.len() > 0,
    ensures
        value(text) == digit(text[0]) * ten((text.len() - 1) as nat) + value(text.drop_first()),
{
    value_splits(text, 1);
    let first = text.subrange(0, 1);
    assert(first.drop_last() =~= Seq::<char>::empty());
    assert(value(first.drop_last()) == 0);
    assert(text.subrange(1, text.len() as int) =~= text.drop_first());
}

/// Digits for twice as much.
fn doubled(digits: &Vec<char>) -> (twice: Vec<char>)
    requires
        all_digits(digits@),
    ensures
        all_digits(twice@),
        value(twice@) == 2 * value(digits@),
        twice.len() >= digits.len(),
{
    let mut twice = part(digits, 0, digits.len());
    assert(twice@ =~= digits@);
    let len: usize = digits.len();
    let mut i: usize = len;
    let mut carry: i128 = 0;
    assert(digits@.skip(len as int) =~= Seq::<char>::empty());
    assert(twice@.skip(len as int) =~= Seq::<char>::empty());
    assert(ten(0) == 1);
    while i > 0
        invariant
            i <= len == digits.len() == twice.len(),
            all_digits(digits@),
            all_digits(twice@),
            0 <= carry <= 1,
            forall|k: int| 0 <= k < i ==> twice@[k] == #[trigger] digits@[k],
            value(twice@.skip(i as int)) + carry * ten((len - i) as nat) == 2 * value(
                digits@.skip(i as int),
            ),
        decreases i,
    {
        i = i - 1;
        assert(is_digit(digits@[i as int]));
        let d: i128 = match digit_of(digits[i]) {
            Some(d) => d,
            None => 0,
        };
        let sum: i128 = 2 * d + carry;
        let over: i128 = if sum >= 10 {
            1
        } else {
            0
        };
        let ghost before = twice@;
        let c = letter(sum - 10 * over);
        twice.set(i, c);
        proof {
            let old_tail = before.skip(i + 1);
            let unit = ten((len - i - 1) as nat);
            assert(twice@.skip(i as int).drop_first() =~= old_tail);
            assert(digits@.skip(i as int).drop_first() =~= digits@.skip(i + 1));
            value_of_first(twice@.skip(i as int));
            value_of_first(digits@.skip(i as int));
            assert(ten((len - i) as nat) == 10 * unit);
            let was = value(old_tail);
            let of = value(digits@.skip(i + 1));
            let got = digit(c);
            assert(got * unit + was + over * (10 * unit) == 2 * (d * unit + of)) by (nonlinear_arith)
                requires
                    was + carry * unit == 2 * of,
                    got == 2 * d + carry - 10 * over,
            ;
        }
        carry = over;
    }
    assert(digits@.skip(0) =~= digits@);
    assert(twice@.skip(0) =~= twice@);
    if carry == 1 {
        let ghost all = twice@;
        twice.insert(0, '1');
        proof {
            assert(twice@.drop_first() =~= all);
            value_of_first(twice@);
            assert(digit('1') == 1);
        }
    }
    twice
}

/// Digits for as much as some doublings come to.
fn doublings(digits: &Vec<char>, times: usize) -> (more: Vec<char>)
    requires
        all_digits(digits@),
    ensures
        all_digits(more@),
        value(more@) == value(digits@) * two(times as nat),
        more.len() >= digits.len(),
{
    let mut more = part(digits, 0, digits.len());
    assert(more@ =~= digits@);
    assert(two(0) == 1);
    assert(value(digits@) * 1 == value(digits@));
    let mut i: usize = 0;
    while i < times
        invariant
            i <= times,
            all_digits(more@),
            value(more@) == value(digits@) * two(i as nat),
            more.len() >= digits.len(),
        decreases times - i,
    {
        proof {
            let v = value(digits@);
            let t = two(i as nat);
            assert(v * (2 * t) == 2 * (v * t)) by (nonlinear_arith);
        }
        more = doubled(&more);
        i = i + 1;
    }
    more
}

/// Whether a power of ten goes into what some digits stand for `n` times.
pub open spec fn goes_in(digits: Seq<char>, behind: nat, n: nat) -> bool {
    value(digits) >= n * ten(behind)
}

/// The part of some digits in front of the last `behind` of them, where there
/// is one, is how often the power of ten goes into what they stand for.
proof fn front_is_a_quotient(digits: Seq<char>, behind: nat, n: nat)
    requires
        all_digits(digits),
    ensures
        digits.len() <= behind ==> value(digits) < ten(behind),
        digits.len() >= behind ==> (value(digits) >= n * ten(behind) <==> value(
            digits.subrange(0, digits.len() - behind),
        ) >= n),
{
    if digits.len() <= behind {
        value_is_below(digits);
        ten_grows(digits.len(), behind);
    }
    if digits.len() >= behind {
        let at = digits.len() - behind;
        let back = digits.subrange(at, digits.len() as int);
        value_splits(digits, at);
        assert(all_digits(back)) by {
            assert forall|i: int| 0 <= i < back.len() implies is_digit(#[trigger] back[i]) by {
                assert(back[i] == digits[at + i]);
            }
        }
        value_is_below(back);
        let all = value(digits);
        let front = value(digits.subrange(0, at));
        let unit = ten(behind);
        let low = value(back);
        assert(all >= n * unit <==> front >= n) by (nonlinear_arith)
            requires
                all == front * unit + low,
                0 <= low < unit,
        ;
    }
}

/// How often a power of ten goes into what some digits stand for, and `top` for
/// any number past `top`.
fn whole_part(digits: &Vec<char>, behind: i128, top: i128) -> (n: i128)
    requires
        all_digits(digits@),
        behind >= 0,
        0 <= top <= i128::MAX / 16,
    ensures
        0 <= n <= top,
        forall|k: nat|
            k <= top ==> (n >= k <==> #[trigger] goes_in(digits@, behind as nat, k)),
{
    let len: i128 = digits.len() as i128;
    proof {
        assert forall|k: nat| k <= top && behind >= len implies (0 >= k <==> #[trigger] goes_in(
            digits@,
            behind as nat,
            k,
        )) by {
            front_is_a_quotient(digits@, behind as nat, k);
            let unit = ten(behind as nat);
            if k >= 1 {
                assert(k * unit >= unit) by (nonlinear_arith)
                    requires
                        k >= 1,
                ;
            } else {
                assert(k * unit == 0) by (nonlinear_arith)
                    requires
                        k == 0,
                ;
            }
        }
    }
    if behind >= len {
        return 0;
    }
    let at: usize = (len - behind) as usize;
    let ghost front = digits@.subrange(0, at as int);
    assert(all_digits(front)) by {
        assert forall|i: int| 0 <= i < front.len() implies is_digit(#[trigger] front[i]) by {
            assert(front[i] == digits@[i]);
        }
    }
    let n: i128 = value_up_to(digits, 0, at, top);
    proof {
        assert forall|k: nat| k <= top implies (n >= k <==> #[trigger] goes_in(
            digits@,
            behind as nat,
            k,
        )) by {
            front_is_a_quotient(digits@, behind as nat, k);
        }
    }
    n
}

/// Zeros are read as nothing, wherever their point is.
proof fn nothing_is_read_as_nothing(digits: Seq<char>, at: int)
    requires
        value(digits) == 0,
    ensures
        reading(digits, at) == 0,
{
    if at >= digits.len() {
        let unit = ten((at - digits.len()) as nat);
        assert(0 * unit == 0);
        assert(0 * one() == 0);
        rounding_to_nothing(0, 1);
    } else {
        ten_is_positive((digits.len() - at) as nat);
        assert(0 * one() == 0);
        rounding_to_nothing(0, ten((digits.len() - at) as nat));
    }
}

/// Digits with their point far in front of them are read as nothing.
proof fn a_far_point_leaves_nothing(digits: Seq<char>, at: int)
    requires
        all_digits(digits),
        at <= -1075,
    ensures
        reading(digits, at) == 0,
{
    let len = digits.len();
    let f = (len - at) as nat;
    value_is_below(digits);
    ten_grows(len + 1075, f);
    ten_outgrows_two(len, 1075);
    let all = value(digits);
    let t = two(1075);
    two_is_positive(1075);
    assert(all * t <= ten(len) * t) by (nonlinear_arith)
        requires
            all <= ten(len),
    ;
    assert(2 * (all * one()) == all * t) by (nonlinear_arith)
        requires
            t == 2 * one(),
    ;
    ten_is_positive(f);
    rounding_to_nothing(all, ten(f));
}

/// Tens multiply up at least as fast as twos.
proof fn ten_outgrows_two(n: nat, m: nat)
    ensures
        ten(n) * two(m) <= ten(n + m),
    decreases m,
{
    if m == 0 {
        assert(ten(n) * two(0) == ten(n)) by (nonlinear_arith)
            requires
                two(0) == 1,
        ;
    } else {
        ten_outgrows_two(n, (m - 1) as nat);
        let a = ten(n);
        let t = two((m - 1) as nat);
        assert(a * (2 * t) == 2 * (a * t)) by (nonlinear_arith);
        assert(ten(n + m) == 10 * ten((n + m - 1) as nat));
    }
}

/// Digits with their point well behind them, worth something, are read as a
/// number past every coordinate.
proof fn a_late_point_is_past_everything(digits: Seq<char>, at: int)
    requires
        value(digits) >= 1,
        at >= digits.len() + 10,
    ensures
        whole_rate(reading(digits, at)) == Some(i32::MAX),
{
    let shift = ten((at - digits.len()) as nat);
    let all = value(digits);
    ten_is_positive((at - digits.len()) as nat);
    assert(all * shift >= shift) by (nonlinear_arith)
        requires
            all >= 1,
            shift >= 1,
    ;
    past_every_coordinate(all * shift, 1);
}

/// A quotient past every coordinate is read as such.
proof fn past_every_coordinate(n: nat, d: nat)
    requires
        d > 0,
        n >= PAST * d,
    ensures
        whole_rate(rounded(n, d)) == Some(i32::MAX),
{
    two_is_positive(1074);
    bounds_of_steps();
    assert(n * one() >= PAST * one() * d) by (nonlinear_arith)
        requires
            n >= PAST * d,
    ;
    rounding_is_monotone(n, d, PAST as nat, 1074);
    whole_is_at_least(rounded(n, d), PAST as nat);
    assert(rounded(n, d) > 0) by (nonlinear_arith)
        requires
            rounded(n, d) >= PAST * one(),
            one() > 0,
    ;
}

/// A whole number is read as itself.
proof fn a_whole_number_is_itself(n: nat)
    requires
        1 <= n < PAST,
    ensures
        whole_rate(rounded(n, 1)) == Some(n as i32),
{
    two_is_positive(1074);
    bounds_of_steps();
    rounding_is_monotone(n, 1, n, 1074);
    let r = rounded(n, 1);
    assert(r == n * one());
    assert((2 * n) * one() == 2 * r && (2 * n + 2) * one() == 2 * r + 2 * one()) by (nonlinear_arith)
        requires
            r == n * one(),
    ;
    assert(r > 0) by (nonlinear_arith)
        requires
            r == n * one(),
            n >= 1,
            one() > 0,
    ;
    whole_of(r, n);
}

/// A quotient is read as half past a whole number, or more, from half a step
/// between doubles below that on.
proof fn half_way(n: nat, d: nat, w: nat, j: nat)
    requires
        d > 0,
        j <= 32,
        2 * w + 1 <= two(j),
        j > 0 ==> two((j - 1) as nat) < 2 * w + 1,
    ensures
        rounded(n, d) >= (2 * w + 1) * two(1073) <==> n * two((55 - j) as nat) >= ((2 * w + 1)
            * two((54 - j) as nat) - 1) * d,
{
    let odd = 2 * w + 1;
    let half = two(1073);
    let fine = two((53 - j) as nat);
    let finer = two((52 - j) as nat);
    let x = odd * fine;
    let s = (1020 + j) as nat;
    let far = two(s);
    let wide = two((55 - j) as nat);
    two_is_positive((53 - j) as nat);
    two_is_positive(s);
    two_adds_up((53 - j) as nat, s);
    assert(x * far == odd * half) by (nonlinear_arith)
        requires
            x == odd * fine,
            fine * far == half,
    ;
    two_adds_up(j, (53 - j) as nat);
    assert(x <= two(53)) by (nonlinear_arith)
        requires
            x == odd * fine,
            odd <= two(j),
            two(j) * fine == two(53),
    ;
    assert(x > two(52)) by {
        if j == 0 {
            assert(two(0) == 1 && two(53) == 2 * two(52));
            two_is_positive(52);
            assert(x == fine) by (nonlinear_arith)
                requires
                    x == odd * fine,
                    odd == 1,
            ;
        } else {
            two_adds_up((j - 1) as nat, (53 - j) as nat);
            assert(x > two(52)) by (nonlinear_arith)
                requires
                    x == odd * fine,
                    odd > two((j - 1) as nat),
                    two((j - 1) as nat) * fine == two(52),
                    fine > 0,
            ;
        }
    }
    assert(fine == 2 * finer);
    assert(x == 2 * (odd * finer)) by (nonlinear_arith)
        requires
            x == odd * fine,
            fine == 2 * finer,
    ;
    rounding_reaches(n, d, x, s);
    two_adds_up((55 - j) as nat, s);
    assert(two(1075) == 2 * one());
    let unit = one();
    assert(2 * (n * unit) == (n * wide) * far) by (nonlinear_arith)
        requires
            2 * unit == wide * far,
    ;
    let line = (2 * x - 1) as nat;
    assert(two((54 - j) as nat) == 2 * fine);
    assert(odd * (2 * fine) == 2 * x) by (nonlinear_arith)
        requires
            x == odd * fine,
    ;
    assert((n * wide) * far >= line * (d * far) <==> n * wide >= line * d) by (nonlinear_arith)
        requires
            far > 0,
    ;
}

/// A quotient between two whole numbers is read as a double between them.
proof fn stays_between(n: nat, d: nat, w: nat)
    requires
        d > 0,
        w < PAST,
        w * d <= n < (w + 1) * d,
    ensures
        w * one() <= rounded(n, d) <= (w + 1) * one(),
{
    let unit = one();
    bounds_of_steps();
    assert(n * unit >= w * unit * d) by (nonlinear_arith)
        requires
            w * d <= n,
    ;
    assert(n * unit <= (w + 1) * unit * d) by (nonlinear_arith)
        requires
            n <= (w + 1) * d,
    ;
    rounding_is_monotone(n, d, w, 1074);
    rounding_is_monotone(n, d, w + 1, 1074);
}

/// Between two whole numbers, a double is nearest to the greater from half way
/// on.
proof fn whole_by_half(double: nat, w: nat)
    requires
        w * one() <= double <= (w + 1) * one(),
    ensures
        nearest_whole(double) == if double >= (2 * w + 1) * two(1073) {
            w + 1
        } else {
            w
        },
{
    let unit = one();
    let half = two(1073);
    assert(unit == 2 * half);
    two_is_positive(1073);
    let low = w * unit;
    assert((w + 1) * unit == low + unit) by (nonlinear_arith)
        requires
            low == w * unit,
    ;
    assert((2 * w) * unit == 2 * low) by (nonlinear_arith)
        requires
            low == w * unit,
    ;
    assert((2 * w + 2) * unit == 2 * low + 2 * unit) by (nonlinear_arith)
        requires
            low == w * unit,
    ;
    assert((2 * (w + 1)) * unit == 2 * low + 2 * unit) by (nonlinear_arith)
        requires
            low == w * unit,
    ;
    assert((2 * (w + 1) + 2) * unit == 2 * low + 4 * unit) by (nonlinear_arith)
        requires
            low == w * unit,
    ;
    assert(2 * ((2 * w + 1) * half) == 2 * low + unit) by (nonlinear_arith)
        requires
            unit == 2 * half,
            low == w * unit,
    ;
    if double >= (2 * w + 1) * half {
        whole_of(double, w + 1);
    } else {
        whole_of(double, w);
    }
}

/// What a quotient between two whole numbers is read as: the greater from half
/// way on, and from half a step between doubles below that.
proof fn between_whole_numbers(n: nat, d: nat, w: nat, j: nat)
    requires
        d > 0,
        w < PAST,
        w * d <= n < (w + 1) * d,
        j <= 32,
        2 * w + 1 <= two(j),
        j > 0 ==> two((j - 1) as nat) < 2 * w + 1,
    ensures
        whole_rate(rounded(n, d)) == if n * two((55 - j) as nat) >= ((2 * w + 1) * two(
            (54 - j) as nat,
        ) - 1) * d {
            Some(
                if w + 1 < PAST {
                    (w + 1) as i32
                } else {
                    i32::MAX
                },
            )
        } else if 2 * (n * one()) <= d {
            None
        } else {
            Some(w as i32)
        },
{
    half_way(n, d, w, j);
    stays_between(n, d, w);
    whole_by_half(rounded(n, d), w);
    rounding_to_nothing(n, d);
    two_is_positive(1073);
    assert((2 * w + 1) * two(1073) > 0) by (nonlinear_arith)
        requires
            two(1073) > 0,
    ;
}

/// Whether what some digits stand for is no more than a power of ten.
fn below_or_at(digits: &Vec<char>, behind: i128) -> (r: bool)
    requires
        all_digits(digits@),
        behind >= 0,
    ensures
        r == (value(digits@) <= ten(behind as nat)),
{
    let n: i128 = whole_part(digits, behind, 2);
    let ghost unit = ten(behind as nat);
    proof {
        ten_is_positive(behind as nat);
        assert(goes_in(digits@, behind as nat, 1) <==> n >= 1);
        assert(goes_in(digits@, behind as nat, 2) <==> n >= 2);
        assert(1 * unit == unit);
    }
    if n == 0 {
        return true;
    }
    if n >= 2 {
        return false;
    }
    let len: usize = digits.len();
    if behind > len as i128 {
        proof {
            front_is_a_quotient(digits@, behind as nat, 1);
        }
        return true;
    }
    let at: usize = len - behind as usize;
    let ghost back = digits@.subrange(at as int, len as int);
    proof {
        value_splits(digits@, at as int);
        front_is_a_quotient(digits@, behind as nat, 1);
        front_is_a_quotient(digits@, behind as nat, 2);
        assert(all_digits(back)) by {
            assert forall|i: int| 0 <= i < back.len() implies is_digit(#[trigger] back[i]) by {
                assert(back[i] == digits@[at + i]);
            }
        }
    }
    value_up_to(digits, at, len, 1) == 0
}

/// Read a rate out of digits that are worth something, with some zeros behind
/// them.
fn whole_from(digits: &Vec<char>, shift: i128) -> (r: Option<i32>)
    requires
        all_digits(digits@),
        value(digits@) >= 1,
        0 <= shift < 10,
    ensures
        r == whole_rate(rounded(value(digits@) * ten(shift as nat), 1)),
{
    let ghost all = value(digits@);
    assert(digits@.subrange(0, digits.len() as int) =~= digits@);
    let mut n: i128 = value_up_to(digits, 0, digits.len(), PAST);
    let mut i: i128 = 0;
    assert(ten(0) == 1);
    assert(all * 1 == all) by (nonlinear_arith);
    while i < shift
        invariant
            0 <= i <= shift < 10,
            0 <= n <= PAST,
            all >= 1,
            n == if all * ten(i as nat) < PAST {
                (all * ten(i as nat)) as int
            } else {
                PAST as int
            },
        decreases shift - i,
    {
        proof {
            ten_is_positive(i as nat);
            assert(all * (10 * ten(i as nat)) == 10 * (all * ten(i as nat))) by (nonlinear_arith);
            assert(ten((i + 1) as nat) == 10 * ten(i as nat));
        }
        n = if n * 10 < PAST {
            n * 10
        } else {
            PAST
        };
        i = i + 1;
    }
    proof {
        let unit = ten(shift as nat);
        ten_is_positive(shift as nat);
        assert(all * unit >= 1) by (nonlinear_arith)
            requires
                all >= 1,
                unit >= 1,
        ;
        if n < PAST {
            a_whole_number_is_itself(all * unit);
        } else {
            past_every_coordinate(all * unit, 1);
        }
    }
    if n < PAST {
        Some(n as i32)
    } else {
        Some(i32::MAX)
    }
}

/// How many doublings of one there are to an odd number or past it.
fn doublings_to(odd: i128) -> (j: usize)
    requires
        1 <= odd <= 0xffff_ffff,
    ensures
        j <= 32,
        odd <= two(j as nat),
        j > 0 ==> two((j - 1) as nat) < odd,
{
    let mut j: usize = 0;
    let mut power: i128 = 1;
    assert(two(0) == 1);
    while power < odd
        invariant
            1 <= odd <= 0xffff_ffff,
            power == two(j as nat),
            1 <= power,
            j > 0 ==> two((j - 1) as nat) < odd,
            j <= 32,
        decreases 32 - j,
    {
        proof {
            if j >= 32 {
                assert(two(32) == 0x1_0000_0000) by {
                    reveal_with_fuel(two, 33);
                }
            }
        }
        power = power * 2;
        j = j + 1;
    }
    j
}

/// A number doubled some times over.
fn doubled_up(n: i128, times: usize) -> (r: i128)
    requires
        n >= 0,
        n * two(times as nat) <= 0x40_0000_0000_0000,
    ensures
        r == n * two(times as nat),
{
    let mut r: i128 = n;
    let mut k: usize = 0;
    assert(two(0) == 1);
    while k < times
        invariant
            k <= times,
            n >= 0,
            r == n * two(k as nat),
            n * two(times as nat) <= 0x40_0000_0000_0000,
        decreases times - k,
    {
        proof {
            let t = two(k as nat);
            let most = two(times as nat);
            two_grows(k as nat, times as nat);
            assert(n * (2 * t) == 2 * (n * t)) by (nonlinear_arith);
            assert(n * (2 * t) <= n * most) by (nonlinear_arith)
                requires
                    2 * t <= most,
                    n >= 0,
            ;
            assert(n * t >= 0) by (nonlinear_arith)
                requires
                    n >= 0,
            ;
        }
        r = r * 2;
        k = k + 1;
    }
    r
}

/// What an odd number comes to once it is doubled up to as many steps as a
/// double has, and one doubling more.
proof fn fits_in_steps(odd: nat, j: nat)
    requires
        1 <= odd <= two(j),
        j <= 32,
    ensures
        1 <= odd * two((54 - j) as nat) <= 0x40_0000_0000_0000,
{
    two_adds_up(j, (54 - j) as nat);
    two_is_positive((54 - j) as nat);
    bounds_of_steps();
    let most = two((54 - j) as nat);
    let power = two(j);
    assert(1 <= odd * most <= power * most) by (nonlinear_arith)
        requires
            1 <= odd <= power,
            most >= 1,
    ;
}

/// Read a rate out of digits that are worth something, some of them behind the
/// point.
fn fraction_from(digits: &Vec<char>, behind: i128) -> (r: Option<i32>)
    requires
        all_digits(digits@),
        behind > 0,
    ensures
        r == whole_rate(rounded(value(digits@), ten(behind as nat))),
{
    let ghost all = value(digits@);
    let ghost unit = ten(behind as nat);
    proof {
        ten_is_positive(behind as nat);
    }
    let w: i128 = whole_part(digits, behind, PAST);
    if w >= PAST {
        proof {
            assert(goes_in(digits@, behind as nat, PAST as nat));
            past_every_coordinate(all, unit);
        }
        return Some(i32::MAX);
    }
    assert(goes_in(digits@, behind as nat, w as nat));
    assert(!goes_in(digits@, behind as nat, (w + 1) as nat));
    let odd: i128 = 2 * w + 1;
    let j: usize = doublings_to(odd);
    proof {
        fits_in_steps(odd as nat, j as nat);
    }
    let line: i128 = doubled_up(odd, 54 - j);
    proof {
        between_whole_numbers(all, unit, w as nat, j as nat);
    }
    let near = doublings(digits, 55 - j);
    assert(goes_in(near@, behind as nat, (line - 1) as nat) <==> all * two((55 - j) as nat) >= (odd
        * two((54 - j) as nat) - 1) * unit);
    if whole_part(&near, behind, line) >= line - 1 {
        return if w + 1 < PAST {
            Some((w + 1) as i32)
        } else {
            Some(i32::MAX)
        };
    }
    let least = doublings(digits, 1075);
    proof {
        assert(2 * (all * one()) == all * two(1075)) by (nonlinear_arith)
            requires
                two(1075) == 2 * one(),
        ;
    }
    if below_or_at(&least, behind) {
        None
    } else {
        Some(w as i32)
    }
}

/// Read a rate out of digits that are worth something and where their point is.
fn rate_from(digits: &Vec<char>, at: i128) -> (r: Option<i32>)
    requires
        all_digits(digits@),
        value(digits@) >= 1,
        at <= HUGE + usize::MAX,
    ensures
        r == whole_rate(reading(digits@, at as int)),
{
    let len: i128 = digits.len() as i128;
    if at <= -1075 {
        proof {
            a_far_point_leaves_nothing(digits@, at as int);
        }
        None
    } else if at - len >= 10 {
        proof {
            a_late_point_is_past_everything(digits@, at as int);
        }
        Some(i32::MAX)
    } else if at >= len {
        whole_from(digits, at - len)
    } else {
        fraction_from(digits, len - at)
    }
}

/// The power of ten an exponent stands for, cut short at one that outweighs
/// any number of digits.
fn exponent_of(letters: &Vec<char>) -> (n: Option<i128>)
    ensures
        match n {
            Some(n) => {
                let true_one = exponent(Some(letters@));
                &&& exponent_reads(Some(letters@))
                &&& -HUGE <= n <= HUGE
                &&& n == true_one || (n == HUGE && true_one > HUGE) || (n == -HUGE && true_one
                    < -HUGE)
            },
            None => !exponent_reads(Some(letters@)),
        },
{
    let signed = letters.len() > 0 && (letters[0] == '+' || letters[0] == '-');
    let from: usize = if signed {
        1
    } else {
        0
    };
    assert(letters@.subrange(from as int, letters.len() as int) =~= unsigned(letters@));
    if from == letters.len() || !digits_only(letters, from) {
        return None;
    }
    let n: i128 = value_up_to(letters, from, letters.len(), HUGE);
    if signed && letters[0] == '-' {
        Some(-n)
    } else {
        Some(n)
    }
}

/// A text without its first point.
fn mantissa_of(letters: &Vec<char>) -> (r: (Vec<char>, usize))
    ensures
        r.0@ == mantissa(letters@),
        r.1 == whole_digits(letters@),
        r.1 <= r.0.len(),
{
    match find(letters, '.') {
        Some(point) => {
            let mut digits = part(letters, 0, point);
            let mut rest = part(letters, point + 1, letters.len());
            digits.append(&mut rest);
            (digits, point)
        },
        None => (part(letters, 0, letters.len()), letters.len()),
    }
}

/// Read a rate in hertz, to the nearest whole one.
pub fn rate_of(letters: &Vec<char>) -> (r: Option<i32>)
    ensures
        r == rate(letters@),
{
    let signed = letters.len() > 0 && (letters[0] == '+' || letters[0] == '-');
    let from: usize = if signed {
        1
    } else {
        0
    };
    let body = part(letters, from, letters.len());
    assert(body@ =~= unsigned(letters@));
    if spells(&body, "nan") {
        return Some(0);
    }
    if signed && letters[0] == '-' {
        return None;
    }
    if spells(&body, "inf") || spells(&body, "infinity") {
        return Some(i32::MAX);
    }
    let mut exp: i128 = 0;
    let mut base_to: usize = body.len();
    if let Some(e) = find(&body, 'e') {
        base_to = e;
        let exp_text = part(&body, e + 1, body.len());
        match exponent_of(&exp_text) {
            Some(n) => {
                exp = n;
            },
            None => {
                return None;
            },
        }
    }
    let base = part(&body, 0, base_to);
    assert(base@ =~= before_exponent(body@));
    let (digits, whole) = mantissa_of(&base);
    assert(digits@.subrange(0, digits.len() as int) =~= digits@);
    if digits.len() == 0 || !digits_only(&digits, 0) {
        return None;
    }
    if value_up_to(&digits, 0, digits.len(), 1) == 0 {
        proof {
            nothing_is_read_as_nothing(digits@, point(body@));
        }
        return None;
    }
    let at: i128 = whole as i128 + exp;
    proof {
        let true_at = point(body@);
        if at != true_at {
            if exp == HUGE {
                a_late_point_is_past_everything(digits@, at as int);
                a_late_point_is_past_everything(digits@, true_at);
            } else {
                a_far_point_leaves_nothing(digits@, at as int);
                a_far_point_leaves_nothing(digits@, true_at);
            }
        }
    }
    rate_from(&digits, at)
}

/// A rate written as a whole number, up to the largest coordinate, is that
/// number.
pub proof fn a_whole_rate_is_itself(text: Seq<char>)
    requires
        text.len() > 0,
        all_digits(text),
        1 <= value(text) <= i32::MAX,
    ensures
        rate(text) == Some(value(text) as i32),
{
    reveal_strlit("nan");
    reveal_strlit("inf");
    reveal_strlit("infinity");
    assert(is_digit(text[0]));
    assert("nan"@[0] == 'n' && "inf"@[0] == 'i' && "infinity"@[0] == 'i');
    only_digits_in(text, 'e');
    only_digits_in(text, '.');
    assert(ten(0) == 1);
    assert(value(text) * 1 == value(text));
    a_whole_number_is_itself(value(text));
}

proof fn only_digits_in(text: Seq<char>, c: char)
    requires
        all_digits(text),
        !is_digit(c),
    ensures
        first_at(text, c) is None,
{
    first_at_is_first(text, c);
    if let Some(i) = first_at(text, c) {
        assert(is_digit(text[i]));
    }
}

/// A run of digits is read from the left, each digit ten times what one behind it
/// is, and the digits are the ten from `0` to `9`, each worth what it says.
pub proof fn digits_are_worth_their_places(text: Seq<char>, c: char)
    ensures
        value(Seq::empty()) == 0,
        48 <= c as u32 <= 57 ==> value(text.push(c)) == 10 * value(text) + (c as u32 - 48),
        is_digit(c) <==> 48 <= c as u32 <= 57,
        all_digits(text.push(c)) <==> all_digits(text) && is_digit(c),
{
    assert(text.push(c).drop_last() =~= text);
    if all_digits(text.push(c)) {
        assert(is_digit(text.push(c)[text.len() as int]));
        assert forall|i: int| 0 <= i < text.len() implies is_digit(#[trigger] text[i]) by {
            assert(text.push(c)[i] == text[i]);
        }
    }
}

/// A whole number is read out of digits, with a plus sign in front of them or
/// not, where it is from one up to the largest coordinate; and of nothing else.
pub proof fn a_positive_number_is_read(text: Seq<char>, digits: Seq<char>)
    requires
        digits.len() > 0,
        all_digits(digits),
    ensures
        positive(digits) == if 1 <= value(digits) <= 0x7fff_ffff {
            Some(value(digits) as i32)
        } else {
            None
        },
        positive("+"@ + digits) == positive(digits),
        positive("-"@ + digits) is None,
        positive(Seq::empty()) is None,
        positive(text) matches Some(n) ==> n >= 1 && (all_digits(text) || all_digits(
            text.drop_first(),
        )),
{
    reveal_strlit("+");
    reveal_strlit("-");
    assert(is_digit(digits[0]));
    assert(("+"@ + digits).drop_first() =~= digits);
    assert(("+"@ + digits)[0] == '+');
    assert(("-"@ + digits)[0] == '-');
}

/// The rates that are words: what is not a number is no hertz, and what is
/// infinite is as many as there can be. Nothing below nothing is a rate.
pub proof fn rates_that_are_words(text: Seq<char>)
    ensures
        rate("nan"@) == Some(0i32),
        rate("inf"@) == Some(0x7fff_ffffi32),
        rate("infinity"@) == Some(0x7fff_ffffi32),
        rate(Seq::empty()) is None,
        text.len() > 0 && text[0] == '-' && text.drop_first() != "nan"@ ==> rate(text) is None,
        rate(text) matches Some(hertz) ==> hertz >= 0,
{
    reveal_strlit("nan");
    reveal_strlit("inf");
    reveal_strlit("infinity");
    assert("nan"@[0] == 'n' && "inf"@[0] == 'i' && "infinity"@[0] == 'i');
    assert("nan"@.len() == 3 && "inf"@.len() == 3 && "infinity"@.len() == 8);
    let nothing = Seq::<char>::empty();
    assert(first_at(nothing, 'e') is None);
    assert(first_at(nothing, '.') is None);
}

proof fn first_behind_digits(text: Seq<char>, c: char, digits: int)
    requires
        0 <= digits <= text.len(),
        forall|k: int| 0 <= k < digits ==> is_digit(#[trigger] text[k]),
        !is_digit(c),
        digits < text.len() ==> text[digits] == c,
    ensures
        digits < text.len() ==> first_at(text, c) == Some(digits),
        digits == text.len() ==> first_at(text, c) is None,
{
    first_at_is_first(text, c);
    if let Some(i) = first_at(text, c) {
        if i < digits {
            assert(is_digit(text[i]));
        }
    }
}

proof fn not_the_words(text: Seq<char>)
    requires
        text.len() > 0,
        is_digit(text[0]),
    ensures
        unsigned(text) == text,
        !negative(text),
        text != "nan"@,
        text != "inf"@,
        text != "infinity"@,
{
    reveal_strlit("nan");
    reveal_strlit("inf");
    reveal_strlit("infinity");
    assert("nan"@[0] == 'n' && "inf"@[0] == 'i' && "infinity"@[0] == 'i');
}

/// What a decimal number is read as: its digits, whole and fraction, with its
/// point where it is written.
proof fn a_decimal_is_read(whole: Seq<char>, fraction: Seq<char>)
    requires
        whole.len() > 0,
        all_digits(whole),
        all_digits(fraction),
    ensures
        rate(whole + "."@ + fraction) == whole_rate(
            reading(whole + fraction, whole.len() as int),
        ),
        all_digits(whole + fraction),
{
    reveal_strlit(".");
    let text = whole + "."@ + fraction;
    let at = whole.len() as int;
    assert(is_digit(whole[0]) && text[0] == whole[0]);
    not_the_words(text);
    assert forall|k: int| 0 <= k < at implies is_digit(#[trigger] text[k]) by {
        assert(text[k] == whole[k]);
    }
    first_behind_digits(text, '.', at);
    first_at_is_first(text, 'e');
    if let Some(i) = first_at(text, 'e') {
        if i < at {
            assert(is_digit(text[i]));
        } else if i > at {
            assert(text[i] == fraction[i - at - 1]);
            assert(is_digit(fraction[i - at - 1]));
        }
    }
    assert(text.subrange(0, at) + text.subrange(at + 1, text.len() as int) =~= whole + fraction);
    let both = whole + fraction;
    assert forall|i: int| 0 <= i < both.len() implies is_digit(#[trigger] both[i]) by {
        if i < at {
            assert(is_digit(whole[i]));
        } else {
            assert(is_digit(fraction[i - at]));
        }
    }
}

/// A rate with a few digits behind its point, up to a million, is the whole number
/// in front of it, or one more from half way to that on; what is nothing is none.
pub proof fn a_rate_is_rounded(whole: Seq<char>, fraction: Seq<char>)
    requires
        whole.len() > 0,
        0 < fraction.len() <= 9,
        all_digits(whole),
        all_digits(fraction),
        value(whole) <= 1_000_000,
    ensures
        rate(whole + "."@ + fraction) == if fraction[0] >= '5' {
            Some((value(whole) + 1) as i32)
        } else if value(whole) == 0 && value(fraction) == 0 {
            None
        } else {
            Some(value(whole) as i32)
        },
{
    a_decimal_is_read(whole, fraction);
    let both = whole + fraction;
    let f = fraction.len();
    let w = value(whole);
    let low = value(fraction);
    let d = ten(f);
    let n = value(both);
    value_splits(both, whole.len() as int);
    assert(both.subrange(0, whole.len() as int) =~= whole);
    assert(both.subrange(whole.len() as int, both.len() as int) =~= fraction);
    assert(n == w * d + low);
    value_is_below(fraction);
    ten_is_positive(f);
    ten_grows(f, 9);
    assert(ten(9) == 1_000_000_000) by {
        reveal_with_fuel(ten, 10);
    }
    first_digit_decides(fraction);
    rounded_by_half(n, d, w, low);
    if w == 0 {
        assert(w * d == 0) by (nonlinear_arith)
            requires
                w == 0,
        ;
    } else {
        assert(w * d >= 1) by (nonlinear_arith)
            requires
                w >= 1,
                d >= 1,
        ;
    }
}

proof fn half_or_more(n: nat, d: nat, w: nat, low: nat, fine: nat)
    by (nonlinear_arith)
    requires
        n == w * d + low,
        2 * low >= d,
        d > 0,
    ensures
        n * (2 * fine) >= ((2 * w + 1) * fine - 1) * d,
{
}

proof fn less_than_half(n: nat, d: nat, w: nat, low: nat, fine: nat)
    by (nonlinear_arith)
    requires
        n == w * d + low,
        2 * low + 2 <= d,
        0 < d < fine,
    ensures
        n * (2 * fine) < ((2 * w + 1) * fine - 1) * d,
{
}

/// A number with not too long a fraction is read as the whole number in front of
/// it, or as one more from half way to that on.
proof fn rounded_by_half(n: nat, d: nat, w: nat, low: nat)
    requires
        0 < d <= 1_000_000_000,
        w <= 1_000_000,
        n == w * d + low,
        low < d,
        2 * low >= d || 2 * low + 2 <= d,
    ensures
        whole_rate(rounded(n, d)) == if 2 * low >= d {
            Some((w + 1) as i32)
        } else if n == 0 {
            None
        } else {
            Some(w as i32)
        },
{
    let j = doublings_there(2 * w + 1);
    assert(w * d <= n < (w + 1) * d) by (nonlinear_arith)
        requires
            n == w * d + low,
            0 <= low < d,
    ;
    between_whole_numbers(n, d, w, j);
    let fine = two((54 - j) as nat);
    assert(fine >= 0x2_0000_0000) by {
        two_grows(33, (54 - j) as nat);
        assert(two(33) == 0x2_0000_0000) by {
            reveal_with_fuel(two, 34);
        }
    }
    assert(two((55 - j) as nat) == 2 * fine);
    if 2 * low >= d {
        half_or_more(n, d, w, low, fine);
    } else {
        less_than_half(n, d, w, low, fine);
        let unit = one();
        assert(unit > 1_000_000_000) by {
            two_grows(33, 1074);
            assert(two(33) == 0x2_0000_0000) by {
                reveal_with_fuel(two, 34);
            }
        }
        assert(n == 0 ==> n * unit == 0) by (nonlinear_arith);
        assert(n >= 1 ==> n * unit >= unit) by (nonlinear_arith);
    }
}

/// A fraction is at least a half from a first digit of five on.
proof fn first_digit_decides(fraction: Seq<char>)
    requires
        fraction.len() > 0,
        all_digits(fraction),
    ensures
        fraction[0] >= '5' ==> 2 * value(fraction) >= ten(fraction.len()),
        fraction[0] < '5' ==> 2 * value(fraction) + 2 <= ten(fraction.len()),
{
    let rest = fraction.drop_first();
    value_of_first(fraction);
    assert(is_digit(fraction[0]));
    assert forall|i: int| 0 <= i < rest.len() implies is_digit(#[trigger] rest[i]) by {
        assert(rest[i] == fraction[i + 1]);
    }
    value_is_below(rest);
    let unit = ten((fraction.len() - 1) as nat);
    let first = digit(fraction[0]);
    let low = value(rest);
    assert(ten(fraction.len()) == 10 * unit);
    if fraction[0] >= '5' {
        assert(2 * (first * unit + low) >= 10 * unit) by (nonlinear_arith)
            requires
                first >= 5,
                low >= 0,
                unit >= 0,
        ;
    } else {
        assert(2 * (first * unit + low) + 2 <= 10 * unit) by (nonlinear_arith)
            requires
                first <= 4,
                low + 1 <= unit,
        ;
    }
}

proof fn doublings_there(odd: nat) -> (j: nat)
    requires
        1 <= odd <= 2_000_001,
    ensures
        j <= 21,
        odd <= two(j),
        j > 0 ==> two((j - 1) as nat) < odd,
{
    if odd == 1 {
        assert(two(0) == 1);
        0
    } else {
        let n = (odd - 1) as nat;
        bits_bound(n);
        let j = bits(n);
        if j > 21 {
            two_grows(21, (j - 1) as nat);
            assert(two(21) == 0x20_0000) by {
                reveal_with_fuel(two, 22);
            }
        }
        j
    }
}

/// A decimal point is moved by an exponent: digits with a point among them are read
/// as the digits alone with an exponent of minus as many as stand behind the point.
pub proof fn an_exponent_moves_the_point(
    whole: Seq<char>,
    fraction: Seq<char>,
    exponent: Seq<char>,
)
    requires
        whole.len() > 0,
        exponent.len() > 0,
        all_digits(whole),
        all_digits(fraction),
        all_digits(exponent),
        value(exponent) == fraction.len(),
    ensures
        rate(whole + fraction + "e-"@ + exponent) == rate(whole + "."@ + fraction),
{
    a_decimal_is_read(whole, fraction);
    reveal_strlit("e");
    reveal_strlit("-");
    reveal_strlit("e-");
    assert("e-"@ =~= "e"@ + "-"@);
    assert(whole + fraction + "e-"@ + exponent =~= whole + fraction + "e"@ + ("-"@ + exponent));
    assert(("-"@ + exponent).drop_first() =~= exponent);
    assert(("-"@ + exponent)[0] == '-');
    a_number_with_an_exponent_is_read(whole + fraction, "-"@ + exponent);
}

/// An exponent puts that many zeros behind a whole number.
pub proof fn an_exponent_adds_zeros(whole: Seq<char>, exponent: Seq<char>)
    requires
        whole.len() > 0,
        exponent.len() > 0,
        all_digits(whole),
        all_digits(exponent),
        1 <= value(whole) * ten(value(exponent)) <= 0x7fff_ffff,
    ensures
        rate(whole + "e"@ + exponent) == Some((value(whole) * ten(value(exponent))) as i32),
        rate(whole + "e+"@ + exponent) == rate(whole + "e"@ + exponent),
{
    reveal_strlit("e");
    reveal_strlit("+");
    reveal_strlit("e+");
    assert("e+"@ =~= "e"@ + "+"@);
    assert(whole + "e+"@ + exponent =~= whole + "e"@ + ("+"@ + exponent));
    assert(("+"@ + exponent).drop_first() =~= exponent);
    assert(("+"@ + exponent)[0] == '+');
    assert(is_digit(exponent[0]));
    a_number_with_an_exponent_is_read(whole, exponent);
    a_number_with_an_exponent_is_read(whole, "+"@ + exponent);
    a_whole_number_is_itself(value(whole) * ten(value(exponent)));
}

proof fn a_number_with_an_exponent_is_read(digits: Seq<char>, power: Seq<char>)
    requires
        digits.len() > 0,
        all_digits(digits),
        unsigned(power).len() > 0,
        all_digits(unsigned(power)),
    ensures
        rate(digits + "e"@ + power) == whole_rate(
            reading(digits, digits.len() + exponent(Some(power))),
        ),
{
    reveal_strlit("e");
    let text = digits + "e"@ + power;
    let at = digits.len() as int;
    assert(is_digit(digits[0]) && text[0] == digits[0]);
    not_the_words(text);
    assert forall|k: int| 0 <= k < at implies is_digit(#[trigger] text[k]) by {
        assert(text[k] == digits[k]);
    }
    first_behind_digits(text, 'e', at);
    assert(text.subrange(0, at) =~= digits);
    assert(text.subrange(at + 1, text.len() as int) =~= power);
    only_digits_in(digits, '.');
}

/// A plus sign in front of a rate changes nothing, and a minus sign leaves
/// nothing of it but what is not a number.
pub proof fn a_sign_in_front_of_a_rate(text: Seq<char>)
    requires
        text.len() > 0 ==> text[0] != '+' && text[0] != '-',
    ensures
        rate("+"@ + text) == rate(text),
        text == "nan"@ ==> rate("-"@ + text) == Some(0i32),
        text != "nan"@ ==> rate("-"@ + text) is None,
{
    reveal_strlit("+");
    reveal_strlit("-");
    reveal_strlit("nan");
    assert(("+"@ + text)[0] == '+');
    assert(("-"@ + text)[0] == '-');
    assert(("+"@ + text).drop_first() =~= text);
    assert(("-"@ + text).drop_first() =~= text);
}

/// A whole rate past the largest coordinate is that coordinate, and no hertz at all
/// is no rate.
pub proof fn a_rate_past_the_most_is_the_most(text: Seq<char>)
    requires
        text.len() > 0,
        all_digits(text),
    ensures
        value(text) > 0x7fff_ffff ==> rate(text) == Some(0x7fff_ffffi32),
        value(text) == 0 ==> rate(text) is None,
{
    assert(is_digit(text[0]));
    not_the_words(text);
    only_digits_in(text, 'e');
    only_digits_in(text, '.');
    assert(ten(0) == 1);
    let n = value(text);
    assert(n * 1 == n);
    if n > 0x7fff_ffff {
        assert(two(31) == 0x8000_0000) by {
            reveal_with_fuel(two, 32);
        }
        two_grows(31, 53);
        let unit = one();
        two_is_positive(1074);
        assert(n * unit >= 0x8000_0000 * unit * 1) by (nonlinear_arith)
            requires
                n >= 0x8000_0000,
                unit >= 1,
        ;
        rounding_is_monotone(n, 1, 0x8000_0000, 1074);
        whole_is_at_least(rounded(n, 1), 0x8000_0000);
        assert(rounded(n, 1) > 0) by (nonlinear_arith)
            requires
                rounded(n, 1) >= 0x8000_0000 * unit,
                unit >= 1,
        ;
    }
    if n == 0 {
        nothing_is_read_as_nothing(text, text.len() as int);
    }
}

/// A point with nothing behind it changes nothing, and one with nothing in front of
/// it is read as if there were a zero; a point alone is no rate.
pub proof fn a_point_at_an_end(digits: Seq<char>)
    requires
        digits.len() > 0,
        all_digits(digits),
    ensures
        rate(digits + "."@) == rate(digits),
        rate("."@ + digits) == rate("0"@ + "."@ + digits),
        rate("."@) is None,
{
    reveal_strlit(".");
    reveal_strlit("0");
    reveal_strlit("nan");
    reveal_strlit("inf");
    reveal_strlit("infinity");
    assert("nan"@[0] == 'n' && "inf"@[0] == 'i' && "infinity"@[0] == 'i');
    let nothing = Seq::<char>::empty();
    a_decimal_is_read(digits, nothing);
    assert(digits + "."@ + nothing =~= digits + "."@);
    assert(digits + nothing =~= digits);
    assert(is_digit(digits[0]));
    not_the_words(digits);
    only_digits_in(digits, 'e');
    only_digits_in(digits, '.');
    let zero = "0"@;
    assert(zero.len() == 1 && zero[0] == '0');
    assert(all_digits(zero));
    a_decimal_is_read(zero, digits);
    let text = "."@ + digits;
    assert(text[0] == '.');
    first_at_is_first(text, 'e');
    if let Some(i) = first_at(text, 'e') {
        assert(text[i] == digits[i - 1]);
        assert(is_digit(digits[i - 1]));
    }
    assert(first_at(text, '.') == Some(0int));
    assert(text.subrange(0, 0) + text.subrange(1, text.len() as int) =~= digits);
    let more = zero + digits;
    value_of_first(more);
    assert(more.drop_first() =~= digits);
    assert(more[0] == '0');
    assert(value(more) == value(digits)) by {
        let unit = ten((more.len() - 1) as nat);
        assert(digit('0') == 0);
        assert(0 * unit == 0) by (nonlinear_arith);
    }
    let point = "."@;
    first_at_is_first(point, 'e');
    assert(first_at(point, '.') == Some(0int));
    assert(point.subrange(0, 0) + point.subrange(1, 1) =~= nothing);
}

/// A rate has one point at most.
pub proof fn two_points_are_no_rate(front: Seq<char>, middle: Seq<char>, back: Seq<char>)
    requires
        all_digits(front),
        all_digits(middle),
        all_digits(back),
    ensures
        rate(front + "."@ + middle + "."@ + back) is None,
{
    reveal_strlit(".");
    reveal_strlit("nan");
    reveal_strlit("inf");
    reveal_strlit("infinity");
    assert("nan"@[0] == 'n' && "inf"@[0] == 'i' && "infinity"@[0] == 'i');
    let text = front + "."@ + middle + "."@ + back;
    let at = front.len() as int;
    let again = at + 1 + middle.len();
    assert(text[at] == '.' && text[again] == '.');
    assert forall|k: int| 0 <= k < at implies is_digit(#[trigger] text[k]) by {
        assert(text[k] == front[k]);
    }
    first_behind_digits(text, '.', at);
    first_at_is_first(text, 'e');
    if let Some(i) = first_at(text, 'e') {
        if i < at {
            assert(is_digit(text[i]));
        } else if at < i < again {
            assert(text[i] == middle[i - at - 1]);
            assert(is_digit(middle[i - at - 1]));
        } else if i > again {
            assert(text[i] == back[i - again - 1]);
            assert(is_digit(back[i - again - 1]));
        }
    }
    let digits = mantissa(text);
    assert(digits[again - 1] == '.');
    assert(!is_digit(digits[again - 1]));
    if at > 0 {
        assert(is_digit(text[0]));
    }
}

/// A rate is written with digits, a point, an `e` and signs, unless it is one of
/// the words: anything else among them and it is none.
pub proof fn what_is_no_rate(text: Seq<char>, i: int)
    requires
        0 <= i < text.len(),
        !is_digit(text[i]),
        text[i] != '.' && text[i] != 'e' && text[i] != '+' && text[i] != '-',
        text != "nan"@ && text != "inf"@ && text != "infinity"@,
        text.len() > 0 && (text[0] == '+' || text[0] == '-') ==> text.drop_first() != "nan"@
            && text.drop_first() != "inf"@ && text.drop_first() != "infinity"@,
    ensures
        rate(text) is None,
{
    let body = unsigned(text);
    let at = if body == text {
        i
    } else {
        i - 1
    };
    assert(body[at] == text[i]);
    first_at_is_first(body, 'e');
    let front = before_exponent(body);
    if at < front.len() {
        assert(front[at] == text[i]);
        first_at_is_first(front, '.');
        let digits = mantissa(front);
        let place = match first_at(front, '.') {
            Some(point) if point < at => at - 1,
            _ => at,
        };
        assert(digits[place] == text[i]);
        assert(!is_digit(digits[place]));
    } else {
        let e = first_at(body, 'e')->0;
        let power = exponent_text(body)->0;
        let behind = at - e - 1;
        assert(power[behind] == text[i]);
        let bare = unsigned(power);
        let place = if bare == power {
            behind
        } else {
            behind - 1
        };
        assert(bare[place] == text[i]);
        assert(!is_digit(bare[place]));
    }
}

/// An exponent has digits in it, and something to move the point of.
pub proof fn an_exponent_of_nothing_is_no_rate(digits: Seq<char>)
    requires
        digits.len() > 0,
        all_digits(digits),
    ensures
        rate(digits + "e"@) is None,
        rate("e"@ + digits) is None,
{
    reveal_strlit("e");
    reveal_strlit("nan");
    reveal_strlit("inf");
    reveal_strlit("infinity");
    assert("nan"@[0] == 'n' && "inf"@[0] == 'i' && "infinity"@[0] == 'i');
    let text = digits + "e"@;
    let at = digits.len() as int;
    assert(is_digit(digits[0]) && text[0] == digits[0]);
    not_the_words(text);
    assert forall|k: int| 0 <= k < at implies is_digit(#[trigger] text[k]) by {
        assert(text[k] == digits[k]);
    }
    first_behind_digits(text, 'e', at);
    assert(text.subrange(at + 1, text.len() as int) =~= Seq::<char>::empty());
    let other = "e"@ + digits;
    assert(other[0] == 'e');
    assert(first_at(other, 'e') == Some(0int));
    assert(other.subrange(0, 0) =~= Seq::<char>::empty());
    assert(first_at(Seq::<char>::empty(), '.') is None);
}

} // verus!
