//! What holds of texts, numbers and amounts wherever they are used.
use vstd::prelude::*;

use crate::percent::{HundredthPercent, Utilization};
use crate::rect::{clamped, max_of, min_of, quotient, Rect};
use crate::text::{
    decimal_text, decimal_text_stands_for_value, decimal_value, hex_digit_value, hex_value,
    is_digit, is_hex_digit, lower, lower_char, padded_to_two, text_before,
};
use crate::utf16::{decoded, decoded_lossy, is_high_surrogate, is_low_surrogate};
use crate::win32::filetime_value;

verus! {

/// Where two texts differ first, the smaller character comes first; a text comes before every
/// longer one that it is the start of.
pub proof fn first_difference_decides(a: Seq<char>, b: Seq<char>, at: int)
    requires
        0 <= at <= a.len(),
        at <= b.len(),
        forall|i: int| 0 <= i < at ==> #[trigger] a[i] == b[i],
    ensures
        at < a.len() && at < b.len() && a[at] < b[at] ==> text_before(a, b) && !text_before(b, a),
        at == a.len() && at < b.len() ==> text_before(a, b) && !text_before(b, a),
        at == a.len() && at == b.len() ==> !text_before(a, b) && !text_before(b, a),
    decreases at,
{
    if at > 0 {
        assert(a[0] == b[0]);
        let (x, y) = (a.drop_first(), b.drop_first());
        assert forall|i: int| 0 <= i < at - 1 implies #[trigger] x[i] == y[i] by {
            assert(a[i + 1] == b[i + 1]);
        }
        first_difference_decides(x, y, at - 1);
    }
}

/// Letters lose their case and nothing else changes, so that a text without capitals stays as it
/// is.
pub proof fn lowering_only_touches_capitals(text: Seq<char>)
    ensures
        lower(text).len() == text.len(),
        forall|i: int|
            0 <= i < text.len() && !('A' <= text[i] <= 'Z')
                ==> #[trigger] lower(text)[i] == text[i],
        forall|i: int|
            0 <= i < text.len() && 'A' <= text[i] <= 'Z' ==> #[trigger] lower(text)[i] as int
                == text[i] as int + 32,
        lower(lower(text)) == lower(text),
{
    assert(lower(lower(text)) =~= lower(text));
}

/// A digit counts by its place among the digits, whatever its case.
pub proof fn hexadecimal_digits_count_by_their_place(c: char, text: Seq<char>)
    requires
        is_hex_digit(c),
    ensures
        0 <= hex_digit_value(c) < 16,
        '0' <= c <= '9' ==> hex_digit_value(c) == c as int - '0' as int,
        'a' <= c <= 'f' ==> hex_digit_value(c) == c as int - 'a' as int + 10,
        'A' <= c <= 'F' ==> hex_digit_value(c) == c as int - 'A' as int + 10,
        hex_digit_value(lower_char(c)) == hex_digit_value(c),
        hex_value(text.push(c)) == 16 * hex_value(text) + hex_digit_value(c),
        hex_value(Seq::<char>::empty()) == 0,
{
    assert(text.push(c).drop_last() =~= text);
}

/// One more digit makes ten of every unit.
pub proof fn decimal_digits_count_by_their_place(c: char, text: Seq<char>)
    requires
        is_digit(c),
    ensures
        decimal_value(text.push(c)) == 10 * decimal_value(text) + (c as int - '0' as int),
        decimal_value(Seq::<char>::empty()) == 0,
{
    assert(text.push(c).drop_last() =~= text);
}

/// A unit that belongs to no character is replaced by itself, and what follows is read as before;
/// strictly read, the text is refused.
pub proof fn stray_units_are_replaced(units: Seq<u16>)
    requires
        units.len() > 0,
        is_low_surrogate(units[0]) || (is_high_surrogate(units[0]) && (units.len() == 1
            || !is_low_surrogate(units[1]))),
    ensures
        decoded(units) is None,
        decoded_lossy(units) == seq!['\u{FFFD}'] + decoded_lossy(units.skip(1)),
{
}

/// Amounts in hundredths are added exactly, and shown as the nearest whole percentage, at most one
/// hundred.
pub proof fn hundredths_are_shown_rounded(first: HundredthPercent, second: HundredthPercent)
    ensures
        first.total(second) matches Some(sum) ==> sum.0 == first.0 + second.0,
        first.total(second) is None ==> first.0 + second.0 > u64::MAX,
        first.total(HundredthPercent::nothing()) == Some(first),
        first.valid(),
        first.displayed() <= 100,
        first.0 >= 10000 ==> first.displayed() == 100,
        first.0 <= 10000 ==> 2 * (first.displayed() * 100) <= 2 * first.0 + 100
            && 2 * first.0 < 2 * (
        first.displayed() * 100) + 100,
{
}

/// Division cuts what is left over, toward zero on both sides.
pub proof fn quotients_are_cut_toward_zero(a: int, b: int)
    requires
        b > 0,
    ensures
        a >= 0 ==> 0 <= quotient(a, b) * b <= a < (quotient(a, b) + 1) * b,
        a <= 0 ==> (quotient(a, b) - 1) * b < a <= quotient(a, b) * b <= 0,
        quotient(-a, b) == -quotient(a, b),
{
    let m = if a >= 0 {
        a
    } else {
        -a
    };
    let q = m / b;
    assert(0 <= q * b <= m < (q + 1) * b) by (nonlinear_arith)
        requires
            q == m / b,
            m >= 0,
            b > 0,
    ;
    assert(-q * b == -(q * b) && (-q - 1) * b == -((q + 1) * b)) by (nonlinear_arith);
}

/// The larger, the smaller and the nearest of some numbers are what their names say.
pub proof fn bounds_are_what_they_say(a: int, b: int, low: int, high: int)
    requires
        low <= high,
    ensures
        max_of(a, b) >= a && max_of(a, b) >= b && (max_of(a, b) == a || max_of(a, b) == b),
        min_of(a, b) <= a && min_of(a, b) <= b && (min_of(a, b) == a || min_of(a, b) == b),
        low <= clamped(a, low, high) <= high,
        low <= a <= high ==> clamped(a, low, high) == a,
        a < low ==> clamped(a, low, high) == low,
        a > high ==> clamped(a, low, high) == high,
{
}

/// A rectangle lies at its corner and has its extent.
pub proof fn rectangles_lie_at_their_corner(rect: Rect, x: int, y: int, width: int, height: int)
    requires
        rect.is_at(x, y, width, height),
        width >= 0,
        height >= 0,
    ensures
        rect.left == x && rect.top == y,
        rect.right - rect.left == width,
        rect.bottom - rect.top == height,
        rect.spec_width() == width,
        rect.spec_height() == height,
{
}

/// A time is made of its two halves, the upper one counting for the whole range of the lower one,
/// so that a later time is never smaller.
pub proof fn times_are_made_of_their_halves(low: u32, high: u32, later_low: u32, later_high: u32)
    ensures
        filetime_value(low, high) % 0x1_0000_0000 == low,
        filetime_value(low, high) / 0x1_0000_0000 == high,
        high < later_high || (high == later_high && low <= later_low) ==> filetime_value(low, high)
            <= filetime_value(later_low, later_high),
{
}

/// Two places are filled up and never cut.
pub proof fn two_places_are_filled(value: nat, fill: char)
    ensures
        padded_to_two(decimal_text(value), fill).len() >= 2,
        value < 10 ==> padded_to_two(decimal_text(value), fill) == seq![fill] + decimal_text(value),
        value >= 10 ==> padded_to_two(decimal_text(value), fill) == decimal_text(value),
{
    decimal_text_stands_for_value(value);
    if value < 10 {
        assert(padded_to_two(decimal_text(value), fill) =~= seq![fill] + decimal_text(value));
    } else {
        decimal_text_stands_for_value(value / 10);
    }
}

} // verus!
