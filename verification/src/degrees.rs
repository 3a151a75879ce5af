//! Angles as decimal text.
//!
//! An angle is a whole number of units of 10^-7 degree. Its text is the
//! decimal numeral of the degrees: a minus sign for a negative angle, the
//! whole degrees, and the fraction, as far as it is not zero.
//!
//! Reading takes every decimal numeral: what writing produces, and also a
//! plus sign, a point with digits on one side only, and an exponent. The
//! angle read is the nearest one to the number that the numeral denotes.

use crate::decimal::{decimal, digit_char, digit_str, push_decimal};
use crate::units::{FRACTION_PLACES, UNITS_PER_DEGREE};
use vstd::prelude::*;
use vstd::string::StrSliceExecFns;
use vstd::string::StringExecFns;
use vstd::utf8::is_ascii_chars;

verus! {

/// Ten to the power `e`.
pub open spec fn pow10(e: nat) -> nat
    decreases e,
{
    if e == 0 {
        1
    } else {
        10 * pow10((e - 1) as nat)
    }
}

/// The low `width` decimal digits of `n`, leading zeros included.
pub open spec fn fixed_digits(n: nat, width: nat) -> Seq<char>
    decreases width,
{
    if width == 0 {
        Seq::empty()
    } else {
        fixed_digits(n / 10, (width - 1) as nat).push(digit_char((n % 10) as int))
    }
}

/// `digits` without its trailing zeros.
pub open spec fn trim_zeros(digits: Seq<char>) -> Seq<char>
    decreases digits.len(),
{
    if digits.len() > 0 && digits.last() == '0' {
        trim_zeros(digits.drop_last())
    } else {
        digits
    }
}

/// The absolute value of `units`.
pub open spec fn magnitude(units: int) -> nat {
    if units < 0 {
        (-units) as nat
    } else {
        units as nat
    }
}

/// The decimal text of an angle, in degrees.
pub open spec fn degrees_text(units: int) -> Seq<char> {
    let whole = decimal(magnitude(units) / (UNITS_PER_DEGREE as nat));
    let fraction = trim_zeros(
        fixed_digits(magnitude(units) % (UNITS_PER_DEGREE as nat), FRACTION_PLACES as nat),
    );
    let unsigned = if fraction.len() == 0 {
        whole
    } else {
        whole + "."@ + fraction
    };
    if units < 0 {
        "-"@ + unsigned
    } else {
        unsigned
    }
}

/// A trailing zero digit does not survive trimming.
proof fn lemma_trim_last_zero(n: nat, width: nat)
    requires
        width > 0,
        n % 10 == 0,
    ensures
        trim_zeros(fixed_digits(n, width)) == trim_zeros(
            fixed_digits(n / 10, (width - 1) as nat),
        ),
{
    let shorter = fixed_digits(n / 10, (width - 1) as nat);
    assert(fixed_digits(n, width) == shorter.push('0'));
    assert(shorter.push('0').drop_last() =~= shorter);
}

/// Digits that end in a digit other than zero are already trimmed.
proof fn lemma_trim_last_nonzero(n: nat, width: nat)
    requires
        width > 0,
        n % 10 != 0,
    ensures
        trim_zeros(fixed_digits(n, width)) == fixed_digits(n, width),
{
}

/// Nothing is left of zero once trimmed.
proof fn lemma_trim_zero(width: nat)
    ensures
        trim_zeros(fixed_digits(0, width)) == Seq::<char>::empty(),
    decreases width,
{
    if width > 0 {
        lemma_trim_last_zero(0, width);
        lemma_trim_zero((width - 1) as nat);
    }
}

/// Appends the low `width` decimal digits of `n`.
fn push_fixed_digits(out: &mut String, n: u64, width: u32)
    ensures
        final(out)@ == old(out)@ + fixed_digits(n as nat, width as nat),
    decreases width,
{
    if width > 0 {
        push_fixed_digits(out, n / 10, width - 1);
        out.append(digit_str(n % 10));
    }
}

/// The absolute value of `units`.
pub fn magnitude_of(units: i64) -> (m: u64)
    ensures
        m == magnitude(units as int),
{
    if units < 0 {
        let below: i64 = -(units + 1);
        below as u64 + 1
    } else {
        units as u64
    }
}

/// Appends the decimal text of an angle.
pub fn push_degrees(out: &mut String, units: i64)
    ensures
        final(out)@ == old(out)@ + degrees_text(units as int),
{
    let m = magnitude_of(units);
    let whole: u64 = m / UNITS_PER_DEGREE;
    let fraction: u64 = m % UNITS_PER_DEGREE;
    if units < 0 {
        out.append("-");
    }
    push_decimal(out, whole);
    if fraction == 0 {
        proof {
            lemma_trim_zero(7);
        }
    } else {
        let mut digits: u64 = fraction;
        let mut width: u32 = FRACTION_PLACES;
        proof {
            reveal_with_fuel(pow10, 8);
        }
        while digits % 10 == 0
            invariant
                0 < digits < pow10(width as nat),
                trim_zeros(fixed_digits(digits as nat, width as nat)) == trim_zeros(
                    fixed_digits(fraction as nat, 7),
                ),
            decreases digits,
        {
            proof {
                lemma_trim_last_zero(digits as nat, width as nat);
            }
            digits = digits / 10;
            width = width - 1;
        }
        proof {
            lemma_trim_last_nonzero(digits as nat, width as nat);
        }
        out.append(".");
        push_fixed_digits(out, digits, width);
    }
}

/// Whether `c` is a decimal digit.
pub open spec fn is_digit(c: char) -> bool {
    '0' <= c <= '9'
}

/// The number that the digit `c` stands for.
pub open spec fn digit_value(c: char) -> nat
    recommends
        is_digit(c),
{
    (c as int - '0' as int) as nat
}

/// Whether `digits` holds decimal digits and nothing else.
pub open spec fn digits_only(digits: Seq<char>) -> bool {
    forall|i: int| 0 <= i < digits.len() ==> is_digit(#[trigger] digits[i])
}

/// The number that a string of digits denotes; zero for the empty string.
pub open spec fn digits_value(digits: Seq<char>) -> nat
    decreases digits.len(),
{
    if digits.len() == 0 {
        0
    } else {
        digits_value(digits.drop_last()) * 10 + digit_value(digits.last())
    }
}

/// How many digits `text` starts with.
pub open spec fn leading_digits(text: Seq<char>) -> nat
    decreases text.len(),
{
    if text.len() > 0 && is_digit(text[0]) {
        1 + leading_digits(text.skip(1))
    } else {
        0
    }
}

/// Whether `text` starts with a sign.
pub open spec fn has_sign(text: Seq<char>) -> bool {
    text.len() > 0 && (text[0] == '-' || text[0] == '+')
}

/// `text` without its sign.
pub open spec fn unsigned_part(text: Seq<char>) -> Seq<char> {
    if has_sign(text) {
        text.skip(1)
    } else {
        text
    }
}

/// The digits before the decimal point.
pub open spec fn whole_part(text: Seq<char>) -> Seq<char> {
    let body = unsigned_part(text);
    body.take(leading_digits(body) as int)
}

/// What follows the whole part.
pub open spec fn after_whole(text: Seq<char>) -> Seq<char> {
    let body = unsigned_part(text);
    body.skip(leading_digits(body) as int)
}

/// Whether `rest` starts with a decimal point.
pub open spec fn has_point(rest: Seq<char>) -> bool {
    rest.len() > 0 && rest[0] == '.'
}

/// `rest` without the decimal point that it starts with, if any.
pub open spec fn after_point(rest: Seq<char>) -> Seq<char> {
    if has_point(rest) {
        rest.skip(1)
    } else {
        rest
    }
}

/// The digits after the decimal point that `rest` starts with; none where
/// it starts with none.
pub open spec fn fraction_of(rest: Seq<char>) -> Seq<char> {
    if has_point(rest) {
        after_point(rest).take(leading_digits(after_point(rest)) as int)
    } else {
        Seq::empty()
    }
}

/// What follows the point and its digits in `rest`.
pub open spec fn behind_fraction(rest: Seq<char>) -> Seq<char> {
    after_point(rest).skip(fraction_of(rest).len() as int)
}

/// The digits after the decimal point.
pub open spec fn fraction_part(text: Seq<char>) -> Seq<char> {
    fraction_of(after_whole(text))
}

/// What follows the digits: nothing, or the exponent behind its mark.
pub open spec fn after_fraction(text: Seq<char>) -> Seq<char> {
    behind_fraction(after_whole(text))
}

/// Whether `tail` is an exponent: `e` or `E`, an optional sign and at least
/// one digit.
pub open spec fn is_exponent(tail: Seq<char>) -> bool {
    &&& tail.len() > 0
    &&& tail[0] == 'e' || tail[0] == 'E'
    &&& unsigned_part(tail.skip(1)).len() > 0
    &&& digits_only(unsigned_part(tail.skip(1)))
}

/// The power of ten that an exponent names; zero for the empty text.
pub open spec fn exponent_of(tail: Seq<char>) -> int {
    if tail.len() == 0 {
        0
    } else {
        let size = digits_value(unsigned_part(tail.skip(1)));
        if tail.len() > 1 && tail[1] == '-' {
            -(size as int)
        } else {
            size as int
        }
    }
}

/// Whether `text` is a decimal numeral: an optional sign; digits with at
/// most one decimal point among them, before them or after them, and at
/// least one digit; and an optional exponent, which is `e` or `E`, an
/// optional sign and at least one digit. There is no name for infinity.
pub open spec fn is_decimal(text: Seq<char>) -> bool {
    &&& whole_part(text).len() + fraction_part(text).len() > 0
    &&& after_fraction(text).len() > 0 ==> is_exponent(after_fraction(text))
}

/// The power of ten that the exponent names; zero where there is none.
pub open spec fn exponent(text: Seq<char>) -> int {
    exponent_of(after_fraction(text))
}

/// The digits of a numeral, those before the point and those after it.
pub open spec fn all_digits(text: Seq<char>) -> Seq<char> {
    whole_part(text) + fraction_part(text)
}

/// The digit at place `i` of a string of digits, zero beyond its end.
pub open spec fn digit_at(digits: Seq<char>, i: int) -> nat {
    if 0 <= i < digits.len() {
        digit_value(digits[i])
    } else {
        0
    }
}

/// The number that the first `places` places of a string of digits
/// denote.
pub open spec fn leading_places(digits: Seq<char>, places: nat) -> nat
    decreases places,
{
    if places == 0 {
        0
    } else {
        leading_places(digits, (places - 1) as nat) * 10 + digit_at(digits, places - 1)
    }
}

/// How many of a numeral's digits stand before the place that decides the
/// rounding, plus one: the exponent moves the point, and the eighth place
/// behind the moved point decides.
pub open spec fn rounding_place(text: Seq<char>) -> nat {
    let place = whole_part(text).len() + exponent(text) + FRACTION_PLACES + 1;
    if place < 0 {
        0
    } else {
        place as nat
    }
}

/// The absolute value of a decimal numeral in units of 10^-7, rounded to the
/// nearest unit, a half going up.
pub open spec fn decimal_magnitude(text: Seq<char>) -> nat {
    (leading_places(all_digits(text), rounding_place(text)) + 5) / 10
}

/// The angle that a decimal numeral of degrees denotes, in units of 10^-7
/// degree; `None` where `text` is no decimal numeral or the angle does not
/// fit in 64 bits.
pub open spec fn parsed_degrees(text: Seq<char>) -> Option<int> {
    if is_decimal(text) && decimal_magnitude(text) <= i64::MAX {
        if text[0] == '-' {
            Some(-(decimal_magnitude(text) as int))
        } else {
            Some(decimal_magnitude(text) as int)
        }
    } else {
        None
    }
}

/// The place where the digits at the start of `text` end.
proof fn lemma_leading_digits(text: Seq<char>, k: int)
    requires
        0 <= k <= text.len(),
        forall|j: int| 0 <= j < k ==> is_digit(#[trigger] text[j]),
        k == text.len() || !is_digit(text[k]),
    ensures
        leading_digits(text) == k,
    decreases k,
{
    if k > 0 {
        let rest = text.skip(1);
        assert forall|j: int| 0 <= j < k - 1 implies is_digit(#[trigger] rest[j]) by {
            assert(rest[j] == text[j + 1]);
        }
        lemma_leading_digits(rest, k - 1);
    }
}

/// The digits at the start of `text` are digits.
proof fn lemma_leading_digits_are_digits(text: Seq<char>)
    ensures
        leading_digits(text) <= text.len(),
        forall|j: int| 0 <= j < leading_digits(text) ==> is_digit(#[trigger] text[j]),
        leading_digits(text) == text.len() || !is_digit(text[leading_digits(text) as int]),
    decreases text.len(),
{
    if text.len() > 0 && is_digit(text[0]) {
        let rest = text.skip(1);
        lemma_leading_digits_are_digits(rest);
        assert forall|j: int| 0 <= j < leading_digits(text) implies is_digit(
            #[trigger] text[j],
        ) by {
            if j > 0 {
                assert(text[j] == rest[j - 1]);
            }
        }
        if leading_digits(text) < text.len() {
            assert(text[leading_digits(text) as int] == rest[leading_digits(rest) as int]);
        }
    }
}

/// One more digit multiplies the number by ten and adds the digit.
proof fn lemma_digits_value_step(digits: Seq<char>, i: int)
    requires
        0 <= i < digits.len(),
    ensures
        digits_value(digits.take(i + 1)) == digits_value(digits.take(i)) * 10 + digit_value(
            digits[i],
        ),
{
    assert(digits.take(i + 1).drop_last() =~= digits.take(i));
}

/// Every decimal digit's character is a digit and stands for the digit.
proof fn lemma_digit_char(d: int)
    requires
        0 <= d < 10,
    ensures
        is_digit(digit_char(d)),
        digit_value(digit_char(d)) == d,
{
}

/// A numeral holds digits only, at least one, and denotes its number.
proof fn lemma_decimal_digits(n: nat)
    ensures
        decimal(n).len() > 0,
        digits_only(decimal(n)),
        digits_value(decimal(n)) == n,
    decreases n,
{
    lemma_digit_char((n % 10) as int);
    assert(digits_value(Seq::<char>::empty()) == 0);
    if n >= 10 {
        lemma_decimal_digits(n / 10);
        let shorter = decimal(n / 10);
        assert(decimal(n).drop_last() =~= shorter);
        assert(decimal(n).last() == digit_char((n % 10) as int));
        assert forall|i: int| 0 <= i < decimal(n).len() implies is_digit(
            #[trigger] decimal(n)[i],
        ) by {
            if i < shorter.len() {
                assert(decimal(n)[i] == shorter[i]);
            }
        }
    } else {
        assert(decimal(n).drop_last() =~= Seq::<char>::empty());
    }
}

/// Fixed digits are digits, as many as asked for.
proof fn lemma_fixed_digits(n: nat, width: nat)
    ensures
        fixed_digits(n, width).len() == width,
        digits_only(fixed_digits(n, width)),
    decreases width,
{
    if width > 0 {
        lemma_fixed_digits(n / 10, (width - 1) as nat);
        lemma_digit_char((n % 10) as int);
        let shorter = fixed_digits(n / 10, (width - 1) as nat);
        assert forall|i: int| 0 <= i < fixed_digits(n, width).len() implies is_digit(
            #[trigger] fixed_digits(n, width)[i],
        ) by {
            if i < shorter.len() {
                assert(fixed_digits(n, width)[i] == shorter[i]);
            }
        }
    }
}

/// Trimming leaves a prefix, and what it takes away is zeros: no place
/// changes its digit.
proof fn lemma_trim_zeros(digits: Seq<char>)
    ensures
        trim_zeros(digits).len() <= digits.len(),
        trim_zeros(digits) == digits.take(trim_zeros(digits).len() as int),
        forall|i: int| digit_at(trim_zeros(digits), i) == digit_at(digits, i),
    decreases digits.len(),
{
    if digits.len() > 0 && digits.last() == '0' {
        let shorter = digits.drop_last();
        lemma_trim_zeros(shorter);
        let kept = trim_zeros(shorter);
        assert(kept =~= digits.take(kept.len() as int));
        assert forall|i: int| digit_at(trim_zeros(digits), i) == digit_at(digits, i) by {
            assert(digit_at(kept, i) == digit_at(shorter, i));
            if 0 <= i < shorter.len() {
                assert(shorter[i] == digits[i]);
            }
        }
    } else {
        assert(digits =~= digits.take(digits.len() as int));
    }
}

/// The number of the leading places depends on the digits of those places
/// alone.
proof fn lemma_leading_places_same(a: Seq<char>, b: Seq<char>, places: nat)
    requires
        forall|i: int| 0 <= i < places ==> digit_at(a, i) == digit_at(b, i),
    ensures
        leading_places(a, places) == leading_places(b, places),
    decreases places,
{
    if places > 0 {
        lemma_leading_places_same(a, b, (places - 1) as nat);
    }
}

/// Fixed digits denote the number they were made of.
proof fn lemma_fixed_digits_value(n: nat, width: nat)
    requires
        n < pow10(width),
    ensures
        leading_places(fixed_digits(n, width), width) == n,
    decreases width,
{
    if width > 0 {
        let shorter = fixed_digits(n / 10, (width - 1) as nat);
        let all = fixed_digits(n, width);
        lemma_fixed_digits(n / 10, (width - 1) as nat);
        lemma_fixed_digits_value(n / 10, (width - 1) as nat);
        lemma_digit_char((n % 10) as int);
        assert forall|i: int| 0 <= i < width - 1 implies digit_at(all, i) == digit_at(
            shorter,
            i,
        ) by {
            assert(all[i] == shorter[i]);
        }
        lemma_leading_places_same(all, shorter, (width - 1) as nat);
        assert(digit_at(all, width - 1) == n % 10);
    }
}

/// The number of the leading places never shrinks as places are added.
proof fn lemma_leading_places_grow(digits: Seq<char>, p: nat, q: nat)
    requires
        p <= q,
    ensures
        leading_places(digits, p) <= leading_places(digits, q),
    decreases q,
{
    if p < q {
        lemma_leading_places_grow(digits, p, (q - 1) as nat);
    }
}

/// Each place beyond the end of the digits multiplies the number by ten.
proof fn lemma_leading_places_padding(digits: Seq<char>, p: nat, k: nat)
    requires
        p >= digits.len(),
    ensures
        leading_places(digits, p + k) == leading_places(digits, p) * pow10(k),
    decreases k,
{
    let start = leading_places(digits, p);
    if k > 0 {
        lemma_leading_places_padding(digits, p, (k - 1) as nat);
        let before = leading_places(digits, (p + k - 1) as nat);
        let power = pow10((k - 1) as nat);
        assert(before == start * power);
        assert(leading_places(digits, p + k) == before * 10);
        assert(start * power * 10 == start * (10 * power)) by (nonlinear_arith);
    } else {
        assert(start * 1 == start) by (nonlinear_arith);
    }
}

/// Powers of ten grow with the exponent.
proof fn lemma_pow10_grows(j: nat, k: nat)
    requires
        j <= k,
    ensures
        1 <= pow10(j) <= pow10(k),
    decreases k,
{
    if k > 0 {
        if j < k {
            lemma_pow10_grows(j, (k - 1) as nat);
        } else {
            lemma_pow10_grows((j - 1) as nat, (k - 1) as nat);
        }
    }
}

/// All the places of a string of digits denote the number of the string.
proof fn lemma_leading_places_all(digits: Seq<char>)
    ensures
        leading_places(digits, digits.len()) == digits_value(digits),
    decreases digits.len(),
{
    if digits.len() > 0 {
        let shorter = digits.drop_last();
        lemma_leading_places_all(shorter);
        assert forall|i: int| 0 <= i < shorter.len() implies digit_at(digits, i) == digit_at(
            shorter,
            i,
        ) by {
            assert(digits[i] == shorter[i]);
        }
        lemma_leading_places_same(digits, shorter, shorter.len());
    }
}

/// The places of two strings of digits in a row: those of the first
/// string, then those of the second.
proof fn lemma_leading_places_joined(a: Seq<char>, b: Seq<char>, k: nat)
    ensures
        leading_places(a + b, a.len() + k) == digits_value(a) * pow10(k) + leading_places(b, k),
    decreases k,
{
    let joined = a + b;
    let first = digits_value(a);
    if k == 0 {
        lemma_leading_places_all(a);
        assert forall|i: int| 0 <= i < a.len() implies digit_at(joined, i) == digit_at(a, i) by {
            assert(joined[i] == a[i]);
        }
        lemma_leading_places_same(joined, a, a.len());
        assert(first * 1 == first) by (nonlinear_arith);
    } else {
        lemma_leading_places_joined(a, b, (k - 1) as nat);
        let power = pow10((k - 1) as nat);
        let second = leading_places(b, (k - 1) as nat);
        let before = leading_places(joined, (a.len() + k - 1) as nat);
        assert(before == first * power + second);
        assert(digit_at(joined, a.len() + k - 1) == digit_at(b, k - 1)) by {
            if k - 1 < b.len() {
                assert(joined[a.len() + k - 1] == b[k - 1]);
            }
        }
        assert(leading_places(joined, a.len() + k) == before * 10 + digit_at(b, k - 1));
        assert((first * power + second) * 10 == first * (10 * power) + second * 10)
            by (nonlinear_arith);
    }
}

/// A string of digits starts with all its digits.
proof fn lemma_leading_digits_all(digits: Seq<char>)
    requires
        digits_only(digits),
    ensures
        leading_digits(digits) == digits.len(),
{
    lemma_leading_digits(digits, digits.len() as int);
}

/// The parts of an angle's text: the numeral of the whole degrees, the
/// trimmed fraction, and no exponent.
proof fn lemma_text_parts(units: int)
    ensures
        whole_part(degrees_text(units)) == decimal(magnitude(units) / 10_000_000),
        fraction_part(degrees_text(units)) == trim_zeros(
            fixed_digits(magnitude(units) % 10_000_000, 7),
        ),
        after_fraction(degrees_text(units)).len() == 0,
        is_decimal(degrees_text(units)),
        (degrees_text(units)[0] == '-') == (units < 0),
{
    reveal_strlit("-");
    reveal_strlit(".");
    let size = magnitude(units);
    let whole = decimal(size / 10_000_000);
    let places = fixed_digits(size % 10_000_000, 7);
    let fraction = trim_zeros(places);
    let tail = if fraction.len() == 0 {
        Seq::<char>::empty()
    } else {
        "."@ + fraction
    };
    let text = degrees_text(units);
    lemma_decimal_digits(size / 10_000_000);
    lemma_fixed_digits(size % 10_000_000, 7);
    lemma_trim_zeros(places);

    // The sign.
    let body = unsigned_part(text);
    assert(is_digit(whole[0]));
    if units < 0 {
        assert(text =~= "-"@ + (whole + tail));
        assert(text[0] == '-');
    } else {
        assert(text =~= whole + tail);
        assert(text[0] == whole[0]);
        assert(!has_sign(text));
    }
    assert(body =~= whole + tail);

    // The whole part.
    assert forall|j: int| 0 <= j < whole.len() implies is_digit(#[trigger] body[j]) by {
        assert(body[j] == whole[j]);
    }
    if fraction.len() > 0 {
        assert(body[whole.len() as int] == '.');
    }
    lemma_leading_digits(body, whole.len() as int);
    assert(whole_part(text) =~= whole);
    assert(after_whole(text) =~= tail);

    // The fraction, behind which nothing stands.
    assert forall|i: int| 0 <= i < fraction.len() implies is_digit(#[trigger] fraction[i]) by {
        assert(fraction[i] == places[i]);
    }
    lemma_leading_digits_all(fraction);
    if fraction.len() > 0 {
        assert(has_point(tail));
        assert(after_point(tail) =~= fraction);
        assert(fraction.take(fraction.len() as int) =~= fraction);
        assert(fraction.skip(fraction.len() as int) =~= Seq::<char>::empty());
    }
    assert(fraction_part(text) =~= fraction);
    assert(after_fraction(text) =~= Seq::<char>::empty());
}

/// An angle's text reads back as the angle: writing and reading are
/// inverse wherever the angle's absolute value fits in 64 bits.
pub proof fn lemma_text_round_trip(units: int)
    requires
        -i64::MAX <= units <= i64::MAX,
    ensures
        parsed_degrees(degrees_text(units)) == Some(units),
{
    let size = magnitude(units);
    let degrees = size / 10_000_000;
    let whole = decimal(degrees);
    let places = fixed_digits(size % 10_000_000, 7);
    let fraction = trim_zeros(places);
    let text = degrees_text(units);
    lemma_text_parts(units);
    assert(exponent(text) == 0);
    assert(rounding_place(text) == whole.len() + 8);
    assert(all_digits(text) == whole + fraction);

    reveal_with_fuel(pow10, 9);
    lemma_decimal_digits(degrees);
    lemma_fixed_digits(size % 10_000_000, 7);
    lemma_fixed_digits_value(size % 10_000_000, 7);
    lemma_trim_zeros(places);
    lemma_leading_places_joined(whole, fraction, 8);
    lemma_leading_places_same(fraction, places, 8);
    assert(digit_at(places, 7) == 0);
    assert(leading_places(places, 8) == (size % 10_000_000) * 10);
    assert(pow10(8) == 100_000_000);
    assert(leading_places(whole + fraction, whole.len() + 8) == degrees * 100_000_000 + (size
        % 10_000_000) * 10);
    assert(decimal_magnitude(text) == size);
}

/// A text is ASCII where both its parts at a cut are.
proof fn lemma_ascii_cut(text: Seq<char>, k: int)
    requires
        0 <= k <= text.len(),
        is_ascii_chars(text.take(k)),
        is_ascii_chars(text.skip(k)),
    ensures
        is_ascii_chars(text),
{
    assert forall|i: int| 0 <= i < text.len() implies '\0' <= #[trigger] text[i] <= '\u{7f}' by {
        if i < k {
            assert(text.take(k)[i] == text[i]);
        } else {
            assert(text.skip(k)[i - k] == text[i]);
        }
    }
}

/// A decimal numeral holds ASCII characters only.
proof fn lemma_decimal_is_ascii(text: Seq<char>)
    requires
        is_decimal(text),
    ensures
        is_ascii_chars(text),
{
    let body = unsigned_part(text);
    let rest = after_whole(text);
    let pointless = after_point(rest);
    let tail = after_fraction(text);
    if tail.len() > 0 {
        let power = tail.skip(1);
        if has_sign(power) {
            assert(power.take(1)[0] == power[0]);
            lemma_ascii_cut(power, 1);
        }
        assert(tail.take(1)[0] == tail[0]);
        lemma_ascii_cut(tail, 1);
    }
    assert(is_ascii_chars(tail));
    lemma_leading_digits_all(Seq::<char>::empty());
    if has_point(rest) {
        lemma_leading_digits_are_digits(pointless);
        let k = leading_digits(pointless) as int;
        assert forall|i: int| 0 <= i < k implies '\0' <= #[trigger] pointless.take(k)[i]
            <= '\u{7f}' by {
            assert(is_digit(pointless[i]));
        }
        assert(fraction_of(rest) == pointless.take(k));
        lemma_fraction_length(rest);
        lemma_ascii_cut(pointless, k);
        assert(rest.take(1)[0] == rest[0]);
        lemma_ascii_cut(rest, 1);
    } else {
        assert(pointless.skip(0) =~= pointless);
    }
    assert(is_ascii_chars(rest));
    lemma_leading_digits_are_digits(body);
    let k = leading_digits(body) as int;
    assert forall|i: int| 0 <= i < k implies '\0' <= #[trigger] body.take(k)[i] <= '\u{7f}' by {
        assert(is_digit(body[i]));
    }
    lemma_ascii_cut(body, k);
    if has_sign(text) {
        assert(text.take(1)[0] == text[0]);
        lemma_ascii_cut(text, 1);
    }
}

/// The digits of a fraction are digits, as many as the text behind the
/// point starts with.
proof fn lemma_fraction_length(rest: Seq<char>)
    ensures
        digits_only(fraction_of(rest)),
        leading_digits(fraction_of(rest)) == fraction_of(rest).len(),
        has_point(rest) ==> fraction_of(rest).len() == leading_digits(after_point(rest)),
        !has_point(rest) ==> fraction_of(rest).len() == 0,
{
    let fraction = fraction_of(rest);
    if has_point(rest) {
        lemma_leading_digits_are_digits(after_point(rest));
        assert forall|i: int| 0 <= i < fraction.len() implies is_digit(#[trigger] fraction[i]) by {
            assert(fraction[i] == after_point(rest)[i]);
        }
    }
    lemma_leading_digits_all(fraction);
}

/// The character at place `i` of an ASCII text, as a byte.
fn byte_at(text: &str, i: usize) -> (byte: u8)
    requires
        text.is_ascii(),
        i < text@.len(),
    ensures
        byte as int == text@[i as int] as int,
{
    let byte = text.get_ascii(i);
    assert('\0' <= text@[i as int] <= '\u{7f}');
    byte
}

/// Whether the character at place `i` of an ASCII text is a decimal digit.
fn is_digit_at(text: &str, i: usize) -> (yes: bool)
    requires
        text.is_ascii(),
        i < text@.len(),
    ensures
        yes == is_digit(text@[i as int]),
{
    let byte = byte_at(text, i);
    0x30 <= byte && byte <= 0x39
}

/// The largest exponent that is read exactly. A numeral with a larger one
/// denotes zero or a number beyond every bound.
const EXPONENT_LIMIT: u128 = 1_000_000_000_000_000_000_000_000_000_000;

/// The largest number of places that rounds to an angle of 64 bits.
const ROUNDING_LIMIT: u128 = 92_233_720_368_547_758_074;

/// Reads the digits that `text` holds from place `start` on. Returns the
/// place where they end and the number they denote, or `None` for a number
/// beyond `EXPONENT_LIMIT`.
fn read_digits(text: &str, n: usize, start: usize) -> (result: (usize, Option<u128>))
    requires
        text.is_ascii(),
        n == text@.len(),
        start <= n,
    ensures
        result.0 == start + leading_digits(text@.skip(start as int)),
        start <= result.0 <= n,
        digits_only(text@.subrange(start as int, result.0 as int)),
        match result.1 {
            Some(value) => value == digits_value(text@.subrange(start as int, result.0 as int))
                && value <= EXPONENT_LIMIT,
            None => digits_value(text@.subrange(start as int, result.0 as int))
                > EXPONENT_LIMIT,
        },
{
    let ghost body = text@.skip(start as int);
    let mut i: usize = start;
    let mut value: u128 = 0;
    let mut fits = true;
    while i < n && is_digit_at(text, i)
        invariant
            text.is_ascii(),
            n == text@.len(),
            start <= i <= n,
            body == text@.skip(start as int),
            forall|j: int| 0 <= j < i - start ==> is_digit(#[trigger] body[j]),
            value <= EXPONENT_LIMIT,
            fits ==> value == digits_value(body.take(i - start)),
            !fits ==> digits_value(body.take(i - start)) > EXPONENT_LIMIT,
        decreases n - i,
    {
        let digit: u128 = (byte_at(text, i) - 0x30) as u128;
        proof {
            assert(body[i - start] == text@[i as int]);
            lemma_digits_value_step(body, i - start);
        }
        if fits {
            value = value * 10 + digit;
            if value > EXPONENT_LIMIT {
                fits = false;
                value = 0;
            }
        }
        i = i + 1;
    }
    proof {
        if i < n {
            assert(body[i - start] == text@[i as int]);
        }
        lemma_leading_digits(body, i - start);
        assert(body.take(i - start) =~= text@.subrange(start as int, i as int));
    }
    if fits {
        (i, Some(value))
    } else {
        (i, None)
    }
}

/// Whether a sign and a size are those of the exponent `power`. Beyond
/// `EXPONENT_LIMIT` there is no size, and the sign says on which side the
/// exponent lies.
spec fn exponent_reads(power: int, negative: bool, size: Option<u128>) -> bool {
    match size {
        Some(size) => size <= EXPONENT_LIMIT && power == if negative {
            -(size as int)
        } else {
            size as int
        },
        None => if negative {
            power < -(EXPONENT_LIMIT as int)
        } else {
            power > EXPONENT_LIMIT
        },
    }
}

/// Where the parts of a decimal numeral stand in its text.
struct Layout {
    negative: bool,
    start: usize,
    whole_end: usize,
    fraction_start: usize,
    fraction_end: usize,
    exponent_negative: bool,
    /// The size of the exponent, or `None` beyond `EXPONENT_LIMIT`.
    exponent_size: Option<u128>,
}

impl Layout {
    /// Whether the layout is that of the numeral `text`.
    spec fn describes(self, text: Seq<char>) -> bool {
        &&& self.start <= self.whole_end <= self.fraction_start <= self.fraction_end <= text.len()
        &&& self.negative == (text.len() > 0 && text[0] == '-')
        &&& whole_part(text) == text.subrange(self.start as int, self.whole_end as int)
        &&& fraction_part(text) == text.subrange(
            self.fraction_start as int,
            self.fraction_end as int,
        )
        &&& digits_only(whole_part(text))
        &&& digits_only(fraction_part(text))
        &&& exponent_reads(exponent(text), self.exponent_negative, self.exponent_size)
    }
}

/// Reads the exponent that `text` holds from place `at` to its end: whether
/// it is negative, and its size, or `None` for a size beyond
/// `EXPONENT_LIMIT`. Returns `None` where no exponent stands there.
fn scan_exponent(text: &str, n: usize, at: usize) -> (result: Option<(bool, Option<u128>)>)
    requires
        text.is_ascii(),
        n == text@.len(),
        at < n,
    ensures
        match result {
            Some(found) => is_exponent(text@.skip(at as int)) && exponent_reads(
                exponent_of(text@.skip(at as int)),
                found.0,
                found.1,
            ),
            None => !is_exponent(text@.skip(at as int)),
        },
{
    let ghost tail = text@.skip(at as int);
    let mark = byte_at(text, at);
    assert(tail[0] == text@[at as int]);
    if mark != 0x65 && mark != 0x45 {
        return None;
    }
    let sign_at: usize = at + 1;
    let ghost power = tail.skip(1);
    assert(power =~= text@.skip(sign_at as int));
    let negative = sign_at < n && byte_at(text, sign_at) == 0x2d;
    let signed = sign_at < n && (negative || byte_at(text, sign_at) == 0x2b);
    proof {
        if sign_at < n {
            assert(power[0] == text@[sign_at as int]);
            assert(tail[1] == text@[sign_at as int]);
        }
    }
    assert(signed == has_sign(power));
    let digits_at: usize = if signed {
        sign_at + 1
    } else {
        sign_at
    };
    let ghost size_digits = unsigned_part(power);
    assert(size_digits =~= text@.skip(digits_at as int));
    let (end, size) = read_digits(text, n, digits_at);
    proof {
        lemma_leading_digits_are_digits(size_digits);
        if end == n {
            assert(text@.subrange(digits_at as int, n as int) =~= size_digits);
        }
    }
    if end == digits_at || end < n {
        proof {
            if end < n && digits_only(size_digits) {
                lemma_leading_digits_all(size_digits);
            }
        }
        return None;
    }
    Some((negative, size))
}

/// Finds the fraction that `text` holds from place `at` on, behind a
/// decimal point: where its digits start and where they end. Without a
/// point there, both are `at`.
fn scan_fraction(text: &str, n: usize, at: usize) -> (span: (usize, usize))
    requires
        text.is_ascii(),
        n == text@.len(),
        at <= n,
    ensures
        at <= span.0 <= span.1 <= n,
        fraction_of(text@.skip(at as int)) == text@.subrange(span.0 as int, span.1 as int),
        behind_fraction(text@.skip(at as int)) == text@.skip(span.1 as int),
        digits_only(text@.subrange(span.0 as int, span.1 as int)),
{
    let ghost rest = text@.skip(at as int);
    proof {
        lemma_fraction_length(rest);
    }
    let pointed = at < n && byte_at(text, at) == 0x2e;
    proof {
        if at < n {
            assert(rest[0] == text@[at as int]);
        }
    }
    if pointed {
        assert(after_point(rest) =~= text@.skip(at + 1));
        let end = read_digits(text, n, at + 1).0;
        assert(fraction_of(rest) =~= text@.subrange(at + 1, end as int));
        assert(behind_fraction(rest) =~= text@.skip(end as int));
        (at + 1, end)
    } else {
        assert(fraction_of(rest) =~= text@.subrange(at as int, at as int));
        assert(behind_fraction(rest) =~= text@.skip(at as int));
        (at, at)
    }
}

/// Finds the sign that `text` starts with, if any: whether it is a minus
/// sign, and where the text goes on behind it.
fn scan_sign(text: &str, n: usize) -> (sign: (bool, usize))
    requires
        text.is_ascii(),
        n == text@.len(),
    ensures
        sign.0 == (n > 0 && text@[0] == '-'),
        sign.1 <= n,
        unsigned_part(text@) == text@.skip(sign.1 as int),
{
    let negative = n > 0 && byte_at(text, 0) == 0x2d;
    let signed = n > 0 && (negative || byte_at(text, 0) == 0x2b);
    if signed {
        (negative, 1)
    } else {
        assert(text@.skip(0) =~= text@);
        (negative, 0)
    }
}

/// Finds the parts of a decimal numeral, or that `text` is none.
fn scan(text: &str) -> (layout: Option<Layout>)
    requires
        text.is_ascii(),
    ensures
        match layout {
            Some(found) => is_decimal(text@) && found.describes(text@),
            None => !is_decimal(text@),
        },
{
    let n = text.as_bytes().len();
    assert(n == text@.len()) by {
        vstd::string::is_ascii_spec_bytes(text);
    }
    let (negative, start) = scan_sign(text, n);
    let whole_end = read_digits(text, n, start).0;
    assert(whole_part(text@) =~= text@.subrange(start as int, whole_end as int));
    assert(after_whole(text@) =~= text@.skip(whole_end as int));
    let (fraction_start, fraction_end) = scan_fraction(text, n, whole_end);
    let mut exponent_negative = false;
    let mut exponent_size: Option<u128> = Some(0);
    if fraction_end < n {
        match scan_exponent(text, n, fraction_end) {
            None => {
                return None;
            },
            Some(found) => {
                exponent_negative = found.0;
                exponent_size = found.1;
            },
        }
    }
    if (whole_end - start) + (fraction_end - fraction_start) == 0 {
        return None;
    }
    Some(
        Layout {
            negative,
            start,
            whole_end,
            fraction_start,
            fraction_end,
            exponent_negative,
            exponent_size,
        },
    )
}

/// Reads the digits of `text` from `from` to `to` as further places, `room`
/// of them at most. `all` holds these digits from place `done` on, and
/// `acc` is the number of its first `done` places. Returns the number of the
/// places read so far, or `None` where it is beyond `ROUNDING_LIMIT`.
fn read_places(
    text: &str,
    from: usize,
    to: usize,
    acc: u128,
    room: u128,
    Ghost(all): Ghost<Seq<char>>,
    Ghost(done): Ghost<nat>,
) -> (result: Option<u128>)
    requires
        text.is_ascii(),
        from <= to <= text@.len(),
        done + (to - from) <= all.len(),
        forall|j: int| 0 <= j < to - from ==> #[trigger] all[done + j] == text@[from + j],
        forall|j: int| from <= j < to ==> is_digit(#[trigger] text@[j]),
        acc == leading_places(all, done),
        acc <= ROUNDING_LIMIT,
    ensures
        match result {
            Some(value) => value <= ROUNDING_LIMIT && value == leading_places(
                all,
                places_read(done, room as nat, (to - from) as nat),
            ),
            None => leading_places(all, places_read(done, room as nat, (to - from) as nat))
                > ROUNDING_LIMIT,
        },
{
    let mut value: u128 = acc;
    let mut i: usize = from;
    let mut left: u128 = room;
    while i < to && left > 0
        invariant
            text.is_ascii(),
            from <= i <= to <= text@.len(),
            done + (to - from) <= all.len(),
            forall|j: int| 0 <= j < to - from ==> #[trigger] all[done + j] == text@[from + j],
            forall|j: int| from <= j < to ==> is_digit(#[trigger] text@[j]),
            left + (i - from) == room,
            value == leading_places(all, (done + (i - from)) as nat),
            value <= ROUNDING_LIMIT,
        decreases to - i,
    {
        let digit: u128 = (byte_at(text, i) - 0x30) as u128;
        proof {
            assert(is_digit(text@[i as int]));
            assert(all[done + (i - from)] == text@[i as int]);
            assert(digit_at(all, done + (i - from)) == digit);
        }
        value = value * 10 + digit;
        if value > ROUNDING_LIMIT {
            proof {
                lemma_leading_places_grow(
                    all,
                    (done + (i - from) + 1) as nat,
                    places_read(done, room as nat, (to - from) as nat),
                );
            }
            return None;
        }
        i = i + 1;
        left = left - 1;
    }
    Some(value)
}

/// How many places have been read once `room` more, and no more than `width`,
/// are added to `done`.
spec fn places_read(done: nat, room: nat, width: nat) -> nat {
    if room < width {
        done + room
    } else {
        done + width
    }
}

/// Adds `left` places beyond the end of the digits `all` to the number
/// `value` of the places read so far, `reached` of them. Returns the number
/// of all the places, or `None` where it is beyond `ROUNDING_LIMIT`.
fn pad_places(
    value: u128,
    left: u128,
    Ghost(all): Ghost<Seq<char>>,
    Ghost(reached): Ghost<nat>,
) -> (result: Option<u128>)
    requires
        reached >= all.len(),
        value == leading_places(all, reached),
        value <= ROUNDING_LIMIT,
    ensures
        match result {
            Some(padded) => padded <= ROUNDING_LIMIT && padded == leading_places(
                all,
                reached + left as nat,
            ),
            None => leading_places(all, reached + left as nat) > ROUNDING_LIMIT,
        },
{
    if value == 0 {
        proof {
            lemma_leading_places_padding(all, reached, left as nat);
            assert(0 * pow10(left as nat) == 0) by (nonlinear_arith);
        }
        return Some(0);
    }
    let mut padded: u128 = value;
    let mut more: u128 = left;
    while more > 0
        invariant
            more <= left,
            reached >= all.len(),
            padded == leading_places(all, (reached + (left - more)) as nat),
            padded <= ROUNDING_LIMIT,
        decreases more,
    {
        proof {
            assert(digit_at(all, reached + (left - more)) == 0);
        }
        padded = padded * 10;
        if padded > ROUNDING_LIMIT {
            proof {
                lemma_leading_places_grow(
                    all,
                    (reached + (left - more) + 1) as nat,
                    reached + left as nat,
                );
            }
            return None;
        }
        more = more - 1;
    }
    Some(padded)
}

/// How many places of a numeral count: as many as stand before its
/// rounding place. Beyond the exponent limit a negative exponent leaves
/// none; a positive one puts the rounding place far behind the digits, and
/// the answer is then the number of digits with `true`.
fn places_to_read(text: &str, layout: &Layout) -> (budget: (u128, bool))
    requires
        layout.describes(text@),
    ensures
        !budget.1 ==> budget.0 == rounding_place(text@),
        budget.1 ==> budget.0 == all_digits(text@).len() && rounding_place(text@)
            >= all_digits(text@).len() + 20,
{
    let whole_len: u128 = (layout.whole_end - layout.start) as u128;
    let fraction_len: u128 = (layout.fraction_end - layout.fraction_start) as u128;
    let shift: u128 = whole_len + 8;
    match layout.exponent_size {
        Some(size) => if layout.exponent_negative {
            if size >= shift {
                (0, false)
            } else {
                (shift - size, false)
            }
        } else {
            (shift + size, false)
        },
        None => if layout.exponent_negative {
            (0, false)
        } else {
            (whole_len + fraction_len, true)
        },
    }
}

/// The number that the first `places` digits of a numeral denote, all of
/// them where it has fewer, or `None` where that is beyond
/// `ROUNDING_LIMIT`.
fn read_mantissa(text: &str, layout: &Layout, places: u128) -> (result: Option<u128>)
    requires
        text.is_ascii(),
        layout.describes(text@),
    ensures
        match result {
            Some(value) => value <= ROUNDING_LIMIT && value == leading_places(
                all_digits(text@),
                places_read(0, places as nat, all_digits(text@).len()),
            ),
            None => leading_places(
                all_digits(text@),
                places_read(0, places as nat, all_digits(text@).len()),
            ) > ROUNDING_LIMIT,
        },
{
    let ghost all = all_digits(text@);
    let ghost whole = whole_part(text@);
    let ghost fraction = fraction_part(text@);
    let whole_len: u128 = (layout.whole_end - layout.start) as u128;
    assert forall|j: int| layout.start <= j < layout.whole_end implies is_digit(
        #[trigger] text@[j],
    ) by {
        assert(whole[j - layout.start] == text@[j]);
    }
    assert forall|j: int| 0 <= j < whole.len() implies #[trigger] all[0 + j] == text@[layout.start
        + j] by {
        assert(all[j] == whole[j]);
    }
    let first = read_places(text, layout.start, layout.whole_end, 0, places, Ghost(all), Ghost(0));
    match first {
        None => {
            proof {
                lemma_leading_places_grow(
                    all,
                    places_read(0, places as nat, whole.len()),
                    places_read(0, places as nat, all.len()),
                );
            }
            None
        },
        Some(value) => {
            if places <= whole_len {
                Some(value)
            } else {
                let ghost first = layout.fraction_start;
                assert forall|j: int| first <= j < layout.fraction_end implies is_digit(
                    #[trigger] text@[j],
                ) by {
                    assert(fraction[j - first] == text@[j]);
                }
                assert forall|j: int| 0 <= j < fraction.len() implies #[trigger] all[whole.len()
                    + j] == text@[layout.fraction_start + j] by {
                    assert(all[whole.len() + j] == fraction[j]);
                }
                read_places(
                    text,
                    layout.fraction_start,
                    layout.fraction_end,
                    value,
                    places - whole_len,
                    Ghost(all),
                    Ghost(whole.len()),
                )
            }
        },
    }
}

/// With twenty places or more beyond the end of its digits, a number is
/// zero or beyond `ROUNDING_LIMIT`.
proof fn lemma_endless_places(all: Seq<char>, goal: nat)
    requires
        goal >= all.len() + 20,
    ensures
        leading_places(all, all.len()) == 0 ==> leading_places(all, goal) == 0,
        leading_places(all, all.len()) > 0 ==> leading_places(all, goal) > ROUNDING_LIMIT,
{
    let value = leading_places(all, all.len());
    let beyond = (goal - all.len()) as nat;
    lemma_leading_places_padding(all, all.len(), beyond);
    lemma_pow10_grows(20, beyond);
    reveal_with_fuel(pow10, 21);
    assert(pow10(20) == 100_000_000_000_000_000_000);
    if value == 0 {
        assert(0 * pow10(beyond) == 0) by (nonlinear_arith);
    } else {
        assert(value * pow10(beyond) >= pow10(beyond)) by (nonlinear_arith)
            requires
                value >= 1,
                pow10(beyond) >= 0,
        ;
    }
}

/// The number that the digits of a numeral denote up to its rounding
/// place, or `None` where it is beyond `ROUNDING_LIMIT`.
fn weigh(text: &str, layout: &Layout) -> (weight: Option<u128>)
    requires
        text.is_ascii(),
        layout.describes(text@),
    ensures
        match weight {
            Some(value) => value <= ROUNDING_LIMIT && value == leading_places(
                all_digits(text@),
                rounding_place(text@),
            ),
            None => leading_places(all_digits(text@), rounding_place(text@)) > ROUNDING_LIMIT,
        },
{
    let ghost all = all_digits(text@);
    let ghost goal = rounding_place(text@);
    let digits: u128 = (layout.whole_end - layout.start) as u128 + (layout.fraction_end
        - layout.fraction_start) as u128;
    assert(all.len() == digits);
    let (places, endless) = places_to_read(text, layout);
    match read_mantissa(text, layout, places) {
        None => {
            proof {
                lemma_leading_places_grow(all, places_read(0, places as nat, all.len()), goal);
            }
            None
        },
        Some(value) => {
            if endless {
                proof {
                    lemma_endless_places(all, goal);
                }
                if value == 0 {
                    Some(0)
                } else {
                    None
                }
            } else if places <= digits {
                Some(value)
            } else {
                pad_places(value, places - digits, Ghost(all), Ghost(all.len()))
            }
        },
    }
}

/// Reads a decimal numeral of degrees, with or without an exponent. The
/// result is in units of 10^-7 degree, rounded to the nearest unit; `None`
/// where `text` is no decimal numeral or the angle does not fit in 64
/// bits.
pub fn parse_degrees(text: &str) -> (angle: Option<i64>)
    ensures
        match angle {
            Some(units) => parsed_degrees(text@) == Some(units as int),
            None => parsed_degrees(text@) is None,
        },
{
    if !text.is_ascii() {
        proof {
            if is_decimal(text@) {
                lemma_decimal_is_ascii(text@);
            }
        }
        return None;
    }
    match scan(text) {
        None => None,
        Some(layout) => match weigh(text, &layout) {
            None => None,
            Some(weight) => {
                let size: u64 = ((weight + 5) / 10) as u64;
                if layout.negative {
                    Some(-(size as i64))
                } else {
                    Some(size as i64)
                }
            },
        },
    }
}

} // verus!
