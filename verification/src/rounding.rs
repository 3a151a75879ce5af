//! Rounding to whole numbers and to tenths.
//!
//! A length for display is a quotient written with one decimal place. The
//! quotient is first held as a double holds it, with 53 significant binary
//! digits, and the digit printed is that of the number held: where the
//! quotient lies exactly halfway between two tenths, the side on which the
//! double lies decides. Every length in millimetres gives a quotient in the
//! range where a double has all its 53 digits.

use vstd::arithmetic::power2::{lemma2_to64, lemma_pow2_pos, lemma_pow2_unfold, pow2};
use vstd::prelude::*;

verus! {

/// `n / d` rounded to the nearest integer, a tie going to the even
/// neighbour.
pub open spec fn round_half_even(n: nat, d: nat) -> nat
    recommends
        d > 0,
{
    let q = n / d;
    let r = n % d;
    if 2 * r < d || (2 * r == d && q % 2 == 0) {
        q
    } else {
        q + 1
    }
}

/// What `n` lacks of `bound`; nothing from `bound` on.
pub open spec fn lack(n: nat, bound: nat) -> nat {
    if n < bound {
        (bound - n) as nat
    } else {
        0
    }
}

/// The tenths of the quotient `num / den` below 2^52, where `num` has been
/// doubled until `num / den` has 53 binary digits before the point, and
/// `unit` with it: the quotient is rounded to a whole number there, which
/// is the double nearest to it, and ten times that number over `unit` is
/// rounded to a whole number of tenths. Ties go to the even neighbour both
/// times.
pub open spec fn scaled_up_tenths(num: nat, den: nat, unit: nat) -> nat
    decreases lack(num, den * 4_503_599_627_370_496),
{
    if 0 < num < den * 4_503_599_627_370_496 {
        scaled_up_tenths(2 * num, den, 2 * unit)
    } else {
        round_half_even(round_half_even(num, den) * 10, unit)
    }
}

/// The tenths of the quotient `num / den` from 2^53 on, where `den` has
/// been doubled until `num / den` has 53 binary digits before the point,
/// and `unit` with it.
pub open spec fn scaled_down_tenths(num: nat, den: nat, unit: nat) -> nat
    decreases num - den,
{
    if 0 < den && num >= den * 9_007_199_254_740_992 {
        scaled_down_tenths(num, 2 * den, 2 * unit)
    } else {
        round_half_even(num, den) * 10 * unit
    }
}

/// The tenths that one decimal place shows of `num / den` held as a
/// double: the quotient rounded to 53 significant binary digits, and that
/// number rounded to tenths, ties going to the even neighbour both times.
pub open spec fn double_tenths(num: nat, den: nat) -> nat {
    if num == 0 || den == 0 {
        0
    } else if num < den * 4_503_599_627_370_496 {
        scaled_up_tenths(num, den, 1)
    } else {
        scaled_down_tenths(num, den, 1)
    }
}

/// Doubling written out as a power of two, for a quotient that `shift`
/// doublings bring to 53 binary digits before the point.
proof fn lemma_scaled_up_tenths(num: nat, den: nat, unit: nat, shift: nat)
    requires
        den > 0,
        den * 4_503_599_627_370_496 <= num * pow2(shift) < den * 9_007_199_254_740_992,
    ensures
        scaled_up_tenths(num, den, unit) == round_half_even(
            round_half_even(num * pow2(shift), den) * 10,
            unit * pow2(shift),
        ),
    decreases shift,
{
    lemma2_to64();
    let power = pow2(shift);
    if shift == 0 {
        assert(num * power == num && unit * power == unit) by (nonlinear_arith)
            requires
                power == 1,
        ;
    } else {
        let rest = pow2((shift - 1) as nat);
        lemma_pow2_unfold(shift);
        lemma_pow2_pos((shift - 1) as nat);
        assert(num * power == (2 * num) * rest && unit * power == (2 * unit) * rest)
            by (nonlinear_arith)
            requires
                power == 2 * rest,
        ;
        assert(0 < num && 2 * num <= (2 * num) * rest) by (nonlinear_arith)
            requires
                rest >= 1,
                (2 * num) * rest > 0,
        ;
        assert(scaled_up_tenths(num, den, unit) == scaled_up_tenths(2 * num, den, 2 * unit));
        lemma_scaled_up_tenths(2 * num, den, 2 * unit, (shift - 1) as nat);
    }
}

/// The tenths of a quotient held as a double, written out. Where the
/// quotient times two to the power `shift` has 53 binary digits before the
/// point, that product is rounded to a whole number, the double's digits,
/// and ten times that number over the same power of two is rounded to a
/// whole number of tenths.
pub proof fn lemma_double_tenths(num: nat, den: nat, shift: nat)
    requires
        den > 0,
        den * 4_503_599_627_370_496 <= num * pow2(shift) < den * 9_007_199_254_740_992,
    ensures
        double_tenths(num, den) == round_half_even(
            round_half_even(num * pow2(shift), den) * 10,
            pow2(shift),
        ),
{
    lemma2_to64();
    let power = pow2(shift);
    if shift == 0 {
        assert(num * power == num) by (nonlinear_arith)
            requires
                power == 1,
        ;
        let digits = round_half_even(num, den);
        assert(digits * 10 * 1 == digits * 10) by (nonlinear_arith);
        assert(double_tenths(num, den) == scaled_down_tenths(num, den, 1));
    } else {
        let rest = pow2((shift - 1) as nat);
        lemma_pow2_unfold(shift);
        lemma_pow2_pos((shift - 1) as nat);
        assert(0 < num && 2 * num <= num * power) by (nonlinear_arith)
            requires
                power == 2 * rest,
                rest >= 1,
                num * power > 0,
        ;
        assert(double_tenths(num, den) == scaled_up_tenths(num, den, 1));
        lemma_scaled_up_tenths(num, den, 1, shift);
        assert(1 * power == power) by (nonlinear_arith);
    }
}

/// A rounded quotient differs from the quotient by half at most.
proof fn lemma_round_half_even_near(n: nat, d: nat)
    requires
        d > 0,
    ensures
        -(d as int) <= 2 * (round_half_even(n, d) * d - n) <= d,
{
    let q = n / d;
    let r = n % d;
    vstd::arithmetic::div_mod::lemma_fundamental_div_mod(n as int, d as int);
    assert(n == d * q + r);
    assert((q + 1) * d == d * q + d && q * d == d * q) by (nonlinear_arith);
}

/// A quotient exactly halfway between two tenths goes with its double: up
/// where the double lies above the quotient, down where it lies below, and
/// to the even tenth where the double is the quotient itself. Here
/// `digits` are the double's digits, the quotient times two to the power
/// `shift` rounded to a whole number, and `below` is the lower of the two
/// tenths.
pub proof fn lemma_half_goes_with_the_double(num: nat, den: nat, shift: nat)
    requires
        den > 0,
        shift >= 4,
        den * 4_503_599_627_370_496 <= num * pow2(shift) < den * 9_007_199_254_740_992,
        2 * ((num * 10) % den) == den,
    ensures
        ({
            let below = num * 10 / den;
            let digits = round_half_even(num * pow2(shift), den);
            double_tenths(num, den) == if digits * den > num * pow2(shift) {
                below + 1
            } else if digits * den < num * pow2(shift) {
                below
            } else if below % 2 == 0 {
                below
            } else {
                below + 1
            }
        }),
{
    let power = pow2(shift);
    let scaled = num * power;
    let below = num * 10 / den;
    let digits = round_half_even(scaled, den);
    lemma_double_tenths(num, den, shift);
    lemma2_to64();
    assert(power >= 16) by {
        lemma2_to64();
        if shift > 4 {
            vstd::arithmetic::power2::lemma_pow2_strictly_increases(4, shift);
        }
    }
    // Twenty times the scaled numerator is the odd number of half tenths
    // times the denominator and the power.
    let tens = num * 10;
    let half = tens % den;
    vstd::arithmetic::div_mod::lemma_fundamental_div_mod(tens as int, den as int);
    assert(tens == den * below + half);
    assert(20 * num == (2 * below + 1) * den) by (nonlinear_arith)
        requires
            num * 10 == den * below + half,
            2 * half == den,
    ;
    assert(20 * scaled == (2 * below + 1) * power * den) by (nonlinear_arith)
        requires
            scaled == num * power,
            20 * num == (2 * below + 1) * den,
    ;
    // The double's digits lie within half of the scaled quotient, so ten
    // times the digits lie within five of the half tenth.
    lemma_round_half_even_near(scaled, den);
    let off = digits * den - scaled;
    let excess = 20 * digits - (2 * below + 1) * power;
    assert(excess * den == 20 * off) by (nonlinear_arith)
        requires
            off == digits * den - scaled,
            excess == 20 * digits - (2 * below + 1) * power,
            20 * scaled == (2 * below + 1) * power * den,
    ;
    assert(-10 <= excess <= 10 && (excess > 0 <==> off > 0) && (excess < 0 <==> off < 0))
        by (nonlinear_arith)
        requires
            excess * den == 20 * off,
            -(den as int) <= 2 * off <= den,
            den > 0,
    ;
    // So the lower tenth is the whole part of ten times the digits over
    // the power, and the excess decides the rounding.
    let rest = digits * 10 - below * power;
    assert(2 * rest == power + excess && below * power == power * below) by (nonlinear_arith)
        requires
            rest == digits * 10 - below * power,
            excess == 20 * digits - (2 * below + 1) * power,
    ;
    vstd::arithmetic::div_mod::lemma_fundamental_div_mod_converse(
        (digits * 10) as int,
        power as int,
        below as int,
        rest,
    );
}

/// `n / d` rounded half to even.
pub(crate) fn divide_half_even(n: u128, d: u128) -> (q: u128)
    requires
        0 < d <= 0x8000_0000_0000_0000_0000_0000_0000_0000,
        n < u128::MAX,
    ensures
        q == round_half_even(n as nat, d as nat),
        n / d <= q <= n / d + 1,
{
    let q: u128 = n / d;
    let r: u128 = n % d;
    if 2 * r < d || (2 * r == d && q % 2 == 0) {
        q
    } else {
        q + 1
    }
}

/// The tenths that one decimal place shows of `num / den` held as a
/// double, for a quotient below 2^52.
pub(crate) fn double_tenths_of(num: u128, den: u128) -> (tenths: u128)
    requires
        0 < den <= 0x400_0000_0000_0000_0000,
        num < den * 4_503_599_627_370_496,
    ensures
        tenths == double_tenths(num as nat, den as nat),
        tenths <= 90_071_992_547_409_921,
{
    if num == 0 {
        return 0;
    }
    let floor: u128 = den * 4_503_599_627_370_496;
    let mut scaled: u128 = num;
    let mut unit: u128 = 1;
    while scaled < floor
        invariant
            0 < den <= 0x400_0000_0000_0000_0000,
            floor == den * 4_503_599_627_370_496,
            0 < unit <= scaled < 2 * floor,
            scaled_up_tenths(scaled as nat, den as nat, unit as nat) == scaled_up_tenths(
                num as nat,
                den as nat,
                1,
            ),
        decreases lack(scaled as nat, floor as nat),
    {
        scaled = 2 * scaled;
        unit = 2 * unit;
    }
    let mantissa = divide_half_even(scaled, den);
    assert(mantissa <= 9_007_199_254_740_992) by {
        vstd::arithmetic::div_mod::lemma_multiply_divide_lt(
            scaled as int,
            den as int,
            9_007_199_254_740_992,
        );
    }
    let tenths = divide_half_even(mantissa * 10, unit);
    assert(tenths <= 90_071_992_547_409_921) by {
        vstd::arithmetic::div_mod::lemma_div_is_ordered_by_denominator(
            (mantissa * 10) as int,
            1,
            unit as int,
        );
    }
    tenths
}

} // verus!
