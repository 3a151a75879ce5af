//! Great-circle distance by the haversine formula.
//!
//! The arithmetic is fixed-point: a number stands for its value times
//! 10^18. Sines and arctangents are sums of the first terms of their power
//! series, enough of them that what is left out lies below the last digit.
//! The Earth is a sphere of radius 6371 km.

use crate::geolocation::Location;
use crate::units::{FULL_TURN, HALF_TURN, QUARTER_TURN, UNITS_PER_DEGREE};
use vstd::prelude::*;

verus! {

/// The number one: 10^18.
pub const ONE: u128 = 1_000_000_000_000_000_000;

/// Half of pi.
pub const HALF_PI: u128 = 1_570_796_326_794_896_619;

/// A quarter of pi.
pub const QUARTER_PI: u128 = 785_398_163_397_448_310;

/// The tangent of an eighth of pi, the square root of two less one.
pub const TAN_EIGHTH_PI: u128 = 414_213_562_373_095_049;

/// The radians in a degree.
pub const RADIANS_PER_DEGREE: u128 = 17_453_292_519_943_296;

/// The mean radius of the Earth in millimetres.
pub const EARTH_RADIUS: u128 = 6_371_000_000;

/// The square of one.
pub const ONE_SQUARED: u128 = 1_000_000_000_000_000_000_000_000_000_000_000_000;

/// The last term of the sine series that is summed.
pub const SINE_TERMS: u32 = 12;

/// The last term of the arctangent series that is summed.
pub const ARCTANGENT_TERMS: u32 = 24;

/// The product of two fixed-point numbers.
pub open spec fn scaled_product(a: int, b: int) -> int {
    a * b / (ONE as int)
}

/// The size of term `k` of the sine series of `x`: `x` to the power
/// `2k + 1` over the factorial of `2k + 1`.
pub open spec fn sine_term(x: int, k: nat) -> int
    decreases k,
{
    if k == 0 {
        x
    } else {
        scaled_product(sine_term(x, (k - 1) as nat), scaled_product(x, x)) / ((2 * k * (2 * k
            + 1)) as int)
    }
}

/// The sum of the terms up to term `k` that the sine series adds (`added`)
/// or takes away.
pub open spec fn sine_sum(x: int, k: nat, added: bool) -> int
    decreases k,
{
    let earlier = if k == 0 {
        0
    } else {
        sine_sum(x, (k - 1) as nat, added)
    };
    if (k % 2 == 0) == added {
        earlier + sine_term(x, k)
    } else {
        earlier
    }
}

/// The sine of an angle between zero and a quarter turn, in radians.
pub open spec fn sine(x: int) -> int {
    let gained = sine_sum(x, SINE_TERMS as nat, true);
    let lost = sine_sum(x, SINE_TERMS as nat, false);
    if gained <= lost {
        0
    } else if gained - lost > ONE {
        ONE as int
    } else {
        gained - lost
    }
}

/// `u` to the power `2k + 1`.
pub open spec fn odd_power(u: int, k: nat) -> int
    decreases k,
{
    if k == 0 {
        u
    } else {
        scaled_product(odd_power(u, (k - 1) as nat), scaled_product(u, u))
    }
}

/// The sum of the terms up to term `k` that the arctangent series adds
/// (`added`) or takes away. The size of term `k` is `u` to the power
/// `2k + 1` over `2k + 1`.
pub open spec fn arctangent_sum(u: int, k: nat, added: bool) -> int
    decreases k,
{
    let earlier = if k == 0 {
        0
    } else {
        arctangent_sum(u, (k - 1) as nat, added)
    };
    if (k % 2 == 0) == added {
        earlier + odd_power(u, k) / ((2 * k + 1) as int)
    } else {
        earlier
    }
}

/// The arctangent of a small number by its series.
pub open spec fn arctangent_series(u: int) -> int {
    let gained = arctangent_sum(u, ARCTANGENT_TERMS as nat, true);
    let lost = arctangent_sum(u, ARCTANGENT_TERMS as nat, false);
    if gained <= lost {
        0
    } else {
        gained - lost
    }
}

/// The arctangent of a number between zero and one. Above the tangent of
/// an eighth of pi it is a quarter of pi less the arctangent of
/// `(1 - t) / (1 + t)`, which is small.
pub open spec fn arctangent(t: int) -> int {
    let angle = if t <= TAN_EIGHTH_PI {
        arctangent_series(t)
    } else {
        let rest = arctangent_series((ONE - t) * ONE / (ONE + t));
        if rest <= QUARTER_PI {
            QUARTER_PI - rest
        } else {
            0
        }
    };
    if angle <= QUARTER_PI {
        angle
    } else {
        QUARTER_PI as int
    }
}

/// The angle of the point `(x, y)` in the first quadrant.
pub open spec fn arctangent2(y: int, x: int) -> int {
    if y <= x {
        if x == 0 {
            0
        } else {
            arctangent(y * ONE / x)
        }
    } else {
        HALF_PI - arctangent(x * ONE / y)
    }
}

/// Whether `root` is the whole part of the square root of `n`.
pub open spec fn is_square_root(n: int, root: int) -> bool {
    0 <= root && root * root <= n < (root + 1) * (root + 1)
}

/// The whole part of the square root of `n`.
pub open spec fn square_root(n: int) -> int {
    choose|root: int| is_square_root(n, root)
}

/// The absolute value of the difference of two numbers.
pub open spec fn gap(a: int, b: int) -> int {
    if a <= b {
        b - a
    } else {
        a - b
    }
}

/// An angle brought into the first half turn: whole turns do not count,
/// and an angle beyond half a turn counts as what it lacks of a full turn.
pub open spec fn folded(units: int) -> int {
    let within = units % (FULL_TURN as int);
    if within > HALF_TURN {
        FULL_TURN - within
    } else {
        within
    }
}

/// The radians of an angle of `units` parts of a degree, `parts_per_degree`
/// of them to the degree.
pub open spec fn radians(units: int, parts_per_degree: int) -> int {
    units * RADIANS_PER_DEGREE / parts_per_degree
}

/// The sine of half the angle between two coordinates.
pub open spec fn half_angle_sine(a: int, b: int) -> int {
    sine(radians(folded(gap(a, b)), UNITS_PER_DEGREE * 2))
}

/// The size of the cosine of a latitude.
pub open spec fn cosine_size(latitude: int) -> int {
    let angle = folded(gap(latitude, 0));
    if angle <= QUARTER_TURN {
        sine(radians(QUARTER_TURN - angle, UNITS_PER_DEGREE as int))
    } else {
        sine(radians(angle - QUARTER_TURN, UNITS_PER_DEGREE as int))
    }
}

/// Whether the cosine of a latitude is negative. It is not for a latitude
/// between the poles.
pub open spec fn cosine_is_negative(latitude: int) -> bool {
    folded(gap(latitude, 0)) > QUARTER_TURN
}

/// The haversine of the central angle between two positions, times 10^36:
/// the square of the sine of half the difference in latitude, and the
/// product of the cosines of the latitudes and the square of the sine of
/// half the difference in longitude.
pub open spec fn haversine(a: Location, b: Location) -> int {
    let rise = half_angle_sine(a.latitude as int, b.latitude as int);
    let run = half_angle_sine(a.longitude as int, b.longitude as int);
    let cosines = scaled_product(
        cosine_size(a.latitude as int),
        cosine_size(b.latitude as int),
    );
    let across = scaled_product(cosines, run) * run;
    if cosine_is_negative(a.latitude as int) != cosine_is_negative(b.latitude as int) {
        if rise * rise >= across {
            rise * rise - across
        } else {
            0
        }
    } else if rise * rise + across > ONE_SQUARED {
        ONE_SQUARED as int
    } else {
        rise * rise + across
    }
}

/// The central angle between two positions, in radians.
pub open spec fn central_angle(a: Location, b: Location) -> int {
    let h = haversine(a, b);
    2 * arctangent2(square_root(h), square_root(ONE_SQUARED - h))
}

/// The distance between two positions along the great circle through
/// them, in millimetres, rounded to the nearest.
pub open spec fn great_circle_distance(a: Location, b: Location) -> int {
    (central_angle(a, b) * EARTH_RADIUS + ONE / 2) / (ONE as int)
}

/// The product of two numbers that are at most `m` and at most `n` is at
/// most `m` times `n`.
proof fn lemma_scaled_product_bound(a: int, b: int, m: int, n: int)
    requires
        0 <= a <= m * ONE,
        0 <= b <= n * ONE,
    ensures
        0 <= a * b <= m * n * ONE_SQUARED,
        0 <= scaled_product(a, b) <= m * n * ONE,
{
    assert(0 <= a * b <= m * n * ONE_SQUARED) by (nonlinear_arith)
        requires
            0 <= a <= m * ONE,
            0 <= b <= n * ONE,
            ONE_SQUARED == ONE * ONE,
    ;
    assert(m * n * ONE_SQUARED == (m * n * ONE) * ONE) by (nonlinear_arith)
        requires
            ONE_SQUARED == ONE * ONE,
    ;
    vstd::arithmetic::div_mod::lemma_div_is_ordered(a * b, (m * n * ONE) * ONE, ONE as int);
    vstd::arithmetic::div_mod::lemma_div_multiples_vanish(m * n * ONE, ONE as int);
    vstd::arithmetic::div_mod::lemma_div_pos_is_pos(a * b, ONE as int);
}

/// A quotient is at most its numerator.
proof fn lemma_quotient_bound(a: int, d: int)
    requires
        0 <= a,
        1 <= d,
    ensures
        0 <= a / d <= a,
{
    vstd::arithmetic::div_mod::lemma_div_pos_is_pos(a, d);
    vstd::arithmetic::div_mod::lemma_div_is_ordered_by_denominator(a, 1, d);
}

/// No number has two square roots.
proof fn lemma_square_root_unique(n: int, r: int, s: int)
    requires
        is_square_root(n, r),
        is_square_root(n, s),
    ensures
        r == s,
{
    if r < s {
        assert((r + 1) * (r + 1) <= s * s) by (nonlinear_arith)
            requires
                0 <= r,
                r + 1 <= s,
        ;
    } else if s < r {
        assert((s + 1) * (s + 1) <= r * r) by (nonlinear_arith)
            requires
                0 <= s,
                s + 1 <= r,
        ;
    }
}

/// A number that squares to at most `n`, while the next one squares to
/// more, is the square root of `n`.
proof fn lemma_square_root_is(n: int, r: int)
    requires
        is_square_root(n, r),
    ensures
        square_root(n) == r,
{
    let chosen = square_root(n);
    assert(is_square_root(n, chosen));
    lemma_square_root_unique(n, r, chosen);
}

/// The series of zero are zero.
proof fn lemma_series_of_zero(k: nat)
    ensures
        sine_term(0, k) == 0,
        sine_sum(0, k, true) == 0,
        sine_sum(0, k, false) == 0,
        odd_power(0, k) == 0,
        arctangent_sum(0, k, true) == 0,
        arctangent_sum(0, k, false) == 0,
    decreases k,
{
    assert(scaled_product(0, scaled_product(0, 0)) == 0);
    if k > 0 {
        lemma_series_of_zero((k - 1) as nat);
        let divisor = (2 * k * (2 * k + 1)) as int;
        assert(divisor > 0) by (nonlinear_arith)
            requires
                k > 0,
                divisor == 2 * k * (2 * k + 1),
        ;
        vstd::arithmetic::div_mod::lemma_div_basics(divisor);
    }
    vstd::arithmetic::div_mod::lemma_div_basics((2 * k + 1) as int);
}

/// The product of two fixed-point numbers of at most eight.
fn scaled_mul(a: u128, b: u128) -> (product: u128)
    requires
        a <= 8 * ONE,
        b <= 8 * ONE,
    ensures
        product == scaled_product(a as int, b as int),
{
    proof {
        lemma_scaled_product_bound(a as int, b as int, 8, 8);
    }
    a * b / ONE
}

/// The sine of an angle of at most two radians.
fn sine_of(x: u128) -> (s: u128)
    requires
        x <= 2 * ONE,
    ensures
        s == sine(x as int),
        s <= ONE,
{
    let square = scaled_mul(x, x);
    proof {
        lemma_scaled_product_bound(x as int, x as int, 2, 2);
    }
    let mut term: u128 = x;
    let mut gained: u128 = x;
    let mut lost: u128 = 0;
    let mut k: u32 = 0;
    while k < SINE_TERMS
        invariant
            k <= SINE_TERMS,
            square == scaled_product(x as int, x as int),
            square <= 4 * ONE,
            term == sine_term(x as int, k as nat),
            term <= 2 * ONE,
            gained == sine_sum(x as int, k as nat, true),
            lost == sine_sum(x as int, k as nat, false),
            gained <= (k + 1) * 2_000_000_000_000_000_000,
            lost <= (k + 1) * 2_000_000_000_000_000_000,
        decreases SINE_TERMS - k,
    {
        k = k + 1;
        let n: u128 = k as u128;
        assert(6 <= 2 * n * (2 * n + 1) <= 600) by (nonlinear_arith)
            requires
                1 <= n <= 12,
        ;
        let divisor: u128 = 2 * n * (2 * n + 1);
        proof {
            lemma_scaled_product_bound(term as int, square as int, 2, 4);
            let product = scaled_product(term as int, square as int);
            vstd::arithmetic::div_mod::lemma_div_is_ordered_by_denominator(
                product,
                6,
                divisor as int,
            );
            vstd::arithmetic::div_mod::lemma_div_pos_is_pos(product, divisor as int);
        }
        term = scaled_mul(term, square) / divisor;
        if k % 2 == 0 {
            gained = gained + term;
        } else {
            lost = lost + term;
        }
    }
    if gained <= lost {
        0
    } else if gained - lost > ONE {
        ONE
    } else {
        gained - lost
    }
}

/// The arctangent of a number of at most one by its series.
fn arctangent_series_of(u: u128) -> (angle: u128)
    requires
        u <= ONE,
    ensures
        angle == arctangent_series(u as int),
{
    let square = scaled_mul(u, u);
    proof {
        lemma_scaled_product_bound(u as int, u as int, 1, 1);
        vstd::arithmetic::div_mod::lemma_div_basics(u as int);
    }
    let mut power: u128 = u;
    let mut gained: u128 = u;
    let mut lost: u128 = 0;
    let mut k: u32 = 0;
    while k < ARCTANGENT_TERMS
        invariant
            k <= ARCTANGENT_TERMS,
            square == scaled_product(u as int, u as int),
            square <= ONE,
            power == odd_power(u as int, k as nat),
            power <= ONE,
            gained == arctangent_sum(u as int, k as nat, true),
            lost == arctangent_sum(u as int, k as nat, false),
            gained <= (k + 1) * 1_000_000_000_000_000_000,
            lost <= (k + 1) * 1_000_000_000_000_000_000,
        decreases ARCTANGENT_TERMS - k,
    {
        k = k + 1;
        let n: u128 = k as u128;
        proof {
            lemma_scaled_product_bound(power as int, square as int, 1, 1);
            lemma_quotient_bound(scaled_product(power as int, square as int), 2 * n + 1);
        }
        power = scaled_mul(power, square);
        let term: u128 = power / (2 * n + 1);
        if k % 2 == 0 {
            gained = gained + term;
        } else {
            lost = lost + term;
        }
    }
    if gained <= lost {
        0
    } else {
        gained - lost
    }
}

/// `a` times one over `b`, for `a` at most `b` and `b` at most two.
fn ratio_of(a: u128, b: u128) -> (ratio: u128)
    requires
        a <= b,
        0 < b <= 2 * ONE,
    ensures
        ratio == a * ONE / (b as int),
        ratio <= ONE,
{
    proof {
        assert(0 <= a * ONE <= ONE * b && ONE * b <= 2 * ONE_SQUARED) by (nonlinear_arith)
            requires
                0 <= a <= b,
                b <= 2 * ONE,
                ONE_SQUARED == ONE * ONE,
        ;
        vstd::arithmetic::div_mod::lemma_div_is_ordered(a * ONE, ONE * b, b as int);
        vstd::arithmetic::div_mod::lemma_div_multiples_vanish(ONE as int, b as int);
    }
    a * ONE / b
}

/// The arctangent of a number of at most one.
fn arctangent_of(t: u128) -> (angle: u128)
    requires
        t <= ONE,
    ensures
        angle == arctangent(t as int),
        angle <= QUARTER_PI,
{
    let angle = if t <= TAN_EIGHTH_PI {
        arctangent_series_of(t)
    } else {
        let rest = arctangent_series_of(ratio_of(ONE - t, ONE + t));
        if rest <= QUARTER_PI {
            QUARTER_PI - rest
        } else {
            0
        }
    };
    if angle <= QUARTER_PI {
        angle
    } else {
        QUARTER_PI
    }
}

/// The angle of the point `(x, y)`, neither coordinate above one.
fn arctangent2_of(y: u128, x: u128) -> (angle: u128)
    requires
        y <= ONE,
        x <= ONE,
    ensures
        angle == arctangent2(y as int, x as int),
        angle <= HALF_PI,
{
    if y <= x {
        if x == 0 {
            0
        } else {
            arctangent_of(ratio_of(y, x))
        }
    } else {
        HALF_PI - arctangent_of(ratio_of(x, y))
    }
}

/// The whole part of the square root of a number of at most the square of
/// one, by bisection.
fn square_root_of(n: u128) -> (root: u128)
    requires
        n <= ONE_SQUARED,
    ensures
        root == square_root(n as int),
        root <= ONE,
{
    let mut low: u128 = 0;
    let mut high: u128 = ONE + 1;
    assert(n < high * high) by (nonlinear_arith)
        requires
            n <= 1_000_000_000_000_000_000_000_000_000_000_000_000,
            high == 1_000_000_000_000_000_001,
    ;
    while high - low > 1
        invariant
            low < high <= ONE + 1,
            low * low <= n < high * high,
        decreases high - low,
    {
        let middle: u128 = low + (high - low) / 2;
        assert(middle * middle <= 1_000_000_000_000_000_002_000_000_000_000_000_001)
            by (nonlinear_arith)
            requires
                0 <= middle <= 1_000_000_000_000_000_001,
        ;
        if middle * middle <= n {
            low = middle;
        } else {
            high = middle;
        }
    }
    proof {
        lemma_square_root_is(n as int, low as int);
    }
    low
}

/// The absolute value of the difference of two coordinates.
fn gap_of(a: i64, b: i64) -> (g: u128)
    ensures
        g == gap(a as int, b as int),
{
    if a <= b {
        (b as i128 - a as i128) as u128
    } else {
        (a as i128 - b as i128) as u128
    }
}

/// An angle brought into the first half turn.
fn folded_of(units: u128) -> (angle: u128)
    ensures
        angle == folded(units as int),
        angle <= HALF_TURN,
{
    let within = units % (FULL_TURN as u128);
    if within > HALF_TURN as u128 {
        FULL_TURN as u128 - within
    } else {
        within
    }
}

/// The radians of an angle of at most a quarter turn, or of half an angle
/// of at most half a turn.
fn radians_of(units: u128, halved: bool) -> (angle: u128)
    requires
        units <= if halved {
            HALF_TURN
        } else {
            QUARTER_TURN
        },
    ensures
        angle == radians(
            units as int,
            if halved {
                UNITS_PER_DEGREE * 2
            } else {
                UNITS_PER_DEGREE as int
            },
        ),
        angle <= 2 * ONE,
{
    let product: u128 = if halved {
        assert(units * RADIANS_PER_DEGREE <= 1_800_000_000 * 17_453_292_519_943_296)
            by (nonlinear_arith)
            requires
                0 <= units <= 1_800_000_000,
                RADIANS_PER_DEGREE == 17_453_292_519_943_296,
        ;
        units * RADIANS_PER_DEGREE
    } else {
        assert(units * RADIANS_PER_DEGREE <= 900_000_000 * 17_453_292_519_943_296)
            by (nonlinear_arith)
            requires
                0 <= units <= 900_000_000,
                RADIANS_PER_DEGREE == 17_453_292_519_943_296,
        ;
        units * RADIANS_PER_DEGREE
    };
    if halved {
        assert(product / 20_000_000 <= 2_000_000_000_000_000_000);
        product / (UNITS_PER_DEGREE as u128 * 2)
    } else {
        assert(product / 10_000_000 <= 2_000_000_000_000_000_000);
        product / (UNITS_PER_DEGREE as u128)
    }
}

/// The sine of half the angle between two coordinates.
fn half_angle_sine_of(a: i64, b: i64) -> (s: u128)
    ensures
        s == half_angle_sine(a as int, b as int),
        s <= ONE,
{
    sine_of(radians_of(folded_of(gap_of(a, b)), true))
}

/// The cosine of a latitude: its size, and whether it is negative.
fn cosine_of(latitude: i64) -> (cosine: (u128, bool))
    ensures
        cosine.0 == cosine_size(latitude as int),
        cosine.0 <= ONE,
        cosine.1 == cosine_is_negative(latitude as int),
{
    let angle = folded_of(gap_of(latitude, 0));
    let quarter: u128 = QUARTER_TURN as u128;
    if angle <= quarter {
        (sine_of(radians_of(quarter - angle, false)), false)
    } else {
        (sine_of(radians_of(angle - quarter, false)), true)
    }
}

/// The haversine of the central angle between two positions, times 10^36.
fn haversine_of(a: &Location, b: &Location) -> (h: u128)
    ensures
        h == haversine(*a, *b),
        h <= ONE_SQUARED,
{
    let rise = half_angle_sine_of(a.latitude, b.latitude);
    let run = half_angle_sine_of(a.longitude, b.longitude);
    let (size_a, negative_a) = cosine_of(a.latitude);
    let (size_b, negative_b) = cosine_of(b.latitude);
    proof {
        lemma_scaled_product_bound(size_a as int, size_b as int, 1, 1);
    }
    let cosines = scaled_mul(size_a, size_b);
    proof {
        lemma_scaled_product_bound(cosines as int, run as int, 1, 1);
        lemma_scaled_product_bound(scaled_product(cosines as int, run as int), run as int, 1, 1);
        lemma_scaled_product_bound(rise as int, rise as int, 1, 1);
    }
    let across: u128 = scaled_mul(cosines, run) * run;
    let square: u128 = rise * rise;
    if negative_a != negative_b {
        if square >= across {
            square - across
        } else {
            0
        }
    } else if square + across > ONE_SQUARED {
        ONE_SQUARED
    } else {
        square + across
    }
}

impl Location {
    /// The distance to another position along the great circle through
    /// both, in millimetres.
    pub fn distance_to(&self, other: &Location) -> (millimetres: u64)
        ensures
            millimetres == great_circle_distance(*self, *other),
    {
        let h = haversine_of(self, other);
        let angle: u128 = 2 * arctangent2_of(square_root_of(h), square_root_of(ONE_SQUARED - h));
        ((angle * EARTH_RADIUS + ONE / 2) / ONE) as u64
    }
}

/// The distance from one position to another is the distance back.
pub proof fn lemma_distance_symmetric(a: Location, b: Location)
    ensures
        great_circle_distance(a, b) == great_circle_distance(b, a),
{
    assert(cosine_size(a.latitude as int) * cosine_size(b.latitude as int) == cosine_size(
        b.latitude as int,
    ) * cosine_size(a.latitude as int)) by (nonlinear_arith);
}

/// A position is at no distance from itself, nor from another position
/// with its coordinates.
pub proof fn lemma_distance_to_self(a: Location, b: Location)
    requires
        a.latitude == b.latitude,
        a.longitude == b.longitude,
    ensures
        great_circle_distance(a, b) == 0,
{
    lemma_series_of_zero(SINE_TERMS as nat);
    lemma_series_of_zero(ARCTANGENT_TERMS as nat);
    assert(half_angle_sine(a.latitude as int, b.latitude as int) == 0);
    assert(half_angle_sine(a.longitude as int, b.longitude as int) == 0);
    let cosines = scaled_product(
        cosine_size(a.latitude as int),
        cosine_size(b.latitude as int),
    );
    assert(scaled_product(cosines, 0) == 0) by (nonlinear_arith)
        requires
            scaled_product(cosines, 0) == cosines * 0 / (ONE as int),
    ;
    assert(haversine(a, b) == 0);
    lemma_square_root_is(0, 0);
    assert(is_square_root(ONE_SQUARED as int, ONE as int)) by (nonlinear_arith)
        requires
            ONE_SQUARED == ONE * ONE,
            ONE > 0,
    ;
    lemma_square_root_is(ONE_SQUARED as int, ONE as int);
    assert(0int * ONE / (ONE as int) == 0);
    assert(arctangent(0) == 0);
}

/// No two positions are further apart than half the way round the globe.
pub proof fn lemma_distance_bounded(a: Location, b: Location)
    ensures
        great_circle_distance(a, b) <= 20_015_086_796,
{
    let h = haversine(a, b);
    assert(arctangent2(square_root(h), square_root(ONE_SQUARED - h)) <= HALF_PI);
}

} // verus!
