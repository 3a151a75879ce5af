//! Turn-by-turn instruction text.
//!
//! One step of a route becomes one English sentence. The sentence depends
//! on the maneuver kind, the optional modifier, the road's name and
//! reference code, the bearing after the maneuver, the step's length and the
//! unit preference, and on nothing else.

use crate::decimal::{decimal, push_decimal};
use crate::provider::{maneuver_kind, text_of, ManeuverKind, OSRMStep, StepView};
use crate::rounding::{divide_half_even, double_tenths, double_tenths_of, round_half_even};
use crate::routing::RoutingService;
use crate::units::{
    FULL_TURN, MILES_PER_METRE, MILES_PER_METRE_PARTS, MILLIMETRES_PER_KILOMETRE,
    MILLIMETRES_PER_METRE,
};
use vstd::prelude::*;
use vstd::string::StringExecFns;
use vstd::string::StrSliceExecFns;

verus! {

/// A count of tenths written with one decimal place.
pub open spec fn one_decimal(tenths: nat) -> Seq<char> {
    decimal(tenths / 10) + "."@ + decimal(tenths % 10)
}

/// A length for display, as a double holds it.
///
/// In miles, with one decimal place: the metres times the miles in a
/// metre, which is itself a double. Metric: kilometres with one decimal
/// place from one kilometre on, whole metres below. Where the length lies
/// exactly halfway between two tenths, the side on which its double lies
/// decides: 1050 m reads "1.1 km" and 1150 m reads "1.1 km" too.
pub open spec fn distance_text(millimetres: nat, use_miles: bool) -> Seq<char> {
    if use_miles {
        one_decimal(
            double_tenths(
                millimetres * (MILES_PER_METRE as nat),
                (MILLIMETRES_PER_METRE * MILES_PER_METRE_PARTS) as nat,
            ),
        ) + " mi"@
    } else if millimetres >= MILLIMETRES_PER_KILOMETRE {
        one_decimal(double_tenths(millimetres, MILLIMETRES_PER_KILOMETRE as nat)) + " km"@
    } else {
        decimal(round_half_even(millimetres, MILLIMETRES_PER_METRE as nat)) + " m"@
    }
}

/// The compass direction of a bearing: eight sectors of 45 degrees, each
/// centred on its direction, so the boundaries lie at 22.5 degrees, 67.5
/// degrees and so on. A bearing outside the first turn counts as the
/// bearing in it that differs by whole turns. An absent bearing reads
/// "straight".
pub open spec fn direction_text(bearing: Option<int>) -> Seq<char> {
    match bearing {
        None => "straight"@,
        Some(b) => {
            let n = b % (FULL_TURN as int);
            if n < 225_000_000 || n >= 3_375_000_000 {
                "north"@
            } else if n < 675_000_000 {
                "northeast"@
            } else if n < 1_125_000_000 {
                "east"@
            } else if n < 1_575_000_000 {
                "southeast"@
            } else if n < 2_025_000_000 {
                "south"@
            } else if n < 2_475_000_000 {
                "southwest"@
            } else if n < 2_925_000_000 {
                "west"@
            } else {
                "northwest"@
            }
        },
    }
}

/// The road clause of an instruction. An empty name counts as no name.
pub open spec fn street_info(name: Option<Seq<char>>, road_ref: Option<Seq<char>>) -> Seq<char> {
    if name is Some && name->0.len() > 0 {
        match road_ref {
            Some(r) => "on "@ + name->0 + " ("@ + r + ")"@,
            None => "on "@ + name->0,
        }
    } else {
        match road_ref {
            Some(r) => "on "@ + r,
            None => Seq::empty(),
        }
    }
}

/// `modifier` without one leading "slight ".
pub open spec fn without_slight(modifier: Seq<char>) -> Seq<char> {
    if "slight "@.is_prefix_of(modifier) {
        modifier.skip("slight "@.len() as int)
    } else {
        modifier
    }
}

/// A modifier, or `fallback` where the step has none.
pub open spec fn modifier_or(modifier: Option<Seq<char>>, fallback: Seq<char>) -> Seq<char> {
    match modifier {
        Some(m) => m,
        None => fallback,
    }
}

/// What follows the verb phrase: the road clause, if there is one, and the
/// length.
pub open spec fn instruction_tail(street: Seq<char>, distance: Seq<char>) -> Seq<char> {
    if street.len() == 0 {
        " for "@ + distance
    } else {
        " "@ + street + " for "@ + distance
    }
}

/// The instruction sentence of a step.
pub open spec fn instruction_text(step: StepView, use_miles: bool) -> Seq<char> {
    let street = street_info(step.name, step.road_ref);
    let distance = distance_text(step.distance, use_miles);
    let tail = instruction_tail(street, distance);
    match step.kind {
        ManeuverKind::Depart => "Head "@ + direction_text(step.bearing) + tail,
        ManeuverKind::Turn => "Turn "@ + modifier_or(step.modifier, ""@) + tail,
        ManeuverKind::Merge => "Merge "@ + without_slight(
            modifier_or(step.modifier, ""@),
        ) + tail,
        ManeuverKind::Ramp => "Take the ramp "@ + without_slight(
            modifier_or(step.modifier, ""@),
        ) + tail,
        ManeuverKind::Fork => "Keep "@ + modifier_or(step.modifier, "left"@) + " at the fork"@
            + tail,
        ManeuverKind::Roundabout => if street.len() == 0 {
            "Enter the roundabout"@
        } else {
            "Enter the roundabout and take "@ + street + " for "@ + distance
        },
        ManeuverKind::Arrive => "Arrive at your destination"@,
        ManeuverKind::Continue => "Continue"@ + tail,
    }
}

/// Whole turns added to a bearing do not change its direction.
pub proof fn lemma_direction_periodic(bearing: int, turns: int)
    ensures
        direction_text(Some(bearing + turns * FULL_TURN)) == direction_text(Some(bearing)),
{
    assert((bearing + turns * FULL_TURN) % (FULL_TURN as int) == bearing % (FULL_TURN as int)) by {
        vstd::arithmetic::div_mod::lemma_mod_multiples_vanish(turns, bearing, FULL_TURN as int);
    }
}

/// An arriving step reads the same whatever else it holds.
pub proof fn lemma_arrive_text(step: StepView, use_miles: bool)
    requires
        step.kind is Arrive,
    ensures
        instruction_text(step, use_miles) == "Arrive at your destination"@,
{
}

/// Appends `tenths` written with one decimal place.
fn push_one_decimal(out: &mut String, tenths: u64)
    ensures
        final(out)@ == old(out)@ + one_decimal(tenths as nat),
{
    push_decimal(out, tenths / 10);
    out.append(".");
    push_decimal(out, tenths % 10);
}

/// Tells which maneuver a provider's `type` field names.
pub fn classify_maneuver(maneuver_type: &Option<String>) -> (kind: ManeuverKind)
    ensures
        kind == maneuver_kind(text_of(*maneuver_type)),
{
    match maneuver_type {
        None => ManeuverKind::Continue,
        Some(t) => {
            if *t == String::from_str("depart") {
                ManeuverKind::Depart
            } else if *t == String::from_str("turn") {
                ManeuverKind::Turn
            } else if *t == String::from_str("merge") {
                ManeuverKind::Merge
            } else if *t == String::from_str("ramp") {
                ManeuverKind::Ramp
            } else if *t == String::from_str("fork") {
                ManeuverKind::Fork
            } else if *t == String::from_str("roundabout") {
                ManeuverKind::Roundabout
            } else if *t == String::from_str("arrive") {
                ManeuverKind::Arrive
            } else {
                ManeuverKind::Continue
            }
        },
    }
}

/// The text of an optional field, or `fallback` where the field is absent.
fn text_or<'a>(field: &'a Option<String>, fallback: &'a str) -> (text: &'a str)
    ensures
        text@ == modifier_or(text_of(*field), fallback@),
{
    match field {
        Some(present) => present.as_str(),
        None => fallback,
    }
}

/// The road clause for a step's name and reference code.
pub fn street_info_text(name: &Option<String>, road_ref: &Option<String>) -> (text: String)
    ensures
        text@ == street_info(text_of(*name), text_of(*road_ref)),
{
    proof {
        reveal_strlit("");
    }
    let mut text = String::new();
    let road_name = text_or(name, "");
    if !road_name.is_empty() {
        text.append("on ");
        text.append(road_name);
        if let Some(code) = road_ref {
            text.append(" (");
            text.append(code.as_str());
            text.append(")");
        }
    } else if let Some(code) = road_ref {
        text.append("on ");
        text.append(code.as_str());
    }
    text
}

/// Drops one leading "slight " from a modifier.
pub fn strip_slight<'a>(modifier: &'a str) -> (rest: &'a str)
    ensures
        rest@ == without_slight(modifier@),
{
    proof {
        reveal_strlit("slight ");
    }
    let len = modifier.unicode_len();
    if len >= 7 {
        let head = modifier.substring_char(0, 7);
        if String::from_str(head) == String::from_str("slight ") {
            return modifier.substring_char(7, len);
        }
    }
    modifier
}

/// Appends the road clause, if any, and the length.
fn push_tail(out: &mut String, street: &str, distance: &str)
    ensures
        final(out)@ == old(out)@ + instruction_tail(street@, distance@),
{
    if street.is_empty() {
        out.append(" for ");
        out.append(distance);
    } else {
        out.append(" ");
        out.append(street);
        out.append(" for ");
        out.append(distance);
    }
}

/// What a bearing exceeds the last whole turn below it by.
pub fn turn_remainder(bearing: i64) -> (within: i64)
    ensures
        within == (bearing as int) % (FULL_TURN as int),
        0 <= within < FULL_TURN,
{
    let turn: i64 = 3_600_000_000;
    assert(turn == FULL_TURN);
    if bearing >= 0 {
        bearing % turn
    } else {
        // A negative bearing `-(m + 1)` with `m == q * turn + r` is
        // `-(q + 1) * turn + (turn - 1 - r)`.
        let m: i64 = -(bearing + 1);
        let r: i64 = m % turn;
        proof {
            let q = m as int / 3_600_000_000;
            assert(m == 3_600_000_000 * q + r);
            assert(bearing == (-(q + 1)) * 3_600_000_000 + (3_600_000_000 - 1 - r));
            vstd::arithmetic::div_mod::lemma_fundamental_div_mod_converse(
                bearing as int,
                3_600_000_000,
                -(q + 1),
                3_600_000_000 - 1 - r,
            );
        }
        turn - 1 - r
    }
}

impl RoutingService {
    /// Writes a length in the preferred unit.
    pub fn format_distance(&self, millimetres: u64, use_miles: bool) -> (text: String)
        ensures
            text@ == distance_text(millimetres as nat, use_miles),
    {
        let mut text = String::new();
        let length: u128 = millimetres as u128;
        if use_miles {
            let factor: u128 = MILES_PER_METRE as u128;
            let parts: u128 = MILLIMETRES_PER_METRE as u128 * MILES_PER_METRE_PARTS as u128;
            assert(length * factor < parts * 4_503_599_627_370_496) by (nonlinear_arith)
                requires
                    0 <= length <= 0xffff_ffff_ffff_ffff,
                    factor == 5_731_135_905_912_489,
                    parts == 9_223_372_036_854_775_808_000,
            ;
            let tenths = double_tenths_of(length * factor, parts);
            push_one_decimal(&mut text, tenths as u64);
            text.append(" mi");
        } else if millimetres >= MILLIMETRES_PER_KILOMETRE {
            let tenths = double_tenths_of(length, MILLIMETRES_PER_KILOMETRE as u128);
            push_one_decimal(&mut text, tenths as u64);
            text.append(" km");
        } else {
            let metres = divide_half_even(length, MILLIMETRES_PER_METRE as u128);
            push_decimal(&mut text, metres as u64);
            text.append(" m");
        }
        text
    }

    /// Names the compass direction of a bearing.
    pub fn bearing_to_direction(&self, bearing: Option<i64>) -> (text: String)
        ensures
            text@ == direction_text(
                match bearing {
                    Some(b) => Some(b as int),
                    None => None,
                },
            ),
    {
        match bearing {
            None => String::from_str("straight"),
            Some(b) => {
                let n = turn_remainder(b);
                if n < 225_000_000 || n >= 3_375_000_000 {
                    String::from_str("north")
                } else if n < 675_000_000 {
                    String::from_str("northeast")
                } else if n < 1_125_000_000 {
                    String::from_str("east")
                } else if n < 1_575_000_000 {
                    String::from_str("southeast")
                } else if n < 2_025_000_000 {
                    String::from_str("south")
                } else if n < 2_475_000_000 {
                    String::from_str("southwest")
                } else if n < 2_925_000_000 {
                    String::from_str("west")
                } else {
                    String::from_str("northwest")
                }
            },
        }
    }

    /// Writes the instruction sentence of a step.
    pub fn generate_instruction_text(&self, step: &OSRMStep, use_miles: bool) -> (text: String)
        ensures
            text@ == instruction_text(step@, use_miles),
    {
        let kind = classify_maneuver(&step.maneuver.maneuver_type);
        let distance = self.format_distance(step.distance, use_miles);
        let street = street_info_text(&step.name, &step.ref_);
        let mut text = String::new();
        match kind {
            ManeuverKind::Depart => {
                let direction = self.bearing_to_direction(step.maneuver.bearing_after);
                text.append("Head ");
                text.append(direction.as_str());
                push_tail(&mut text, street.as_str(), distance.as_str());
            },
            ManeuverKind::Turn => {
                text.append("Turn ");
                text.append(text_or(&step.maneuver.modifier, ""));
                push_tail(&mut text, street.as_str(), distance.as_str());
            },
            ManeuverKind::Merge => {
                text.append("Merge ");
                text.append(strip_slight(text_or(&step.maneuver.modifier, "")));
                push_tail(&mut text, street.as_str(), distance.as_str());
            },
            ManeuverKind::Ramp => {
                text.append("Take the ramp ");
                text.append(strip_slight(text_or(&step.maneuver.modifier, "")));
                push_tail(&mut text, street.as_str(), distance.as_str());
            },
            ManeuverKind::Fork => {
                text.append("Keep ");
                text.append(text_or(&step.maneuver.modifier, "left"));
                text.append(" at the fork");
                push_tail(&mut text, street.as_str(), distance.as_str());
            },
            ManeuverKind::Roundabout => {
                if street.as_str().is_empty() {
                    text.append("Enter the roundabout");
                } else {
                    text.append("Enter the roundabout and take ");
                    text.append(street.as_str());
                    text.append(" for ");
                    text.append(distance.as_str());
                }
            },
            ManeuverKind::Arrive => {
                text.append("Arrive at your destination");
            },
            ManeuverKind::Continue => {
                text.append("Continue");
                push_tail(&mut text, street.as_str(), distance.as_str());
            },
        }
        text
    }
}

} // verus!
