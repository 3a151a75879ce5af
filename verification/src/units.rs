//! The units that the library counts in.
//!
//! Every quantity is a whole number. An angle (a latitude, a longitude, a
//! bearing) counts units of 10^-7 degree, a length counts millimetres, a
//! duration counts milliseconds, and a point in time counts seconds since
//! the Unix epoch.

use vstd::prelude::*;

verus! {

/// The angle units in a degree.
pub const UNITS_PER_DEGREE: u64 = 10_000_000;

/// The decimal places of a degree that an angle unit stands for.
pub const FRACTION_PLACES: u32 = 7;

/// A full turn in angle units.
pub const FULL_TURN: u64 = 3_600_000_000;

/// Half a turn in angle units.
pub const HALF_TURN: u64 = 1_800_000_000;

/// A quarter turn in angle units.
pub const QUARTER_TURN: u64 = 900_000_000;

/// The millimetres in a metre.
pub const MILLIMETRES_PER_METRE: u64 = 1_000;

/// The millimetres in a kilometre.
pub const MILLIMETRES_PER_KILOMETRE: u64 = 1_000_000;

/// The miles in a metre, 0.000621371, as a double holds the number: this
/// many parts in `MILES_PER_METRE_PARTS`.
pub const MILES_PER_METRE: u64 = 5_731_135_905_912_489;

/// The parts that `MILES_PER_METRE` counts: two to the power 63.
pub const MILES_PER_METRE_PARTS: u64 = 9_223_372_036_854_775_808;

} // verus!
