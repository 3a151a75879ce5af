//! What the routing and geocoding providers send, as plain data.

use vstd::prelude::*;

verus! {

/// The GeoJSON geometry of a route. The library carries it through and
/// never looks inside.
#[verifier::external_type_specification]
#[verifier::external_body]
pub struct ExGeometry(geojson::Geometry);

/// The turn that opens a step.
#[derive(Debug)]
pub struct OSRMManeuver {
    /// Longitude, then latitude, in units of 10^-7 degree.
    pub location: [i64; 2],
    pub maneuver_type: Option<String>,
    pub modifier: Option<String>,
    /// Heading after the turn, clockwise from north, in units of 10^-7
    /// degree.
    pub bearing_after: Option<i64>,
}

/// The smallest unit of a route: one maneuver and the road that follows it.
#[derive(Debug)]
pub struct OSRMStep {
    /// Length in millimetres.
    pub distance: u64,
    /// Travel time in milliseconds.
    pub duration: u64,
    pub maneuver: OSRMManeuver,
    pub name: Option<String>,
    pub ref_: Option<String>,
}

/// The part of a route between two consecutive waypoints.
#[derive(Debug)]
pub struct OSRMLeg {
    pub steps: Vec<OSRMStep>,
}

/// One candidate route.
#[derive(Debug)]
pub struct OSRMRoute {
    /// Length in millimetres.
    pub distance: u64,
    /// Travel time in milliseconds.
    pub duration: u64,
    pub geometry: geojson::Geometry,
    pub legs: Vec<OSRMLeg>,
}

/// The routing provider's answer: candidate routes, best first.
#[derive(Debug)]
pub struct OSRMResponse {
    pub routes: Vec<OSRMRoute>,
}

/// One geocoding candidate. The provider sends both coordinates as decimal
/// text.
#[derive(Debug)]
pub struct NominatimResult {
    pub lat: String,
    pub lon: String,
    pub display_name: String,
}

/// How an HTTP exchange with a provider ended.
#[derive(Debug)]
pub enum ProviderReply<T> {
    /// No response arrived.
    Unreachable,
    /// A response arrived. `body` is the decoded payload, or `None` where it
    /// was not read or could not be decoded.
    Answered { status: u16, body: Option<T> },
}

/// What a step says of its maneuver, in the terms the instruction grammar
/// uses.
#[derive(Debug, Clone, Copy, PartialEq, Eq, Structural)]
pub enum ManeuverKind {
    Depart,
    Turn,
    Merge,
    Ramp,
    Fork,
    Roundabout,
    Arrive,
    Continue,
}

/// The mathematical content of a step that instruction text depends on.
pub struct StepView {
    pub kind: ManeuverKind,
    pub modifier: Option<Seq<char>>,
    pub name: Option<Seq<char>>,
    pub road_ref: Option<Seq<char>>,
    pub bearing: Option<int>,
    pub distance: nat,
}

/// The view of an optional string.
pub open spec fn text_of(s: Option<String>) -> Option<Seq<char>> {
    match s {
        Some(t) => Some(t@),
        None => None,
    }
}

/// The maneuver kind that a provider's `type` field names. An absent or
/// unknown type is `Continue`.
pub open spec fn maneuver_kind(maneuver_type: Option<Seq<char>>) -> ManeuverKind {
    match maneuver_type {
        None => ManeuverKind::Continue,
        Some(t) => if t == "depart"@ {
            ManeuverKind::Depart
        } else if t == "turn"@ {
            ManeuverKind::Turn
        } else if t == "merge"@ {
            ManeuverKind::Merge
        } else if t == "ramp"@ {
            ManeuverKind::Ramp
        } else if t == "fork"@ {
            ManeuverKind::Fork
        } else if t == "roundabout"@ {
            ManeuverKind::Roundabout
        } else if t == "arrive"@ {
            ManeuverKind::Arrive
        } else {
            ManeuverKind::Continue
        },
    }
}

impl View for OSRMStep {
    type V = StepView;

    open spec fn view(&self) -> StepView {
        StepView {
            kind: maneuver_kind(text_of(self.maneuver.maneuver_type)),
            modifier: text_of(self.maneuver.modifier),
            name: text_of(self.name),
            road_ref: text_of(self.ref_),
            bearing: match self.maneuver.bearing_after {
                Some(b) => Some(b as int),
                None => None,
            },
            distance: self.distance as nat,
        }
    }
}

/// The steps of all legs, leg by leg, each leg's steps in their own order.
pub open spec fn leg_steps(legs: Seq<OSRMLeg>) -> Seq<OSRMStep>
    decreases legs.len(),
{
    if legs.len() == 0 {
        Seq::empty()
    } else {
        leg_steps(legs.drop_last()) + legs.last().steps@
    }
}

/// The steps come leg by leg, and within a leg in their own order: step `j`
/// of leg `i` stands right after the steps of the legs before leg `i` and
/// the first `j` steps of its own leg.
pub proof fn lemma_leg_steps_order(legs: Seq<OSRMLeg>, i: int, j: int)
    requires
        0 <= i < legs.len(),
        0 <= j < legs[i].steps@.len(),
    ensures
        leg_steps(legs.take(i)).len() + j < leg_steps(legs).len(),
        leg_steps(legs)[leg_steps(legs.take(i)).len() + j] == legs[i].steps@[j],
    decreases legs.len(),
{
    if i < legs.len() - 1 {
        let earlier = legs.drop_last();
        assert(earlier.take(i) =~= legs.take(i));
        lemma_leg_steps_order(earlier, i, j);
    }
}

} // verus!
