//! The routing service: provider requests, and routes built from provider
//! replies.
//!
//! The service performs no input or output. A caller asks it for a request,
//! performs the HTTP exchange, and hands the reply back.

use crate::degrees::{degrees_text, parse_degrees, parsed_degrees, push_degrees};
use crate::error::ServiceError;
use crate::geolocation::Location;
use crate::instruction::instruction_text;
use crate::percent::{percent_encode, url_encoded};
use crate::provider::{
    leg_steps, NominatimResult, OSRMLeg, OSRMResponse, OSRMRoute, OSRMStep, ProviderReply,
};
use vstd::prelude::*;
use vstd::string::StringExecFns;

verus! {

/// The error that the JSON serializer reports. The library only tells it
/// apart from success.
#[verifier::external_type_specification]
#[verifier::external_body]
pub struct ExJsonError(serde_json::Error);

/// A point that a route must pass through.
#[derive(Debug, Clone)]
pub struct Waypoint {
    /// Latitude in units of 10^-7 degree.
    pub lat: i64,
    /// Longitude in units of 10^-7 degree.
    pub lng: i64,
    pub name: Option<String>,
}

/// What a caller wants routed.
#[derive(Debug, Clone)]
pub struct RouteRequest {
    pub waypoints: Vec<Waypoint>,
    /// "driving", "walking" or "cycling".
    pub profile: String,
}

impl Default for RouteRequest {
    /// No waypoints, by car.
    fn default() -> (request: Self)
        ensures
            request.waypoints@ == Seq::<Waypoint>::empty(),
            request.profile@ == "driving"@,
    {
        Self { waypoints: Vec::new(), profile: String::from_str("driving") }
    }
}

/// One line of turn-by-turn directions.
#[derive(Debug, Clone)]
pub struct RouteInstruction {
    pub text: String,
    /// Length of the step in millimetres.
    pub distance: u64,
    /// Travel time of the step in milliseconds.
    pub duration: u64,
    /// Where the maneuver takes place.
    pub location: Location,
}

/// A route with its directions, in the order of travel.
#[derive(Debug, Clone)]
pub struct RouteResponse {
    /// Length in millimetres.
    pub distance: u64,
    /// Travel time in milliseconds.
    pub duration: u64,
    /// The provider's geometry, as JSON text.
    pub geometry: String,
    pub instructions: Vec<RouteInstruction>,
}

/// An HTTP GET for the caller to perform.
#[derive(Debug, Clone)]
pub struct ProviderRequest {
    pub url: String,
    /// The `User-Agent` header to send, where the provider requires one.
    pub user_agent: Option<String>,
}

/// Builds routing requests and turns provider replies into routes. It holds
/// no state but the routing provider's base URL.
pub struct RoutingService {
    pub osm_api_base: String,
}

/// Whether an HTTP status reports success.
pub open spec fn is_success(status: u16) -> bool {
    200 <= status < 300
}

/// Tells whether an HTTP status reports success.
pub fn status_is_success(status: u16) -> (success: bool)
    ensures
        success == is_success(status),
{
    200 <= status && status < 300
}

/// A waypoint in a routing URL: longitude, comma, latitude.
pub open spec fn waypoint_text(waypoint: Waypoint) -> Seq<char> {
    degrees_text(waypoint.lng as int) + ","@ + degrees_text(waypoint.lat as int)
}

/// The waypoints of a routing URL, in input order, joined by semicolons.
pub open spec fn coordinates_text(waypoints: Seq<Waypoint>) -> Seq<char>
    decreases waypoints.len(),
{
    if waypoints.len() == 0 {
        Seq::empty()
    } else if waypoints.len() == 1 {
        waypoint_text(waypoints[0])
    } else {
        coordinates_text(waypoints.drop_last()) + ";"@ + waypoint_text(waypoints.last())
    }
}

/// The URL that asks the routing provider for a driving route with full
/// geometry, steps and annotations.
pub open spec fn route_url(base: Seq<char>, waypoints: Seq<Waypoint>) -> Seq<char> {
    base + "/route/v1/driving/"@ + coordinates_text(waypoints)
        + "?overview=full&geometries=geojson&steps=true&annotations=true&continue_straight=true"@
}

/// The URL that asks the geocoding provider for the places that match a
/// query.
pub open spec fn geocode_url(query: Seq<char>) -> Seq<char> {
    "https://nominatim.openstreetmap.org/search?format=json&q="@ + url_encoded(query)
}

/// Whether an instruction is the one that a step gives rise to. Its
/// position is the place of the maneuver, of unknown accuracy.
pub open spec fn instruction_matches(
    instruction: RouteInstruction,
    step: OSRMStep,
    use_miles: bool,
) -> bool {
    &&& instruction.text@ == instruction_text(step@, use_miles)
    &&& instruction.distance == step.distance
    &&& instruction.duration == step.duration
    &&& instruction.location.latitude == step.maneuver.location@[1]
    &&& instruction.location.longitude == step.maneuver.location@[0]
    &&& instruction.location.accuracy is None
}

/// Whether there is one instruction for each step, in the same order.
pub open spec fn instructions_match(
    instructions: Seq<RouteInstruction>,
    steps: Seq<OSRMStep>,
    use_miles: bool,
) -> bool {
    &&& instructions.len() == steps.len()
    &&& forall|i: int|
        0 <= i < steps.len() ==> instruction_matches(
            #[trigger] instructions[i],
            steps[i],
            use_miles,
        )
}

/// Whether a response is the route that a provider's candidate and the text
/// of its geometry give rise to: length and travel time as the provider
/// gave them, and one instruction for each step of each leg.
pub open spec fn route_matches(
    response: RouteResponse,
    route: OSRMRoute,
    geometry: Seq<char>,
    use_miles: bool,
) -> bool {
    &&& response.distance == route.distance
    &&& response.duration == route.duration
    &&& response.geometry@ == geometry
    &&& instructions_match(response.instructions@, leg_steps(route.legs@), use_miles)
}

/// Whether a position is the one that a geocoding candidate names, of
/// unknown accuracy.
pub open spec fn location_matches(location: Location, candidate: NominatimResult) -> bool {
    &&& parsed_degrees(candidate.lat@) == Some(location.latitude as int)
    &&& parsed_degrees(candidate.lon@) == Some(location.longitude as int)
    &&& location.accuracy is None
}

/// Whether both coordinates of a candidate are decimal numerals of angles.
pub open spec fn is_well_formed(candidate: NominatimResult) -> bool {
    parsed_degrees(candidate.lat@) is Some && parsed_degrees(candidate.lon@) is Some
}

/// Whether every candidate is well formed.
pub open spec fn all_well_formed(candidates: Seq<NominatimResult>) -> bool {
    forall|i: int| 0 <= i < candidates.len() ==> is_well_formed(#[trigger] candidates[i])
}

/// The well-formed candidates, in their order.
pub open spec fn well_formed_only(candidates: Seq<NominatimResult>) -> Seq<NominatimResult>
    decreases candidates.len(),
{
    if candidates.len() == 0 {
        Seq::empty()
    } else if is_well_formed(candidates.last()) {
        well_formed_only(candidates.drop_last()).push(candidates.last())
    } else {
        well_formed_only(candidates.drop_last())
    }
}

/// Where every candidate is well formed, passing over the malformed ones
/// passes over none.
pub proof fn lemma_well_formed_only_all(candidates: Seq<NominatimResult>)
    requires
        all_well_formed(candidates),
    ensures
        well_formed_only(candidates) == candidates,
    decreases candidates.len(),
{
    if candidates.len() > 0 {
        let earlier = candidates.drop_last();
        assert(all_well_formed(earlier)) by {
            assert forall|i: int| 0 <= i < earlier.len() implies is_well_formed(
                #[trigger] earlier[i],
            ) by {
                assert(earlier[i] == candidates[i]);
            }
        }
        lemma_well_formed_only_all(earlier);
        assert(earlier.push(candidates.last()) =~= candidates);
    }
}

/// Whether there is one position for each candidate, in the same order.
pub open spec fn locations_match(
    locations: Seq<Location>,
    candidates: Seq<NominatimResult>,
) -> bool {
    &&& locations.len() == candidates.len()
    &&& forall|i: int|
        0 <= i < candidates.len() ==> location_matches(#[trigger] locations[i], candidates[i])
}

/// The JSON text that `serde_json::to_string` writes for a geometry, or
/// `None` where it reports an error. The text depends on the geometry
/// alone.
pub uninterp spec fn geometry_json(geometry: geojson::Geometry) -> Option<Seq<char>>;

/// Calls `serde_json::to_string` on a geometry, which writes the geometry
/// as JSON text or reports that its serialization failed. The contract
/// gives the outcome its name, `geometry_json`, and claims nothing else of
/// it.
#[verifier::external_body]
fn geometry_to_json(geometry: &geojson::Geometry) -> (json: Result<String, serde_json::Error>)
    ensures
        match json {
            Ok(text) => geometry_json(*geometry) == Some(text@),
            Err(_) => geometry_json(*geometry) is None,
        },
{
    serde_json::to_string(geometry)
}

/// The coordinates text grows by one waypoint at a time.
proof fn lemma_coordinates_step(waypoints: Seq<Waypoint>, i: int)
    requires
        0 <= i < waypoints.len(),
    ensures
        coordinates_text(waypoints.take(i + 1)) == if i == 0 {
            waypoint_text(waypoints[0])
        } else {
            coordinates_text(waypoints.take(i)) + ";"@ + waypoint_text(waypoints[i])
        },
{
    assert(waypoints.take(i + 1).drop_last() =~= waypoints.take(i));
}

/// The steps of the first `i + 1` legs are those of the first `i` legs and
/// then those of leg `i`.
proof fn lemma_leg_steps_step(legs: Seq<OSRMLeg>, i: int)
    requires
        0 <= i < legs.len(),
    ensures
        leg_steps(legs.take(i + 1)) == leg_steps(legs.take(i)) + legs[i].steps@,
{
    assert(legs.take(i + 1).drop_last() =~= legs.take(i));
}

impl RoutingService {
    /// A service that talks to the public routing provider.
    pub fn new() -> (service: Self)
        ensures
            service.osm_api_base@ == "https://router.project-osrm.org"@,
    {
        Self { osm_api_base: String::from_str("https://router.project-osrm.org") }
    }

    /// The request that asks the routing provider for a route through
    /// `waypoints`. A route needs at least two waypoints.
    pub fn route_request(&self, waypoints: &[Waypoint]) -> (result: Result<
        ProviderRequest,
        ServiceError,
    >)
        ensures
            waypoints@.len() < 2 ==> result == Err::<ProviderRequest, ServiceError>(
                ServiceError::InvalidInput,
            ),
            waypoints@.len() >= 2 ==> result is Ok && result->Ok_0.url@ == route_url(
                self.osm_api_base@,
                waypoints@,
            ) && result->Ok_0.user_agent is None,
    {
        if waypoints.len() < 2 {
            return Err(ServiceError::InvalidInput);
        }
        let mut url = self.osm_api_base.clone();
        url.append("/route/v1/driving/");
        let mut i: usize = 0;
        while i < waypoints.len()
            invariant
                i <= waypoints@.len(),
                url@ == self.osm_api_base@ + "/route/v1/driving/"@ + coordinates_text(
                    waypoints@.take(i as int),
                ),
            decreases waypoints@.len() - i,
        {
            if i > 0 {
                url.append(";");
            }
            push_degrees(&mut url, waypoints[i].lng);
            url.append(",");
            push_degrees(&mut url, waypoints[i].lat);
            proof {
                lemma_coordinates_step(waypoints@, i as int);
                assert(url@ =~= self.osm_api_base@ + "/route/v1/driving/"@ + coordinates_text(
                    waypoints@.take(i + 1),
                ));
            }
            i = i + 1;
        }
        assert(waypoints@.take(i as int) =~= waypoints@);
        url.append(
            "?overview=full&geometries=geojson&steps=true&annotations=true&continue_straight=true",
        );
        Ok(ProviderRequest { url, user_agent: None })
    }

    /// The directions of a route: one instruction for each step, leg by leg
    /// and step by step, in the provider's order. Each instruction is
    /// stamped with the time at which it was made.
    pub fn parse_instructions(&self, legs: &[OSRMLeg], use_miles: bool) -> (instructions: Vec<
        RouteInstruction,
    >)
        ensures
            instructions_match(instructions@, leg_steps(legs@), use_miles),
    {
        let mut instructions: Vec<RouteInstruction> = Vec::new();
        let mut i: usize = 0;
        while i < legs.len()
            invariant
                i <= legs@.len(),
                instructions_match(instructions@, leg_steps(legs@.take(i as int)), use_miles),
            decreases legs@.len() - i,
        {
            let leg = &legs[i];
            let ghost before = leg_steps(legs@.take(i as int));
            let mut j: usize = 0;
            while j < leg.steps.len()
                invariant
                    j <= leg.steps@.len(),
                    instructions_match(
                        instructions@,
                        before + leg.steps@.take(j as int),
                        use_miles,
                    ),
                decreases leg.steps@.len() - j,
            {
                let step = &leg.steps[j];
                let text = self.generate_instruction_text(step, use_miles);
                let instruction = RouteInstruction {
                    text,
                    distance: step.distance,
                    duration: step.duration,
                    location: Location::new(step.maneuver.location[1], step.maneuver.location[0]),
                };
                instructions.push(instruction);
                proof {
                    assert(before + leg.steps@.take(j + 1) =~= (before + leg.steps@.take(
                        j as int,
                    )).push(leg.steps@[j as int]));
                }
                j = j + 1;
            }
            proof {
                lemma_leg_steps_step(legs@, i as int);
            }
            i = i + 1;
        }
        assert(legs@.take(i as int) =~= legs@);
        instructions
    }

    /// The route that a provider's candidate stands for, once its geometry
    /// has gone through the JSON serializer. A geometry that the serializer
    /// refused is a parse error.
    pub fn route_response(
        &self,
        route: &OSRMRoute,
        geometry: Result<String, serde_json::Error>,
        use_miles: bool,
    ) -> (result: Result<RouteResponse, ServiceError>)
        ensures
            match geometry {
                Ok(text) => result is Ok && route_matches(
                    result->Ok_0,
                    *route,
                    text@,
                    use_miles,
                ),
                Err(_) => result == Err::<RouteResponse, ServiceError>(ServiceError::ParseError),
            },
    {
        match geometry {
            Ok(text) => {
                let instructions = self.parse_instructions(route.legs.as_slice(), use_miles);
                Ok(
                    RouteResponse {
                        distance: route.distance,
                        duration: route.duration,
                        geometry: text,
                        instructions,
                    },
                )
            },
            Err(_) => Err(ServiceError::ParseError),
        }
    }

    /// The route through `waypoints`, given how the exchange with the
    /// routing provider ended. Of the provider's candidates the first one
    /// counts, and the route's geometry is the JSON text of that
    /// candidate's geometry. The failures, in the order in which they are
    /// looked for: fewer than two waypoints; no response; a status that is
    /// not a success; a body that could not be decoded; no candidate; a
    /// geometry that the JSON serializer refuses.
    pub fn calculate_route(
        &self,
        waypoints: &[Waypoint],
        use_miles: bool,
        reply: &ProviderReply<OSRMResponse>,
    ) -> (result: Result<RouteResponse, ServiceError>)
        ensures
            waypoints@.len() < 2 ==> result == Err::<RouteResponse, ServiceError>(
                ServiceError::InvalidInput,
            ),
            waypoints@.len() >= 2 ==> match *reply {
                ProviderReply::Unreachable => result == Err::<RouteResponse, ServiceError>(
                    ServiceError::NetworkError,
                ),
                ProviderReply::Answered { status, body } => if !is_success(status) {
                    result == Err::<RouteResponse, ServiceError>(
                        ServiceError::ProviderError { status },
                    )
                } else if body is None {
                    result == Err::<RouteResponse, ServiceError>(ServiceError::ParseError)
                } else if body->0.routes@.len() == 0 {
                    result == Err::<RouteResponse, ServiceError>(ServiceError::NoRouteFound)
                } else {
                    match geometry_json(body->0.routes@[0].geometry) {
                        Some(text) => result is Ok && route_matches(
                            result->Ok_0,
                            body->0.routes@[0],
                            text,
                            use_miles,
                        ),
                        None => result == Err::<RouteResponse, ServiceError>(
                            ServiceError::ParseError,
                        ),
                    }
                },
            },
    {
        if waypoints.len() < 2 {
            return Err(ServiceError::InvalidInput);
        }
        match reply {
            ProviderReply::Unreachable => Err(ServiceError::NetworkError),
            ProviderReply::Answered { status, body } => {
                if !status_is_success(*status) {
                    return Err(ServiceError::ProviderError { status: *status });
                }
                match body {
                    None => Err(ServiceError::ParseError),
                    Some(response) => {
                        if response.routes.len() == 0 {
                            return Err(ServiceError::NoRouteFound);
                        }
                        let route = &response.routes[0];
                        self.route_response(route, geometry_to_json(&route.geometry), use_miles)
                    },
                }
            },
        }
    }

    /// The request that asks the geocoding provider for the places that
    /// match `query`. The provider requires the identifying header.
    pub fn geocode_request(&self, query: &str) -> (request: ProviderRequest)
        ensures
            request.url@ == geocode_url(query@),
            request.user_agent is Some,
            request.user_agent->0@ == "OSM-Map-App/1.0"@,
    {
        let mut url = String::from_str("https://nominatim.openstreetmap.org/search?format=json&q=");
        let encoded = percent_encode(query);
        url.append(encoded.as_str());
        ProviderRequest { url, user_agent: Some(String::from_str("OSM-Map-App/1.0")) }
    }

    /// The position that a geocoding candidate names, stamped with the
    /// current time. A coordinate that is no decimal numeral is a parse
    /// error.
    pub fn locate(&self, candidate: &NominatimResult) -> (result: Result<Location, ServiceError>)
        ensures
            match result {
                Ok(location) => is_well_formed(*candidate) && location_matches(
                    location,
                    *candidate,
                ),
                Err(error) => !is_well_formed(*candidate) && error == ServiceError::ParseError,
            },
    {
        let latitude = parse_degrees(candidate.lat.as_str());
        let longitude = parse_degrees(candidate.lon.as_str());
        match (latitude, longitude) {
            (Some(lat), Some(lon)) => Ok(Location::new(lat, lon)),
            _ => Err(ServiceError::ParseError),
        }
    }

    /// The positions of the places that the geocoding provider found, in
    /// the provider's order, given how the exchange ended. No place found is
    /// an empty list, not a failure. One malformed candidate fails the
    /// whole call.
    pub fn geocode(&self, reply: &ProviderReply<Vec<NominatimResult>>) -> (result: Result<
        Vec<Location>,
        ServiceError,
    >)
        ensures
            match *reply {
                ProviderReply::Unreachable => result == Err::<Vec<Location>, ServiceError>(
                    ServiceError::NetworkError,
                ),
                ProviderReply::Answered { status, body: None } => result == Err::<
                    Vec<Location>,
                    ServiceError,
                >(ServiceError::ParseError),
                ProviderReply::Answered { status, body: Some(candidates) } => if all_well_formed(
                    candidates@,
                ) {
                    result is Ok && locations_match(result->Ok_0@, candidates@)
                } else {
                    result == Err::<Vec<Location>, ServiceError>(ServiceError::ParseError)
                },
            },
    {
        match reply {
            ProviderReply::Unreachable => Err(ServiceError::NetworkError),
            ProviderReply::Answered { status: _, body: None } => Err(ServiceError::ParseError),
            ProviderReply::Answered { status: _, body: Some(candidates) } => {
                let mut locations: Vec<Location> = Vec::new();
                let mut i: usize = 0;
                while i < candidates.len()
                    invariant
                        *reply matches ProviderReply::Answered { body: Some(found), .. }
                            && found == *candidates,
                        i <= candidates@.len(),
                        all_well_formed(candidates@.take(i as int)),
                        locations_match(locations@, candidates@.take(i as int)),
                    decreases candidates@.len() - i,
                {
                    match self.locate(&candidates[i]) {
                        Ok(location) => {
                            locations.push(location);
                        },
                        Err(error) => {
                            return Err(error);
                        },
                    }
                    i = i + 1;
                }
                assert(candidates@.take(i as int) =~= candidates@);
                Ok(locations)
            },
        }
    }

    /// The positions of the well-formed places that the geocoding provider
    /// found, in the provider's order, given how the exchange ended. A
    /// malformed candidate is passed over.
    pub fn geocode_lenient(&self, reply: &ProviderReply<Vec<NominatimResult>>) -> (result: Result<
        Vec<Location>,
        ServiceError,
    >)
        ensures
            match *reply {
                ProviderReply::Unreachable => result == Err::<Vec<Location>, ServiceError>(
                    ServiceError::NetworkError,
                ),
                ProviderReply::Answered { status, body: None } => result == Err::<
                    Vec<Location>,
                    ServiceError,
                >(ServiceError::ParseError),
                ProviderReply::Answered { status, body: Some(candidates) } => result is Ok
                    && locations_match(result->Ok_0@, well_formed_only(candidates@)),
            },
    {
        match reply {
            ProviderReply::Unreachable => Err(ServiceError::NetworkError),
            ProviderReply::Answered { status: _, body: None } => Err(ServiceError::ParseError),
            ProviderReply::Answered { status: _, body: Some(candidates) } => {
                let mut locations: Vec<Location> = Vec::new();
                let mut i: usize = 0;
                while i < candidates.len()
                    invariant
                        i <= candidates@.len(),
                        locations_match(
                            locations@,
                            well_formed_only(candidates@.take(i as int)),
                        ),
                    decreases candidates@.len() - i,
                {
                    assert(candidates@.take(i + 1).drop_last() =~= candidates@.take(i as int));
                    match self.locate(&candidates[i]) {
                        Ok(location) => {
                            locations.push(location);
                        },
                        Err(_) => {},
                    }
                    i = i + 1;
                }
                assert(candidates@.take(i as int) =~= candidates@);
                Ok(locations)
            },
        }
    }
}

impl Default for RoutingService {
    fn default() -> (service: Self)
        ensures
            service.osm_api_base@ == "https://router.project-osrm.org"@,
    {
        Self::new()
    }
}

} // verus!
