use map_rs::error::ServiceError;
use map_rs::provider::{
    NominatimResult, OSRMLeg, OSRMManeuver, OSRMResponse, OSRMRoute, OSRMStep, ProviderReply,
};
use map_rs::routing::{status_is_success, RouteRequest, RoutingService, Waypoint};

fn waypoint(lat: i64, lng: i64) -> Waypoint {
    Waypoint { lat, lng, name: None }
}

fn london_to_big_ben() -> Vec<Waypoint> {
    vec![waypoint(515_074_000, -1_278_000), waypoint(514_994_000, -1_245_000)]
}

fn step(
    kind: &str,
    name: &str,
    lng: i64,
    lat: i64,
    millimetres: u64,
    milliseconds: u64,
) -> OSRMStep {
    OSRMStep {
        distance: millimetres,
        duration: milliseconds,
        maneuver: OSRMManeuver {
            location: [lng, lat],
            maneuver_type: Some(String::from(kind)),
            modifier: Some(String::from("left")),
            bearing_after: Some(900_000_000),
        },
        name: Some(String::from(name)),
        ref_: None,
    }
}

fn line() -> geojson::Geometry {
    geojson::Geometry::new(geojson::Value::LineString(vec![
        vec![-0.1278, 51.5074],
        vec![-0.1245, 51.4994],
    ]))
}

fn two_by_two() -> OSRMRoute {
    OSRMRoute {
        distance: 1_234_500,
        duration: 321_000,
        geometry: line(),
        legs: vec![
            OSRMLeg {
                steps: vec![
                    step("depart", "First Street", 1, 2, 100_000, 10_000),
                    step("turn", "Second Street", 3, 4, 200_000, 20_000),
                ],
            },
            OSRMLeg {
                steps: vec![
                    step("turn", "Third Street", 5, 6, 300_000, 30_000),
                    step("arrive", "Fourth Street", 7, 8, 0, 0),
                ],
            },
        ],
    }
}

fn answered<T>(status: u16, body: Option<T>) -> ProviderReply<T> {
    ProviderReply::Answered { status, body }
}

fn candidate(lat: &str, lon: &str) -> NominatimResult {
    NominatimResult {
        lat: String::from(lat),
        lon: String::from(lon),
        display_name: String::from("somewhere"),
    }
}

#[test]
fn success_statuses_are_the_two_hundreds() {
    for status in 0..=u16::MAX {
        assert_eq!(status_is_success(status), (200..300).contains(&status));
    }
}

#[test]
fn new_service_talks_to_the_public_provider() {
    assert_eq!(RoutingService::new().osm_api_base, "https://router.project-osrm.org");
    assert_eq!(RoutingService::default().osm_api_base, "https://router.project-osrm.org");
}

#[test]
fn default_route_request_is_driving_without_waypoints() {
    let request = RouteRequest::default();
    assert!(request.waypoints.is_empty());
    assert_eq!(request.profile, "driving");
}

#[test]
fn route_request_needs_two_waypoints() {
    let service = RoutingService::new();
    assert_eq!(service.route_request(&[]).unwrap_err(), ServiceError::InvalidInput);
    assert_eq!(
        service.route_request(&[waypoint(515_074_000, -1_278_000)]).unwrap_err(),
        ServiceError::InvalidInput
    );
}

#[test]
fn route_request_url() {
    let service = RoutingService::new();
    let request = service.route_request(&london_to_big_ben()).unwrap();
    assert_eq!(
        request.url,
        "https://router.project-osrm.org/route/v1/driving/-0.1278,51.5074;-0.1245,51.4994\
         ?overview=full&geometries=geojson&steps=true&annotations=true&continue_straight=true"
    );
    assert_eq!(request.user_agent, None);
}

#[test]
fn route_request_keeps_waypoint_order_and_base() {
    let service = RoutingService { osm_api_base: String::from("http://localhost:5000") };
    let waypoints = vec![
        waypoint(10_000_000, 20_000_000),
        waypoint(-35_000_000, 1),
        waypoint(0, -1_800_000_000),
    ];
    let request = service.route_request(&waypoints).unwrap();
    assert_eq!(
        request.url,
        "http://localhost:5000/route/v1/driving/2,1;0.0000001,-3.5;-180,0\
         ?overview=full&geometries=geojson&steps=true&annotations=true&continue_straight=true"
    );
}

#[test]
fn calculate_route_with_no_waypoints_is_invalid_input() {
    let service = RoutingService::new();
    let reply = answered(200, Some(OSRMResponse { routes: vec![two_by_two()] }));
    assert_eq!(
        service.calculate_route(&[], false, &reply).unwrap_err(),
        ServiceError::InvalidInput
    );
}

#[test]
fn calculate_route_with_one_waypoint_is_invalid_input() {
    let service = RoutingService::new();
    let one = [waypoint(515_074_000, -1_278_000)];
    let reply = answered(200, Some(OSRMResponse { routes: vec![two_by_two()] }));
    assert_eq!(
        service.calculate_route(&one, false, &reply).unwrap_err(),
        ServiceError::InvalidInput
    );
    assert_eq!(
        service.calculate_route(&one, true, &ProviderReply::Unreachable).unwrap_err(),
        ServiceError::InvalidInput
    );
}

#[test]
fn calculate_route_unreachable_is_a_network_error() {
    let service = RoutingService::new();
    assert_eq!(
        service
            .calculate_route(&london_to_big_ben(), false, &ProviderReply::Unreachable)
            .unwrap_err(),
        ServiceError::NetworkError
    );
}

#[test]
fn calculate_route_bad_status_is_a_provider_error() {
    let service = RoutingService::new();
    for status in [100, 199, 300, 400, 404, 429, 500, 503] {
        let reply = answered(status, Some(OSRMResponse { routes: vec![two_by_two()] }));
        assert_eq!(
            service.calculate_route(&london_to_big_ben(), false, &reply).unwrap_err(),
            ServiceError::ProviderError { status }
        );
    }
    let unread: ProviderReply<OSRMResponse> = answered(400, None);
    assert_eq!(
        service.calculate_route(&london_to_big_ben(), false, &unread).unwrap_err(),
        ServiceError::ProviderError { status: 400 }
    );
}

#[test]
fn calculate_route_accepts_every_success_status() {
    let service = RoutingService::new();
    for status in [200, 204, 299] {
        let reply = answered(status, Some(OSRMResponse { routes: vec![two_by_two()] }));
        assert!(service.calculate_route(&london_to_big_ben(), false, &reply).is_ok());
    }
}

#[test]
fn calculate_route_undecoded_body_is_a_parse_error() {
    let service = RoutingService::new();
    let reply: ProviderReply<OSRMResponse> = answered(200, None);
    assert_eq!(
        service.calculate_route(&london_to_big_ben(), false, &reply).unwrap_err(),
        ServiceError::ParseError
    );
}

#[test]
fn calculate_route_without_candidates_is_no_route_found() {
    let service = RoutingService::new();
    let reply = answered(200, Some(OSRMResponse { routes: vec![] }));
    assert_eq!(
        service.calculate_route(&london_to_big_ben(), false, &reply).unwrap_err(),
        ServiceError::NoRouteFound
    );
}

#[test]
fn calculate_route_passes_distance_and_duration_through() {
    let service = RoutingService::new();
    let reply = answered(200, Some(OSRMResponse { routes: vec![two_by_two()] }));
    for use_miles in [false, true] {
        let route = service.calculate_route(&london_to_big_ben(), use_miles, &reply).unwrap();
        assert_eq!(route.distance, 1_234_500);
        assert_eq!(route.duration, 321_000);
    }
}

#[test]
fn calculate_route_serializes_the_geometry() {
    let service = RoutingService::new();
    let reply = answered(200, Some(OSRMResponse { routes: vec![two_by_two()] }));
    let route = service.calculate_route(&london_to_big_ben(), false, &reply).unwrap();
    assert_eq!(
        route.geometry,
        "{\"type\":\"LineString\",\"coordinates\":[[-0.1278,51.5074],[-0.1245,51.4994]]}"
    );
}

#[test]
fn calculate_route_takes_the_first_candidate() {
    let service = RoutingService::new();
    let mut second = two_by_two();
    second.distance = 9;
    second.legs.clear();
    let reply = answered(200, Some(OSRMResponse { routes: vec![two_by_two(), second] }));
    let route = service.calculate_route(&london_to_big_ben(), false, &reply).unwrap();
    assert_eq!(route.distance, 1_234_500);
    assert_eq!(route.instructions.len(), 4);
}

#[test]
fn instructions_come_leg_by_leg_and_step_by_step() {
    let service = RoutingService::new();
    let reply = answered(200, Some(OSRMResponse { routes: vec![two_by_two()] }));
    let route = service.calculate_route(&london_to_big_ben(), false, &reply).unwrap();
    let texts: Vec<&str> = route.instructions.iter().map(|i| i.text.as_str()).collect();
    assert_eq!(
        texts,
        vec![
            "Head east on First Street for 100 m",
            "Turn left on Second Street for 200 m",
            "Turn left on Third Street for 300 m",
            "Arrive at your destination",
        ]
    );
}

#[test]
fn instructions_carry_the_values_of_their_steps() {
    let service = RoutingService::new();
    let route = two_by_two();
    let instructions = service.parse_instructions(&route.legs, true);
    assert_eq!(instructions.len(), 4);
    let expected = [
        (100_000, 10_000, 2, 1),
        (200_000, 20_000, 4, 3),
        (300_000, 30_000, 6, 5),
        (0, 0, 8, 7),
    ];
    for (instruction, (distance, duration, lat, lng)) in instructions.iter().zip(expected) {
        assert_eq!(instruction.distance, distance);
        assert_eq!(instruction.duration, duration);
        assert_eq!(instruction.location.latitude, lat);
        assert_eq!(instruction.location.longitude, lng);
        assert_eq!(instruction.location.accuracy, None);
    }
    assert_eq!(instructions[0].text, "Head east on First Street for 0.1 mi");
}

#[test]
fn instructions_of_uneven_and_empty_legs() {
    let service = RoutingService::new();
    let legs = vec![
        OSRMLeg { steps: vec![] },
        OSRMLeg { steps: vec![step("depart", "A", 0, 0, 1_000, 1)] },
        OSRMLeg { steps: vec![] },
        OSRMLeg {
            steps: vec![
                step("turn", "B", 0, 0, 2_000, 1),
                step("turn", "C", 0, 0, 3_000, 1),
                step("arrive", "D", 0, 0, 4_000, 1),
            ],
        },
    ];
    let distances: Vec<u64> =
        service.parse_instructions(&legs, false).iter().map(|i| i.distance).collect();
    assert_eq!(distances, vec![1_000, 2_000, 3_000, 4_000]);
    assert!(service.parse_instructions(&[], false).is_empty());
}

#[test]
fn route_response_of_a_serialized_geometry() {
    let service = RoutingService::new();
    let route = two_by_two();
    let response = service.route_response(&route, Ok(String::from("{}")), false).unwrap();
    assert_eq!(response.geometry, "{}");
    assert_eq!(response.distance, 1_234_500);
    assert_eq!(response.duration, 321_000);
    assert_eq!(response.instructions.len(), 4);
}

#[test]
fn route_response_of_a_refused_geometry_is_a_parse_error() {
    let service = RoutingService::new();
    let failure = serde_json::from_str::<serde_json::Value>("{").unwrap_err();
    assert_eq!(
        service.route_response(&two_by_two(), Err(failure), false).unwrap_err(),
        ServiceError::ParseError
    );
}

#[test]
fn geocode_request_encodes_the_query() {
    let service = RoutingService::new();
    let request = service.geocode_request("London, UK");
    assert_eq!(
        request.url,
        "https://nominatim.openstreetmap.org/search?format=json&q=London%2C%20UK"
    );
    assert_eq!(request.user_agent.as_deref(), Some("OSM-Map-App/1.0"));
}

#[test]
fn geocode_request_keeps_unreserved_characters() {
    let service = RoutingService::new();
    let request = service.geocode_request("AZaz09-._~");
    assert_eq!(
        request.url,
        "https://nominatim.openstreetmap.org/search?format=json&q=AZaz09-._~"
    );
    let empty = service.geocode_request("");
    assert_eq!(empty.url, "https://nominatim.openstreetmap.org/search?format=json&q=");
}

#[test]
fn geocode_request_encodes_every_byte_of_a_character() {
    let service = RoutingService::new();
    let request = service.geocode_request("Zürich & 東京?/#+%");
    assert_eq!(
        request.url,
        "https://nominatim.openstreetmap.org/search?format=json&q=\
         Z%C3%BCrich%20%26%20%E6%9D%B1%E4%BA%AC%3F%2F%23%2B%25"
    );
}

#[test]
fn geocode_of_an_empty_array_is_an_empty_list() {
    let service = RoutingService::new();
    let reply: ProviderReply<Vec<NominatimResult>> = answered(200, Some(vec![]));
    assert_eq!(service.geocode(&reply), Ok(vec![]));
}

#[test]
fn geocode_keeps_the_provider_order() {
    let service = RoutingService::new();
    let reply = answered(
        200,
        Some(vec![
            candidate("51.5073219", "-0.1276474"),
            candidate("42.9832406", "-81.243372"),
            candidate("-33.0", "27.9"),
        ]),
    );
    let places = service.geocode(&reply).unwrap();
    let coordinates: Vec<(i64, i64)> = places.iter().map(|p| (p.latitude, p.longitude)).collect();
    assert_eq!(
        coordinates,
        vec![
            (515_073_219, -1_276_474),
            (429_832_406, -812_433_720),
            (-330_000_000, 279_000_000),
        ]
    );
    for place in &places {
        assert_eq!(place.accuracy, None);
        assert!(place.timestamp.is_some());
    }
}

#[test]
fn geocode_reads_coordinates_with_exponents() {
    let service = RoutingService::new();
    let reply = answered(
        200,
        Some(vec![candidate("5e1", "1e-05"), candidate("-1.25E1", "+1.8e2")]),
    );
    let places = service.geocode(&reply).unwrap();
    let coordinates: Vec<(i64, i64)> = places.iter().map(|p| (p.latitude, p.longitude)).collect();
    assert_eq!(coordinates, vec![(500_000_000, 100), (-125_000_000, 1_800_000_000)]);
}

#[test]
fn geocode_with_a_malformed_candidate_is_a_parse_error() {
    let service = RoutingService::new();
    let bad_lat = answered(200, Some(vec![candidate("51.5", "-0.1"), candidate("north", "0")]));
    assert_eq!(service.geocode(&bad_lat), Err(ServiceError::ParseError));
    let bad_lon = answered(200, Some(vec![candidate("51.5", "")]));
    assert_eq!(service.geocode(&bad_lon), Err(ServiceError::ParseError));
}

#[test]
fn geocode_unreachable_is_a_network_error() {
    let service = RoutingService::new();
    assert_eq!(service.geocode(&ProviderReply::Unreachable), Err(ServiceError::NetworkError));
}

#[test]
fn geocode_undecoded_body_is_a_parse_error() {
    let service = RoutingService::new();
    let reply: ProviderReply<Vec<NominatimResult>> = answered(200, None);
    assert_eq!(service.geocode(&reply), Err(ServiceError::ParseError));
}

#[test]
fn geocode_lenient_passes_over_malformed_candidates() {
    let service = RoutingService::new();
    let reply = answered(
        200,
        Some(vec![
            candidate("north", "0"),
            candidate("51.5", "-0.1"),
            candidate("1", ""),
            candidate("2", "3"),
            candidate("4", "5x1"),
        ]),
    );
    let places = service.geocode_lenient(&reply).unwrap();
    let coordinates: Vec<(i64, i64)> = places.iter().map(|p| (p.latitude, p.longitude)).collect();
    assert_eq!(coordinates, vec![(515_000_000, -1_000_000), (20_000_000, 30_000_000)]);
}

#[test]
fn geocode_lenient_agrees_with_geocode_on_well_formed_candidates() {
    let service = RoutingService::new();
    let reply = answered(200, Some(vec![candidate("51.5", "-0.1"), candidate("2", "3")]));
    let strict: Vec<(i64, i64)> =
        service.geocode(&reply).unwrap().iter().map(|p| (p.latitude, p.longitude)).collect();
    let lenient: Vec<(i64, i64)> = service
        .geocode_lenient(&reply)
        .unwrap()
        .iter()
        .map(|p| (p.latitude, p.longitude))
        .collect();
    assert_eq!(strict, lenient);
    let empty: ProviderReply<Vec<NominatimResult>> = answered(200, Some(vec![]));
    assert_eq!(service.geocode_lenient(&empty), Ok(vec![]));
}

#[test]
fn geocode_lenient_failures() {
    let service = RoutingService::new();
    assert_eq!(
        service.geocode_lenient(&ProviderReply::Unreachable),
        Err(ServiceError::NetworkError)
    );
    let undecoded: ProviderReply<Vec<NominatimResult>> = answered(200, None);
    assert_eq!(service.geocode_lenient(&undecoded), Err(ServiceError::ParseError));
    let all_bad = answered(200, Some(vec![candidate("x", "y")]));
    assert_eq!(service.geocode_lenient(&all_bad), Ok(vec![]));
}

#[test]
fn geocode_does_not_look_at_the_status() {
    let service = RoutingService::new();
    let reply = answered(503, Some(vec![candidate("1", "2")]));
    assert_eq!(service.geocode(&reply).unwrap().len(), 1);
}

#[test]
fn locate_reads_one_candidate() {
    let service = RoutingService::new();
    let place = service.locate(&candidate("48.8566", "2.3522")).unwrap();
    assert_eq!((place.latitude, place.longitude), (488_566_000, 23_522_000));
    assert_eq!(service.locate(&candidate("48.8566", "east")), Err(ServiceError::ParseError));
    assert_eq!(service.locate(&candidate("inf", "2.3522")), Err(ServiceError::ParseError));
    let scientific = service.locate(&candidate("5e1", "1e-05")).unwrap();
    assert_eq!((scientific.latitude, scientific.longitude), (500_000_000, 100));
}

#[test]
fn error_messages() {
    assert_eq!(ServiceError::InvalidInput.message(), "At least 2 waypoints are required");
    assert_eq!(ServiceError::NetworkError.message(), "Provider unreachable");
    assert_eq!(ServiceError::ProviderError { status: 404 }.message(), "Routing API error: 404");
    assert_eq!(ServiceError::NoRouteFound.message(), "No route found");
    assert_eq!(ServiceError::ParseError.message(), "Malformed provider response");
}
