//! Observed positions, and the store that remembers the latest of them.

use vstd::prelude::*;

verus! {

/// How many positions the store remembers.
pub const HISTORY_CAPACITY: usize = 100;

/// A position on the globe.
#[derive(Debug, Clone, Copy, PartialEq, Eq, Structural)]
pub struct Location {
    /// Degrees north of the equator, in units of 10^-7 degree.
    pub latitude: i64,
    /// Degrees east of the prime meridian, in units of 10^-7 degree.
    pub longitude: i64,
    /// Radius of uncertainty in millimetres.
    pub accuracy: Option<u64>,
    /// When the position was observed, in seconds since the Unix epoch.
    pub timestamp: Option<u64>,
}

/// A position as the map reports it.
#[derive(Debug, Clone, Copy, PartialEq, Eq, Structural)]
pub struct LocationUpdate {
    pub lat: i64,
    pub lng: i64,
    pub accuracy: Option<u64>,
}

/// A reading of the system clock. The library only hands it on.
#[verifier::external_type_specification]
#[verifier::external_body]
pub struct ExSystemTime(std::time::SystemTime);

/// Calls `std::time::SystemTime::now`. Nothing is claimed of the reading,
/// which differs from call to call.
#[verifier::external_body]
fn clock_reading() -> (reading: std::time::SystemTime) {
    std::time::SystemTime::now()
}

/// Calls `SystemTime::duration_since` with the Unix epoch and hands on the
/// whole seconds of the answer, or `None` where the reading lies before the
/// epoch. Nothing is claimed of the number.
#[verifier::external_body]
fn seconds_since_epoch(reading: &std::time::SystemTime) -> (seconds: Option<u64>) {
    match reading.duration_since(std::time::UNIX_EPOCH) {
        Ok(elapsed) => Some(elapsed.as_secs()),
        Err(_) => None,
    }
}

impl Location {
    /// A position observed at `timestamp`, of unknown accuracy.
    pub fn observed_at(latitude: i64, longitude: i64, timestamp: Option<u64>) -> (location: Self)
        ensures
            location == (Location { latitude, longitude, accuracy: None, timestamp }),
    {
        Location { latitude, longitude, accuracy: None, timestamp }
    }

    /// A position observed now, of unknown accuracy. The timestamp is
    /// whatever the system clock reads.
    pub fn new(latitude: i64, longitude: i64) -> (location: Self)
        ensures
            location.latitude == latitude,
            location.longitude == longitude,
            location.accuracy is None,
    {
        let reading = clock_reading();
        Self::observed_at(latitude, longitude, seconds_since_epoch(&reading))
    }

    /// The same position with a known accuracy.
    pub fn with_accuracy(self, accuracy: u64) -> (location: Self)
        ensures
            location == (Location { accuracy: Some(accuracy), ..self }),
    {
        Location { accuracy: Some(accuracy), ..self }
    }

}

impl vstd::std_specs::convert::FromSpecImpl<LocationUpdate> for Location {
    /// The timestamp comes from the clock, so no spec function gives the
    /// whole result.
    open spec fn obeys_from_spec() -> bool {
        false
    }

    open spec fn from_spec(update: LocationUpdate) -> Self {
        Location {
            latitude: update.lat,
            longitude: update.lng,
            accuracy: update.accuracy,
            timestamp: None,
        }
    }
}

impl From<LocationUpdate> for Location {
    /// The reported position, observed now.
    fn from(update: LocationUpdate) -> (location: Self)
        ensures
            location.latitude == update.lat,
            location.longitude == update.lng,
            location.accuracy == update.accuracy,
    {
        let mut location = Location::new(update.lat, update.lng);
        if let Some(accuracy) = update.accuracy {
            location = location.with_accuracy(accuracy);
        }
        location
    }
}

/// The store's next history: `location` comes last, and the oldest entry
/// leaves when the capacity would be exceeded.
pub open spec fn history_after(history: Seq<Location>, location: Location) -> Seq<Location> {
    let extended = history.push(location);
    if extended.len() > HISTORY_CAPACITY {
        extended.skip(1)
    } else {
        extended
    }
}

/// The history after each of `locations` was recorded in turn.
pub open spec fn history_after_all(history: Seq<Location>, locations: Seq<Location>) -> Seq<
    Location,
>
    decreases locations.len(),
{
    if locations.len() == 0 {
        history
    } else {
        history_after(history_after_all(history, locations.drop_last()), locations.last())
    }
}

/// The last `HISTORY_CAPACITY` entries of `locations`, or all of them where
/// there are fewer.
pub open spec fn latest(locations: Seq<Location>) -> Seq<Location> {
    if locations.len() > HISTORY_CAPACITY {
        locations.skip(locations.len() - HISTORY_CAPACITY)
    } else {
        locations
    }
}

/// Recording positions one after another in an empty store leaves exactly
/// the latest of them, oldest first: never more than the capacity, and the
/// last one recorded comes last.
pub proof fn lemma_history_keeps_latest(locations: Seq<Location>)
    ensures
        history_after_all(Seq::empty(), locations) == latest(locations),
        history_after_all(Seq::empty(), locations).len() <= HISTORY_CAPACITY,
        locations.len() > 0 ==> history_after_all(Seq::empty(), locations).last()
            == locations.last(),
    decreases locations.len(),
{
    if locations.len() > 0 {
        lemma_history_keeps_latest(locations.drop_last());
    }
}

/// The current position and a bounded history of positions, oldest first.
pub struct GeolocationService {
    current_location: Option<Location>,
    location_history: Vec<Location>,
}

impl View for GeolocationService {
    type V = Seq<Location>;

    /// The history, oldest first.
    closed spec fn view(&self) -> Seq<Location> {
        self.location_history@
    }
}

impl GeolocationService {
    /// The history is within its capacity and ends with the current
    /// position.
    pub closed spec fn wf(&self) -> bool {
        &&& self.location_history@.len() <= HISTORY_CAPACITY
        &&& self.current_location == self.current()
    }

    /// The position recorded last, if any.
    pub open spec fn current(&self) -> Option<Location> {
        if self@.len() == 0 {
            None
        } else {
            Some(self@.last())
        }
    }

    /// A well-formed store holds at most `HISTORY_CAPACITY` positions.
    pub proof fn lemma_history_bounded(&self)
        requires
            self.wf(),
        ensures
            self@.len() <= HISTORY_CAPACITY,
    {
    }

    /// A store that has seen no position.
    pub fn new() -> (service: Self)
        ensures
            service.wf(),
            service@ == Seq::<Location>::empty(),
    {
        Self { current_location: None, location_history: Vec::new() }
    }

    /// Records `location` as the current position and appends it to the
    /// history. A full history drops its oldest entry, and only that one.
    pub fn update_location(&mut self, location: Location)
        requires
            old(self).wf(),
        ensures
            final(self).wf(),
            final(self)@ == history_after(old(self)@, location),
            final(self).current() == Some(location),
    {
        self.location_history.push(location);
        self.current_location = Some(location);
        if self.location_history.len() > HISTORY_CAPACITY {
            self.location_history.remove(0);
        }
    }

    /// The position recorded last, or `None` before the first update.
    pub fn get_current_location(&self) -> (current: Option<&Location>)
        requires
            self.wf(),
        ensures
            current == match self.current() {
                Some(location) => Some(&location),
                None => None,
            },
    {
        self.current_location.as_ref()
    }

    /// The recorded positions, oldest first.
    pub fn get_location_history(&self) -> (history: &[Location])
        requires
            self.wf(),
        ensures
            history@ == self@,
            history@.len() <= HISTORY_CAPACITY,
    {
        self.location_history.as_slice()
    }
}

impl Default for GeolocationService {
    fn default() -> (service: Self)
        ensures
            service.wf(),
            service@ == Seq::<Location>::empty(),
    {
        Self::new()
    }
}

} // verus!
