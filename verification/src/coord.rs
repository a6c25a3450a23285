//! Fixed-point coordinates and locations as the service transmits them.

use vstd::prelude::*;

verus! {

/// The wire value the service sends as latitude for an access point it does not know:
/// minus 180 degrees in units of 10^-8 degree.
pub const UNKNOWN_SENTINEL: i64 = -18_000_000_000;

/// Whether a fixed-point wire coordinate is the service's "location unknown" marker.
pub fn is_unknown_sentinel(fixed: i64) -> (unknown: bool)
    ensures
        unknown == (fixed == -18_000_000_000i64),
{
    fixed == UNKNOWN_SENTINEL
}

/// A location as the service's message holds it: every number as it was sent, zero
/// where the message gave none.
#[derive(Clone, Copy, Debug, PartialEq, Eq)]
pub struct ProtoLocation {
    pub latitude: i64,
    pub longitude: i64,
    pub accuracy: i64,
    pub altitude: i64,
    pub altitude_accuracy: i64,
}

/// Where an access point is. Latitude and longitude are fixed-point: degrees times 10^8.
#[derive(Clone, Copy, Debug, PartialEq, Eq)]
pub struct Location {
    pub latitude: i64,
    pub longitude: i64,
    pub accuracy: i64,
    pub altitude: i64,
    pub altitude_accuracy: i64,
}

impl Location {
    /// The location that a message's location stands for: none where its latitude is the
    /// "location unknown" marker, else the same five numbers.
    pub open spec fn of_proto(proto: ProtoLocation) -> Option<Location> {
        if proto.latitude == UNKNOWN_SENTINEL {
            None
        } else {
            Some(
                Location {
                    latitude: proto.latitude,
                    longitude: proto.longitude,
                    accuracy: proto.accuracy,
                    altitude: proto.altitude,
                    altitude_accuracy: proto.altitude_accuracy,
                },
            )
        }
    }

    /// Turns a message's location into a location, or into none for an access point the
    /// service does not know.
    pub fn from_proto(proto: ProtoLocation) -> (location: Option<Location>)
        ensures
            location == Location::of_proto(proto),
            location is None <==> proto.latitude == -18_000_000_000i64,
    {
        if is_unknown_sentinel(proto.latitude) {
            None
        } else {
            Some(
                Location {
                    latitude: proto.latitude,
                    longitude: proto.longitude,
                    accuracy: proto.accuracy,
                    altitude: proto.altitude,
                    altitude_accuracy: proto.altitude_accuracy,
                },
            )
        }
    }
}

} // verus!
