//! Field numbers of the messages exchanged with the service.
//!
//! A request and an answer are the same kind of message: a list of access points, each
//! with its address as text and, in an answer, its location. A request may carry three
//! parameters besides.

use vstd::prelude::*;

verus! {

/// Field of a message that holds one access point; it may repeat.
pub const TAG_WIFIS: u32 = 2;

/// Field of a request that holds the noise parameter.
pub const TAG_NOISE: u32 = 3;

/// Field of a request that holds the signal parameter.
pub const TAG_SIGNAL: u32 = 4;

/// Field of a request that holds the source tag.
pub const TAG_SOURCE: u32 = 5;

/// Field of an access point that holds its address as text.
pub const TAG_BSSID: u32 = 1;

/// Field of an access point that holds its location.
pub const TAG_LOCATION: u32 = 2;

/// Field of a location that holds the latitude.
pub const TAG_LATITUDE: u32 = 1;

/// Field of a location that holds the longitude.
pub const TAG_LONGITUDE: u32 = 2;

/// Field of a location that holds the horizontal accuracy.
pub const TAG_ACCURACY: u32 = 3;

/// Field of a location that holds the altitude.
pub const TAG_ALTITUDE: u32 = 5;

/// Field of a location that holds the accuracy of the altitude.
pub const TAG_ALTITUDE_ACCURACY: u32 = 6;

} // verus!
