//! Codec for a service that tells where a wireless access point is.
//!
//! A lookup sends the hardware address (BSSID) of one or more access points in a framed
//! protocol-buffer message and gets back, for each access point the service lists, its
//! address and, where known, its location. This crate builds the request frame and
//! decodes the answer; sending is left to the caller.

pub mod coord;
pub mod error;
pub mod lookup;
pub mod mac;
pub mod request;
pub mod response;
pub mod roundtrip;
pub mod schema;
pub mod varint;
pub mod wire;

pub use coord::{is_unknown_sentinel, Location, ProtoLocation, UNKNOWN_SENTINEL};
pub use error::Error;
pub use lookup::{begin_lookup, finish_lookup, location_from_response, LookupRequest};
pub use mac::MacAddress;
pub use request::{build_header, encode_request, ClientConfig, Request, WifiRequestEntry};
pub use response::{decode_response, Response, WifiObservation};
