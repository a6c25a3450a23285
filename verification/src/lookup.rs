//! Looking up one access point: what to send, and what the answer means.
//!
//! The exchange itself is the caller's: it sends the frame built here and hands back
//! what the transport returned.

use crate::coord::Location;
use crate::error::Error;
use crate::mac::{mac_text, parse_mac_text, MacAddress};
use crate::request::{encode_request, encoded_request, texts_of, ClientConfig};
use crate::response::{decode_response, response_of};
use vstd::prelude::*;

verus! {

/// Signal parameter sent with a lookup of one access point.
pub const DEFAULT_SIGNAL: i32 = 100;

/// Noise parameter sent with a lookup of one access point.
pub const DEFAULT_NOISE: i32 = 0;

/// A lookup that is ready to be sent.
#[derive(Clone, Debug, PartialEq, Eq)]
pub struct LookupRequest {
    /// The address asked about.
    pub bssid: MacAddress,
    /// The body of the request.
    pub frame: Vec<u8>,
}

/// What the answer to a lookup means: the location of the first access point listed, or
/// why there is none. An answer that cannot be decoded fails with the detail of the
/// decoding; one that lists no access point, or whose first access point has no known
/// location, means that the address was not found.
pub open spec fn located(response: Seq<u8>) -> Result<Option<Location>, Seq<char>> {
    match response_of(response) {
        Err(detail) => Err(detail),
        Ok(observations) => if observations.len() == 0 {
            Ok(None)
        } else {
            Ok(observations[0].location)
        },
    }
}

/// Prepares the lookup of one access point: checks the BSSID and builds the frame that
/// asks for it, with the default signal and noise parameters.
///
/// A BSSID that is no MAC address is reported as `InvalidInput` with its text, and no
/// frame is built. `EncodeError` is reported when the frame cannot be built for `config`.
pub fn begin_lookup(bssid: &str, config: &ClientConfig) -> (r: Result<LookupRequest, Error>)
    ensures
        match parse_mac_text(bssid@) {
            None => r matches Err(Error::InvalidInput(text)) && text@ == bssid@,
            Some(octets) => match encoded_request(
                seq![bssid@],
                Some(100i32),
                Some(0i32),
                config.locale@,
                config.identifier@,
                config.version@,
            ) {
                Ok(bytes) => r matches Ok(lookup) && lookup.bssid@ == octets && lookup.frame@
                    == bytes,
                Err(_) => r matches Err(Error::EncodeError),
            },
        },
{
    let mac = match MacAddress::parse(bssid) {
        Some(mac) => mac,
        None => { return Err(Error::InvalidInput(bssid.to_owned())); },
    };
    let one: [&str; 1] = [bssid];
    let list = one.as_slice();
    assert(texts_of(list@) =~= seq![bssid@]);
    proof {
        let texts = seq![bssid@];
        assert(texts.drop_last() =~= Seq::<Seq<char>>::empty());
        assert(texts.last() == bssid@);
        assert(crate::request::first_invalid(texts.drop_last()) is None);
        assert(crate::request::first_invalid(texts) is None);
    }
    match encode_request(list, Some(DEFAULT_SIGNAL), Some(DEFAULT_NOISE), config) {
        Ok(frame) => Ok(LookupRequest { bssid: mac, frame }),
        Err(e) => Err(e),
    }
}

/// Reads the location of the looked-up access point from the body of the answer.
///
/// Fails with `DecodeError` when the answer cannot be decoded, and with `BssidNotFound`,
/// holding the canonical text of `bssid`, when the answer lists no access point or gives
/// no location for the first one.
pub fn location_from_response(bssid: &MacAddress, response: &[u8]) -> (r: Result<Location, Error>)
    ensures
        match located(response@) {
            Ok(Some(location)) => r == Ok::<Location, Error>(location),
            Ok(None) => r matches Err(Error::BssidNotFound(text)) && text@ == mac_text(bssid@),
            Err(detail) => r matches Err(Error::DecodeError(d)) && d@ == detail,
        },
{
    let decoded = match decode_response(response) {
        Ok(decoded) => decoded,
        Err(e) => { return Err(e); },
    };
    if decoded.observations.len() == 0 {
        return Err(Error::BssidNotFound(bssid.to_text()));
    }
    assert(decoded@[0] == decoded.observations@[0]@);
    match decoded.observations[0].location {
        Some(location) => Ok(location),
        None => Err(Error::BssidNotFound(bssid.to_text())),
    }
}

/// Finishes a lookup with what the transport returned: the body of the answer, or the
/// error with which the exchange failed.
///
/// An error of the transport is returned as it is. A body is read as by
/// `location_from_response`.
pub fn finish_lookup(bssid: &MacAddress, reply: Result<Vec<u8>, Error>) -> (r: Result<
    Location,
    Error,
>)
    ensures
        match reply {
            Err(e) => r == Err::<Location, Error>(e),
            Ok(body) => match located(body@) {
                Ok(Some(location)) => r == Ok::<Location, Error>(location),
                Ok(None) => r matches Err(Error::BssidNotFound(text)) && text@ == mac_text(
                    bssid@,
                ),
                Err(detail) => r matches Err(Error::DecodeError(d)) && d@ == detail,
            },
        },
{
    match reply {
        Ok(body) => location_from_response(bssid, body.as_slice()),
        Err(e) => Err(e),
    }
}

} // verus!
