//! Reading the service's answer: a fixed preamble, then a message that lists access
//! points, each with its address as text and its location.

use crate::coord::{Location, ProtoLocation};
use crate::error::Error;
use crate::mac::{parse_mac_text, MacAddress};
use crate::schema::{
    TAG_ACCURACY, TAG_ALTITUDE, TAG_ALTITUDE_ACCURACY, TAG_BSSID, TAG_LATITUDE, TAG_LOCATION,
    TAG_LONGITUDE, TAG_WIFIS,
};
use crate::varint::{lemma_parse_varint_bounds, parse_varint, take_varint};
use crate::wire::{
    lemma_parse_delimited_bounds, lemma_parse_key_bounds, lemma_skip_field_bounds,
    parse_delimited, parse_key, skip_field, skip_value, take_delimited, take_key, NESTING_LIMIT,
    WIRE_DELIMITED, WIRE_VARINT,
};
use vstd::prelude::*;
use vstd::slice::slice_subrange;
use vstd::string::StringSliceAdditionalSpecFns;
use vstd::utf8::{decode_utf8, encode_utf8_decode_utf8, valid_utf8};

verus! {

/// How many bytes stand in front of the message in every answer. They are passed over
/// unread.
pub const RESPONSE_PREAMBLE_LEN: usize = 10;

/// One access point as the message holds it.
#[derive(Clone, Debug, PartialEq, Eq)]
pub struct ProtoWifi {
    pub bssid: String,
    pub location: Option<ProtoLocation>,
}

/// What a `ProtoWifi` holds, as mathematics.
pub struct ProtoWifiView {
    pub bssid: Seq<char>,
    pub location: Option<ProtoLocation>,
}

impl View for ProtoWifi {
    type V = ProtoWifiView;

    open spec fn view(&self) -> ProtoWifiView {
        ProtoWifiView { bssid: self.bssid@, location: self.location }
    }
}

/// One access point of an answer: its address and, where the service knows it, its
/// location.
#[derive(Clone, Copy, Debug, PartialEq, Eq)]
pub struct WifiObservation {
    pub bssid: MacAddress,
    pub location: Option<Location>,
}

/// What a `WifiObservation` holds, as mathematics.
pub struct ObservationView {
    pub bssid: Seq<u8>,
    pub location: Option<Location>,
}

impl View for WifiObservation {
    type V = ObservationView;

    open spec fn view(&self) -> ObservationView {
        ObservationView { bssid: self.bssid@, location: self.location }
    }
}

/// A decoded answer: the access points in the order in which the service listed them.
#[derive(Clone, Debug, PartialEq, Eq)]
pub struct Response {
    pub observations: Vec<WifiObservation>,
}

impl View for Response {
    type V = Seq<ObservationView>;

    open spec fn view(&self) -> Seq<ObservationView> {
        self.observations@.map_values(|o: WifiObservation| o@)
    }
}

/// The signed number that a 64-bit wire value stands for, in two's complement.
pub open spec fn int64_of_wire(raw: u64) -> i64 {
    if raw <= i64::MAX {
        raw as i64
    } else {
        (raw - 0x1_0000_0000_0000_0000) as i64
    }
}

/// A location with nothing set.
pub open spec fn empty_location() -> ProtoLocation {
    ProtoLocation { latitude: 0, longitude: 0, accuracy: 0, altitude: 0, altitude_accuracy: 0 }
}

/// Whether a location has a field with this number.
pub open spec fn is_location_tag(tag: u32) -> bool {
    tag == TAG_LATITUDE || tag == TAG_LONGITUDE || tag == TAG_ACCURACY || tag == TAG_ALTITUDE
        || tag == TAG_ALTITUDE_ACCURACY
}

/// `location` with the field numbered `tag` set to `value`.
pub open spec fn location_with(location: ProtoLocation, tag: u32, value: i64) -> ProtoLocation {
    if tag == TAG_LATITUDE {
        ProtoLocation { latitude: value, ..location }
    } else if tag == TAG_LONGITUDE {
        ProtoLocation { longitude: value, ..location }
    } else if tag == TAG_ACCURACY {
        ProtoLocation { accuracy: value, ..location }
    } else if tag == TAG_ALTITUDE {
        ProtoLocation { altitude: value, ..location }
    } else if tag == TAG_ALTITUDE_ACCURACY {
        ProtoLocation { altitude_accuracy: value, ..location }
    } else {
        location
    }
}

/// The location that the fields in `bytes` make of `start`. Each known field must be a
/// number and replaces what was there; every other field is passed over with `depth`
/// nesting levels left. `None` when the bytes are no sequence of fields.
pub open spec fn parse_location(bytes: Seq<u8>, start: ProtoLocation, depth: nat) -> Option<
    ProtoLocation,
>
    decreases bytes.len(),
{
    if bytes.len() == 0 {
        Some(start)
    } else {
        match parse_key(bytes) {
            None => None,
            Some((key, used)) => {
                let value = bytes.skip(used as int);
                if is_location_tag(key.tag) {
                    if key.wire_type != WIRE_VARINT {
                        None
                    } else {
                        match parse_varint(value) {
                            None => None,
                            Some((raw, len)) => {
                                proof {
                                    lemma_parse_varint_bounds(bytes);
                                    lemma_parse_varint_bounds(value);
                                }
                                parse_location(
                                    value.skip(len as int),
                                    location_with(start, key.tag, int64_of_wire(raw)),
                                    depth,
                                )
                            },
                        }
                    }
                } else {
                    match skip_field(key, value, depth) {
                        None => None,
                        Some(len) => {
                            proof {
                                lemma_parse_varint_bounds(bytes);
                                lemma_skip_field_bounds(key, value, depth);
                            }
                            parse_location(value.skip(len as int), start, depth)
                        },
                    }
                }
            },
        }
    }
}

/// An access point with nothing set.
pub open spec fn empty_wifi() -> ProtoWifiView {
    ProtoWifiView { bssid: Seq::empty(), location: None }
}

/// The access point that the fields in `bytes` make of `start`. The address must be
/// length-delimited UTF-8 text and replaces what was there. The location must be a
/// length-delimited message with a nesting level left for it; its fields are laid over
/// the location already there. Every other field is passed over.
pub open spec fn parse_wifi(bytes: Seq<u8>, start: ProtoWifiView, depth: nat) -> Option<
    ProtoWifiView,
>
    decreases bytes.len(),
{
    if bytes.len() == 0 {
        Some(start)
    } else {
        match parse_key(bytes) {
            None => None,
            Some((key, used)) => {
                let value = bytes.skip(used as int);
                if key.tag == TAG_BSSID {
                    match parse_delimited(value) {
                        Some((text, len)) => {
                            if key.wire_type == WIRE_DELIMITED && valid_utf8(text) {
                                proof {
                                    lemma_parse_varint_bounds(bytes);
                                    lemma_parse_varint_bounds(value);
                                }
                                parse_wifi(
                                    value.skip(len as int),
                                    ProtoWifiView { bssid: decode_utf8(text), ..start },
                                    depth,
                                )
                            } else {
                                None
                            }
                        },
                        None => None,
                    }
                } else if key.tag == TAG_LOCATION {
                    match parse_delimited(value) {
                        Some((body, len)) => {
                            if key.wire_type == WIRE_DELIMITED && depth > 0 {
                                let before = match start.location {
                                    Some(location) => location,
                                    None => empty_location(),
                                };
                                match parse_location(body, before, (depth - 1) as nat) {
                                    Some(location) => {
                                        proof {
                                            lemma_parse_varint_bounds(bytes);
                                            lemma_parse_varint_bounds(value);
                                        }
                                        parse_wifi(
                                            value.skip(len as int),
                                            ProtoWifiView { location: Some(location), ..start },
                                            depth,
                                        )
                                    },
                                    None => None,
                                }
                            } else {
                                None
                            }
                        },
                        None => None,
                    }
                } else {
                    match skip_field(key, value, depth) {
                        None => None,
                        Some(len) => {
                            proof {
                                lemma_parse_varint_bounds(bytes);
                                lemma_skip_field_bounds(key, value, depth);
                            }
                            parse_wifi(value.skip(len as int), start, depth)
                        },
                    }
                }
            },
        }
    }
}

/// The access points that the fields in `bytes` add to `start`, in their order. Each
/// access point must be a length-delimited message with a nesting level left for it;
/// every other field is passed over.
pub open spec fn parse_payload(bytes: Seq<u8>, start: Seq<ProtoWifiView>, depth: nat) -> Option<
    Seq<ProtoWifiView>,
>
    decreases bytes.len(),
{
    if bytes.len() == 0 {
        Some(start)
    } else {
        match parse_key(bytes) {
            None => None,
            Some((key, used)) => {
                let value = bytes.skip(used as int);
                if key.tag == TAG_WIFIS {
                    match parse_delimited(value) {
                        Some((body, len)) => {
                            if key.wire_type == WIRE_DELIMITED && depth > 0 {
                                match parse_wifi(body, empty_wifi(), (depth - 1) as nat) {
                                    Some(wifi) => {
                                        proof {
                                            lemma_parse_varint_bounds(bytes);
                                            lemma_parse_varint_bounds(value);
                                        }
                                        parse_payload(
                                            value.skip(len as int),
                                            start.push(wifi),
                                            depth,
                                        )
                                    },
                                    None => None,
                                }
                            } else {
                                None
                            }
                        },
                        None => None,
                    }
                } else {
                    match skip_field(key, value, depth) {
                        None => None,
                        Some(len) => {
                            proof {
                                lemma_parse_varint_bounds(bytes);
                                lemma_skip_field_bounds(key, value, depth);
                            }
                            parse_payload(value.skip(len as int), start, depth)
                        },
                    }
                }
            },
        }
    }
}

/// The detail reported for an answer shorter than its preamble.
pub open spec fn detail_truncated() -> Seq<char> {
    "truncated response"@
}

/// The detail reported for a message that is no well-formed list of access points.
pub open spec fn detail_malformed() -> Seq<char> {
    "malformed message"@
}

/// The detail reported for an access point whose address is no MAC address.
pub open spec fn detail_bad_bssid() -> Seq<char> {
    "malformed BSSID"@
}

/// The detail reported for an access point that comes without a location.
pub open spec fn detail_no_location() -> Seq<char> {
    "missing location"@
}

/// The observation that one access point of the message stands for, or the detail of
/// what is wrong with it: its address must be a MAC address and it must come with a
/// location. The address is looked at first.
pub open spec fn observation_of(wifi: ProtoWifiView) -> Result<ObservationView, Seq<char>> {
    match parse_mac_text(wifi.bssid) {
        None => Err(detail_bad_bssid()),
        Some(octets) => match wifi.location {
            None => Err(detail_no_location()),
            Some(proto) => Ok(
                ObservationView { bssid: octets, location: Location::of_proto(proto) },
            ),
        },
    }
}

/// An access point whose latitude is the "location unknown" marker stands for an
/// observation without location, never for one at minus 180 degrees.
pub proof fn lemma_sentinel_is_absent(wifi: ProtoWifiView)
    requires
        wifi.location matches Some(proto) && proto.latitude == -18_000_000_000i64,
        parse_mac_text(wifi.bssid) is Some,
    ensures
        observation_of(wifi) matches Ok(observation) && observation.location is None,
{
}

/// The observations that the access points of a message stand for, in the same order,
/// or the detail of the first access point that stands for none.
pub open spec fn observations_of(wifis: Seq<ProtoWifiView>) -> Result<
    Seq<ObservationView>,
    Seq<char>,
>
    decreases wifis.len(),
{
    if wifis.len() == 0 {
        Ok(Seq::empty())
    } else {
        match observations_of(wifis.drop_last()) {
            Err(detail) => Err(detail),
            Ok(before) => match observation_of(wifis.last()) {
                Err(detail) => Err(detail),
                Ok(observation) => Ok(before.push(observation)),
            },
        }
    }
}

/// What an answer of the service decodes to: its observations, or the detail of why it
/// cannot be decoded. The first ten bytes are passed over unread; the rest must be a
/// message whose every access point has a MAC address and a location.
pub open spec fn response_of(bytes: Seq<u8>) -> Result<Seq<ObservationView>, Seq<char>> {
    if bytes.len() < RESPONSE_PREAMBLE_LEN {
        Err(detail_truncated())
    } else {
        match parse_payload(
            bytes.skip(RESPONSE_PREAMBLE_LEN as int),
            Seq::empty(),
            NESTING_LIMIT as nat,
        ) {
            None => Err(detail_malformed()),
            Some(wifis) => observations_of(wifis),
        }
    }
}

/// What std reports for bytes that are no UTF-8.
#[verifier::external_type_specification]
#[verifier::external_body]
pub struct ExUtf8Error(core::str::Utf8Error);

/// Reads `bytes` as text with `core::str::from_utf8`. It succeeds exactly when the
/// bytes are valid UTF-8, and the text then consists of those bytes.
#[verifier::external_body]
fn str_from_utf8<'a>(bytes: &'a [u8]) -> (r: Result<&'a str, core::str::Utf8Error>)
    ensures
        r is Ok <==> valid_utf8(bytes@),
        r matches Ok(text) ==> text.spec_bytes() == bytes@,
{
    core::str::from_utf8(bytes)
}

/// The signed number that a 64-bit wire value stands for.
fn int64_from_wire(raw: u64) -> (value: i64)
    ensures
        value == int64_of_wire(raw),
{
    if raw <= 0x7fff_ffff_ffff_ffff {
        raw as i64
    } else {
        let low: i64 = (raw - 0x8000_0000_0000_0000) as i64;
        low + i64::MIN
    }
}

/// Sets the field numbered `tag` of `location`.
fn set_location_field(location: ProtoLocation, tag: u32, value: i64) -> (r: ProtoLocation)
    ensures
        r == location_with(location, tag, value),
{
    let mut r = location;
    if tag == TAG_LATITUDE {
        r.latitude = value;
    } else if tag == TAG_LONGITUDE {
        r.longitude = value;
    } else if tag == TAG_ACCURACY {
        r.accuracy = value;
    } else if tag == TAG_ALTITUDE {
        r.altitude = value;
    } else if tag == TAG_ALTITUDE_ACCURACY {
        r.altitude_accuracy = value;
    }
    r
}

/// Whether a location has a field with this number.
fn location_has(tag: u32) -> (r: bool)
    ensures
        r == is_location_tag(tag),
{
    tag == TAG_LATITUDE || tag == TAG_LONGITUDE || tag == TAG_ACCURACY || tag == TAG_ALTITUDE
        || tag == TAG_ALTITUDE_ACCURACY
}

/// Reads the fields of a location over `start`.
fn read_location(body: &[u8], start: ProtoLocation, depth: u32) -> (r: Option<ProtoLocation>)
    ensures
        r == parse_location(body@, start, depth as nat),
{
    let mut rest: &[u8] = body;
    let mut location = start;
    while rest.len() > 0
        invariant
            parse_location(body@, start, depth as nat) == parse_location(
                rest@,
                location,
                depth as nat,
            ),
        decreases rest@.len(),
    {
        proof {
            lemma_parse_key_bounds(rest@);
        }
        let (key, value) = match take_key(rest) {
            Some(found) => found,
            None => { return None; },
        };
        if location_has(key.tag) {
            if key.wire_type != WIRE_VARINT {
                return None;
            }
            proof {
                lemma_parse_varint_bounds(value@);
            }
            match take_varint(value) {
                Ok((raw, after)) => {
                    location = set_location_field(location, key.tag, int64_from_wire(raw));
                    rest = after;
                },
                Err(_) => { return None; },
            }
        } else {
            proof {
                lemma_skip_field_bounds(key, value@, depth as nat);
            }
            match skip_value(key, value, depth) {
                Some(after) => {
                    rest = after;
                },
                None => { return None; },
            }
        }
    }
    Some(location)
}

/// Reads the fields of one access point.
fn read_wifi(body: &[u8], depth: u32) -> (r: Option<ProtoWifi>)
    ensures
        match parse_wifi(body@, empty_wifi(), depth as nat) {
            Some(wifi) => r matches Some(w) && w@ == wifi,
            None => r is None,
        },
{
    let mut rest: &[u8] = body;
    let mut wifi = ProtoWifi { bssid: String::new(), location: None };
    assert(wifi@ == empty_wifi());
    while rest.len() > 0
        invariant
            parse_wifi(body@, empty_wifi(), depth as nat) == parse_wifi(
                rest@,
                wifi@,
                depth as nat,
            ),
        decreases rest@.len(),
    {
        proof {
            lemma_parse_key_bounds(rest@);
        }
        let (key, value) = match take_key(rest) {
            Some(found) => found,
            None => { return None; },
        };
        proof {
            lemma_parse_delimited_bounds(value@);
        }
        if key.tag == TAG_BSSID {
            let (text, after) = match take_delimited(value) {
                Some(found) => found,
                None => { return None; },
            };
            if key.wire_type != WIRE_DELIMITED {
                return None;
            }
            match str_from_utf8(text) {
                Ok(s) => {
                    proof {
                        encode_utf8_decode_utf8(s@);
                    }
                    wifi.bssid = s.to_owned();
                    rest = after;
                },
                Err(_) => { return None; },
            }
        } else if key.tag == TAG_LOCATION {
            let (inner, after) = match take_delimited(value) {
                Some(found) => found,
                None => { return None; },
            };
            if key.wire_type != WIRE_DELIMITED || depth == 0 {
                return None;
            }
            let before = match wifi.location {
                Some(location) => location,
                None => ProtoLocation {
                    latitude: 0,
                    longitude: 0,
                    accuracy: 0,
                    altitude: 0,
                    altitude_accuracy: 0,
                },
            };
            match read_location(inner, before, depth - 1) {
                Some(location) => {
                    wifi.location = Some(location);
                    rest = after;
                },
                None => { return None; },
            }
        } else {
            proof {
                lemma_skip_field_bounds(key, value@, depth as nat);
            }
            match skip_value(key, value, depth) {
                Some(after) => {
                    rest = after;
                },
                None => { return None; },
            }
        }
    }
    Some(wifi)
}

/// The views of a list of access points.
pub open spec fn wifi_views(wifis: Seq<ProtoWifi>) -> Seq<ProtoWifiView> {
    wifis.map_values(|w: ProtoWifi| w@)
}

/// Reads the message of an answer: its access points in their order.
fn read_payload(message: &[u8], depth: u32) -> (r: Option<Vec<ProtoWifi>>)
    ensures
        match parse_payload(message@, Seq::empty(), depth as nat) {
            Some(wifis) => r matches Some(list) && wifi_views(list@) == wifis,
            None => r is None,
        },
{
    let mut rest: &[u8] = message;
    let mut wifis: Vec<ProtoWifi> = Vec::new();
    assert(wifi_views(wifis@) =~= Seq::empty());
    while rest.len() > 0
        invariant
            parse_payload(message@, Seq::empty(), depth as nat) == parse_payload(
                rest@,
                wifi_views(wifis@),
                depth as nat,
            ),
        decreases rest@.len(),
    {
        proof {
            lemma_parse_key_bounds(rest@);
        }
        let (key, value) = match take_key(rest) {
            Some(found) => found,
            None => { return None; },
        };
        proof {
            lemma_parse_delimited_bounds(value@);
        }
        if key.tag == TAG_WIFIS {
            let (inner, after) = match take_delimited(value) {
                Some(found) => found,
                None => { return None; },
            };
            if key.wire_type != WIRE_DELIMITED || depth == 0 {
                return None;
            }
            match read_wifi(inner, depth - 1) {
                Some(wifi) => {
                    let ghost before = wifi_views(wifis@);
                    let ghost added = wifi@;
                    wifis.push(wifi);
                    assert(wifi_views(wifis@) =~= before.push(added));
                    rest = after;
                },
                None => { return None; },
            }
        } else {
            proof {
                lemma_skip_field_bounds(key, value@, depth as nat);
            }
            match skip_value(key, value, depth) {
                Some(after) => {
                    rest = after;
                },
                None => { return None; },
            }
        }
    }
    Some(wifis)
}

/// Turns one access point of the message into an observation.
fn observe(wifi: &ProtoWifi) -> (r: Result<WifiObservation, Error>)
    ensures
        match observation_of(wifi@) {
            Ok(observation) => r matches Ok(o) && o@ == observation,
            Err(detail) => r matches Err(Error::DecodeError(d)) && d@ == detail,
        },
{
    let bssid = match MacAddress::parse(wifi.bssid.as_str()) {
        Some(mac) => mac,
        None => { return Err(Error::DecodeError("malformed BSSID".to_owned())); },
    };
    match wifi.location {
        Some(proto) => Ok(WifiObservation { bssid, location: Location::from_proto(proto) }),
        None => Err(Error::DecodeError("missing location".to_owned())),
    }
}

/// Decodes an answer of the service into its observations, in the order in which the
/// service listed them.
///
/// The answer is refused, with the detail of `response_of`, when it is shorter than its
/// preamble, when what follows the preamble is no well-formed message, and when an
/// access point in it has no MAC address or no location.
pub fn decode_response(bytes: &[u8]) -> (r: Result<Response, Error>)
    ensures
        match response_of(bytes@) {
            Ok(observations) => r matches Ok(response) && response@ == observations,
            Err(detail) => r matches Err(Error::DecodeError(d)) && d@ == detail,
        },
        bytes@.len() < 10 ==> (r matches Err(Error::DecodeError(d)) && d@
            == "truncated response"@),
        r matches Err(e) ==> e is DecodeError,
{
    if bytes.len() < RESPONSE_PREAMBLE_LEN {
        return Err(Error::DecodeError("truncated response".to_owned()));
    }
    let message = slice_subrange(bytes, RESPONSE_PREAMBLE_LEN, bytes.len());
    assert(message@ =~= bytes@.skip(RESPONSE_PREAMBLE_LEN as int));
    let wifis = match read_payload(message, NESTING_LIMIT) {
        Some(list) => list,
        None => { return Err(Error::DecodeError("malformed message".to_owned())); },
    };
    let mut observations: Vec<WifiObservation> = Vec::new();
    let mut i: usize = 0;
    assert(wifi_views(wifis@).take(0) =~= Seq::empty());
    assert(observations@.map_values(|o: WifiObservation| o@) =~= Seq::empty());
    while i < wifis.len()
        invariant
            i <= wifis.len(),
            bytes@.len() >= 10,
            response_of(bytes@) == observations_of(wifi_views(wifis@)),
            observations_of(wifi_views(wifis@).take(i as int)) == Ok::<
                Seq<ObservationView>,
                Seq<char>,
            >(observations@.map_values(|o: WifiObservation| o@)),
        decreases wifis.len() - i,
    {
        let ghost views = wifi_views(wifis@);
        assert(views.take(i + 1).drop_last() =~= views.take(i as int));
        assert(views.take(i + 1).last() == wifis@[i as int]@);
        match observe(&wifis[i]) {
            Ok(observation) => {
                let ghost before = observations@.map_values(|o: WifiObservation| o@);
                observations.push(observation);
                assert(observations@.map_values(|o: WifiObservation| o@) =~= before.push(
                    observation@,
                ));
            },
            Err(e) => {
                proof {
                    lemma_observations_fail(views, i as int);
                }
                return Err(e);
            },
        }
        i = i + 1;
    }
    assert(wifi_views(wifis@).take(i as int) =~= wifi_views(wifis@));
    Ok(Response { observations })
}

/// Where the access points before `at` all stand for observations and the one at `at`
/// does not, the whole list fails with the detail of that one.
proof fn lemma_observations_fail(wifis: Seq<ProtoWifiView>, at: int)
    requires
        0 <= at < wifis.len(),
        observations_of(wifis.take(at)) is Ok,
        observation_of(wifis[at]) is Err,
    ensures
        observations_of(wifis) == Err::<Seq<ObservationView>, Seq<char>>(
            observation_of(wifis[at])->Err_0,
        ),
    decreases wifis.len(),
{
    if at == wifis.len() - 1 {
        assert(wifis.drop_last() =~= wifis.take(at));
    } else {
        assert(wifis.drop_last().take(at) =~= wifis.take(at));
        lemma_observations_fail(wifis.drop_last(), at);
    }
}

} // verus!
