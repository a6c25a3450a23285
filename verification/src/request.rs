//! Building the request: a preamble that names the client, then the length of the
//! message, then the message that lists the access points asked about.

use crate::error::Error;
use crate::mac::{mac_text, parse_mac_text, MacAddress};
use crate::schema::{TAG_BSSID, TAG_NOISE, TAG_SIGNAL, TAG_SOURCE, TAG_WIFIS};
use crate::wire::{
    delimited_field, put_delimited_field, put_varint_field, varint_field,
};
use vstd::prelude::*;
use vstd::string::StringSliceAdditionalSpecFns;
use vstd::utf8::encode_utf8;

verus! {

/// The largest length that the 16-bit length fields of the frame can state.
pub const MAX_FIELD_LEN: usize = 65535;

/// The identity that the client presents to the service.
#[derive(Clone, Debug, PartialEq, Eq)]
pub struct ClientConfig {
    /// Locale named in the preamble.
    pub locale: String,
    /// Client identifier named in the preamble.
    pub identifier: String,
    /// Client version named in the preamble.
    pub version: String,
    /// Signature that the transport sends as its user agent.
    pub user_agent: String,
}

impl Default for ClientConfig {
    /// The identity of the stock client.
    fn default() -> (config: ClientConfig)
        ensures
            config.locale@ == "en_US"@,
            config.identifier@ == "com.apple.locationd"@,
            config.version@ == "17.5.21F79"@,
            config.user_agent@ == "locationd/1756.1.15 CFNetwork/711.5.6 Darwin/14.0.0"@,
    {
        ClientConfig {
            locale: "en_US".to_owned(),
            identifier: "com.apple.locationd".to_owned(),
            version: "17.5.21F79".to_owned(),
            user_agent: "locationd/1756.1.15 CFNetwork/711.5.6 Darwin/14.0.0".to_owned(),
        }
    }
}

/// One access point of a request.
#[derive(Clone, Copy, Debug, PartialEq, Eq)]
pub struct WifiRequestEntry {
    /// The address asked about.
    pub bssid: MacAddress,
    /// Signal strength seen for this access point. The message has no field for it, so
    /// it is not sent.
    pub signal: Option<i32>,
}

/// What is asked of the service.
#[derive(Clone, Debug, PartialEq, Eq)]
pub struct Request {
    pub wifis: Vec<WifiRequestEntry>,
    pub signal: Option<i32>,
    pub noise: Option<i32>,
    pub source: Option<String>,
}

impl Request {
    /// The addresses asked about, in order.
    pub open spec fn macs(&self) -> Seq<Seq<u8>> {
        self.wifis@.map_values(|entry: WifiRequestEntry| entry.bssid@)
    }

    /// The source tag as characters.
    pub open spec fn source_text(&self) -> Option<Seq<char>> {
        match self.source {
            Some(text) => Some(text@),
            None => None,
        }
    }

    /// The bytes of the request as a message.
    pub open spec fn message(&self) -> Seq<u8> {
        message_bytes(self.macs(), self.noise, self.signal, self.source_text())
    }
}

/// A length as two bytes, high byte first.
pub open spec fn u16_be(n: nat) -> Seq<u8> {
    seq![(n / 256) as u8, (n % 256) as u8]
}

/// A string of the preamble: the length of its UTF-8 bytes, then those bytes.
pub open spec fn header_string(text: Seq<char>) -> Seq<u8> {
    u16_be(encode_utf8(text).len()) + encode_utf8(text)
}

/// Whether each string of the preamble fits its 16-bit length.
pub open spec fn header_fits(locale: Seq<char>, identifier: Seq<char>, version: Seq<char>) -> bool {
    encode_utf8(locale).len() <= 65535 && encode_utf8(identifier).len() <= 65535 && encode_utf8(
        version,
    ).len() <= 65535
}

/// The preamble: protocol version 1, the three strings, then the flags 0, 1 and 0, each
/// number as two bytes.
pub open spec fn frame_header(locale: Seq<char>, identifier: Seq<char>, version: Seq<char>) -> Seq<
    u8,
> {
    seq![0u8, 1u8] + header_string(locale) + header_string(identifier) + header_string(version)
        + seq![0u8, 0u8, 0u8, 1u8, 0u8, 0u8]
}

/// The 64-bit wire value of a 32-bit signed number: its two's complement, sign-extended.
pub open spec fn int32_to_wire(value: i32) -> u64 {
    if value >= 0 {
        value as u64
    } else {
        (0x1_0000_0000_0000_0000 + value) as u64
    }
}

/// The bytes of one access point of a request: its address as canonical text.
pub open spec fn entry_bytes(mac: Seq<u8>) -> Seq<u8> {
    delimited_field(TAG_BSSID, encode_utf8(mac_text(mac)))
}

/// The bytes of the access points of a request, one field each, in order.
pub open spec fn entries_bytes(macs: Seq<Seq<u8>>) -> Seq<u8>
    decreases macs.len(),
{
    if macs.len() == 0 {
        Seq::empty()
    } else {
        entries_bytes(macs.drop_last()) + delimited_field(TAG_WIFIS, entry_bytes(macs.last()))
    }
}

/// The bytes of an optional number in field `tag`: nothing where there is none.
pub open spec fn optional_int32(tag: u32, value: Option<i32>) -> Seq<u8> {
    match value {
        Some(v) => varint_field(tag, int32_to_wire(v)),
        None => Seq::empty(),
    }
}

/// The bytes of an optional text in field `tag`: nothing where there is none.
pub open spec fn optional_text(tag: u32, value: Option<Seq<char>>) -> Seq<u8> {
    match value {
        Some(text) => delimited_field(tag, encode_utf8(text)),
        None => Seq::empty(),
    }
}

/// The bytes of a request as a message: the access points, then noise, signal and
/// source where they are given.
pub open spec fn message_bytes(
    macs: Seq<Seq<u8>>,
    noise: Option<i32>,
    signal: Option<i32>,
    source: Option<Seq<char>>,
) -> Seq<u8> {
    entries_bytes(macs) + optional_int32(TAG_NOISE, noise) + optional_int32(TAG_SIGNAL, signal)
        + optional_text(TAG_SOURCE, source)
}

/// The frame: the preamble, the length of the message as two bytes, the message.
pub open spec fn frame_bytes(header: Seq<u8>, message: Seq<u8>) -> Seq<u8> {
    header + u16_be(message.len()) + message
}

/// Every frame starts with the protocol version, 0 and 1, and the length of the locale
/// in its next two bytes, high byte first.
pub proof fn lemma_frame_start(
    locale: Seq<char>,
    identifier: Seq<char>,
    version: Seq<char>,
    message: Seq<u8>,
)
    requires
        encode_utf8(locale).len() <= 65535,
    ensures
        ({
            let frame = frame_bytes(frame_header(locale, identifier, version), message);
            &&& frame.len() >= 4
            &&& frame[0] == 0
            &&& frame[1] == 1
            &&& frame[2] * 256 + frame[3] == encode_utf8(locale).len()
        }),
{
    let frame = frame_bytes(frame_header(locale, identifier, version), message);
    let length = u16_be(encode_utf8(locale).len());
    let rest = encode_utf8(locale) + header_string(identifier) + header_string(version)
        + seq![0u8, 0u8, 0u8, 1u8, 0u8, 0u8] + u16_be(message.len()) + message;
    assert(frame =~= seq![0u8, 1u8] + length + rest);
    assert(frame[2] == length[0]);
    assert(frame[3] == length[1]);
}

/// The index of the first text that stands for no address, if there is one.
pub open spec fn first_invalid(texts: Seq<Seq<char>>) -> Option<int>
    decreases texts.len(),
{
    if texts.len() == 0 {
        None
    } else {
        match first_invalid(texts.drop_last()) {
            Some(index) => Some(index),
            None => if parse_mac_text(texts.last()) is None {
                Some(texts.len() - 1)
            } else {
                None
            },
        }
    }
}

/// The addresses that the texts stand for.
pub open spec fn parsed_macs(texts: Seq<Seq<char>>) -> Seq<Seq<u8>> {
    texts.map_values(|text: Seq<char>| parse_mac_text(text).unwrap())
}

/// The characters of each of the given strings.
pub open spec fn texts_of(bssids: Seq<&str>) -> Seq<Seq<char>> {
    bssids.map_values(|text: &str| text@)
}

/// What encoding a list of BSSIDs yields: the frame, or why there is none. The first
/// text that is no address is reported before anything else; after that, a string of
/// the preamble or a message too long for its 16-bit length.
pub open spec fn encoded_request(
    texts: Seq<Seq<char>>,
    signal: Option<i32>,
    noise: Option<i32>,
    locale: Seq<char>,
    identifier: Seq<char>,
    version: Seq<char>,
) -> Result<Seq<u8>, EncodeFailure> {
    match first_invalid(texts) {
        Some(index) => Err(EncodeFailure::InvalidInput(texts[index])),
        None => {
            let message = message_bytes(parsed_macs(texts), noise, signal, None);
            if header_fits(locale, identifier, version) && message.len() <= 65535 {
                Ok(frame_bytes(frame_header(locale, identifier, version), message))
            } else {
                Err(EncodeFailure::TooLong)
            }
        },
    }
}

/// Why a request has no frame, as mathematics.
pub enum EncodeFailure {
    /// This text is no address.
    InvalidInput(Seq<char>),
    /// Something is too long for its 16-bit length.
    TooLong,
}

/// Whether an error is the one that `failure` calls for.
pub open spec fn error_matches(error: Error, failure: EncodeFailure) -> bool {
    match failure {
        EncodeFailure::InvalidInput(text) => error matches Error::InvalidInput(given) && given@
            == text,
        EncodeFailure::TooLong => error is EncodeError,
    }
}

/// Appends a length as two bytes, high byte first.
fn put_u16(n: usize, buf: &mut Vec<u8>)
    requires
        n <= 65535,
    ensures
        final(buf)@ == old(buf)@ + u16_be(n as nat),
{
    buf.push((n / 256) as u8);
    buf.push((n % 256) as u8);
    assert(buf@ =~= old(buf)@ + u16_be(n as nat));
}

/// Appends a string of the preamble, or reports that it is too long.
fn put_header_string(text: &str, buf: &mut Vec<u8>) -> (fits: bool)
    ensures
        fits == (encode_utf8(text@).len() <= 65535),
        fits ==> final(buf)@ == old(buf)@ + header_string(text@),
{
    let bytes = text.as_bytes();
    if bytes.len() > MAX_FIELD_LEN {
        return false;
    }
    put_u16(bytes.len(), buf);
    buf.extend_from_slice(bytes);
    assert(buf@ =~= old(buf)@ + header_string(text@));
    true
}

/// Builds the preamble that names the client.
///
/// Fails with `EncodeError` exactly when one of the three strings has more than 65535
/// bytes of UTF-8.
pub fn build_header(config: &ClientConfig) -> (r: Result<Vec<u8>, Error>)
    ensures
        if header_fits(config.locale@, config.identifier@, config.version@) {
            r matches Ok(header) && header@ == frame_header(
                config.locale@,
                config.identifier@,
                config.version@,
            )
        } else {
            r matches Err(Error::EncodeError)
        },
{
    let mut header: Vec<u8> = Vec::new();
    header.push(0);
    header.push(1);
    if !put_header_string(config.locale.as_str(), &mut header) {
        return Err(Error::EncodeError);
    }
    if !put_header_string(config.identifier.as_str(), &mut header) {
        return Err(Error::EncodeError);
    }
    if !put_header_string(config.version.as_str(), &mut header) {
        return Err(Error::EncodeError);
    }
    header.push(0);
    header.push(0);
    header.push(0);
    header.push(1);
    header.push(0);
    header.push(0);
    assert(header@ =~= frame_header(config.locale@, config.identifier@, config.version@));
    Ok(header)
}

/// The 64-bit wire value of a 32-bit signed number.
fn int32_wire(value: i32) -> (raw: u64)
    ensures
        raw == int32_to_wire(value),
{
    if value >= 0 {
        value as u64
    } else {
        let below: u64 = (-(value + 1)) as u64;
        u64::MAX - below
    }
}

/// Appends an optional number as field `tag`.
fn put_optional_int32(tag: u32, value: Option<i32>, buf: &mut Vec<u8>)
    requires
        1 <= tag <= crate::wire::MAX_TAG,
    ensures
        final(buf)@ == old(buf)@ + optional_int32(tag, value),
{
    match value {
        Some(v) => {
            put_varint_field(tag, int32_wire(v), buf);
        },
        None => {
            assert(buf@ =~= old(buf)@ + optional_int32(tag, value));
        },
    }
}

impl Request {
    /// Serializes the request as a message.
    pub fn encode(&self) -> (message: Vec<u8>)
        ensures
            message@ == self.message(),
    {
        let mut message: Vec<u8> = Vec::new();
        let mut i: usize = 0;
        assert(self.macs().take(0) =~= Seq::empty());
        while i < self.wifis.len()
            invariant
                i <= self.wifis.len(),
                message@ == entries_bytes(self.macs().take(i as int)),
            decreases self.wifis.len() - i,
        {
            let text = self.wifis[i].bssid.to_text();
            let mut entry: Vec<u8> = Vec::new();
            put_delimited_field(TAG_BSSID, text.as_str().as_bytes(), &mut entry);
            assert(entry@ =~= entry_bytes(self.macs()[i as int]));
            put_delimited_field(TAG_WIFIS, entry.as_slice(), &mut message);
            proof {
                let macs = self.macs();
                assert(macs.take(i + 1).drop_last() =~= macs.take(i as int));
                assert(macs.take(i + 1).last() == macs[i as int]);
            }
            i = i + 1;
        }
        assert(self.macs().take(i as int) =~= self.macs());
        put_optional_int32(TAG_NOISE, self.noise, &mut message);
        put_optional_int32(TAG_SIGNAL, self.signal, &mut message);
        match &self.source {
            Some(text) => {
                put_delimited_field(TAG_SOURCE, text.as_str().as_bytes(), &mut message);
            },
            None => {},
        }
        assert(message@ =~= self.message());
        message
    }

    /// Builds the frame that carries the request: the preamble, the length of the
    /// message, the message.
    ///
    /// Fails with `EncodeError` exactly when a string of the preamble or the message has
    /// more than 65535 bytes.
    pub fn to_frame(&self, config: &ClientConfig) -> (r: Result<Vec<u8>, Error>)
        ensures
            if header_fits(config.locale@, config.identifier@, config.version@)
                && self.message().len() <= 65535 {
                r matches Ok(frame) && frame@ == frame_bytes(
                    frame_header(config.locale@, config.identifier@, config.version@),
                    self.message(),
                )
            } else {
                r matches Err(Error::EncodeError)
            },
    {
        let message = self.encode();
        let mut frame = match build_header(config) {
            Ok(header) => header,
            Err(e) => { return Err(e); },
        };
        if message.len() > MAX_FIELD_LEN {
            return Err(Error::EncodeError);
        }
        put_u16(message.len(), &mut frame);
        frame.extend_from_slice(message.as_slice());
        assert(frame@ =~= frame_bytes(
            frame_header(config.locale@, config.identifier@, config.version@),
            self.message(),
        ));
        Ok(frame)
    }
}

/// Where the texts before `at` all stand for addresses and the one at `at` does not,
/// `at` is the first invalid one.
proof fn lemma_first_invalid_at(texts: Seq<Seq<char>>, at: int)
    requires
        0 <= at < texts.len(),
        first_invalid(texts.take(at)) is None,
        parse_mac_text(texts[at]) is None,
    ensures
        first_invalid(texts) == Some(at),
    decreases texts.len(),
{
    if at == texts.len() - 1 {
        assert(texts.drop_last() =~= texts.take(at));
    } else {
        assert(texts.drop_last().take(at) =~= texts.take(at));
        lemma_first_invalid_at(texts.drop_last(), at);
    }
}

/// Encodes a request for the given BSSIDs with the given signal and noise parameters,
/// and returns the frame to send as the body of the request.
///
/// Each BSSID must be a MAC address; the first that is none is reported as
/// `InvalidInput` with its text. Otherwise `EncodeError` is reported when a string of
/// the preamble or the message is too long for its 16-bit length.
pub fn encode_request(
    bssids: &[&str],
    signal: Option<i32>,
    noise: Option<i32>,
    config: &ClientConfig,
) -> (r: Result<Vec<u8>, Error>)
    ensures
        match encoded_request(
            texts_of(bssids@),
            signal,
            noise,
            config.locale@,
            config.identifier@,
            config.version@,
        ) {
            Ok(bytes) => r matches Ok(frame) && frame@ == bytes,
            Err(failure) => r matches Err(error) && error_matches(error, failure),
        },
{
    let ghost texts = texts_of(bssids@);
    let mut wifis: Vec<WifiRequestEntry> = Vec::new();
    let mut i: usize = 0;
    assert(texts.take(0) =~= Seq::<Seq<char>>::empty());
    assert(parsed_macs(texts.take(0)) =~= wifis@.map_values(
        |entry: WifiRequestEntry| entry.bssid@,
    ));
    while i < bssids.len()
        invariant
            i <= bssids.len(),
            texts == texts_of(bssids@),
            first_invalid(texts.take(i as int)) is None,
            wifis@.map_values(|entry: WifiRequestEntry| entry.bssid@) == parsed_macs(
                texts.take(i as int),
            ),
        decreases bssids.len() - i,
    {
        assert(texts[i as int] == bssids@[i as int]@);
        assert(texts.take(i + 1).drop_last() =~= texts.take(i as int));
        assert(texts.take(i + 1).last() == texts[i as int]);
        match MacAddress::parse(bssids[i]) {
            Some(bssid) => {
                let ghost before = wifis@.map_values(|entry: WifiRequestEntry| entry.bssid@);
                wifis.push(WifiRequestEntry { bssid, signal: None });
                assert(wifis@.map_values(|entry: WifiRequestEntry| entry.bssid@) =~= before.push(
                    bssid@,
                ));
                assert(parsed_macs(texts.take(i + 1)) =~= parsed_macs(texts.take(i as int)).push(
                    bssid@,
                ));
            },
            None => {
                proof {
                    lemma_first_invalid_at(texts, i as int);
                }
                return Err(Error::InvalidInput(bssids[i].to_owned()));
            },
        }
        i = i + 1;
    }
    assert(texts.take(i as int) =~= texts);
    let request = Request { wifis, signal, noise, source: None };
    request.to_frame(config)
}

} // verus!
