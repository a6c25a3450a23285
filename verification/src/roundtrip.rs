//! What is written for a request is read back as the same addresses.
//!
//! A request lists its access points in the fields in which an answer lists them, so
//! the reader of answers can be held against the writer of requests.

use crate::mac::{lemma_mac_text_shape, lemma_text_round_trip, mac_text, parse_mac_text};
use crate::request::{entries_bytes, entry_bytes};
use crate::response::{empty_wifi, parse_payload, parse_wifi, ProtoWifiView};
use crate::schema::{TAG_BSSID, TAG_WIFIS};
use crate::varint::{lemma_varint_bytes_len, varint_bytes};
use crate::wire::{
    delimited_field, key_bytes, lemma_delimited_round_trip, lemma_key_round_trip, parse_delimited,
    WIRE_DELIMITED,
};
use vstd::prelude::*;
use vstd::utf8::{
    decode_utf8, encode_utf8, encode_utf8_decode_utf8, encode_utf8_valid_utf8,
    is_ascii_chars_encode_utf8,
};

verus! {

/// An access point as it is read back from a request: the canonical text of its
/// address, and no location.
pub open spec fn written_wifi(octets: Seq<u8>) -> ProtoWifiView {
    ProtoWifiView { bssid: mac_text(octets), location: None }
}

/// The access points as they are read back from a request.
pub open spec fn written_wifis(macs: Seq<Seq<u8>>) -> Seq<ProtoWifiView> {
    macs.map_values(|octets: Seq<u8>| written_wifi(octets))
}

/// The access point written for an address is read back with the canonical text of that
/// address, and the text stands for the address.
pub proof fn lemma_entry_round_trip(octets: Seq<u8>, depth: nat)
    requires
        octets.len() == 6,
    ensures
        parse_wifi(entry_bytes(octets), empty_wifi(), depth) == Some(written_wifi(octets)),
        parse_mac_text(written_wifi(octets).bssid) == Some(octets),
{
    let text = encode_utf8(mac_text(octets));
    let key = key_bytes(TAG_BSSID, WIRE_DELIMITED);
    let value = varint_bytes(text.len()) + text;
    let bytes = entry_bytes(octets);
    lemma_mac_text_shape(octets);
    is_ascii_chars_encode_utf8(mac_text(octets));
    encode_utf8_valid_utf8(mac_text(octets));
    encode_utf8_decode_utf8(mac_text(octets));
    lemma_varint_bytes_len(text.len());
    lemma_varint_bytes_len((TAG_BSSID * 8 + WIRE_DELIMITED) as nat);
    assert(bytes =~= key + value);
    lemma_key_round_trip(TAG_BSSID, WIRE_DELIMITED, value);
    assert(bytes.skip(key.len() as int) =~= value);
    assert(value =~= varint_bytes(text.len()) + text + Seq::<u8>::empty());
    lemma_delimited_round_trip(text, Seq::empty());
    let after = value.skip(value.len() as int);
    assert(after =~= Seq::<u8>::empty());
    let filled = ProtoWifiView { bssid: decode_utf8(text), location: None };
    assert(filled == written_wifi(octets));
    assert(parse_wifi(after, filled, depth) == Some(filled));
    assert(parse_delimited(value) == Some((text, value.len())));
    lemma_text_round_trip(octets);
}

/// One access point in front of other fields is read first, and the other fields after
/// it.
proof fn lemma_wifi_field_read(
    octets: Seq<u8>,
    rest: Seq<u8>,
    before: Seq<ProtoWifiView>,
    depth: nat,
)
    requires
        octets.len() == 6,
        depth >= 1,
    ensures
        parse_payload(delimited_field(TAG_WIFIS, entry_bytes(octets)) + rest, before, depth)
            == parse_payload(rest, before.push(written_wifi(octets)), depth),
{
    let entry = entry_bytes(octets);
    let key = key_bytes(TAG_WIFIS, WIRE_DELIMITED);
    let value = varint_bytes(entry.len()) + entry + rest;
    let bytes = delimited_field(TAG_WIFIS, entry) + rest;
    lemma_mac_text_shape(octets);
    is_ascii_chars_encode_utf8(mac_text(octets));
    lemma_varint_bytes_len(encode_utf8(mac_text(octets)).len());
    lemma_varint_bytes_len((TAG_BSSID * 8 + WIRE_DELIMITED) as nat);
    lemma_varint_bytes_len((TAG_WIFIS * 8 + WIRE_DELIMITED) as nat);
    lemma_varint_bytes_len(entry.len());
    assert(bytes =~= key + value);
    lemma_key_round_trip(TAG_WIFIS, WIRE_DELIMITED, value);
    assert(bytes.skip(key.len() as int) =~= value);
    lemma_delimited_round_trip(entry, rest);
    lemma_entry_round_trip(octets, (depth - 1) as nat);
    assert(value.skip((varint_bytes(entry.len()).len() + entry.len()) as int) =~= rest);
}

/// The access points of a request in front of other fields are read first, in their
/// order, and the other fields after them.
pub proof fn lemma_entries_read(
    macs: Seq<Seq<u8>>,
    rest: Seq<u8>,
    before: Seq<ProtoWifiView>,
    depth: nat,
)
    requires
        forall|i: int| 0 <= i < macs.len() ==> (#[trigger] macs[i]).len() == 6,
        depth >= 1,
    ensures
        parse_payload(entries_bytes(macs) + rest, before, depth) == parse_payload(
            rest,
            before + written_wifis(macs),
            depth,
        ),
    decreases macs.len(),
{
    if macs.len() == 0 {
        assert(entries_bytes(macs) + rest =~= rest);
        assert(before + written_wifis(macs) =~= before);
    } else {
        let front = macs.drop_last();
        let last = macs.last();
        let field = delimited_field(TAG_WIFIS, entry_bytes(last));
        assert(entries_bytes(macs) + rest =~= entries_bytes(front) + (field + rest));
        lemma_entries_read(front, field + rest, before, depth);
        lemma_wifi_field_read(last, rest, before + written_wifis(front), depth);
        assert((before + written_wifis(front)).push(written_wifi(last)) =~= before
            + written_wifis(macs));
    }
}

/// The access points written for a request are read back as the same addresses in the
/// same order: each comes back as the canonical text of its address, and that text
/// stands for the address.
pub proof fn lemma_entries_round_trip(macs: Seq<Seq<u8>>, depth: nat)
    requires
        forall|i: int| 0 <= i < macs.len() ==> (#[trigger] macs[i]).len() == 6,
        depth >= 1,
    ensures
        parse_payload(entries_bytes(macs), Seq::empty(), depth) == Some(written_wifis(macs)),
        forall|i: int|
            0 <= i < macs.len() ==> parse_mac_text(#[trigger] written_wifis(macs)[i].bssid)
                == Some(macs[i]),
{
    lemma_entries_read(macs, Seq::empty(), Seq::empty(), depth);
    assert(entries_bytes(macs) + Seq::<u8>::empty() =~= entries_bytes(macs));
    assert(Seq::<ProtoWifiView>::empty() + written_wifis(macs) =~= written_wifis(macs));
    assert forall|i: int| 0 <= i < macs.len() implies parse_mac_text(
        #[trigger] written_wifis(macs)[i].bssid,
    ) == Some(macs[i]) by {
        lemma_text_round_trip(macs[i]);
    }
}

} // verus!
