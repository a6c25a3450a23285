//! Base-128 variable-length integers, the number format of the message body.
//!
//! The bytes are written and read by `prost`; this module states what those bytes are.

use vstd::prelude::*;

verus! {

/// The base-128 encoding of `value`: seven bits per byte, least significant group first,
/// the high bit set on every byte but the last.
pub open spec fn varint_bytes(value: nat) -> Seq<u8>
    decreases value,
{
    if value < 128 {
        seq![value as u8]
    } else {
        seq![(128 + value % 128) as u8] + varint_bytes(value / 128)
    }
}

/// The number that starts `bytes` and how many bytes it takes, reading at most `limit` bytes.
/// `None` when no byte below 128 ends the number within that limit.
pub open spec fn varint_prefix(bytes: Seq<u8>, limit: nat) -> Option<(nat, nat)>
    decreases limit,
{
    if limit == 0 || bytes.len() == 0 {
        None
    } else if bytes[0] < 128 {
        Some((bytes[0] as nat, 1nat))
    } else {
        match varint_prefix(bytes.skip(1), (limit - 1) as nat) {
            Some((high, used)) => Some(((bytes[0] - 128 + 128 * high) as nat, used + 1)),
            None => None,
        }
    }
}

/// The longest a 64-bit number can be in this encoding.
pub const MAX_VARINT_LEN: usize = 10;

/// The 64-bit number that starts `bytes`, with its length in bytes. `None` when the
/// number is cut short, runs past ten bytes, or does not fit in 64 bits.
pub open spec fn parse_varint(bytes: Seq<u8>) -> Option<(u64, nat)> {
    match varint_prefix(bytes, MAX_VARINT_LEN as nat) {
        Some((value, used)) => if value <= u64::MAX {
            Some((value as u64, used))
        } else {
            None
        },
        None => None,
    }
}

/// A number read by `varint_prefix` lies within the bytes it was read from.
pub proof fn lemma_varint_prefix_bounds(bytes: Seq<u8>, limit: nat)
    ensures
        varint_prefix(bytes, limit) matches Some((_, used)) ==> 1 <= used <= limit && used
            <= bytes.len(),
    decreases limit,
{
    if limit != 0 && bytes.len() != 0 && bytes[0] >= 128 {
        lemma_varint_prefix_bounds(bytes.skip(1), (limit - 1) as nat);
    }
}

/// A parsed number takes between one and ten bytes, all of them present.
pub proof fn lemma_parse_varint_bounds(bytes: Seq<u8>)
    ensures
        parse_varint(bytes) matches Some((_, used)) ==> 1 <= used <= 10 && used <= bytes.len(),
{
    lemma_varint_prefix_bounds(bytes, 10);
}

/// The encoding of a number has at least one byte, and that of a 64-bit number at most
/// ten.
pub proof fn lemma_varint_bytes_len(value: nat)
    ensures
        1 <= varint_bytes(value).len(),
        value <= u64::MAX ==> varint_bytes(value).len() <= 10,
{
    reveal_with_fuel(varint_bytes, 11);
}

/// A number is read back from its encoding, whatever follows it, where the limit
/// allows for all its bytes.
pub proof fn lemma_varint_prefix_round_trip(value: nat, rest: Seq<u8>, limit: nat)
    requires
        limit >= varint_bytes(value).len(),
    ensures
        varint_prefix(varint_bytes(value) + rest, limit) == Some(
            (value, varint_bytes(value).len()),
        ),
    decreases value,
{
    let bytes = varint_bytes(value) + rest;
    if value < 128 {
        assert(bytes[0] == value as u8);
    } else {
        let tail = varint_bytes(value / 128);
        assert(bytes[0] == (128 + value % 128) as u8);
        assert(bytes.skip(1) =~= tail + rest);
        lemma_varint_prefix_round_trip(value / 128, rest, (limit - 1) as nat);
    }
}

/// Every 64-bit number is read back from its encoding, whatever follows it.
pub proof fn lemma_varint_round_trip(value: u64, rest: Seq<u8>)
    ensures
        parse_varint(varint_bytes(value as nat) + rest) == Some(
            (value, varint_bytes(value as nat).len()),
        ),
{
    lemma_varint_bytes_len(value as nat);
    lemma_varint_prefix_round_trip(value as nat, rest, 10);
}

/// What `prost` reports when it cannot read a number.
#[verifier::external_type_specification]
#[verifier::external_body]
pub struct ExDecodeError(prost::DecodeError);

/// Appends `value` to `buf` with `prost::encoding::encode_varint`: the bytes added are
/// exactly the base-128 encoding of `value`, and nothing already in `buf` changes.
#[verifier::external_body]
pub(crate) fn put_varint(value: u64, buf: &mut Vec<u8>)
    ensures
        final(buf)@ == old(buf)@ + varint_bytes(value as nat),
{
    prost::encoding::encode_varint(value, buf)
}

/// Reads one number from the front of `buf` with `prost::encoding::decode_varint`.
/// It succeeds exactly when `parse_varint` finds a number there, and then returns that
/// number together with the bytes that follow it.
#[verifier::external_body]
pub(crate) fn take_varint<'a>(buf: &'a [u8]) -> (r: Result<(u64, &'a [u8]), prost::DecodeError>)
    ensures
        match parse_varint(buf@) {
            Some((value, used)) => r matches Ok((v, rest)) && v == value && rest@ == buf@.skip(
                used as int,
            ),
            None => r is Err,
        },
{
    let mut rest: &[u8] = buf;
    match prost::encoding::decode_varint(&mut rest) {
        Ok(value) => Ok((value, rest)),
        Err(e) => Err(e),
    }
}

} // verus!
