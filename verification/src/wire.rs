//! Fields of a protocol-buffer message: keys, length-delimited bodies, and how fields
//! that a message does not know are passed over.

use crate::varint::{
    lemma_parse_varint_bounds, lemma_varint_round_trip, parse_varint, put_varint, take_varint,
    varint_bytes,
};
use vstd::prelude::*;
use vstd::slice::slice_subrange;

verus! {

/// Wire type of a field whose value is one base-128 number.
pub const WIRE_VARINT: u8 = 0;

/// Wire type of a field whose value is eight bytes.
pub const WIRE_FIXED64: u8 = 1;

/// Wire type of a field whose value is a length followed by that many bytes.
pub const WIRE_DELIMITED: u8 = 2;

/// Wire type that opens a group.
pub const WIRE_GROUP_START: u8 = 3;

/// Wire type that closes a group.
pub const WIRE_GROUP_END: u8 = 4;

/// Wire type of a field whose value is four bytes.
pub const WIRE_FIXED32: u8 = 5;

/// The largest field number a key can carry.
pub const MAX_TAG: u32 = 0x1fff_ffff;

/// How deep groups may nest below the top of a message before the data is refused.
pub const NESTING_LIMIT: u32 = 100;

/// The key in front of every field: its number and the shape of its value.
#[derive(Clone, Copy, Debug, PartialEq, Eq)]
pub struct FieldKey {
    pub tag: u32,
    pub wire_type: u8,
}

/// The key that starts `bytes`, with its length. A key is a base-128 number below 2^32
/// whose low three bits name one of the six wire types and whose other bits, the field
/// number, are not all zero.
pub open spec fn parse_key(bytes: Seq<u8>) -> Option<(FieldKey, nat)> {
    match parse_varint(bytes) {
        Some((raw, used)) => if raw <= u32::MAX && raw % 8 <= 5 && raw / 8 >= 1 {
            Some((FieldKey { tag: (raw / 8) as u32, wire_type: (raw % 8) as u8 }, used))
        } else {
            None
        },
        None => None,
    }
}

/// The length-delimited value that starts `bytes`: its body, and the length of the whole
/// value with its length prefix. `None` when the prefix is no number or promises more
/// bytes than follow it.
pub open spec fn parse_delimited(bytes: Seq<u8>) -> Option<(Seq<u8>, nat)> {
    match parse_varint(bytes) {
        Some((len, used)) => if len <= bytes.len() - used {
            Some((bytes.subrange(used as int, used + len), (used + len) as nat))
        } else {
            None
        },
        None => None,
    }
}

/// How many bytes the value of a field with key `key` takes at the front of `bytes`,
/// for a field that is passed over unread. `depth` is the number of nesting levels still
/// allowed; with none left every field is refused. A group is passed over with all the
/// fields inside it, up to its closing key.
pub open spec fn skip_field(key: FieldKey, bytes: Seq<u8>, depth: nat) -> Option<nat>
    decreases bytes.len(), 1nat,
{
    if depth == 0 {
        None
    } else if key.wire_type == WIRE_VARINT {
        match parse_varint(bytes) {
            Some((_, used)) => Some(used),
            None => None,
        }
    } else if key.wire_type == WIRE_FIXED64 {
        if bytes.len() >= 8 {
            Some(8nat)
        } else {
            None
        }
    } else if key.wire_type == WIRE_FIXED32 {
        if bytes.len() >= 4 {
            Some(4nat)
        } else {
            None
        }
    } else if key.wire_type == WIRE_DELIMITED {
        match parse_delimited(bytes) {
            Some((_, used)) => Some(used),
            None => None,
        }
    } else if key.wire_type == WIRE_GROUP_START {
        skip_group(key.tag, bytes, (depth - 1) as nat)
    } else {
        None
    }
}

/// How many bytes remain of the group with field number `tag` whose opening key has been
/// read: its fields, each passed over with `depth` levels left, and its closing key, which
/// must carry the same field number.
pub open spec fn skip_group(tag: u32, bytes: Seq<u8>, depth: nat) -> Option<nat>
    decreases bytes.len(), 0nat,
{
    match parse_key(bytes) {
        None => None,
        Some((key, used)) => if key.wire_type == WIRE_GROUP_END {
            if key.tag == tag {
                Some(used)
            } else {
                None
            }
        } else {
            proof {
                lemma_parse_varint_bounds(bytes);
            }
            match skip_field(key, bytes.skip(used as int), depth) {
                None => None,
                Some(inner) => {
                    if used + inner <= bytes.len() {
                        match skip_group(tag, bytes.skip((used + inner) as int), depth) {
                            Some(more) => Some(used + inner + more),
                            None => None,
                        }
                    } else {
                        None
                    }
                },
            }
        },
    }
}

/// A key that was read lies within its bytes, and its parts are in range.
pub proof fn lemma_parse_key_bounds(bytes: Seq<u8>)
    ensures
        parse_key(bytes) matches Some((key, used)) ==> 1 <= used <= 10 && used <= bytes.len()
            && 1 <= key.tag <= MAX_TAG && key.wire_type <= 5,
{
    lemma_parse_varint_bounds(bytes);
}

/// A length-delimited value that was read lies within its bytes.
pub proof fn lemma_parse_delimited_bounds(bytes: Seq<u8>)
    ensures
        parse_delimited(bytes) matches Some((body, used)) ==> 1 <= used <= bytes.len()
            && body.len() < used && used - body.len() <= 10,
{
    lemma_parse_varint_bounds(bytes);
}

/// A field that was passed over lies within its bytes.
pub proof fn lemma_skip_field_bounds(key: FieldKey, bytes: Seq<u8>, depth: nat)
    ensures
        skip_field(key, bytes, depth) matches Some(used) ==> used <= bytes.len(),
    decreases bytes.len(), 1nat,
{
    lemma_parse_varint_bounds(bytes);
    if depth != 0 && key.wire_type == WIRE_GROUP_START {
        lemma_skip_group_bounds(key.tag, bytes, (depth - 1) as nat);
    }
}

/// The rest of a group that was passed over lies within its bytes.
pub proof fn lemma_skip_group_bounds(tag: u32, bytes: Seq<u8>, depth: nat)
    ensures
        skip_group(tag, bytes, depth) matches Some(used) ==> 1 <= used <= bytes.len(),
    decreases bytes.len(), 0nat,
{
    lemma_parse_varint_bounds(bytes);
    if let Some((key, used)) = parse_key(bytes) {
        if key.wire_type != WIRE_GROUP_END {
            lemma_skip_field_bounds(key, bytes.skip(used as int), depth);
            if let Some(inner) = skip_field(key, bytes.skip(used as int), depth) {
                lemma_skip_group_bounds(tag, bytes.skip((used + inner) as int), depth);
            }
        }
    }
}

/// The bytes of the key of field `tag` with wire type `wire_type`.
pub open spec fn key_bytes(tag: u32, wire_type: u8) -> Seq<u8> {
    varint_bytes((tag * 8 + wire_type) as nat)
}

/// The bytes of field `tag` holding the number `value`.
pub open spec fn varint_field(tag: u32, value: u64) -> Seq<u8> {
    key_bytes(tag, WIRE_VARINT) + varint_bytes(value as nat)
}

/// The bytes of field `tag` holding `body` behind its length.
pub open spec fn delimited_field(tag: u32, body: Seq<u8>) -> Seq<u8> {
    key_bytes(tag, WIRE_DELIMITED) + varint_bytes(body.len()) + body
}

/// A key is read back from its bytes, whatever follows it.
pub proof fn lemma_key_round_trip(tag: u32, wire_type: u8, rest: Seq<u8>)
    requires
        1 <= tag <= MAX_TAG,
        wire_type <= 5,
    ensures
        parse_key(key_bytes(tag, wire_type) + rest) == Some(
            (FieldKey { tag, wire_type }, key_bytes(tag, wire_type).len()),
        ),
{
    let raw = (tag * 8 + wire_type) as u64;
    lemma_varint_round_trip(raw, rest);
}

/// A length-delimited value is read back from its length and its body, whatever
/// follows it.
pub proof fn lemma_delimited_round_trip(body: Seq<u8>, rest: Seq<u8>)
    requires
        body.len() <= u64::MAX,
    ensures
        parse_delimited(varint_bytes(body.len()) + body + rest) == Some(
            (body, (varint_bytes(body.len()).len() + body.len()) as nat),
        ),
{
    let prefix = varint_bytes(body.len());
    let bytes = prefix + body + rest;
    assert(bytes =~= prefix + (body + rest));
    lemma_varint_round_trip(body.len() as u64, body + rest);
    assert(bytes.subrange(prefix.len() as int, (prefix.len() + body.len()) as int) =~= body);
}

/// Reads the key at the front of `buf` and returns it with the bytes that follow it.
pub(crate) fn take_key<'a>(buf: &'a [u8]) -> (r: Option<(FieldKey, &'a [u8])>)
    ensures
        match parse_key(buf@) {
            Some((key, used)) => r matches Some((k, rest)) && k == key && rest@ == buf@.skip(
                used as int,
            ),
            None => r is None,
        },
{
    match take_varint(buf) {
        Ok((raw, rest)) => {
            if raw <= 0xffff_ffff && raw % 8 <= 5 && raw / 8 >= 1 {
                let tag: u32 = (raw / 8) as u32;
                let wire_type: u8 = (raw % 8) as u8;
                Some((FieldKey { tag, wire_type }, rest))
            } else {
                None
            }
        },
        Err(_) => None,
    }
}

/// Reads the length-delimited value at the front of `buf` and returns its body and the
/// bytes that follow it.
pub(crate) fn take_delimited<'a>(buf: &'a [u8]) -> (r: Option<(&'a [u8], &'a [u8])>)
    ensures
        match parse_delimited(buf@) {
            Some((body, used)) => r matches Some((b, rest)) && b@ == body && rest@ == buf@.skip(
                used as int,
            ),
            None => r is None,
        },
{
    proof {
        lemma_parse_varint_bounds(buf@);
    }
    match take_varint(buf) {
        Ok((len, rest)) => {
            if len <= rest.len() as u64 {
                let n: usize = len as usize;
                let body = slice_subrange(rest, 0, n);
                let tail = slice_subrange(rest, n, rest.len());
                proof {
                    let used = parse_varint(buf@).unwrap().1;
                    assert(body@ =~= buf@.subrange(used as int, used + len));
                    assert(tail@ =~= buf@.skip(used + len));
                }
                Some((body, tail))
            } else {
                None
            }
        },
        Err(_) => None,
    }
}

/// Passes over the value of a field with key `key` at the front of `buf`, with `depth`
/// nesting levels left, and returns the bytes that follow it.
pub(crate) fn skip_value<'a>(key: FieldKey, buf: &'a [u8], depth: u32) -> (r: Option<&'a [u8]>)
    ensures
        match skip_field(key, buf@, depth as nat) {
            Some(used) => r matches Some(rest) && rest@ == buf@.skip(used as int),
            None => r is None,
        },
    decreases buf@.len(), 1nat,
{
    if depth == 0 {
        None
    } else if key.wire_type == WIRE_VARINT {
        match take_varint(buf) {
            Ok((_, rest)) => Some(rest),
            Err(_) => None,
        }
    } else if key.wire_type == WIRE_FIXED64 {
        if buf.len() >= 8 {
            Some(slice_subrange(buf, 8, buf.len()))
        } else {
            None
        }
    } else if key.wire_type == WIRE_FIXED32 {
        if buf.len() >= 4 {
            Some(slice_subrange(buf, 4, buf.len()))
        } else {
            None
        }
    } else if key.wire_type == WIRE_DELIMITED {
        match take_delimited(buf) {
            Some((_, rest)) => Some(rest),
            None => None,
        }
    } else if key.wire_type == WIRE_GROUP_START {
        skip_group_rest(key.tag, buf, depth - 1)
    } else {
        None
    }
}

/// Passes over what remains of the group with field number `tag`, through its closing
/// key, and returns the bytes that follow it.
pub(crate) fn skip_group_rest<'a>(tag: u32, buf: &'a [u8], depth: u32) -> (r: Option<&'a [u8]>)
    ensures
        match skip_group(tag, buf@, depth as nat) {
            Some(used) => r matches Some(rest) && rest@ == buf@.skip(used as int),
            None => r is None,
        },
    decreases buf@.len(), 0nat,
{
    let mut rest: &[u8] = buf;
    loop
        invariant
            rest@.len() <= buf@.len(),
            rest@ == buf@.skip(buf@.len() - rest@.len()),
            skip_group(tag, buf@, depth as nat) == match skip_group(tag, rest@, depth as nat) {
                Some(more) => Some((buf@.len() - rest@.len() + more) as nat),
                None => None,
            },
        decreases rest@.len(),
    {
        let ghost passed = buf@.len() - rest@.len();
        proof {
            lemma_parse_key_bounds(rest@);
        }
        let (key, after_key) = match take_key(rest) {
            Some(found) => found,
            None => { return None; },
        };
        let ghost used = parse_key(rest@).unwrap().1;
        if key.wire_type == WIRE_GROUP_END {
            if key.tag == tag {
                assert(after_key@ =~= buf@.skip(passed + used));
                return Some(after_key);
            } else {
                return None;
            }
        }
        proof {
            lemma_skip_field_bounds(key, after_key@, depth as nat);
        }
        match skip_value(key, after_key, depth) {
            Some(after_field) => {
                let ghost inner = skip_field(key, after_key@, depth as nat).unwrap();
                assert(after_field@ =~= rest@.skip((used + inner) as int));
                assert(after_field@ =~= buf@.skip(passed + used + inner));
                rest = after_field;
            },
            None => { return None; },
        }
    }
}

/// Appends the key of field `tag` with wire type `wire_type`.
pub(crate) fn put_key(tag: u32, wire_type: u8, buf: &mut Vec<u8>)
    requires
        1 <= tag <= MAX_TAG,
        wire_type <= 5,
    ensures
        final(buf)@ == old(buf)@ + key_bytes(tag, wire_type),
{
    let raw: u64 = tag as u64 * 8 + wire_type as u64;
    put_varint(raw, buf);
}

/// Appends field `tag` holding the number `value`.
pub(crate) fn put_varint_field(tag: u32, value: u64, buf: &mut Vec<u8>)
    requires
        1 <= tag <= MAX_TAG,
    ensures
        final(buf)@ == old(buf)@ + varint_field(tag, value),
{
    put_key(tag, WIRE_VARINT, buf);
    put_varint(value, buf);
    assert(buf@ =~= old(buf)@ + varint_field(tag, value));
}

/// Appends field `tag` holding `body` behind its length.
pub(crate) fn put_delimited_field(tag: u32, body: &[u8], buf: &mut Vec<u8>)
    requires
        1 <= tag <= MAX_TAG,
    ensures
        final(buf)@ == old(buf)@ + delimited_field(tag, body@),
{
    put_key(tag, WIRE_DELIMITED, buf);
    put_varint(body.len() as u64, buf);
    buf.extend_from_slice(body);
    assert(buf@ =~= old(buf)@ + delimited_field(tag, body@));
}

} // verus!
