//! Length-prefixed JSON payload codec and the little-endian integer
//! helpers shared by the frame codec.

use crate::wire_protocol::error::WireError;
use vstd::bytes::{
    spec_u16_from_le_bytes, spec_u16_to_le_bytes, spec_u32_from_le_bytes, spec_u32_to_le_bytes,
    u16_from_le_bytes, u16_to_le_bytes, u32_from_le_bytes, u32_to_le_bytes,
};
use vstd::prelude::*;
use vstd::slice::slice_subrange;

verus! {

/// serde_json's document value, declared so it can stand in signatures;
/// its inside stays opaque here.
#[verifier::external_type_specification]
#[verifier::external_body]
pub struct ExValue(serde_json::Value);

/// The byte sequence serde_json serializes a document to: a function of
/// the document alone, since serialization of a given value is
/// deterministic.
pub uninterp spec fn json_bytes(v: serde_json::Value) -> Seq<u8>;

/// Relies on `serde_json::to_vec`: on success it returns the serialized
/// JSON text of the document as bytes.
#[verifier::external_body]
fn json_to_vec(json: &serde_json::Value) -> (r: Option<Vec<u8>>)
    ensures
        r matches Some(b) ==> b@ == json_bytes(*json),
{
    serde_json::to_vec(json).ok()
}

/// Relies on `serde_json::from_slice`: `Some` exactly when the bytes form
/// one well-formed JSON document, which it returns.
#[verifier::external_body]
fn json_from_slice(bytes: &[u8]) -> (r: Option<serde_json::Value>)
{
    serde_json::from_slice(bytes).ok()
}

/// Stateless JSON codec: frames serialized documents with a 4-byte length
/// prefix. A host transport delegates here.
pub struct JsonCodec;

impl JsonCodec {
    /// The codec carries no state.
    pub fn new() -> (r: JsonCodec) {
        JsonCodec
    }
}

/// Prefixes a payload with a little-endian `u32` total length that counts
/// the 4 prefix bytes themselves; refused when that total would not fit.
pub fn frame_payload(payload: Vec<u8>) -> (r: Result<Vec<u8>, WireError>)
    ensures
        r is Ok <==> payload@.len() + 4 <= u32::MAX,
        r matches Ok(v) ==> {
            &&& v@ == spec_u32_to_le_bytes((payload@.len() + 4) as u32) + payload@
            &&& v@.len() == payload@.len() + 4
        },
        r matches Err(e) ==> e == WireError::FrameTooLarge,
{
    if payload.len() as u64 > 0xffff_ffffu64 - 4 {
        return Err(WireError::FrameTooLarge);
    }
    let total = (payload.len() + 4) as u32;
    let mut buffer: Vec<u8> = Vec::new();
    write_u32(&mut buffer, total);
    let mut rest = payload;
    buffer.append(&mut rest);
    Ok(buffer)
}

/// Serializes a JSON document and frames it with the 4-byte length prefix.
///
/// On success the result is exactly the prefix and the serialized text;
/// a document the serializer refuses maps to `CorruptFrame`, one whose
/// frame would overflow the `u32` prefix to `FrameTooLarge`.
pub fn encode_json(json: &serde_json::Value) -> (r: Result<Vec<u8>, WireError>)
    ensures
        r matches Ok(v) ==> {
            &&& json_bytes(*json).len() + 4 <= u32::MAX
            &&& v@ == spec_u32_to_le_bytes((json_bytes(*json).len() + 4) as u32) + json_bytes(
                *json,
            )
            &&& v@.len() == json_bytes(*json).len() + 4
        },
        r matches Err(e) ==> e == WireError::CorruptFrame || (e == WireError::FrameTooLarge
            && json_bytes(*json).len() + 4 > u32::MAX),
{
    let payload = match json_to_vec(json) {
        Some(p) => p,
        None => {
            return Err(WireError::CorruptFrame);
        },
    };
    frame_payload(payload)
}

/// Strips the 4-byte length prefix and parses the remainder as one JSON
/// document; input shorter than the prefix, or text that does not parse,
/// is a corrupt frame. As in the wire format's first version, the length
/// value itself is not checked against the input.
pub fn decode_json(slice: &[u8]) -> (r: Result<serde_json::Value, WireError>)
    ensures
        slice@.len() < 4 ==> (r matches Err(e) && e == WireError::CorruptFrame),
        r matches Err(e) ==> e == WireError::CorruptFrame,
{
    if slice.len() < 4 {
        return Err(WireError::CorruptFrame);
    }
    match json_from_slice(slice_subrange(slice, 4, slice.len())) {
        Some(v) => Ok(v),
        None => Err(WireError::CorruptFrame),
    }
}

/// Appends the 4-byte little-endian encoding of `val` to `buffer`.
pub fn write_u32(buffer: &mut Vec<u8>, val: u32)
    ensures
        final(buffer)@ == old(buffer)@ + spec_u32_to_le_bytes(val),
        final(buffer)@.len() == old(buffer)@.len() + 4,
{
    let mut bytes = u32_to_le_bytes(val);
    buffer.append(&mut bytes);
}

/// Reads a little-endian `u32` from `bytes` at offset `at`, or `None` when
/// fewer than 4 bytes are available there.
pub fn read_u32(bytes: &[u8], at: usize) -> (r: Option<u32>)
    ensures
        at + 4 <= bytes@.len() ==> r == Some(
            spec_u32_from_le_bytes(bytes@.subrange(at as int, at + 4)),
        ),
        at + 4 > bytes@.len() ==> r is None,
{
    if at <= bytes.len() && bytes.len() - at >= 4 {
        Some(u32_from_le_bytes(slice_subrange(bytes, at, at + 4)))
    } else {
        None
    }
}

/// Appends the 2-byte little-endian encoding of `val` to `buffer`.
pub fn write_u16(buffer: &mut Vec<u8>, val: u16)
    ensures
        final(buffer)@ == old(buffer)@ + spec_u16_to_le_bytes(val),
        final(buffer)@.len() == old(buffer)@.len() + 2,
{
    let mut bytes = u16_to_le_bytes(val);
    buffer.append(&mut bytes);
}

/// Reads a little-endian `u16` from `bytes` at offset `at`, or `None` when
/// fewer than 2 bytes are available there.
pub fn read_u16(bytes: &[u8], at: usize) -> (r: Option<u16>)
    ensures
        at + 2 <= bytes@.len() ==> r == Some(
            spec_u16_from_le_bytes(bytes@.subrange(at as int, at + 2)),
        ),
        at + 2 > bytes@.len() ==> r is None,
{
    if at <= bytes.len() && bytes.len() - at >= 2 {
        Some(u16_from_le_bytes(slice_subrange(bytes, at, at + 2)))
    } else {
        None
    }
}

} // verus!
