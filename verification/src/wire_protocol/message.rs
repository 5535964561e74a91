//! One frame of the wire protocol.
//!
//! A frame is, in order: a little-endian `u32` total length (counting its
//! own 4 bytes), a little-endian `u32` message id, the target as a
//! NUL-terminated byte string, the origin likewise, a little-endian `u16`
//! opcode, a little-endian `u16` content type, and the raw body, whose
//! length is whatever the total length leaves after the fixed fields.

use crate::codec::{read_u16, read_u32, write_u16, write_u32};
use crate::wire_protocol::error::WireError;
use vstd::bytes::{
    lemma_auto_spec_u16_to_from_le_bytes, lemma_auto_spec_u32_to_from_le_bytes,
    spec_u16_from_le_bytes, spec_u16_to_le_bytes, spec_u32_from_le_bytes, spec_u32_to_le_bytes,
};
use vstd::prelude::*;
use vstd::slice::{slice_index_get, slice_subrange, slice_to_vec};
use vstd::string::StrSliceExecFns;
use vstd::utf8::{
    char_is_scalar, char_u32_cast, decode_utf8, encode_utf8, encode_utf8_decode_utf8,
    encode_utf8_valid_utf8, encode_scalar, valid_utf8,
};

verus! {

/// The two-level operation tag of a frame: the high byte of its wire value
/// selects a family (connection control, request/response, publish/subscribe,
/// error/unknown), the low byte one action bit within that family.
///
/// A wire value that matches none of the named patterns decodes to
/// [`OpCode::Unknow`] rather than failing: unknown actions must not abort a
/// connection.
#[derive(Clone, Copy, Debug, PartialEq, Eq, Structural)]
pub enum OpCode {
    Connect,
    Connack,
    Ping,
    Pong,
    Request,
    Response,
    Watch,
    Watchack,
    Subscribe,
    Suback,
    Unsubscribe,
    Unsuback,
    Publish,
    Puback,
    Unknow,
    Error,
}

/// The 16-bit wire value of an opcode.
pub open spec fn opcode_bits(op: OpCode) -> u16 {
    match op {
        OpCode::Connect => 0x0101,
        OpCode::Connack => 0x0102,
        OpCode::Ping => 0x0104,
        OpCode::Pong => 0x0108,
        OpCode::Request => 0x0201,
        OpCode::Response => 0x0202,
        OpCode::Watch => 0x0204,
        OpCode::Watchack => 0x0208,
        OpCode::Subscribe => 0x0401,
        OpCode::Suback => 0x0402,
        OpCode::Unsubscribe => 0x0404,
        OpCode::Unsuback => 0x0408,
        OpCode::Publish => 0x0410,
        OpCode::Puback => 0x0420,
        OpCode::Unknow => 0x8001,
        OpCode::Error => 0x8002,
    }
}

/// True when the wire value is one of the named opcode patterns.
pub open spec fn recognized_bits(bits: u16) -> bool {
    exists|op: OpCode| opcode_bits(op) == bits
}

/// The opcode a 16-bit wire value decodes to: the named opcode whose pattern
/// it equals, or [`OpCode::Unknow`] for every other value.
pub open spec fn opcode_from_bits(bits: u16) -> OpCode {
    if bits == 0x0101 {
        OpCode::Connect
    } else if bits == 0x0102 {
        OpCode::Connack
    } else if bits == 0x0104 {
        OpCode::Ping
    } else if bits == 0x0108 {
        OpCode::Pong
    } else if bits == 0x0201 {
        OpCode::Request
    } else if bits == 0x0202 {
        OpCode::Response
    } else if bits == 0x0204 {
        OpCode::Watch
    } else if bits == 0x0208 {
        OpCode::Watchack
    } else if bits == 0x0401 {
        OpCode::Subscribe
    } else if bits == 0x0402 {
        OpCode::Suback
    } else if bits == 0x0404 {
        OpCode::Unsubscribe
    } else if bits == 0x0408 {
        OpCode::Unsuback
    } else if bits == 0x0410 {
        OpCode::Publish
    } else if bits == 0x0420 {
        OpCode::Puback
    } else if bits == 0x8002 {
        OpCode::Error
    } else {
        OpCode::Unknow
    }
}

impl OpCode {
    /// The 16-bit wire value of this opcode.
    pub fn bits(&self) -> (r: u16)
        ensures
            r == opcode_bits(*self),
    {
        match self {
            OpCode::Connect => 0x0101,
            OpCode::Connack => 0x0102,
            OpCode::Ping => 0x0104,
            OpCode::Pong => 0x0108,
            OpCode::Request => 0x0201,
            OpCode::Response => 0x0202,
            OpCode::Watch => 0x0204,
            OpCode::Watchack => 0x0208,
            OpCode::Subscribe => 0x0401,
            OpCode::Suback => 0x0402,
            OpCode::Unsubscribe => 0x0404,
            OpCode::Unsuback => 0x0408,
            OpCode::Publish => 0x0410,
            OpCode::Puback => 0x0420,
            OpCode::Unknow => 0x8001,
            OpCode::Error => 0x8002,
        }
    }

    /// Decodes a 16-bit wire value leniently: an unrecognized value yields
    /// [`OpCode::Unknow`], never an error.
    pub fn from_bits(bits: u16) -> (r: OpCode)
        ensures
            r == opcode_from_bits(bits),
    {
        if bits == 0x0101 {
            OpCode::Connect
        } else if bits == 0x0102 {
            OpCode::Connack
        } else if bits == 0x0104 {
            OpCode::Ping
        } else if bits == 0x0108 {
            OpCode::Pong
        } else if bits == 0x0201 {
            OpCode::Request
        } else if bits == 0x0202 {
            OpCode::Response
        } else if bits == 0x0204 {
            OpCode::Watch
        } else if bits == 0x0208 {
            OpCode::Watchack
        } else if bits == 0x0401 {
            OpCode::Subscribe
        } else if bits == 0x0402 {
            OpCode::Suback
        } else if bits == 0x0404 {
            OpCode::Unsubscribe
        } else if bits == 0x0408 {
            OpCode::Unsuback
        } else if bits == 0x0410 {
            OpCode::Publish
        } else if bits == 0x0420 {
            OpCode::Puback
        } else if bits == 0x8002 {
            OpCode::Error
        } else {
            OpCode::Unknow
        }
    }
}

impl Default for OpCode {
    /// The default opcode is [`OpCode::Unknow`].
    fn default() -> (r: OpCode)
        ensures
            r == OpCode::Unknow,
    {
        OpCode::Unknow
    }
}

/// Decoding a named opcode's own wire value gives that opcode back.
pub proof fn lemma_opcode_bits_round_trip(op: OpCode)
    ensures
        opcode_from_bits(opcode_bits(op)) == op,
{
}

/// Opcode lenience: a wire value that encodes no recognized opcode decodes
/// to [`OpCode::Unknow`], never to an error.
pub proof fn lemma_opcode_lenience(bits: u16)
    requires
        !recognized_bits(bits),
    ensures
        opcode_from_bits(bits) == OpCode::Unknow,
{
    assert(opcode_bits(OpCode::Connect) == 0x0101);
    assert(opcode_bits(OpCode::Connack) == 0x0102);
    assert(opcode_bits(OpCode::Ping) == 0x0104);
    assert(opcode_bits(OpCode::Pong) == 0x0108);
    assert(opcode_bits(OpCode::Request) == 0x0201);
    assert(opcode_bits(OpCode::Response) == 0x0202);
    assert(opcode_bits(OpCode::Watch) == 0x0204);
    assert(opcode_bits(OpCode::Watchack) == 0x0208);
    assert(opcode_bits(OpCode::Subscribe) == 0x0401);
    assert(opcode_bits(OpCode::Suback) == 0x0402);
    assert(opcode_bits(OpCode::Unsubscribe) == 0x0404);
    assert(opcode_bits(OpCode::Unsuback) == 0x0408);
    assert(opcode_bits(OpCode::Publish) == 0x0410);
    assert(opcode_bits(OpCode::Puback) == 0x0420);
    assert(opcode_bits(OpCode::Unknow) == 0x8001);
    assert(opcode_bits(OpCode::Error) == 0x8002);
}

/// One application message, the unit the wire protocol frames.
#[derive(Clone, Debug, PartialEq, Eq)]
pub struct Message {
    /// Caller-assigned 32-bit id; this layer enforces no uniqueness.
    pub message_id: u32,
    /// Destination name; must contain no NUL character to round-trip.
    pub target: String,
    /// Sender name; must contain no NUL character to round-trip.
    pub origin: String,
    /// Operation tag.
    pub opcode: OpCode,
    /// Opaque 16-bit application tag.
    pub content_type: u16,
    /// Raw payload bytes.
    pub body: Vec<u8>,
}

impl Default for Message {
    /// An empty message: zero id and tags, empty strings and body, opcode
    /// [`OpCode::Unknow`].
    fn default() -> (r: Message)
        ensures
            r.message_id == 0,
            r.target@ == Seq::<char>::empty(),
            r.origin@ == Seq::<char>::empty(),
            r.opcode == OpCode::Unknow,
            r.content_type == 0,
            r.body@ == Seq::<u8>::empty(),
    {
        Message {
            message_id: 0,
            target: String::new(),
            origin: String::new(),
            opcode: OpCode::Unknow,
            content_type: 0,
            body: Vec::new(),
        }
    }
}

/// Length in bytes of an encoded frame with the given variable-length parts
/// (target and origin as their UTF-8 bytes, without terminators): 4 length +
/// 4 id + each string and its NUL + 2 opcode + 2 content type + body.
pub open spec fn spec_frame_len(target: Seq<u8>, origin: Seq<u8>, body: Seq<u8>) -> int {
    14 + target.len() as int + origin.len() as int + body.len() as int
}

/// The encoded frame with the given fields, target and origin already as
/// UTF-8 bytes.
pub open spec fn spec_encode(
    id: u32,
    target: Seq<u8>,
    origin: Seq<u8>,
    bits: u16,
    content_type: u16,
    body: Seq<u8>,
) -> Seq<u8> {
    spec_u32_to_le_bytes(spec_frame_len(target, origin, body) as u32)
        + spec_u32_to_le_bytes(id) + target + seq![0u8] + origin + seq![0u8]
        + spec_u16_to_le_bytes(bits) + spec_u16_to_le_bytes(content_type) + body
}

/// Length in bytes of the encoding of `m`.
pub open spec fn spec_message_len(m: Message) -> int {
    spec_frame_len(encode_utf8(m.target@), encode_utf8(m.origin@), m.body@)
}

/// The encoding of `m`.
pub open spec fn spec_message_bytes(m: Message) -> Seq<u8> {
    spec_encode(
        m.message_id,
        encode_utf8(m.target@),
        encode_utf8(m.origin@),
        opcode_bits(m.opcode),
        m.content_type,
        m.body@,
    )
}

impl Message {
    /// Builds a message from its parts.
    pub fn new(
        message_id: u32,
        target: String,
        origin: String,
        opcode: OpCode,
        content_type: u16,
        body: Vec<u8>,
    ) -> (r: Message)
        ensures
            r == (Message { message_id, target, origin, opcode, content_type, body }),
    {
        Message { message_id, target, origin, opcode, content_type, body }
    }

    /// Length in bytes of this message's encoded frame, the value the length
    /// prefix carries.
    pub fn len(&self) -> (r: usize)
        requires
            spec_message_len(*self) <= usize::MAX,
        ensures
            r == spec_message_len(*self),
    {
        let target_len = self.target.as_str().as_bytes().len();
        let origin_len = self.origin.as_str().as_bytes().len();
        let mut total: usize = 4 + 4;
        total = total + target_len + 1;
        total = total + origin_len + 1;
        total = total + 2 + 2;
        total + self.body.len()
    }

    /// Appends this message's encoded frame to `buffer`.
    ///
    /// The length prefix is a `u32`, so the frame must fit in one; a caller
    /// that cannot establish the bound goes through [`Message::encode`],
    /// which checks it at run time.
    pub fn write(&self, buffer: &mut Vec<u8>)
        requires
            spec_message_len(*self) <= u32::MAX,
            old(buffer)@.len() + spec_message_len(*self) <= usize::MAX,
        ensures
            final(buffer)@ == old(buffer)@ + spec_message_bytes(*self),
    {
        let total = self.len();
        write_u32(buffer, total as u32);
        write_u32(buffer, self.message_id);
        write_cstring(buffer, self.target.as_str());
        write_cstring(buffer, self.origin.as_str());
        write_u16(buffer, self.opcode.bits());
        write_u16(buffer, self.content_type);
        buffer.extend_from_slice(self.body.as_slice());
        assert(final(buffer)@ =~= old(buffer)@ + spec_message_bytes(*self));
    }

    /// Encodes this message as one frame, or `None` when the frame would not
    /// fit a `u32` length prefix.
    pub fn encode(&self) -> (r: Option<Vec<u8>>)
        ensures
            r is Some <==> spec_message_len(*self) <= u32::MAX,
            r matches Some(v) ==> v@ == spec_message_bytes(*self) && v@.len() == spec_message_len(
                *self,
            ),
    {
        let target_len = self.target.as_str().as_bytes().len();
        let origin_len = self.origin.as_str().as_bytes().len();
        let total: u128 = 14 + target_len as u128 + origin_len as u128 + self.body.len() as u128;
        if total > 0xffff_ffffu128 {
            return None;
        }
        let mut buffer: Vec<u8> = Vec::new();
        self.write(&mut buffer);
        proof {
            lemma_auto_spec_u32_to_from_le_bytes();
            lemma_auto_spec_u16_to_from_le_bytes();
        }
        Some(buffer)
    }
}

/// Appends `s` as a NUL-terminated UTF-8 byte string to `buffer`.
pub fn write_cstring(buffer: &mut Vec<u8>, s: &str)
    requires
        old(buffer)@.len() + encode_utf8(s@).len() + 1 <= usize::MAX,
    ensures
        final(buffer)@ == old(buffer)@ + encode_utf8(s@) + seq![0u8],
{
    buffer.extend_from_slice(s.as_bytes());
    buffer.push(0);
    assert(final(buffer)@ =~= old(buffer)@ + encode_utf8(s@) + seq![0u8]);
}

/// Index of the first NUL byte of `b` at or after `i`, if any.
pub open spec fn spec_find_nul(b: Seq<u8>, i: int) -> Option<int>
    decreases b.len() - i,
{
    if i < 0 || i >= b.len() {
        None
    } else if b[i] == 0 {
        Some(i)
    } else {
        spec_find_nul(b, i + 1)
    }
}

/// Scanning from anywhere inside a NUL-free region finds the same NUL.
proof fn lemma_find_nul_skip(b: Seq<u8>, start: int, i: int)
    requires
        0 <= start <= i <= b.len(),
        forall|j: int| start <= j < i ==> b[j] != 0,
    ensures
        spec_find_nul(b, start) == spec_find_nul(b, i),
    decreases i - start,
{
    if start < i {
        lemma_find_nul_skip(b, start + 1, i);
    }
}

/// A NUL at `nul` preceded only by non-NUL bytes is the one the scan finds.
proof fn lemma_find_nul_present(b: Seq<u8>, start: int, nul: int)
    requires
        0 <= start <= nul < b.len(),
        b[nul] == 0,
        forall|j: int| start <= j < nul ==> b[j] != 0,
    ensures
        spec_find_nul(b, start) == Some(nul),
    decreases nul - start,
{
    if start < nul {
        lemma_find_nul_present(b, start + 1, nul);
    }
}

/// Index of the first NUL byte of `bytes` at or after `start`, if any.
fn find_nul(bytes: &[u8], start: usize) -> (r: Option<usize>)
    requires
        start <= bytes@.len(),
    ensures
        r matches Some(i) ==> start <= i < bytes@.len() && spec_find_nul(bytes@, start as int)
            == Some(i as int),
        r is None ==> spec_find_nul(bytes@, start as int) is None,
{
    let n = bytes.len();
    let mut i = start;
    while i < n
        invariant
            start <= i <= n,
            n == bytes@.len(),
            forall|j: int| start <= j < i ==> bytes@[j] != 0,
        decreases n - i,
    {
        if *slice_index_get(bytes, i) == 0 {
            proof {
                lemma_find_nul_present(bytes@, start as int, i as int);
            }
            return Some(i);
        }
        i = i + 1;
    }
    proof {
        lemma_find_nul_skip(bytes@, start as int, n as int);
    }
    None
}

/// Relies on `String::from_utf8`: it succeeds exactly on input that is valid
/// UTF-8, and then returns the string whose bytes are that input, that is,
/// the character sequence the bytes encode.
#[verifier::external_body]
fn bytes_to_string(bytes: Vec<u8>) -> (r: Option<String>)
    ensures
        r is Some <==> valid_utf8(bytes@),
        r matches Some(s) ==> s@ == decode_utf8(bytes@),
{
    String::from_utf8(bytes).ok()
}

/// Reads a NUL-terminated UTF-8 string from `bytes` starting at `start`;
/// returns the string and the index of its NUL terminator, or
/// [`WireError::CorruptFrame`] when no NUL follows or the bytes before it
/// are not valid UTF-8.
pub fn read_cstring(bytes: &[u8], start: usize) -> (r: Result<(String, usize), WireError>)
    requires
        start <= bytes@.len(),
    ensures
        r matches Ok(p) ==> {
            &&& start <= p.1 < bytes@.len()
            &&& spec_find_nul(bytes@, start as int) == Some(p.1 as int)
            &&& valid_utf8(bytes@.subrange(start as int, p.1 as int))
            &&& p.0@ == decode_utf8(bytes@.subrange(start as int, p.1 as int))
        },
        r matches Err(e) ==> {
            &&& e == WireError::CorruptFrame
            &&& match spec_find_nul(bytes@, start as int) {
                Some(nul) => !valid_utf8(bytes@.subrange(start as int, nul)),
                None => true,
            }
        },
{
    let nul = match find_nul(bytes, start) {
        Some(i) => i,
        None => {
            return Err(WireError::CorruptFrame);
        },
    };
    let raw = slice_to_vec(slice_subrange(bytes, start, nul));
    match bytes_to_string(raw) {
        Some(s) => Ok((s, nul)),
        None => Err(WireError::CorruptFrame),
    }
}

/// The fields a frame parses to, target and origin still as raw bytes.
pub ghost struct ParsedFrame {
    pub id: u32,
    pub target: Seq<u8>,
    pub origin: Seq<u8>,
    pub opcode_bits: u16,
    pub content_type: u16,
    pub body: Seq<u8>,
}

/// Parses the frame at the front of `b`, byte-level: the declared total
/// length must leave a non-negative body length after the fields actually
/// present (checked, never underflowing), and `b` must hold the whole frame.
/// Bytes past the declared total are ignored.
pub open spec fn spec_parse(b: Seq<u8>) -> Option<ParsedFrame> {
    if b.len() < 8 {
        None
    } else {
        let total = spec_u32_from_le_bytes(b.subrange(0, 4)) as int;
        let id = spec_u32_from_le_bytes(b.subrange(4, 8));
        match spec_find_nul(b, 8) {
            None => None,
            Some(t_nul) => match spec_find_nul(b, t_nul + 1) {
                None => None,
                Some(o_nul) => {
                    if o_nul + 5 > b.len() {
                        None
                    } else {
                        let target = b.subrange(8, t_nul);
                        let origin = b.subrange(t_nul + 1, o_nul);
                        let body_len = total - 14 - target.len() - origin.len();
                        if body_len < 0 || o_nul + 5 + body_len > b.len() {
                            None
                        } else {
                            Some(
                                ParsedFrame {
                                    id,
                                    target,
                                    origin,
                                    opcode_bits: spec_u16_from_le_bytes(
                                        b.subrange(o_nul + 1, o_nul + 3),
                                    ),
                                    content_type: spec_u16_from_le_bytes(
                                        b.subrange(o_nul + 3, o_nul + 5),
                                    ),
                                    body: b.subrange(o_nul + 5, o_nul + 5 + body_len),
                                },
                            )
                        }
                    }
                },
            },
        }
    }
}

/// True when the parsed frame decodes to the message: ids, tags and body
/// equal, and the message's strings are the characters the parsed bytes
/// encode.
pub open spec fn spec_decodes_to(p: ParsedFrame, m: Message) -> bool {
    &&& valid_utf8(p.target)
    &&& valid_utf8(p.origin)
    &&& m.message_id == p.id
    &&& m.target@ == decode_utf8(p.target)
    &&& m.origin@ == decode_utf8(p.origin)
    &&& m.opcode == opcode_from_bits(p.opcode_bits)
    &&& m.content_type == p.content_type
    &&& m.body@ == p.body
}

impl Message {
    /// Decodes the frame at the front of `buffer`.
    ///
    /// Fails with [`WireError::CorruptFrame`] exactly when the bytes do not
    /// parse (truncated input, missing NUL terminators, or a declared length
    /// smaller than the fields actually present) or a string is not valid
    /// UTF-8; an unrecognized opcode is not an error.
    pub fn read(buffer: &[u8]) -> (r: Result<Message, WireError>)
        ensures
            r matches Ok(m) ==> spec_parse(buffer@) matches Some(p) && spec_decodes_to(p, m),
            r matches Err(e) ==> {
                &&& e == WireError::CorruptFrame
                &&& match spec_parse(buffer@) {
                    Some(p) => !valid_utf8(p.target) || !valid_utf8(p.origin),
                    None => true,
                }
            },
    {
        let n = buffer.len();
        let total = match read_u32(buffer, 0) {
            Some(v) => v,
            None => {
                return Err(WireError::CorruptFrame);
            },
        };
        let message_id = match read_u32(buffer, 4) {
            Some(v) => v,
            None => {
                return Err(WireError::CorruptFrame);
            },
        };
        let (target, t_nul) = match read_cstring(buffer, 8) {
            Ok(p) => p,
            Err(e) => {
                return Err(e);
            },
        };
        let (origin, o_nul) = match read_cstring(buffer, t_nul + 1) {
            Ok(p) => p,
            Err(e) => {
                return Err(e);
            },
        };
        if n - o_nul - 1 < 4 {
            return Err(WireError::CorruptFrame);
        }
        let bits = match read_u16(buffer, o_nul + 1) {
            Some(v) => v,
            None => {
                return Err(WireError::CorruptFrame);
            },
        };
        let content_type = match read_u16(buffer, o_nul + 3) {
            Some(v) => v,
            None => {
                return Err(WireError::CorruptFrame);
            },
        };
        let target_len = t_nul - 8;
        let origin_len = o_nul - t_nul - 1;
        let need: u128 = 14 + target_len as u128 + origin_len as u128;
        if (total as u128) < need {
            return Err(WireError::CorruptFrame);
        }
        let body_len = (total as u128 - need) as usize;
        if body_len > n - o_nul - 5 {
            return Err(WireError::CorruptFrame);
        }
        let body_start = o_nul + 5;
        let body = slice_to_vec(slice_subrange(buffer, body_start, body_start + body_len));
        let opcode = OpCode::from_bits(bits);
        Ok(Message { message_id, target, origin, opcode, content_type, body })
    }
}

/// Length accounting: an encoded frame is exactly as long as the value its
/// length prefix declares, and that value is what [`spec_frame_len`] gives.
pub proof fn lemma_length_prefix(
    id: u32,
    target: Seq<u8>,
    origin: Seq<u8>,
    bits: u16,
    content_type: u16,
    body: Seq<u8>,
)
    requires
        spec_frame_len(target, origin, body) <= u32::MAX,
    ensures
        ({
            let b = spec_encode(id, target, origin, bits, content_type, body);
            &&& b.len() == spec_frame_len(target, origin, body)
            &&& spec_u32_from_le_bytes(b.subrange(0, 4)) == b.len()
        }),
{
    lemma_auto_spec_u32_to_from_le_bytes();
    let total = spec_frame_len(target, origin, body);
    let b = spec_encode(id, target, origin, bits, content_type, body);
    lemma_auto_spec_u16_to_from_le_bytes();
    assert(b.len() == total);
    assert(b.subrange(0, 4) =~= spec_u32_to_le_bytes(total as u32));
}

/// Byte-level round trip: a frame encoded from NUL-free target and origin
/// bytes parses back to exactly its own fields.
pub proof fn lemma_encode_parse(
    id: u32,
    target: Seq<u8>,
    origin: Seq<u8>,
    bits: u16,
    content_type: u16,
    body: Seq<u8>,
)
    requires
        !target.contains(0u8),
        !origin.contains(0u8),
        spec_frame_len(target, origin, body) <= u32::MAX,
    ensures
        spec_parse(spec_encode(id, target, origin, bits, content_type, body)) == Some(
            ParsedFrame { id, target, origin, opcode_bits: bits, content_type, body },
        ),
{
    lemma_auto_spec_u32_to_from_le_bytes();
    lemma_auto_spec_u16_to_from_le_bytes();
    let total = spec_frame_len(target, origin, body);
    let b = spec_encode(id, target, origin, bits, content_type, body);
    let tlen = target.len() as int;
    let olen = origin.len() as int;
    let t_nul = 8 + tlen;
    let o_nul = t_nul + 1 + olen;
    assert(b.len() == total);
    assert(b.subrange(0, 4) =~= spec_u32_to_le_bytes(total as u32));
    assert(b.subrange(4, 8) =~= spec_u32_to_le_bytes(id));
    assert forall|j: int| 8 <= j < t_nul implies b[j] != 0 by {
        assert(b[j] == target[j - 8]);
        assert(target[j - 8] != 0) by {
            if target[j - 8] == 0 {
                assert(target.contains(0u8));
            }
        }
    }
    assert(b[t_nul] == 0);
    lemma_find_nul_present(b, 8, t_nul);
    assert forall|j: int| t_nul + 1 <= j < o_nul implies b[j] != 0 by {
        assert(b[j] == origin[j - (t_nul + 1)]);
        assert(origin[j - (t_nul + 1)] != 0) by {
            if origin[j - (t_nul + 1)] == 0 {
                assert(origin.contains(0u8));
            }
        }
    }
    assert(b[o_nul] == 0);
    lemma_find_nul_present(b, t_nul + 1, o_nul);
    assert(b.subrange(8, t_nul) =~= target);
    assert(b.subrange(t_nul + 1, o_nul) =~= origin);
    assert(b.subrange(o_nul + 1, o_nul + 3) =~= spec_u16_to_le_bytes(bits));
    assert(b.subrange(o_nul + 3, o_nul + 5) =~= spec_u16_to_le_bytes(content_type));
    assert(b.subrange(o_nul + 5, o_nul + 5 + body.len()) =~= body);
    let p = spec_parse(b);
    assert(p matches Some(pf) && pf.target =~= target && pf.origin =~= origin && pf.body =~= body);
}

/// Round trip for a whole message: the encoding of any message whose
/// target and origin encode to NUL-free bytes and whose frame fits a `u32`
/// length prefix parses back to fields that decode to that very message.
pub proof fn lemma_message_round_trip(m: Message)
    requires
        !encode_utf8(m.target@).contains(0u8),
        !encode_utf8(m.origin@).contains(0u8),
        spec_message_len(m) <= u32::MAX,
    ensures
        spec_parse(spec_message_bytes(m)) matches Some(p) && spec_decodes_to(p, m),
{
    lemma_encode_parse(
        m.message_id,
        encode_utf8(m.target@),
        encode_utf8(m.origin@),
        opcode_bits(m.opcode),
        m.content_type,
        m.body@,
    );
    encode_utf8_valid_utf8(m.target@);
    encode_utf8_valid_utf8(m.origin@);
    encode_utf8_decode_utf8(m.target@);
    encode_utf8_decode_utf8(m.origin@);
    lemma_opcode_bits_round_trip(m.opcode);
}

/// Length accounting for a whole message: its encoding is exactly
/// [`spec_message_len`] bytes long, and the length prefix it carries
/// declares exactly that count.
pub proof fn lemma_message_length_prefix(m: Message)
    requires
        spec_message_len(m) <= u32::MAX,
    ensures
        spec_message_bytes(m).len() == spec_message_len(m),
        spec_u32_from_le_bytes(spec_message_bytes(m).subrange(0, 4)) == spec_message_len(m),
{
    lemma_length_prefix(
        m.message_id,
        encode_utf8(m.target@),
        encode_utf8(m.origin@),
        opcode_bits(m.opcode),
        m.content_type,
        m.body@,
    );
}

/// The UTF-8 encoding of a sequence of characters none of which is NUL
/// contains no NUL byte; with [`lemma_message_round_trip`], any message
/// whose target and origin avoid the NUL character round-trips.
pub proof fn lemma_nul_free_encoding(s: Seq<char>)
    requires
        forall|i: int| 0 <= i < s.len() ==> s[i] != '\0',
    ensures
        !encode_utf8(s).contains(0u8),
    decreases s.len(),
{
    if s.len() > 0 {
        char_is_scalar(s[0]);
        let c = s[0] as u32;
        assert(c != 0) by {
            char_u32_cast(s[0], c);
            if c == 0 {
                assert(s[0] == (0u32 as char));
                assert('\0' as u32 == 0);
                char_u32_cast('\0', 0);
            }
        }
        assert(forall|k: int|
            0 <= k < encode_scalar(c).len() ==> #[trigger] encode_scalar(c)[k] != 0) by {
            lemma_encode_scalar_nul_free(c);
        }
        lemma_nul_free_encoding(s.drop_first());
        let rest = encode_utf8(s.drop_first());
        let whole = encode_utf8(s);
        assert(whole == encode_scalar(c) + rest);
        assert forall|i: int| 0 <= i < whole.len() implies whole[i] != 0 by {
            if i < encode_scalar(c).len() {
                assert(whole[i] == encode_scalar(c)[i]);
            } else {
                assert(whole[i] == rest[i - encode_scalar(c).len()]);
                assert(!rest.contains(0u8));
                if rest[i - encode_scalar(c).len()] == 0 {
                    assert(rest.contains(0u8));
                }
            }
        }
        if encode_utf8(s).contains(0u8) {
            let i = choose|i: int| 0 <= i < whole.len() && whole[i] == 0;
        }
    }
}

/// No byte of the UTF-8 encoding of a non-NUL scalar is zero: a one-byte
/// encoding is the scalar itself, and every byte of a longer encoding has
/// its high bit set.
proof fn lemma_encode_scalar_nul_free(c: u32)
    requires
        c != 0,
    ensures
        forall|k: int| 0 <= k < encode_scalar(c).len() ==> #[trigger] encode_scalar(c)[k] != 0,
{
    assert((c & 0x7f) as u8 != 0 || c > 0x7f) by (bit_vector)
        requires
            c != 0,
    ;
    assert(0xC0u8 | (((c >> 6) & 0x1F) as u8) != 0) by (bit_vector);
    assert(0xE0u8 | (((c >> 12) & 0x0F) as u8) != 0) by (bit_vector);
    assert(0xF0u8 | (((c >> 18) & 0x7) as u8) != 0) by (bit_vector);
    assert(0x80u8 | ((c & 0x3F) as u8) != 0) by (bit_vector);
    assert(0x80u8 | (((c >> 6) & 0x3F) as u8) != 0) by (bit_vector);
    assert(0x80u8 | (((c >> 12) & 0x3F) as u8) != 0) by (bit_vector);
}

} // verus!
