//! Alternate fixed-header packet format, kept for a future protocol
//! version: an 8-byte header (16-bit message id, version, type, status
//! code, compression and crypto nibbles, content type, extension byte),
//! then a NUL-terminated channel name, then the raw body.

use crate::wire_protocol::error::WireError;
use crate::wire_protocol::message::{read_cstring, spec_find_nul, write_cstring};
use vstd::prelude::*;
use vstd::slice::{slice_subrange, slice_to_vec};
use vstd::utf8::{decode_utf8, encode_utf8, valid_utf8};

verus! {

/// Largest payload carried in one packet.
pub const MTU: u32 = 1400;

/// Protocol version stamped into byte 2 of every new header.
pub const VERSION: u8 = 1;

/// Message type, stored in byte 3 of the header.
#[derive(Clone, Copy, Debug, PartialEq, Eq, Structural)]
pub enum Type {
    Non,
    Con,
    Ack,
    Rst,
}

/// Compression kind, stored in the high nibble of byte 5.
#[derive(Clone, Copy, Debug, PartialEq, Eq, Structural)]
pub enum Compress {
    Off,
    Zstd,
    Gzip,
}

/// Payload-encryption kind, stored in the low nibble of byte 5.
#[derive(Clone, Copy, Debug, PartialEq, Eq, Structural)]
pub enum Crypto {
    Off,
    Aes128Gcm,
    Aes256Gcm,
    ChaCha20Poly1305,
}

/// The wire value of a message type.
pub open spec fn type_code(t: Type) -> u8 {
    match t {
        Type::Non => 0,
        Type::Con => 1,
        Type::Ack => 2,
        Type::Rst => 3,
    }
}

/// The wire value of a compression kind.
pub open spec fn compress_code(c: Compress) -> u8 {
    match c {
        Compress::Off => 0,
        Compress::Zstd => 1,
        Compress::Gzip => 2,
    }
}

/// The wire value of a crypto kind.
pub open spec fn crypto_code(c: Crypto) -> u8 {
    match c {
        Crypto::Off => 0,
        Crypto::Aes128Gcm => 1,
        Crypto::Aes256Gcm => 2,
        Crypto::ChaCha20Poly1305 => 3,
    }
}

/// Well-formed header bytes: type, compression nibble and crypto nibble
/// each hold the wire value of a named variant.
pub open spec fn header_wf(b: Seq<u8>) -> bool {
    &&& b.len() == 8
    &&& b[3] < 4
    &&& (b[5] >> 4) < 3
    &&& (b[5] & 0x0f) < 4
}

/// The fixed 8-byte packet header.
#[derive(Clone, Copy, Debug)]
pub struct Header {
    bytes: [u8; 8],
}

impl View for Header {
    type V = Seq<u8>;

    closed spec fn view(&self) -> Seq<u8> {
        self.bytes@
    }
}

impl Header {
    /// Well-formed header: every field accessor has a named variant to
    /// return. Constructors establish this and setters preserve it.
    pub open spec fn wf(&self) -> bool {
        header_wf(self@)
    }

    /// A fresh header: all zero but for the protocol version in byte 2.
    pub fn new() -> (r: Header)
        ensures
            r@ =~= seq![0u8, 0u8, VERSION, 0u8, 0u8, 0u8, 0u8, 0u8],
            r.wf(),
    {
        proof {
            assert(0u8 >> 4 == 0u8 && 0u8 & 0x0fu8 == 0u8) by (bit_vector);
        }
        Header { bytes: [0, 0, VERSION, 0, 0, 0, 0, 0] }
    }

    /// Validates raw bytes as a header: accepted exactly when the type and
    /// the two nibbles of byte 5 name known variants.
    pub fn from_bytes(bytes: [u8; 8]) -> (r: Option<Header>)
        ensures
            r is Some <==> header_wf(bytes@),
            r matches Some(h) ==> h@ == bytes@ && h.wf(),
    {
        if bytes[3] < 4 && (bytes[5] >> 4) < 3 && (bytes[5] & 0x0f) < 4 {
            Some(Header { bytes })
        } else {
            None
        }
    }

    /// The 16-bit message id held little-endian in bytes 0 and 1.
    pub fn message_id(&self) -> (r: u16)
        ensures
            r as int == self@[0] + 256 * self@[1],
    {
        self.bytes[0] as u16 + 256 * (self.bytes[1] as u16)
    }

    /// Stores `message_id` little-endian in bytes 0 and 1.
    pub fn set_message_id(&mut self, message_id: u16)
        ensures
            final(self)@ =~= old(self)@.update(0, (message_id % 256) as u8).update(
                1,
                (message_id / 256) as u8,
            ),
            final(self)@[0] + 256 * final(self)@[1] == message_id,
            old(self).wf() ==> final(self).wf(),
    {
        let b = self.bytes;
        let lo = (message_id % 256) as u8;
        let hi = (message_id / 256) as u8;
        self.bytes = [lo, hi, b[2], b[3], b[4], b[5], b[6], b[7]];
    }

    /// The message type in byte 3.
    pub fn ty(&self) -> (r: Type)
        requires
            self.wf(),
        ensures
            type_code(r) == self@[3],
    {
        let b = self.bytes[3];
        if b == 0 {
            Type::Non
        } else if b == 1 {
            Type::Con
        } else if b == 2 {
            Type::Ack
        } else {
            Type::Rst
        }
    }

    /// Stores the message type in byte 3.
    pub fn set_type(&mut self, t: Type)
        ensures
            final(self)@ =~= old(self)@.update(3, type_code(t)),
            old(self).wf() ==> final(self).wf(),
    {
        let b = self.bytes;
        let code: u8 = match t {
            Type::Non => 0,
            Type::Con => 1,
            Type::Ack => 2,
            Type::Rst => 3,
        };
        self.bytes = [b[0], b[1], b[2], code, b[4], b[5], b[6], b[7]];
    }

    /// The status code in byte 4.
    pub fn code(&self) -> (r: u8)
        ensures
            r == self@[4],
    {
        self.bytes[4]
    }

    /// Stores the status code in byte 4.
    pub fn set_code(&mut self, code: u8)
        ensures
            final(self)@ =~= old(self)@.update(4, code),
            old(self).wf() ==> final(self).wf(),
    {
        let b = self.bytes;
        self.bytes = [b[0], b[1], b[2], b[3], code, b[5], b[6], b[7]];
    }

    /// The compression kind in the high nibble of byte 5.
    pub fn compress(&self) -> (r: Compress)
        requires
            self.wf(),
        ensures
            compress_code(r) == self@[5] >> 4,
    {
        let n = self.bytes[5] >> 4;
        if n == 0 {
            Compress::Off
        } else if n == 1 {
            Compress::Zstd
        } else {
            Compress::Gzip
        }
    }

    /// Stores the compression kind in the high nibble of byte 5, keeping
    /// the crypto nibble.
    pub fn set_compress(&mut self, m: Compress)
        ensures
            final(self)@ =~= old(self)@.update(
                5,
                ((old(self)@[5] & 0x0f) | (compress_code(m) << 4)) as u8,
            ),
            final(self)@[5] >> 4 == compress_code(m),
            final(self)@[5] & 0x0f == old(self)@[5] & 0x0f,
            old(self).wf() ==> final(self).wf(),
    {
        let b = self.bytes;
        let code: u8 = match m {
            Compress::Off => 0,
            Compress::Zstd => 1,
            Compress::Gzip => 2,
        };
        let five = (b[5] & 0x0f) | (code << 4);
        self.bytes = [b[0], b[1], b[2], b[3], b[4], five, b[6], b[7]];
        proof {
            let x = old(self)@[5];
            let c = compress_code(m);
            assert(((x & 0x0f) | (c << 4)) >> 4 == c && ((x & 0x0f) | (c << 4)) & 0x0f == x & 0x0f)
                by (bit_vector)
                requires
                    c < 3,
            ;
        }
    }

    /// The crypto kind in the low nibble of byte 5.
    pub fn crypto(&self) -> (r: Crypto)
        requires
            self.wf(),
        ensures
            crypto_code(r) == self@[5] & 0x0f,
    {
        let n = self.bytes[5] & 0x0f;
        if n == 0 {
            Crypto::Off
        } else if n == 1 {
            Crypto::Aes128Gcm
        } else if n == 2 {
            Crypto::Aes256Gcm
        } else {
            Crypto::ChaCha20Poly1305
        }
    }

    /// Stores the crypto kind in the low nibble of byte 5, keeping the
    /// compression nibble.
    pub fn set_crypto(&mut self, m: Crypto)
        ensures
            final(self)@ =~= old(self)@.update(
                5,
                ((old(self)@[5] & 0xf0) | crypto_code(m)) as u8,
            ),
            final(self)@[5] & 0x0f == crypto_code(m),
            final(self)@[5] >> 4 == old(self)@[5] >> 4,
            old(self).wf() ==> final(self).wf(),
    {
        let b = self.bytes;
        let code: u8 = match m {
            Crypto::Off => 0,
            Crypto::Aes128Gcm => 1,
            Crypto::Aes256Gcm => 2,
            Crypto::ChaCha20Poly1305 => 3,
        };
        let five = (b[5] & 0xf0) | code;
        self.bytes = [b[0], b[1], b[2], b[3], b[4], five, b[6], b[7]];
        proof {
            let x = old(self)@[5];
            let c = crypto_code(m);
            assert(((x & 0xf0) | c) & 0x0f == c && ((x & 0xf0) | c) >> 4 == x >> 4) by (bit_vector)
                requires
                    c < 4,
            ;
        }
    }

    /// The content type in byte 6.
    pub fn content_type(&self) -> (r: u8)
        ensures
            r == self@[6],
    {
        self.bytes[6]
    }

    /// Stores the content type in byte 6.
    pub fn set_content_type(&mut self, c: u8)
        ensures
            final(self)@ =~= old(self)@.update(6, c),
            old(self).wf() ==> final(self).wf(),
    {
        let b = self.bytes;
        self.bytes = [b[0], b[1], b[2], b[3], b[4], b[5], c, b[7]];
    }

    /// The extension byte.
    pub fn ext(&self) -> (r: u8)
        ensures
            r == self@[7],
    {
        self.bytes[7]
    }

    /// Stores the extension byte.
    pub fn set_ext(&mut self, ext: u8)
        ensures
            final(self)@ =~= old(self)@.update(7, ext),
            old(self).wf() ==> final(self).wf(),
    {
        let b = self.bytes;
        self.bytes = [b[0], b[1], b[2], b[3], b[4], b[5], b[6], ext];
    }

    /// The raw header bytes.
    pub fn bytes(&self) -> (r: [u8; 8])
        ensures
            r@ == self@,
    {
        self.bytes
    }
}

/// One packet: header, channel name, body.
#[derive(Clone, Debug)]
pub struct Packet {
    pub header: Header,
    pub chan: String,
    pub body: Vec<u8>,
}

/// The encoding of a packet: header bytes, channel name as a NUL-terminated
/// UTF-8 byte string, then the body.
pub open spec fn spec_packet_bytes(header: Seq<u8>, chan: Seq<char>, body: Seq<u8>) -> Seq<u8> {
    header + encode_utf8(chan) + seq![0u8] + body
}

impl Packet {
    /// A fresh packet: new header, empty channel name, empty body.
    pub fn new() -> (r: Packet)
        ensures
            r.header@ =~= seq![0u8, 0u8, VERSION, 0u8, 0u8, 0u8, 0u8, 0u8],
            r.header.wf(),
            r.chan@ == Seq::<char>::empty(),
            r.body@ == Seq::<u8>::empty(),
    {
        let header = Header::new();
        Packet { header, chan: String::new(), body: Vec::new() }
    }

    /// Parses a packet: 8 header bytes that validate, then a NUL-terminated
    /// UTF-8 channel name, then the body as all remaining bytes.
    pub fn from_bytes(bytes: &[u8]) -> (r: Result<Packet, WireError>)
        ensures
            r matches Ok(p) ==> {
                &&& bytes@.len() >= 9
                &&& header_wf(bytes@.subrange(0, 8))
                &&& p.header@ == bytes@.subrange(0, 8)
                &&& p.header.wf()
                &&& spec_find_nul(bytes@, 8) matches Some(nul) && valid_utf8(
                    bytes@.subrange(8, nul),
                ) && p.chan@ == decode_utf8(bytes@.subrange(8, nul)) && p.body@ == bytes@.subrange(
                    nul + 1,
                    bytes@.len() as int,
                )
            },
            r matches Err(e) ==> e == WireError::CorruptFrame,
    {
        if bytes.len() < 9 {
            return Err(WireError::CorruptFrame);
        }
        let head = slice_subrange(bytes, 0, 8);
        let header = match Header::from_bytes(
            [head[0], head[1], head[2], head[3], head[4], head[5], head[6], head[7]],
        ) {
            Some(h) => h,
            None => {
                return Err(WireError::CorruptFrame);
            },
        };
        let (chan, nul) = match read_cstring(bytes, 8) {
            Ok(p) => p,
            Err(e) => {
                return Err(e);
            },
        };
        let body = slice_to_vec(slice_subrange(bytes, nul + 1, bytes.len()));
        proof {
            assert(seq![head@[0], head@[1], head@[2], head@[3], head@[4], head@[5], head@[6], head@[7]]
                =~= bytes@.subrange(0, 8));
        }
        Ok(Packet { header, chan, body })
    }

    /// Encodes this packet: header bytes, NUL-terminated channel name, body.
    pub fn to_bytes(&self) -> (r: Vec<u8>)
        requires
            9 + encode_utf8(self.chan@).len() + self.body@.len() <= usize::MAX,
        ensures
            r@ == spec_packet_bytes(self.header@, self.chan@, self.body@),
    {
        let mut buffer: Vec<u8> = Vec::new();
        let head = self.header.bytes();
        buffer.push(head[0]);
        buffer.push(head[1]);
        buffer.push(head[2]);
        buffer.push(head[3]);
        buffer.push(head[4]);
        buffer.push(head[5]);
        buffer.push(head[6]);
        buffer.push(head[7]);
        write_cstring(&mut buffer, self.chan.as_str());
        buffer.extend_from_slice(self.body.as_slice());
        assert(buffer@ =~= spec_packet_bytes(self.header@, self.chan@, self.body@));
        buffer
    }
}

} // verus!
