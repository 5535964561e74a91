use queen_core::packet::{Compress, Crypto, Header, Packet, Type, VERSION};

#[test]
fn set_compress_and_crypto() {
    let mut packet = Packet::new();

    packet.header.set_crypto(Crypto::ChaCha20Poly1305);
    assert_eq!(packet.header.bytes()[5], 3);

    packet.header.set_compress(Compress::Zstd);
    assert_eq!(packet.header.bytes()[5], 16 + 3);

    packet.header.set_crypto(Crypto::Off);
    assert_eq!(packet.header.bytes()[5], 16);

    packet.header.set_compress(Compress::Off);
    assert_eq!(packet.header.bytes()[5], 0);

    packet.header.set_message_id(123);
    assert_eq!(packet.header.message_id(), 123);
}

#[test]
fn header_new_is_versioned() {
    let header = Header::new();
    assert_eq!(header.bytes(), [0, 0, VERSION, 0, 0, 0, 0, 0]);
    assert_eq!(header.message_id(), 0);
}

#[test]
fn header_field_round_trips() {
    let mut header = Header::new();
    header.set_message_id(0xbeef);
    assert_eq!(header.message_id(), 0xbeef);
    header.set_type(Type::Ack);
    assert!(matches!(header.ty(), Type::Ack));
    header.set_code(42);
    assert_eq!(header.code(), 42);
    header.set_compress(Compress::Gzip);
    assert!(matches!(header.compress(), Compress::Gzip));
    header.set_crypto(Crypto::Aes256Gcm);
    assert!(matches!(header.crypto(), Crypto::Aes256Gcm));
    assert!(matches!(header.compress(), Compress::Gzip));
    header.set_content_type(7);
    assert_eq!(header.content_type(), 7);
    header.set_ext(200);
    assert_eq!(header.ext(), 200);
    assert_eq!(header.message_id(), 0xbeef);
}

#[test]
fn header_from_bytes_validates() {
    assert!(Header::from_bytes([1, 2, 1, 3, 0, 0x23, 0, 0]).is_some());
    // type byte out of range
    assert!(Header::from_bytes([0, 0, 1, 4, 0, 0, 0, 0]).is_none());
    // compression nibble out of range
    assert!(Header::from_bytes([0, 0, 1, 0, 0, 0x30, 0, 0]).is_none());
    // crypto nibble out of range
    assert!(Header::from_bytes([0, 0, 1, 0, 0, 0x04, 0, 0]).is_none());
}

#[test]
fn packet_round_trips_through_bytes() {
    let mut packet = Packet::new();
    packet.header.set_message_id(77);
    packet.header.set_code(5);
    packet.chan = String::from("updates");
    packet.body = vec![9, 8, 7];
    let bytes = packet.to_bytes();
    assert_eq!(bytes.len(), 8 + "updates".len() + 1 + 3);
    let back = Packet::from_bytes(&bytes).unwrap();
    assert_eq!(back.header.bytes(), packet.header.bytes());
    assert_eq!(back.chan, "updates");
    assert_eq!(back.body, vec![9, 8, 7]);
}

#[test]
fn packet_from_bytes_rejects_truncation() {
    let packet = Packet::new();
    let bytes = packet.to_bytes();
    assert!(Packet::from_bytes(&bytes[..8]).is_err());
}
