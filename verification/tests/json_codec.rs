use queen_core::codec::{decode_json, encode_json, frame_payload, read_u32, write_u32};
use queen_core::wire_protocol::error::WireError;

#[test]
fn encode_and_decode() {
    let mut map = serde_json::Map::new();
    map.insert(String::from("a"), serde_json::Value::from(123));
    map.insert(String::from("b"), serde_json::Value::from("456"));
    map.insert(String::from("c"), serde_json::Value::from(vec![7, 8, 9]));
    let json = serde_json::Value::Object(map);

    let data = encode_json(&json).unwrap();

    let json2 = decode_json(&data).unwrap();

    assert!(json == json2);
}

#[test]
fn encode_json_prefixes_the_total_length() {
    let json = serde_json::Value::from(true);
    let data = encode_json(&json).unwrap();
    let prefix = u32::from_le_bytes([data[0], data[1], data[2], data[3]]);
    assert_eq!(prefix as usize, data.len());
    assert_eq!(&data[4..], b"true");
}

#[test]
fn decode_json_rejects_short_and_malformed_input() {
    assert_eq!(decode_json(&[1, 2, 3]), Err(WireError::CorruptFrame));
    assert_eq!(decode_json(&[9, 0, 0, 0, b'{', b'x']), Err(WireError::CorruptFrame));
}

#[test]
fn frame_payload_counts_its_own_prefix() {
    let framed = frame_payload(vec![0xaa, 0xbb]).unwrap();
    assert_eq!(framed, vec![6, 0, 0, 0, 0xaa, 0xbb]);
}

#[test]
fn u32_helpers_are_little_endian() {
    let mut buffer = Vec::new();
    write_u32(&mut buffer, 0x0403_0201);
    assert_eq!(buffer, vec![1, 2, 3, 4]);
    assert_eq!(read_u32(&buffer, 0), Some(0x0403_0201));
    assert_eq!(read_u32(&buffer, 1), None);
}
