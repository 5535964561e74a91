use queen_core::service::connection::{Connection, FrameStep};
use queen_core::wire_protocol::error::WireError;
use queen_core::wire_protocol::message::{Message, OpCode};

fn sample(id: u32, target: &str, origin: &str, opcode: OpCode, body: Vec<u8>) -> Message {
    Message::new(id, String::from(target), String::from(origin), opcode, 7, body)
}

#[test]
fn encode_then_decode_returns_the_message() {
    let m = sample(123, "alpha", "beta", OpCode::Publish, vec![1, 2, 3, 4]);
    let bytes = m.encode().unwrap();
    let back = Message::read(&bytes).unwrap();
    assert_eq!(back.message_id, 123);
    assert_eq!(back.target, "alpha");
    assert_eq!(back.origin, "beta");
    assert_eq!(back.opcode, OpCode::Publish);
    assert_eq!(back.content_type, 7);
    assert_eq!(back.body, vec![1, 2, 3, 4]);
}

#[test]
fn non_ascii_strings_round_trip() {
    let m = sample(9, "h\u{e9}llo", "\u{1f980} crab", OpCode::Request, vec![]);
    let bytes = m.encode().unwrap();
    let back = Message::read(&bytes).unwrap();
    assert_eq!(back.target, "h\u{e9}llo");
    assert_eq!(back.origin, "\u{1f980} crab");
}

#[test]
fn length_prefix_counts_every_byte() {
    let m = sample(5, "tgt", "org", OpCode::Ping, vec![0xaa; 10]);
    let bytes = m.encode().unwrap();
    assert_eq!(bytes.len(), m.len());
    // 4 + 4 + (3 + 1) + (3 + 1) + 2 + 2 + 10
    assert_eq!(bytes.len(), 30);
    let prefix = u32::from_le_bytes([bytes[0], bytes[1], bytes[2], bytes[3]]);
    assert_eq!(prefix as usize, bytes.len());
}

#[test]
fn write_appends_to_the_buffer() {
    let m = sample(1, "a", "b", OpCode::Pong, vec![]);
    let mut buffer = vec![0xff, 0xee];
    m.write(&mut buffer);
    let encoded = m.encode().unwrap();
    assert_eq!(&buffer[..2], &[0xff, 0xee]);
    assert_eq!(&buffer[2..], &encoded[..]);
}

#[test]
fn default_message_is_empty_and_unknow() {
    let d = Message::default();
    assert_eq!(d.message_id, 0);
    assert!(d.target.is_empty());
    assert!(d.origin.is_empty());
    assert_eq!(d.opcode, OpCode::Unknow);
    assert_eq!(d.opcode, OpCode::default());
    assert_eq!(d.content_type, 0);
    assert!(d.body.is_empty());
}

#[test]
fn opcode_bits_round_trip_for_every_opcode() {
    let all = [
        OpCode::Connect,
        OpCode::Connack,
        OpCode::Ping,
        OpCode::Pong,
        OpCode::Request,
        OpCode::Response,
        OpCode::Watch,
        OpCode::Watchack,
        OpCode::Subscribe,
        OpCode::Suback,
        OpCode::Unsubscribe,
        OpCode::Unsuback,
        OpCode::Publish,
        OpCode::Puback,
        OpCode::Unknow,
        OpCode::Error,
    ];
    for op in all {
        assert_eq!(OpCode::from_bits(op.bits()), op);
    }
}

#[test]
fn unrecognized_opcode_decodes_to_unknow() {
    let m = sample(2, "t", "o", OpCode::Connect, vec![5]);
    let mut bytes = m.encode().unwrap();
    // opcode field sits after the two NUL-terminated strings
    let opcode_at = 4 + 4 + 2 + 2;
    assert_eq!(bytes[opcode_at], 0x01);
    assert_eq!(bytes[opcode_at + 1], 0x01);
    // 0x0333 names no opcode
    bytes[opcode_at] = 0x33;
    bytes[opcode_at + 1] = 0x03;
    let back = Message::read(&bytes).unwrap();
    assert_eq!(back.opcode, OpCode::Unknow);
    // a known family with an unknown action bit is lenient too
    bytes[opcode_at] = 0x40;
    bytes[opcode_at + 1] = 0x01;
    let back = Message::read(&bytes).unwrap();
    assert_eq!(back.opcode, OpCode::Unknow);
}

#[test]
fn declared_length_shorter_than_fields_is_corrupt() {
    let m = sample(3, "target", "origin", OpCode::Watch, vec![1, 2, 3]);
    let mut bytes = m.encode().unwrap();
    // declare fewer bytes than the fixed fields and strings occupy
    bytes[0] = 15;
    bytes[1] = 0;
    bytes[2] = 0;
    bytes[3] = 0;
    assert_eq!(Message::read(&bytes), Err(WireError::CorruptFrame));
}

#[test]
fn truncated_input_is_corrupt() {
    let m = sample(4, "t", "o", OpCode::Suback, vec![1, 2, 3]);
    let bytes = m.encode().unwrap();
    for cut in 0..bytes.len() {
        assert_eq!(Message::read(&bytes[..cut]), Err(WireError::CorruptFrame));
    }
}

#[test]
fn invalid_utf8_in_target_is_corrupt() {
    let m = sample(5, "xx", "o", OpCode::Ping, vec![]);
    let mut bytes = m.encode().unwrap();
    // overwrite the target's bytes with an invalid UTF-8 sequence
    bytes[8] = 0xff;
    bytes[9] = 0xfe;
    assert_eq!(Message::read(&bytes), Err(WireError::CorruptFrame));
}

#[test]
fn reassembly_is_chunking_independent() {
    let msgs = [
        sample(1, "one", "src", OpCode::Publish, vec![1]),
        sample(2, "two", "src", OpCode::Request, (0..100).collect()),
        sample(3, "three", "src", OpCode::Ping, vec![]),
    ];
    let mut stream = Vec::new();
    for m in &msgs {
        m.write(&mut stream);
    }
    // single shot
    let mut one_shot = Connection::new(8);
    one_shot.receive_bytes(&stream);
    let (got, corrupt) = one_shot.drain_messages();
    assert!(!corrupt);
    assert_eq!(got.len(), 3);
    // byte by byte, and a few other chunk sizes: identical messages
    for chunk in [1usize, 2, 7, 13] {
        let mut conn = Connection::new(9);
        let mut collected = Vec::new();
        let mut at = 0;
        while at < stream.len() {
            let end = usize::min(at + chunk, stream.len());
            conn.receive_bytes(&stream[at..end]);
            let (batch, corrupt) = conn.drain_messages();
            assert!(!corrupt);
            collected.extend(batch);
            at = end;
        }
        assert_eq!(collected.len(), got.len());
        for (a, b) in collected.iter().zip(got.iter()) {
            assert_eq!(a.message_id, b.message_id);
            assert_eq!(a.target, b.target);
            assert_eq!(a.origin, b.origin);
            assert_eq!(a.opcode, b.opcode);
            assert_eq!(a.content_type, b.content_type);
            assert_eq!(a.body, b.body);
        }
    }
}

#[test]
fn partial_frame_stays_pending() {
    let m = sample(6, "t", "o", OpCode::Connack, vec![1, 2, 3]);
    let bytes = m.encode().unwrap();
    let mut conn = Connection::new(8);
    conn.receive_bytes(&bytes[..bytes.len() - 1]);
    assert!(matches!(conn.next_message(), FrameStep::Pending));
    conn.receive_bytes(&bytes[bytes.len() - 1..]);
    match conn.next_message() {
        FrameStep::Message(back) => assert_eq!(back.message_id, 6),
        _ => panic!("expected a message"),
    }
}

#[test]
fn impossible_declared_length_is_corrupt_stream() {
    let mut conn = Connection::new(8);
    // declares a 10-byte total: below any well-formed frame
    conn.receive_bytes(&[10, 0, 0, 0]);
    assert!(matches!(conn.next_message(), FrameStep::Corrupt));
}

#[test]
fn enqueue_registers_write_interest_and_queues_the_frame() {
    let mut conn = Connection::new(8);
    assert!(!conn.write_interest());
    let m = sample(7, "t", "o", OpCode::Response, vec![1, 2]);
    conn.enqueue(&m).unwrap();
    assert!(conn.write_interest());
    let queued = conn.writable_bytes().to_vec();
    assert_eq!(queued, m.encode().unwrap());
    // partial write keeps interest, full drain withdraws it
    conn.mark_written(5);
    assert!(conn.write_interest());
    assert_eq!(conn.writable_bytes(), &queued[5..]);
    conn.mark_written(queued.len());
    assert!(!conn.write_interest());
    assert!(conn.writable_bytes().is_empty());
}
