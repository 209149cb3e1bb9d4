//! Wire-format behaviour: varint and frame round trips, the frame size
//! limit, and the canonical message, certificate and block encodings.

use ephemera::block::{
    decode_block, encode_block, seal_hash, ApiEphemeraMessage, Block, BlockHeader,
    RawApiEphemeraMessage,
};
use ephemera::certificate::{decode_certificate, encode_certificate, Certificate};
use ephemera::digest::{fnv1a_hash, message_digest};
use ephemera::discovery::{decode_protocol_message, encode_protocol_message, ProtocolMessage};
use ephemera::framing::{
    read_frame, read_varint, write_frame, write_varint, CodecError, DEFAULT_MAX_FRAME,
};
use ephemera::peer::PeerId;
use ephemera::wire::{decode_msg, encode_msg, RbMsg, RbPayload};

fn peer(bytes: &[u8]) -> PeerId {
    PeerId { bytes: bytes.to_vec() }
}

#[test]
fn varint_round_trip_values() {
    for v in [0u64, 1, 127, 128, 300, 16384, u64::MAX] {
        let mut buf = Vec::new();
        write_varint(&mut buf, v);
        let (got, next) = read_varint(&buf, 0).expect("a written varint reads back");
        assert_eq!(got, v);
        assert_eq!(next, buf.len());
    }
}

#[test]
fn varint_single_byte_encoding() {
    let mut buf = Vec::new();
    write_varint(&mut buf, 5);
    assert_eq!(buf, vec![5u8]);
    let mut buf2 = Vec::new();
    write_varint(&mut buf2, 300);
    assert_eq!(buf2, vec![0xAC, 0x02]);
}

#[test]
fn frame_round_trip() {
    let data = vec![1u8, 2, 3, 4, 5];
    let mut buf = Vec::new();
    write_frame(&mut buf, &data);
    let (payload, next) = read_frame(&buf, 0, DEFAULT_MAX_FRAME)
        .expect("no error")
        .expect("complete frame");
    assert_eq!(payload, data);
    assert_eq!(next, buf.len());
}

#[test]
fn frame_at_exactly_max_size_passes() {
    let max = 64usize;
    let data = vec![7u8; max];
    let mut buf = Vec::new();
    write_frame(&mut buf, &data);
    let got = read_frame(&buf, 0, max).expect("no error").expect("complete frame");
    assert_eq!(got.0.len(), max);
}

#[test]
fn frame_over_max_size_fails_with_frame_too_large() {
    let max = 64usize;
    let data = vec![7u8; max + 1];
    let mut buf = Vec::new();
    write_frame(&mut buf, &data);
    assert_eq!(read_frame(&buf, 0, max), Err(CodecError::FrameTooLarge));
}

#[test]
fn declared_length_two_to_the_24_is_refused() {
    // a frame header declaring 2^24 bytes on a reader capped at 1 MiB
    let mut buf = Vec::new();
    write_varint(&mut buf, 1 << 24);
    assert_eq!(read_frame(&buf, 0, DEFAULT_MAX_FRAME), Err(CodecError::FrameTooLarge));
}

#[test]
fn declared_length_over_64_bits_is_refused() {
    // ten continuation bytes and a terminator declare a length far over
    // 64 bits: over any limit, so the reader errs instead of waiting
    let mut buf = vec![0xFFu8; 10];
    buf.push(0x7F);
    assert_eq!(read_frame(&buf, 0, DEFAULT_MAX_FRAME), Err(CodecError::FrameTooLarge));
}

#[test]
fn incomplete_frame_reads_as_none() {
    let mut buf = Vec::new();
    write_varint(&mut buf, 10);
    buf.push(1);
    buf.push(2);
    assert_eq!(read_frame(&buf, 0, DEFAULT_MAX_FRAME), Ok(None));
}

fn sample_msg(payload: RbPayload) -> RbMsg {
    RbMsg {
        id: b"00000000-0000-4000-8000-000000000001".to_vec(),
        node_id: peer(b"node-a"),
        timestamp_secs: 1700000000,
        timestamp_nanos: 123456789,
        custom_message_id: b"epoch-1".to_vec(),
        payload,
    }
}

fn assert_msg_eq(a: &RbMsg, b: &RbMsg) {
    assert_eq!(a.id, b.id);
    assert_eq!(a.node_id.bytes, b.node_id.bytes);
    assert_eq!(a.timestamp_secs, b.timestamp_secs);
    assert_eq!(a.timestamp_nanos, b.timestamp_nanos);
    assert_eq!(a.custom_message_id, b.custom_message_id);
    match (&a.payload, &b.payload) {
        (RbPayload::PrePrepare { payload: x }, RbPayload::PrePrepare { payload: y }) => {
            assert_eq!(x, y)
        }
        (RbPayload::Prepare { digest: x }, RbPayload::Prepare { digest: y }) => assert_eq!(x, y),
        (
            RbPayload::Commit { digest: x, signature: sx },
            RbPayload::Commit { digest: y, signature: sy },
        ) => {
            assert_eq!(x, y);
            assert_eq!(sx, sy);
        }
        _ => panic!("payload variants differ"),
    }
}

#[test]
fn rb_msg_round_trip_pre_prepare() {
    let m = sample_msg(RbPayload::PrePrepare { payload: b"hello".to_vec() });
    let enc = encode_msg(&m);
    let (back, used) = decode_msg(&enc, 0).expect("decodes");
    assert_eq!(used, enc.len());
    assert_msg_eq(&m, &back);
}

#[test]
fn rb_msg_round_trip_prepare_and_commit() {
    let m = sample_msg(RbPayload::Prepare { digest: 42 });
    let enc = encode_msg(&m);
    let (back, _) = decode_msg(&enc, 0).expect("decodes");
    assert_msg_eq(&m, &back);

    let m2 = sample_msg(RbPayload::Commit { digest: 42, signature: vec![9u8; 64] });
    let enc2 = encode_msg(&m2);
    let (back2, _) = decode_msg(&enc2, 0).expect("decodes");
    assert_msg_eq(&m2, &back2);
}

#[test]
fn truncated_msg_fails_to_decode() {
    let m = sample_msg(RbPayload::Prepare { digest: 42 });
    let mut enc = encode_msg(&m);
    enc.pop();
    assert!(decode_msg(&enc, 0).is_none());
}

#[test]
fn certificate_round_trip() {
    let mut cert = Certificate::empty();
    assert!(cert.add_signature(&peer(b"node-a"), vec![1u8, 2, 3]));
    assert!(cert.add_signature(&peer(b"node-b"), vec![4u8, 5]));
    let enc = encode_certificate(&cert);
    let (back, used) = decode_certificate(&enc, 0).expect("decodes");
    assert_eq!(used, enc.len());
    assert_eq!(back.entries.len(), 2);
    assert_eq!(back.entries[0].0.bytes, b"node-a".to_vec());
    assert_eq!(back.entries[0].1, vec![1u8, 2, 3]);
    assert_eq!(back.entries[1].0.bytes, b"node-b".to_vec());
    assert_eq!(back.entries[1].1, vec![4u8, 5]);
}

#[test]
fn block_round_trip() {
    let raw = RawApiEphemeraMessage {
        id: b"id-1".to_vec(),
        node_id: peer(b"node-a"),
        custom_message_id: b"tag".to_vec(),
        payload: b"tx-A".to_vec(),
    };
    let mut cert = Certificate::empty();
    assert!(cert.add_signature(&peer(b"node-a"), vec![7u8; 8]));
    let msg = ApiEphemeraMessage { message: raw, certificate: cert };
    let mut header = BlockHeader {
        height: 3,
        previous_hash: 99,
        hash: 0,
        timestamp: 1700000001,
        proposer: peer(b"node-a"),
    };
    let messages = vec![msg];
    header.hash = seal_hash(&header, &messages);
    let b = Block { header, messages };
    let enc = encode_block(&b);
    let (back, used) = decode_block(&enc, 0).expect("decodes");
    assert_eq!(used, enc.len());
    assert_eq!(back.header.height, 3);
    assert_eq!(back.header.previous_hash, 99);
    assert_eq!(back.header.hash, b.header.hash);
    assert_eq!(back.header.timestamp, 1700000001);
    assert_eq!(back.header.proposer.bytes, b"node-a".to_vec());
    assert_eq!(back.messages.len(), 1);
    assert_eq!(back.messages[0].message.payload, b"tx-A".to_vec());
    assert_eq!(back.messages[0].certificate.entries.len(), 1);
}

#[test]
fn digest_is_deterministic_and_field_sensitive() {
    let payload = b"hello".to_vec();
    let orig = b"node-a".to_vec();
    let tag = b"epoch-1".to_vec();
    let d1 = message_digest(&payload, &orig, &tag);
    let d2 = message_digest(&payload, &orig, &tag);
    assert_eq!(d1, d2);
    let d3 = message_digest(&b"hellp".to_vec(), &orig, &tag);
    assert_ne!(d1, d3);
}

#[test]
fn fnv_hash_of_empty_input_is_the_offset_basis() {
    assert_eq!(fnv1a_hash(&Vec::new()), 0xcbf29ce484222325);
}

#[test]
fn peer_discovery_sync_round_trip() {
    let enc = encode_protocol_message(&ProtocolMessage::Sync);
    let got = decode_protocol_message(&enc, 0).expect("no error").expect("complete");
    assert_eq!(got.0, ProtocolMessage::Sync);
    assert_eq!(got.1, enc.len());
}

#[test]
fn peer_discovery_unknown_body_is_malformed() {
    let mut buf = Vec::new();
    write_frame(&mut buf, &b"\"Ping\"".to_vec());
    assert_eq!(decode_protocol_message(&buf, 0), Err(CodecError::Malformed));
}
