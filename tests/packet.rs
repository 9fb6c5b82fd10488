use httq::packet::DEFAULT_TTL;
use httq::{HttqError, HttqPacket, QuantumIdentity};

fn sample() -> HttqPacket {
    let dest = QuantumIdentity::from_public_key("bob_pub");
    let origin = QuantumIdentity::from_public_key("alice_pub");
    HttqPacket::new(dest, origin, b"ping".to_vec())
}

fn same_fields(a: &HttqPacket, b: &HttqPacket) -> bool {
    a.version == b.version
        && a.destination == b.destination
        && a.origin == b.origin
        && a.payload == b.payload
        && a.signature == b.signature
        && a.ttl == b.ttl
}

#[test]
fn test_packet_creation() {
    let dest = QuantumIdentity::from_hash("dest_hash");
    let origin = QuantumIdentity::from_hash("origin_hash");
    let packet = HttqPacket::new(dest, origin, b"Hello World".to_vec());
    assert_eq!(packet.version, "1.0");
    assert_eq!(packet.ttl, 64);
}

#[test]
fn new_encodes_payload_as_base64() {
    let dest = QuantumIdentity::from_hash("d");
    let origin = QuantumIdentity::from_hash("o");
    let packet = HttqPacket::new(dest, origin, b"Hello World".to_vec());
    assert_eq!(packet.payload, "SGVsbG8gV29ybGQ=");
    assert_eq!(packet.signature, "UNSIGNED");
    assert_eq!(packet.destination.as_str(), "d");
    assert_eq!(packet.origin.as_str(), "o");
    assert_eq!(DEFAULT_TTL, 64);
}

#[test]
fn build_reports_encryption_failure() {
    let dest = QuantumIdentity::from_hash("d");
    let origin = QuantumIdentity::from_hash("o");
    let r = HttqPacket::build(dest, origin, None);
    assert_eq!(r.err(), Some(HttqError::EncryptionFailure));
    let dest = QuantumIdentity::from_hash("d");
    let origin = QuantumIdentity::from_hash("o");
    let p = HttqPacket::build(dest, origin, Some(vec![1, 2, 3])).unwrap();
    assert_eq!(p.payload, "AQID");
    assert_eq!(p.ttl, 64);
}

#[test]
fn assemble_keeps_payload_text() {
    let p = HttqPacket::assemble(
        QuantumIdentity::from_hash("d"),
        QuantumIdentity::from_hash("o"),
        "cGluZw==".to_string(),
    );
    assert_eq!(p.payload, "cGluZw==");
    assert_eq!(p.version, "1.0");
    assert_eq!(p.signature, "UNSIGNED");
}

#[test]
fn serialize_has_canonical_layout() {
    let mut p = HttqPacket::assemble(
        QuantumIdentity::from_hash("d"),
        QuantumIdentity::from_hash("o"),
        "AQ==".to_string(),
    );
    p.ttl = 7;
    let mut expected: Vec<u8> = Vec::new();
    expected.extend_from_slice(b"1.0\xff");
    expected.extend_from_slice(b"d\xff");
    expected.extend_from_slice(b"o\xff");
    expected.extend_from_slice(b"AQ==\xff");
    expected.push(7);
    assert_eq!(p.signing_bytes(), expected);
    expected.extend_from_slice(b"UNSIGNED\xff");
    assert_eq!(p.serialize(), expected);
}

#[test]
fn round_trip_restores_packet() {
    let mut p = sample();
    p.sign(Some(vec![0xde, 0xad, 0xbe, 0xef])).unwrap();
    p.ttl = 0;
    let bytes = p.serialize();
    let q = HttqPacket::deserialize(&bytes).unwrap();
    assert!(same_fields(&p, &q));
    p.ttl = 255;
    let q = HttqPacket::deserialize(&p.serialize()).unwrap();
    assert!(same_fields(&p, &q));
}

#[test]
fn deserialize_rejects_empty_and_truncated() {
    assert_eq!(
        HttqPacket::deserialize(&[]).err(),
        Some(HttqError::MalformedPacket)
    );
    let bytes = sample().serialize();
    for cut in [1usize, 4, bytes.len() - 1] {
        assert_eq!(
            HttqPacket::deserialize(&bytes[..bytes.len() - cut]).err(),
            Some(HttqError::MalformedPacket)
        );
    }
}

#[test]
fn deserialize_rejects_unknown_version() {
    let mut p = sample();
    p.version = "2.0".to_string();
    assert_eq!(
        HttqPacket::deserialize(&p.serialize()).err(),
        Some(HttqError::MalformedPacket)
    );
}

#[test]
fn deserialize_rejects_trailing_and_non_ascii_bytes() {
    let mut bytes = sample().serialize();
    bytes.push(0);
    assert_eq!(
        HttqPacket::deserialize(&bytes).err(),
        Some(HttqError::MalformedPacket)
    );
    let mut p = sample();
    p.payload = "caf\u{e9}".to_string();
    assert_eq!(
        HttqPacket::deserialize(&p.serialize()).err(),
        Some(HttqError::MalformedPacket)
    );
}

#[test]
fn sign_stores_hex_and_keeps_signed_range() {
    let mut p = sample();
    let before = p.signing_bytes();
    assert_eq!(p.sign(Some(vec![0x01, 0xab])), Ok(()));
    assert_eq!(p.signature, "01ab");
    assert_eq!(p.signing_bytes(), before);
    assert_eq!(p.sign(Some(vec![0xff])), Ok(()));
    assert_eq!(p.signature, "ff");
}

#[test]
fn sign_reports_signing_failure_and_keeps_packet() {
    let mut p = sample();
    assert_eq!(p.sign(None), Err(HttqError::SigningFailure));
    assert_eq!(p.signature, "UNSIGNED");
}

#[test]
fn signed_range_changes_with_each_signed_field() {
    let p = sample();
    let base = p.signing_bytes();
    let mut q = p.clone();
    q.ttl = 63;
    assert_ne!(q.signing_bytes(), base);
    let mut q = p.clone();
    q.version = "1.1".to_string();
    assert_ne!(q.signing_bytes(), base);
    let mut q = p.clone();
    q.payload = "cGlug==".to_string();
    assert_ne!(q.signing_bytes(), base);
    let mut q = p.clone();
    q.destination = QuantumIdentity::from_public_key("carol_pub");
    assert_ne!(q.signing_bytes(), base);
    let mut q = p.clone();
    q.signature = "00".to_string();
    assert_eq!(q.signing_bytes(), base);
}
