use httq::QuantumIdentity;

#[test]
fn test_identity_generation() {
    let qik = QuantumIdentity::from_public_key("wakanda_public_key");
    assert_eq!(qik.as_str().len(), 64);
}

#[test]
fn derive_matches_known_sha256_vector() {
    let qik = QuantumIdentity::from_public_key("abc");
    assert_eq!(
        qik.as_str(),
        "ba7816bf8f01cfea414140de5dae2223b00361a396177a9cb410ff61f20015ad"
    );
    let same = QuantumIdentity::derive(b"abc");
    assert!(qik == same);
}

#[test]
fn derive_is_deterministic_and_lowercase_hex() {
    let a = QuantumIdentity::from_public_key("alice_pub");
    let b = QuantumIdentity::from_public_key("alice_pub");
    assert!(a == b);
    assert_eq!(a.as_str().len(), 64);
    assert!(a
        .as_str()
        .chars()
        .all(|c| c.is_ascii_digit() || ('a'..='f').contains(&c)));
}

#[test]
fn distinct_keys_give_distinct_identities() {
    let a = QuantumIdentity::from_public_key("alice_pub");
    let b = QuantumIdentity::from_public_key("bob_pub");
    assert!(a != b);
    let empty = QuantumIdentity::derive(b"");
    assert_eq!(
        empty.as_str(),
        "e3b0c44298fc1c149afbf4c8996fb92427ae41e4649b934ca495991b7852b855"
    );
}

#[test]
fn digest_bytes_become_lowercase_hex() {
    let qik = QuantumIdentity::from_digest_bytes(&[0x00, 0xab, 0xff, 0x10]);
    assert_eq!(qik.as_str(), "00abff10");
}

#[test]
fn from_hash_keeps_text_verbatim() {
    let qik = QuantumIdentity::from_hash("Not-A-Digest");
    assert_eq!(qik.as_str(), "Not-A-Digest");
    assert!(qik == QuantumIdentity::from_hash("Not-A-Digest"));
    assert!(qik != QuantumIdentity::from_hash("not-a-digest"));
}

#[test]
fn uri_carries_scheme_tag() {
    let qik = QuantumIdentity::from_hash("abc123");
    assert_eq!(qik.to_uri(), "httq://abc123");
    assert_eq!(qik.duplicate().as_str(), "abc123");
}

#[test]
fn ephemeral_identities_are_fresh_digests() {
    let a = QuantumIdentity::ephemeral();
    let b = QuantumIdentity::ephemeral();
    assert_eq!(a.as_str().len(), 64);
    assert!(a != b);
}
