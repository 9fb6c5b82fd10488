//! Quantum Identity Keys: the address of a peer is the digest of its public key.
use vstd::prelude::*;
use sha2::Digest;
use vstd::string::{StringExecFns, StringSliceAdditionalSpecFns};

use crate::hexenc::{hex_of, is_lower_hex, lemma_hex_injective, lemma_hex_shape};

verus! {

/// What SHA-256 yields for the given bytes.
pub uninterp spec fn sha256_of(data: Seq<u8>) -> Seq<u8>;

/// Relies on sha2's `Sha256::digest`: the 32-byte digest of the input, which
/// depends on the input alone.
#[verifier::external_body]
fn sha256(data: &[u8]) -> (r: Vec<u8>)
    ensures
        r@ == sha256_of(data@),
        r@.len() == 32,
{
    sha2::Sha256::digest(data).to_vec()
}

/// Relies on hex's `encode`: two lowercase digits per byte, high nibble first.
#[verifier::external_body]
pub(crate) fn hex_encode(data: &[u8]) -> (r: String)
    ensures
        r@ == hex_of(data@),
{
    hex::encode(data)
}

/// Relies on uuid's `Uuid::new_v4`: sixteen freshly drawn bytes.
#[verifier::external_body]
fn fresh_uuid_bytes() -> (r: Vec<u8>)
    ensures
        r@.len() == 16,
{
    uuid::Uuid::new_v4().as_bytes().to_vec()
}

/// The identity text that a public key yields.
pub open spec fn derive_spec(public_key: Seq<u8>) -> Seq<char> {
    hex_of(sha256_of(public_key))
}

/// A Quantum Identity Key: the digest text that addresses a peer.
#[derive(Debug, Clone, Hash)]
pub struct QuantumIdentity(String);

impl View for QuantumIdentity {
    type V = Seq<char>;

    closed spec fn view(&self) -> Seq<char> {
        self.0@
    }
}

impl PartialEq for QuantumIdentity {
    fn eq(&self, other: &QuantumIdentity) -> (r: bool)
        ensures
            r == (self@ == other@),
    {
        self.0 == other.0
    }
}

impl Eq for QuantumIdentity {
}

impl vstd::std_specs::cmp::PartialEqSpecImpl for QuantumIdentity {
    open spec fn obeys_eq_spec() -> bool {
        true
    }

    open spec fn eq_spec(&self, other: &QuantumIdentity) -> bool {
        self@ == other@
    }
}

impl QuantumIdentity {
    /// The identity of a public key given as raw bytes: the SHA-256 digest
    /// of the bytes, as 64 lowercase hexadecimal digits.
    pub fn derive(public_key: &[u8]) -> (r: QuantumIdentity)
        ensures
            r@ == derive_spec(public_key@),
            r@.len() == 64,
            is_lower_hex(r@),
    {
        let digest = sha256(public_key);
        QuantumIdentity::from_digest_bytes(digest.as_slice())
    }

    /// The identity whose text is the lowercase hex form of the given digest.
    pub fn from_digest_bytes(digest: &[u8]) -> (r: QuantumIdentity)
        ensures
            r@ == hex_of(digest@),
            r@.len() == 2 * digest@.len(),
            is_lower_hex(r@),
    {
        proof {
            lemma_hex_shape(digest@);
        }
        QuantumIdentity(hex_encode(digest))
    }

    /// The identity of a public key given as text: `derive` over its UTF-8 bytes.
    pub fn from_public_key(key: &str) -> (r: QuantumIdentity)
        ensures
            r@ == derive_spec(key.spec_bytes()),
            r@.len() == 64,
            is_lower_hex(r@),
    {
        QuantumIdentity::derive(key.as_bytes())
    }

    /// Wraps a digest text verbatim, without hashing or checking it.
    ///
    /// The text is not verified in any way: use this only where its
    /// provenance is otherwise established, for example when it arrived
    /// alongside a verified signature chain.
    pub fn from_hash(hash: &str) -> (r: QuantumIdentity)
        ensures
            r@ == hash@,
    {
        QuantumIdentity(hash.to_owned())
    }

    /// A fresh, unlinkable identity, derived from sixteen random bytes.
    pub fn ephemeral() -> (r: QuantumIdentity)
        ensures
            exists|seed: Seq<u8>| seed.len() == 16 && r@ == #[trigger] derive_spec(seed),
            r@.len() == 64,
            is_lower_hex(r@),
    {
        let seed = fresh_uuid_bytes();
        QuantumIdentity::derive(seed.as_slice())
    }

    /// The digest text.
    pub fn as_str(&self) -> (r: &str)
        ensures
            r@ == self@,
    {
        self.0.as_str()
    }

    /// The same identity, as a value of its own.
    pub fn duplicate(&self) -> (r: QuantumIdentity)
        ensures
            r@ == self@,
    {
        QuantumIdentity(self.0.clone())
    }

    /// The display form: the scheme tag followed by the digest text.
    pub fn to_uri(&self) -> (r: String)
        ensures
            r@ == "httq://"@ + self@,
    {
        let s = String::from_str("httq://");
        s.concat(self.0.as_str())
    }
}

/// Two public keys yield the same identity only if SHA-256 gives them the same
/// digest: hex text is one-to-one, so distinct digests stay distinct
/// identities.
pub proof fn lemma_derive_separates_digests(k1: Seq<u8>, k2: Seq<u8>)
    requires
        sha256_of(k1) != sha256_of(k2),
    ensures
        derive_spec(k1) != derive_spec(k2),
{
    if derive_spec(k1) == derive_spec(k2) {
        lemma_hex_injective(sha256_of(k1), sha256_of(k2));
    }
}

} // verus!
