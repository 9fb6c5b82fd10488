//! The wire packet: construction, signing, and its canonical byte form.
use vstd::prelude::*;
use vstd::string::StringExecFns;
use vstd::utf8::{encode_utf8, is_ascii_chars, is_ascii_chars_encode_utf8};

use crate::hexenc::hex_of;
use crate::identity::{hex_encode, QuantumIdentity};

verus! {

/// The hop budget of a freshly built packet.
pub const DEFAULT_TTL: u8 = 64;

/// Ends each text field on the wire; UTF-8 text never holds this byte.
pub const FIELD_END: u8 = 255;

/// What base64's standard engine yields for the given bytes.
pub uninterp spec fn base64_of(data: Seq<u8>) -> Seq<char>;

/// Relies on base64's `encode` (standard alphabet, padded): the text depends on
/// the bytes alone and is made of ASCII characters.
#[verifier::external_body]
fn base64_encode(data: &[u8]) -> (r: String)
    ensures
        r@ == base64_of(data@),
        is_ascii_chars(r@),
{
    #[allow(deprecated)]
    base64::encode(data)
}

/// Relies on `String::push`: the character is appended at the end.
#[verifier::external_body]
fn push_char(s: &mut String, c: char)
    ensures
        final(s)@ == old(s)@.push(c),
{
    s.push(c)
}

/// The failures that the codec and the signing step report.
#[derive(Debug, Clone, Copy, PartialEq, Eq, Structural)]
pub enum HttqError {
    /// The bytes are no encoding of a well-formed packet.
    MalformedPacket,
    /// The signing capability produced no signature.
    SigningFailure,
    /// The encryption capability produced no ciphertext.
    EncryptionFailure,
    /// The decryption capability produced no plaintext.
    DecryptionFailure,
}

/// The fundamental unit of transfer.
#[derive(Debug, Clone)]
pub struct HttqPacket {
    /// Protocol version.
    pub version: String,
    /// Identity of the addressee.
    pub destination: QuantumIdentity,
    /// Identity of the sender (possibly ephemeral).
    pub origin: QuantumIdentity,
    /// Encrypted payload, base64-encoded.
    pub payload: String,
    /// Signature over the signed range, as hex text; a sentinel until signed.
    pub signature: String,
    /// Remaining hop budget.
    pub ttl: u8,
}

/// A text field on the wire: its UTF-8 bytes, then the terminator.
pub open spec fn field(s: Seq<char>) -> Seq<u8> {
    encode_utf8(s).push(FIELD_END)
}

/// The bytes that a signature covers: every field but the signature, in
/// signing order.
pub open spec fn signed_range(p: HttqPacket) -> Seq<u8> {
    field(p.version@) + field(p.destination@) + field(p.origin@) + field(p.payload@) + seq![p.ttl]
}

/// The canonical byte form: the signed range, then the signature field.
pub open spec fn encoding(p: HttqPacket) -> Seq<u8> {
    signed_range(p) + field(p.signature@)
}

/// The packet's fields, as values.
pub open spec fn packet_fields(p: HttqPacket) -> (Seq<char>, Seq<char>, Seq<char>, Seq<char>, Seq<char>, u8) {
    (p.version@, p.destination@, p.origin@, p.payload@, p.signature@, p.ttl)
}

/// The version text that this protocol recognises.
pub open spec fn recognised_version(v: Seq<char>) -> bool {
    v == "1.0"@
}

/// Every text field of the packet is ASCII.
pub open spec fn ascii_fields(p: HttqPacket) -> bool {
    &&& is_ascii_chars(p.version@)
    &&& is_ascii_chars(p.destination@)
    &&& is_ascii_chars(p.origin@)
    &&& is_ascii_chars(p.payload@)
    &&& is_ascii_chars(p.signature@)
}

/// A packet that the wire form can carry: a recognised version and ASCII text.
pub open spec fn well_formed(p: HttqPacket) -> bool {
    recognised_version(p.version@) && ascii_fields(p)
}

/// What decoding owes: the packet that the bytes encode, or `MalformedPacket`
/// exactly when no well-formed packet is encoded by them.
pub open spec fn decodes_to(bytes: Seq<u8>, r: Result<HttqPacket, HttqError>) -> bool {
    match r {
        Ok(p) => well_formed(p) && encoding(p) == bytes,
        Err(e) => e == HttqError::MalformedPacket && forall|q: HttqPacket|
            well_formed(q) ==> #[trigger] encoding(q) != bytes,
    }
}

/// The text `s` stands as a field at `start` in `b`.
pub open spec fn field_at(b: Seq<u8>, start: int, s: Seq<char>) -> bool {
    &&& 0 <= start
    &&& start + s.len() + 1 <= b.len()
    &&& b.subrange(start, start + s.len() + 1) == field(s)
}

proof fn lemma_ascii_field(s: Seq<char>)
    requires
        is_ascii_chars(s),
    ensures
        field(s).len() == s.len() + 1,
        field(s)[s.len() as int] == FIELD_END,
        forall|i: int| 0 <= i < s.len() ==> #[trigger] field(s)[i] == s[i] as u8,
        forall|i: int| 0 <= i < s.len() ==> (#[trigger] field(s)[i]) < 128,
{
    is_ascii_chars_encode_utf8(s);
}

/// At a given place, at most one ASCII text stands as a field.
proof fn lemma_field_unique(b: Seq<u8>, start: int, s: Seq<char>, t: Seq<char>)
    requires
        is_ascii_chars(s),
        is_ascii_chars(t),
        field_at(b, start, s),
        field_at(b, start, t),
    ensures
        s == t,
{
    lemma_ascii_field(s);
    lemma_ascii_field(t);
    if s.len() < t.len() {
        assert(b[start + s.len()] == field(s)[s.len() as int]);
        assert(b[start + s.len()] == field(t)[s.len() as int]);
    } else if t.len() < s.len() {
        assert(b[start + t.len()] == field(t)[t.len() as int]);
        assert(b[start + t.len()] == field(s)[t.len() as int]);
    } else {
        assert forall|i: int| 0 <= i < s.len() implies s[i] == t[i] by {
            assert(b[start + i] == field(s)[i]);
            assert(b[start + i] == field(t)[i]);
        }
        assert(s =~= t);
    }
}

/// Appends bytes at the end of a buffer.
fn append_bytes(out: &mut Vec<u8>, src: &[u8])
    ensures
        final(out)@ == old(out)@ + src@,
{
    let mut i: usize = 0;
    while i < src.len()
        invariant
            i <= src@.len(),
            out@ == old(out)@ + src@.subrange(0, i as int),
        decreases src@.len() - i,
    {
        out.push(src[i]);
        i = i + 1;
        assert(src@.subrange(0, i as int) =~= src@.subrange(0, i - 1 as int).push(src@[i - 1]));
    }
    assert(src@.subrange(0, i as int) =~= src@);
}

/// Appends a text field: its UTF-8 bytes, then the terminator.
fn append_field(out: &mut Vec<u8>, s: &String)
    ensures
        final(out)@ == old(out)@ + field(s@),
{
    append_bytes(out, s.as_str().as_bytes());
    out.push(FIELD_END);
}

/// Reads the ASCII text field that starts at `start`, if one does.
fn read_field(bytes: &[u8], start: usize) -> (r: Option<(String, usize)>)
    requires
        start <= bytes@.len(),
    ensures
        match r {
            Some((s, next)) => {
                &&& is_ascii_chars(s@)
                &&& next == start + s@.len() + 1
                &&& field_at(bytes@, start as int, s@)
            },
            None => forall|s: Seq<char>|
                is_ascii_chars(s) ==> !#[trigger] field_at(bytes@, start as int, s),
        },
{
    let mut text = String::new();
    let mut i: usize = start;
    while i < bytes.len() && bytes[i] != FIELD_END
        invariant
            start <= i <= bytes@.len(),
            text@.len() == i - start,
            is_ascii_chars(text@),
            forall|k: int| start <= k < i ==> bytes@[k] < 128,
            forall|k: int| 0 <= k < text@.len() ==> #[trigger] text@[k] as u8 == bytes@[start + k],
        decreases bytes@.len() - i,
    {
        let b = bytes[i];
        if b >= 128 {
            proof {
                assert forall|s: Seq<char>| is_ascii_chars(s) implies !#[trigger] field_at(
                    bytes@,
                    start as int,
                    s,
                ) by {
                    if field_at(bytes@, start as int, s) {
                        lemma_ascii_field(s);
                        let k = i - start;
                        if k < s.len() {
                            assert(bytes@[i as int] == field(s)[k]);
                        } else {
                            assert(bytes@[start + s.len()] == field(s)[s.len() as int]);
                        }
                    }
                }
            }
            return None;
        }
        push_char(&mut text, b as char);
        i = i + 1;
    }
    if i == bytes.len() {
        proof {
            assert forall|s: Seq<char>| is_ascii_chars(s) implies !#[trigger] field_at(
                bytes@,
                start as int,
                s,
            ) by {
                if field_at(bytes@, start as int, s) {
                    lemma_ascii_field(s);
                    assert(bytes@[start + s.len()] == field(s)[s.len() as int]);
                }
            }
        }
        return None;
    }
    proof {
        lemma_ascii_field(text@);
        assert(bytes@.subrange(start as int, i + 1) =~= field(text@));
    }
    Some((text, i + 1))
}

/// Where each field of a well-formed packet stands in its byte form.
proof fn lemma_encoding_layout(q: HttqPacket)
    requires
        ascii_fields(q),
    ensures
        ({
            let b = encoding(q);
            let n1 = q.version@.len() + 1int;
            let n2 = n1 + q.destination@.len() + 1int;
            let n3 = n2 + q.origin@.len() + 1int;
            let n4 = n3 + q.payload@.len() + 1int;
            &&& field_at(b, 0, q.version@)
            &&& field_at(b, n1, q.destination@)
            &&& field_at(b, n2, q.origin@)
            &&& field_at(b, n3, q.payload@)
            &&& n4 < b.len()
            &&& b[n4] == q.ttl
            &&& field_at(b, n4 + 1, q.signature@)
            &&& b.len() == n4 + 1 + q.signature@.len() + 1
        }),
{
    lemma_ascii_field(q.version@);
    lemma_ascii_field(q.destination@);
    lemma_ascii_field(q.origin@);
    lemma_ascii_field(q.payload@);
    lemma_ascii_field(q.signature@);
    let b = encoding(q);
    let fv = field(q.version@);
    let fd = field(q.destination@);
    let fo = field(q.origin@);
    let fp = field(q.payload@);
    let fs = field(q.signature@);
    let n1 = q.version@.len() + 1int;
    let n2 = n1 + q.destination@.len() + 1int;
    let n3 = n2 + q.origin@.len() + 1int;
    let n4 = n3 + q.payload@.len() + 1int;
    assert(b =~= fv + fd + fo + fp + seq![q.ttl] + fs);
    assert(b.subrange(0, n1) =~= fv);
    assert(b.subrange(n1, n2) =~= fd);
    assert(b.subrange(n2, n3) =~= fo);
    assert(b.subrange(n3, n4) =~= fp);
    assert(b.subrange(n4 + 1, b.len() as int) =~= fs);
}

/// Two packets with ASCII text and the same byte form agree on every field.
proof fn lemma_encoding_injective(p: HttqPacket, q: HttqPacket)
    requires
        ascii_fields(p),
        ascii_fields(q),
        encoding(p) == encoding(q),
    ensures
        packet_fields(p) == packet_fields(q),
{
    let b = encoding(p);
    lemma_encoding_layout(p);
    lemma_encoding_layout(q);
    lemma_field_unique(b, 0, p.version@, q.version@);
    let n1 = p.version@.len() + 1int;
    lemma_field_unique(b, n1, p.destination@, q.destination@);
    let n2 = n1 + p.destination@.len() + 1int;
    lemma_field_unique(b, n2, p.origin@, q.origin@);
    let n3 = n2 + p.origin@.len() + 1int;
    lemma_field_unique(b, n3, p.payload@, q.payload@);
    let n4 = n3 + p.payload@.len() + 1int;
    lemma_field_unique(b, n4 + 1, p.signature@, q.signature@);
}

/// Decoding the byte form of a well-formed packet gives back that packet,
/// field for field.
pub proof fn lemma_round_trip(p: HttqPacket, r: Result<HttqPacket, HttqError>)
    requires
        well_formed(p),
        decodes_to(encoding(p), r),
    ensures
        r matches Ok(q) && packet_fields(q) == packet_fields(p),
{
    match r {
        Ok(q) => {
            lemma_encoding_injective(p, q);
        },
        Err(_) => {
            assert(encoding(p) != encoding(p));
        },
    }
}

/// The signed range covers version, destination, origin, payload and TTL:
/// for packets with ASCII text, two signed ranges are equal exactly when those
/// five fields are, so a change to any one of them changes the signed bytes.
/// The signature field takes no part in it.
pub proof fn lemma_signed_range_covers(p: HttqPacket, q: HttqPacket)
    requires
        ascii_fields(p),
        ascii_fields(q),
    ensures
        signed_range(p) == signed_range(q) <==> {
            &&& p.version@ == q.version@
            &&& p.destination@ == q.destination@
            &&& p.origin@ == q.origin@
            &&& p.payload@ == q.payload@
            &&& p.ttl == q.ttl
        },
{
    if signed_range(p) == signed_range(q) {
        let q2 = HttqPacket { signature: p.signature, ..q };
        assert(signed_range(q2) == signed_range(q));
        assert(encoding(q2) == encoding(p));
        lemma_encoding_injective(p, q2);
    }
}

impl HttqPacket {
    /// A new unsigned packet: version "1.0", the base64 text of the payload
    /// bytes, the unsigned sentinel, and the default hop budget.
    pub fn new(dest: QuantumIdentity, origin: QuantumIdentity, payload: Vec<u8>) -> (r: HttqPacket)
        ensures
            r.version@ == "1.0"@,
            r.destination@ == dest@,
            r.origin@ == origin@,
            r.payload@ == base64_of(payload@),
            r.signature@ == "UNSIGNED"@,
            r.ttl == DEFAULT_TTL,
    {
        let payload_text = base64_encode(payload.as_slice());
        HttqPacket::assemble(dest, origin, payload_text)
    }

    /// A new unsigned packet around payload text that is already encoded:
    /// version "1.0", the unsigned sentinel, and the default hop budget.
    pub fn assemble(dest: QuantumIdentity, origin: QuantumIdentity, payload: String) -> (r: HttqPacket)
        ensures
            r.version@ == "1.0"@,
            r.destination@ == dest@,
            r.origin@ == origin@,
            r.payload@ == payload@,
            r.signature@ == "UNSIGNED"@,
            r.ttl == DEFAULT_TTL,
    {
        HttqPacket {
            version: String::from_str("1.0"),
            destination: dest,
            origin,
            payload,
            signature: String::from_str("UNSIGNED"),
            ttl: DEFAULT_TTL,
        }
    }

    /// Builds an unsigned packet from what the encryption capability returned:
    /// the ciphertext, or nothing where it failed.
    pub fn build(dest: QuantumIdentity, origin: QuantumIdentity, ciphertext: Option<Vec<u8>>) -> (r:
        Result<HttqPacket, HttqError>)
        ensures
            match ciphertext {
                None => r == Err::<HttqPacket, HttqError>(HttqError::EncryptionFailure),
                Some(c) => r matches Ok(p) && {
                    &&& p.version@ == "1.0"@
                    &&& p.destination@ == dest@
                    &&& p.origin@ == origin@
                    &&& p.payload@ == base64_of(c@)
                    &&& p.signature@ == "UNSIGNED"@
                    &&& p.ttl == DEFAULT_TTL
                },
            },
    {
        match ciphertext {
            None => Err(HttqError::EncryptionFailure),
            Some(c) => Ok(HttqPacket::new(dest, origin, c)),
        }
    }

    /// Reads a packet from its canonical byte form. Fails with
    /// `MalformedPacket` exactly when the bytes encode no well-formed packet:
    /// a field is missing or not ASCII, the version is not recognised, or
    /// bytes are left over.
    pub fn deserialize(bytes: &[u8]) -> (r: Result<HttqPacket, HttqError>)
        ensures
            decodes_to(bytes@, r),
    {
        let b = Ghost(bytes@);
        let (version, after_version) = match read_field(bytes, 0) {
            Some(x) => x,
            None => {
                proof {
                    assert forall|q: HttqPacket| well_formed(q) implies #[trigger] encoding(q) != b@ by {
                        if encoding(q) == b@ {
                            lemma_encoding_layout(q);
                        }
                    }
                }
                return Err(HttqError::MalformedPacket);
            },
        };
        let known = String::from_str("1.0");
        let version_ok = version == known;
        if !version_ok {
            proof {
                assert forall|q: HttqPacket| well_formed(q) implies #[trigger] encoding(q) != b@ by {
                    if encoding(q) == b@ {
                        lemma_encoding_layout(q);
                        lemma_field_unique(b@, 0, version@, q.version@);
                    }
                }
            }
            return Err(HttqError::MalformedPacket);
        }
        let (destination, after_dest) = match read_field(bytes, after_version) {
            Some(x) => x,
            None => {
                proof {
                    assert forall|q: HttqPacket| well_formed(q) implies #[trigger] encoding(q) != b@ by {
                        if encoding(q) == b@ {
                            lemma_encoding_layout(q);
                            lemma_field_unique(b@, 0, version@, q.version@);
                        }
                    }
                }
                return Err(HttqError::MalformedPacket);
            },
        };
        let (origin, after_origin) = match read_field(bytes, after_dest) {
            Some(x) => x,
            None => {
                proof {
                    assert forall|q: HttqPacket| well_formed(q) implies #[trigger] encoding(q) != b@ by {
                        if encoding(q) == b@ {
                            lemma_encoding_layout(q);
                            lemma_field_unique(b@, 0, version@, q.version@);
                            lemma_field_unique(b@, after_version as int, destination@, q.destination@);
                        }
                    }
                }
                return Err(HttqError::MalformedPacket);
            },
        };
        let (payload, after_payload) = match read_field(bytes, after_origin) {
            Some(x) => x,
            None => {
                proof {
                    assert forall|q: HttqPacket| well_formed(q) implies #[trigger] encoding(q) != b@ by {
                        if encoding(q) == b@ {
                            lemma_encoding_layout(q);
                            lemma_field_unique(b@, 0, version@, q.version@);
                            lemma_field_unique(b@, after_version as int, destination@, q.destination@);
                            lemma_field_unique(b@, after_dest as int, origin@, q.origin@);
                        }
                    }
                }
                return Err(HttqError::MalformedPacket);
            },
        };
        if after_payload >= bytes.len() {
            proof {
                assert forall|q: HttqPacket| well_formed(q) implies #[trigger] encoding(q) != b@ by {
                    if encoding(q) == b@ {
                        lemma_encoding_layout(q);
                        lemma_field_unique(b@, 0, version@, q.version@);
                        lemma_field_unique(b@, after_version as int, destination@, q.destination@);
                        lemma_field_unique(b@, after_dest as int, origin@, q.origin@);
                        lemma_field_unique(b@, after_origin as int, payload@, q.payload@);
                    }
                }
            }
            return Err(HttqError::MalformedPacket);
        }
        let ttl = bytes[after_payload];
        let (signature, end) = match read_field(bytes, after_payload + 1) {
            Some(x) => x,
            None => {
                proof {
                    assert forall|q: HttqPacket| well_formed(q) implies #[trigger] encoding(q) != b@ by {
                        if encoding(q) == b@ {
                            lemma_encoding_layout(q);
                            lemma_field_unique(b@, 0, version@, q.version@);
                            lemma_field_unique(b@, after_version as int, destination@, q.destination@);
                            lemma_field_unique(b@, after_dest as int, origin@, q.origin@);
                            lemma_field_unique(b@, after_origin as int, payload@, q.payload@);
                        }
                    }
                }
                return Err(HttqError::MalformedPacket);
            },
        };
        if end != bytes.len() {
            proof {
                assert forall|q: HttqPacket| well_formed(q) implies #[trigger] encoding(q) != b@ by {
                    if encoding(q) == b@ {
                        lemma_encoding_layout(q);
                        lemma_field_unique(b@, 0, version@, q.version@);
                        lemma_field_unique(b@, after_version as int, destination@, q.destination@);
                        lemma_field_unique(b@, after_dest as int, origin@, q.origin@);
                        lemma_field_unique(b@, after_origin as int, payload@, q.payload@);
                        lemma_field_unique(b@, after_payload + 1, signature@, q.signature@);
                    }
                }
            }
            return Err(HttqError::MalformedPacket);
        }
        let p = HttqPacket {
            version,
            destination: QuantumIdentity::from_hash(destination.as_str()),
            origin: QuantumIdentity::from_hash(origin.as_str()),
            payload,
            signature,
            ttl,
        };
        proof {
            assert(b@ =~= b@.subrange(0, after_version as int) + b@.subrange(after_version as int, after_dest as int) + b@.subrange(
                after_dest as int,
                after_origin as int,
            ) + b@.subrange(after_origin as int, after_payload as int) + seq![ttl] + b@.subrange(after_payload + 1, end as int));
            assert(encoding(p) =~= b@);
        }
        Ok(p)
    }

    /// The bytes that a signature covers: every field but the signature.
    pub fn signing_bytes(&self) -> (r: Vec<u8>)
        ensures
            r@ == signed_range(*self),
    {
        let mut out: Vec<u8> = Vec::new();
        append_field(&mut out, &self.version);
        append_field(&mut out, &self.destination.as_str().to_owned());
        append_field(&mut out, &self.origin.as_str().to_owned());
        append_field(&mut out, &self.payload);
        out.push(self.ttl);
        assert(out@ =~= signed_range(*self));
        out
    }

    /// The canonical byte form: the signed range, then the signature field.
    pub fn serialize(&self) -> (r: Vec<u8>)
        ensures
            r@ == encoding(*self),
    {
        let mut out = self.signing_bytes();
        append_field(&mut out, &self.signature);
        out
    }

    /// Stores what the signing capability produced over `signing_bytes`: its
    /// hex text replaces any earlier signature. Where the capability failed,
    /// the packet is left as it was.
    pub fn sign(&mut self, produced: Option<Vec<u8>>) -> (r: Result<(), HttqError>)
        ensures
            match produced {
                None => {
                    &&& r == Err::<(), HttqError>(HttqError::SigningFailure)
                    &&& packet_fields(*final(self)) == packet_fields(*old(self))
                },
                Some(sig) => {
                    &&& r is Ok
                    &&& final(self).signature@ == hex_of(sig@)
                    &&& signed_range(*final(self)) == signed_range(*old(self))
                    &&& final(self).version@ == old(self).version@
                    &&& final(self).destination@ == old(self).destination@
                    &&& final(self).origin@ == old(self).origin@
                    &&& final(self).payload@ == old(self).payload@
                    &&& final(self).ttl == old(self).ttl
                },
            },
    {
        match produced {
            None => Err(HttqError::SigningFailure),
            Some(sig) => {
                self.signature = hex_encode(sig.as_slice());
                Ok(())
            },
        }
    }
}

} // verus!
