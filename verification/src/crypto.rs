//! Signing and verification, through the ed25519 identity keys of
//! libp2p. The outside calls stand behind trusted wrappers; everything
//! the contracts say about them is in terms of the named results below.

use vstd::prelude::*;

use crate::peer::PeerId;
use crate::topology::clone_bytes;

verus! {

/// The ed25519 signature that the secret key encoded as `sk` puts on
/// `msg`. Ed25519 signing is deterministic: the same key and message
/// give the same signature on every machine.
pub uninterp spec fn sign_of(sk: Seq<u8>, msg: Seq<u8>) -> Seq<u8>;

/// The protobuf-encoded public key derived from the protobuf-encoded
/// secret key `sk`.
pub uninterp spec fn public_key_of(sk: Seq<u8>) -> Seq<u8>;

/// The peer id bytes derived from the protobuf-encoded public key `pk`.
pub uninterp spec fn peer_id_of(pk: Seq<u8>) -> Seq<u8>;

/// Whether `pk` decodes to a public key under which `sig` is a valid
/// signature over `msg`. Ed25519 verification is deterministic.
pub uninterp spec fn sig_valid(pk: Seq<u8>, msg: Seq<u8>, sig: Seq<u8>) -> bool;

/// Whether `sk` is the protobuf encoding of a supported keypair:
/// decoding is a deterministic function of the bytes.
pub uninterp spec fn keypair_decodes(sk: Seq<u8>) -> bool;

/// A node's signing identity: the keypair together with its canonical
/// encodings — the protobuf secret and public key bytes and the derived
/// peer id bytes.
pub struct NodeKeypair {
    /// The protobuf encoding of the secret key.
    pub secret: Vec<u8>,
    /// The protobuf encoding of the public key.
    pub public: Vec<u8>,
    /// The peer id bytes derived from the public key.
    pub peer: Vec<u8>,
}

impl NodeKeypair {
    /// Generates a fresh ed25519 keypair.
    ///
    /// Relies on `libp2p::identity::Keypair::generate_ed25519`, and on
    /// `Keypair::to_protobuf_encoding`, `Keypair::public`,
    /// `PublicKey::encode_protobuf`, `PublicKey::to_peer_id` and
    /// `PeerId::to_bytes` for the derived fields, so the field
    /// relations below are exactly what those functions compute. The
    /// key itself is random: nothing is said of its value.
    /// `to_protobuf_encoding` cannot fail for an ed25519 key.
    #[verifier::external_body]
    pub fn generate() -> (r: NodeKeypair)
        ensures
            r.wf(),
            keypair_decodes(r.secret@),
            r.public@ == public_key_of(r.secret@),
            r.peer@ == peer_id_of(r.public@),
    {
        let inner = libp2p::identity::Keypair::generate_ed25519();
        let secret = inner.to_protobuf_encoding().expect("ed25519 keys encode");
        let public_key = inner.public();
        let public = public_key.encode_protobuf();
        let peer = public_key.to_peer_id().to_bytes();
        NodeKeypair { secret, public, peer }
    }

    /// Rebuilds a keypair from its protobuf encoding, as written in a
    /// node's config.
    ///
    /// Relies on `libp2p::identity::Keypair::from_protobuf_encoding`
    /// and the same derivation functions as `generate`; returns `None`
    /// exactly where the bytes do not decode to a supported key.
    #[verifier::external_body]
    pub fn from_protobuf(bytes: &Vec<u8>) -> (r: Option<NodeKeypair>)
        ensures
            r is Some <==> keypair_decodes(bytes@),
            r is Some ==> {
                &&& r->0.wf()
                &&& r->0.secret@ == bytes@
                &&& r->0.public@ == public_key_of(bytes@)
                &&& r->0.peer@ == peer_id_of(r->0.public@)
            },
    {
        match libp2p::identity::Keypair::from_protobuf_encoding(bytes) {
            Err(_) => None,
            Ok(inner) => {
                let public_key = inner.public();
                let public = public_key.encode_protobuf();
                let peer = public_key.to_peer_id().to_bytes();
                Some(NodeKeypair { secret: bytes.clone(), public, peer })
            },
        }
    }

    /// Whether the keypair is as the constructors build it: the secret
    /// decodes and the public key is the one derived from it.
    pub open spec fn wf(&self) -> bool {
        &&& keypair_decodes(self.secret@)
        &&& self.public@ == public_key_of(self.secret@)
    }

    /// Signs `msg` with this keypair. The keypair must be sound
    /// (`generate` and `from_protobuf` only build sound ones): on a
    /// secret that does not decode the outside call would fail, and a
    /// signature only verifies under the public key derived from the
    /// key that made it.
    ///
    /// Relies on `libp2p::identity::Keypair::from_protobuf_encoding`
    /// and `Keypair::sign`, which for an ed25519 key never fails and
    /// returns the deterministic ed25519 signature; such a signature
    /// verifies under the signing key's own public key.
    #[verifier::external_body]
    pub fn sign(&self, msg: &Vec<u8>) -> (r: Vec<u8>)
        requires
            self.wf(),
        ensures
            r@ == sign_of(self.secret@, msg@),
            sig_valid(self.public@, msg@, r@),
    {
        let inner = libp2p::identity::Keypair::from_protobuf_encoding(&self.secret).expect(
            "the stored secret is a valid encoding",
        );
        inner.sign(msg).expect("ed25519 signing cannot fail")
    }

    /// This node's peer id.
    pub fn peer_id(&self) -> (r: PeerId)
        ensures
            r@ == self.peer@,
    {
        PeerId { bytes: clone_bytes(&self.peer) }
    }
}

/// Signs `msg` with the keypair whose protobuf encoding is `secret`:
/// the signature, or `None` exactly where the bytes do not decode to a
/// keypair.
pub fn sign_with_secret(secret: &Vec<u8>, msg: &Vec<u8>) -> (r: Option<Vec<u8>>)
    ensures
        r is Some <==> keypair_decodes(secret@),
        r is Some ==> {
            &&& r->0@ == sign_of(secret@, msg@)
            &&& sig_valid(public_key_of(secret@), msg@, r->0@)
        },
{
    match NodeKeypair::from_protobuf(secret) {
        None => None,
        Some(kp) => Some(kp.sign(msg)),
    }
}

/// Whether `sig` is a valid signature over `msg` under the
/// protobuf-encoded public key `pk`.
///
/// Relies on `libp2p::identity::PublicKey::try_decode_protobuf` and
/// `PublicKey::verify`: the result is a deterministic function of the
/// three byte strings, `false` where `pk` does not decode.
#[verifier::external_body]
pub fn verify_bytes(pk: &Vec<u8>, msg: &Vec<u8>, sig: &Vec<u8>) -> (r: bool)
    ensures
        r == sig_valid(pk@, msg@, sig@),
{
    match libp2p::identity::PublicKey::try_decode_protobuf(pk) {
        Err(_) => false,
        Ok(key) => key.verify(msg, sig),
    }
}

/// A fresh unique id for a broadcast, as the bytes of a hyphenated
/// UUID.
///
/// Relies on `uuid::Uuid::new_v4` and its `Display` form: a hyphenated
/// UUID is 36 ASCII characters. The value is random: nothing more is
/// said of it.
#[verifier::external_body]
pub fn new_message_id() -> (r: Vec<u8>)
    ensures
        r@.len() == 36,
{
    uuid::Uuid::new_v4().to_string().into_bytes()
}

/// The wall clock now, as seconds and subsecond nanoseconds since the
/// Unix epoch.
///
/// Relies on `std::time::SystemTime::now` and
/// `Duration::subsec_nanos`, whose result is below one billion; zero
/// where the clock sits before the epoch. The clock is outside the
/// machine's control: nothing more is said of the value.
#[verifier::external_body]
pub fn now_timestamp() -> (r: (u64, u64))
    ensures
        r.1 < 1000000000,
{
    match std::time::SystemTime::now().duration_since(std::time::UNIX_EPOCH) {
        Ok(d) => (d.as_secs(), d.subsec_nanos() as u64),
        Err(_) => (0, 0),
    }
}

} // verus!
