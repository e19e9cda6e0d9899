//! The hash and signature primitives, taken from outside crates.
use vstd::prelude::*;
use ursa::keys::{PrivateKey, PublicKey};
use ursa::signatures::ed25519::Ed25519Sha512;
use ursa::signatures::SignatureScheme;

verus! {

/// The Blake3-256 digest of a byte string.
pub uninterp spec fn blake3_of(data: Seq<u8>) -> Seq<u8>;

/// Whether `sig` is a valid Ed25519 signature of `msg` under the public key `key`.
pub uninterp spec fn ed25519_valid(key: Seq<u8>, msg: Seq<u8>, sig: Seq<u8>) -> bool;

/// The Ed25519 signature of `msg` made with the secret key bytes `secret`.
pub uninterp spec fn ed25519_signature(secret: Seq<u8>, msg: Seq<u8>) -> Seq<u8>;

/// Whether ursa accepts `secret` as signing key bytes: 64 bytes whose second
/// half is a valid curve point.
pub uninterp spec fn ed25519_key_ok(secret: Seq<u8>) -> bool;

/// The Ed25519 public key of a 32-byte secret.
pub uninterp spec fn ed25519_public_of(secret: Seq<u8>) -> Seq<u8>;

/// Whether `secret` is the 64 bytes of a matching key pair whose public half is `public`.
pub open spec fn ed25519_pair(public: Seq<u8>, secret: Seq<u8>) -> bool {
    &&& secret.len() == 64
    &&& secret.subrange(32, 64) == public
    &&& public == ed25519_public_of(secret.subrange(0, 32))
}

/// Relies on blake3::hash: a 32-byte digest that depends on the input alone.
#[verifier::external_body]
pub(crate) fn blake3_digest(data: &Vec<u8>) -> (r: Vec<u8>)
    ensures
        r@ == blake3_of(data@),
        r@.len() == 32,
{
    blake3::hash(data.as_slice()).as_bytes().to_vec()
}

/// Relies on ursa's Ed25519Sha512::verify: it accepts a well-formed signature of the
/// message under the key and fails otherwise, a failure being read as `false`.
#[verifier::external_body]
pub(crate) fn ed25519_verify(key: &Vec<u8>, msg: &Vec<u8>, sig: &Vec<u8>) -> (r: bool)
    ensures
        r == ed25519_valid(key@, msg@, sig@),
{
    Ed25519Sha512::new().verify(msg.as_slice(), sig.as_slice(), &PublicKey(key.clone())).unwrap_or(false)
}

/// Relies on ursa's Ed25519Sha512::sign: deterministic Ed25519 signing. It fails
/// (`None`) exactly when the secret key bytes are refused: not 64 bytes, or a
/// second half that is not a curve point (the halves are not checked against each
/// other). A signature made with a matching key pair verifies under its public half.
#[verifier::external_body]
pub(crate) fn ed25519_sign(secret: &Vec<u8>, msg: &Vec<u8>) -> (r: Option<Vec<u8>>)
    ensures
        r is Some <==> ed25519_key_ok(secret@),
        r matches Some(s) ==> s@ == ed25519_signature(secret@, msg@),
        r matches Some(s) ==> (secret@.len() == 64 && secret@.subrange(32, 64) == ed25519_public_of(
            secret@.subrange(0, 32),
        ) ==> ed25519_valid(secret@.subrange(32, 64), msg@, s@)),
{
    Ed25519Sha512::new().sign(msg.as_slice(), &PrivateKey(secret.clone())).ok()
}

/// Relies on ursa's Ed25519Sha512::keypair with no option: a fresh key pair
/// (public key bytes, secret key bytes) drawn from the operating system's
/// generator. The secret bytes are the 32-byte secret followed by its public key.
#[verifier::external_body]
pub(crate) fn ed25519_keypair() -> (r: Option<(Vec<u8>, Vec<u8>)>)
    ensures
        r is Some,
        r matches Some(k) ==> k.1@.len() == 64 && k.1@.subrange(32, 64) == k.0@,
        r matches Some(k) ==> k.0@ == ed25519_public_of(k.1@.subrange(0, 32)),
        r matches Some(k) ==> ed25519_key_ok(k.1@),
{
    match Ed25519Sha512::new().keypair(None) {
        Ok((pk, sk)) => Some((pk.0.clone(), sk.0.clone())),
        Err(_) => None,
    }
}

} // verus!
