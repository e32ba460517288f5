//! Pairing cryptography: checking the server's identity payload, creating
//! the device's long-term keys, and the signed identity blob that is stored.

use vstd::prelude::*;
use ed25519_dalek::{Signer, SigningKey, VerifyingKey};
use hmac::{Hmac, Mac};
use rand::RngCore;
use sha2::Sha256;
use crate::codec::write_raw;
use crate::error::{Error, PairingError};

verus! {

/// Length of an HMAC-SHA256 tag.
pub const HMAC_LEN: usize = 32;

/// Length of the header of a signed identity blob: a key and a signature.
pub const SIGNED_HEADER_LEN: usize = 96;

/// The HMAC-SHA256 tag of `msg` under `key`.
pub uninterp spec fn hmac_sha256(key: Seq<u8>, msg: Seq<u8>) -> Seq<u8>;

/// The X25519 public key of the private key `sk`.
pub uninterp spec fn x25519_public_of(sk: Seq<u8>) -> Seq<u8>;

/// The Ed25519 verifying key of the signing key with seed `seed`.
pub uninterp spec fn ed25519_public_of(seed: Seq<u8>) -> Seq<u8>;

/// The Ed25519 signature over `msg` by the signing key with seed `seed`.
pub uninterp spec fn ed25519_signature(seed: Seq<u8>, msg: Seq<u8>) -> Seq<u8>;

/// Whether `sig` is a valid Ed25519 signature over `msg` under the
/// verifying key `pk`, by the strict rules.
pub uninterp spec fn ed25519_verifies(pk: Seq<u8>, msg: Seq<u8>, sig: Seq<u8>) -> bool;

/// Relies on hmac's `Hmac<Sha256>`: `new_from_slice` takes a key of any
/// length, and `verify_slice` accepts exactly the tag of the message.
#[verifier::external_body]
fn hmac_sha256_matches(key: &[u8], msg: &[u8], tag: &[u8]) -> (r: bool)
    ensures
        r == (tag@ == hmac_sha256(key@, msg@)),
{
    match <Hmac<Sha256> as Mac>::new_from_slice(key) {
        Ok(mut mac) => {
            mac.update(msg);
            mac.verify_slice(tag).is_ok()
        },
        Err(_) => false,
    }
}

/// Relies on rand's `thread_rng`, a cryptographically secure generator, to
/// fill 32 bytes.
#[verifier::external_body]
fn random_32() -> (r: [u8; 32]) {
    let mut b = [0u8; 32];
    rand::thread_rng().fill_bytes(&mut b);
    b
}

/// Relies on x25519-dalek: the public key of a static secret.
#[verifier::external_body]
fn x25519_public(sk: &[u8; 32]) -> (r: [u8; 32])
    ensures
        r@ == x25519_public_of(sk@),
{
    let secret = x25519_dalek::StaticSecret::from(*sk);
    x25519_dalek::PublicKey::from(&secret).to_bytes()
}

/// Relies on ed25519-dalek's `SigningKey::generate` with rand's `thread_rng`:
/// the seed of a fresh signing key.
#[verifier::external_body]
fn generate_signing_seed() -> (r: [u8; 32]) {
    SigningKey::generate(&mut rand::thread_rng()).to_bytes()
}

/// Relies on ed25519-dalek's `SigningKey::verifying_key`: the public key of
/// the signing key with this seed.
#[verifier::external_body]
fn signing_public_key(seed: &[u8; 32]) -> (r: [u8; 32])
    ensures
        r@ == ed25519_public_of(seed@),
{
    SigningKey::from_bytes(seed).verifying_key().to_bytes()
}

/// Relies on ed25519-dalek's `SigningKey::sign`: the deterministic signature
/// over `msg` by the signing key with this seed.
#[verifier::external_body]
fn ed25519_sign(seed: &[u8; 32], msg: &[u8]) -> (r: [u8; 64])
    ensures
        r@ == ed25519_signature(seed@, msg@),
{
    SigningKey::from_bytes(seed).sign(msg).to_bytes()
}

/// Relies on ed25519-dalek's `VerifyingKey::from_bytes` and
/// `VerifyingKey::verify_strict`: a malformed key verifies nothing; the
/// answer depends on key, message and signature alone.
#[verifier::external_body]
fn ed25519_verify_strict(pk: &[u8; 32], msg: &[u8], sig: &[u8; 64]) -> (r: bool)
    ensures
        r == ed25519_verifies(pk@, msg@, sig@),
{
    match VerifyingKey::from_bytes(pk) {
        Ok(key) => key.verify_strict(msg, &ed25519_dalek::Signature::from_bytes(sig)).is_ok(),
        Err(_) => false,
    }
}

/// A server identity payload whose trailing tag was checked.
#[derive(Clone, Debug)]
pub struct VerifiedIdentity {
    /// The payload without its tag.
    pub payload: Vec<u8>,
}

/// Keys created for one pairing.
#[derive(Clone, Debug)]
pub struct PairingKeys {
    /// X25519 public key for the handshake identity.
    pub noise_public: [u8; 32],
    /// X25519 private key for the handshake identity.
    pub noise_private: [u8; 32],
    /// Ed25519 verifying key of the device identity.
    pub identity_public: [u8; 32],
    /// Ed25519 seed of the device identity.
    pub identity_private: [u8; 32],
    /// Secret for advertising the device.
    pub adv_secret: [u8; 32],
}

/// `x` ends in the HMAC-SHA256 tag, under `key`, of the bytes before the tag.
pub open spec fn identity_tag_ok(key: Seq<u8>, x: Seq<u8>) -> bool {
    &&& x.len() >= HMAC_LEN
    &&& x.subrange(x.len() - HMAC_LEN, x.len() as int) == hmac_sha256(key, x.subrange(0, x.len() - HMAC_LEN))
}

/// `blob` is a signed identity blob that the signing key with seed `seed`
/// made over the payload after its header.
pub open spec fn signed_by(seed: Seq<u8>, blob: Seq<u8>) -> bool {
    &&& blob.len() >= SIGNED_HEADER_LEN
    &&& blob.subrange(0, 32) == ed25519_public_of(seed)
    &&& blob.subrange(32, 96) == ed25519_signature(seed, blob.subrange(96, blob.len() as int))
}

/// Whether a stored blob verifies: a header of a key and a signature by that
/// key over the rest.
pub open spec fn blob_verifies(blob: Seq<u8>) -> bool {
    &&& blob.len() >= SIGNED_HEADER_LEN
    &&& ed25519_verifies(blob.subrange(0, 32), blob.subrange(96, blob.len() as int), blob.subrange(32, 96))
}

fn copy_32(b: &[u8], start: usize) -> (r: [u8; 32])
    requires
        start + 32 <= b@.len(),
    ensures
        r@ == b@.subrange(start as int, start + 32),
{
    let total = b.len();
    let mut r = [0u8; 32];
    let mut i: usize = 0;
    while i < 32
        invariant
            total == b@.len(),
            start + 32 <= total,
            i <= 32,
            r@.len() == 32,
            forall|j: int| 0 <= j < i ==> r@[j] == b@[start + j],
        decreases 32 - i,
    {
        r[i] = b[start + i];
        i = i + 1;
    }
    assert(r@ =~= b@.subrange(start as int, start + 32));
    r
}

fn copy_64(b: &[u8], start: usize) -> (r: [u8; 64])
    requires
        start + 64 <= b@.len(),
    ensures
        r@ == b@.subrange(start as int, start + 64),
{
    let total = b.len();
    let mut r = [0u8; 64];
    let mut i: usize = 0;
    while i < 64
        invariant
            total == b@.len(),
            start + 64 <= total,
            i <= 64,
            r@.len() == 64,
            forall|j: int| 0 <= j < i ==> r@[j] == b@[start + j],
        decreases 64 - i,
    {
        r[i] = b[start + i];
        i = i + 1;
    }
    assert(r@ =~= b@.subrange(start as int, start + 64));
    r
}

/// Checks the trailing HMAC-SHA256 tag of a server identity payload and
/// returns the payload without it.
pub fn verify_device_identity(payload_with_tag: &[u8], hmac_key: &[u8]) -> (r: Result<VerifiedIdentity, Error>)
    ensures
        r is Ok <==> identity_tag_ok(hmac_key@, payload_with_tag@),
        r matches Ok(v) ==> v.payload@ == payload_with_tag@.subrange(0, payload_with_tag@.len() - HMAC_LEN),
        r matches Err(e) ==> e matches Error::Pairing(PairingError::InvalidDeviceIdentityHmac),
{
    if payload_with_tag.len() < HMAC_LEN {
        return Err(Error::Pairing(PairingError::InvalidDeviceIdentityHmac));
    }
    let split = payload_with_tag.len() - HMAC_LEN;
    let payload = vstd::slice::slice_subrange(payload_with_tag, 0, split);
    let tag = vstd::slice::slice_subrange(payload_with_tag, split, payload_with_tag.len());
    if !hmac_sha256_matches(hmac_key, payload, tag) {
        return Err(Error::Pairing(PairingError::InvalidDeviceIdentityHmac));
    }
    Ok(VerifiedIdentity { payload: vstd::slice::slice_to_vec(payload) })
}

/// Creates fresh, independent pairing keys: an X25519 key pair, an Ed25519
/// key pair and an advertising secret.
pub fn generate_pairing_keys() -> (r: PairingKeys)
    ensures
        r.noise_public@ == x25519_public_of(r.noise_private@),
        r.identity_public@ == ed25519_public_of(r.identity_private@),
{
    let noise_private = random_32();
    let noise_public = x25519_public(&noise_private);
    let identity_private = generate_signing_seed();
    let identity_public = signing_public_key(&identity_private);
    let adv_secret = random_32();
    PairingKeys { noise_public, noise_private, identity_public, identity_private, adv_secret }
}

/// Builds the blob that is stored for a payload: the verifying key (32
/// bytes), the signature over the payload (64 bytes), then the payload.
pub fn sign_device_identity(payload: &[u8], identity_private: &[u8; 32]) -> (r: Result<Vec<u8>, Error>)
    ensures
        r matches Ok(b) && b@.len() == SIGNED_HEADER_LEN + payload@.len()
            && b@.subrange(96, b@.len() as int) == payload@
            && signed_by(identity_private@, b@),
{
    let verifying_key = signing_public_key(identity_private);
    let signature = ed25519_sign(identity_private, payload);
    let mut out: Vec<u8> = Vec::new();
    write_raw(&mut out, verifying_key.as_slice());
    write_raw(&mut out, signature.as_slice());
    write_raw(&mut out, payload);
    assert(out@.subrange(0, 32) =~= verifying_key@);
    assert(out@.subrange(32, 96) =~= signature@);
    assert(out@.subrange(96, out@.len() as int) =~= payload@);
    Ok(out)
}

/// Checks a stored blob (verifying key, signature, payload) and returns its
/// payload.
pub fn verify_signed_identity(signed_blob: &[u8]) -> (r: Result<Vec<u8>, Error>)
    ensures
        r is Ok <==> blob_verifies(signed_blob@),
        r matches Ok(p) ==> p@ == signed_blob@.subrange(96, signed_blob@.len() as int),
        r matches Err(e) ==> e matches Error::Pairing(PairingError::InvalidDeviceSignature),
{
    if signed_blob.len() < SIGNED_HEADER_LEN {
        return Err(Error::Pairing(PairingError::InvalidDeviceSignature));
    }
    let key_bytes = copy_32(signed_blob, 0);
    let sig_bytes = copy_64(signed_blob, 32);
    let payload = vstd::slice::slice_subrange(signed_blob, SIGNED_HEADER_LEN, signed_blob.len());
    if !ed25519_verify_strict(&key_bytes, payload, &sig_bytes) {
        return Err(Error::Pairing(PairingError::InvalidDeviceSignature));
    }
    Ok(vstd::slice::slice_to_vec(payload))
}

/// Flipping any bit of the tag of a correctly tagged payload makes the check
/// fail.
pub proof fn lemma_flipped_tag_rejected(key: Seq<u8>, x: Seq<u8>, i: int, bit: u8)
    requires
        identity_tag_ok(key, x),
        x.len() - HMAC_LEN <= i < x.len(),
        bit < 8,
    ensures
        !identity_tag_ok(key, x.update(i, x[i] ^ (1u8 << bit))),
{
    let b = x[i];
    assert(b ^ (1u8 << bit) != b) by (bit_vector)
        requires bit < 8;
    let y = x.update(i, x[i] ^ (1u8 << bit));
    let n = x.len() - HMAC_LEN;
    assert(y.subrange(0, n) =~= x.subrange(0, n));
    assert(y.subrange(n, y.len() as int)[i - n] != x.subrange(n, x.len() as int)[i - n]);
}

} // verus!
