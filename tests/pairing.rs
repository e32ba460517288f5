use hmac::{Hmac, Mac};
use sha2::Sha256;
use wamd::error::PairingError;
use wamd::{
    generate_pairing_keys, sign_device_identity, verify_device_identity, verify_signed_identity, Error,
};

fn tagged(key: &[u8], payload: &[u8]) -> Vec<u8> {
    let mut mac = Hmac::<Sha256>::new_from_slice(key).unwrap();
    mac.update(payload);
    let tag = mac.finalize().into_bytes();
    let mut with_tag = payload.to_vec();
    with_tag.extend_from_slice(&tag);
    with_tag
}

#[test]
fn hmac_verify_roundtrip() {
    let key = b"test-hmac-key-32-bytes-long!!!!!!";
    let payload = b"device-identity-payload";
    let mut mac = Hmac::<Sha256>::new_from_slice(key).unwrap();
    mac.update(payload);
    let tag = mac.finalize().into_bytes();
    let mut with_tag = payload.to_vec();
    with_tag.extend_from_slice(&tag);
    let verified = verify_device_identity(&with_tag, key).unwrap();
    assert_eq!(verified.payload, payload);
}

#[test]
fn hmac_reject_tampered() {
    let key = b"test-hmac-key-32-bytes-long!!!!!!";
    let payload = b"device-identity-payload";
    let mut mac = Hmac::<Sha256>::new_from_slice(key).unwrap();
    mac.update(payload);
    let tag = mac.finalize().into_bytes();
    let mut with_tag = payload.to_vec();
    with_tag.extend_from_slice(&tag);
    with_tag[0] ^= 1;
    assert!(verify_device_identity(&with_tag, key).is_err());
}

#[test]
fn hmac_rejects_every_flipped_bit() {
    let key = b"another key";
    let with_tag = tagged(key, b"abc");
    for i in 0..with_tag.len() {
        for bit in 0..8 {
            let mut t = with_tag.clone();
            t[i] ^= 1 << bit;
            assert!(matches!(
                verify_device_identity(&t, key),
                Err(Error::Pairing(PairingError::InvalidDeviceIdentityHmac))
            ));
        }
    }
    assert!(verify_device_identity(&with_tag, b"wrong key").is_err());
}

#[test]
fn hmac_short_input_and_empty_payload() {
    assert!(matches!(
        verify_device_identity(&[0u8; 31], b"k"),
        Err(Error::Pairing(PairingError::InvalidDeviceIdentityHmac))
    ));
    let only_tag = tagged(b"k", b"");
    assert_eq!(verify_device_identity(&only_tag, b"k").unwrap().payload, Vec::<u8>::new());
}

#[test]
fn pairing_keys_generated() {
    let keys = generate_pairing_keys();
    assert_eq!(keys.noise_public.len(), 32);
    assert_eq!(keys.identity_public.len(), 32);
}

#[test]
fn pairing_keys_are_consistent_and_fresh() {
    let keys = generate_pairing_keys();
    let secret = x25519_dalek::StaticSecret::from(keys.noise_private);
    assert_eq!(x25519_dalek::PublicKey::from(&secret).to_bytes(), keys.noise_public);
    let signing = ed25519_dalek::SigningKey::from_bytes(&keys.identity_private);
    assert_eq!(signing.verifying_key().to_bytes(), keys.identity_public);
    let other = generate_pairing_keys();
    assert_ne!(keys.noise_private, other.noise_private);
    assert_ne!(keys.identity_private, other.identity_private);
    assert_ne!(keys.adv_secret, other.adv_secret);
    assert_ne!(keys.noise_private, keys.adv_secret);
}

#[test]
fn sign_verify_identity_roundtrip() {
    let keys = generate_pairing_keys();
    let payload = b"account-payload-to-store";
    let signed = sign_device_identity(payload, &keys.identity_private).unwrap();
    let verified = verify_signed_identity(&signed).unwrap();
    assert_eq!(verified, payload);
}

#[test]
fn signed_blob_layout_and_tampering() {
    let keys = generate_pairing_keys();
    let payload = b"p";
    let signed = sign_device_identity(payload, &keys.identity_private).unwrap();
    assert_eq!(signed.len(), 96 + payload.len());
    assert_eq!(&signed[..32], &keys.identity_public);
    assert_eq!(&signed[96..], payload);
    for i in 0..signed.len() {
        let mut t = signed.clone();
        t[i] ^= 0x01;
        assert!(matches!(
            verify_signed_identity(&t),
            Err(Error::Pairing(PairingError::InvalidDeviceSignature))
        ));
    }
    assert!(verify_signed_identity(&signed[..95]).is_err());
    let empty = sign_device_identity(b"", &keys.identity_private).unwrap();
    assert_eq!(verify_signed_identity(&empty).unwrap(), Vec::<u8>::new());
}
