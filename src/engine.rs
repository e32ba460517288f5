//! The parts of snow that the handshake and the channel call.

use vstd::prelude::*;
use crate::noise::NOISE_PATTERN;

verus! {

/// snow's handshake state, carried through opaquely.
#[verifier::external_type_specification]
#[verifier::external_body]
pub struct ExHandshakeState(snow::HandshakeState);

/// snow's transport state (both directions), carried through opaquely.
#[verifier::external_type_specification]
#[verifier::external_body]
pub struct ExTransportState(snow::TransportState);

/// Relies on snow's `HandshakeState::is_handshake_finished`; nothing is
/// assumed of its answer.
pub assume_specification[ snow::HandshakeState::is_handshake_finished ](hs: &snow::HandshakeState) -> bool;

/// Relies on snow's `NoiseParams` parser and `Builder`: an initiator for
/// `pattern` with the static private key and the prologue given. For the
/// library's pattern the name parses, every primitive resolves with the
/// default resolver, the 32-byte key fits Curve25519, and no pre-shared key
/// is asked for, so the build succeeds.
#[verifier::external_body]
pub(crate) fn build_initiator(pattern: &str, local_private: &[u8; 32], prologue: &[u8]) -> (r: Option<snow::HandshakeState>)
    ensures
        pattern@ == NOISE_PATTERN@ ==> r is Some,
{
    let params: snow::params::NoiseParams = pattern.parse().ok()?;
    snow::Builder::new(params).local_private_key(local_private).ok()?.prologue(prologue).ok()?.build_initiator().ok()
}

/// Relies on snow's `HandshakeState::write_message`: the next handshake
/// message, with an empty payload.
#[verifier::external_body]
pub(crate) fn handshake_write(hs: &mut snow::HandshakeState) -> (r: Option<Vec<u8>>) {
    let mut buf = vec![0u8; 65535];
    let n = hs.write_message(&[], &mut buf).ok()?;
    buf.truncate(n);
    Some(buf)
}

/// Relies on snow's `HandshakeState::read_message`: takes in the peer's
/// handshake message; its payload is not used.
#[verifier::external_body]
pub(crate) fn handshake_read(hs: &mut snow::HandshakeState, msg: &[u8]) -> (r: bool) {
    let mut buf = vec![0u8; 65535];
    hs.read_message(msg, &mut buf).is_ok()
}

/// Relies on snow's `TransportState::write_message`: encrypts with the
/// sending key, adds the 16-byte AES-GCM tag, and advances the nonce.
#[verifier::external_body]
pub(crate) fn transport_write(ts: &mut snow::TransportState, plaintext: &[u8]) -> (r: Option<Vec<u8>>)
    requires
        plaintext@.len() <= 65535,
    ensures
        r matches Some(c) ==> c@.len() == plaintext@.len() + 16,
{
    let mut buf = vec![0u8; plaintext.len() + 16];
    let n = ts.write_message(plaintext, &mut buf).ok()?;
    buf.truncate(n);
    Some(buf)
}

/// Relies on snow's `TransportState::read_message`: checks and removes the
/// 16-byte tag, decrypts with the receiving key, and advances the nonce.
#[verifier::external_body]
pub(crate) fn transport_read(ts: &mut snow::TransportState, ciphertext: &[u8]) -> (r: Option<Vec<u8>>)
    ensures
        r matches Some(p) ==> p@.len() + 16 == ciphertext@.len(),
{
    let mut buf = vec![0u8; ciphertext.len()];
    let n = ts.read_message(ciphertext, &mut buf).ok()?;
    buf.truncate(n);
    Some(buf)
}

/// Relies on snow's `HandshakeState::into_transport_mode`: the transport
/// state of a completed handshake.
#[verifier::external_body]
pub(crate) fn into_transport(hs: snow::HandshakeState) -> (r: Option<snow::TransportState>) {
    hs.into_transport_mode().ok()
}

} // verus!
