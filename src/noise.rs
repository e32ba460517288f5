//! The handshake that upgrades a framed socket to an encrypted channel, and
//! the channel itself.
//!
//! The handshake is the initiator side of a three-message mutual
//! Diffie-Hellman exchange run by snow. Its driver hands the frames to send
//! out and the frames received in, one step at a time:
//! `first_frame`, then `on_server_hello` with the peer's frame, then `finish`.

use vstd::prelude::*;
use crate::codec::write_raw;
use crate::engine::{build_initiator, handshake_read, handshake_write, into_transport, transport_read, transport_write};
use crate::error::{ConnectionError, Error, SendError};

verus! {

/// The handshake pattern: XX over Curve25519, AES-GCM and SHA-256.
pub const NOISE_PATTERN: &'static str = "Noise_XX_25519_AESGCM_SHA256";

/// Length of the prologue.
pub const PROLOGUE_LEN: usize = 36;

/// Largest channel message, tag included.
pub const MAX_MESSAGE_LEN: usize = 65535;

/// Length of the authentication tag of a channel message.
pub const TAG_LEN: usize = 16;

/// Largest plaintext of one channel message: its ciphertext, with the tag,
/// must fit the message ceiling.
pub const MAX_PLAINTEXT_LEN: usize = 65519;

/// The prologue: the connection header (`W`, `A`, magic 6, dictionary 3)
/// followed by the pattern name padded with zeros to 32 bytes.
pub open spec fn prologue_spec() -> Seq<u8> {
    seq![
        87, 65, 6, 3, 78, 111, 105, 115, 101, 95, 88, 88, 95, 50, 53, 53, 49, 57, 95, 65, 69, 83,
        71, 67, 77, 95, 83, 72, 65, 50, 53, 54, 0, 0, 0, 0,
    ]
}

/// The prologue bytes.
pub fn prologue() -> (r: Vec<u8>)
    ensures
        r@ == prologue_spec(),
{
    let r: Vec<u8> = vec![
        87, 65, 6, 3, 78, 111, 105, 115, 101, 95, 88, 88, 95, 50, 53, 53, 49, 57, 95, 65, 69, 83,
        71, 67, 77, 95, 83, 72, 65, 50, 53, 54, 0, 0, 0, 0,
    ];
    assert(r@ =~= prologue_spec());
    r
}

/// Where the initiator stands in the handshake.
#[derive(Clone, Copy, Debug, PartialEq, Eq, Structural)]
pub enum HandshakePhase {
    /// Nothing was sent yet.
    Idle,
    /// The first message went out; the peer's answer is awaited.
    SentFirst,
    /// The third message went out.
    SentSecond,
    /// The handshake failed; nothing more can be done with it.
    Failed,
}

fn handshake_failed() -> (e: Error)
    ensures
        e matches Error::Connection(ConnectionError::HandshakeFailed),
{
    Error::Connection(ConnectionError::HandshakeFailed)
}

/// The initiator side of the handshake.
pub struct ClientHandshake {
    engine: snow::HandshakeState,
    phase: HandshakePhase,
}

impl ClientHandshake {
    /// The current phase.
    pub closed spec fn spec_phase(&self) -> HandshakePhase {
        self.phase
    }

    /// The current phase.
    pub fn phase(&self) -> (r: HandshakePhase)
        ensures
            r == self.spec_phase(),
    {
        self.phase
    }

    /// A handshake with static key `static_private`, in phase `Idle`.
    pub fn new(static_private: &[u8; 32]) -> (r: Result<ClientHandshake, Error>)
        ensures
            r matches Ok(h) && h.spec_phase() == HandshakePhase::Idle,
    {
        let p = prologue();
        match build_initiator(NOISE_PATTERN, static_private, p.as_slice()) {
            Some(engine) => Ok(ClientHandshake { engine, phase: HandshakePhase::Idle }),
            None => Err(handshake_failed()),
        }
    }

    /// The first frame body: the prologue followed by the first handshake
    /// message. Only in phase `Idle`; moves to `SentFirst`.
    pub fn first_frame(&mut self) -> (r: Result<Vec<u8>, Error>)
        ensures
            old(self).spec_phase() != HandshakePhase::Idle ==> r is Err,
            r matches Ok(f) ==> f@.len() >= PROLOGUE_LEN && f@.subrange(0, PROLOGUE_LEN as int) == prologue_spec()
                && final(self).spec_phase() == HandshakePhase::SentFirst,
            r matches Err(e) ==> e matches Error::Connection(ConnectionError::HandshakeFailed)
                && final(self).spec_phase() == HandshakePhase::Failed,
    {
        if self.phase != HandshakePhase::Idle {
            self.phase = HandshakePhase::Failed;
            return Err(handshake_failed());
        }
        match handshake_write(&mut self.engine) {
            Some(msg) => {
                let mut frame = prologue();
                write_raw(&mut frame, msg.as_slice());
                assert(frame@.subrange(0, PROLOGUE_LEN as int) =~= prologue_spec());
                self.phase = HandshakePhase::SentFirst;
                Ok(frame)
            },
            None => {
                self.phase = HandshakePhase::Failed;
                Err(handshake_failed())
            },
        }
    }

    /// Takes in the peer's frame (the second handshake message) and gives the
    /// body of the third. Only in phase `SentFirst`; moves to `SentSecond`.
    pub fn on_server_hello(&mut self, frame: &[u8]) -> (r: Result<Vec<u8>, Error>)
        ensures
            old(self).spec_phase() != HandshakePhase::SentFirst ==> r is Err,
            r is Ok ==> final(self).spec_phase() == HandshakePhase::SentSecond,
            r matches Err(e) ==> e matches Error::Connection(ConnectionError::HandshakeFailed)
                && final(self).spec_phase() == HandshakePhase::Failed,
    {
        if self.phase != HandshakePhase::SentFirst {
            self.phase = HandshakePhase::Failed;
            return Err(handshake_failed());
        }
        if !handshake_read(&mut self.engine, frame) {
            self.phase = HandshakePhase::Failed;
            return Err(handshake_failed());
        }
        match handshake_write(&mut self.engine) {
            Some(msg) => {
                self.phase = HandshakePhase::SentSecond;
                Ok(msg)
            },
            None => {
                self.phase = HandshakePhase::Failed;
                Err(handshake_failed())
            },
        }
    }

    /// The encrypted channel, once the third message is out and the engine
    /// reports the handshake complete.
    pub fn finish(self) -> (r: Result<SecureChannel, Error>)
        ensures
            self.spec_phase() != HandshakePhase::SentSecond ==> r is Err,
            r matches Err(e) ==> e matches Error::Connection(ConnectionError::HandshakeFailed),
    {
        if self.phase != HandshakePhase::SentSecond {
            return Err(handshake_failed());
        }
        if !self.engine.is_handshake_finished() {
            return Err(handshake_failed());
        }
        match into_transport(self.engine) {
            Some(transport) => Ok(SecureChannel { transport }),
            None => Err(handshake_failed()),
        }
    }
}

/// The two directional channel states that a finished handshake yields.
pub struct SecureChannel {
    transport: snow::TransportState,
}

impl SecureChannel {
    /// Encrypts one message with the sending state, which advances its nonce.
    /// A plaintext whose ciphertext (plaintext and 16-byte tag) would exceed
    /// the 65,535-byte message ceiling is refused, and the channel is left
    /// as it was.
    pub fn encrypt(&mut self, plaintext: &[u8]) -> (r: Result<Vec<u8>, Error>)
        ensures
            plaintext@.len() > MAX_PLAINTEXT_LEN <==> r matches Err(Error::Connection(ConnectionError::PayloadTooLarge)),
            plaintext@.len() > MAX_PLAINTEXT_LEN ==> *final(self) == *old(self),
            plaintext@.len() <= MAX_PLAINTEXT_LEN ==> (r matches Err(e) ==> e matches Error::Send(SendError::EncryptionFailed)),
            r matches Ok(c) ==> c@.len() == plaintext@.len() + TAG_LEN,
    {
        if plaintext.len() > MAX_PLAINTEXT_LEN {
            return Err(Error::Connection(ConnectionError::PayloadTooLarge));
        }
        match transport_write(&mut self.transport, plaintext) {
            Some(c) => Ok(c),
            None => Err(Error::Send(SendError::EncryptionFailed)),
        }
    }

    /// Decrypts one message with the receiving state, which advances its
    /// nonce. A failure leaves the channel unusable.
    pub fn decrypt(&mut self, ciphertext: &[u8]) -> (r: Result<Vec<u8>, Error>)
        ensures
            r matches Err(e) ==> e matches Error::Connection(ConnectionError::DecryptionFailed),
            r matches Ok(p) ==> p@.len() + 16 == ciphertext@.len(),
    {
        match transport_read(&mut self.transport, ciphertext) {
            Some(p) => Ok(p),
            None => Err(Error::Connection(ConnectionError::DecryptionFailed)),
        }
    }
}

} // verus!
