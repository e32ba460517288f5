//! Error kinds of the library.

use vstd::prelude::*;
use crate::events::ConnectFailureReason;

verus! {

/// Every failure that the library hands back to its caller.
#[derive(Debug)]
pub enum Error {
    /// The connection, the handshake or the encrypted channel failed.
    Connection(ConnectionError),
    /// A pairing payload or blob did not authenticate.
    Pairing(PairingError),
    /// The device store refused an operation.
    Store(StoreError),
    /// A message could not be sent.
    Send(SendError),
    /// A node could not be encoded or decoded.
    Binary(String),
    /// A socket message is not a well-formed frame.
    Frame(FrameError),
    /// The operation needs a live connection.
    NotConnected,
    /// The operation needs a paired device.
    NotLoggedIn,
}

/// Connection-related failures.
#[derive(Debug)]
pub enum ConnectionError {
    /// The underlying socket reported an error.
    WebSocket(String),
    /// The handshake did not complete.
    HandshakeFailed,
    /// A deadline on the socket expired.
    Timeout,
    /// The peer closed the socket.
    Disconnected,
    /// The server refused the connection.
    ConnectFailure(ConnectFailureReason),
    /// A plaintext is over the secure-channel message ceiling.
    PayloadTooLarge,
    /// An incoming frame failed authentication; the channel is unusable.
    DecryptionFailed,
}

/// Malformed frame boundaries.
#[derive(Clone, Copy, Debug, PartialEq, Eq, Structural)]
pub enum FrameError {
    /// The message is shorter than the length prefix.
    TooShort,
    /// The declared length differs from the number of body bytes.
    LengthMismatch,
    /// The body is longer than a length prefix can state.
    TooLarge,
}

/// Pairing failures.
#[derive(Debug)]
pub enum PairingError {
    /// The trailing authentication tag of an identity payload is wrong.
    InvalidDeviceIdentityHmac,
    /// A signed identity blob does not verify.
    InvalidDeviceSignature,
    /// Pairing was refused on this side.
    RejectedLocally,
    /// The server broke the pairing protocol.
    Protocol(String),
    /// Persisting the pairing failed.
    Database(String),
}

/// Device store failures.
#[derive(Debug)]
pub enum StoreError {
    /// Saving failed.
    Save(String),
    /// Loading failed.
    Load(String),
    /// No identity is stored.
    IdentityNotFound,
}

/// Send failures.
#[derive(Debug)]
pub enum SendError {
    /// A retried message is unknown.
    MessageNotFoundForRetry,
    /// Encrypting the message failed.
    EncryptionFailed,
    /// No response came in time.
    Timeout,
    /// The server reported an error.
    Server(String),
}

} // verus!
