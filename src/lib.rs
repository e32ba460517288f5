//! Client-side core of a multidevice messaging protocol: the binary node
//! codec, length-prefixed framing, the handshake and encrypted channel, and
//! the pairing cryptography.

pub mod client;
pub mod codec;
pub mod engine;
pub mod error;
pub mod events;
pub mod frame;
pub mod jid;
pub mod node;
pub mod noise;
pub mod pairing;
pub mod store;
pub mod text;

pub use client::{ClientState, CompletePairingParams, SendRequestExtra, SendResponse};
pub use error::Error;
pub use events::{Event, MessageId};
pub use jid::Jid;
pub use node::{Attrs, Node, NodeContent};
pub use pairing::{
    generate_pairing_keys, sign_device_identity, verify_device_identity, verify_signed_identity,
    PairingKeys, VerifiedIdentity,
};
pub use store::{Device, MemoryStore};
