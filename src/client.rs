//! The decisions of a client session, apart from the socket: which step a
//! connect takes, what a disconnect clears, what pairing produces, and the
//! form of message identifiers.

use vstd::prelude::*;
use sha2::Digest;
use crate::error::Error;
use crate::events::MessageId;
use crate::jid::{same_jid, Jid};
use crate::pairing::{
    generate_pairing_keys, identity_tag_ok, sign_device_identity, signed_by, verify_device_identity,
    PairingKeys, HMAC_LEN,
};
use crate::store::Device;
use crate::codec::write_raw;

verus! {

/// The SHA-256 digest of `b`.
pub uninterp spec fn sha256_of(b: Seq<u8>) -> Seq<u8>;

/// Relies on sha2's `Sha256::digest`: the digest of the bytes.
#[verifier::external_body]
fn sha256(b: &[u8]) -> (r: Vec<u8>)
    ensures
        r@ == sha256_of(b@),
        r@.len() == 32,
{
    sha2::Sha256::digest(b).to_vec()
}

/// The lowercase hexadecimal digit of `n`.
pub open spec fn hex_digit(n: nat) -> char {
    if n < 10 {
        crate::text::digit_char(n)
    } else if n == 10 { 'a' } else if n == 11 { 'b' } else if n == 12 { 'c' }
    else if n == 13 { 'd' } else if n == 14 { 'e' } else { 'f' }
}

/// Two lowercase hexadecimal digits per byte, high digit first.
pub open spec fn hex_text(b: Seq<u8>) -> Seq<char>
    decreases b.len(),
{
    if b.len() == 0 {
        Seq::empty()
    } else {
        hex_text(b.drop_last()) + seq![hex_digit((b.last() / 16) as nat), hex_digit((b.last() % 16) as nat)]
    }
}

/// Relies on `hex::encode`: two lowercase hexadecimal digits per byte.
#[verifier::external_body]
fn hex_encode(b: &[u8]) -> (r: String)
    ensures
        r@ == hex_text(b@),
{
    hex::encode(b)
}

/// The bytes hashed into a message identifier: the time as 8 big-endian
/// bytes, the text `@c.us`, then 16 random bytes.
pub open spec fn message_id_input(unix_secs: u64, random: Seq<u8>) -> Seq<u8> {
    seq![
        (unix_secs / 0x100000000000000) as u8, ((unix_secs / 0x1000000000000) % 256) as u8,
        ((unix_secs / 0x10000000000) % 256) as u8, ((unix_secs / 0x100000000) % 256) as u8,
        ((unix_secs / 0x1000000) % 256) as u8, ((unix_secs / 0x10000) % 256) as u8,
        ((unix_secs / 0x100) % 256) as u8, (unix_secs % 256) as u8,
        64, 99, 46, 117, 115,
    ] + random
}

/// The 8 big-endian bytes of `v`.
fn be_bytes(v: u64) -> (r: Vec<u8>)
    ensures
        r@ == message_id_input(v, Seq::empty()).take(8),
{
    let b0 = (v >> 56u64) as u8;
    let b1 = ((v >> 48u64) & 0xff) as u8;
    let b2 = ((v >> 40u64) & 0xff) as u8;
    let b3 = ((v >> 32u64) & 0xff) as u8;
    let b4 = ((v >> 24u64) & 0xff) as u8;
    let b5 = ((v >> 16u64) & 0xff) as u8;
    let b6 = ((v >> 8u64) & 0xff) as u8;
    let b7 = (v & 0xff) as u8;
    assert(b0 == (v / 0x100000000000000) as u8) by (bit_vector) requires b0 == (v >> 56u64) as u8;
    assert(b1 == ((v / 0x1000000000000) % 256) as u8) by (bit_vector) requires b1 == ((v >> 48u64) & 0xff) as u8;
    assert(b2 == ((v / 0x10000000000) % 256) as u8) by (bit_vector) requires b2 == ((v >> 40u64) & 0xff) as u8;
    assert(b3 == ((v / 0x100000000) % 256) as u8) by (bit_vector) requires b3 == ((v >> 32u64) & 0xff) as u8;
    assert(b4 == ((v / 0x1000000) % 256) as u8) by (bit_vector) requires b4 == ((v >> 24u64) & 0xff) as u8;
    assert(b5 == ((v / 0x10000) % 256) as u8) by (bit_vector) requires b5 == ((v >> 16u64) & 0xff) as u8;
    assert(b6 == ((v / 0x100) % 256) as u8) by (bit_vector) requires b6 == ((v >> 8u64) & 0xff) as u8;
    assert(b7 == (v % 256) as u8) by (bit_vector) requires b7 == (v & 0xff) as u8;
    let r: Vec<u8> = vec![b0, b1, b2, b3, b4, b5, b6, b7];
    assert(r@ =~= message_id_input(v, Seq::empty()).take(8));
    r
}

/// A message identifier: `3EB0` and the hexadecimal form of the first 9
/// bytes of the SHA-256 digest of the time and 16 random bytes.
pub fn message_id(unix_secs: u64, random: &[u8; 16]) -> (r: MessageId)
    ensures
        r@ == "3EB0"@ + hex_text(sha256_of(message_id_input(unix_secs, random@)).take(9)),
{
    let mut data = be_bytes(unix_secs);
    let tail: Vec<u8> = vec![64, 99, 46, 117, 115];
    write_raw(&mut data, tail.as_slice());
    write_raw(&mut data, random.as_slice());
    assert(data@ =~= message_id_input(unix_secs, random@)) by {
        assert(message_id_input(unix_secs, Seq::empty()).take(8) =~= message_id_input(unix_secs, random@).take(8));
    }
    let hash = sha256(data.as_slice());
    let mut first: Vec<u8> = Vec::new();
    let mut i: usize = 0;
    let n: usize = 9;
    while i < n
        invariant
            n <= hash@.len(),
            i <= n,
            first@ == hash@.subrange(0, i as int),
        decreases n - i,
    {
        first.push(hash[i]);
        i = i + 1;
        assert(first@ =~= hash@.subrange(0, i as int));
    }
    let hex = hex_encode(first.as_slice());
    let mut out = "3EB0".to_owned();
    let hex_chars = crate::text::chars_of(hex.as_str());
    let mut chars = crate::text::chars_of(out.as_str());
    crate::text::push_all(&mut chars, hex_chars.as_slice());
    assert(hash@.take(9) =~= first@);
    crate::text::string_of(chars.as_slice())
}

/// Parameters for completing pairing after a QR or pair-code flow.
#[derive(Clone, Debug)]
pub struct CompletePairingParams<'a> {
    /// The identity payload from the server; with `hmac_key`, followed by its tag.
    pub device_identity_bytes: &'a [u8],
    /// Request identifier of the pairing flow.
    pub req_id: &'a str,
    pub business_name: &'a str,
    pub platform: &'a str,
    pub jid: Jid,
    pub lid: Jid,
    /// When set, `device_identity_bytes` is checked as payload and tag first.
    pub hmac_key: Option<&'a [u8]>,
}

/// Result of sending a message.
#[derive(Clone, Debug)]
pub struct SendResponse {
    pub timestamp: std::time::SystemTime,
    pub id: MessageId,
    pub server_id: Option<i32>,
    pub sender: Option<Jid>,
}

/// Optional parameters for sending a message.
#[derive(Clone, Debug)]
pub struct SendRequestExtra {
    pub id: Option<MessageId>,
    pub peer: bool,
    pub timeout: Option<std::time::Duration>,
}

/// The payload that pairing signs: checked against its tag when there is
/// a key, else taken as it is.
pub open spec fn pairing_payload(bytes: Seq<u8>, key: Option<Seq<u8>>) -> Option<Seq<u8>> {
    match key {
        Some(k) => if identity_tag_ok(k, bytes) { Some(bytes.subrange(0, bytes.len() - HMAC_LEN)) } else { None },
        None => Some(bytes),
    }
}

/// The key material of a pairing: fresh keys, and the identity payload
/// signed with the new identity key.
pub fn pairing_material(device_identity_bytes: &[u8], hmac_key: Option<&[u8]>) -> (r: Result<(PairingKeys, Vec<u8>), Error>)
    ensures
        match pairing_payload(device_identity_bytes@, match hmac_key { Some(k) => Some(k@), None => None }) {
            Some(p) => r matches Ok((keys, account)) && account@.len() == 96 + p.len()
                && account@.subrange(96, account@.len() as int) == p
                && signed_by(keys.identity_private@, account@)
                && keys.identity_public@ == crate::pairing::ed25519_public_of(keys.identity_private@)
                && keys.noise_public@ == crate::pairing::x25519_public_of(keys.noise_private@),
            None => r matches Err(e) && e matches Error::Pairing(crate::error::PairingError::InvalidDeviceIdentityHmac),
        },
{
    let verified: Vec<u8> = match hmac_key {
        Some(key) => match verify_device_identity(device_identity_bytes, key) {
            Ok(v) => v.payload,
            Err(e) => return Err(e),
        },
        None => vstd::slice::slice_to_vec(device_identity_bytes),
    };
    let keys = generate_pairing_keys();
    let account = match sign_device_identity(verified.as_slice(), &keys.identity_private) {
        Ok(a) => a,
        Err(e) => return Err(e),
    };
    Ok((keys, account))
}

/// The device record after pairing: `base` with the new address, names,
/// keys and signed identity, and the counters reset.
pub fn paired_device(base: Device, params: &CompletePairingParams, keys: &PairingKeys, account: Vec<u8>) -> (r: Device)
    ensures
        r.id matches Some(i) && same_jid(i, params.jid),
        r.lid matches Some(l) && same_jid(l, params.lid),
        r.business_name matches Some(b) && b@ == params.business_name@,
        r.platform matches Some(p) && p@ == params.platform@,
        r.noise_key_pub == Some(keys.noise_public),
        r.noise_key_priv == Some(keys.noise_private),
        r.identity_key_pub == Some(keys.identity_public),
        r.identity_key_priv == Some(keys.identity_private),
        r.adv_secret_key == Some(keys.adv_secret),
        r.account == Some(account),
        r.registration_id == 0 && r.signed_prekey_id == 0,
{
    let mut device = base;
    device.id = Some(clone_jid(&params.jid));
    device.lid = Some(clone_jid(&params.lid));
    device.business_name = Some(params.business_name.to_owned());
    device.platform = Some(params.platform.to_owned());
    device.noise_key_pub = Some(keys.noise_public);
    device.noise_key_priv = Some(keys.noise_private);
    device.identity_key_pub = Some(keys.identity_public);
    device.identity_key_priv = Some(keys.identity_private);
    device.adv_secret_key = Some(keys.adv_secret);
    device.account = Some(account);
    device.registration_id = 0;
    device.signed_prekey_id = 0;
    device
}

/// A copy of `j`.
pub fn clone_jid(j: &Jid) -> (r: Jid)
    ensures
        same_jid(r, *j),
{
    let r = Jid {
        user: j.user.clone(),
        raw_agent: j.raw_agent,
        device: j.device,
        integrator: j.integrator,
        server: j.server.clone(),
    };
    r
}

/// What a connect does next.
#[derive(Clone, Copy, Debug, PartialEq, Eq, Structural)]
pub enum ConnectStep {
    /// No paired device: show QR codes for pairing.
    ShowQr,
    /// Open the socket and run the handshake.
    Open,
}

/// The connection state of a client: one value, changed as a whole.
pub struct ClientState {
    pub connected: bool,
    pub logged_in: bool,
    pub device: Option<Device>,
}

impl ClientState {
    /// Not connected, not logged in, no device.
    pub fn new() -> (r: ClientState)
        ensures
            !r.connected && !r.logged_in && r.device is None,
    {
        ClientState { connected: false, logged_in: false, device: None }
    }

    /// Takes the device loaded from the store; a paired one logs in.
    pub fn load_device(&mut self, device: Option<Device>)
        ensures
            final(self).device == device,
            final(self).connected == old(self).connected,
            final(self).logged_in == (old(self).logged_in || (device matches Some(d) && d.id is Some)),
    {
        if let Some(d) = &device {
            if d.is_logged_in() {
                self.logged_in = true;
            }
        }
        self.device = device;
    }

    /// The next step of a connect.
    pub fn connect_step(&self) -> (r: ConnectStep)
        ensures
            r == if self.device matches Some(d) && d.id is Some { ConnectStep::Open } else { ConnectStep::ShowQr },
    {
        match &self.device {
            Some(d) => if d.is_logged_in() { ConnectStep::Open } else { ConnectStep::ShowQr },
            None => ConnectStep::ShowQr,
        }
    }

    /// The connection is up and authenticated.
    pub fn on_connected(&mut self)
        ensures
            final(self).connected && final(self).logged_in,
            final(self).device == old(self).device,
    {
        self.connected = true;
        self.logged_in = true;
    }

    /// Disconnects; with `logout` also forgets the device, and returns the
    /// address whose record the store must delete.
    pub fn disconnect(&mut self, logout: bool) -> (r: Option<Jid>)
        ensures
            !final(self).connected,
            logout ==> !final(self).logged_in && final(self).device is None,
            !logout ==> final(self).logged_in == old(self).logged_in && final(self).device == old(self).device,
            match r {
                Some(j) => logout && (old(self).device matches Some(d) && (d.id matches Some(i) && same_jid(j, i))),
                None => !logout || old(self).device is None || old(self).device->Some_0.id is None,
            },
    {
        let mut gone: Option<Jid> = None;
        if logout {
            gone = match &self.device {
                Some(d) => match &d.id {
                    Some(j) => Some(clone_jid(j)),
                    None => None,
                },
                None => None,
            };
            self.device = None;
            self.logged_in = false;
        }
        self.connected = false;
        gone
    }

    /// Sending needs a connection.
    pub fn check_send(&self) -> (r: Result<(), Error>)
        ensures
            r is Ok <==> self.connected,
            r matches Err(e) ==> e is NotConnected,
    {
        if self.connected { Ok(()) } else { Err(Error::NotConnected) }
    }

    /// Records a completed pairing.
    pub fn on_paired(&mut self, device: Device)
        ensures
            final(self).device == Some(device),
            final(self).logged_in,
            final(self).connected == old(self).connected,
    {
        self.device = Some(device);
        self.logged_in = true;
    }
}

} // verus!
