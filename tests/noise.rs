use wamd::error::ConnectionError;
use wamd::frame::{decode_frame, encode_frame};
use wamd::noise::{prologue, ClientHandshake, HandshakePhase, NOISE_PATTERN, PROLOGUE_LEN};
use wamd::{generate_pairing_keys, Error};

fn responder() -> snow::HandshakeState {
    let params: snow::params::NoiseParams = NOISE_PATTERN.parse().unwrap();
    let kp = snow::Builder::new(params.clone()).generate_keypair().unwrap();
    snow::Builder::new(params)
        .local_private_key(&kp.private)
        .unwrap()
        .prologue(&prologue())
        .unwrap()
        .build_responder()
        .unwrap()
}

fn pipe(body: &[u8]) -> Vec<u8> {
    decode_frame(&encode_frame(body).unwrap()).unwrap()
}

#[test]
fn prologue_bytes() {
    let p = prologue();
    assert_eq!(p.len(), PROLOGUE_LEN);
    assert_eq!(&p[..4], &[b'W', b'A', 6, 3]);
    assert_eq!(&p[4..], b"Noise_XX_25519_AESGCM_SHA256\x00\x00\x00\x00");
}

#[test]
fn handshake_with_cooperating_peer() {
    let keys = generate_pairing_keys();
    let mut server = responder();
    let mut buf = vec![0u8; 65535];
    let mut hs = ClientHandshake::new(&keys.noise_private).unwrap();
    assert_eq!(hs.phase(), HandshakePhase::Idle);
    let first = pipe(&hs.first_frame().unwrap());
    assert_eq!(hs.phase(), HandshakePhase::SentFirst);
    assert_eq!(&first[..PROLOGUE_LEN], prologue().as_slice());
    server.read_message(&first[PROLOGUE_LEN..], &mut buf).unwrap();
    let n = server.write_message(&[], &mut buf).unwrap();
    let second = pipe(&buf[..n]);
    let third = pipe(&hs.on_server_hello(&second).unwrap());
    assert_eq!(hs.phase(), HandshakePhase::SentSecond);
    server.read_message(&third, &mut buf).unwrap();
    assert!(server.is_handshake_finished());
    let mut channel = hs.finish().unwrap();
    let mut peer = server.into_transport_mode().unwrap();

    let c = pipe(&channel.encrypt(b"hello server").unwrap());
    let n = peer.read_message(&c, &mut buf).unwrap();
    assert_eq!(&buf[..n], b"hello server");
    let c2 = channel.encrypt(b"second").unwrap();
    let n = peer.read_message(&c2, &mut buf).unwrap();
    assert_eq!(&buf[..n], b"second");

    let mut out = vec![0u8; 100];
    let n = peer.write_message(b"hello client", &mut out).unwrap();
    assert_eq!(channel.decrypt(&out[..n]).unwrap(), b"hello client".to_vec());
    assert!(matches!(
        channel.decrypt(&out[..n]),
        Err(Error::Connection(ConnectionError::DecryptionFailed))
    ));
}

#[test]
fn handshake_steps_out_of_order_fail() {
    let keys = generate_pairing_keys();
    let mut hs = ClientHandshake::new(&keys.noise_private).unwrap();
    assert!(matches!(
        hs.on_server_hello(&[1, 2, 3]),
        Err(Error::Connection(ConnectionError::HandshakeFailed))
    ));
    assert_eq!(hs.phase(), HandshakePhase::Failed);
    assert!(hs.first_frame().is_err());
    let hs2 = ClientHandshake::new(&keys.noise_private).unwrap();
    assert!(matches!(hs2.finish(), Err(Error::Connection(ConnectionError::HandshakeFailed))));
}

#[test]
fn handshake_rejects_garbage_answer() {
    let keys = generate_pairing_keys();
    let mut hs = ClientHandshake::new(&keys.noise_private).unwrap();
    hs.first_frame().unwrap();
    assert!(matches!(
        hs.on_server_hello(&[0u8; 10]),
        Err(Error::Connection(ConnectionError::HandshakeFailed))
    ));
    assert_eq!(hs.phase(), HandshakePhase::Failed);
}

#[test]
fn payload_size_ceiling() {
    let keys = generate_pairing_keys();
    let mut server = responder();
    let mut buf = vec![0u8; 65535];
    let mut hs = ClientHandshake::new(&keys.noise_private).unwrap();
    let first = hs.first_frame().unwrap();
    server.read_message(&first[PROLOGUE_LEN..], &mut buf).unwrap();
    let n = server.write_message(&[], &mut buf).unwrap();
    let third = hs.on_server_hello(&buf[..n]).unwrap();
    server.read_message(&third, &mut buf).unwrap();
    let mut channel = hs.finish().unwrap();
    assert!(matches!(
        channel.encrypt(&vec![0u8; 65536]),
        Err(Error::Connection(ConnectionError::PayloadTooLarge))
    ));
    assert!(matches!(
        channel.encrypt(&vec![0u8; 65520]),
        Err(Error::Connection(ConnectionError::PayloadTooLarge))
    ));
    let mut peer = server.into_transport_mode().unwrap();
    let mut out = vec![0u8; 65535];
    let c1 = channel.encrypt(&vec![0u8; 100]).unwrap();
    assert_eq!(c1.len(), 116);
    assert_eq!(peer.read_message(&c1, &mut out).unwrap(), 100);
    let c2 = channel.encrypt(&vec![3u8; 65519]).unwrap();
    assert_eq!(c2.len(), 65535);
    assert_eq!(peer.read_message(&c2, &mut out).unwrap(), 65519);
}
