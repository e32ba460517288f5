use sha2::Digest;
use wamd::client::{message_id, pairing_material, paired_device, ClientState, ConnectStep};
use wamd::events::ConnectFailureReason;
use wamd::{CompletePairingParams, Device, Error, Jid, MemoryStore};

#[test]
fn memory_store_save_and_get_first() {
    let mut store = MemoryStore::new();
    let mut dev = Device::default();
    dev.id = Some(Jid::new("123", "s.whatsapp.net"));
    store.save(dev);
    let loaded = store.get_first_device().unwrap();
    assert_eq!(loaded.id.as_ref().unwrap().to_string(), "123@s.whatsapp.net");
}

#[test]
fn memory_store_get_device_by_jid() {
    let mut store = MemoryStore::new();
    let jid = Jid::new("456", "s.whatsapp.net");
    let mut dev = Device::default();
    dev.id = Some(jid.clone());
    store.save(dev);
    let loaded = store.get_device(&jid).unwrap();
    assert!(loaded.id.is_some());
}

#[test]
fn memory_store_delete() {
    let mut store = MemoryStore::new();
    let jid = Jid::new("789", "s.whatsapp.net");
    let mut dev = Device::default();
    dev.id = Some(jid.clone());
    store.save(dev);
    assert!(store.get_device(&jid).is_some());
    store.delete(&jid);
    assert!(store.get_device(&jid).is_none());
    assert!(store.get_first_device().is_none());
}

#[test]
fn memory_store_get_all_devices() {
    let mut store = MemoryStore::new();
    let mut d1 = Device::default();
    d1.id = Some(Jid::new("1", "s.whatsapp.net"));
    let mut d2 = Device::default();
    d2.id = Some(Jid::new("2", "s.whatsapp.net"));
    store.save(d1);
    store.save(d2);
    store.save(Device::default());
    let all = store.get_all_devices();
    assert_eq!(all.len(), 2);
}

#[test]
fn memory_store_unpaired_device_and_replacement() {
    let mut store = MemoryStore::new();
    let mut d = Device::default();
    d.registration_id = 5;
    store.save(d);
    assert_eq!(store.get_first_device().unwrap().registration_id, 5);
    let mut d2 = Device::default();
    d2.id = Some(Jid::new("9", "s"));
    d2.registration_id = 1;
    store.save(d2.clone());
    d2.registration_id = 2;
    store.save(d2);
    assert_eq!(store.get_first_device().unwrap().registration_id, 2);
    assert_eq!(store.get_all_devices().len(), 1);
}

#[test]
fn message_id_format() {
    let id = message_id(1_700_000_000, &[7u8; 16]);
    assert!(id.starts_with("3EB0"));
    assert_eq!(id.len(), 4 + 18);
    let mut data = 1_700_000_000u64.to_be_bytes().to_vec();
    data.extend_from_slice(b"@c.us");
    data.extend_from_slice(&[7u8; 16]);
    let hash = sha2::Sha256::digest(&data);
    assert_eq!(id, format!("3EB0{}", hex::encode(&hash[..9])));
    assert_ne!(id, message_id(1_700_000_001, &[7u8; 16]));
}

#[test]
fn connect_failure_reasons() {
    assert_eq!(ConnectFailureReason::from_code(401), Some(ConnectFailureReason::LoggedOut));
    assert_eq!(ConnectFailureReason::from_code(503), Some(ConnectFailureReason::ServiceUnavailable));
    assert_eq!(ConnectFailureReason::from_code(404), None);
    assert!(ConnectFailureReason::MainDeviceGone.is_logged_out());
    assert!(!ConnectFailureReason::TempBanned.is_logged_out());
    assert_eq!(ConnectFailureReason::CATExpired.code(), 413);
    assert_eq!(
        ConnectFailureReason::LoggedOut.describe(),
        "logged out from another device (code 401)"
    );
    assert_eq!(ConnectFailureReason::Generic.describe(), "connection failure (code 400)");
}

#[test]
fn client_state_transitions() {
    let mut st = ClientState::new();
    assert_eq!(st.connect_step(), ConnectStep::ShowQr);
    assert!(matches!(st.check_send(), Err(Error::NotConnected)));
    let mut d = Device::default();
    d.id = Some(Jid::new("123", "s.whatsapp.net"));
    st.load_device(Some(d));
    assert!(st.logged_in);
    assert_eq!(st.connect_step(), ConnectStep::Open);
    st.on_connected();
    assert!(st.check_send().is_ok());
    let gone = st.disconnect(false);
    assert!(gone.is_none() && !st.connected && st.logged_in);
    let gone = st.disconnect(true);
    assert_eq!(gone.unwrap().to_string(), "123@s.whatsapp.net");
    assert!(!st.logged_in && st.device.is_none());
}

#[test]
fn pairing_flow_builds_device() {
    let (keys, account) = pairing_material(b"device-identity-payload", None).unwrap();
    assert_eq!(&account[96..], b"device-identity-payload");
    assert_eq!(wamd::verify_signed_identity(&account).unwrap(), b"device-identity-payload".to_vec());
    let params = CompletePairingParams {
        device_identity_bytes: b"device-identity-payload",
        req_id: "req1",
        business_name: "Biz",
        platform: "Rust",
        jid: Jid::new("123", "s.whatsapp.net"),
        lid: Jid::new("123", "lid.whatsapp.net"),
        hmac_key: None,
    };
    let mut base = Device::default();
    base.registration_id = 7;
    let d = paired_device(base, &params, &keys, account);
    assert_eq!(d.id.as_ref().unwrap().to_string(), "123@s.whatsapp.net");
    assert_eq!(d.lid.as_ref().unwrap().server, "lid.whatsapp.net");
    assert_eq!(d.business_name.as_deref(), Some("Biz"));
    assert_eq!(d.platform.as_deref(), Some("Rust"));
    assert_eq!(d.identity_key_pub, Some(keys.identity_public));
    assert_eq!(d.account.as_ref().unwrap().len(), 96 + 23);
    assert_eq!(d.registration_id, 0);
    assert!(matches!(
        pairing_material(b"too short", Some(b"key")),
        Err(Error::Pairing(_))
    ));
}
