use wamd::jid::{BROADCAST_SERVER, DEFAULT_USER_SERVER, GROUP_SERVER};
use wamd::Jid;

#[test]
fn jid_new_and_display() {
    let j = Jid::new("123456789", "s.whatsapp.net");
    assert_eq!(j.to_string(), "123456789@s.whatsapp.net");
    assert!(!j.is_empty());
    assert!(!j.is_broadcast_list());
}

#[test]
fn jid_parse_roundtrip() {
    let s = "123456789@g.us";
    let j: Jid = s.parse().unwrap();
    assert_eq!(j.user, "123456789");
    assert_eq!(j.server, "g.us");
    assert_eq!(j.to_string(), s);
}

#[test]
fn jid_parse_server_only() {
    let j: Jid = "g.us".parse().unwrap();
    assert_eq!(j.user, "");
    assert_eq!(j.server, "g.us");
    assert_eq!(j.to_string(), "g.us");
}

#[test]
fn jid_with_device() {
    let j: Jid = "123:0@s.whatsapp.net".parse().unwrap();
    assert_eq!(j.user, "123");
    assert_eq!(j.device, 0);
    assert_eq!(j.server, "s.whatsapp.net");
}

#[test]
fn jid_well_known() {
    assert_eq!(Jid::group_server().server, GROUP_SERVER);
    assert_eq!(Jid::default_server().server, DEFAULT_USER_SERVER);
    assert!(Jid::status_broadcast().is_broadcast_list() == false);
    let list = Jid::new("abc", BROADCAST_SERVER);
    assert!(list.is_broadcast_list());
}

#[test]
fn jid_to_non_ad() {
    let j = Jid::new_ad("user", 1, 2, "s.whatsapp.net");
    let n = j.to_non_ad();
    assert_eq!(n.raw_agent, 0);
    assert_eq!(n.device, 0);
    assert_eq!(n.user, "user");
}

#[test]
fn jid_user_int() {
    let j = Jid::new("987654321", "s.whatsapp.net");
    assert_eq!(j.user_int(), 987_654_321);
}

#[test]
fn jid_user_int_edge_cases() {
    assert_eq!(Jid::new("abc", "s").user_int(), 0);
    assert_eq!(Jid::new("", "s").user_int(), 0);
    assert_eq!(Jid::new("+42", "s").user_int(), 42);
    assert_eq!(Jid::new("18446744073709551615", "s").user_int(), u64::MAX);
    assert_eq!(Jid::new("18446744073709551616", "s").user_int(), 0);
}

#[test]
fn jid_agent_and_device_forms() {
    let j: Jid = "5.1:7@s.whatsapp.net".parse().unwrap();
    assert_eq!((j.user.as_str(), j.raw_agent, j.device), ("5", 1, 7));
    assert_eq!(j.to_string(), "5.1:7@s.whatsapp.net");
    let k: Jid = "5:12@s.whatsapp.net".parse().unwrap();
    assert_eq!(k.to_string(), "5:12@s.whatsapp.net");
    let a: Jid = "5.3@lid".parse().unwrap();
    assert_eq!((a.raw_agent, a.device), (3, 0));
    assert_eq!(Jid::new_ad("u", 2, 0, "s").to_string(), "u.2:0@s");
}

#[test]
fn jid_parse_errors() {
    assert!("a@b@c".parse::<Jid>().is_err());
    assert!("u.x@s".parse::<Jid>().is_err());
    assert!("u.256@s".parse::<Jid>().is_err());
    assert!("u:70000@s".parse::<Jid>().is_err());
    assert!("u:1:2@s".parse::<Jid>().is_err());
}

#[test]
fn jid_empty() {
    assert!(Jid::server("").is_empty());
    assert_eq!(Jid::new("", "").to_string(), "");
}

#[test]
fn jid_equality_and_text_round_trip() {
    let a: Jid = "5.1:7@s.whatsapp.net".parse().unwrap();
    assert_eq!(a, Jid::new_ad("5", 1, 7, "s.whatsapp.net"));
    assert_ne!(a, a.to_non_ad());
    let b: Jid = a.to_string().parse().unwrap();
    assert_eq!(a, b);
}
