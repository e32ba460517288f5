use wamd::codec::{decode, LIST_16, LIST_8};
use wamd::{Error, Node, NodeContent};

#[test]
fn encode_decode_roundtrip_empty() {
    let n = Node::new("iq");
    let data = n.encode().unwrap();
    let decoded = Node::decode(&data).unwrap();
    assert_eq!(decoded.tag, "iq");
    assert!(decoded.attrs.is_empty());
    assert!(matches!(decoded.content, NodeContent::Empty));
}

#[test]
fn encode_decode_roundtrip_with_attrs() {
    let n = Node::new("iq").with_attr("id", "1").with_attr("type", "get");
    let data = n.encode().unwrap();
    let decoded = Node::decode(&data).unwrap();
    assert_eq!(decoded.tag, "iq");
    assert_eq!(decoded.attrs.get("id").map(String::as_str), Some("1"));
    assert_eq!(decoded.attrs.get("type").map(String::as_str), Some("get"));
    assert!(matches!(decoded.content, NodeContent::Empty));
}

#[test]
fn encode_decode_roundtrip_with_children() {
    let child = Node::new("item").with_attr("jid", "123@s.whatsapp.net");
    let n = Node::new("list").with_children(vec![child]);
    let data = n.encode().unwrap();
    let decoded = Node::decode(&data).unwrap();
    assert_eq!(decoded.tag, "list");
    let nodes = decoded.get_children();
    assert_eq!(nodes.len(), 1);
    assert_eq!(nodes[0].tag, "item");
    assert_eq!(
        nodes[0].attrs.get("jid").map(String::as_str),
        Some("123@s.whatsapp.net")
    );
}

#[test]
fn encode_decode_roundtrip_bytes() {
    let n = Node::new("payload").with_content(b"hello binary".to_vec());
    let data = n.encode().unwrap();
    let decoded = Node::decode(&data).unwrap();
    assert_eq!(decoded.tag, "payload");
    match &decoded.content {
        NodeContent::Bytes(b) => assert_eq!(b.as_slice(), b"hello binary"),
        _ => panic!("expected Bytes content"),
    }
}

#[test]
fn encoding_of_simple_node_is_exact() {
    let n = Node::new("iq").with_attr("id", "1");
    let data = n.encode().unwrap();
    assert_eq!(data, vec![248, 3, 252, 2, b'i', b'q', 252, 2, b'i', b'd', 252, 1, b'1']);
}

#[test]
fn encoding_of_bytes_and_children_is_exact() {
    let n = Node::new("a").with_content(vec![7, 8]);
    assert_eq!(n.encode().unwrap(), vec![248, 2, 252, 1, b'a', 252, 2, 7, 8]);
    let p = Node::new("p").with_children(vec![Node::new("c")]);
    assert_eq!(
        p.encode().unwrap(),
        vec![248, 2, 252, 1, b'p', 248, 1, 248, 1, 252, 1, b'c']
    );
}

#[test]
fn long_string_uses_twenty_bit_length() {
    let tag = "x".repeat(300);
    let n = Node::new(&tag);
    let data = n.encode().unwrap();
    assert_eq!(&data[..6], &[248, 1, 253, 0, 1, 44]);
    let decoded = Node::decode(&data).unwrap();
    assert_eq!(decoded.tag, tag);
}

#[test]
fn oversize_string_fails_to_encode() {
    let tag = "y".repeat(0x10_0000);
    let n = Node::new(&tag);
    assert!(matches!(n.encode(), Err(Error::Binary(_))));
}

#[test]
fn oversize_bytes_fail_to_encode() {
    let n = Node::new("b").with_content(vec![0u8; 0x10_0000]);
    assert!(matches!(n.encode(), Err(Error::Binary(_))));
    let ok = Node::new("b").with_content(vec![0u8; 0x0F_FFFF]);
    let data = ok.encode().unwrap();
    match Node::decode(&data).unwrap().content {
        NodeContent::Bytes(b) => assert_eq!(b.len(), 0x0F_FFFF),
        _ => panic!("expected Bytes content"),
    }
}

#[test]
fn unicode_text_round_trips() {
    let n = Node::new("grüße").with_attr("name", "名前");
    let decoded = Node::decode(&n.encode().unwrap()).unwrap();
    assert_eq!(decoded.tag, "grüße");
    assert_eq!(decoded.attrs.get("name").map(String::as_str), Some("名前"));
}

#[test]
fn every_truncated_prefix_fails_to_decode() {
    let child = Node::new("item").with_attr("jid", "123@s.whatsapp.net");
    let n = Node::new("list")
        .with_attr("type", "result")
        .with_children(vec![child, Node::new("x").with_content(vec![1, 2, 3])]);
    let data = n.encode().unwrap();
    for k in 0..data.len() {
        assert!(matches!(Node::decode(&data[..k]), Err(Error::Binary(_))), "prefix {}", k);
    }
    assert!(Node::decode(&data).is_ok());
}

#[test]
fn decode_errors() {
    assert!(matches!(decode(&[]), Err(Error::Binary(_))));
    assert!(matches!(decode(&[LIST_8, 0]), Err(Error::Binary(_))));
    assert!(matches!(decode(&[7, 1]), Err(Error::Binary(_))));
    assert!(matches!(decode(&[LIST_8, 1, 17]), Err(Error::Binary(_))));
    assert!(matches!(decode(&[LIST_8, 2, 252, 1, b'a', 99]), Err(Error::Binary(_))));
    assert!(matches!(decode(&[LIST_8, 1, 252, 2, 0xff, 0xfe]), Err(Error::Binary(_))));
}

#[test]
fn decode_accepts_other_token_forms() {
    let n = decode(&[LIST_16, 0, 2, 0, 0]).unwrap();
    assert_eq!(n.tag, "");
    assert!(matches!(n.content, NodeContent::Empty));
}

#[test]
fn duplicate_keys_keep_the_last_value() {
    let data = [LIST_8, 5, 252, 1, b't', 252, 1, b'k', 252, 1, b'1', 252, 1, b'k', 252, 1, b'2'];
    let n = decode(&data).unwrap();
    assert_eq!(n.attrs.len(), 1);
    assert_eq!(n.attrs.get("k").map(String::as_str), Some("2"));
}

#[test]
fn child_lookup_by_tag() {
    let n = Node::new("list").with_children(vec![
        Node::new("a").with_attr("i", "1"),
        Node::new("b"),
        Node::new("a").with_attr("i", "2"),
    ]);
    let a = n.get_child_by_tag("a").unwrap();
    assert_eq!(a.attrs.get("i").map(String::as_str), Some("1"));
    assert!(n.get_child_by_tag("z").is_none());
    assert!(Node::new("e").get_child_by_tag("a").is_none());
    assert_eq!(Node::new("e").get_children().len(), 0);
}

#[test]
fn with_attr_replaces_a_value() {
    let n = Node::new("iq").with_attr("id", "1").with_attr("id", "2");
    assert_eq!(n.attrs.len(), 1);
    assert_eq!(n.attrs.get("id").map(String::as_str), Some("2"));
}
