use snmp_dc::request::{encode_get_request, Attribute};

fn build_with_crate(community: &[u8], id: i32, name: &[u32]) -> Vec<u8> {
    let mut buf = snmp::pdu::Buf::default();
    snmp::pdu::build_get(community, id, name, &mut buf);
    buf[..].to_vec()
}

#[test]
fn attribute_new_copies_fields() {
    let a = Attribute::new(100001, "1.3.6.1.2.1.2.2.1.10.1", "192.168.1.1:161", "public");
    assert_eq!(a.id, 100001);
    assert_eq!(a.oid, "1.3.6.1.2.1.2.2.1.10.1");
    assert_eq!(a.ip_addr, "192.168.1.1:161");
    assert_eq!(a.community, "public");
}

#[test]
fn get_request_bytes() {
    let a = Attribute::new(1, "1.3.6.1", "127.0.0.1:161", "public");
    let bytes = encode_get_request(&a).unwrap();
    let expected: Vec<u8> = vec![
        0x30, 0x21, 0x02, 0x01, 0x01, 0x04, 0x06, b'p', b'u', b'b', b'l', b'i', b'c', 0xa0, 0x14,
        0x02, 0x01, 0x01, 0x02, 0x01, 0x00, 0x02, 0x01, 0x00, 0x30, 0x09, 0x30, 0x07, 0x06, 0x03,
        0x2b, 0x06, 0x01, 0x05, 0x00,
    ];
    assert_eq!(bytes, expected);
}

#[test]
fn get_request_matches_encoder() {
    let a = Attribute::new(100012, "1.3.6.1.2.1.2.2.1.16.12", "10.0.0.1:161", "private");
    let bytes = encode_get_request(&a).unwrap();
    assert_eq!(bytes, build_with_crate(b"private", 100012, &[1, 3, 6, 1, 2, 1, 2, 2, 1, 16, 12]));
}

#[test]
fn get_request_large_subids() {
    let a = Attribute::new(-5, "1.3.6.1.4.1.4294967295.128", "10.0.0.1:161", "c");
    let bytes = encode_get_request(&a).unwrap();
    assert_eq!(bytes, build_with_crate(b"c", -5, &[1, 3, 6, 1, 4, 1, 4294967295, 128]));
}

#[test]
fn get_request_refused_for_short_name() {
    let a = Attribute::new(1, "1", "10.0.0.1:161", "public");
    assert!(encode_get_request(&a).is_none());
    let b = Attribute::new(1, "", "10.0.0.1:161", "public");
    assert!(encode_get_request(&b).is_none());
}

#[test]
fn get_request_refused_for_bad_leading_arcs() {
    let a = Attribute::new(1, "3.1.1", "10.0.0.1:161", "public");
    assert!(encode_get_request(&a).is_none());
    let b = Attribute::new(1, "1.40.1", "10.0.0.1:161", "public");
    assert!(encode_get_request(&b).is_none());
    let c = Attribute::new(1, "2.39", "10.0.0.1:161", "public");
    assert!(encode_get_request(&c).is_some());
}

#[test]
fn get_request_at_encoder_capacity() {
    // With OID 1.3 and request id 1 the content is the community length + 27
    // octets; the encoder holds content up to 4091 octets.
    let community = "x".repeat(4064);
    let a = Attribute::new(1, "1.3", "10.0.0.1:161", &community);
    let bytes = encode_get_request(&a).unwrap();
    assert_eq!(bytes.len(), 4095);
    assert_eq!(bytes, build_with_crate(community.as_bytes(), 1, &[1, 3]));
    let community = "x".repeat(4065);
    let b = Attribute::new(1, "1.3", "10.0.0.1:161", &community);
    assert!(encode_get_request(&b).is_none());
}

#[test]
fn get_request_large_community() {
    let community = "y".repeat(3990);
    let a = Attribute::new(7, "1.3.6.1", "10.0.0.1:161", &community);
    let bytes = encode_get_request(&a).unwrap();
    assert_eq!(bytes.len(), 4023);
    assert_eq!(bytes, build_with_crate(community.as_bytes(), 7, &[1, 3, 6, 1]));
}

#[test]
fn get_request_capacity_with_long_ids() {
    let community = "z".repeat(4000);
    let a = Attribute::new(i32::MIN, "1.3.6.1.4.1.4294967295.128", "10.0.0.1:161", &community);
    let bytes = encode_get_request(&a).unwrap();
    assert_eq!(bytes, build_with_crate(community.as_bytes(), i32::MIN, &[1, 3, 6, 1, 4, 1, 4294967295, 128]));
}
