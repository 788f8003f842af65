use snmp_dc::response::{reading_for_packet, PacketError};

fn tlv(tag: u8, content: &[u8]) -> Vec<u8> {
    assert!(content.len() < 128);
    let mut v = vec![tag, content.len() as u8];
    v.extend_from_slice(content);
    v
}

/// A GetResponse with request id `req_id` holding the bindings `bindings`
/// (each an encoded value bound to OID 1.3.6.1).
fn response(req_id: &[u8], bindings: &[Vec<u8>]) -> Vec<u8> {
    let mut list = Vec::new();
    for value in bindings {
        let mut b = tlv(0x06, &[0x2b, 0x06, 0x01]);
        b.extend_from_slice(value);
        list.extend(tlv(0x30, &b));
    }
    let mut pdu = tlv(0x02, req_id);
    pdu.extend(tlv(0x02, &[0]));
    pdu.extend(tlv(0x02, &[0]));
    pdu.extend(tlv(0x30, &list));
    let mut msg = tlv(0x02, &[1]);
    msg.extend(tlv(0x04, b"public"));
    msg.extend(tlv(0xa2, &pdu));
    tlv(0x30, &msg)
}

#[test]
fn counter32_response() {
    let p = response(&[0x05], &[tlv(0x41, &[0x2a])]);
    let vp = reading_for_packet(&p).unwrap().unwrap();
    assert_eq!((vp.id, vp.vtype, vp.value), (5, 64, 42));
}

#[test]
fn counter64_response_with_long_request_id() {
    let p = response(&[0x01, 0x86, 0xa1], &[tlv(0x46, &[0xff, 0xff, 0xff, 0xff, 0xff, 0xff, 0xff, 0xff])]);
    let vp = reading_for_packet(&p).unwrap().unwrap();
    assert_eq!((vp.id, vp.vtype, vp.value), (100001, 70, u64::MAX as i128));
}

#[test]
fn integer_response_takes_first_binding() {
    let p = response(&[0x07], &[tlv(0x02, &[0xd6]), tlv(0x41, &[0x01])]);
    let vp = reading_for_packet(&p).unwrap().unwrap();
    assert_eq!((vp.id, vp.vtype, vp.value), (7, 80, -42));
}

#[test]
fn other_value_response() {
    let p = response(&[0x08], &[tlv(0x04, b"text")]);
    let vp = reading_for_packet(&p).unwrap().unwrap();
    assert_eq!((vp.id, vp.vtype, vp.value), (8, 0, 0));
}

#[test]
fn response_without_binding() {
    let p = response(&[0x09], &[]);
    assert!(reading_for_packet(&p).unwrap().is_none());
}

#[test]
fn undecodable_datagram() {
    assert_eq!(reading_for_packet(&[]).unwrap_err(), PacketError::Undecodable);
    assert_eq!(reading_for_packet(&[0x02, 0x01, 0x00]).unwrap_err(), PacketError::Undecodable);
    let mut p = response(&[0x05], &[tlv(0x41, &[0x2a])]);
    p[4] = 0x02; // version 2 is not SNMPv2c
    assert_eq!(reading_for_packet(&p).unwrap_err(), PacketError::Undecodable);
}

#[test]
fn unsafe_length_headers() {
    assert_eq!(reading_for_packet(&[0x30, 0x89, 0, 0, 0, 0, 0, 0, 0, 0, 0]).unwrap_err(), PacketError::UnsafeLengths);
    assert_eq!(reading_for_packet(&[0x30, 0x84, 0x00]).unwrap_err(), PacketError::UnsafeLengths);
    // a truncated long-form length in the first binding's value
    let p = response(&[0x05], &[vec![0x41, 0x84, 0x00]]);
    assert_eq!(reading_for_packet(&p).unwrap_err(), PacketError::UnsafeLengths);
}

#[test]
fn long_form_lengths_are_read() {
    let mut p = response(&[0x05], &[tlv(0x41, &[0x2a])]);
    // rewrite the outer length in the long form: 0x81 <len>
    let len = p[1];
    p.splice(1..2, [0x81, len]);
    let vp = reading_for_packet(&p).unwrap().unwrap();
    assert_eq!((vp.id, vp.value), (5, 42));
}

#[test]
fn counter64_too_long_has_no_value() {
    // nine content octets do not decode, so the first binding yields nothing
    let p = response(&[0x05], &[tlv(0x46, &[0x00, 0xff, 0xff, 0xff, 0xff, 0xff, 0xff, 0xff, 0xff])]);
    assert!(reading_for_packet(&p).unwrap().is_none());
}

#[test]
fn empty_integers_are_refused() {
    // an empty version
    assert_eq!(reading_for_packet(&[0x30, 0x02, 0x02, 0x00]).unwrap_err(), PacketError::UnsafeLengths);
    // an empty request id
    let p = response(&[], &[tlv(0x41, &[0x2a])]);
    assert_eq!(reading_for_packet(&p).unwrap_err(), PacketError::UnsafeLengths);
    // an empty Counter32, an empty INTEGER and an empty Counter64 as the first value
    for tag in [0x41u8, 0x02, 0x42, 0x43, 0x46] {
        let p = response(&[0x05], &[vec![tag, 0x00]]);
        assert_eq!(reading_for_packet(&p).unwrap_err(), PacketError::UnsafeLengths);
    }
}

#[test]
fn empty_value_of_other_kind_is_read() {
    // an empty OCTET STRING is no integer: it decodes, and yields vtype 0
    let p = response(&[0x05], &[vec![0x04, 0x00]]);
    let vp = reading_for_packet(&p).unwrap().unwrap();
    assert_eq!((vp.id, vp.vtype, vp.value), (5, 0, 0));
}

#[test]
fn length_octets_beyond_a_usize_are_refused() {
    let header = [0x30, 0x85, 0, 0, 0, 0, 0];
    let r = reading_for_packet(&header).unwrap_err();
    if usize::BITS / 8 < 5 {
        assert_eq!(r, PacketError::UnsafeLengths);
    } else {
        // five length octets fit a usize here: the empty message does not decode
        assert_eq!(r, PacketError::Undecodable);
    }
}
