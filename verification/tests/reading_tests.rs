use snmp_dc::reading::{reading_for_response, SnmpValue, ValuePair};

#[test]
fn counter32_reading() {
    let vp = ValuePair::from_value(100001, SnmpValue::Counter32(4000000000));
    assert_eq!((vp.id, vp.vtype, vp.value), (100001, 64, 4000000000));
}

#[test]
fn counter64_reading() {
    let vp = ValuePair::from_value(7, SnmpValue::Counter64(u64::MAX));
    assert_eq!((vp.id, vp.vtype, vp.value), (7, 70, u64::MAX as i128));
}

#[test]
fn integer_reading() {
    let vp = ValuePair::from_value(-3, SnmpValue::Integer(-42));
    assert_eq!((vp.id, vp.vtype, vp.value), (-3, 80, -42));
}

#[test]
fn other_reading() {
    let vp = ValuePair::from_value(9, SnmpValue::Other);
    assert_eq!((vp.id, vp.vtype, vp.value), (9, 0, 0));
}

#[test]
fn new_value_pair() {
    let vp = ValuePair::new(5, 80, 12);
    assert_eq!((vp.id, vp.vtype, vp.value), (5, 80, 12));
    assert!(vp.timestamp >= std::time::UNIX_EPOCH);
}

#[test]
fn response_without_binding_records_nothing() {
    assert!(reading_for_response(12, None).is_none());
}

#[test]
fn response_with_binding_records_its_value() {
    let vp = reading_for_response(12, Some(SnmpValue::Counter32(5))).unwrap();
    assert_eq!((vp.id, vp.vtype, vp.value), (12, 64, 5));
}
