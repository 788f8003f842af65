use snmp_dc::decimal::decimal_string;
use snmp_dc::oid::get_oid_array;

fn reference(oid: &str) -> Vec<u32> {
    oid.split('.').map(|x| x.parse::<u32>().unwrap_or(0)).collect()
}

#[test]
fn oid_interface_counter() {
    assert_eq!(get_oid_array("1.3.6.1.2.1.2.2.1.10.1"), vec![1, 3, 6, 1, 2, 1, 2, 2, 1, 10, 1]);
}

#[test]
fn oid_scalar_suffix() {
    assert_eq!(get_oid_array("1.3.6.1.2.1.1.3.0"), vec![1, 3, 6, 1, 2, 1, 1, 3, 0]);
}

#[test]
fn oid_empty_string_is_one_zero() {
    assert_eq!(get_oid_array(""), vec![0]);
}

#[test]
fn oid_empty_pieces_are_zero() {
    assert_eq!(get_oid_array("1..2."), vec![1, 0, 2, 0]);
    assert_eq!(get_oid_array("."), vec![0, 0]);
}

#[test]
fn oid_unparsable_pieces_are_zero() {
    assert_eq!(get_oid_array("a.1b.-3. 4.+"), vec![0, 0, 0, 0, 0]);
}

#[test]
fn oid_plus_sign_and_leading_zeros() {
    assert_eq!(get_oid_array("+5.007.++1"), vec![5, 7, 0]);
}

#[test]
fn oid_overflow_is_zero() {
    assert_eq!(get_oid_array("4294967295.4294967296.99999999999999999999"), vec![4294967295, 0, 0]);
}

#[test]
fn oid_non_ascii_digit_is_zero() {
    assert_eq!(get_oid_array("\u{0661}.2"), vec![0, 2]);
}

#[test]
fn oid_agrees_with_split_and_parse() {
    let cases = [
        "", ".", "..", "1", "1.3.6", "+", "+0", "-0", "0x10", "12a", "1.2.3.", "4294967295",
        "4294967296", "000000000004294967295", "1.+2.3+", "é.1", "1 .2", "18446744073709551616",
    ];
    for c in cases.iter() {
        assert_eq!(get_oid_array(c), reference(c), "case {:?}", c);
    }
}

#[test]
fn oid_roundtrip_from_decimal() {
    let ns: Vec<u32> = vec![1, 3, 6, 1, 4, 1, 2021, 4294967295, 0, 10];
    let s = ns.iter().map(|n| decimal_string(*n as u64)).collect::<Vec<String>>().join(".");
    assert_eq!(get_oid_array(&s), ns);
}

#[test]
fn decimal_values() {
    assert_eq!(decimal_string(0), "0");
    assert_eq!(decimal_string(7), "7");
    assert_eq!(decimal_string(10), "10");
    assert_eq!(decimal_string(1234567890), "1234567890");
    assert_eq!(decimal_string(u64::MAX), u64::MAX.to_string());
}

#[test]
fn oid_concatenation() {
    let cases = ["", "1.3", "a", "+7", "1..", "4294967296"];
    for a in cases.iter() {
        for b in cases.iter() {
            let mut joined = get_oid_array(a);
            joined.extend(get_oid_array(b));
            assert_eq!(get_oid_array(&format!("{}.{}", a, b)), joined, "{:?} {:?}", a, b);
        }
    }
}
