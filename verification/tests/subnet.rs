use roam::ip_address::IpAddress;
use roam::subnet::{string_to_ip_cidr, ParseError};

#[test]
fn serialize_ip_cidr() {
    // Do two unwraps - one for the Result, one for the Option
    let (ip, cidr) = string_to_ip_cidr("192.168.1.1/24").unwrap().unwrap();

    assert!(ip.to_string() == "192.168.1.1");
    assert!(cidr == 24);
}

#[test]
#[should_panic]
fn serialize_ip_cidr_fail_cidr_v4() {
    string_to_ip_cidr("192.168.1.1/64").unwrap();
}

#[test]
fn serialize_ip_cidr_v6() {
    let (ip, cidr) = string_to_ip_cidr("fe80::1/64").unwrap().unwrap();

    assert!(ip.to_string() == "fe80::1");
    assert!(cidr == 64);
}

#[test]
#[should_panic]
fn serialize_ip_cidr_fail_cidr_v6() {
    string_to_ip_cidr("fe80::1/130").unwrap();
}

#[test]
fn subnet_empty_text_is_no_subnet() {
    assert_eq!(string_to_ip_cidr(""), Ok(None));
}

#[test]
fn subnet_values() {
    assert_eq!(
        string_to_ip_cidr("192.168.1.1/24"),
        Ok(Some((IpAddress::V4([192, 168, 1, 1]), 24)))
    );
    assert_eq!(
        string_to_ip_cidr("fe80::1/64"),
        Ok(Some((IpAddress::V6([0xfe80, 0, 0, 0, 0, 0, 0, 1]), 64)))
    );
    assert_eq!(string_to_ip_cidr("10.0.0.0/+8"), Ok(Some((IpAddress::V4([10, 0, 0, 0]), 8))));
    assert_eq!(string_to_ip_cidr("10.0.0.0/008"), Ok(Some((IpAddress::V4([10, 0, 0, 0]), 8))));
    assert_eq!(string_to_ip_cidr("10.0.0.0/0"), Ok(Some((IpAddress::V4([10, 0, 0, 0]), 0))));
}

#[test]
fn subnet_prefix_bounds() {
    assert!(string_to_ip_cidr("192.168.1.1/30").is_ok());
    assert_eq!(string_to_ip_cidr("192.168.1.1/31"), Err(ParseError::PrefixOutOfRange));
    assert_eq!(string_to_ip_cidr("192.168.1.1/64"), Err(ParseError::PrefixOutOfRange));
    assert!(string_to_ip_cidr("fe80::1/126").is_ok());
    assert_eq!(string_to_ip_cidr("fe80::1/127"), Err(ParseError::PrefixOutOfRange));
    assert_eq!(string_to_ip_cidr("fe80::1/130"), Err(ParseError::PrefixOutOfRange));
}

#[test]
fn subnet_errors() {
    assert_eq!(string_to_ip_cidr("192.168.1.1"), Err(ParseError::MissingField));
    assert_eq!(string_to_ip_cidr("fe80::1"), Err(ParseError::MissingField));
    assert_eq!(string_to_ip_cidr("nonsense"), Err(ParseError::InvalidAddress));
    assert_eq!(string_to_ip_cidr("nonsense/24"), Err(ParseError::InvalidAddress));
    assert_eq!(string_to_ip_cidr("/24"), Err(ParseError::InvalidAddress));
    assert_eq!(string_to_ip_cidr("192.168.1.256/24"), Err(ParseError::InvalidAddress));
    assert_eq!(string_to_ip_cidr("192.168.1.1/"), Err(ParseError::InvalidPrefix));
    assert_eq!(string_to_ip_cidr("192.168.1.1/x"), Err(ParseError::InvalidPrefix));
    assert_eq!(string_to_ip_cidr("192.168.1.1/-1"), Err(ParseError::InvalidPrefix));
    assert_eq!(string_to_ip_cidr("192.168.1.1/256"), Err(ParseError::InvalidPrefix));
    assert_eq!(string_to_ip_cidr("192.168.1.1/24/7"), Err(ParseError::InvalidPrefix));
    assert_eq!(string_to_ip_cidr("192.168.1.1/ 24"), Err(ParseError::InvalidPrefix));
}

#[test]
fn subnet_text_reads_back() {
    let subnets = [
        (IpAddress::V4([192, 168, 251, 0]), 24u8),
        (IpAddress::V4([0, 0, 0, 0]), 0),
        (IpAddress::V4([255, 255, 255, 255]), 30),
        (IpAddress::V6([0xfe80, 0, 0, 0, 0, 0, 0, 1]), 64),
        (IpAddress::V6([0; 8]), 126),
        (IpAddress::V6([0, 0, 0, 0, 0, 0xffff, 0x0a00, 1]), 96),
    ];
    for (address, prefix) in subnets {
        let text = format!("{}/{}", address.to_string(), prefix);
        assert_eq!(string_to_ip_cidr(&text), Ok(Some((address, prefix))), "{:?}", text);
    }
}
