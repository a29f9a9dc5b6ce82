use roam::ip_address::IpAddress;

fn v6(text: &str) -> Option<[u16; 8]> {
    match IpAddress::parse(text) {
        Some(IpAddress::V6(groups)) => Some(groups),
        _ => None,
    }
}

#[test]
fn ipv4_text_is_read() {
    assert_eq!(IpAddress::parse("192.168.1.1"), Some(IpAddress::V4([192, 168, 1, 1])));
    assert_eq!(IpAddress::parse("0.0.0.0"), Some(IpAddress::V4([0, 0, 0, 0])));
    assert_eq!(IpAddress::parse("255.255.255.255"), Some(IpAddress::V4([255, 255, 255, 255])));
}

#[test]
fn ipv4_text_is_refused() {
    for text in [
        "", "1", "1.2.3", "1.2.3.4.5", "1.2.3.", ".1.2.3", "1..2.3", "256.1.1.1", "1.2.3.04",
        "01.2.3.4", "1.2.3.4 ", " 1.2.3.4", "1.2.3.a", "1.2.3.-4", "1.2.3.+4", "0x1.2.3.4",
        "1.2.3.1000",
    ] {
        assert_eq!(IpAddress::parse(text), None, "{:?}", text);
    }
}

#[test]
fn ipv6_text_is_read() {
    assert_eq!(v6("fe80::1"), Some([0xfe80, 0, 0, 0, 0, 0, 0, 1]));
    assert_eq!(v6("::"), Some([0; 8]));
    assert_eq!(v6("::1"), Some([0, 0, 0, 0, 0, 0, 0, 1]));
    assert_eq!(v6("1::"), Some([1, 0, 0, 0, 0, 0, 0, 0]));
    assert_eq!(v6("1:2:3:4:5:6:7:8"), Some([1, 2, 3, 4, 5, 6, 7, 8]));
    assert_eq!(v6("1:2:3:4:5:6:7::"), Some([1, 2, 3, 4, 5, 6, 7, 0]));
    assert_eq!(v6("::2:3:4:5:6:7:8"), Some([0, 2, 3, 4, 5, 6, 7, 8]));
    assert_eq!(v6("1:2:3::6:7:8"), Some([1, 2, 3, 0, 0, 6, 7, 8]));
    assert_eq!(v6("FE80::00A1:0"), Some([0xfe80, 0, 0, 0, 0, 0, 0xa1, 0]));
    assert_eq!(v6("ffff:ffff:ffff:ffff:ffff:ffff:ffff:ffff"), Some([0xffff; 8]));
    assert_eq!(v6("::ffff:192.168.1.1"), Some([0, 0, 0, 0, 0, 0xffff, 0xc0a8, 0x0101]));
    assert_eq!(v6("::192.168.1.1"), Some([0, 0, 0, 0, 0, 0, 0xc0a8, 0x0101]));
    assert_eq!(v6("1:2:3:4:5:6:1.2.3.4"), Some([1, 2, 3, 4, 5, 6, 0x0102, 0x0304]));
    assert_eq!(v6("1:2:3:4:5::1.2.3.4"), Some([1, 2, 3, 4, 5, 0, 0x0102, 0x0304]));
}

#[test]
fn ipv6_text_is_refused() {
    for text in [
        ":", ":::", "1:::2", "1::2::3", ":1", "1:", "1:2:3:4:5:6:7", "1:2:3:4:5:6:7:8:9",
        "1:2:3:4:5:6:7:8::", "::1:2:3:4:5:6:7:8", "1::2:3:4:5:6:7:8", "12345::", "g::",
        "1.2.3.4::", "::1.2.3.4:5", "1:2:3:4:5:6:7:1.2.3.4", "1:2:3:4:5:6::1.2.3.4",
        "1:2:3:4::5:6:1.2.3.4", "::1.2.3", "::1.2.3.04", "fe80::1%eth0", " ::1", "::1 ",
        "1:2:3:4:5:1.2.3.4",
    ] {
        assert_eq!(IpAddress::parse(text), None, "{:?}", text);
    }
}

#[test]
fn ipv4_text_is_written() {
    assert_eq!(IpAddress::V4([192, 168, 251, 0]).to_string(), "192.168.251.0");
    assert_eq!(IpAddress::V4([0, 9, 10, 99]).to_string(), "0.9.10.99");
    assert_eq!(IpAddress::V4([100, 101, 200, 255]).to_string(), "100.101.200.255");
}

#[test]
fn ipv6_text_is_written() {
    assert_eq!(IpAddress::V6([0xfe80, 0, 0, 0, 0, 0, 0, 1]).to_string(), "fe80::1");
    assert_eq!(IpAddress::V6([0; 8]).to_string(), "::");
    assert_eq!(IpAddress::V6([0, 0, 0, 0, 0, 0, 0, 1]).to_string(), "::1");
    assert_eq!(IpAddress::V6([1, 0, 0, 0, 0, 0, 0, 0]).to_string(), "1::");
    assert_eq!(IpAddress::V6([1, 2, 3, 4, 5, 6, 7, 8]).to_string(), "1:2:3:4:5:6:7:8");
    assert_eq!(IpAddress::V6([1, 0, 3, 4, 5, 6, 7, 8]).to_string(), "1:0:3:4:5:6:7:8");
    assert_eq!(IpAddress::V6([1, 0, 0, 4, 0, 0, 7, 8]).to_string(), "1::4:0:0:7:8");
    assert_eq!(IpAddress::V6([1, 0, 0, 4, 0, 0, 0, 8]).to_string(), "1:0:0:4::8");
    assert_eq!(
        IpAddress::V6([0xabcd, 0x10, 0x100, 0x1000, 0xf, 0xff, 0xfff, 0xffff]).to_string(),
        "abcd:10:100:1000:f:ff:fff:ffff"
    );
    assert_eq!(
        IpAddress::V6([0, 0, 0, 0, 0, 0xffff, 0xc0a8, 0x0101]).to_string(),
        "::ffff:192.168.1.1"
    );
    assert_eq!(IpAddress::V6([0, 0, 0, 0, 0, 0, 0xc0a8, 0x0101]).to_string(), "::c0a8:101");
}

#[test]
fn address_text_reads_back() {
    let addresses = [
        IpAddress::V4([192, 168, 1, 1]),
        IpAddress::V4([0, 0, 0, 0]),
        IpAddress::V6([0xfe80, 0, 0, 0, 0, 0, 0, 1]),
        IpAddress::V6([0; 8]),
        IpAddress::V6([1, 0, 0, 4, 0, 0, 0, 8]),
        IpAddress::V6([0, 0, 0, 0, 0, 0xffff, 0xc0a8, 0x0101]),
        IpAddress::V6([1, 2, 3, 4, 5, 6, 7, 0]),
    ];
    for address in addresses {
        assert_eq!(IpAddress::parse(&address.to_string()), Some(address));
    }
}

#[test]
fn address_families() {
    assert!(IpAddress::V4([1, 2, 3, 4]).is_ipv4());
    assert!(!IpAddress::V4([1, 2, 3, 4]).is_ipv6());
    assert!(IpAddress::V6([0; 8]).is_ipv6());
    assert!(!IpAddress::V6([0; 8]).is_ipv4());
}
