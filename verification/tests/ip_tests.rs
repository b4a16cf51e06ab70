use iddns::{parse_ip, ip_string, IpAddress};

#[test]
fn parses_dotted_quad() {
    assert_eq!(parse_ip("203.0.113.5"), Some(IpAddress::V4(203, 0, 113, 5)));
    assert_eq!(parse_ip("0.0.0.0"), Some(IpAddress::V4(0, 0, 0, 0)));
    assert_eq!(parse_ip("255.255.255.255"), Some(IpAddress::V4(255, 255, 255, 255)));
    assert_eq!(parse_ip("198.51.100.9"), Some(IpAddress::V4(198, 51, 100, 9)));
}

#[test]
fn rejects_bad_dotted_quads() {
    assert_eq!(parse_ip(""), None);
    assert_eq!(parse_ip("1.2.3"), None);
    assert_eq!(parse_ip("1.2.3.4.5"), None);
    assert_eq!(parse_ip("256.0.0.1"), None);
    assert_eq!(parse_ip("01.2.3.4"), None);
    assert_eq!(parse_ip("1.2.3.x"), None);
    assert_eq!(parse_ip("1..2.3"), None);
    assert_eq!(parse_ip(" 1.2.3.4"), None);
    assert_eq!(parse_ip("1.2.3.4 "), None);
}

#[test]
fn parses_full_colon_hex() {
    assert_eq!(
        parse_ip("2001:db8:0:0:0:0:0:1"),
        Some(IpAddress::V6(0x2001, 0xdb8, 0, 0, 0, 0, 0, 1))
    );
    assert_eq!(
        parse_ip("1:2:3:4:5:6:7:8"),
        Some(IpAddress::V6(1, 2, 3, 4, 5, 6, 7, 8))
    );
    assert_eq!(
        parse_ip("FFFF:ffff:0:0:0:0:0:0"),
        Some(IpAddress::V6(0xffff, 0xffff, 0, 0, 0, 0, 0, 0))
    );
}

#[test]
fn parses_compressed_colon_hex() {
    assert_eq!(parse_ip("::"), Some(IpAddress::V6(0, 0, 0, 0, 0, 0, 0, 0)));
    assert_eq!(parse_ip("::1"), Some(IpAddress::V6(0, 0, 0, 0, 0, 0, 0, 1)));
    assert_eq!(parse_ip("1::"), Some(IpAddress::V6(1, 0, 0, 0, 0, 0, 0, 0)));
    assert_eq!(
        parse_ip("2001:db8::8a2e:370:7334"),
        Some(IpAddress::V6(0x2001, 0xdb8, 0, 0, 0, 0x8a2e, 0x370, 0x7334))
    );
    assert_eq!(
        parse_ip("1:2:3:4:5:6:7::"),
        Some(IpAddress::V6(1, 2, 3, 4, 5, 6, 7, 0))
    );
}

#[test]
fn rejects_bad_colon_hex() {
    assert_eq!(parse_ip(":"), None);
    assert_eq!(parse_ip(":::"), None);
    assert_eq!(parse_ip("1:2:3:4:5:6:7"), None);
    assert_eq!(parse_ip("1:2:3:4:5:6:7:8:9"), None);
    assert_eq!(parse_ip("1::2::3"), None);
    assert_eq!(parse_ip("12345::"), None);
    assert_eq!(parse_ip("g::1"), None);
    assert_eq!(parse_ip("1:2:3:4:5:6:7:8::"), None);
    assert_eq!(parse_ip(":1:2:3:4:5:6:7"), None);
}

#[test]
fn prints_dotted_quad() {
    assert_eq!(ip_string(&IpAddress::V4(203, 0, 113, 5)), "203.0.113.5");
    assert_eq!(ip_string(&IpAddress::V4(0, 10, 100, 255)), "0.10.100.255");
}

#[test]
fn prints_colon_hex_in_full() {
    assert_eq!(
        ip_string(&IpAddress::V6(0x2001, 0xdb8, 0, 0, 0, 0, 0, 1)),
        "2001:db8:0:0:0:0:0:1"
    );
    assert_eq!(
        ip_string(&IpAddress::V6(0xffff, 0xabc, 0xde, 0xf, 1, 0x10, 0x100, 0x1000)),
        "ffff:abc:de:f:1:10:100:1000"
    );
}

#[test]
fn printed_text_parses_back() {
    let addrs = [
        IpAddress::V4(203, 0, 113, 5),
        IpAddress::V4(0, 0, 0, 0),
        IpAddress::V4(255, 255, 255, 255),
        IpAddress::V6(0, 0, 0, 0, 0, 0, 0, 0),
        IpAddress::V6(0x2001, 0xdb8, 0, 0, 0, 0x8a2e, 0x370, 0x7334),
        IpAddress::V6(0xffff, 0xffff, 0xffff, 0xffff, 0xffff, 0xffff, 0xffff, 0xffff),
    ];
    for a in addrs {
        assert_eq!(parse_ip(&ip_string(&a)), Some(a));
    }
}
