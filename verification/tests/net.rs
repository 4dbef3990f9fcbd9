//! Addresses, networks and texts.

use gatepup::access::{in_any, parse_networks};
use gatepup::net::{
    network_from, parse_ip, parse_ipv4, parse_ipv6, parse_socket_address, parse_trusted_proxy,
    IpAddress, IpNetwork, SocketAddress,
};
use gatepup::text::{
    comes_before, contains_text, ends_with, parse_number, push_decimal, split_once, split_text,
    starts_with, text_before, text_eq, to_lower, trim,
};

#[test]
fn dotted_quads() {
    assert_eq!(parse_ipv4("127.0.0.1"), Some(0x7f00_0001));
    assert_eq!(parse_ipv4("255.255.255.255"), Some(u32::MAX));
    for bad in ["", "1.2.3", "1.2.3.4.5", "256.0.0.1", "01.2.3.4", "1.2.3.4 ", "a.b.c.d", "1..2.3"] {
        assert_eq!(parse_ipv4(bad), None, "{}", bad);
    }
}

#[test]
fn colon_groups() {
    assert_eq!(parse_ipv6("::"), Some(0));
    assert_eq!(parse_ipv6("::1"), Some(1));
    assert_eq!(parse_ipv6("1::"), Some(1u128 << 112));
    assert_eq!(
        parse_ipv6("2001:DB8::ff00:42:8329"),
        Some(0x2001_0db8_0000_0000_0000_ff00_0042_8329)
    );
    assert_eq!(parse_ipv6("1:2:3:4:5:6:7:8"), Some(0x0001_0002_0003_0004_0005_0006_0007_0008));
    assert_eq!(parse_ipv6("::ffff:1.2.3.4"), Some(0xffff_0102_0304));
    for bad in ["", ":", ":::", "1:2:3", "1::2::3", "12345::", "::g", "1:2:3:4:5:6:7:8:9", "::1%eth0"] {
        assert_eq!(parse_ipv6(bad), None, "{}", bad);
    }
}

#[test]
fn addresses_are_of_either_family() {
    let v6 = |n: u128| Some(IpAddress::V6(n));
    let cases = [
        ("0.0.0.0", Some(IpAddress::V4(0))),
        ("10.20.30.40", Some(IpAddress::V4(0x0a14_1e28))),
        ("1.2.3.04", None),
        ("1.2.3.4:80", None),
        ("::", v6(0)),
        ("::1:2", v6(0x1_0002)),
        ("fe80::1", v6((0xfe80 << 112) + 1)),
        ("1:2:3:4:5:6:7::", v6(0x0001_0002_0003_0004_0005_0006_0007_0000)),
        ("::2:3:4:5:6:7:8", v6(0x0000_0002_0003_0004_0005_0006_0007_0008)),
        ("64:ff9b::1.2.3.4", v6((0x64 << 112) + (0xff9b << 96) + 0x0102_0304)),
        ("1:2:3:4:5:6:1.2.3.4", v6(0x0001_0002_0003_0004_0005_0006_0102_0304)),
        ("1:2:3:4:5:6:7:1.2.3.4", None),
        ("::1.2.3.4.5", None),
        ("1:2:3:4:5:6:7:8::", None),
        ("::1::", None),
        (" ::1", None),
        ("00001::", None),
    ];
    for (s, expected) in cases {
        assert_eq!(parse_ip(s), expected, "{}", s);
    }
}

#[test]
fn socket_addresses_have_a_port() {
    let v4 = |port: u16| {
        Some(SocketAddress {
            ip: IpAddress::V4(0x0102_0304),
            port,
            scope: 0,
        })
    };
    let v6 = |ip: u128, port: u16, scope: u32| {
        Some(SocketAddress {
            ip: IpAddress::V6(ip),
            port,
            scope,
        })
    };
    let local = (0xfe80 << 112) + 1;
    let cases = [
        ("1.2.3.4:0", v4(0)),
        ("1.2.3.4:65535", v4(65535)),
        ("1.2.3.4:00080", v4(80)),
        ("1.2.3.4:65536", None),
        ("1.2.3.4:", None),
        ("1.2.3.4", None),
        ("1.2.3.4:+1", None),
        (":80", None),
        ("localhost:80", None),
        ("[::1]:8080", v6(1, 8080, 0)),
        ("[::]:0", v6(0, 0, 0)),
        ("[fe80::1%3]:80", v6(local, 80, 3)),
        ("[fe80::1%4294967295]:1", v6(local, 1, u32::MAX)),
        ("[fe80::1%4294967296]:1", None),
        ("[fe80::1%x]:80", None),
        ("[::1]", None),
        ("::1:8080", None),
        ("[1.2.3.4]:80", None),
    ];
    for (s, expected) in cases {
        assert_eq!(parse_socket_address(s), expected, "{}", s);
    }
}

#[test]
fn networks_are_blocks_or_single_addresses() {
    assert_eq!(
        parse_trusted_proxy("10.1.2.3/8"),
        Some(IpNetwork {
            ip: IpAddress::V4(0x0a01_0203),
            prefix: 8,
        })
    );
    assert_eq!(
        parse_trusted_proxy("10.1.2.3"),
        Some(IpNetwork {
            ip: IpAddress::V4(0x0a01_0203),
            prefix: 32,
        })
    );
    assert_eq!(
        parse_trusted_proxy("::1"),
        Some(IpNetwork {
            ip: IpAddress::V6(1),
            prefix: 128,
        })
    );
    assert_eq!(parse_trusted_proxy("10.0.0.0/33"), None);
    assert_eq!(parse_trusted_proxy("nonsense"), None);
    assert_eq!(network_from(None, "nonsense"), None);
}

#[test]
fn networks_hold_their_addresses() {
    let nets = parse_networks(&vec![
        "10.0.0.0/8".to_string(),
        "bogus".to_string(),
        "2001:db8::/32".to_string(),
        "0.0.0.0/0".to_string(),
    ]);
    assert_eq!(nets.len(), 3);
    assert!(in_any(&nets, parse_ip("8.8.8.8").unwrap()));
    assert!(in_any(&nets, parse_ip("2001:db8:ffff::1").unwrap()));
    assert!(!in_any(&nets, parse_ip("2001:db9::1").unwrap()));
    assert!(!in_any(&Vec::new(), parse_ip("8.8.8.8").unwrap()));
}

#[test]
fn text_helpers() {
    assert!(text_eq("abc", "abc") && !text_eq("abc", "abd"));
    assert!(starts_with("/api/x", "/api") && !starts_with("/ap", "/api"));
    assert!(ends_with("a.example.com", ".example.com") && !ends_with("com", ".com"));
    assert!(contains_text("xxabyy", "ab") && !contains_text("xxayb", "ab"));
    assert_eq!(text_before("host:80", ':'), "host");
    assert_eq!(text_before("host", ':'), "host");
    assert_eq!(
        split_once("a=b=c", '='),
        Some(("a".to_string(), "b=c".to_string()))
    );
    assert_eq!(split_once("abc", '='), None);
    assert_eq!(split_text("a,,b", ','), vec!["a", "", "b"]);
    assert_eq!(split_text("", ','), vec![""]);
    assert_eq!(trim(" \t x y \n"), "x y");
    assert_eq!(trim("\u{3000}z\u{a0}"), "z");
    assert_eq!(to_lower("AbÇ1"), "abÇ1");
    assert_eq!(parse_number("255", 255), Some(255));
    assert_eq!(parse_number("256", 255), None);
    assert!(comes_before("a", "b") && !comes_before("b", "a"));
    let mut out = "n=".to_string();
    push_decimal(&mut out, 1230);
    assert_eq!(out, "n=1230");
}
