//! Address parsing and the reply-source check.

use sptth::addr::{is_valid_source, parse_ipv4, parse_ipv6, parse_socket_addr, IpVal, SockAddr};

#[test]
fn valid_source_same_ip_and_port() {
    let server: SockAddr = parse_socket_addr("1.1.1.1:53").unwrap();
    let from: SockAddr = parse_socket_addr("1.1.1.1:53").unwrap();
    assert!(is_valid_source(from, server));
}

#[test]
fn invalid_source_different_port() {
    let server: SockAddr = parse_socket_addr("1.1.1.1:53").unwrap();
    let from: SockAddr = parse_socket_addr("1.1.1.1:5353").unwrap();
    assert!(!is_valid_source(from, server));
}

#[test]
fn invalid_source_different_ip() {
    let server: SockAddr = parse_socket_addr("1.1.1.1:53").unwrap();
    let from: SockAddr = parse_socket_addr("9.9.9.9:53").unwrap();
    assert!(!is_valid_source(from, server));
}

#[test]
fn valid_source_ipv6() {
    let server: SockAddr = parse_socket_addr("[2606:4700::1111]:53").unwrap();
    let from: SockAddr = parse_socket_addr("[2606:4700::1111]:53").unwrap();
    assert!(is_valid_source(from, server));
}

#[test]
fn parse_ipv4_exact_value() {
    assert_eq!(parse_ipv4("10.0.0.1"), Some(0x0A000001));
    assert_eq!(parse_ipv4("255.255.255.255"), Some(0xFFFFFFFF));
    assert_eq!(parse_ipv4("0.0.0.0"), Some(0));
}

#[test]
fn parse_ipv4_rejects_bad_text() {
    assert_eq!(parse_ipv4("256.0.0.1"), None);
    assert_eq!(parse_ipv4("01.2.3.4"), None);
    assert_eq!(parse_ipv4("1.2.3"), None);
    assert_eq!(parse_ipv4("1.2.3.4.5"), None);
    assert_eq!(parse_ipv4(""), None);
    assert_eq!(parse_ipv4("a.b.c.d"), None);
}

#[test]
fn parse_ipv6_exact_value() {
    assert_eq!(parse_ipv6("::1"), Some(1));
    assert_eq!(parse_ipv6("::"), Some(0));
    assert_eq!(
        parse_ipv6("2606:4700::1111"),
        Some(0x2606_4700_0000_0000_0000_0000_0000_1111)
    );
    assert_eq!(
        parse_ipv6("1:2:3:4:5:6:7:8"),
        Some(0x0001_0002_0003_0004_0005_0006_0007_0008)
    );
}

#[test]
fn parse_ipv6_rejects_bad_text() {
    assert_eq!(parse_ipv6("1:2:3:4:5:6:7"), None);
    assert_eq!(parse_ipv6("1:2:3:4:5:6:7:8:9"), None);
    assert_eq!(parse_ipv6("::1::2"), None);
    assert_eq!(parse_ipv6("12345::"), None);
    assert_eq!(parse_ipv6(""), None);
}

#[test]
fn parse_socket_addr_values() {
    let a = parse_socket_addr("127.0.0.1:443").unwrap();
    assert_eq!(a.ip, IpVal::V4(0x7F000001));
    assert_eq!(a.port, 443);
    let b = parse_socket_addr("[::1]:8080").unwrap();
    assert_eq!(b.ip, IpVal::V6(1));
    assert_eq!(b.port, 8080);
}

#[test]
fn parse_socket_addr_rejects_bad_text() {
    assert_eq!(parse_socket_addr("127.0.0.1"), None);
    assert_eq!(parse_socket_addr("127.0.0.1:"), None);
    assert_eq!(parse_socket_addr("127.0.0.1:70000"), None);
    assert_eq!(parse_socket_addr("[::1]"), None);
    assert_eq!(parse_socket_addr("::1:53"), None);
}
