//! Address strings: dotted-decimal IPv4, hex MAC, `IP:PORT`.

use net_stack::addr::{Ipv4Addr, MacAddr};
use net_stack::error::{AddrParseError, Ipv4ParseError};
use net_stack::text::parse_addr;

#[test]
fn ipv4_from_str_accepts_dotted_quads() {
    assert_eq!(Ipv4Addr::from_str("192.168.1.10"), Ok(Ipv4Addr::new(192, 168, 1, 10)));
    assert_eq!(Ipv4Addr::from_str("0.0.0.0"), Ok(Ipv4Addr::unspecified()));
    assert_eq!(Ipv4Addr::from_str("255.255.255.255"), Ok(Ipv4Addr::broadcast()));
    assert_eq!(Ipv4Addr::from_str("007.0.0.1"), Ok(Ipv4Addr::new(7, 0, 0, 1)));
}

#[test]
fn ipv4_from_str_rejects_bad_strings() {
    assert_eq!(Ipv4Addr::from_str("1.2.3"), Err(Ipv4ParseError::InvalidFormat));
    assert_eq!(Ipv4Addr::from_str("1.2.3.4.5"), Err(Ipv4ParseError::InvalidFormat));
    assert_eq!(Ipv4Addr::from_str("256.1.1.1"), Err(Ipv4ParseError::InvalidOctet));
    assert_eq!(Ipv4Addr::from_str("1.2.3.999"), Err(Ipv4ParseError::InvalidOctet));
    assert_eq!(Ipv4Addr::from_str("1..3.4"), Err(Ipv4ParseError::InvalidFormat));
    assert_eq!(Ipv4Addr::from_str("a.b.c.d"), Err(Ipv4ParseError::InvalidFormat));
    assert_eq!(Ipv4Addr::from_str(""), Err(Ipv4ParseError::InvalidFormat));
    assert_eq!(Ipv4Addr::from_str("1.2.3.4 "), Err(Ipv4ParseError::InvalidFormat));
}

#[test]
fn mac_from_str_accepts_colon_and_dash() {
    let expected = MacAddr::from_raw([0xAA, 0xBB, 0xCC, 0xDD, 0xEE, 0xFF]);
    assert_eq!(MacAddr::from_str("aa:bb:cc:dd:ee:ff"), Ok(expected));
    assert_eq!(MacAddr::from_str("AA-BB-CC-DD-EE-FF"), Ok(expected));
    assert_eq!(MacAddr::from_str("aa:BB-cc:DD-ee:Ff"), Ok(expected));
    assert_eq!(
        MacAddr::from_str("0:1:2:3:4:5"),
        Ok(MacAddr::from_raw([0, 1, 2, 3, 4, 5]))
    );
}

#[test]
fn mac_from_str_rejects_bad_strings() {
    assert!(MacAddr::from_str("aa:bb:cc:dd:ee").is_err());
    assert!(MacAddr::from_str("aa:bb:cc:dd:ee:ff:00").is_err());
    assert!(MacAddr::from_str("gg:bb:cc:dd:ee:ff").is_err());
    assert!(MacAddr::from_str("aaa:bb:cc:dd:ee:ff").is_err());
    assert!(MacAddr::from_str("").is_err());
}

#[test]
fn parse_addr_splits_ip_and_port() {
    assert_eq!(
        parse_addr("10.0.0.5:8080"),
        Ok((Ipv4Addr::new(10, 0, 0, 5), 8080))
    );
    assert_eq!(
        parse_addr("0.0.0.0:0"),
        Ok((Ipv4Addr::unspecified(), 0))
    );
    assert_eq!(
        parse_addr("255.255.255.255:65535"),
        Ok((Ipv4Addr::broadcast(), 65535))
    );
}

#[test]
fn parse_addr_rejects_bad_strings() {
    assert_eq!(parse_addr("10.0.0.5"), Err(AddrParseError::InvalidFormat));
    assert_eq!(parse_addr("10.0.0.5:1:2"), Err(AddrParseError::InvalidFormat));
    assert_eq!(parse_addr("10.0.0:80"), Err(AddrParseError::InvalidIp));
    assert_eq!(parse_addr("10.0.0.5:"), Err(AddrParseError::InvalidPort));
    assert_eq!(parse_addr("10.0.0.5:65536"), Err(AddrParseError::InvalidPort));
    assert_eq!(parse_addr("10.0.0.5:80x"), Err(AddrParseError::InvalidPort));
}
