//! Codec round trips, checksums and error paths.

use net_stack::addr::{Ipv4Addr, MacAddr};
use net_stack::arp::{ArpOperation, ArpPacket, build_arp_payload};
use net_stack::checksum::{simple_checksum, ipv4_checksum, Crc32};
use net_stack::error::{ArpParseError, EthernetParseError, IcmpParseError, UdpParseError};
use net_stack::ethernet::{EtherType, EthernetHeader};
use net_stack::icmp::{IcmpType, ICMPHeader, ICMPPayload, ICMP};
use net_stack::ipv4::{Ipv4Header, Ipv4Protocol};
use net_stack::udp::{UdpHeader, UdpPacket};

fn mac(a: u8, b: u8, c: u8, d: u8, e: u8, f: u8) -> MacAddr {
    MacAddr::from_raw([a, b, c, d, e, f])
}

#[test]
fn internet_checksum_known_value() {
    // The classic worked example: 00 01 f2 03 f4 f5 f6 f7.
    let bytes = [0x00u8, 0x01, 0xf2, 0x03, 0xf4, 0xf5, 0xf6, 0xf7];
    assert_eq!(simple_checksum(&bytes), 0x220d);
    assert_eq!(ipv4_checksum(&bytes), 0x220d);
}

#[test]
fn internet_checksum_odd_byte_is_high() {
    // A final odd byte pads with a zero low byte: word 0xab00.
    assert_eq!(simple_checksum(&[0xab]), !0xab00);
}

#[test]
fn crc32_check_value() {
    let crc = Crc32::new();
    assert_eq!(crc.checksum(b"123456789"), 0xCBF43926);
    assert_eq!(crc.checksum(b""), 0);
}

#[test]
fn ethernet_roundtrip() {
    let h = EthernetHeader::new(
        mac(2, 4, 6, 8, 10, 12),
        mac(1, 3, 5, 7, 9, 11),
        EtherType::Ipv4,
    );
    let bytes = h.to_bytes();
    assert_eq!(bytes.len(), 14);
    let parsed = EthernetHeader::parse(&bytes).unwrap();
    assert_eq!(parsed, h);
    assert_eq!(parsed.ethertype.to_u16(), 0x0800);
}

#[test]
fn ethernet_too_short() {
    assert_eq!(
        EthernetHeader::parse(&[0u8; 13]),
        Err(EthernetParseError::PacketTooShort)
    );
}

#[test]
fn arp_roundtrip() {
    let p = ArpPacket::new(
        ArpOperation::Request,
        mac(0xAA, 0xBB, 0xCC, 0xDD, 0xEE, 0xFF),
        Ipv4Addr::new(10, 0, 0, 1),
        MacAddr::zero(),
        Ipv4Addr::new(10, 0, 0, 5),
    );
    let bytes = p.to_bytes();
    assert_eq!(bytes.len(), 28);
    let parsed = ArpPacket::parse(&bytes).unwrap();
    assert_eq!(parsed, p);
    assert!(parsed.is_ethernet_ipv4());
    assert_eq!(parsed.opcode_label(), ArpOperation::Request);
    assert_eq!(bytes, build_arp_payload(
        ArpOperation::Request,
        mac(0xAA, 0xBB, 0xCC, 0xDD, 0xEE, 0xFF),
        Ipv4Addr::new(10, 0, 0, 1),
        MacAddr::zero(),
        Ipv4Addr::new(10, 0, 0, 5),
    ));
}

#[test]
fn arp_parse_errors() {
    assert_eq!(ArpPacket::parse(&[0u8; 27]), Err(ArpParseError::InvalidArpFixedLength));
    let mut bad_hw = ArpPacket::new(
        ArpOperation::Reply,
        MacAddr::zero(),
        Ipv4Addr::unspecified(),
        MacAddr::zero(),
        Ipv4Addr::unspecified(),
    )
    .to_bytes();
    bad_hw[4] = 5;
    assert_eq!(ArpPacket::parse(&bad_hw), Err(ArpParseError::InvalidArpHardwareLength));
    let mut bad_proto = ArpPacket::new(
        ArpOperation::Reply,
        MacAddr::zero(),
        Ipv4Addr::unspecified(),
        MacAddr::zero(),
        Ipv4Addr::unspecified(),
    )
    .to_bytes();
    bad_proto[5] = 16;
    assert_eq!(ArpPacket::parse(&bad_proto), Err(ArpParseError::InvalidArpProtocolLength));
}

#[test]
fn ipv4_header_roundtrip_and_checksum() {
    let h = Ipv4Header::new(
        Ipv4Addr::new(192, 168, 1, 1),
        Ipv4Addr::new(192, 168, 1, 2),
        17,
        100,
        7,
    );
    let bytes = h.to_bytes();
    assert_eq!(bytes.len(), 20);
    // P6: the checksum field makes the whole header verify to zero.
    assert_eq!(simple_checksum(&bytes), 0);
    let parsed = Ipv4Header::parse(&bytes).unwrap();
    assert_eq!(parsed, h);
    assert_eq!(parsed.tos, 0);
    assert_eq!(parsed.ttl, 64);
    assert_eq!(parsed.get_protocol(), Ipv4Protocol::UDP);
    assert_eq!(parsed.total_len, 120);
    assert!(parsed.validate().is_ok());
}

#[test]
fn ipv4_header_rejects_corruption() {
    let h = Ipv4Header::new(
        Ipv4Addr::new(10, 0, 0, 1),
        Ipv4Addr::new(10, 0, 0, 2),
        1,
        20,
        0,
    );
    let mut bytes = h.to_bytes();
    bytes[8] = bytes[8].wrapping_add(1);
    assert!(Ipv4Header::parse(&bytes).is_err());
}

#[test]
fn ipv4_header_rejects_zero_ttl() {
    let mut h = Ipv4Header::new(
        Ipv4Addr::new(10, 0, 0, 1),
        Ipv4Addr::new(10, 0, 0, 2),
        1,
        20,
        0,
    );
    h.ttl = 0;
    let c = h.checksum();
    h.checksum = c;
    assert_eq!(h.validate(), Err(net_stack::error::Ipv4HeaderParseError::InvalidTimeToLive));
}

#[test]
fn icmp_roundtrip_and_checksum() {
    let payload = [0x11u8; 32];
    let m = ICMP::new(IcmpType::Request, 0, 1234, 7, 0xDEADBEEF, &payload);
    let bytes = m.to_bytes();
    assert_eq!(bytes.len(), 8 + 4 + 32);
    // P6 for ICMP: the filled-in checksum verifies to zero.
    assert_eq!(simple_checksum(&bytes), 0);
    let parsed = ICMP::parse(&bytes).unwrap();
    assert_eq!(parsed.header.id, 1234);
    assert_eq!(parsed.header.seq, 7);
    assert_eq!(parsed.data.time, 0xDEADBEEF);
    assert_eq!(parsed.data.payload, payload.to_vec());
    assert!(parsed.validate().is_ok());
}

#[test]
fn icmp_parse_errors() {
    assert!(matches!(ICMP::parse(&[0u8; 11]), Err(IcmpParseError::IcmpLengthErr)));
    let mut m = ICMP::new(IcmpType::Request, 0, 1, 1, 0, &[0u8; 4]).to_bytes();
    m[0] = 42;
    assert!(matches!(ICMP::parse(&m), Err(IcmpParseError::InvalidIcmpHeader)));
    assert_eq!(
        ICMPHeader::parse(&[0u8; 7]),
        Err(IcmpParseError::IcmpHeaderLengthNotMatch)
    );
    assert!(matches!(
        ICMPPayload::parse(&[0u8; 3]),
        Err(IcmpParseError::IcmpPayloadLengthNotMatch)
    ));
}

#[test]
fn icmp_send_builds_patterned_request() {
    let bytes = ICMP::send(77, 3, 55_000);
    assert_eq!(bytes.len(), 8 + 1024);
    assert_eq!(simple_checksum(&bytes), 0);
    let parsed = ICMP::recv(&bytes).unwrap();
    assert_eq!(parsed.header.type_, 8);
    assert_eq!(parsed.header.id, 77);
    assert_eq!(parsed.header.seq, 3);
    assert_eq!(parsed.data.time, 55_000);
    assert_eq!(parsed.data.payload.len(), 1020);
    assert_eq!(parsed.data.payload[0], 0);
    assert_eq!(parsed.data.payload[255], 255);
    assert_eq!(parsed.data.payload[256], 0);
}

#[test]
fn icmp_rtt_saturates() {
    let m = ICMP::new(IcmpType::Reply, 0, 1, 1, 5_000, &[0u8; 4]);
    assert_eq!(m.rtt_ms(7_500), 2_500);
    assert_eq!(m.rtt_ms(4_000), 0);
}

#[test]
fn udp_roundtrip_and_pseudo_header_checksum() {
    let src = Ipv4Addr::new(192, 168, 1, 2);
    let dst = Ipv4Addr::new(192, 168, 1, 1);
    let p = UdpPacket::new(UdpHeader::new(34000, 8080, 0), b"hello", src, dst);
    assert_eq!(p.header.length, 13);
    assert_ne!(p.header.checksum, 0);
    // P7: the transmitted checksum satisfies verification with the same
    // pseudo-header.
    assert!(p.validate(src, dst).is_ok());
    // And fails against different endpoints.
    assert_eq!(
        p.validate(src, Ipv4Addr::new(192, 168, 1, 9)),
        Err(UdpParseError::InvalidChecksum)
    );
    let bytes = p.to_bytes();
    let parsed = UdpPacket::parse(&bytes).unwrap();
    assert_eq!(parsed.header, p.header);
    assert_eq!(parsed.payload, b"hello".to_vec());
}

#[test]
fn udp_zero_checksum_means_unchecked() {
    let src = Ipv4Addr::new(1, 2, 3, 4);
    let dst = Ipv4Addr::new(5, 6, 7, 8);
    let mut p = UdpPacket::new(UdpHeader::new(1, 2, 0), b"x", src, dst);
    p.header.checksum = 0;
    assert!(p.validate(dst, src).is_ok());
}

#[test]
fn udp_parse_truncates_padding_and_rejects_bad_lengths() {
    let src = Ipv4Addr::new(1, 2, 3, 4);
    let dst = Ipv4Addr::new(5, 6, 7, 8);
    let p = UdpPacket::new(UdpHeader::new(9, 10, 0), b"abc", src, dst);
    let mut bytes = p.to_bytes();
    // Ethernet padding after the datagram is dropped by the length field.
    bytes.push(0);
    bytes.push(0);
    let parsed = UdpPacket::parse(&bytes).unwrap();
    assert_eq!(parsed.payload, b"abc".to_vec());
    assert!(matches!(UdpPacket::parse(&[0u8; 7]), Err(UdpParseError::InvalidUdpLen)));
    let short = [0u8, 9, 0, 10, 0, 3, 0, 0];
    // Length field below the header size is refused.
    assert!(matches!(UdpPacket::parse(&short), Err(UdpParseError::InvalidUdpLen)));
}

#[test]
fn ethertype_and_operation_codes() {
    assert_eq!(EtherType::from_u16(0x0806), EtherType::Arp);
    assert_eq!(EtherType::from_u16(0x86DD), EtherType::Ipv6);
    assert_eq!(EtherType::from_u16(0x1234), EtherType::Unknown(0x1234));
    assert_eq!(EtherType::Unknown(0x1234).to_u16(), 0x1234);
    assert_eq!(ArpOperation::parse(1), ArpOperation::Request);
    assert_eq!(ArpOperation::parse(2), ArpOperation::Reply);
    assert_eq!(ArpOperation::parse(9), ArpOperation::Unknown);
    assert_eq!(ArpOperation::Unknown.opcode(), 0);
    assert_eq!(IcmpType::parse(8), IcmpType::Request);
    assert_eq!(IcmpType::parse(0), IcmpType::Reply);
    assert_eq!(IcmpType::parse(3), IcmpType::Unknown);
}

#[test]
fn addresses_and_predicates() {
    assert!(Ipv4Addr::broadcast().is_broadcast());
    assert!(!Ipv4Addr::new(224, 0, 0, 1).is_broadcast());
    assert!(Ipv4Addr::new(224, 0, 0, 1).is_multicast());
    assert!(Ipv4Addr::new(239, 255, 255, 255).is_multicast());
    assert!(!Ipv4Addr::new(240, 0, 0, 1).is_multicast());
    assert_eq!(Ipv4Addr::localhost().octets(), [127, 0, 0, 1]);
    assert_eq!(Ipv4Addr::unspecified().octets(), [0, 0, 0, 0]);
    assert_eq!(Ipv4Addr::from_octets([9, 8, 7, 6]), Ipv4Addr::new(9, 8, 7, 6));
    assert_eq!(MacAddr::broadcast().as_bytes(), [0xFF; 6]);
    assert_eq!(MacAddr::zero().as_bytes(), [0; 6]);
    assert_eq!(MacAddr::from_slice(&[1, 2, 3, 4, 5, 6, 7]).as_bytes(), [1, 2, 3, 4, 5, 6]);
}
