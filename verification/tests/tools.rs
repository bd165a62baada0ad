//! The capture utilities' cores: frame assembly and inspection, IPv4
//! fragmentation and offline reassembly.

use net_stack::addr::{Ipv4Addr, MacAddr};
use net_stack::checksum::{simple_checksum, Crc32};
use net_stack::error::{FragmentError, PayloadError};
use net_stack::fragment::{build_ipv4_payloads, Ipv4Config};
use net_stack::frame::{assemble_frame, enforce_payload_rules, inspect_frame, FrameVerdict};
use net_stack::reassembly::{Ipv4Processor, Ipv4ProcessOutcome};

fn mac(x: u8) -> MacAddr {
    MacAddr::from_raw([x, x, x, x, x, x])
}

fn ip(a: u8, b: u8, c: u8, d: u8) -> Ipv4Addr {
    Ipv4Addr::new(a, b, c, d)
}

#[test]
fn payload_rules_pad_and_reject() {
    let mut small = vec![1u8, 2, 3];
    assert!(enforce_payload_rules(&mut small, true).is_ok());
    assert_eq!(small.len(), 46);
    assert_eq!(&small[0..3], &[1, 2, 3]);
    assert_eq!(small[45], 0);

    let mut small2 = vec![1u8, 2, 3];
    assert_eq!(enforce_payload_rules(&mut small2, false), Err(PayloadError::TooSmall));
    assert_eq!(small2.len(), 3);

    let mut big = vec![0u8; 1501];
    assert_eq!(enforce_payload_rules(&mut big, true), Err(PayloadError::TooLarge));

    let mut fine = vec![0u8; 1500];
    assert!(enforce_payload_rules(&mut fine, false).is_ok());
    assert_eq!(fine.len(), 1500);
}

#[test]
fn assemble_then_inspect_roundtrip() {
    let crc = Crc32::new();
    let payload = vec![0x42u8; 46];
    let frame = assemble_frame(&mac(0xD0), &mac(0x50), 0x0080, &payload, &crc);
    assert_eq!(frame.len(), 14 + 46 + 4);
    let accepted = vec![mac(0xD0)];
    match inspect_frame(&frame, &accepted, &crc) {
        FrameVerdict::Accepted { dest, src, ethertype, payload: p, frame_crc, crc_ok, pad_hint } => {
            assert_eq!(dest, mac(0xD0));
            assert_eq!(src, mac(0x50));
            assert_eq!(ethertype, 0x0080);
            assert_eq!(p, payload);
            assert!(crc_ok);
            assert_eq!(frame_crc, crc.checksum(&payload));
            assert_eq!(pad_hint, 0x42);
        },
        _ => panic!("expected an accepted frame"),
    }
}

#[test]
fn inspect_rejects_bad_frames() {
    let crc = Crc32::new();
    let accepted = vec![mac(0xD0)];
    assert!(matches!(inspect_frame(&[0u8; 17], &accepted, &crc), FrameVerdict::Malformed));

    let payload = vec![0u8; 46];
    let to_other = assemble_frame(&mac(0x99), &mac(0x50), 0x0080, &payload, &crc);
    assert!(matches!(inspect_frame(&to_other, &accepted, &crc), FrameVerdict::NotAccepted));

    let short_payload = vec![0u8; 10];
    let short = assemble_frame(&mac(0xD0), &mac(0x50), 0x0080, &short_payload, &crc);
    assert!(matches!(inspect_frame(&short, &accepted, &crc), FrameVerdict::BadPayloadLength));

    // A corrupted byte flips the CRC verdict but the frame is still shown.
    let mut corrupted = assemble_frame(&mac(0xD0), &mac(0x50), 0x0080, &payload, &crc);
    corrupted[20] ^= 0xFF;
    match inspect_frame(&corrupted, &accepted, &crc) {
        FrameVerdict::Accepted { crc_ok, .. } => assert!(!crc_ok),
        _ => panic!("expected an accepted frame"),
    }
}

fn tool_config(fragment_size: usize) -> Ipv4Config {
    Ipv4Config {
        src_ip: ip(10, 13, 80, 43),
        dst_ip: ip(10, 13, 80, 44),
        ttl: 64,
        tos: 0xFE,
        protocol: 6,
        fragment_size,
        identification: 99,
        dont_fragment: false,
    }
}

#[test]
fn fragmentation_cuts_and_checksums() {
    let data = vec![7u8; 100];
    let cfg = tool_config(64);
    let payloads = build_ipv4_payloads(&data, &cfg).unwrap();
    assert_eq!(payloads.len(), 2);
    // First fragment: 64 data bytes, MF set, offset 0.
    let first = &payloads[0];
    assert_eq!(first.len(), 60 + 64);
    assert_eq!(first[0], 0x4F);
    assert_eq!(u16::from(first[6]) * 256 + u16::from(first[7]), 0x2000);
    assert_eq!(simple_checksum(&first[0..60]), 0);
    // Second fragment: the remaining 36 bytes, MF clear, offset 64/8.
    let second = &payloads[1];
    assert_eq!(second.len(), 60 + 36);
    assert_eq!(u16::from(second[6]) * 256 + u16::from(second[7]), 8);
    assert_eq!(simple_checksum(&second[0..60]), 0);
    assert_eq!(&second[60..], &data[64..]);
}

#[test]
fn fragmentation_rejects_bad_parameters() {
    assert_eq!(build_ipv4_payloads(&[], &tool_config(64)), Err(FragmentError::EmptyData));
    assert_eq!(build_ipv4_payloads(&[1], &tool_config(0)), Err(FragmentError::FragmentSizeZero));
    assert_eq!(
        build_ipv4_payloads(&[1], &tool_config(1448)),
        Err(FragmentError::FragmentSizeTooLarge)
    );
    assert_eq!(
        build_ipv4_payloads(&[1], &tool_config(60)),
        Err(FragmentError::FragmentSizeUnaligned)
    );
    let big = vec![0u8; 65476];
    assert_eq!(build_ipv4_payloads(&big, &tool_config(1440)), Err(FragmentError::DataTooLarge));
}

/// A minimal valid header for the offline processor: 20 bytes, checksum
/// filled so the whole header sums to zero.
fn offline_datagram(dst: Ipv4Addr, id: u16, offset_units: u16, more: bool, data: &[u8]) -> Vec<u8> {
    let mut h = vec![0u8; 20];
    h[0] = 0x45;
    let total = (20 + data.len()) as u16;
    h[2] = (total >> 8) as u8;
    h[3] = (total & 0xFF) as u8;
    h[4] = (id >> 8) as u8;
    h[5] = (id & 0xFF) as u8;
    let field = offset_units | if more { 0x2000 } else { 0 };
    h[6] = (field >> 8) as u8;
    h[7] = (field & 0xFF) as u8;
    h[8] = 64;
    h[9] = 17;
    h[12] = 10;
    h[15] = 1;
    h[16] = dst.octets()[0];
    h[17] = dst.octets()[1];
    h[18] = dst.octets()[2];
    h[19] = dst.octets()[3];
    let c = simple_checksum(&h);
    h[10] = (c >> 8) as u8;
    h[11] = (c & 0xFF) as u8;
    h.extend_from_slice(data);
    h
}

#[test]
fn reassembly_passes_whole_datagrams_through() {
    let dst = ip(192, 168, 0, 1);
    let mut p = Ipv4Processor::new(vec![dst]);
    let payload = offline_datagram(dst, 1, 0, false, b"plain data");
    match p.process(&payload, 0) {
        Ipv4ProcessOutcome::Complete { data } => assert_eq!(data, b"plain data".to_vec()),
        _ => panic!("expected a complete datagram"),
    }
}

#[test]
fn reassembly_joins_fragments_in_order() {
    let dst = ip(192, 168, 0, 1);
    let mut p = Ipv4Processor::new(vec![dst]);
    let first = offline_datagram(dst, 7, 0, true, &[0xAAu8; 16]);
    assert!(matches!(p.process(&first, 0), Ipv4ProcessOutcome::FragmentStored));
    let second = offline_datagram(dst, 7, 2, false, &[0xBBu8; 8]);
    match p.process(&second, 100) {
        Ipv4ProcessOutcome::Reassembled { data } => {
            assert_eq!(data.len(), 24);
            assert_eq!(&data[0..16], &[0xAAu8; 16]);
            assert_eq!(&data[16..], &[0xBBu8; 8]);
        },
        _ => panic!("expected a reassembled datagram"),
    }
}

#[test]
fn reassembly_drops_discontinuous_runs() {
    let dst = ip(192, 168, 0, 1);
    let mut p = Ipv4Processor::new(vec![dst]);
    let first = offline_datagram(dst, 7, 0, true, &[0u8; 16]);
    assert!(matches!(p.process(&first, 0), Ipv4ProcessOutcome::FragmentStored));
    // Offset 4 units = 32 bytes, but only 16 have arrived: a gap.
    let wrong = offline_datagram(dst, 7, 4, false, &[0u8; 8]);
    assert!(matches!(p.process(&wrong, 50), Ipv4ProcessOutcome::FragmentDiscontinuous));
    // The run was dropped: the same fragment now starts from nothing and
    // is again discontinuous.
    assert!(matches!(p.process(&wrong, 60), Ipv4ProcessOutcome::FragmentDiscontinuous));
}

#[test]
fn reassembly_times_out_idle_runs() {
    let dst = ip(192, 168, 0, 1);
    let mut p = Ipv4Processor::new(vec![dst]);
    let first = offline_datagram(dst, 7, 0, true, &[0u8; 16]);
    assert!(matches!(p.process(&first, 0), Ipv4ProcessOutcome::FragmentStored));
    // After the 30 s idle timeout the run is gone; its continuation no
    // longer fits.
    let second = offline_datagram(dst, 7, 2, false, &[0u8; 8]);
    assert!(matches!(
        p.process(&second, 31_000),
        Ipv4ProcessOutcome::FragmentDiscontinuous
    ));
}

#[test]
fn reassembly_validation_outcomes() {
    let dst = ip(192, 168, 0, 1);
    let other = ip(172, 16, 0, 1);
    let mut p = Ipv4Processor::new(vec![dst]);
    assert!(matches!(p.process(&[0u8; 10], 0), Ipv4ProcessOutcome::TooShort));

    let mut bad_version = offline_datagram(dst, 1, 0, false, b"x");
    bad_version[0] = 0x55;
    assert!(matches!(p.process(&bad_version, 0), Ipv4ProcessOutcome::BadHeader));

    let mut bad_len = offline_datagram(dst, 1, 0, false, b"x");
    bad_len[3] = 0xFF;
    assert!(matches!(p.process(&bad_len, 0), Ipv4ProcessOutcome::BadLength));

    let mut bad_sum = offline_datagram(dst, 1, 0, false, b"x");
    bad_sum[11] ^= 0xFF;
    assert!(matches!(p.process(&bad_sum, 0), Ipv4ProcessOutcome::BadChecksum));

    let not_mine = offline_datagram(other, 1, 0, false, b"x");
    assert!(matches!(p.process(&not_mine, 0), Ipv4ProcessOutcome::NotAccepted));
}

#[test]
fn reassembly_rejects_zero_ttl() {
    let dst = ip(192, 168, 0, 1);
    let mut p = Ipv4Processor::new(vec![dst]);
    let mut dead = offline_datagram(dst, 1, 0, false, b"x");
    dead[8] = 0;
    // Re-balance the checksum for the changed TTL byte.
    dead[10] = 0;
    dead[11] = 0;
    let c = simple_checksum(&dead[0..20]);
    dead[10] = (c >> 8) as u8;
    dead[11] = (c & 0xFF) as u8;
    assert!(matches!(p.process(&dead, 0), Ipv4ProcessOutcome::TtlExpired));
}

#[test]
fn allowed_slice_reports_accept_list() {
    let p = Ipv4Processor::new(vec![ip(1, 2, 3, 4), ip(5, 6, 7, 8)]);
    assert_eq!(p.allowed_slice().len(), 2);
    assert_eq!(p.allowed_slice()[0], ip(1, 2, 3, 4));
}
