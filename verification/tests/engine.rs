//! End-to-end scenarios through the stack core: echo, ARP resolution,
//! demultiplexing and filtering.

use net_stack::addr::{Ipv4Addr, MacAddr};
use net_stack::arp::{ArpOperation, ArpPacket};
use net_stack::checksum::simple_checksum;
use net_stack::error::ApiError;
use net_stack::ethernet::{EtherType, EthernetHeader};
use net_stack::icmp::{IcmpType, ICMP};
use net_stack::ipv4::Ipv4Header;
use net_stack::stack::{Stack, StackConfig};
use net_stack::udp::{UdpHeader, UdpPacket};

fn my_mac() -> MacAddr {
    MacAddr::from_raw([0x02, 0x00, 0x00, 0x00, 0x00, 0x01])
}

fn my_ip() -> Ipv4Addr {
    Ipv4Addr::new(192, 168, 1, 1)
}

fn peer_mac() -> MacAddr {
    MacAddr::from_raw([0xAA, 0xBB, 0xCC, 0xDD, 0xEE, 0xFF])
}

fn new_stack() -> Stack {
    Stack::new(StackConfig { mac: my_mac(), ip: my_ip() })
}

/// An Ethernet frame around an IPv4 datagram, unpadded.
fn ipv4_frame(dst_mac: MacAddr, src_mac: MacAddr, header: &Ipv4Header, payload: &[u8]) -> Vec<u8> {
    let eth = EthernetHeader::new(src_mac, dst_mac, EtherType::Ipv4);
    let mut frame = eth.to_bytes();
    let mut hb = header.to_bytes();
    frame.append(&mut hb);
    frame.extend_from_slice(payload);
    frame
}

/// An Ethernet frame around an ARP packet, unpadded.
fn arp_frame(dst_mac: MacAddr, src_mac: MacAddr, packet: &ArpPacket) -> Vec<u8> {
    let eth = EthernetHeader::new(src_mac, dst_mac, EtherType::Arp);
    let mut frame = eth.to_bytes();
    let mut pb = packet.to_bytes();
    frame.append(&mut pb);
    frame
}

/// Feeds an ARP reply so the stack learns `ip -> mac`.
fn learn(stack: &mut Stack, ip: Ipv4Addr, mac: MacAddr, now_ms: u64) {
    let reply = ArpPacket::new(ArpOperation::Reply, mac, ip, my_mac(), my_ip());
    let frame = arp_frame(my_mac(), mac, &reply);
    let out = stack.receive(&frame, now_ms);
    assert_eq!(out.len(), 0);
}

#[test]
fn echo_request_produces_echo_reply() {
    let mut stack = new_stack();
    let peer_ip = Ipv4Addr::new(192, 168, 1, 2);
    learn(&mut stack, peer_ip, peer_mac(), 1_000);

    let request = ICMP::new(IcmpType::Request, 0, 1234, 7, 777, &[0u8; 32]);
    let icmp_bytes = request.to_bytes();
    let header = Ipv4Header::new(peer_ip, my_ip(), 1, icmp_bytes.len() as u16, 0);
    let frame = ipv4_frame(my_mac(), peer_mac(), &header, &icmp_bytes);

    let out = stack.receive(&frame, 1_010);
    assert_eq!(out.len(), 1);
    let reply_frame = &out[0];
    assert_eq!(reply_frame.len(), 14 + 20 + 44);

    let eth = EthernetHeader::parse(reply_frame).unwrap();
    assert_eq!(eth.dst, peer_mac());
    assert_eq!(eth.src, my_mac());
    assert_eq!(eth.ethertype, EtherType::Ipv4);

    let ip = Ipv4Header::parse(&reply_frame[14..]).unwrap();
    assert_eq!(ip.src, my_ip());
    assert_eq!(ip.dst, peer_ip);
    assert_eq!(ip.protocol, 1);
    assert_eq!(simple_checksum(&reply_frame[14..34]), 0);

    let icmp_section = &reply_frame[34..];
    assert_eq!(simple_checksum(icmp_section), 0);
    let reply = ICMP::parse(icmp_section).unwrap();
    assert_eq!(reply.header.type_, 0);
    assert_eq!(reply.header.code, 0);
    assert_eq!(reply.header.id, 1234);
    assert_eq!(reply.header.seq, 7);
    assert_eq!(reply.data.time, 777);
    assert_eq!(reply.data.payload, vec![0u8; 32]);
}

#[test]
fn arp_request_for_my_ip_gets_reply() {
    let mut stack = new_stack();
    let asker_ip = Ipv4Addr::new(192, 168, 1, 7);
    let asker_mac = MacAddr::from_raw([9, 9, 9, 9, 9, 9]);
    let request = ArpPacket::new(
        ArpOperation::Request,
        asker_mac,
        asker_ip,
        MacAddr::zero(),
        my_ip(),
    );
    let frame = arp_frame(MacAddr::broadcast(), asker_mac, &request);
    let out = stack.receive(&frame, 50);
    assert_eq!(out.len(), 1);
    assert_eq!(out[0].len(), 60);
    let eth = EthernetHeader::parse(&out[0]).unwrap();
    assert_eq!(eth.dst, asker_mac);
    assert_eq!(eth.ethertype, EtherType::Arp);
    let reply = ArpPacket::parse(&out[0][14..42]).unwrap();
    assert_eq!(reply.opcode, 2);
    assert_eq!(reply.sender_mac, my_mac());
    assert_eq!(reply.sender_ip, my_ip());
    assert_eq!(reply.target_mac, asker_mac);
    assert_eq!(reply.target_ip, asker_ip);
    // P2: the sender was learned.
    assert_eq!(stack.arp_table.lookup(asker_ip, 60), Some(asker_mac));
}

#[test]
fn arp_learn_and_flush_pending() {
    let mut stack = new_stack();
    let target = Ipv4Addr::new(10, 0, 0, 5);
    let handle = stack.bind(my_ip(), 5555);
    assert!(stack.send_to(handle, b"payload", target, 4242).is_ok());

    // (a) Draining emits a broadcast ARP request and queues the packet.
    let out = stack.poll_and_send(2_000);
    assert_eq!(out.len(), 1);
    let eth = EthernetHeader::parse(&out[0]).unwrap();
    assert_eq!(eth.dst, MacAddr::broadcast());
    assert_eq!(eth.ethertype, EtherType::Arp);
    let req = ArpPacket::parse(&out[0][14..42]).unwrap();
    assert_eq!(req.opcode, 1);
    assert_eq!(req.target_ip, target);
    assert_eq!(req.target_mac, MacAddr::zero());

    // (b) An ARP reply from the target flushes the queued datagram to the
    // learned MAC.
    let reply = ArpPacket::new(ArpOperation::Reply, peer_mac(), target, my_mac(), my_ip());
    let frame = arp_frame(my_mac(), peer_mac(), &reply);
    let flushed = stack.receive(&frame, 2_500);
    assert_eq!(flushed.len(), 1);
    let eth2 = EthernetHeader::parse(&flushed[0]).unwrap();
    assert_eq!(eth2.dst, peer_mac());
    assert_eq!(eth2.ethertype, EtherType::Ipv4);
    let ip = Ipv4Header::parse(&flushed[0][14..]).unwrap();
    assert_eq!(ip.dst, target);
    assert_eq!(ip.protocol, 17);
    let udp = UdpPacket::parse(&flushed[0][34..]).unwrap();
    assert_eq!(udp.header.src_port, 5555);
    assert_eq!(udp.header.dst_port, 4242);
    assert_eq!(udp.payload, b"payload".to_vec());
    assert_eq!(stack.arp_table.lookup(target, 2_600), Some(peer_mac()));

    // A second poll sends nothing: the packet went out exactly once.
    let again = stack.poll_and_send(2_700);
    assert_eq!(again.len(), 0);
    let refl = stack.receive(&frame, 2_800);
    assert_eq!(refl.len(), 0);
}

#[test]
fn arp_timeout_drops_pending() {
    let mut stack = new_stack();
    let target = Ipv4Addr::new(10, 0, 0, 5);
    let handle = stack.bind(my_ip(), 5555);
    assert!(stack.send_to(handle, b"payload", target, 4242).is_ok());
    let out = stack.poll_and_send(1_000);
    assert_eq!(out.len(), 1);

    // No reply arrives; one cleanup cycle after the timeout drops it.
    stack.cleanup_pending_packets(4_100);

    // A late ARP reply finds nothing to flush.
    let reply = ArpPacket::new(ArpOperation::Reply, peer_mac(), target, my_mac(), my_ip());
    let frame = arp_frame(my_mac(), peer_mac(), &reply);
    let flushed = stack.receive(&frame, 4_200);
    assert_eq!(flushed.len(), 0);
}

#[test]
fn udp_demux_three_tiers() {
    let mut stack = new_stack();
    let peer1 = Ipv4Addr::new(10, 0, 0, 1);
    let peer2 = Ipv4Addr::new(10, 0, 0, 2);
    // A: bound-local socket on my_ip:5000.
    let a = stack.bind(my_ip(), 5000);
    // B: connected socket to 10.0.0.1:9000.
    let mut b = a;
    b.remote_addr = peer1;
    b.remote_port = 9000;
    stack.sockets.add(b, net_stack::socket::Socket::Udp(
        net_stack::udp_socket::UdpSocketState::new(),
    ));

    let deliver = |stack: &mut Stack, src: Ipv4Addr, src_port: u16, dst_port: u16, msg: &[u8]| {
        let udp = UdpPacket::new(UdpHeader::new(src_port, dst_port, 0), msg, src, my_ip());
        let bytes = udp.to_bytes();
        let header = Ipv4Header::new(src, my_ip(), 17, bytes.len() as u16, 0);
        let frame = ipv4_frame(my_mac(), peer_mac(), &header, &bytes);
        let out = stack.receive(&frame, 100);
        assert_eq!(out.len(), 0);
    };

    // From 10.0.0.1:9000 the exact tier wins: socket B.
    deliver(&mut stack, peer1, 9000, 5000, b"to-b");
    // From 10.0.0.2:9000 only the bound-local tier matches: socket A.
    deliver(&mut stack, peer2, 9000, 5000, b"to-a");
    // To an unbound port nothing matches; the datagram is dropped.
    deliver(&mut stack, peer1, 9000, 6000, b"dropped");

    let (data_b, src_b, port_b) = stack.recv_from(b).unwrap();
    assert_eq!(data_b, b"to-b".to_vec());
    assert_eq!(src_b, peer1);
    assert_eq!(port_b, 9000);
    assert_eq!(stack.recv_from(b), Err(ApiError::NoData));

    let (data_a, src_a, port_a) = stack.recv_from(a).unwrap();
    assert_eq!(data_a, b"to-a".to_vec());
    assert_eq!(src_a, peer2);
    assert_eq!(port_a, 9000);
    assert_eq!(stack.recv_from(a), Err(ApiError::NoData));
}

#[test]
fn udp_echo_server_flow() {
    let mut stack = new_stack();
    let peer_ip = Ipv4Addr::new(192, 168, 1, 2);
    let handle = stack.bind(Ipv4Addr::unspecified(), 8080);

    // The datagram arrives; the peer's MAC is learned via ARP beforehand.
    learn(&mut stack, peer_ip, peer_mac(), 10);
    let udp = UdpPacket::new(UdpHeader::new(34000, 8080, 0), b"hello", peer_ip, my_ip());
    let bytes = udp.to_bytes();
    let header = Ipv4Header::new(peer_ip, my_ip(), 17, bytes.len() as u16, 0);
    let frame = ipv4_frame(my_mac(), peer_mac(), &header, &bytes);
    let out = stack.receive(&frame, 20);
    assert_eq!(out.len(), 0);

    // The application echoes.
    let (data, src_ip, src_port) = stack.recv_from(handle).unwrap();
    assert_eq!(data, b"hello".to_vec());
    let mut reply = b"Echo: ".to_vec();
    reply.extend_from_slice(&data);
    assert!(stack.send_to(handle, &reply, src_ip, src_port).is_ok());

    // P9-adjacent: draining emits the one reply, correctly framed.
    let sent = stack.poll_and_send(30);
    assert_eq!(sent.len(), 1);
    let eth = EthernetHeader::parse(&sent[0]).unwrap();
    assert_eq!(eth.dst, peer_mac());
    let ip = Ipv4Header::parse(&sent[0][14..]).unwrap();
    assert_eq!(ip.dst, peer_ip);
    assert_eq!(simple_checksum(&sent[0][14..34]), 0);
    let udp_out = UdpPacket::parse(&sent[0][34..]).unwrap();
    assert_eq!(udp_out.header.src_port, 8080);
    assert_eq!(udp_out.header.dst_port, 34000);
    assert_eq!(udp_out.payload, b"Echo: hello".to_vec());
    assert!(udp_out.validate(my_ip(), peer_ip).is_ok());
}

#[test]
fn frame_for_unrelated_unicast_mac_is_ignored() {
    let mut stack = new_stack();
    let other_mac = MacAddr::from_raw([6, 6, 6, 6, 6, 6]);
    let sender_ip = Ipv4Addr::new(192, 168, 1, 9);
    // An ARP reply addressed to some other host: no dispatch, nothing
    // learned.
    let reply = ArpPacket::new(ArpOperation::Reply, peer_mac(), sender_ip, other_mac, my_ip());
    let frame = arp_frame(other_mac, peer_mac(), &reply);
    let out = stack.receive(&frame, 5);
    assert_eq!(out.len(), 0);
    assert_eq!(stack.arp_table.lookup(sender_ip, 6), None);
}

#[test]
fn arp_with_foreign_hardware_type_is_ignored() {
    let mut stack = new_stack();
    let sender_ip = Ipv4Addr::new(192, 168, 1, 9);
    let mut packet = ArpPacket::new(
        ArpOperation::Request,
        peer_mac(),
        sender_ip,
        MacAddr::zero(),
        my_ip(),
    );
    packet.hardware_type = 6;
    let frame = arp_frame(MacAddr::broadcast(), peer_mac(), &packet);
    // Not Ethernet/IPv4: nothing is learned and no reply goes out.
    let out = stack.receive(&frame, 5);
    assert_eq!(out.len(), 0);
    assert_eq!(stack.arp_table.lookup(sender_ip, 6), None);
}

#[test]
fn ipv4_for_other_destination_is_dropped() {
    let mut stack = new_stack();
    let request = ICMP::new(IcmpType::Request, 0, 1, 1, 0, &[0u8; 8]);
    let icmp_bytes = request.to_bytes();
    let other_ip = Ipv4Addr::new(192, 168, 1, 200);
    let header = Ipv4Header::new(Ipv4Addr::new(192, 168, 1, 2), other_ip, 1, icmp_bytes.len() as u16, 0);
    let frame = ipv4_frame(my_mac(), peer_mac(), &header, &icmp_bytes);
    let out = stack.receive(&frame, 5);
    assert_eq!(out.len(), 0);
}

#[test]
fn echo_request_without_arp_entry_queues_reply() {
    let mut stack = new_stack();
    let peer_ip = Ipv4Addr::new(192, 168, 1, 2);
    let request = ICMP::new(IcmpType::Request, 0, 5, 6, 0, &[0u8; 8]);
    let icmp_bytes = request.to_bytes();
    let header = Ipv4Header::new(peer_ip, my_ip(), 1, icmp_bytes.len() as u16, 0);
    let frame = ipv4_frame(my_mac(), peer_mac(), &header, &icmp_bytes);
    // Without a cached MAC the stack emits an ARP request instead and
    // queues the reply.
    let out = stack.receive(&frame, 5);
    assert_eq!(out.len(), 1);
    let eth = EthernetHeader::parse(&out[0]).unwrap();
    assert_eq!(eth.ethertype, EtherType::Arp);
    let req = ArpPacket::parse(&out[0][14..42]).unwrap();
    assert_eq!(req.opcode, 1);
    assert_eq!(req.target_ip, peer_ip);
}

#[test]
fn send_to_unknown_socket_fails() {
    let mut stack = new_stack();
    let handle = stack.bind(my_ip(), 1111);
    let mut ghost_handle = handle;
    ghost_handle.local_port = 2222;
    assert_eq!(
        stack.send_to(ghost_handle, b"x", Ipv4Addr::new(1, 2, 3, 4), 9),
        Err(ApiError::SocketNotFound)
    );
    assert_eq!(stack.recv_from(ghost_handle), Err(ApiError::SocketNotFound));
}

#[test]
fn short_and_unknown_frames_do_nothing() {
    let mut stack = new_stack();
    assert_eq!(stack.receive(&[0u8; 10], 1).len(), 0);
    // An IPv6 frame to us is silently dropped.
    let eth = EthernetHeader::new(peer_mac(), my_mac(), EtherType::Ipv6);
    let mut frame = eth.to_bytes();
    frame.extend_from_slice(&[0u8; 40]);
    assert_eq!(stack.receive(&frame, 1).len(), 0);
    // An unknown EtherType as well.
    let eth2 = EthernetHeader::new(peer_mac(), my_mac(), EtherType::Unknown(0x4242));
    let mut frame2 = eth2.to_bytes();
    frame2.extend_from_slice(&[0u8; 46]);
    assert_eq!(stack.receive(&frame2, 1).len(), 0);
}
