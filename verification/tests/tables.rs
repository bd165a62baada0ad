//! The shared tables: ARP cache with expiry, pending-packet queue, socket
//! registry and per-socket FIFOs.

use net_stack::addr::{Ipv4Addr, MacAddr};
use net_stack::arp_table::{ArpProcessor, ArpTable, ARP_TTL_MS};
use net_stack::arp::{ArpOperation, ArpPacket};
use net_stack::ipv4::Ipv4Protocol;
use net_stack::pending::{PendingPacket, PendingQueue};
use net_stack::socket::{Socket, SocketHandle, SocketSet, SocketType};
use net_stack::udp_socket::UdpSocketState;

fn ip(a: u8, b: u8, c: u8, d: u8) -> Ipv4Addr {
    Ipv4Addr::new(a, b, c, d)
}

fn mac(x: u8) -> MacAddr {
    MacAddr::from_raw([x, x, x, x, x, x])
}

#[test]
fn arp_table_learns_and_expires() {
    let mut t = ArpTable::new(ARP_TTL_MS);
    assert_eq!(t.lookup(ip(10, 0, 0, 1), 0), None);
    t.insert(ip(10, 0, 0, 1), mac(1), 1_000);
    // P2: the mapping holds until the TTL elapses.
    assert_eq!(t.lookup(ip(10, 0, 0, 1), 1_000), Some(mac(1)));
    assert_eq!(t.lookup(ip(10, 0, 0, 1), 1_000 + ARP_TTL_MS - 1), Some(mac(1)));
    assert_eq!(t.lookup(ip(10, 0, 0, 1), 1_000 + ARP_TTL_MS), None);
    // A later insert overrides MAC and timestamp.
    t.insert(ip(10, 0, 0, 1), mac(2), 2_000);
    assert_eq!(t.lookup(ip(10, 0, 0, 1), 2_500), Some(mac(2)));
}

#[test]
fn arp_table_prune_drops_only_expired() {
    let mut t = ArpTable::new(ARP_TTL_MS);
    t.insert(ip(10, 0, 0, 1), mac(1), 0);
    t.insert(ip(10, 0, 0, 2), mac(2), 200_000);
    t.prune_expired(320_000);
    assert_eq!(t.lookup(ip(10, 0, 0, 1), 320_000), None);
    assert_eq!(t.lookup(ip(10, 0, 0, 2), 320_000), Some(mac(2)));
}

fn pending_packet(dst: Ipv4Addr, tag: u8, at: u64) -> PendingPacket {
    PendingPacket { dst_ip: dst, protocol: Ipv4Protocol::UDP, payload: vec![tag], timestamp: at }
}

#[test]
fn pending_queue_is_fifo_per_destination() {
    let mut q = PendingQueue::new();
    let d = ip(10, 0, 0, 5);
    q.enqueue(d, pending_packet(d, 1, 0));
    q.enqueue(d, pending_packet(d, 2, 10));
    q.enqueue(ip(10, 0, 0, 6), pending_packet(ip(10, 0, 0, 6), 3, 20));
    let drained = q.drain(d).unwrap();
    assert_eq!(drained.len(), 2);
    assert_eq!(drained[0].payload, vec![1]);
    assert_eq!(drained[1].payload, vec![2]);
    // The bucket is gone after the drain.
    assert!(q.drain(d).is_none());
    // The other destination is untouched.
    assert_eq!(q.drain(ip(10, 0, 0, 6)).unwrap().len(), 1);
}

#[test]
fn pending_queue_cleanup_drops_stale_and_empty_buckets() {
    let mut q = PendingQueue::new();
    let d1 = ip(10, 0, 0, 5);
    let d2 = ip(10, 0, 0, 6);
    q.enqueue(d1, pending_packet(d1, 1, 0));
    q.enqueue(d2, pending_packet(d2, 2, 0));
    q.enqueue(d2, pending_packet(d2, 3, 2_500));
    // P3 timeout side: at 3 s the first packets are stale; the empty
    // bucket disappears, the fresh packet stays.
    q.cleanup(3_000);
    assert!(q.drain(d1).is_none());
    let left = q.drain(d2).unwrap();
    assert_eq!(left.len(), 1);
    assert_eq!(left[0].payload, vec![3]);
}

#[test]
fn udp_socket_queues_are_bounded_fifo() {
    let mut s = UdpSocketState::new();
    assert!(!s.can_recv());
    s.set_rx_capacity(2);
    s.rx_enqueue(ip(1, 1, 1, 1), 10, b"first");
    s.rx_enqueue(ip(2, 2, 2, 2), 20, b"second");
    // P8: the third arrival at a full queue is dropped.
    s.rx_enqueue(ip(3, 3, 3, 3), 30, b"third");
    assert!(s.can_recv());
    // P9: arrival order is preserved.
    let (a_ip, a_port, a_data) = s.recv().unwrap();
    assert_eq!((a_ip, a_port, a_data), (ip(1, 1, 1, 1), 10, b"first".to_vec()));
    let (b_ip, b_port, b_data) = s.recv().unwrap();
    assert_eq!((b_ip, b_port, b_data), (ip(2, 2, 2, 2), 20, b"second".to_vec()));
    assert!(s.recv().is_none());

    s.set_tx_capacity(1);
    s.send_to(b"one", ip(9, 9, 9, 9), 99);
    s.send_to(b"two", ip(9, 9, 9, 9), 99);
    let (t_ip, t_port, t_data) = s.poll_transmit().unwrap();
    assert_eq!((t_ip, t_port, t_data), (ip(9, 9, 9, 9), 99, b"one".to_vec()));
    assert!(s.poll_transmit().is_none());
}

fn handle(local: Ipv4Addr, lport: u16, remote: Ipv4Addr, rport: u16) -> SocketHandle {
    SocketHandle::new(&SocketType::Udp, local, lport, remote, rport)
}

#[test]
fn socket_set_three_tier_lookup() {
    let my = ip(192, 168, 1, 1);
    let mut set = SocketSet::new();
    let exact = handle(my, 5000, ip(10, 0, 0, 1), 9000);
    let bound = handle(my, 5000, Ipv4Addr::unspecified(), 0);
    let wild = handle(Ipv4Addr::unspecified(), 5000, Ipv4Addr::unspecified(), 0);
    set.add(wild, Socket::Udp(UdpSocketState::new()));
    set.add(bound, Socket::Udp(UdpSocketState::new()));
    set.add(exact, Socket::Udp(UdpSocketState::new()));
    // P4: the exact tier wins, then bound-local, then wildcard.
    assert_eq!(
        set.lookup(&SocketType::Udp, ip(10, 0, 0, 1), 9000, my, 5000),
        Some(exact)
    );
    assert_eq!(
        set.lookup(&SocketType::Udp, ip(10, 0, 0, 2), 9000, my, 5000),
        Some(bound)
    );
    assert_eq!(
        set.lookup(&SocketType::Udp, ip(10, 0, 0, 2), 9000, ip(192, 168, 1, 3), 5000),
        Some(wild)
    );
    assert_eq!(set.lookup(&SocketType::Udp, ip(10, 0, 0, 2), 9000, my, 6000), None);
    set.remove(exact).unwrap();
    assert_eq!(
        set.lookup(&SocketType::Udp, ip(10, 0, 0, 1), 9000, my, 5000),
        Some(bound)
    );
}

#[test]
fn socket_set_get_add_remove() {
    let mut set = SocketSet::new();
    let h = handle(ip(1, 2, 3, 4), 80, Ipv4Addr::unspecified(), 0);
    assert!(set.get(h).is_none());
    set.add(h, Socket::Udp(UdpSocketState::new()));
    assert!(set.get(h).is_some());
    assert!(set.remove(h).is_some());
    assert!(set.remove(h).is_none());
}

#[test]
fn socket_set_multicast_lookup() {
    let my = ip(192, 168, 1, 1);
    let group = ip(239, 0, 0, 1);
    let mut set = SocketSet::new();
    let on_group = handle(group, 7000, Ipv4Addr::unspecified(), 0);
    let on_any = handle(Ipv4Addr::unspecified(), 7000, Ipv4Addr::unspecified(), 0);
    let connected = handle(group, 7000, ip(10, 0, 0, 1), 1234);
    let other_port = handle(my, 7001, Ipv4Addr::unspecified(), 0);
    set.add(on_group, Socket::Udp(UdpSocketState::new()));
    set.add(on_any, Socket::Udp(UdpSocketState::new()));
    set.add(connected, Socket::Udp(UdpSocketState::new()));
    set.add(other_port, Socket::Udp(UdpSocketState::new()));
    let hits = set.lookup_multicast(&SocketType::Udp, ip(10, 0, 0, 1), 1234, group, 7000);
    assert_eq!(hits.len(), 3);
    assert!(hits.contains(&on_group));
    assert!(hits.contains(&on_any));
    assert!(hits.contains(&connected));
    let misses = set.lookup_multicast(&SocketType::Udp, ip(10, 0, 0, 2), 9, group, 7000);
    assert_eq!(misses.len(), 2);
    assert!(!misses.contains(&connected));
}

#[test]
fn socket_type_codes() {
    assert_eq!(SocketType::Udp.to_code(), 17);
    assert_eq!(SocketType::Tcp.to_code(), 6);
    assert_eq!(SocketType::Unknown.to_code(), 0);
    assert_eq!(SocketType::parse(17), SocketType::Udp);
    assert_eq!(SocketType::parse(6), SocketType::Tcp);
    assert_eq!(SocketType::parse(1), SocketType::Unknown);
}

#[test]
fn arp_processor_learns_and_filters() {
    let mut p = ArpProcessor::new(vec![ip(10, 0, 0, 9)]);
    let observed = ArpPacket::new(
        ArpOperation::Reply,
        mac(5),
        ip(10, 0, 0, 1),
        mac(6),
        ip(10, 0, 0, 9),
    );
    assert!(p.process(&observed.to_bytes()).is_ok());
    assert_eq!(p.cached(ip(10, 0, 0, 1)), Some(mac(5)));

    // A target off the allow-list is ignored.
    let off_list = ArpPacket::new(
        ArpOperation::Reply,
        mac(7),
        ip(10, 0, 0, 2),
        mac(6),
        ip(10, 0, 0, 8),
    );
    assert!(p.process(&off_list.to_bytes()).is_ok());
    assert_eq!(p.cached(ip(10, 0, 0, 2)), None);

    // A non-Ethernet/IPv4 packet is ignored too.
    let mut odd = observed.to_bytes();
    odd[0] = 0;
    odd[1] = 2;
    assert!(p.process(&odd).is_ok());

    // Parse faults surface.
    assert!(p.process(&[0u8; 5]).is_err());

    // A fresh observation replaces the cached MAC.
    let again = ArpPacket::new(
        ArpOperation::Request,
        mac(8),
        ip(10, 0, 0, 1),
        MacAddr::zero(),
        ip(10, 0, 0, 9),
    );
    assert!(p.process(&again.to_bytes()).is_ok());
    assert_eq!(p.cached(ip(10, 0, 0, 1)), Some(mac(8)));
}
