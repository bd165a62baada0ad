//! The stack core: configuration, the four shared tables, and the packet
//! engine that turns inbound frames and queued sends into outbound frames.
//!
//! Every function here is a pure state machine step: it mutates the tables
//! and returns the Ethernet frames to put on the wire, in order. Device
//! I/O and clocks live with the caller, which passes the current time in
//! milliseconds.

use vstd::prelude::*;
use crate::addr::{Ipv4Addr, MacAddr, ip_broadcast, ip_is_multicast, mac_broadcast, mac_zero};
use crate::arp::{ArpOperation, ArpPacket, arp_operation_of, spec_arp_bytes,
    spec_arp_parse, spec_arp_parse_ok};
use crate::arp_table::{ArpTable, ARP_TTL_MS, arp_fresh};
use crate::bytes::{push_bytes, u32_byte};
use crate::checksum::internet_checksum;
use crate::error::ApiError;
use crate::ethernet::{EtherType, EthernetHeader, spec_ethernet_bytes, spec_ethernet_parse};
use crate::icmp::{ICMP, ICMPHeader, IcmpType, icmp_type_code, spec_icmp_bytes,
    spec_icmp_checksum, spec_icmp_header_bytes, spec_icmp_header_parse, spec_icmp_header_valid,
    spec_icmp_payload_parse, spec_icmp_zero_checksum};
use crate::ipv4::{Ipv4Header, Ipv4Protocol, protocol_code, spec_header_checksum,
    spec_ipv4_header_bytes, spec_ipv4_header_parse, spec_ipv4_validate};
use crate::pending::{PendingModel, PendingPacket, PendingQueue, packets_models, pending_model,
    lemma_filter_element_of, pending_fresh};
use crate::socket::{Socket, SocketHandle, SocketModel, SocketSet, SocketType, socket_model,
    spec_rx_enqueued, spec_three_tier_lookup, spec_tx_enqueued};
use crate::udp::{UdpHeader, UdpPacket, spec_udp_checksum, spec_udp_header_bytes,
    spec_udp_header_parse, spec_udp_parse_ok};
use crate::udp_socket::{UdpSocketState, msg_view};

verus! {

/// Minimum length of a transmitted Ethernet frame, before the frame check
/// sequence.
pub const MIN_FRAME_LEN: usize = 60;

/// Largest IPv4 payload an option-free datagram can carry.
pub const IPV4_MAX_PAYLOAD: usize = 65515;

/// Largest UDP payload that fits such a datagram.
pub const UDP_MAX_PAYLOAD: usize = 65507;

/// Largest frame the stack accepts from the device.
pub const MAX_FRAME_LEN: usize = 65535;

/// The stack's own addresses, fixed at initialization.
#[derive(Clone, Copy, Debug, PartialEq, Eq, Structural)]
pub struct StackConfig {
    pub mac: MacAddr,
    pub ip: Ipv4Addr,
}

/// A frame padded with zero bytes to the minimum transmit length.
pub open spec fn pad60(b: Seq<u8>) -> Seq<u8> {
    if b.len() >= 60 {
        b
    } else {
        b + Seq::new((60 - b.len()) as nat, |i: int| 0u8)
    }
}

/// The sequences the returned frames stand for.
pub open spec fn frames_view(s: Seq<Vec<u8>>) -> Seq<Seq<u8>> {
    s.map_values(|f: Vec<u8>| f@)
}

/// The outbound IPv4 header for a payload: version 4, no options, TTL 64,
/// id 0, checksum filled in.
pub open spec fn spec_build_ipv4_header(
    src: Ipv4Addr,
    dst: Ipv4Addr,
    proto: u8,
    payload_len: int,
) -> Ipv4Header {
    let h0 = Ipv4Header {
        version: 4,
        ihl: 5,
        tos: 0,
        total_len: (payload_len + 20) as u16,
        id: 0,
        flags: 0,
        frag_offset: 0,
        ttl: 64,
        protocol: proto,
        checksum: 0,
        src,
        dst,
    };
    Ipv4Header { checksum: spec_header_checksum(h0) as u16, ..h0 }
}

/// A full outbound IPv4-over-Ethernet frame to a resolved MAC.
pub open spec fn spec_ipv4_send_frame(
    cfg: StackConfig,
    dst_mac: MacAddr,
    dst_ip: Ipv4Addr,
    proto: u8,
    payload: Seq<u8>,
) -> Seq<u8> {
    pad60(
        spec_ethernet_bytes(
            EthernetHeader { dst: dst_mac, src: cfg.mac, ethertype: EtherType::Ipv4 },
        ) + spec_ipv4_header_bytes(
            spec_build_ipv4_header(cfg.ip, dst_ip, proto, payload.len() as int),
        ) + payload,
    )
}

/// The ARP request the stack broadcasts while resolving `target_ip`.
pub open spec fn spec_arp_request_packet(cfg: StackConfig, target_ip: Ipv4Addr) -> ArpPacket {
    ArpPacket {
        hardware_type: 1,
        protocol_type: 0x0800,
        hardware_len: 6,
        protocol_len: 4,
        opcode: 1,
        sender_mac: cfg.mac,
        sender_ip: cfg.ip,
        target_mac: mac_zero(),
        target_ip,
    }
}

pub open spec fn spec_arp_request_frame(cfg: StackConfig, target_ip: Ipv4Addr) -> Seq<u8> {
    pad60(
        spec_ethernet_bytes(
            EthernetHeader { dst: mac_broadcast(), src: cfg.mac, ethertype: EtherType::Arp },
        ) + spec_arp_bytes(spec_arp_request_packet(cfg, target_ip)),
    )
}

/// The ARP reply the stack sends back to a request for its own IP.
pub open spec fn spec_arp_reply_packet(cfg: StackConfig, request: ArpPacket) -> ArpPacket {
    ArpPacket {
        hardware_type: 1,
        protocol_type: 0x0800,
        hardware_len: 6,
        protocol_len: 4,
        opcode: 2,
        sender_mac: cfg.mac,
        sender_ip: cfg.ip,
        target_mac: request.sender_mac,
        target_ip: request.sender_ip,
    }
}

pub open spec fn spec_arp_reply_frame(cfg: StackConfig, request: ArpPacket) -> Seq<u8> {
    pad60(
        spec_ethernet_bytes(
            EthernetHeader { dst: request.sender_mac, src: cfg.mac, ethertype: EtherType::Arp },
        ) + spec_arp_bytes(spec_arp_reply_packet(cfg, request)),
    )
}

/// Does the ARP cache resolve `ip` at `now_ms`?
pub open spec fn spec_arp_hit(
    arp: Map<Ipv4Addr, (MacAddr, u64)>,
    ttl: u64,
    ip: Ipv4Addr,
    now_ms: u64,
) -> bool {
    arp.contains_key(ip) && arp_fresh(arp[ip].1, now_ms, ttl)
}

/// What one IPv4 send does: with a resolved MAC, the data frame goes out
/// and nothing is queued; otherwise the packet joins the destination's
/// pending FIFO and an ARP request goes out instead.
#[verifier::opaque]
    pub open spec fn spec_send_packet_outcome(
    cfg: StackConfig,
    arp: Map<Ipv4Addr, (MacAddr, u64)>,
    ttl: u64,
    pending: Map<Ipv4Addr, Seq<PendingModel>>,
    dst_ip: Ipv4Addr,
    proto: Ipv4Protocol,
    payload: Seq<u8>,
    now_ms: u64,
) -> (Seq<u8>, Map<Ipv4Addr, Seq<PendingModel>>) {
    if spec_arp_hit(arp, ttl, dst_ip, now_ms) {
        (spec_ipv4_send_frame(cfg, arp[dst_ip].0, dst_ip, protocol_code(proto), payload), pending)
    } else {
        (
            spec_arp_request_frame(cfg, dst_ip),
            pending.insert(
                dst_ip,
                (if pending.contains_key(dst_ip) {
                    pending[dst_ip]
                } else {
                    Seq::empty()
                }).push(PendingModel { dst_ip, protocol: proto, payload, timestamp: now_ms }),
            ),
        )
    }
}

/// The frames that flushing a pending FIFO to a freshly learned MAC emits,
/// one per waiting packet, oldest first.
pub open spec fn spec_flush_frames(
    cfg: StackConfig,
    dst_mac: MacAddr,
    pkts: Seq<PendingModel>,
) -> Seq<Seq<u8>> {
    pkts.map_values(
        |p: PendingModel|
            spec_ipv4_send_frame(cfg, dst_mac, p.dst_ip, protocol_code(p.protocol), p.payload),
    )
}

/// Every queued pending payload fits an IPv4 datagram.
pub open spec fn pending_payloads_fit(m: Map<Ipv4Addr, Seq<PendingModel>>) -> bool {
    forall|ip: Ipv4Addr, i: int|
        #![auto]
        m.contains_key(ip) && 0 <= i < m[ip].len() ==> m[ip][i].payload.len() <= 65515
}

/// Every queued transmit payload fits a UDP datagram.
pub open spec fn tx_payloads_fit(m: Map<SocketHandle, SocketModel>) -> bool {
    forall|h: SocketHandle, i: int|
        #![auto]
        m.contains_key(h) && 0 <= i < m[h].tx.len() ==> m[h].tx[i].2.len() <= 65507
}

/// The stack: configuration and the four shared tables. The caller wraps
/// it in whatever mutual exclusion its threads need and performs all
/// device I/O with the frames these methods return.
pub struct Stack {
    pub config: StackConfig,
    pub arp_table: ArpTable,
    pub pending_packets: PendingQueue,
    pub sockets: SocketSet,
}

impl Stack {
    pub open spec fn wf(&self) -> bool {
        &&& self.arp_table.wf()
        &&& self.pending_packets.wf()
        &&& self.sockets.wf()
        &&& pending_payloads_fit(self.pending_packets@)
        &&& tx_payloads_fit(self.sockets@)
    }

    /// A fresh stack: empty tables, the default ARP time-to-live.
    pub fn new(config: StackConfig) -> (r: Stack)
        ensures
            r.wf(),
            r.config == config,
            r.arp_table@ == Map::<Ipv4Addr, (MacAddr, u64)>::empty(),
            r.arp_table.ttl() == ARP_TTL_MS,
            r.pending_packets@ == Map::<Ipv4Addr, Seq<PendingModel>>::empty(),
            r.sockets@ == Map::<SocketHandle, SocketModel>::empty(),
    {
        Stack {
            config,
            arp_table: ArpTable::new(ARP_TTL_MS),
            pending_packets: PendingQueue::new(),
            sockets: SocketSet::new(),
        }
    }

    /// Pads a frame with zero bytes up to the minimum transmit length.
    fn pad_frame(frame: &mut Vec<u8>)
        ensures
            final(frame)@ == pad60(old(frame)@),
    {
        let ghost base = frame@;
        while frame.len() < MIN_FRAME_LEN
            invariant
                base.len() <= frame@.len(),
                frame@.len() <= 60 || frame@.len() == base.len(),
                frame@.subrange(0, base.len() as int) == base,
                forall|i: int| base.len() <= i < frame@.len() ==> frame@[i] == 0u8,
            decreases 60 - frame@.len(),
        {
            frame.push(0u8);
            proof {
                assert(frame@.subrange(0, base.len() as int) =~= base);
            }
        }
        proof {
            assert(frame@ =~= pad60(base));
        }
    }

    /// Builds the Ethernet frame carrying `payload` as an IPv4 datagram to
    /// an already-resolved destination.
    pub fn send_packet_with_mac(
        &self,
        dst_mac: MacAddr,
        dst_ip: Ipv4Addr,
        protocol: Ipv4Protocol,
        payload: &[u8],
    ) -> (frame: Vec<u8>)
        requires
            payload@.len() <= IPV4_MAX_PAYLOAD,
        ensures
            frame@ == spec_ipv4_send_frame(
                self.config,
                dst_mac,
                dst_ip,
                protocol_code(protocol),
                payload@,
            ),
    {
        let src_ip = self.config.ip;
        let protocol_u8 = protocol.to_code();
        let header = Ipv4Header::new(src_ip, dst_ip, protocol_u8, payload.len() as u16, 0);
        proof {
            let target = spec_build_ipv4_header(
                self.config.ip,
                dst_ip,
                protocol_code(protocol),
                payload@.len() as int,
            );
            assert(spec_ipv4_header_bytes(Ipv4Header { checksum: 0, ..header })
                =~= spec_ipv4_header_bytes(Ipv4Header { checksum: 0, ..target }));
            assert(header == target);
        }
        let header_bytes = header.to_bytes();
        let eth_header = EthernetHeader {
            dst: dst_mac,
            src: self.config.mac,
            ethertype: EtherType::Ipv4,
        };
        let mut frame = eth_header.to_bytes();
        push_bytes(&mut frame, header_bytes.as_slice());
        push_bytes(&mut frame, payload);
        Self::pad_frame(&mut frame);
        frame
    }

    /// Builds the broadcast ARP request asking who holds `target_ip`.
    pub fn arp_request_frame(&self, target_ip: Ipv4Addr) -> (frame: Vec<u8>)
        ensures
            frame@ == spec_arp_request_frame(self.config, target_ip),
    {
        let request_packet = ArpPacket {
            hardware_type: 1,
            protocol_type: 0x0800,
            hardware_len: 6,
            protocol_len: 4,
            opcode: 1,
            sender_mac: self.config.mac,
            sender_ip: self.config.ip,
            target_mac: MacAddr::zero(),
            target_ip,
        };
        let payload = request_packet.to_bytes();
        let eth_header = EthernetHeader {
            dst: MacAddr::broadcast(),
            src: self.config.mac,
            ethertype: EtherType::Arp,
        };
        let mut frame = eth_header.to_bytes();
        push_bytes(&mut frame, payload.as_slice());
        Self::pad_frame(&mut frame);
        frame
    }

    /// Builds the unicast ARP reply answering `request`, which asked for
    /// this stack's IP.
    pub fn arp_reply_frame(&self, request: &ArpPacket) -> (frame: Vec<u8>)
        ensures
            frame@ == spec_arp_reply_frame(self.config, *request),
    {
        let reply_packet = ArpPacket::new(
            ArpOperation::Reply,
            self.config.mac,
            self.config.ip,
            request.sender_mac,
            request.sender_ip,
        );
        let eth_header = EthernetHeader {
            dst: request.sender_mac,
            src: self.config.mac,
            ethertype: EtherType::Arp,
        };
        let mut frame = eth_header.to_bytes();
        let payload = reply_packet.to_bytes();
        push_bytes(&mut frame, payload.as_slice());
        Self::pad_frame(&mut frame);
        frame
    }

    /// The IPv4 send path: emits the data frame if the destination's MAC
    /// is cached and fresh; otherwise queues the packet and emits an ARP
    /// request. Returns the one frame to put on the wire.
    pub fn send_packet(
        &mut self,
        dst_ip: Ipv4Addr,
        protocol: Ipv4Protocol,
        payload: &[u8],
        now_ms: u64,
    ) -> (frame: Vec<u8>)
        requires
            old(self).wf(),
            payload@.len() <= IPV4_MAX_PAYLOAD,
        ensures
            final(self).wf(),
            final(self).config == old(self).config,
            final(self).arp_table@ == old(self).arp_table@,
            final(self).arp_table.ttl() == old(self).arp_table.ttl(),
            final(self).sockets@ == old(self).sockets@,
            final(self).sockets.key_order() == old(self).sockets.key_order(),
            (frame@, final(self).pending_packets@) == spec_send_packet_outcome(
                old(self).config,
                old(self).arp_table@,
                old(self).arp_table.ttl(),
                old(self).pending_packets@,
                dst_ip,
                protocol,
                payload@,
                now_ms,
            ),
    {
        proof {
            reveal(spec_send_packet_outcome);
        }
        let dst_mac_opt = self.arp_table.lookup(dst_ip, now_ms);
        match dst_mac_opt {
            Some(dst_mac) => self.send_packet_with_mac(dst_mac, dst_ip, protocol, payload),
            None => {
                let packet = PendingPacket {
                    dst_ip,
                    protocol,
                    payload: vstd::slice::slice_to_vec(payload),
                    timestamp: now_ms,
                };
                self.pending_packets.enqueue(dst_ip, packet);
                proof {
                    let m0 = old(self).pending_packets@;
                    if !m0.contains_key(dst_ip) {
                        assert(seq![
                            PendingModel {
                                dst_ip,
                                protocol,
                                payload: payload@,
                                timestamp: now_ms,
                            },
                        ] =~= Seq::<PendingModel>::empty().push(
                            PendingModel { dst_ip, protocol, payload: payload@, timestamp: now_ms },
                        ));
                    }
                }
                self.arp_request_frame(dst_ip)
            },
        }
    }

    /// What the ARP handler does to an inbound ARP payload: validate the
    /// Ethernet/IPv4 parameters, learn the sender's mapping, flush its
    /// pending FIFO, and answer a request for this stack's IP.
    #[verifier::opaque]
    pub open spec fn spec_arp_outcome(
        cfg: StackConfig,
        arp: Map<Ipv4Addr, (MacAddr, u64)>,
        pending: Map<Ipv4Addr, Seq<PendingModel>>,
        payload: Seq<u8>,
        now_ms: u64,
    ) -> (Seq<Seq<u8>>, Map<Ipv4Addr, (MacAddr, u64)>, Map<Ipv4Addr, Seq<PendingModel>>) {
        if !spec_arp_parse_ok(payload) {
            (Seq::empty(), arp, pending)
        } else if !(spec_arp_parse(payload).hardware_type == 1 && spec_arp_parse(
            payload,
        ).protocol_type == 0x0800) {
            (Seq::empty(), arp, pending)
        } else {
            let pkt = spec_arp_parse(payload);
            let flushed = if pending.contains_key(pkt.sender_ip) {
                pending[pkt.sender_ip]
            } else {
                Seq::empty()
            };
            let reply_needed = arp_operation_of(pkt.opcode) == ArpOperation::Request
                && pkt.target_ip == cfg.ip;
            let reply = if reply_needed {
                seq![spec_arp_reply_frame(cfg, pkt)]
            } else {
                Seq::empty()
            };
            (
                spec_flush_frames(cfg, pkt.sender_mac, flushed) + reply,
                arp.insert(pkt.sender_ip, (pkt.sender_mac, now_ms)),
                pending.remove(pkt.sender_ip),
            )
        }
    }

    /// Handles an inbound ARP payload: checks that it speaks Ethernet and
    /// IPv4, learns the sender's mapping, flushes and transmits any
    /// packets waiting for it, and answers a request for this stack's IP
    /// with a unicast reply.
    pub fn handle_arp(&mut self, payload: &[u8], now_ms: u64) -> (frames: Vec<Vec<u8>>)
        requires
            old(self).wf(),
        ensures
            final(self).wf(),
            final(self).config == old(self).config,
            final(self).sockets@ == old(self).sockets@,
            final(self).arp_table.ttl() == old(self).arp_table.ttl(),
            (frames_view(frames@), final(self).arp_table@, final(self).pending_packets@)
                == Self::spec_arp_outcome(
                old(self).config,
                old(self).arp_table@,
                old(self).pending_packets@,
                payload@,
                now_ms,
            ),
    {
        proof {
            reveal(Stack::spec_arp_outcome);
        }
        let ghost cfg = self.config;
        let packet = match ArpPacket::parse(payload) {
            Ok(p) => p,
            Err(_) => {
                let frames: Vec<Vec<u8>> = Vec::new();
                proof {
                    assert(frames_view(frames@) =~= Seq::<Seq<u8>>::empty());
                }
                return frames;
            },
        };
        if !packet.is_ethernet_ipv4() {
            let frames: Vec<Vec<u8>> = Vec::new();
            proof {
                assert(frames_view(frames@) =~= Seq::<Seq<u8>>::empty());
            }
            return frames;
        }
        self.arp_table.insert(packet.sender_ip, packet.sender_mac, now_ms);
        let mut frames: Vec<Vec<u8>> = Vec::new();
        let ghost pending0 = self.pending_packets@;
        let drained = self.pending_packets.drain(packet.sender_ip);
        let ghost flushed = if pending0.contains_key(packet.sender_ip) {
            pending0[packet.sender_ip]
        } else {
            Seq::<PendingModel>::empty()
        };
        match drained {
            Some(pkts) => {
                let ghost models = packets_models(pkts@);
                proof {
                    assert(models == flushed);
                    assert(forall|k: int|
                        0 <= k < models.len() ==> (#[trigger] models[k]).payload.len() <= 65515);
                }
                let mut i: usize = 0;
                while i < pkts.len()
                    invariant
                        i <= pkts@.len(),
                        models == packets_models(pkts@),
                        self.config == cfg,
                        forall|k: int|
                            0 <= k < models.len() ==> (#[trigger] models[k]).payload.len()
                                <= 65515,
                        frames_view(frames@) == spec_flush_frames(
                            cfg,
                            packet.sender_mac,
                            models.subrange(0, i as int),
                        ),
                    decreases pkts@.len() - i,
                {
                    let p = &pkts[i];
                    proof {
                        assert(models[i as int] == pending_model(pkts@[i as int]));
                    }
                    let frame = self.send_packet_with_mac(
                        packet.sender_mac,
                        p.dst_ip,
                        p.protocol,
                        p.payload.as_slice(),
                    );
                    frames.push(frame);
                    proof {
                        assert(models.subrange(0, i + 1 as int) =~= models.subrange(
                            0,
                            i as int,
                        ).push(models[i as int]));
                        assert(frames_view(frames@) =~= spec_flush_frames(
                            cfg,
                            packet.sender_mac,
                            models.subrange(0, i as int),
                        ).push(
                            spec_ipv4_send_frame(
                                cfg,
                                packet.sender_mac,
                                models[i as int].dst_ip,
                                protocol_code(models[i as int].protocol),
                                models[i as int].payload,
                            ),
                        ));
                        assert(spec_flush_frames(
                            cfg,
                            packet.sender_mac,
                            models.subrange(0, i + 1 as int),
                        ) =~= spec_flush_frames(cfg, packet.sender_mac, models.subrange(
                            0,
                            i as int,
                        )).push(
                            spec_ipv4_send_frame(
                                cfg,
                                packet.sender_mac,
                                models[i as int].dst_ip,
                                protocol_code(models[i as int].protocol),
                                models[i as int].payload,
                            ),
                        ));
                    }
                    i = i + 1;
                }
                proof {
                    assert(models.subrange(0, models.len() as int) =~= models);
                }
            },
            None => {
                proof {
                    assert(frames_view(frames@) =~= Seq::<Seq<u8>>::empty());
                    assert(spec_flush_frames(cfg, packet.sender_mac, flushed) =~= Seq::<
                        Seq<u8>,
                    >::empty());
                    assert(self.pending_packets@ =~= pending0.remove(packet.sender_ip));
                }
            },
        }
        proof {
            assert(frames_view(frames@) == spec_flush_frames(cfg, packet.sender_mac, flushed));
        }
        let ghost frames_before_reply = frames_view(frames@);
        match ArpOperation::parse(packet.opcode) {
            ArpOperation::Request => {
                if packet.target_ip == self.config.ip {
                    let reply = self.arp_reply_frame(&packet);
                    frames.push(reply);
                    proof {
                        assert(frames_view(frames@) =~= frames_before_reply + seq![
                            spec_arp_reply_frame(cfg, packet),
                        ]);
                    }
                } else {
                    proof {
                        assert(frames_view(frames@) =~= frames_before_reply + Seq::<
                            Seq<u8>,
                        >::empty());
                    }
                }
            },
            _ => {
                proof {
                    assert(frames_view(frames@) =~= frames_before_reply + Seq::<
                        Seq<u8>,
                    >::empty());
                }
            },
        }
        proof {
            assert(packet == spec_arp_parse(payload@));
            assert forall|ip: Ipv4Addr, i: int|
                #![auto]
                self.pending_packets@.contains_key(ip) && 0 <= i
                    < self.pending_packets@[ip].len() implies self.pending_packets@[ip][i].payload.len()
                <= 65515 by {
                assert(pending0.contains_key(ip));
                assert(self.pending_packets@[ip] == pending0[ip]);
            }
        }
        frames
    }

    /// The bytes of the Echo Reply answering the Echo Request `b`: type 0,
    /// everything else echoed verbatim, checksum recomputed.
    #[verifier::opaque]
    pub open spec fn spec_echo_reply_bytes(b: Seq<u8>) -> Seq<u8> {
        let h = spec_icmp_header_parse(b.subrange(0, 8));
        let time = spec_icmp_payload_parse(b.skip(8)).0;
        let data = spec_icmp_payload_parse(b.skip(8)).1;
        let time_bytes = seq![
            u32_byte(time, 0),
            u32_byte(time, 1),
            u32_byte(time, 2),
            u32_byte(time, 3),
        ];
        let zeroed = spec_icmp_header_bytes(
            ICMPHeader { type_: 0, code: h.code, checksum: 0, id: h.id, seq: h.seq },
        ) + time_bytes + data;
        let c = internet_checksum(zeroed) as u16;
        spec_icmp_header_bytes(
            ICMPHeader { type_: 0, code: h.code, checksum: c, id: h.id, seq: h.seq },
        ) + time_bytes + data
    }

    /// What the ICMP handler does: an Echo Request is answered through the
    /// IPv4 send path; a reply or anything invalid only gets logged.
    #[verifier::opaque]
    pub open spec fn spec_icmp_outcome(
        cfg: StackConfig,
        arp: Map<Ipv4Addr, (MacAddr, u64)>,
        ttl: u64,
        pending: Map<Ipv4Addr, Seq<PendingModel>>,
        src_ip: Ipv4Addr,
        payload: Seq<u8>,
        now_ms: u64,
    ) -> (Seq<Seq<u8>>, Map<Ipv4Addr, Seq<PendingModel>>) {
        if payload.len() < 12 {
            (Seq::empty(), pending)
        } else if !spec_icmp_header_valid(spec_icmp_header_parse(payload.subrange(0, 8))) {
            (Seq::empty(), pending)
        } else if payload[0] == 0x08 {
            let o = spec_send_packet_outcome(
                cfg,
                arp,
                ttl,
                pending,
                src_ip,
                Ipv4Protocol::ICMP,
                Self::spec_echo_reply_bytes(payload),
                now_ms,
            );
            (seq![o.0], o.1)
        } else {
            (Seq::empty(), pending)
        }
    }

    /// Handles an inbound ICMP payload from `src_ip`: answers an Echo
    /// Request with an Echo Reply carrying the same id, sequence number,
    /// timestamp and data; notes an Echo Reply; drops anything else.
    pub fn handle_icmp(&mut self, src_ip: Ipv4Addr, payload: &[u8], now_ms: u64) -> (frames: Vec<
        Vec<u8>,
    >)
        requires
            old(self).wf(),
            payload@.len() <= IPV4_MAX_PAYLOAD,
        ensures
            final(self).wf(),
            final(self).config == old(self).config,
            final(self).arp_table@ == old(self).arp_table@,
            final(self).arp_table.ttl() == old(self).arp_table.ttl(),
            final(self).sockets@ == old(self).sockets@,
            (frames_view(frames@), final(self).pending_packets@) == Self::spec_icmp_outcome(
                old(self).config,
                old(self).arp_table@,
                old(self).arp_table.ttl(),
                old(self).pending_packets@,
                src_ip,
                payload@,
                now_ms,
            ),
    {
        proof {
            reveal(Stack::spec_icmp_outcome);
            reveal(Stack::spec_echo_reply_bytes);
            reveal(spec_send_packet_outcome);
        }
        let packet = match ICMP::parse(payload) {
            Ok(p) => p,
            Err(_) => {
                let frames: Vec<Vec<u8>> = Vec::new();
                proof {
                    assert(frames_view(frames@) =~= Seq::<Seq<u8>>::empty());
                }
                return frames;
            },
        };
        proof {
            assert(packet.header.type_ == payload@[0]);
        }
        match IcmpType::parse(packet.header.type_) {
            IcmpType::Request => {
                let reply_packet = ICMP::new(
                    IcmpType::Reply,
                    packet.header.code,
                    packet.header.id,
                    packet.header.seq,
                    packet.data.time,
                    packet.data.payload.as_slice(),
                );
                let reply_bytes = reply_packet.to_bytes();
                proof {
                    let b = payload@;
                    let h = spec_icmp_header_parse(b.subrange(0, 8));
                    let time = spec_icmp_payload_parse(b.skip(8)).0;
                    let data = spec_icmp_payload_parse(b.skip(8)).1;
                    let time_bytes = seq![
                        u32_byte(time, 0),
                        u32_byte(time, 1),
                        u32_byte(time, 2),
                        u32_byte(time, 3),
                    ];
                    let zeroed_target = spec_icmp_header_bytes(
                        ICMPHeader { type_: 0, code: h.code, checksum: 0, id: h.id, seq: h.seq },
                    ) + time_bytes + data;
                    assert(icmp_type_code(IcmpType::Reply) == 0);
                    assert(spec_icmp_bytes(spec_icmp_zero_checksum(reply_packet))
                        =~= zeroed_target);
                    assert(reply_packet.header.checksum == internet_checksum(zeroed_target));
                    assert(reply_bytes@ =~= Self::spec_echo_reply_bytes(b));
                    assert(reply_bytes@.len() == payload@.len());
                }
                let frame = self.send_packet(
                    src_ip,
                    Ipv4Protocol::ICMP,
                    reply_bytes.as_slice(),
                    now_ms,
                );
                let mut frames: Vec<Vec<u8>> = Vec::new();
                frames.push(frame);
                proof {
                    assert(frames_view(frames@) =~= seq![
                        spec_send_packet_outcome(
                            old(self).config,
                            old(self).arp_table@,
                            old(self).arp_table.ttl(),
                            old(self).pending_packets@,
                            src_ip,
                            Ipv4Protocol::ICMP,
                            Self::spec_echo_reply_bytes(payload@),
                            now_ms,
                        ).0,
                    ]);
                }
                frames
            },
            _ => {
                let frames: Vec<Vec<u8>> = Vec::new();
                proof {
                    assert(frames_view(frames@) =~= Seq::<Seq<u8>>::empty());
                }
                frames
            },
        }
    }

    /// What the UDP handler does: a datagram that parses, passes the
    /// checksum and is addressed to this stack lands in the receive FIFO
    /// of the socket the three-tier lookup names; otherwise nothing.
    #[verifier::opaque]
    pub open spec fn spec_udp_outcome(
        cfg: StackConfig,
        sockets: Map<SocketHandle, SocketModel>,
        src_ip: Ipv4Addr,
        dst_ip: Ipv4Addr,
        payload: Seq<u8>,
    ) -> Map<SocketHandle, SocketModel> {
        if !spec_udp_parse_ok(payload) {
            sockets
        } else {
            let hdr = spec_udp_header_parse(payload);
            let pay = payload.subrange(8, hdr.length as int);
            if !(dst_ip == cfg.ip || dst_ip == ip_broadcast() || ip_is_multicast(dst_ip)) {
                sockets
            } else if !(hdr.checksum == 0 || hdr.checksum == spec_udp_checksum(
                src_ip,
                dst_ip,
                hdr,
                pay,
            )) {
                sockets
            } else {
                match spec_three_tier_lookup(
                    sockets,
                    17,
                    src_ip,
                    hdr.src_port,
                    dst_ip,
                    hdr.dst_port,
                ) {
                    Some(h) => sockets.insert(
                        h,
                        spec_rx_enqueued(sockets[h], (src_ip, hdr.src_port, pay)),
                    ),
                    None => sockets,
                }
            }
        }
    }

    /// Handles an inbound UDP payload: checks it, finds the socket with
    /// the three-tier lookup, and queues the datagram there; without a
    /// match the datagram is dropped.
    pub fn handle_udp(&mut self, src_ip: Ipv4Addr, dst_ip: Ipv4Addr, payload: &[u8])
        requires
            old(self).wf(),
            payload@.len() + 20 <= u32::MAX,
        ensures
            final(self).wf(),
            final(self).config == old(self).config,
            final(self).arp_table@ == old(self).arp_table@,
            final(self).arp_table.ttl() == old(self).arp_table.ttl(),
            final(self).pending_packets@ == old(self).pending_packets@,
            final(self).sockets@ == Self::spec_udp_outcome(
                old(self).config,
                old(self).sockets@,
                src_ip,
                dst_ip,
                payload@,
            ),
    {
        proof {
            reveal(Stack::spec_udp_outcome);
        }
        let packet = match UdpPacket::parse(payload) {
            Ok(p) => p,
            Err(_) => {
                return ;
            },
        };
        if !(dst_ip == self.config.ip || dst_ip.is_broadcast() || dst_ip.is_multicast()) {
            return ;
        }
        match packet.validate(src_ip, dst_ip) {
            Ok(()) => {},
            Err(_) => {
                return ;
            },
        }
        let st = SocketType::Udp;
        let found = self.sockets.lookup(
            &st,
            src_ip,
            packet.header.src_port,
            dst_ip,
            packet.header.dst_port,
        );
        match found {
            Some(handle) => {
                let ghost sockets0 = self.sockets@;
                self.sockets.rx_enqueue_at(
                    handle,
                    src_ip,
                    packet.header.src_port,
                    packet.payload.as_slice(),
                );
                proof {
                    assert(sockets0.contains_key(handle));
                    assert forall|h: SocketHandle, i: int|
                        #![auto]
                        self.sockets@.contains_key(h) && 0 <= i
                            < self.sockets@[h].tx.len() implies self.sockets@[h].tx[i].2.len()
                        <= 65507 by {
                        assert(self.sockets@[h].tx == sockets0[h].tx);
                    }
                }
            },
            None => {},
        }
    }

    /// What the IPv4 handler does: a datagram that parses, validates and
    /// is addressed to this stack is dispatched by protocol number to the
    /// ICMP or UDP handler; TCP and unknown protocols are dropped.
    #[verifier::opaque]
    pub open spec fn spec_ipv4_outcome(
        cfg: StackConfig,
        arp: Map<Ipv4Addr, (MacAddr, u64)>,
        ttl: u64,
        pending: Map<Ipv4Addr, Seq<PendingModel>>,
        sockets: Map<SocketHandle, SocketModel>,
        payload: Seq<u8>,
        now_ms: u64,
    ) -> (Seq<Seq<u8>>, Map<Ipv4Addr, Seq<PendingModel>>, Map<SocketHandle, SocketModel>) {
        if payload.len() <= 20 {
            (Seq::empty(), pending, sockets)
        } else {
            let hdr = spec_ipv4_header_parse(payload.subrange(0, 20));
            if !(spec_ipv4_validate(hdr) matches Ok(())) {
                (Seq::empty(), pending, sockets)
            } else if hdr.dst != cfg.ip {
                (Seq::empty(), pending, sockets)
            } else if payload.len() < hdr.total_len {
                (Seq::empty(), pending, sockets)
            } else if hdr.protocol == 1 {
                let o = Self::spec_icmp_outcome(
                    cfg,
                    arp,
                    ttl,
                    pending,
                    hdr.src,
                    payload.skip(20),
                    now_ms,
                );
                (o.0, o.1, sockets)
            } else if hdr.protocol == 17 {
                (
                    Seq::empty(),
                    pending,
                    Self::spec_udp_outcome(cfg, sockets, hdr.src, hdr.dst, payload.skip(20)),
                )
            } else {
                (Seq::empty(), pending, sockets)
            }
        }
    }

    /// Handles an inbound IPv4 payload: validates the header, filters on
    /// the destination address, and dispatches by protocol.
    #[verifier::rlimit(100)]
    pub fn handle_ipv4(&mut self, payload: &[u8], now_ms: u64) -> (frames: Vec<Vec<u8>>)
        requires
            old(self).wf(),
            payload@.len() <= MAX_FRAME_LEN - 14,
        ensures
            final(self).wf(),
            final(self).config == old(self).config,
            final(self).arp_table@ == old(self).arp_table@,
            final(self).arp_table.ttl() == old(self).arp_table.ttl(),
            (frames_view(frames@), final(self).pending_packets@, final(self).sockets@)
                == Self::spec_ipv4_outcome(
                old(self).config,
                old(self).arp_table@,
                old(self).arp_table.ttl(),
                old(self).pending_packets@,
                old(self).sockets@,
                payload@,
                now_ms,
            ),
    {
        proof {
            reveal(Stack::spec_ipv4_outcome);
        }
        if payload.len() <= 20 {
            let frames: Vec<Vec<u8>> = Vec::new();
            proof {
                assert(frames_view(frames@) =~= Seq::<Seq<u8>>::empty());
            }
            return frames;
        }
        let header = match Ipv4Header::parse(&payload[0..20]) {
            Ok(h) => h,
            Err(_) => {
                let frames: Vec<Vec<u8>> = Vec::new();
                proof {
                    assert(frames_view(frames@) =~= Seq::<Seq<u8>>::empty());
                }
                return frames;
            },
        };
        if header.dst != self.config.ip {
            let frames: Vec<Vec<u8>> = Vec::new();
            proof {
                assert(frames_view(frames@) =~= Seq::<Seq<u8>>::empty());
            }
            return frames;
        }
        if payload.len() < header.total_len as usize {
            let frames: Vec<Vec<u8>> = Vec::new();
            proof {
                assert(frames_view(frames@) =~= Seq::<Seq<u8>>::empty());
            }
            return frames;
        }
        let rest = &payload[20..payload.len()];
        proof {
            assert(rest@ =~= payload@.skip(20));
        }
        let ghost cfg = self.config;
        let ghost arp0 = self.arp_table@;
        let ghost ttl0 = self.arp_table.ttl();
        let ghost pending0 = self.pending_packets@;
        let ghost sockets0 = self.sockets@;
        let ghost oi = Self::spec_ipv4_outcome(
            cfg,
            arp0,
            ttl0,
            pending0,
            sockets0,
            payload@,
            now_ms,
        );
        match header.get_protocol() {
            Ipv4Protocol::ICMP => {
                let frames = self.handle_icmp(header.src, rest, now_ms);
                proof {
                    reveal(Stack::spec_ipv4_outcome);
                    let o = Self::spec_icmp_outcome(
                        cfg,
                        arp0,
                        ttl0,
                        pending0,
                        header.src,
                        rest@,
                        now_ms,
                    );
                    assert((frames_view(frames@), self.pending_packets@) == o);
                    assert(rest@ == payload@.skip(20));
                    assert(oi.0 == o.0 && oi.1 == o.1 && oi.2 == sockets0);
                }
                frames
            },
            Ipv4Protocol::UDP => {
                self.handle_udp(header.src, header.dst, rest);
                let frames: Vec<Vec<u8>> = Vec::new();
                proof {
                    reveal(Stack::spec_ipv4_outcome);
                    assert(frames_view(frames@) =~= Seq::<Seq<u8>>::empty());
                    let so = Self::spec_udp_outcome(
                        cfg,
                        sockets0,
                        header.src,
                        header.dst,
                        rest@,
                    );
                    assert(self.sockets@ == so);
                    assert(rest@ == payload@.skip(20));
                    assert(oi.0 == Seq::<Seq<u8>>::empty() && oi.1 == pending0 && oi.2 == so);
                }
                frames
            },
            _ => {
                let frames: Vec<Vec<u8>> = Vec::new();
                proof {
                    assert(frames_view(frames@) =~= Seq::<Seq<u8>>::empty());
                }
                frames
            },
        }
    }

    /// What one inbound frame does to the whole stack: frames shorter than
    /// an Ethernet header, frames for someone else, IPv6 and unknown
    /// EtherTypes do nothing; ARP and IPv4 frames go to their handlers.
    #[verifier::opaque]
    pub open spec fn spec_receive_outcome(
        cfg: StackConfig,
        arp: Map<Ipv4Addr, (MacAddr, u64)>,
        ttl: u64,
        pending: Map<Ipv4Addr, Seq<PendingModel>>,
        sockets: Map<SocketHandle, SocketModel>,
        frame: Seq<u8>,
        now_ms: u64,
    ) -> (
        Seq<Seq<u8>>,
        Map<Ipv4Addr, (MacAddr, u64)>,
        Map<Ipv4Addr, Seq<PendingModel>>,
        Map<SocketHandle, SocketModel>,
    ) {
        if frame.len() < 14 {
            (Seq::empty(), arp, pending, sockets)
        } else {
            let eth = spec_ethernet_parse(frame);
            if eth.dst != cfg.mac && eth.dst != mac_broadcast() {
                (Seq::empty(), arp, pending, sockets)
            } else if eth.ethertype == EtherType::Arp {
                let o = Self::spec_arp_outcome(cfg, arp, pending, frame.skip(14), now_ms);
                (o.0, o.1, o.2, sockets)
            } else if eth.ethertype == EtherType::Ipv4 {
                let o = Self::spec_ipv4_outcome(
                    cfg,
                    arp,
                    ttl,
                    pending,
                    sockets,
                    frame.skip(14),
                    now_ms,
                );
                (o.0, arp, o.1, o.2)
            } else {
                (Seq::empty(), arp, pending, sockets)
            }
        }
    }

    /// The entry point for inbound bytes: parses the Ethernet header,
    /// keeps only frames addressed to this stack or broadcast, and
    /// dispatches on the EtherType. Returns the frames to transmit.
    pub fn receive(&mut self, packet: &[u8], now_ms: u64) -> (frames: Vec<Vec<u8>>)
        requires
            old(self).wf(),
            packet@.len() <= MAX_FRAME_LEN,
        ensures
            final(self).wf(),
            final(self).config == old(self).config,
            final(self).arp_table.ttl() == old(self).arp_table.ttl(),
            (frames_view(frames@), final(self).arp_table@, final(self).pending_packets@,
                final(self).sockets@) == Self::spec_receive_outcome(
                old(self).config,
                old(self).arp_table@,
                old(self).arp_table.ttl(),
                old(self).pending_packets@,
                old(self).sockets@,
                packet@,
                now_ms,
            ),
    {
        proof {
            reveal(Stack::spec_receive_outcome);
        }
        let eth_header = match EthernetHeader::parse(packet) {
            Ok(h) => h,
            Err(_) => {
                let frames: Vec<Vec<u8>> = Vec::new();
                proof {
                    assert(frames_view(frames@) =~= Seq::<Seq<u8>>::empty());
                }
                return frames;
            },
        };
        let broadcast = MacAddr::broadcast();
        if !(eth_header.dst == self.config.mac) && !(eth_header.dst == broadcast) {
            let frames: Vec<Vec<u8>> = Vec::new();
            proof {
                assert(frames_view(frames@) =~= Seq::<Seq<u8>>::empty());
            }
            return frames;
        }
        let payload = &packet[14..packet.len()];
        proof {
            assert(payload@ =~= packet@.skip(14));
        }
        match eth_header.ethertype {
            EtherType::Arp => self.handle_arp(payload, now_ms),
            EtherType::Ipv4 => self.handle_ipv4(payload, now_ms),
            _ => {
                let frames: Vec<Vec<u8>> = Vec::new();
                proof {
                    assert(frames_view(frames@) =~= Seq::<Seq<u8>>::empty());
                }
                frames
            },
        }
    }

    /// Invokes the pending-queue cleanup: drops every packet that has
    /// waited three seconds or more and every destination left empty.
    pub fn cleanup_pending_packets(&mut self, now_ms: u64)
        requires
            old(self).wf(),
        ensures
            final(self).wf(),
            final(self).config == old(self).config,
            final(self).arp_table@ == old(self).arp_table@,
            final(self).arp_table.ttl() == old(self).arp_table.ttl(),
            final(self).sockets@ == old(self).sockets@,
            forall|ip: Ipv4Addr| #[trigger]
                final(self).pending_packets@.contains_key(ip) <==> (old(self)
                    .pending_packets@.contains_key(ip) && old(self).pending_packets@[ip].filter(
                    |p: PendingModel| pending_fresh(p.timestamp, now_ms),
                ).len() > 0),
            forall|ip: Ipv4Addr|
                final(self).pending_packets@.contains_key(ip) ==> #[trigger] final(self)
                    .pending_packets@[ip] == old(self).pending_packets@[ip].filter(
                    |p: PendingModel| pending_fresh(p.timestamp, now_ms),
                ),
    {
        let ghost pending0 = self.pending_packets@;
        self.pending_packets.cleanup(now_ms);
        proof {
            let pred = |p: PendingModel| pending_fresh(p.timestamp, now_ms);
            assert forall|ip: Ipv4Addr, i: int|
                #![auto]
                self.pending_packets@.contains_key(ip) && 0 <= i
                    < self.pending_packets@[ip].len() implies self.pending_packets@[ip][i].payload.len()
                <= 65515 by {
                assert(self.pending_packets@[ip] == pending0[ip].filter(pred));
                lemma_filter_element_of(pending0[ip], pred, i);
                let j = choose|j: int|
                    0 <= j < pending0[ip].len() && pending0[ip][j] == pending0[ip].filter(pred)[i];
            }
        }
    }

    /// Registers a fresh UDP socket bound to `local_addr:local_port` and
    /// returns its handle: protocol 17, remote side unspecified.
    pub fn bind(&mut self, local_addr: Ipv4Addr, local_port: u16) -> (handle: SocketHandle)
        requires
            old(self).wf(),
        ensures
            final(self).wf(),
            final(self).config == old(self).config,
            final(self).arp_table@ == old(self).arp_table@,
            final(self).arp_table.ttl() == old(self).arp_table.ttl(),
            final(self).pending_packets@ == old(self).pending_packets@,
            handle == (SocketHandle {
                protocol: 17,
                local_addr,
                local_port,
                remote_addr: crate::addr::ip_unspecified(),
                remote_port: 0,
            }),
            final(self).sockets@ == old(self).sockets@.insert(
                handle,
                SocketModel {
                    rx: Seq::empty(),
                    rx_cap: 32,
                    tx: Seq::empty(),
                    tx_cap: 32,
                },
            ),
    {
        let st = SocketType::Udp;
        let handle = SocketHandle::new(&st, local_addr, local_port, Ipv4Addr::unspecified(), 0);
        let socket_state = UdpSocketState::new();
        let ghost model = socket_model(Socket::Udp(socket_state));
        let ghost sockets0 = self.sockets@;
        self.sockets.add(handle, Socket::Udp(socket_state));
        proof {
            assert(model.rx =~= Seq::<(Ipv4Addr, u16, Seq<u8>)>::empty());
            assert(model.tx =~= Seq::<(Ipv4Addr, u16, Seq<u8>)>::empty());
            assert(model == SocketModel {
                rx: Seq::empty(),
                rx_cap: 32,
                tx: Seq::empty(),
                tx_cap: 32,
            });
            assert forall|h: SocketHandle, i: int|
                #![auto]
                self.sockets@.contains_key(h) && 0 <= i
                    < self.sockets@[h].tx.len() implies self.sockets@[h].tx[i].2.len()
                <= 65507 by {
                if h != handle {
                    assert(self.sockets@[h] == sockets0[h]);
                }
            }
        }
        handle
    }

    /// Queues a datagram on the socket's transmit FIFO for the event loop
    /// to send; fails if the socket was closed. A full FIFO drops the
    /// message silently.
    pub fn send_to(
        &mut self,
        handle: SocketHandle,
        payload: &[u8],
        dst_ip: Ipv4Addr,
        dst_port: u16,
    ) -> (r: Result<(), ApiError>)
        requires
            old(self).wf(),
            payload@.len() <= UDP_MAX_PAYLOAD,
        ensures
            final(self).wf(),
            final(self).config == old(self).config,
            final(self).arp_table@ == old(self).arp_table@,
            final(self).arp_table.ttl() == old(self).arp_table.ttl(),
            final(self).pending_packets@ == old(self).pending_packets@,
            old(self).sockets@.contains_key(handle) ==> r == Ok::<(), ApiError>(()) && final(self).sockets@ == old(self).sockets@.insert(
                handle,
                spec_tx_enqueued(old(self).sockets@[handle], (dst_ip, dst_port, payload@)),
            ),
            !old(self).sockets@.contains_key(handle) ==> r == Err::<(), ApiError>(
                ApiError::SocketNotFound,
            ) && final(self).sockets@ == old(self).sockets@,
    {
        let ghost sockets0 = self.sockets@;
        let found = self.sockets.tx_enqueue_at(handle, payload, dst_ip, dst_port);
        if found {
            proof {
                assert forall|h: SocketHandle, i: int|
                    #![auto]
                    self.sockets@.contains_key(h) && 0 <= i
                        < self.sockets@[h].tx.len() implies self.sockets@[h].tx[i].2.len()
                    <= 65507 by {
                    if h != handle {
                        assert(self.sockets@[h] == sockets0[h]);
                    } else {
                        let m0 = sockets0[handle];
                        if m0.tx.len() < m0.tx_cap {
                            if i < m0.tx.len() {
                                assert(self.sockets@[h].tx[i] == m0.tx[i]);
                            } else {
                                assert(self.sockets@[h].tx[i] == (dst_ip, dst_port, payload@));
                            }
                        } else {
                            assert(self.sockets@[h].tx == m0.tx);
                        }
                    }
                }
            }
            Ok(())
        } else {
            Err(ApiError::SocketNotFound)
        }
    }

    /// Takes the oldest received datagram of the socket: the payload and
    /// the peer it came from. Non-blocking: with nothing waiting it fails
    /// with `NoData`; with the socket closed, with `SocketNotFound`.
    pub fn recv_from(&mut self, handle: SocketHandle) -> (r: Result<
        (Vec<u8>, Ipv4Addr, u16),
        ApiError,
    >)
        requires
            old(self).wf(),
        ensures
            final(self).wf(),
            final(self).config == old(self).config,
            final(self).arp_table@ == old(self).arp_table@,
            final(self).arp_table.ttl() == old(self).arp_table.ttl(),
            final(self).pending_packets@ == old(self).pending_packets@,
            !old(self).sockets@.contains_key(handle) ==> r == Err::<
                (Vec<u8>, Ipv4Addr, u16),
                ApiError,
            >(ApiError::SocketNotFound) && final(self).sockets@ == old(self).sockets@,
            old(self).sockets@.contains_key(handle) && old(self).sockets@[handle].rx.len() == 0
                ==> r == Err::<(Vec<u8>, Ipv4Addr, u16), ApiError>(ApiError::NoData) && final(self).sockets@ == old(self).sockets@,
            old(self).sockets@.contains_key(handle) && old(self).sockets@[handle].rx.len() > 0
                ==> (r matches Ok(m) && (m.1, m.2, m.0@) == old(self).sockets@[handle].rx[0]
                && final(self).sockets@ == old(self).sockets@.insert(
                handle,
                SocketModel {
                    rx: old(self).sockets@[handle].rx.drop_first(),
                    ..old(self).sockets@[handle]
                },
            )),
    {
        let ghost sockets0 = self.sockets@;
        match self.sockets.recv_at(handle) {
            None => Err(ApiError::SocketNotFound),
            Some(None) => Err(ApiError::NoData),
            Some(Some(msg)) => {
                proof {
                    assert forall|h: SocketHandle, i: int|
                        #![auto]
                        self.sockets@.contains_key(h) && 0 <= i
                            < self.sockets@[h].tx.len() implies self.sockets@[h].tx[i].2.len()
                        <= 65507 by {
                        assert(self.sockets@[h].tx == sockets0[h].tx);
                    }
                }
                Ok((msg.2, msg.0, msg.1))
            },
        }
    }

    /// The datagram `poll_and_send` builds for one queued message: local
    /// port from the socket's handle, length and pseudo-header checksum
    /// filled in.
    pub open spec fn spec_udp_datagram_bytes(
        src_ip: Ipv4Addr,
        dst_ip: Ipv4Addr,
        src_port: u16,
        dst_port: u16,
        payload: Seq<u8>,
    ) -> Seq<u8> {
        let h = UdpHeader { src_port, dst_port, length: (payload.len() + 8) as u16, checksum: 0 };
        let c = spec_udp_checksum(src_ip, dst_ip, h, payload);
        spec_udp_header_bytes(UdpHeader { checksum: c as u16, ..h }) + payload
    }

    /// What draining one socket's transmit FIFO does, message by message,
    /// oldest first: each message becomes a UDP datagram handed to the
    /// IPv4 send path, whose misses grow the pending queue.
    #[verifier::opaque]
    pub open spec fn spec_drain_tx_outcome(
        cfg: StackConfig,
        arp: Map<Ipv4Addr, (MacAddr, u64)>,
        ttl: u64,
        pending: Map<Ipv4Addr, Seq<PendingModel>>,
        src_port: u16,
        msgs: Seq<(Ipv4Addr, u16, Seq<u8>)>,
        now_ms: u64,
    ) -> (Seq<Seq<u8>>, Map<Ipv4Addr, Seq<PendingModel>>)
        decreases msgs.len(),
    {
        if msgs.len() == 0 {
            (Seq::empty(), pending)
        } else {
            let m = msgs[0];
            let udp_bytes = Self::spec_udp_datagram_bytes(cfg.ip, m.0, src_port, m.1, m.2);
            let step = spec_send_packet_outcome(
                cfg,
                arp,
                ttl,
                pending,
                m.0,
                Ipv4Protocol::UDP,
                udp_bytes,
                now_ms,
            );
            let rest = Self::spec_drain_tx_outcome(
                cfg,
                arp,
                ttl,
                step.1,
                src_port,
                msgs.drop_first(),
                now_ms,
            );
            (seq![step.0] + rest.0, rest.1)
        }
    }

    /// Drains the transmit FIFO of the socket under `handle`: builds one
    /// UDP datagram per queued message, oldest first, and hands each to
    /// the IPv4 send path. Returns the frames to transmit.
    pub fn drain_socket_tx(&mut self, handle: SocketHandle, now_ms: u64) -> (frames: Vec<Vec<u8>>)
        requires
            old(self).wf(),
        ensures
            final(self).wf(),
            final(self).config == old(self).config,
            final(self).arp_table@ == old(self).arp_table@,
            final(self).arp_table.ttl() == old(self).arp_table.ttl(),
            final(self).sockets.key_order() == old(self).sockets.key_order(),
            !old(self).sockets@.contains_key(handle) ==> final(self).sockets@ == old(self).sockets@ && final(self).pending_packets@ == old(self).pending_packets@
                && frames@.len() == 0,
            old(self).sockets@.contains_key(handle) ==> final(self).sockets@ == old(self).sockets@.insert(
                handle,
                SocketModel {
                    tx: Seq::empty(),
                    ..old(self).sockets@[handle]
                },
            ) && (frames_view(frames@), final(self).pending_packets@)
                == Self::spec_drain_tx_outcome(
                old(self).config,
                old(self).arp_table@,
                old(self).arp_table.ttl(),
                old(self).pending_packets@,
                handle.local_port,
                old(self).sockets@[handle].tx,
                now_ms,
            ),
    {
        let ghost cfg = self.config;
        let ghost arp0 = self.arp_table@;
        let ghost ttl0 = self.arp_table.ttl();
        let ghost pending0 = self.pending_packets@;
        let ghost sockets0 = self.sockets@;
        let ghost order0 = self.sockets.key_order();
        let mut frames: Vec<Vec<u8>> = Vec::new();
        let ghost whole_tx = if sockets0.contains_key(handle) {
            sockets0[handle].tx
        } else {
            Seq::<(Ipv4Addr, u16, Seq<u8>)>::empty()
        };
        loop
            invariant
                self.wf(),
                self.config == cfg,
                self.arp_table@ == arp0,
                self.arp_table.ttl() == ttl0,
                self.sockets.key_order() == order0,
                !sockets0.contains_key(handle) ==> self.sockets@ == sockets0
                    && self.pending_packets@ == pending0 && frames@.len() == 0,
                sockets0.contains_key(handle) ==> self.sockets@.contains_key(handle)
                    && self.sockets@ == sockets0.insert(
                    handle,
                    SocketModel { tx: self.sockets@[handle].tx, ..sockets0[handle] },
                ) && Self::spec_drain_tx_outcome(
                    cfg,
                    arp0,
                    ttl0,
                    pending0,
                    handle.local_port,
                    whole_tx,
                    now_ms,
                ) == {
                    let rest = Self::spec_drain_tx_outcome(
                        cfg,
                        arp0,
                        ttl0,
                        self.pending_packets@,
                        handle.local_port,
                        self.sockets@[handle].tx,
                        now_ms,
                    );
                    (frames_view(frames@) + rest.0, rest.1)
                },
            ensures
                sockets0.contains_key(handle) ==> self.sockets@[handle].tx.len() == 0,
                !sockets0.contains_key(handle) ==> self.sockets@ == sockets0
                    && self.pending_packets@ == pending0 && frames@.len() == 0,
            decreases (if self.sockets@.contains_key(handle) {
                self.sockets@[handle].tx.len()
            } else {
                0
            }),
        {
            let ghost pending_iter = self.pending_packets@;
            let ghost tx_iter = if self.sockets@.contains_key(handle) {
                self.sockets@[handle].tx
            } else {
                Seq::<(Ipv4Addr, u16, Seq<u8>)>::empty()
            };
            let polled = self.sockets.poll_transmit_at(handle);
            let msg = match polled {
                None => {
                    break ;
                },
                Some(None) => {
                    break ;
                },
                Some(Some(m)) => m,
            };
            let udp_header = UdpHeader::new(handle.local_port, msg.1, 0);
            let udp_packet = UdpPacket::new(udp_header, msg.2.as_slice(), self.config.ip, msg.0);
            let udp_bytes = udp_packet.to_bytes();
            proof {
                assert(msg_view(msg) == tx_iter[0]);
                assert(msg.2@.len() <= 65507) by {
                    assert(tx_iter[0].2 == msg.2@);
                }
                let hs = UdpHeader {
                    src_port: handle.local_port,
                    dst_port: msg.1,
                    length: (msg.2@.len() + 8) as u16,
                    checksum: 0,
                };
                assert(UdpHeader { checksum: 0, ..udp_packet.header } == hs);
                assert(udp_bytes@ =~= Self::spec_udp_datagram_bytes(
                    cfg.ip,
                    msg.0,
                    handle.local_port,
                    msg.1,
                    msg.2@,
                ));
            }
            let frame = self.send_packet(msg.0, Ipv4Protocol::UDP, udp_bytes.as_slice(), now_ms);
            frames.push(frame);
            proof {
                reveal(Stack::spec_drain_tx_outcome);
                let step = spec_send_packet_outcome(
                    cfg,
                    arp0,
                    ttl0,
                    pending_iter,
                    msg.0,
                    Ipv4Protocol::UDP,
                    Self::spec_udp_datagram_bytes(
                        cfg.ip,
                        msg.0,
                        handle.local_port,
                        msg.1,
                        msg.2@,
                    ),
                    now_ms,
                );
                assert((frame@, self.pending_packets@) == step);
                let o_iter = Self::spec_drain_tx_outcome(
                    cfg,
                    arp0,
                    ttl0,
                    pending_iter,
                    handle.local_port,
                    tx_iter,
                    now_ms,
                );
                let o_next = Self::spec_drain_tx_outcome(
                    cfg,
                    arp0,
                    ttl0,
                    self.pending_packets@,
                    handle.local_port,
                    self.sockets@[handle].tx,
                    now_ms,
                );
                assert(self.sockets@[handle].tx == tx_iter.drop_first());
                assert(o_iter == (seq![step.0] + o_next.0, o_next.1));
                assert(frames_view(frames@) =~= frames_view(frames@.drop_last()).push(frame@));
                assert(frames_view(frames@.drop_last()) + (seq![step.0] + o_next.0)
                    =~= frames_view(frames@) + o_next.0);
            }
        }
        proof {
            if sockets0.contains_key(handle) {
                reveal(Stack::spec_drain_tx_outcome);
                assert(self.sockets@[handle].tx.len() == 0);
                assert(self.sockets@[handle].tx =~= Seq::<(Ipv4Addr, u16, Seq<u8>)>::empty());
                let rest = Self::spec_drain_tx_outcome(
                    cfg,
                    arp0,
                    ttl0,
                    self.pending_packets@,
                    handle.local_port,
                    self.sockets@[handle].tx,
                    now_ms,
                );
                assert(rest.0 == Seq::<Seq<u8>>::empty());
                assert(frames_view(frames@) + rest.0 =~= frames_view(frames@));
                assert(self.sockets@ == sockets0.insert(
                    handle,
                    SocketModel { tx: Seq::empty(), ..sockets0[handle] },
                )) by {
                    assert(self.sockets@ == sockets0.insert(
                        handle,
                        SocketModel { tx: self.sockets@[handle].tx, ..sockets0[handle] },
                    ));
                    assert(SocketModel { tx: self.sockets@[handle].tx, ..sockets0[handle] }
                        == SocketModel { tx: Seq::empty(), ..sockets0[handle] });
                }
            }
        }
        frames
    }

    /// What walking the whole registry does: each socket's transmit FIFO
    /// is drained in registration order, pending-queue misses carrying
    /// over from one socket to the next.
    #[verifier::opaque]
    pub open spec fn spec_poll_outcome(
        cfg: StackConfig,
        arp: Map<Ipv4Addr, (MacAddr, u64)>,
        ttl: u64,
        pending: Map<Ipv4Addr, Seq<PendingModel>>,
        sockets: Map<SocketHandle, SocketModel>,
        order: Seq<SocketHandle>,
        now_ms: u64,
    ) -> (Seq<Seq<u8>>, Map<Ipv4Addr, Seq<PendingModel>>)
        decreases order.len(),
    {
        if order.len() == 0 {
            (Seq::empty(), pending)
        } else {
            let h = order[0];
            let step = if sockets.contains_key(h) {
                Self::spec_drain_tx_outcome(
                    cfg,
                    arp,
                    ttl,
                    pending,
                    h.local_port,
                    sockets[h].tx,
                    now_ms,
                )
            } else {
                (Seq::empty(), pending)
            };
            let rest = Self::spec_poll_outcome(
                cfg,
                arp,
                ttl,
                step.1,
                sockets,
                order.drop_first(),
                now_ms,
            );
            (step.0 + rest.0, rest.1)
        }
    }

    /// Walks every registered socket in registration order and drains its
    /// transmit FIFO through the IPv4 send path. Afterwards every
    /// transmit FIFO is empty; receive FIFOs, capacities and the set of
    /// sockets are untouched.
    pub fn poll_and_send(&mut self, now_ms: u64) -> (frames: Vec<Vec<u8>>)
        requires
            old(self).wf(),
        ensures
            final(self).wf(),
            final(self).config == old(self).config,
            final(self).arp_table@ == old(self).arp_table@,
            final(self).arp_table.ttl() == old(self).arp_table.ttl(),
            final(self).sockets.key_order() == old(self).sockets.key_order(),
            (frames_view(frames@), final(self).pending_packets@) == Self::spec_poll_outcome(
                old(self).config,
                old(self).arp_table@,
                old(self).arp_table.ttl(),
                old(self).pending_packets@,
                old(self).sockets@,
                old(self).sockets.key_order(),
                now_ms,
            ),
            forall|h: SocketHandle|
                final(self).sockets@.contains_key(h) <==> #[trigger] old(self).sockets@.contains_key(h),
            forall|h: SocketHandle|
                #[trigger] final(self).sockets@.contains_key(h) ==> final(self).sockets@[h].tx.len()
                    == 0 && final(self).sockets@[h].rx == old(self).sockets@[h].rx && final(self).sockets@[h].rx_cap == old(self).sockets@[h].rx_cap && final(self).sockets@[h].tx_cap == old(self).sockets@[h].tx_cap,
    {
        let ghost cfg = self.config;
        let ghost arp0 = self.arp_table@;
        let ghost ttl0 = self.arp_table.ttl();
        let ghost pending0 = self.pending_packets@;
        let ghost sockets0 = self.sockets@;
        let ghost order0 = self.sockets.key_order();
        let handles = self.sockets.handles();
        let mut frames: Vec<Vec<u8>> = Vec::new();
        let mut i: usize = 0;
        proof {
            reveal(Stack::spec_poll_outcome);
            assert(order0.skip(0) =~= order0);
        }
        while i < handles.len()
            invariant
                i <= handles@.len(),
                handles@ == order0,
                self.wf(),
                self.config == cfg,
                self.arp_table@ == arp0,
                self.arp_table.ttl() == ttl0,
                self.sockets.key_order() == order0,
                forall|h: SocketHandle| handles@.contains(h) <==> #[trigger] sockets0.contains_key(
                    h,
                ),
                forall|j: int, k: int| 0 <= j < k < order0.len() ==> order0[j] != order0[k],
                forall|h: SocketHandle|
                    self.sockets@.contains_key(h) <==> #[trigger] sockets0.contains_key(h),
                forall|h: SocketHandle|
                    #[trigger] self.sockets@.contains_key(h) ==> self.sockets@[h].rx == sockets0[
                        h].rx && self.sockets@[h].rx_cap == sockets0[h].rx_cap
                        && self.sockets@[h].tx_cap == sockets0[h].tx_cap && (self.sockets@[h].tx
                        == sockets0[h].tx || self.sockets@[h].tx.len() == 0),
                forall|j: int|
                    0 <= j < i ==> self.sockets@[#[trigger] handles@[j]].tx.len() == 0,
                forall|j: int|
                    i <= j < order0.len() ==> self.sockets@.contains_key(#[trigger] order0[j])
                        && self.sockets@[order0[j]].tx == sockets0[order0[j]].tx,
                Self::spec_poll_outcome(cfg, arp0, ttl0, pending0, sockets0, order0, now_ms) == {
                    let rest = Self::spec_poll_outcome(
                        cfg,
                        arp0,
                        ttl0,
                        self.pending_packets@,
                        sockets0,
                        order0.skip(i as int),
                        now_ms,
                    );
                    (frames_view(frames@) + rest.0, rest.1)
                },
            decreases handles@.len() - i,
        {
            let handle = handles[i];
            let ghost sockets_iter = self.sockets@;
            let ghost pending_iter = self.pending_packets@;
            let ghost frames0 = frames@;
            let mut new_frames = self.drain_socket_tx(handle, now_ms);
            let ghost drained = new_frames@;
            frames.append(&mut new_frames);
            proof {
                reveal(Stack::spec_poll_outcome);
                assert(handles@[i as int] == handle);
                assert(handles@.contains(handle)) by {
                    assert((i as int) < handles@.len() && handles@[i as int] == handle);
                }
                assert(sockets0.contains_key(handle));
                assert(sockets_iter.contains_key(handle));
                assert(sockets_iter[handle].tx == sockets0[handle].tx);
                let step = Self::spec_drain_tx_outcome(
                    cfg,
                    arp0,
                    ttl0,
                    pending_iter,
                    handle.local_port,
                    sockets0[handle].tx,
                    now_ms,
                );
                assert((frames_view(drained), self.pending_packets@) == step);
                let tail = order0.skip(i as int);
                assert(tail[0] == handle);
                assert(tail.drop_first() =~= order0.skip(i + 1 as int));
                let rest = Self::spec_poll_outcome(
                    cfg,
                    arp0,
                    ttl0,
                    self.pending_packets@,
                    sockets0,
                    order0.skip(i + 1 as int),
                    now_ms,
                );
                assert(Self::spec_poll_outcome(
                    cfg,
                    arp0,
                    ttl0,
                    pending_iter,
                    sockets0,
                    tail,
                    now_ms,
                ) == (step.0 + rest.0, rest.1));
                assert(frames@ == frames0 + drained);
                assert(frames_view(frames@) =~= frames_view(frames0) + frames_view(drained));
                assert(frames_view(frames0) + (frames_view(drained) + rest.0) =~= frames_view(
                    frames@,
                ) + rest.0);
                assert forall|j: int| 0 <= j < i + 1 implies self.sockets@[
                #[trigger] handles@[j]].tx.len() == 0 by {
                    if j < i {
                        assert(sockets_iter[handles@[j]].tx.len() == 0);
                        if handles@[j] == handle {
                        } else {
                            assert(self.sockets@[handles@[j]] == sockets_iter[handles@[j]]);
                        }
                    } else {
                        assert(handles@[j] == handle);
                    }
                }
                assert forall|j: int|
                    i + 1 <= j < order0.len() implies self.sockets@.contains_key(
                    #[trigger] order0[j],
                ) && self.sockets@[order0[j]].tx == sockets0[order0[j]].tx by {
                    assert(order0[j] != handle);
                    assert(self.sockets@[order0[j]] == sockets_iter[order0[j]]);
                }
            }
            i = i + 1;
        }
        proof {
            reveal(Stack::spec_poll_outcome);
            assert(order0.skip(order0.len() as int) =~= Seq::<SocketHandle>::empty());
            let rest = Self::spec_poll_outcome(
                cfg,
                arp0,
                ttl0,
                self.pending_packets@,
                sockets0,
                order0.skip(order0.len() as int),
                now_ms,
            );
            assert(rest.0 == Seq::<Seq<u8>>::empty());
            assert(frames_view(frames@) + rest.0 =~= frames_view(frames@));
            assert forall|h: SocketHandle| #[trigger]
                self.sockets@.contains_key(h) implies self.sockets@[h].tx.len() == 0 by {
                assert(sockets0.contains_key(h));
                assert(handles@.contains(h));
                let j = choose|j: int| 0 <= j < handles@.len() && handles@[j] == h;
            }
        }
        frames
    }
}

/// The dispatch law: an accepted frame is handled in exactly one way -
/// as ARP, as IPv4, or by being dropped - exactly one of the three
/// conditions holds, and the receive outcome is that one dispatch's
/// outcome.
pub proof fn lemma_receive_single_dispatch(
    cfg: StackConfig,
    arp: Map<Ipv4Addr, (MacAddr, u64)>,
    ttl: u64,
    pending: Map<Ipv4Addr, Seq<PendingModel>>,
    sockets: Map<SocketHandle, SocketModel>,
    frame: Seq<u8>,
    now_ms: u64,
)
    requires
        frame.len() >= 14,
        spec_ethernet_parse(frame).dst == cfg.mac || spec_ethernet_parse(frame).dst
            == mac_broadcast(),
    ensures
        ({
            let t = spec_ethernet_parse(frame).ethertype;
            let is_arp = t == EtherType::Arp;
            let is_ipv4 = t == EtherType::Ipv4;
            let is_drop = t != EtherType::Arp && t != EtherType::Ipv4;
            let o = Stack::spec_receive_outcome(cfg, arp, ttl, pending, sockets, frame, now_ms);
            &&& (is_arp && !is_ipv4 && !is_drop) || (!is_arp && is_ipv4 && !is_drop) || (!is_arp
                && !is_ipv4 && is_drop)
            &&& is_arp ==> ({
                let a = Stack::spec_arp_outcome(cfg, arp, pending, frame.skip(14), now_ms);
                o == (a.0, a.1, a.2, sockets)
            })
            &&& is_ipv4 ==> ({
                let v = Stack::spec_ipv4_outcome(
                    cfg,
                    arp,
                    ttl,
                    pending,
                    sockets,
                    frame.skip(14),
                    now_ms,
                );
                o == (v.0, arp, v.1, v.2)
            })
            &&& is_drop ==> o == (Seq::<Seq<u8>>::empty(), arp, pending, sockets)
        }),
{
    reveal(Stack::spec_receive_outcome);
}

/// The pending-flush law: when an ARP payload from `sender_ip` is
/// observed, every packet waiting for that sender is transmitted exactly
/// once - frame `i` of the handler's output carries waiting packet `i`,
/// to the learned MAC - and the sender's FIFO is removed.
pub proof fn lemma_arp_flush_transmits_each_once(
    cfg: StackConfig,
    arp: Map<Ipv4Addr, (MacAddr, u64)>,
    pending: Map<Ipv4Addr, Seq<PendingModel>>,
    payload: Seq<u8>,
    now_ms: u64,
)
    requires
        spec_arp_parse_ok(payload),
        spec_arp_parse(payload).hardware_type == 1,
        spec_arp_parse(payload).protocol_type == 0x0800,
        pending.contains_key(spec_arp_parse(payload).sender_ip),
    ensures
        ({
            let pkt = spec_arp_parse(payload);
            let flushed = pending[pkt.sender_ip];
            let o = Stack::spec_arp_outcome(cfg, arp, pending, payload, now_ms);
            &&& o.0.len() >= flushed.len()
            &&& forall|i: int|
                0 <= i < flushed.len() ==> o.0[i] == spec_ipv4_send_frame(
                    cfg,
                    pkt.sender_mac,
                    (#[trigger] flushed[i]).dst_ip,
                    protocol_code(flushed[i].protocol),
                    flushed[i].payload,
                )
            &&& !o.2.contains_key(pkt.sender_ip)
        }),
{
    reveal(Stack::spec_arp_outcome);
    let pkt = spec_arp_parse(payload);
    let flushed = pending[pkt.sender_ip];
    let o = Stack::spec_arp_outcome(cfg, arp, pending, payload, now_ms);
    assert(forall|i: int|
        0 <= i < flushed.len() ==> spec_flush_frames(cfg, pkt.sender_mac, flushed)[i]
            == spec_ipv4_send_frame(
            cfg,
            pkt.sender_mac,
            (#[trigger] flushed[i]).dst_ip,
            protocol_code(flushed[i].protocol),
            flushed[i].payload,
        ));
}

/// The pending-timeout law: a destination none of whose waiting packets
/// is still fresh at cleanup time keeps nothing - its whole FIFO is
/// dropped and never transmitted.
pub proof fn lemma_pending_timeout_drops_all(bucket: Seq<PendingModel>, now_ms: u64)
    requires
        forall|i: int|
            0 <= i < bucket.len() ==> !pending_fresh((#[trigger] bucket[i]).timestamp, now_ms),
    ensures
        bucket.filter(|p: PendingModel| pending_fresh(p.timestamp, now_ms)).len() == 0,
{
    let pred = |p: PendingModel| pending_fresh(p.timestamp, now_ms);
    assert(bucket.all(|p: PendingModel| !pred(p))) by {
        assert(forall|i: int| 0 <= i < bucket.len() ==> !pred(#[trigger] bucket[i]));
    }
    bucket.lemma_all_neg_filter_empty(pred);
}

} // verus!
