//! The 28-byte ARP packet for Ethernet/IPv4 (RFC 826).

use vstd::prelude::*;
use crate::addr::{Ipv4Addr, MacAddr, spec_ipv4_at, spec_mac_at};
use crate::bytes::{be16, u16_hi, u16_lo, read_be16, split_be16, lemma_be16_split,
    lemma_be16_roundtrip};
use crate::error::ArpParseError;

verus! {

/// Fixed length of an Ethernet/IPv4 ARP payload in bytes.
pub const ARP_FIXED_LEN: usize = 28;

#[derive(Clone, Copy, Debug, PartialEq, Eq, Structural)]
pub enum ArpOperation {
    Request,
    Reply,
    Unknown,
}

/// The wire opcode of an operation; `Unknown` serializes as 0.
pub open spec fn arp_opcode(op: ArpOperation) -> u16 {
    match op {
        ArpOperation::Request => 1,
        ArpOperation::Reply => 2,
        ArpOperation::Unknown => 0,
    }
}

/// The operation read from a wire opcode.
pub open spec fn arp_operation_of(opcode: u16) -> ArpOperation {
    if opcode == 1 {
        ArpOperation::Request
    } else if opcode == 2 {
        ArpOperation::Reply
    } else {
        ArpOperation::Unknown
    }
}

impl ArpOperation {
    pub fn opcode(self) -> (r: u16)
        ensures
            r == arp_opcode(self),
    {
        match self {
            ArpOperation::Request => 1,
            ArpOperation::Reply => 2,
            ArpOperation::Unknown => 0,
        }
    }

    pub fn parse(opcode: u16) -> (r: ArpOperation)
        ensures
            r == arp_operation_of(opcode),
    {
        if opcode == 1 {
            ArpOperation::Request
        } else if opcode == 2 {
            ArpOperation::Reply
        } else {
            ArpOperation::Unknown
        }
    }
}

/// The sender utility's operation selector for hand-built ARP payloads.
#[derive(Clone, Copy, Debug, PartialEq, Eq, Structural)]
pub enum ArpMode {
    Request,
    Reply,
}

pub fn map_arp_mode(mode: ArpMode) -> (r: ArpOperation)
    ensures
        mode == ArpMode::Request ==> r == ArpOperation::Request,
        mode == ArpMode::Reply ==> r == ArpOperation::Reply,
{
    match mode {
        ArpMode::Request => ArpOperation::Request,
        ArpMode::Reply => ArpOperation::Reply,
    }
}

#[derive(Clone, Copy, Debug, PartialEq, Eq, Structural)]
pub struct ArpPacket {
    pub hardware_type: u16,
    pub protocol_type: u16,
    pub hardware_len: u8,
    pub protocol_len: u8,
    pub opcode: u16,
    pub sender_mac: MacAddr,
    pub sender_ip: Ipv4Addr,
    pub target_mac: MacAddr,
    pub target_ip: Ipv4Addr,
}

/// The 28 wire bytes of an ARP packet.
pub open spec fn spec_arp_bytes(p: ArpPacket) -> Seq<u8> {
    seq![
        u16_hi(p.hardware_type),
        u16_lo(p.hardware_type),
        u16_hi(p.protocol_type),
        u16_lo(p.protocol_type),
        p.hardware_len,
        p.protocol_len,
        u16_hi(p.opcode),
        u16_lo(p.opcode),
    ] + p.sender_mac@ + p.sender_ip@ + p.target_mac@ + p.target_ip@
}

/// The packet parsed from the first 28 bytes of `b`.
pub open spec fn spec_arp_parse(b: Seq<u8>) -> ArpPacket {
    ArpPacket {
        hardware_type: be16(b[0], b[1]),
        protocol_type: be16(b[2], b[3]),
        hardware_len: b[4],
        protocol_len: b[5],
        opcode: be16(b[6], b[7]),
        sender_mac: spec_mac_at(b, 8),
        sender_ip: spec_ipv4_at(b, 14),
        target_mac: spec_mac_at(b, 18),
        target_ip: spec_ipv4_at(b, 24),
    }
}

/// When `parse` accepts a payload: long enough, MAC-sized hardware
/// addresses, IPv4-sized protocol addresses.
pub open spec fn spec_arp_parse_ok(b: Seq<u8>) -> bool {
    b.len() >= 28 && b[4] == 6 && b[5] == 4
}

impl ArpPacket {
    /// Builds an Ethernet/IPv4 ARP packet: hardware type 1, protocol type
    /// 0x0800, address lengths 6 and 4.
    pub fn new(
        op: ArpOperation,
        sender_mac: MacAddr,
        sender_ip: Ipv4Addr,
        target_mac: MacAddr,
        target_ip: Ipv4Addr,
    ) -> (r: ArpPacket)
        ensures
            r == (ArpPacket {
                hardware_type: 1,
                protocol_type: 0x0800,
                hardware_len: 6,
                protocol_len: 4,
                opcode: arp_opcode(op),
                sender_mac,
                sender_ip,
                target_mac,
                target_ip,
            }),
    {
        ArpPacket {
            hardware_type: 1,
            protocol_type: 0x0800,
            hardware_len: 6,
            protocol_len: 4,
            opcode: op.opcode(),
            sender_mac,
            sender_ip,
            target_mac,
            target_ip,
        }
    }

    /// Reads an ARP packet, rejecting short payloads and address lengths
    /// other than 6-byte hardware / 4-byte protocol.
    pub fn parse(payload: &[u8]) -> (r: Result<ArpPacket, ArpParseError>)
        ensures
            payload@.len() < 28 ==> r == Err::<ArpPacket, ArpParseError>(
                ArpParseError::InvalidArpFixedLength,
            ),
            payload@.len() >= 28 && payload@[4] != 6 ==> r == Err::<ArpPacket, ArpParseError>(
                ArpParseError::InvalidArpHardwareLength,
            ),
            payload@.len() >= 28 && payload@[4] == 6 && payload@[5] != 4 ==> r == Err::<
                ArpPacket,
                ArpParseError,
            >(ArpParseError::InvalidArpProtocolLength),
            spec_arp_parse_ok(payload@) ==> r == Ok::<ArpPacket, ArpParseError>(
                spec_arp_parse(payload@),
            ),
    {
        if payload.len() < 28 {
            return Err(ArpParseError::InvalidArpFixedLength);
        }
        let hardware_len = payload[4];
        let protocol_len = payload[5];
        if hardware_len != 6 {
            return Err(ArpParseError::InvalidArpHardwareLength);
        }
        if protocol_len != 4 {
            return Err(ArpParseError::InvalidArpProtocolLength);
        }
        let r = ArpPacket {
            hardware_type: read_be16(payload[0], payload[1]),
            protocol_type: read_be16(payload[2], payload[3]),
            hardware_len,
            protocol_len,
            opcode: read_be16(payload[6], payload[7]),
            sender_mac: MacAddr {
                b0: payload[8],
                b1: payload[9],
                b2: payload[10],
                b3: payload[11],
                b4: payload[12],
                b5: payload[13],
            },
            sender_ip: Ipv4Addr {
                o0: payload[14],
                o1: payload[15],
                o2: payload[16],
                o3: payload[17],
            },
            target_mac: MacAddr {
                b0: payload[18],
                b1: payload[19],
                b2: payload[20],
                b3: payload[21],
                b4: payload[22],
                b5: payload[23],
            },
            target_ip: Ipv4Addr {
                o0: payload[24],
                o1: payload[25],
                o2: payload[26],
                o3: payload[27],
            },
        };
        Ok(r)
    }

    /// True iff the packet announces Ethernet hardware and IPv4 protocol
    /// addresses.
    pub fn is_ethernet_ipv4(&self) -> (r: bool)
        ensures
            r == (self.hardware_type == 1 && self.protocol_type == 0x0800),
    {
        self.hardware_type == 1 && self.protocol_type == 0x0800
    }

    pub fn opcode_label(&self) -> (r: ArpOperation)
        ensures
            r == arp_operation_of(self.opcode),
    {
        ArpOperation::parse(self.opcode)
    }

    pub fn to_bytes(&self) -> (r: Vec<u8>)
        ensures
            r@ == spec_arp_bytes(*self),
            r@.len() == 28,
    {
        let mut r: Vec<u8> = Vec::new();
        let (hw_hi, hw_lo) = split_be16(self.hardware_type);
        r.push(hw_hi);
        r.push(hw_lo);
        let (pt_hi, pt_lo) = split_be16(self.protocol_type);
        r.push(pt_hi);
        r.push(pt_lo);
        r.push(self.hardware_len);
        r.push(self.protocol_len);
        let (op_hi, op_lo) = split_be16(self.opcode);
        r.push(op_hi);
        r.push(op_lo);
        r.push(self.sender_mac.b0);
        r.push(self.sender_mac.b1);
        r.push(self.sender_mac.b2);
        r.push(self.sender_mac.b3);
        r.push(self.sender_mac.b4);
        r.push(self.sender_mac.b5);
        r.push(self.sender_ip.o0);
        r.push(self.sender_ip.o1);
        r.push(self.sender_ip.o2);
        r.push(self.sender_ip.o3);
        r.push(self.target_mac.b0);
        r.push(self.target_mac.b1);
        r.push(self.target_mac.b2);
        r.push(self.target_mac.b3);
        r.push(self.target_mac.b4);
        r.push(self.target_mac.b5);
        r.push(self.target_ip.o0);
        r.push(self.target_ip.o1);
        r.push(self.target_ip.o2);
        r.push(self.target_ip.o3);
        proof {
            assert(r@ =~= spec_arp_bytes(*self));
        }
        r
    }
}

/// Builds the 28-byte ARP payload the sender utility emits; the same bytes
/// `ArpPacket::new(..).to_bytes()` gives.
pub fn build_arp_payload(
    op: ArpOperation,
    sender_mac: MacAddr,
    sender_ip: Ipv4Addr,
    target_mac: MacAddr,
    target_ip: Ipv4Addr,
) -> (r: Vec<u8>)
    ensures
        r@ == spec_arp_bytes(
            ArpPacket {
                hardware_type: 1,
                protocol_type: 0x0800,
                hardware_len: 6,
                protocol_len: 4,
                opcode: arp_opcode(op),
                sender_mac,
                sender_ip,
                target_mac,
                target_ip,
            },
        ),
{
    let packet = ArpPacket::new(op, sender_mac, sender_ip, target_mac, target_ip);
    packet.to_bytes()
}

/// Parsing undoes serialization for Ethernet/IPv4 packets.
pub proof fn lemma_arp_parse_roundtrip(p: ArpPacket)
    requires
        p.hardware_len == 6,
        p.protocol_len == 4,
    ensures
        spec_arp_parse_ok(spec_arp_bytes(p)),
        spec_arp_parse(spec_arp_bytes(p)) == p,
{
    let b = spec_arp_bytes(p);
    lemma_be16_split(u16_hi(p.hardware_type), u16_lo(p.hardware_type));
    lemma_be16_roundtrip(p.hardware_type);
    lemma_be16_roundtrip(p.protocol_type);
    lemma_be16_roundtrip(p.opcode);
    assert(spec_mac_at(b, 8) == p.sender_mac);
    assert(spec_ipv4_at(b, 14) == p.sender_ip);
    assert(spec_mac_at(b, 18) == p.target_mac);
    assert(spec_ipv4_at(b, 24) == p.target_ip);
}

/// Serialization undoes parsing: re-serializing the packet parsed from any
/// 28-byte string gives those bytes back.
pub proof fn lemma_arp_serialize_roundtrip(b: Seq<u8>)
    requires
        b.len() == 28,
    ensures
        spec_arp_bytes(spec_arp_parse(b)) == b,
{
    lemma_be16_split(b[0], b[1]);
    lemma_be16_split(b[2], b[3]);
    lemma_be16_split(b[6], b[7]);
    assert(spec_arp_bytes(spec_arp_parse(b)) =~= b);
}

} // verus!
