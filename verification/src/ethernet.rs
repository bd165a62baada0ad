//! The 14-byte Ethernet II header: destination, source, EtherType.

use vstd::prelude::*;
use crate::addr::{MacAddr, spec_mac_at};
use crate::bytes::{be16, u16_hi, u16_lo, read_be16, split_be16, lemma_be16_split,
    lemma_be16_roundtrip};
use crate::error::EthernetParseError;

verus! {

/// Length of the Ethernet header in bytes.
pub const ETHERNET_HEADER_LEN: usize = 14;

#[derive(Clone, Copy, Debug, PartialEq, Eq, Structural)]
pub enum EtherType {
    Ipv4,
    Arp,
    Ipv6,
    Unknown(u16),
}

/// The wire value of an EtherType.
pub open spec fn ethertype_code(t: EtherType) -> u16 {
    match t {
        EtherType::Ipv4 => 0x0800,
        EtherType::Arp => 0x0806,
        EtherType::Ipv6 => 0x86DD,
        EtherType::Unknown(v) => v,
    }
}

/// The EtherType read from a wire value; recognized values never map to
/// `Unknown`.
pub open spec fn ethertype_of(v: u16) -> EtherType {
    if v == 0x0800 {
        EtherType::Ipv4
    } else if v == 0x0806 {
        EtherType::Arp
    } else if v == 0x86DD {
        EtherType::Ipv6
    } else {
        EtherType::Unknown(v)
    }
}

/// An EtherType as parsing produces it: `Unknown` only carries values that
/// no named variant stands for.
pub open spec fn ethertype_canonical(t: EtherType) -> bool {
    match t {
        EtherType::Unknown(v) => v != 0x0800 && v != 0x0806 && v != 0x86DD,
        _ => true,
    }
}

impl EtherType {
    pub fn from_u16(v: u16) -> (r: EtherType)
        ensures
            r == ethertype_of(v),
    {
        if v == 0x0800 {
            EtherType::Ipv4
        } else if v == 0x0806 {
            EtherType::Arp
        } else if v == 0x86DD {
            EtherType::Ipv6
        } else {
            EtherType::Unknown(v)
        }
    }

    pub fn to_u16(&self) -> (r: u16)
        ensures
            r == ethertype_code(*self),
    {
        match self {
            EtherType::Ipv4 => 0x0800,
            EtherType::Arp => 0x0806,
            EtherType::Ipv6 => 0x86DD,
            EtherType::Unknown(v) => *v,
        }
    }
}

#[derive(Clone, Copy, Debug, PartialEq, Eq, Structural)]
pub struct EthernetHeader {
    pub dst: MacAddr,
    pub src: MacAddr,
    pub ethertype: EtherType,
}

/// The wire bytes of an Ethernet header.
pub open spec fn spec_ethernet_bytes(h: EthernetHeader) -> Seq<u8> {
    h.dst@ + h.src@ + seq![u16_hi(ethertype_code(h.ethertype)), u16_lo(ethertype_code(h.ethertype))]
}

/// The header parsed from the first 14 bytes of `b`.
pub open spec fn spec_ethernet_parse(b: Seq<u8>) -> EthernetHeader {
    EthernetHeader {
        dst: spec_mac_at(b, 0),
        src: spec_mac_at(b, 6),
        ethertype: ethertype_of(be16(b[12], b[13])),
    }
}

impl EthernetHeader {
    pub fn new(src: MacAddr, dst: MacAddr, ethertype: EtherType) -> (r: EthernetHeader)
        ensures
            r == (EthernetHeader { dst, src, ethertype }),
    {
        EthernetHeader { src, dst, ethertype }
    }

    /// Reads the header from the front of a frame; frames shorter than 14
    /// bytes are rejected, anything longer is accepted and the rest ignored.
    pub fn parse(data: &[u8]) -> (r: Result<EthernetHeader, EthernetParseError>)
        ensures
            data@.len() < 14 ==> r == Err::<EthernetHeader, EthernetParseError>(
                EthernetParseError::PacketTooShort,
            ),
            data@.len() >= 14 ==> r == Ok::<EthernetHeader, EthernetParseError>(
                spec_ethernet_parse(data@),
            ),
    {
        if data.len() < 14 {
            return Err(EthernetParseError::PacketTooShort);
        }
        let dst = MacAddr::from_slice(data);
        let src = MacAddr {
            b0: data[6],
            b1: data[7],
            b2: data[8],
            b3: data[9],
            b4: data[10],
            b5: data[11],
        };
        let ethertype_val = read_be16(data[12], data[13]);
        let r = EthernetHeader { dst, src, ethertype: EtherType::from_u16(ethertype_val) };
        proof {
            assert(dst@ =~= spec_mac_at(data@, 0)@);
            assert(dst == spec_mac_at(data@, 0));
            assert(src == spec_mac_at(data@, 6));
        }
        Ok(r)
    }

    pub fn to_bytes(&self) -> (r: Vec<u8>)
        ensures
            r@ == spec_ethernet_bytes(*self),
            r@.len() == 14,
    {
        let mut r: Vec<u8> = Vec::new();
        r.push(self.dst.b0);
        r.push(self.dst.b1);
        r.push(self.dst.b2);
        r.push(self.dst.b3);
        r.push(self.dst.b4);
        r.push(self.dst.b5);
        r.push(self.src.b0);
        r.push(self.src.b1);
        r.push(self.src.b2);
        r.push(self.src.b3);
        r.push(self.src.b4);
        r.push(self.src.b5);
        let (hi, lo) = split_be16(self.ethertype.to_u16());
        r.push(hi);
        r.push(lo);
        proof {
            assert(r@ =~= spec_ethernet_bytes(*self));
        }
        r
    }
}

/// Parsing undoes serialization: any header whose EtherType is canonical
/// comes back unchanged from its own wire bytes.
pub proof fn lemma_ethernet_parse_roundtrip(h: EthernetHeader)
    requires
        ethertype_canonical(h.ethertype),
    ensures
        spec_ethernet_parse(spec_ethernet_bytes(h)) == h,
{
    let b = spec_ethernet_bytes(h);
    let code = ethertype_code(h.ethertype);
    lemma_be16_split(u16_hi(code), u16_lo(code));
    assert(spec_mac_at(b, 0) == h.dst);
    assert(spec_mac_at(b, 6) == h.src);
    assert(be16(b[12], b[13]) == code);
    assert(ethertype_of(code) == h.ethertype);
}

/// Serialization undoes parsing: re-serializing the header parsed from any
/// 14-byte string gives those bytes back.
pub proof fn lemma_ethernet_serialize_roundtrip(b: Seq<u8>)
    requires
        b.len() == 14,
    ensures
        spec_ethernet_bytes(spec_ethernet_parse(b)) == b,
{
    let h = spec_ethernet_parse(b);
    assert(ethertype_code(ethertype_of(be16(b[12], b[13]))) == be16(b[12], b[13]));
    lemma_be16_roundtrip(be16(b[12], b[13]));
    assert(spec_ethernet_bytes(h) =~= b);
}

} // verus!
