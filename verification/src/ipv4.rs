//! The 20-byte IPv4 header without options (RFC 791), with its checksum
//! rules.

use vstd::prelude::*;
use crate::addr::{Ipv4Addr, spec_ipv4_at};
use crate::bytes::{be16, u16_hi, u16_lo, read_be16, split_be16, lemma_be16_split,
    lemma_be16_roundtrip};
use crate::checksum::{internet_checksum, simple_checksum, lemma_checksum_verifies};
use crate::error::Ipv4HeaderParseError;

verus! {

/// Length of an option-free IPv4 header in bytes.
pub const IPV4_HEADER_LEN: usize = 20;

#[derive(Clone, Copy, Debug, PartialEq, Eq, Structural)]
pub enum Ipv4Protocol {
    ICMP,
    TCP,
    UDP,
    Unknown,
}

/// The IANA protocol number of each recognized protocol; `Unknown`
/// serializes as 0.
pub open spec fn protocol_code(p: Ipv4Protocol) -> u8 {
    match p {
        Ipv4Protocol::ICMP => 1,
        Ipv4Protocol::TCP => 6,
        Ipv4Protocol::UDP => 17,
        Ipv4Protocol::Unknown => 0,
    }
}

/// The protocol a wire protocol number names.
pub open spec fn protocol_of(code: u8) -> Ipv4Protocol {
    if code == 1 {
        Ipv4Protocol::ICMP
    } else if code == 6 {
        Ipv4Protocol::TCP
    } else if code == 17 {
        Ipv4Protocol::UDP
    } else {
        Ipv4Protocol::Unknown
    }
}

impl Ipv4Protocol {
    pub fn to_code(&self) -> (r: u8)
        ensures
            r == protocol_code(*self),
    {
        match self {
            Ipv4Protocol::ICMP => 1,
            Ipv4Protocol::TCP => 6,
            Ipv4Protocol::UDP => 17,
            Ipv4Protocol::Unknown => 0,
        }
    }
}

#[derive(Clone, Copy, Debug, PartialEq, Eq, Structural)]
pub struct Ipv4Header {
    /// 4 bits.
    pub version: u8,
    /// 4 bits; header length in 32-bit words.
    pub ihl: u8,
    pub tos: u8,
    pub total_len: u16,
    pub id: u16,
    /// 3 bits: reserved, DF, MF.
    pub flags: u8,
    /// 13 bits, in 8-byte units.
    pub frag_offset: u16,
    pub ttl: u8,
    pub protocol: u8,
    pub checksum: u16,
    pub src: Ipv4Addr,
    pub dst: Ipv4Addr,
}

/// The sub-byte fields fit their wire widths.
pub open spec fn ipv4_fields_wf(h: Ipv4Header) -> bool {
    &&& h.version < 16
    &&& h.ihl < 16
    &&& h.flags < 8
    &&& h.frag_offset < 0x2000
}

/// The 20 wire bytes of an IPv4 header.
pub open spec fn spec_ipv4_header_bytes(h: Ipv4Header) -> Seq<u8> {
    seq![
        (h.version * 16 + h.ihl) as u8,
        h.tos,
        u16_hi(h.total_len),
        u16_lo(h.total_len),
        u16_hi(h.id),
        u16_lo(h.id),
        (h.flags * 32 + h.frag_offset / 256) as u8,
        (h.frag_offset % 256) as u8,
        h.ttl,
        h.protocol,
        u16_hi(h.checksum),
        u16_lo(h.checksum),
    ] + h.src@ + h.dst@
}

/// The header parsed from the first 20 bytes of `b`.
pub open spec fn spec_ipv4_header_parse(b: Seq<u8>) -> Ipv4Header {
    Ipv4Header {
        version: (b[0] / 16) as u8,
        ihl: (b[0] % 16) as u8,
        tos: b[1],
        total_len: be16(b[2], b[3]),
        id: be16(b[4], b[5]),
        flags: (b[6] / 32) as u8,
        frag_offset: ((b[6] % 32) * 256 + b[7]) as u16,
        ttl: b[8],
        protocol: b[9],
        checksum: be16(b[10], b[11]),
        src: spec_ipv4_at(b, 12),
        dst: spec_ipv4_at(b, 16),
    }
}

/// The same header with the checksum field zeroed, as the checksum is
/// computed over it.
pub open spec fn spec_zero_checksum(h: Ipv4Header) -> Ipv4Header {
    Ipv4Header { checksum: 0, ..h }
}

/// The checksum the header ought to carry: the Internet checksum of its
/// bytes with the checksum field zeroed.
pub open spec fn spec_header_checksum(h: Ipv4Header) -> int {
    internet_checksum(spec_ipv4_header_bytes(spec_zero_checksum(h)))
}

/// What `validate` accepts and which error it gives otherwise, in the order
/// the checks run.
pub open spec fn spec_ipv4_validate(h: Ipv4Header) -> Result<(), Ipv4HeaderParseError> {
    if h.checksum != spec_header_checksum(h) {
        Err(Ipv4HeaderParseError::InvalidChecksum)
    } else if h.version != 4 {
        Err(Ipv4HeaderParseError::InvalidVersion)
    } else if h.ihl < 5 || h.ihl > 15 {
        Err(Ipv4HeaderParseError::InvalidHeaderLength)
    } else if h.ttl == 0 {
        Err(Ipv4HeaderParseError::InvalidTimeToLive)
    } else {
        Ok(())
    }
}

impl Ipv4Header {
    /// Builds an outbound header: version 4, no options, no fragmentation,
    /// TTL 64, checksum filled in.
    pub fn new(src: Ipv4Addr, dst: Ipv4Addr, protocol: u8, payload_len: u16, id: u16) -> (r:
        Ipv4Header)
        requires
            payload_len <= 0xFFFF - 20,
        ensures
            r.version == 4,
            r.ihl == 5,
            r.tos == 0,
            r.total_len == payload_len + 20,
            r.id == id,
            r.flags == 0,
            r.frag_offset == 0,
            r.ttl == 64,
            r.protocol == protocol,
            r.src == src,
            r.dst == dst,
            r.checksum == spec_header_checksum(r),
            spec_ipv4_validate(r) == Ok::<(), Ipv4HeaderParseError>(()),
    {
        let mut header = Ipv4Header {
            version: 4,
            ihl: 5,
            tos: 0,
            total_len: payload_len + 20,
            id,
            flags: 0,
            frag_offset: 0,
            ttl: 64,
            protocol,
            checksum: 0,
            src,
            dst,
        };
        let c = header.checksum();
        header.checksum = c;
        proof {
            assert(spec_zero_checksum(header) == Ipv4Header { checksum: 0, ..header });
            assert(spec_ipv4_header_bytes(spec_zero_checksum(header)) =~= spec_ipv4_header_bytes(
                Ipv4Header { checksum: 0, ..header },
            ));
        }
        header
    }

    /// The checksum the header ought to carry, computed over its 20 bytes
    /// with the checksum field zeroed.
    pub fn checksum(&self) -> (r: u16)
        requires
            ipv4_fields_wf(*self),
        ensures
            r == spec_header_checksum(*self),
    {
        let mut zeroed = *self;
        zeroed.checksum = 0;
        let bytes = zeroed.to_bytes();
        simple_checksum(bytes.as_slice())
    }

    pub fn get_protocol(&self) -> (r: Ipv4Protocol)
        ensures
            r == protocol_of(self.protocol),
    {
        if self.protocol == 1 {
            Ipv4Protocol::ICMP
        } else if self.protocol == 6 {
            Ipv4Protocol::TCP
        } else if self.protocol == 17 {
            Ipv4Protocol::UDP
        } else {
            Ipv4Protocol::Unknown
        }
    }

    pub fn to_bytes(&self) -> (r: Vec<u8>)
        requires
            ipv4_fields_wf(*self),
        ensures
            r@ == spec_ipv4_header_bytes(*self),
            r@.len() == 20,
    {
        let mut r: Vec<u8> = Vec::new();
        r.push(self.version * 16 + self.ihl);
        r.push(self.tos);
        let (tl_hi, tl_lo) = split_be16(self.total_len);
        r.push(tl_hi);
        r.push(tl_lo);
        let (id_hi, id_lo) = split_be16(self.id);
        r.push(id_hi);
        r.push(id_lo);
        r.push(self.flags * 32 + (self.frag_offset / 256) as u8);
        r.push((self.frag_offset % 256) as u8);
        r.push(self.ttl);
        r.push(self.protocol);
        let (ck_hi, ck_lo) = split_be16(self.checksum);
        r.push(ck_hi);
        r.push(ck_lo);
        r.push(self.src.o0);
        r.push(self.src.o1);
        r.push(self.src.o2);
        r.push(self.src.o3);
        r.push(self.dst.o0);
        r.push(self.dst.o1);
        r.push(self.dst.o2);
        r.push(self.dst.o3);
        proof {
            assert(r@ =~= spec_ipv4_header_bytes(*self));
        }
        r
    }

    /// Checks checksum, version, header length and TTL, in that order.
    pub fn validate(&self) -> (r: Result<(), Ipv4HeaderParseError>)
        requires
            ipv4_fields_wf(*self),
        ensures
            r == spec_ipv4_validate(*self),
    {
        if self.checksum != self.checksum() {
            Err(Ipv4HeaderParseError::InvalidChecksum)
        } else if self.version != 4 {
            Err(Ipv4HeaderParseError::InvalidVersion)
        } else if self.ihl < 5 || self.ihl > 15 {
            Err(Ipv4HeaderParseError::InvalidHeaderLength)
        } else if self.ttl == 0 {
            Err(Ipv4HeaderParseError::InvalidTimeToLive)
        } else {
            Ok(())
        }
    }

    /// Reads and validates a header from the first 20 bytes of `bytes`.
    pub fn parse(bytes: &[u8]) -> (r: Result<Ipv4Header, Ipv4HeaderParseError>)
        requires
            bytes@.len() >= 20,
        ensures
            spec_ipv4_validate(spec_ipv4_header_parse(bytes@)) == Ok::<(), Ipv4HeaderParseError>(())
                ==> r == Ok::<Ipv4Header, Ipv4HeaderParseError>(spec_ipv4_header_parse(bytes@)),
            r matches Ok(h) ==> h == spec_ipv4_header_parse(bytes@) && spec_ipv4_validate(h)
                == Ok::<(), Ipv4HeaderParseError>(()),
            r matches Err(e) ==> spec_ipv4_validate(spec_ipv4_header_parse(bytes@)) == Err::<
                (),
                Ipv4HeaderParseError,
            >(e),
    {
        let header = Ipv4Header {
            version: bytes[0] / 16,
            ihl: bytes[0] % 16,
            tos: bytes[1],
            total_len: read_be16(bytes[2], bytes[3]),
            id: read_be16(bytes[4], bytes[5]),
            flags: bytes[6] / 32,
            frag_offset: ((bytes[6] % 32) as u16) * 256 + (bytes[7] as u16),
            ttl: bytes[8],
            protocol: bytes[9],
            checksum: read_be16(bytes[10], bytes[11]),
            src: Ipv4Addr { o0: bytes[12], o1: bytes[13], o2: bytes[14], o3: bytes[15] },
            dst: Ipv4Addr { o0: bytes[16], o1: bytes[17], o2: bytes[18], o3: bytes[19] },
        };
        proof {
            assert(header == spec_ipv4_header_parse(bytes@));
        }
        match header.validate() {
            Ok(()) => Ok(header),
            Err(e) => Err(e),
        }
    }
}

/// A freshly built header carries a checksum that verifies to zero over the
/// full 20 bytes: the checksum law for IPv4.
pub proof fn lemma_ipv4_checksum_verifies(h: Ipv4Header)
    requires
        ipv4_fields_wf(h),
        h.checksum == spec_header_checksum(h),
    ensures
        internet_checksum(spec_ipv4_header_bytes(h)) == 0,
{
    let b0 = spec_ipv4_header_bytes(spec_zero_checksum(h));
    let b1 = spec_ipv4_header_bytes(h);
    let c = spec_header_checksum(h);
    assert(b0.len() == 20);
    assert(b1.len() == 20);
    assert(b0[10] == u16_hi(0) && b0[11] == u16_lo(0));
    assert(u16_hi(0) == 0 && u16_lo(0) == 0);
    assert(h.checksum == c);
    assert(0 <= c <= 0xFFFF);
    assert(b1[10] == u16_hi((c as u16)) && b1[11] == u16_lo((c as u16)));
    assert(u16_hi((c as u16)) == c / 256 && u16_lo((c as u16)) == c % 256);
    assert(forall|i: int| 0 <= i < 20 && i != 10 && i != 11 ==> b0[i] == b1[i]);
    lemma_checksum_verifies(b0, b1, 5);
}

/// Parsing undoes serialization for well-formed headers.
pub proof fn lemma_ipv4_header_parse_roundtrip(h: Ipv4Header)
    requires
        ipv4_fields_wf(h),
    ensures
        spec_ipv4_header_parse(spec_ipv4_header_bytes(h)) == h,
{
    let b = spec_ipv4_header_bytes(h);
    lemma_be16_roundtrip(h.total_len);
    lemma_be16_roundtrip(h.id);
    lemma_be16_roundtrip(h.checksum);
    assert(b[0] == h.version * 16 + h.ihl);
    assert((h.version * 16 + h.ihl) / 16 == h.version && (h.version * 16 + h.ihl) % 16 == h.ihl)
        by (nonlinear_arith)
        requires
            h.version < 16 && h.ihl < 16;
    let fo = h.frag_offset as int;
    assert(b[6] == h.flags * 32 + fo / 256 && b[7] == fo % 256);
    assert((h.flags * 32 + fo / 256) / 32 == h.flags && (h.flags * 32 + fo / 256) % 32 == fo / 256)
        by (nonlinear_arith)
        requires
            h.flags < 8 && 0 <= fo < 0x2000;
    assert((fo / 256) * 256 + fo % 256 == fo) by (nonlinear_arith)
        requires
            0 <= fo;
    assert(spec_ipv4_at(b, 12) == h.src);
    assert(spec_ipv4_at(b, 16) == h.dst);
}

/// Serialization undoes parsing: re-serializing the header parsed from any
/// 20-byte string gives those bytes back.
pub proof fn lemma_ipv4_header_serialize_roundtrip(b: Seq<u8>)
    requires
        b.len() == 20,
    ensures
        spec_ipv4_header_bytes(spec_ipv4_header_parse(b)) == b,
{
    let h = spec_ipv4_header_parse(b);
    lemma_be16_split(b[2], b[3]);
    lemma_be16_split(b[4], b[5]);
    lemma_be16_split(b[10], b[11]);
    assert((b[0] % 16) < 16 && (b[0] / 16) < 16);
    assert(h.version * 16 + h.ihl == b[0]) by (nonlinear_arith)
        requires
            h.version == b[0] / 16 && h.ihl == b[0] % 16 && (b[0] as int) < 256;
    let fo = h.frag_offset as int;
    assert(fo == (b[6] % 32) * 256 + b[7]);
    assert(h.flags == b[6] / 32);
    assert(fo / 256 == b[6] % 32 && fo % 256 == b[7]) by (nonlinear_arith)
        requires
            fo == (b[6] % 32) * 256 + b[7] && (b[7] as int) < 256 && 0 <= (b[6] as int);
    assert(h.flags * 32 + fo / 256 == b[6]) by (nonlinear_arith)
        requires
            h.flags == b[6] / 32 && fo / 256 == b[6] % 32 && (b[6] as int) < 256;
    assert(spec_ipv4_header_bytes(h) =~= b);
}

} // verus!
