//! UDP datagrams (RFC 768) with the IPv4 pseudo-header checksum.

use vstd::prelude::*;
use vstd::slice::slice_to_vec;
use crate::addr::Ipv4Addr;
use crate::bytes::{be16, u16_hi, u16_lo, read_be16, split_be16, lemma_be16_split,
    lemma_be16_roundtrip};
use crate::checksum::{internet_checksum, simple_checksum};
use crate::error::UdpParseError;

verus! {

/// Length of the UDP header in bytes.
pub const UDP_HEADER_LEN: usize = 8;

#[derive(Clone, Copy, Debug, PartialEq, Eq, Structural)]
pub struct UdpHeader {
    pub src_port: u16,
    pub dst_port: u16,
    /// Header plus payload, in bytes.
    pub length: u16,
    pub checksum: u16,
}

/// The 8 wire bytes of a UDP header.
pub open spec fn spec_udp_header_bytes(h: UdpHeader) -> Seq<u8> {
    seq![
        u16_hi(h.src_port),
        u16_lo(h.src_port),
        u16_hi(h.dst_port),
        u16_lo(h.dst_port),
        u16_hi(h.length),
        u16_lo(h.length),
        u16_hi(h.checksum),
        u16_lo(h.checksum),
    ]
}

pub open spec fn spec_udp_header_parse(b: Seq<u8>) -> UdpHeader {
    UdpHeader {
        src_port: be16(b[0], b[1]),
        dst_port: be16(b[2], b[3]),
        length: be16(b[4], b[5]),
        checksum: be16(b[6], b[7]),
    }
}

impl UdpHeader {
    pub fn new(src_port: u16, dst_port: u16, checksum: u16) -> (r: UdpHeader)
        ensures
            r == (UdpHeader { src_port, dst_port, length: 0, checksum }),
    {
        UdpHeader { src_port, dst_port, length: 0, checksum }
    }

    pub fn to_bytes(&self) -> (r: Vec<u8>)
        ensures
            r@ == spec_udp_header_bytes(*self),
            r@.len() == 8,
    {
        let mut r: Vec<u8> = Vec::new();
        let (sp_hi, sp_lo) = split_be16(self.src_port);
        r.push(sp_hi);
        r.push(sp_lo);
        let (dp_hi, dp_lo) = split_be16(self.dst_port);
        r.push(dp_hi);
        r.push(dp_lo);
        let (ln_hi, ln_lo) = split_be16(self.length);
        r.push(ln_hi);
        r.push(ln_lo);
        let (ck_hi, ck_lo) = split_be16(self.checksum);
        r.push(ck_hi);
        r.push(ck_lo);
        proof {
            assert(r@ =~= spec_udp_header_bytes(*self));
        }
        r
    }
}

/// The 12-byte pseudo-header prefixed for checksum computation only: source
/// and destination IP, a zero byte, protocol 17, and the UDP length.
pub open spec fn spec_pseudo_header(src_ip: Ipv4Addr, dst_ip: Ipv4Addr, udp_len: u16) -> Seq<u8> {
    src_ip@ + dst_ip@ + seq![0u8, 17u8, u16_hi(udp_len), u16_lo(udp_len)]
}

/// The checksum a transmitted datagram carries: the Internet checksum over
/// pseudo-header, header with a zero checksum field, and payload; a
/// computed zero is sent as 0xFFFF.
pub open spec fn spec_udp_checksum(
    src_ip: Ipv4Addr,
    dst_ip: Ipv4Addr,
    h: UdpHeader,
    payload: Seq<u8>,
) -> int {
    let zeroed = UdpHeader { checksum: 0, ..h };
    let c = internet_checksum(
        spec_pseudo_header(src_ip, dst_ip, h.length) + spec_udp_header_bytes(zeroed) + payload,
    );
    if c == 0 {
        0xFFFF
    } else {
        c
    }
}

#[derive(Clone, Debug)]
pub struct UdpPacket {
    pub header: UdpHeader,
    pub payload: Vec<u8>,
}

/// The wire bytes of a whole datagram.
pub open spec fn spec_udp_bytes(p: UdpPacket) -> Seq<u8> {
    spec_udp_header_bytes(p.header) + p.payload@
}

/// When `parse` accepts `b` (and how much of it is payload): at least a
/// header, and a length field covering the header and lying within `b`;
/// bytes past the length field are Ethernet padding and are dropped.
pub open spec fn spec_udp_parse_ok(b: Seq<u8>) -> bool {
    b.len() >= 8 && 8 <= be16(b[4], b[5]) <= b.len()
}

impl UdpPacket {
    /// Builds an outbound datagram for the given endpoints: fills in the
    /// length and the pseudo-header checksum.
    pub fn new(header: UdpHeader, payload: &[u8], src_ip: Ipv4Addr, dst_ip: Ipv4Addr) -> (r:
        UdpPacket)
        requires
            payload@.len() <= 0xFFFF - 8,
        ensures
            r.header.src_port == header.src_port,
            r.header.dst_port == header.dst_port,
            r.header.length == payload@.len() + 8,
            r.payload@ == payload@,
            r.header.checksum == spec_udp_checksum(src_ip, dst_ip, r.header, payload@),
    {
        let length: u16 = (payload.len() as u16) + 8;
        let mut h = UdpHeader {
            src_port: header.src_port,
            dst_port: header.dst_port,
            length,
            checksum: 0,
        };
        let mut region: Vec<u8> = Vec::new();
        region.push(src_ip.o0);
        region.push(src_ip.o1);
        region.push(src_ip.o2);
        region.push(src_ip.o3);
        region.push(dst_ip.o0);
        region.push(dst_ip.o1);
        region.push(dst_ip.o2);
        region.push(dst_ip.o3);
        region.push(0u8);
        region.push(17u8);
        let (ln_hi, ln_lo) = split_be16(length);
        region.push(ln_hi);
        region.push(ln_lo);
        proof {
            assert(region@ =~= spec_pseudo_header(src_ip, dst_ip, length));
        }
        let mut header_bytes = h.to_bytes();
        region.append(&mut header_bytes);
        let mut i: usize = 0;
        while i < payload.len()
            invariant
                i <= payload@.len(),
                region@ == spec_pseudo_header(src_ip, dst_ip, length) + spec_udp_header_bytes(h)
                    + payload@.subrange(0, i as int),
            decreases payload@.len() - i,
        {
            region.push(payload[i]);
            proof {
                assert(payload@.subrange(0, i + 1 as int) =~= payload@.subrange(0, i as int).push(
                    payload@[i as int],
                ));
            }
            i = i + 1;
        }
        proof {
            assert(payload@.subrange(0, payload@.len() as int) =~= payload@);
        }
        let c = simple_checksum(region.as_slice());
        let checksum: u16 = if c == 0 {
            0xFFFF
        } else {
            c
        };
        let r = UdpPacket {
            header: UdpHeader { src_port: h.src_port, dst_port: h.dst_port, length, checksum },
            payload: slice_to_vec(payload),
        };
        proof {
            let zeroed = UdpHeader { checksum: 0, ..r.header };
            assert(zeroed == h);
        }
        r
    }

    /// Reads a datagram: the length field decides how much payload belongs
    /// to it, so Ethernet padding past it is dropped.
    pub fn parse(data: &[u8]) -> (r: Result<UdpPacket, UdpParseError>)
        ensures
            !spec_udp_parse_ok(data@) ==> r == Err::<UdpPacket, UdpParseError>(
                UdpParseError::InvalidUdpLen,
            ),
            spec_udp_parse_ok(data@) ==> (r matches Ok(p) && p.header == spec_udp_header_parse(
                data@,
            ) && p.payload@ == data@.subrange(8, be16(data@[4], data@[5]) as int)),
    {
        if data.len() < 8 {
            return Err(UdpParseError::InvalidUdpLen);
        }
        let header = UdpHeader {
            src_port: read_be16(data[0], data[1]),
            dst_port: read_be16(data[2], data[3]),
            length: read_be16(data[4], data[5]),
            checksum: read_be16(data[6], data[7]),
        };
        if header.length < 8 || (header.length as usize) > data.len() {
            return Err(UdpParseError::InvalidUdpLen);
        }
        let payload = slice_to_vec(&data[8..(header.length as usize)]);
        Ok(UdpPacket { header, payload })
    }

    pub fn to_bytes(&self) -> (r: Vec<u8>)
        ensures
            r@ == spec_udp_bytes(*self),
    {
        let mut bytes = self.header.to_bytes();
        let mut payload = slice_to_vec(self.payload.as_slice());
        bytes.append(&mut payload);
        proof {
            assert(bytes@ =~= spec_udp_bytes(*self));
        }
        bytes
    }

    /// Checks the pseudo-header checksum against the given endpoints; a
    /// zero field means the sender did not compute one.
    pub fn validate(&self, src_ip: Ipv4Addr, dst_ip: Ipv4Addr) -> (r: Result<(), UdpParseError>)
        requires
            self.payload@.len() + 20 <= u32::MAX,
        ensures
            r == if self.header.checksum == 0 || self.header.checksum == spec_udp_checksum(
                src_ip,
                dst_ip,
                self.header,
                self.payload@,
            ) {
                Ok::<(), UdpParseError>(())
            } else {
                Err::<(), UdpParseError>(UdpParseError::InvalidChecksum)
            },
    {
        if self.header.checksum == 0 {
            return Ok(());
        }
        let zeroed = UdpHeader { checksum: 0, ..self.header };
        let mut region: Vec<u8> = Vec::new();
        region.push(src_ip.o0);
        region.push(src_ip.o1);
        region.push(src_ip.o2);
        region.push(src_ip.o3);
        region.push(dst_ip.o0);
        region.push(dst_ip.o1);
        region.push(dst_ip.o2);
        region.push(dst_ip.o3);
        region.push(0u8);
        region.push(17u8);
        let (ln_hi, ln_lo) = split_be16(self.header.length);
        region.push(ln_hi);
        region.push(ln_lo);
        proof {
            assert(region@ =~= spec_pseudo_header(src_ip, dst_ip, self.header.length));
        }
        let mut header_bytes = zeroed.to_bytes();
        region.append(&mut header_bytes);
        let mut i: usize = 0;
        while i < self.payload.len()
            invariant
                i <= self.payload@.len(),
                region@ == spec_pseudo_header(src_ip, dst_ip, self.header.length)
                    + spec_udp_header_bytes(
                    UdpHeader { checksum: 0, ..self.header },
                ) + self.payload@.subrange(0, i as int),
            decreases self.payload@.len() - i,
        {
            region.push(self.payload[i]);
            proof {
                assert(self.payload@.subrange(0, i + 1 as int) =~= self.payload@.subrange(
                    0,
                    i as int,
                ).push(self.payload@[i as int]));
            }
            i = i + 1;
        }
        proof {
            assert(self.payload@.subrange(0, self.payload@.len() as int) =~= self.payload@);
        }
        let c = simple_checksum(region.as_slice());
        let expected: u16 = if c == 0 {
            0xFFFF
        } else {
            c
        };
        if self.header.checksum == expected {
            Ok(())
        } else {
            Err(UdpParseError::InvalidChecksum)
        }
    }
}

/// Parsing undoes serialization for datagrams whose length field counts the
/// header and the whole payload.
pub proof fn lemma_udp_parse_roundtrip(p: UdpPacket)
    requires
        p.header.length == p.payload@.len() + 8,
    ensures
        spec_udp_parse_ok(spec_udp_bytes(p)),
        spec_udp_header_parse(spec_udp_bytes(p)) == p.header,
        spec_udp_bytes(p).subrange(
            8,
            be16(spec_udp_bytes(p)[4], spec_udp_bytes(p)[5]) as int,
        ) == p.payload@,
{
    let b = spec_udp_bytes(p);
    lemma_be16_roundtrip(p.header.src_port);
    lemma_be16_roundtrip(p.header.dst_port);
    lemma_be16_roundtrip(p.header.length);
    lemma_be16_roundtrip(p.header.checksum);
    assert(be16(b[4], b[5]) == p.header.length);
    assert(b.subrange(8, p.header.length as int) =~= p.payload@);
}

/// Serialization undoes parsing: a datagram whose length field is exactly
/// the byte count re-serializes to its own bytes.
pub proof fn lemma_udp_serialize_roundtrip(b: Seq<u8>)
    requires
        b.len() >= 8,
        be16(b[4], b[5]) == b.len(),
    ensures
        spec_udp_header_bytes(spec_udp_header_parse(b)) + b.subrange(8, be16(b[4], b[5]) as int)
            == b,
{
    lemma_be16_split(b[0], b[1]);
    lemma_be16_split(b[2], b[3]);
    lemma_be16_split(b[4], b[5]);
    lemma_be16_split(b[6], b[7]);
    assert(spec_udp_header_bytes(spec_udp_header_parse(b)) + b.subrange(
        8,
        be16(b[4], b[5]) as int,
    ) =~= b);
}

} // verus!
