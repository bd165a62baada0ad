//! ICMP Echo messages (RFC 792): an 8-byte header and a payload whose first
//! four bytes carry a millisecond timestamp for round-trip measurement.

use vstd::prelude::*;
use vstd::slice::slice_to_vec;
use crate::bytes::{be16, u16_hi, u16_lo, be32, u32_byte, read_be16, split_be16, read_be32,
    split_be32, lemma_be16_split, lemma_be16_roundtrip, lemma_be32_split, lemma_be32_roundtrip};
use crate::checksum::{internet_checksum, simple_checksum, lemma_checksum_verifies};
use crate::error::IcmpParseError;

verus! {

/// Length of the ICMP header in bytes.
pub const ICMP_HEADER_LEN: usize = 8;

/// Whole size in bytes of the payload (timestamp included) that the echo
/// utilities send.
pub const ICMP_PAYLOAD_SIZE: usize = 1024;

/// The echo payload size must be 32-byte aligned and hold at least the
/// timestamp; the sender utilities rely on this.
pub proof fn lemma_icmp_payload_size_aligned()
    ensures
        ICMP_PAYLOAD_SIZE % 32 == 0,
        ICMP_PAYLOAD_SIZE >= 32,
{
}

#[derive(Clone, Copy, Debug, PartialEq, Eq, Structural)]
pub enum IcmpType {
    Request,
    Reply,
    Unknown,
}

/// The wire type value: Echo Request 8, Echo Reply 0; `Unknown` stands for
/// every other value and serializes as 1.
pub open spec fn icmp_type_code(t: IcmpType) -> u8 {
    match t {
        IcmpType::Request => 0x8,
        IcmpType::Reply => 0x0,
        IcmpType::Unknown => 0x1,
    }
}

pub open spec fn icmp_type_of(v: u8) -> IcmpType {
    if v == 0x8 {
        IcmpType::Request
    } else if v == 0x0 {
        IcmpType::Reply
    } else {
        IcmpType::Unknown
    }
}

impl IcmpType {
    pub fn type_code(self) -> (r: u8)
        ensures
            r == icmp_type_code(self),
    {
        match self {
            IcmpType::Request => 0x8,
            IcmpType::Reply => 0x0,
            IcmpType::Unknown => 0x1,
        }
    }

    pub fn parse(type_: u8) -> (r: IcmpType)
        ensures
            r == icmp_type_of(type_),
    {
        if type_ == 0x8 {
            IcmpType::Request
        } else if type_ == 0x0 {
            IcmpType::Reply
        } else {
            IcmpType::Unknown
        }
    }
}

#[derive(Clone, Copy, Debug, PartialEq, Eq, Structural)]
pub struct ICMPHeader {
    pub type_: u8,
    pub code: u8,
    pub checksum: u16,
    pub id: u16,
    pub seq: u16,
}

/// The 8 wire bytes of an ICMP header.
pub open spec fn spec_icmp_header_bytes(h: ICMPHeader) -> Seq<u8> {
    seq![
        h.type_,
        h.code,
        u16_hi(h.checksum),
        u16_lo(h.checksum),
        u16_hi(h.id),
        u16_lo(h.id),
        u16_hi(h.seq),
        u16_lo(h.seq),
    ]
}

pub open spec fn spec_icmp_header_parse(b: Seq<u8>) -> ICMPHeader {
    ICMPHeader {
        type_: b[0],
        code: b[1],
        checksum: be16(b[2], b[3]),
        id: be16(b[4], b[5]),
        seq: be16(b[6], b[7]),
    }
}

/// What header validation accepts: an Echo type and code zero.
pub open spec fn spec_icmp_header_valid(h: ICMPHeader) -> bool {
    (h.type_ == 0x00 || h.type_ == 0x08) && h.code == 0x00
}

impl ICMPHeader {
    pub fn new(type_: IcmpType, code: u8, id: u16, seq: u16) -> (r: ICMPHeader)
        ensures
            r == (ICMPHeader { type_: icmp_type_code(type_), code, checksum: 0, id, seq }),
    {
        ICMPHeader { type_: type_.type_code(), code, checksum: 0, id, seq }
    }

    pub fn set_checksum(&mut self, checksum: u16)
        ensures
            *final(self) == (ICMPHeader { checksum, ..*old(self) }),
    {
        self.checksum = checksum;
    }

    pub fn to_bytes(&self) -> (r: Vec<u8>)
        ensures
            r@ == spec_icmp_header_bytes(*self),
            r@.len() == 8,
    {
        let mut r: Vec<u8> = Vec::new();
        r.push(self.type_);
        r.push(self.code);
        let (ck_hi, ck_lo) = split_be16(self.checksum);
        r.push(ck_hi);
        r.push(ck_lo);
        let (id_hi, id_lo) = split_be16(self.id);
        r.push(id_hi);
        r.push(id_lo);
        let (sq_hi, sq_lo) = split_be16(self.seq);
        r.push(sq_hi);
        r.push(sq_lo);
        proof {
            assert(r@ =~= spec_icmp_header_bytes(*self));
        }
        r
    }

    pub fn validate(&self) -> (r: Result<(), IcmpParseError>)
        ensures
            r == if spec_icmp_header_valid(*self) {
                Ok::<(), IcmpParseError>(())
            } else {
                Err::<(), IcmpParseError>(IcmpParseError::InvalidIcmpHeader)
            },
    {
        if !(self.type_ == 0x00 || self.type_ == 0x08) {
            return Err(IcmpParseError::InvalidIcmpHeader);
        }
        if self.code != 0x00 {
            return Err(IcmpParseError::InvalidIcmpHeader);
        }
        Ok(())
    }

    /// Reads a header from exactly 8 bytes; field values are not judged
    /// here, `validate` does that.
    pub fn parse(value: &[u8]) -> (r: Result<ICMPHeader, IcmpParseError>)
        ensures
            value@.len() != 8 ==> r == Err::<ICMPHeader, IcmpParseError>(
                IcmpParseError::IcmpHeaderLengthNotMatch,
            ),
            value@.len() == 8 ==> r == Ok::<ICMPHeader, IcmpParseError>(
                spec_icmp_header_parse(value@),
            ),
    {
        if value.len() != 8 {
            return Err(IcmpParseError::IcmpHeaderLengthNotMatch);
        }
        Ok(
            ICMPHeader {
                type_: value[0],
                code: value[1],
                checksum: read_be16(value[2], value[3]),
                id: read_be16(value[4], value[5]),
                seq: read_be16(value[6], value[7]),
            },
        )
    }
}

#[derive(Clone, Debug)]
pub struct ICMPPayload {
    /// Send time in milliseconds, as the standard ping tools embed it.
    pub time: u32,
    pub payload: Vec<u8>,
}

/// The wire bytes of an ICMP payload: the big-endian timestamp, then the
/// data.
pub open spec fn spec_icmp_payload_bytes(p: ICMPPayload) -> Seq<u8> {
    seq![u32_byte(p.time, 0), u32_byte(p.time, 1), u32_byte(p.time, 2), u32_byte(p.time, 3)]
        + p.payload@
}

pub open spec fn spec_icmp_payload_parse(b: Seq<u8>) -> (u32, Seq<u8>) {
    (be32(b[0], b[1], b[2], b[3]), b.skip(4))
}

impl ICMPPayload {
    pub fn new(time: u32, payload: &[u8]) -> (r: ICMPPayload)
        ensures
            r.time == time,
            r.payload@ == payload@,
    {
        ICMPPayload { time, payload: slice_to_vec(payload) }
    }

    pub fn to_bytes(&self) -> (r: Vec<u8>)
        ensures
            r@ == spec_icmp_payload_bytes(*self),
    {
        let mut r: Vec<u8> = Vec::new();
        let (t0, t1, t2, t3) = split_be32(self.time);
        r.push(t0);
        r.push(t1);
        r.push(t2);
        r.push(t3);
        let mut i: usize = 0;
        while i < self.payload.len()
            invariant
                i <= self.payload@.len(),
                r@ == seq![
                    u32_byte(self.time, 0),
                    u32_byte(self.time, 1),
                    u32_byte(self.time, 2),
                    u32_byte(self.time, 3),
                ] + self.payload@.subrange(0, i as int),
            decreases self.payload@.len() - i,
        {
            r.push(self.payload[i]);
            proof {
                assert(self.payload@.subrange(0, i + 1 as int) =~= self.payload@.subrange(
                    0,
                    i as int,
                ).push(self.payload@[i as int]));
            }
            i = i + 1;
        }
        proof {
            assert(self.payload@.subrange(0, self.payload@.len() as int) =~= self.payload@);
            assert(r@ =~= spec_icmp_payload_bytes(*self));
        }
        r
    }

    /// The kernel does not judge the embedded time; upper layers may.
    pub fn validate(&self) -> (r: Result<(), IcmpParseError>)
        ensures
            r == Ok::<(), IcmpParseError>(()),
    {
        Ok(())
    }

    /// Reads a payload from at least 4 bytes: the timestamp, then the rest.
    pub fn parse(value: &[u8]) -> (r: Result<ICMPPayload, IcmpParseError>)
        ensures
            value@.len() < 4 ==> r == Err::<ICMPPayload, IcmpParseError>(
                IcmpParseError::IcmpPayloadLengthNotMatch,
            ),
            value@.len() >= 4 ==> (r matches Ok(p) && p.time == spec_icmp_payload_parse(value@).0
                && p.payload@ == spec_icmp_payload_parse(value@).1),
    {
        if value.len() < 4 {
            return Err(IcmpParseError::IcmpPayloadLengthNotMatch);
        }
        let time = read_be32(value[0], value[1], value[2], value[3]);
        let rest = slice_to_vec(&value[4..value.len()]);
        proof {
            assert(value@.subrange(4, value@.len() as int) =~= value@.skip(4));
        }
        Ok(ICMPPayload { time, payload: rest })
    }
}

#[derive(Clone, Debug)]
pub struct ICMP {
    pub header: ICMPHeader,
    pub data: ICMPPayload,
}

/// The wire bytes of a whole ICMP message.
pub open spec fn spec_icmp_bytes(m: ICMP) -> Seq<u8> {
    spec_icmp_header_bytes(m.header) + spec_icmp_payload_bytes(m.data)
}

/// The message `ICMP::new` builds before its checksum is filled in.
pub open spec fn spec_icmp_zero_checksum(m: ICMP) -> ICMP {
    ICMP { header: ICMPHeader { checksum: 0, ..m.header }, data: m.data }
}

/// The checksum an ICMP message ought to carry: over header and payload
/// with the checksum field zeroed.
pub open spec fn spec_icmp_checksum(m: ICMP) -> int {
    internet_checksum(spec_icmp_bytes(spec_icmp_zero_checksum(m)))
}

impl ICMP {
    /// Builds a message and fills in its checksum over the 8-byte header
    /// and the whole payload.
    pub fn new(type_: IcmpType, code: u8, id: u16, seq: u16, time: u32, payload: &[u8]) -> (r: ICMP)
        requires
            payload@.len() + 12 <= u32::MAX,
        ensures
            r.header.type_ == icmp_type_code(type_),
            r.header.code == code,
            r.header.id == id,
            r.header.seq == seq,
            r.data.time == time,
            r.data.payload@ == payload@,
            r.header.checksum == spec_icmp_checksum(r),
            internet_checksum(spec_icmp_bytes(r)) == 0,
    {
        let mut header = ICMPHeader::new(type_, code, id, seq);
        let data = ICMPPayload::new(time, payload);
        let header_raw = header.to_bytes();
        let payload_raw = data.to_bytes();
        let mut raw_cont: Vec<u8> = header_raw;
        let mut i: usize = 0;
        while i < payload_raw.len()
            invariant
                i <= payload_raw@.len(),
                raw_cont@ == spec_icmp_header_bytes(header) + payload_raw@.subrange(0, i as int),
            decreases payload_raw@.len() - i,
        {
            raw_cont.push(payload_raw[i]);
            proof {
                assert(payload_raw@.subrange(0, i + 1 as int) =~= payload_raw@.subrange(
                    0,
                    i as int,
                ).push(payload_raw@[i as int]));
            }
            i = i + 1;
        }
        proof {
            assert(payload_raw@.subrange(0, payload_raw@.len() as int) =~= payload_raw@);
        }
        let c = simple_checksum(raw_cont.as_slice());
        header.set_checksum(c);
        let r = ICMP { header, data };
        proof {
            assert(raw_cont@ =~= spec_icmp_bytes(spec_icmp_zero_checksum(r)));
            let b0 = spec_icmp_bytes(spec_icmp_zero_checksum(r));
            let b1 = spec_icmp_bytes(r);
            assert(b0[2] == u16_hi(0) && b0[3] == u16_lo(0));
            assert(u16_hi(0) == 0 && u16_lo(0) == 0);
            assert(b1[2] == u16_hi((c as u16)) && b1[3] == u16_lo((c as u16)));
            assert(b1[2] == spec_icmp_checksum(r) / 256 && b1[3] == spec_icmp_checksum(r) % 256);
            assert(forall|i: int| 0 <= i < b0.len() && i != 2 && i != 3 ==> b0[i] == b1[i]);
            lemma_checksum_verifies(b0, b1, 1);
        }
        r
    }

    /// Reads and validates a whole message: 8-byte header plus at least the
    /// 4-byte timestamp.
    pub fn parse(value: &[u8]) -> (r: Result<ICMP, IcmpParseError>)
        ensures
            value@.len() < 12 ==> r == Err::<ICMP, IcmpParseError>(IcmpParseError::IcmpLengthErr),
            value@.len() >= 12 && !spec_icmp_header_valid(
                spec_icmp_header_parse(value@.subrange(0, 8)),
            ) ==> r == Err::<ICMP, IcmpParseError>(IcmpParseError::InvalidIcmpHeader),
            value@.len() >= 12 && spec_icmp_header_valid(
                spec_icmp_header_parse(value@.subrange(0, 8)),
            ) ==> (r matches Ok(m) && m.header == spec_icmp_header_parse(value@.subrange(0, 8))
                && m.data.time == spec_icmp_payload_parse(value@.skip(8)).0 && m.data.payload@
                == spec_icmp_payload_parse(value@.skip(8)).1),
    {
        if value.len() < 8 + 4 {
            return Err(IcmpParseError::IcmpLengthErr);
        }
        let head = match ICMPHeader::parse(&value[0..8]) {
            Ok(h) => h,
            Err(e) => {
                return Err(e);
            },
        };
        let payload = match ICMPPayload::parse(&value[8..value.len()]) {
            Ok(p) => p,
            Err(e) => {
                return Err(e);
            },
        };
        proof {
            assert(value@.subrange(8, value@.len() as int) =~= value@.skip(8));
        }
        let tmp = ICMP { header: head, data: payload };
        match tmp.validate() {
            Ok(()) => Ok(tmp),
            Err(e) => Err(e),
        }
    }

    pub fn to_bytes(&self) -> (r: Vec<u8>)
        ensures
            r@ == spec_icmp_bytes(*self),
    {
        let mut bytes = self.header.to_bytes();
        let mut data_bytes = self.data.to_bytes();
        bytes.append(&mut data_bytes);
        proof {
            assert(bytes@ =~= spec_icmp_bytes(*self));
        }
        bytes
    }

    pub fn validate(&self) -> (r: Result<(), IcmpParseError>)
        ensures
            r == if spec_icmp_header_valid(self.header) {
                Ok::<(), IcmpParseError>(())
            } else {
                Err::<(), IcmpParseError>(IcmpParseError::InvalidIcmpHeader)
            },
    {
        match self.header.validate() {
            Ok(()) => self.data.validate(),
            Err(e) => Err(e),
        }
    }

    /// Round-trip time in milliseconds against a received reply's embedded
    /// timestamp, saturating at zero.
    pub fn rtt_ms(&self, now_ms: u32) -> (r: u32)
        ensures
            now_ms >= self.data.time ==> r == now_ms - self.data.time,
            now_ms < self.data.time ==> r == 0,
    {
        if now_ms >= self.data.time {
            now_ms - self.data.time
        } else {
            0
        }
    }

    /// The patterned filler data the echo utility sends: byte `i` holds
    /// `i % 256`.
    pub open spec fn spec_pattern_payload(n: int) -> Seq<u8> {
        Seq::new(n as nat, |i: int| (i % 256) as u8)
    }

    /// Builds the standard outbound Echo Request the receive utility's
    /// sender emits: the given id, sequence number and send time over a
    /// patterned payload of `ICMP_PAYLOAD_SIZE` bytes in all.
    pub fn send(id: u16, seq: u16, time_ms: u32) -> (r: Vec<u8>)
        ensures
            exists|m: ICMP|
                r@ == spec_icmp_bytes(m) && m.header.type_ == 0x8 && m.header.code == 0
                    && m.header.id == id && m.header.seq == seq && m.data.time == time_ms
                    && m.data.payload@ == Self::spec_pattern_payload(ICMP_PAYLOAD_SIZE as int - 4)
                    && internet_checksum(r@) == 0,
    {
        let size: usize = ICMP_PAYLOAD_SIZE - 4;
        let mut payload: Vec<u8> = Vec::new();
        let mut i: usize = 0;
        while i < size
            invariant
                i <= size,
                size == ICMP_PAYLOAD_SIZE - 4,
                payload@.len() == i,
                forall|j: int| 0 <= j < i ==> payload@[j] == (j % 256) as u8,
            decreases size - i,
        {
            payload.push((i % 256) as u8);
            i = i + 1;
        }
        proof {
            assert(payload@ =~= Self::spec_pattern_payload(ICMP_PAYLOAD_SIZE as int - 4));
        }
        let m = ICMP::new(IcmpType::Request, 0, id, seq, time_ms, payload.as_slice());
        let r = m.to_bytes();
        proof {
            assert(r@ == spec_icmp_bytes(m) && m.header.type_ == 0x8 && m.header.code == 0
                && m.header.id == id && m.header.seq == seq && m.data.time == time_ms
                && m.data.payload@ == Self::spec_pattern_payload(ICMP_PAYLOAD_SIZE as int - 4)
                && internet_checksum(r@) == 0);
        }
        r
    }

    /// Reads a received Echo message; the same checks `parse` makes.
    pub fn recv(value: &[u8]) -> (r: Result<ICMP, IcmpParseError>)
        ensures
            value@.len() < 12 ==> r == Err::<ICMP, IcmpParseError>(IcmpParseError::IcmpLengthErr),
            value@.len() >= 12 && !spec_icmp_header_valid(
                spec_icmp_header_parse(value@.subrange(0, 8)),
            ) ==> r == Err::<ICMP, IcmpParseError>(IcmpParseError::InvalidIcmpHeader),
            value@.len() >= 12 && spec_icmp_header_valid(
                spec_icmp_header_parse(value@.subrange(0, 8)),
            ) ==> (r matches Ok(m) && m.header == spec_icmp_header_parse(value@.subrange(0, 8))
                && m.data.time == spec_icmp_payload_parse(value@.skip(8)).0 && m.data.payload@
                == spec_icmp_payload_parse(value@.skip(8)).1),
    {
        ICMP::parse(value)
    }
}

/// Parsing undoes serialization for messages with a valid Echo header.
pub proof fn lemma_icmp_parse_roundtrip(m: ICMP)
    requires
        spec_icmp_header_valid(m.header),
    ensures
        ({
            let b = spec_icmp_bytes(m);
            &&& b.len() >= 12
            &&& spec_icmp_header_parse(b.subrange(0, 8)) == m.header
            &&& spec_icmp_payload_parse(b.skip(8)).0 == m.data.time
            &&& spec_icmp_payload_parse(b.skip(8)).1 == m.data.payload@
        }),
{
    let b = spec_icmp_bytes(m);
    let hb = spec_icmp_header_bytes(m.header);
    let pb = spec_icmp_payload_bytes(m.data);
    assert(b.subrange(0, 8) =~= hb);
    lemma_be16_roundtrip(m.header.checksum);
    lemma_be16_roundtrip(m.header.id);
    lemma_be16_roundtrip(m.header.seq);
    assert(spec_icmp_header_parse(hb) == m.header);
    assert(b.skip(8) =~= pb);
    lemma_be32_roundtrip(m.data.time);
    assert(spec_icmp_payload_parse(pb).0 == m.data.time);
    assert(spec_icmp_payload_parse(pb).1 =~= m.data.payload@);
}

/// Serialization undoes parsing: the parsed header and payload of any byte
/// string of 12 or more bytes re-serialize to those bytes.
pub proof fn lemma_icmp_serialize_roundtrip(b: Seq<u8>)
    requires
        b.len() >= 12,
    ensures
        spec_icmp_header_bytes(spec_icmp_header_parse(b.subrange(0, 8))) + seq![
            b.skip(8)[0],
            b.skip(8)[1],
            b.skip(8)[2],
            b.skip(8)[3],
        ] + spec_icmp_payload_parse(b.skip(8)).1 == b,
{
    let hb = b.subrange(0, 8);
    lemma_be16_split(hb[2], hb[3]);
    lemma_be16_split(hb[4], hb[5]);
    lemma_be16_split(hb[6], hb[7]);
    assert(spec_icmp_header_bytes(spec_icmp_header_parse(hb)) =~= hb);
    let pb = b.skip(8);
    lemma_be32_split(pb[0], pb[1], pb[2], pb[3]);
    assert(spec_icmp_header_bytes(spec_icmp_header_parse(b.subrange(0, 8))) + seq![
        pb[0],
        pb[1],
        pb[2],
        pb[3],
    ] + spec_icmp_payload_parse(pb).1 =~= b);
}

} // verus!
