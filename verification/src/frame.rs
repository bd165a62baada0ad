//! Frame assembly and inspection for the capture utilities: raw Ethernet
//! frames carrying an explicit CRC-32 frame check sequence over the
//! payload.

use vstd::prelude::*;
use vstd::slice::slice_to_vec;
use crate::addr::{MacAddr, spec_mac_at};
use crate::bytes::{be16, u16_hi, u16_lo, be32, u32_le_byte, read_be16, split_be16, read_le32,
    split_le32, push_bytes};
use crate::checksum::{Crc32, crc32_of};
use crate::error::PayloadError;

verus! {

/// Smallest Ethernet payload; shorter payloads are padded up to it.
pub const MIN_PAYLOAD: usize = 46;

/// Largest Ethernet payload.
pub const MAX_PAYLOAD: usize = 1500;

/// Length of the Ethernet header the utilities build by hand.
pub const FRAME_HEADER_LEN: usize = 14;

/// Length of the trailing frame check sequence.
pub const CRC_LEN: usize = 4;

/// A byte string padded with zeros up to `n` bytes.
pub open spec fn pad_to(b: Seq<u8>, n: int) -> Seq<u8> {
    if b.len() >= n {
        b
    } else {
        b + Seq::new((n - b.len()) as nat, |i: int| 0u8)
    }
}

/// Holds a payload to the Ethernet size rules: too large is refused; too
/// small is padded with zeros when `pad` is set and refused otherwise.
pub fn enforce_payload_rules(payload: &mut Vec<u8>, pad: bool) -> (r: Result<(), PayloadError>)
    ensures
        old(payload)@.len() > 1500 ==> r == Err::<(), PayloadError>(PayloadError::TooLarge)
            && final(payload)@ == old(payload)@,
        46 <= old(payload)@.len() <= 1500 ==> r == Ok::<(), PayloadError>(()) && final(payload)@
            == old(payload)@,
        old(payload)@.len() < 46 && pad ==> r == Ok::<(), PayloadError>(()) && final(payload)@
            == pad_to(old(payload)@, 46),
        old(payload)@.len() < 46 && !pad ==> r == Err::<(), PayloadError>(PayloadError::TooSmall)
            && final(payload)@ == old(payload)@,
{
    if payload.len() > MAX_PAYLOAD {
        return Err(PayloadError::TooLarge);
    }
    if payload.len() < MIN_PAYLOAD {
        if pad {
            let ghost base = payload@;
            while payload.len() < MIN_PAYLOAD
                invariant
                    base.len() <= payload@.len(),
                    payload@.len() <= 46 || payload@.len() == base.len(),
                    payload@.subrange(0, base.len() as int) == base,
                    forall|i: int| base.len() <= i < payload@.len() ==> payload@[i] == 0u8,
                decreases 46 - payload@.len(),
            {
                payload.push(0u8);
                proof {
                    assert(payload@.subrange(0, base.len() as int) =~= base);
                }
            }
            proof {
                assert(payload@ =~= pad_to(base, 46));
            }
        } else {
            return Err(PayloadError::TooSmall);
        }
    }
    Ok(())
}

/// The wire bytes of a hand-built frame: destination, source, EtherType,
/// payload, and the payload's CRC-32 in little-endian order.
pub open spec fn spec_tool_frame(
    dest_mac: MacAddr,
    src_mac: MacAddr,
    ethertype: u16,
    payload: Seq<u8>,
) -> Seq<u8> {
    let crc = crc32_of(payload);
    dest_mac@ + src_mac@ + seq![u16_hi(ethertype), u16_lo(ethertype)] + payload + seq![
        u32_le_byte(crc, 0),
        u32_le_byte(crc, 1),
        u32_le_byte(crc, 2),
        u32_le_byte(crc, 3),
    ]
}

/// Assembles a frame around `payload` with its CRC-32 appended, as the
/// sender utility puts it on the wire.
pub fn assemble_frame(
    dest_mac: &MacAddr,
    src_mac: &MacAddr,
    ethertype: u16,
    payload: &Vec<u8>,
    crc: &Crc32,
) -> (frame: Vec<u8>)
    requires
        crc.wf(),
    ensures
        frame@ == spec_tool_frame(*dest_mac, *src_mac, ethertype, payload@),
{
    let checksum = crc.checksum(payload.as_slice());
    let mut frame: Vec<u8> = Vec::new();
    let dest_bytes = dest_mac.as_bytes();
    push_bytes(&mut frame, &dest_bytes);
    let src_bytes = src_mac.as_bytes();
    push_bytes(&mut frame, &src_bytes);
    let (et_hi, et_lo) = split_be16(ethertype);
    frame.push(et_hi);
    frame.push(et_lo);
    push_bytes(&mut frame, payload.as_slice());
    let (c0, c1, c2, c3) = split_le32(checksum);
    frame.push(c0);
    frame.push(c1);
    frame.push(c2);
    frame.push(c3);
    proof {
        assert(frame@ =~= spec_tool_frame(*dest_mac, *src_mac, ethertype, payload@));
    }
    frame
}

/// What the capture utility found in one frame.
#[derive(Debug)]
pub enum FrameVerdict {
    /// Too short to hold a header and a frame check sequence.
    Malformed,
    /// The destination MAC is not on the accept list.
    NotAccepted,
    /// The payload between header and FCS breaks the Ethernet size rules.
    BadPayloadLength,
    /// A frame worth showing, with everything the utility prints.
    Accepted {
        dest: MacAddr,
        src: MacAddr,
        ethertype: u16,
        payload: Vec<u8>,
        frame_crc: u32,
        crc_ok: bool,
        pad_hint: u8,
    },
}

/// Is `mac` one of the accepted destinations?
pub open spec fn spec_mac_accepted(accepted: Seq<MacAddr>, mac: MacAddr) -> bool {
    accepted.contains(mac)
}

/// The capture utility's per-frame filter and field extraction: length
/// checks, destination allow-list, CRC-32 verification over the payload.
pub fn inspect_frame(data: &[u8], accepted: &Vec<MacAddr>, crc: &Crc32) -> (r: FrameVerdict)
    requires
        crc.wf(),
    ensures
        data@.len() < 18 ==> r is Malformed,
        data@.len() >= 18 && accepted@.len() > 0 && !spec_mac_accepted(
            accepted@,
            spec_mac_at(data@, 0),
        ) ==> r is NotAccepted,
        data@.len() >= 18 && (accepted@.len() == 0 || spec_mac_accepted(
            accepted@,
            spec_mac_at(data@, 0),
        )) && !(46 <= data@.len() - 18 <= 1500) ==> r is BadPayloadLength,
        data@.len() >= 18 && (accepted@.len() == 0 || spec_mac_accepted(
            accepted@,
            spec_mac_at(data@, 0),
        )) && 46 <= data@.len() - 18 <= 1500 ==> (r matches FrameVerdict::Accepted {
            dest,
            src,
            ethertype,
            payload,
            frame_crc,
            crc_ok,
            pad_hint,
        } && dest == spec_mac_at(data@, 0) && src == spec_mac_at(data@, 6) && ethertype == be16(
            data@[12],
            data@[13],
        ) && payload@ == data@.subrange(14, data@.len() - 4) && frame_crc == be32(
            data@[data@.len() - 1],
            data@[data@.len() - 2],
            data@[data@.len() - 3],
            data@[data@.len() - 4],
        ) && crc_ok == (crc32_of(payload@) == frame_crc) && pad_hint == data@[data@.len() - 5]),
{
    if data.len() < FRAME_HEADER_LEN + CRC_LEN {
        return FrameVerdict::Malformed;
    }
    let dest = MacAddr::from_slice(data);
    proof {
        assert(dest == spec_mac_at(data@, 0));
    }
    if accepted.len() > 0 {
        let mut found = false;
        let mut i: usize = 0;
        while i < accepted.len()
            invariant
                i <= accepted@.len(),
                found == exists|j: int| 0 <= j < i && accepted@[j] == dest,
            decreases accepted@.len() - i,
        {
            if accepted[i] == dest {
                proof {
                    assert(accepted@[i as int] == dest);
                }
                found = true;
            }
            i = i + 1;
        }
        proof {
            if found {
                let j = choose|j: int| 0 <= j < accepted@.len() && accepted@[j] == dest;
                assert(accepted@.contains(dest));
            } else {
                assert(!accepted@.contains(dest)) by {
                    if accepted@.contains(dest) {
                        let j = choose|j: int|
                            0 <= j < accepted@.len() && accepted@[j] == dest;
                    }
                }
            }
        }
        if !found {
            return FrameVerdict::NotAccepted;
        }
    }
    let src = MacAddr {
        b0: data[6],
        b1: data[7],
        b2: data[8],
        b3: data[9],
        b4: data[10],
        b5: data[11],
    };
    proof {
        assert(src == spec_mac_at(data@, 6));
    }
    let ethertype = read_be16(data[12], data[13]);
    let crc_range_start = data.len() - CRC_LEN;
    let payload = slice_to_vec(&data[FRAME_HEADER_LEN..crc_range_start]);
    let frame_crc = read_le32(
        data[crc_range_start],
        data[crc_range_start + 1],
        data[crc_range_start + 2],
        data[crc_range_start + 3],
    );
    if payload.len() < MIN_PAYLOAD || payload.len() > MAX_PAYLOAD {
        return FrameVerdict::BadPayloadLength;
    }
    let computed_crc = crc.checksum(payload.as_slice());
    let crc_ok = computed_crc == frame_crc;
    let pad_hint = payload[payload.len() - 1];
    proof {
        assert(payload@ == data@.subrange(14, data@.len() - 4));
        assert(payload@[payload@.len() - 1] == data@[data@.len() - 5]);
    }
    FrameVerdict::Accepted { dest, src, ethertype, payload, frame_crc, crc_ok, pad_hint }
}

} // verus!
