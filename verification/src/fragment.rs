//! The sender utility's IPv4 fragmentation: cuts a datagram into
//! fragments, each behind a 60-byte IPv4 header with a full options area.

use vstd::prelude::*;
use crate::addr::Ipv4Addr;
use crate::bytes::{u16_hi, u16_lo, split_be16, push_bytes};
use crate::checksum::{internet_checksum, simple_checksum};
use crate::error::FragmentError;
use crate::stack::frames_view;

verus! {

/// The header length the sender utility uses: 15 words, options zeroed.
pub const TOOL_IPV4_HEADER_LEN: usize = 60;

/// Largest fragment that fits an Ethernet payload beside that header.
pub const MAX_FRAGMENT_SIZE: usize = 1440;

/// Largest datagram the utility sends: a 16-bit total length minus header.
pub const MAX_DATAGRAM_DATA: usize = 65475;

/// The sender utility's IPv4 parameters.
#[derive(Clone, Copy, Debug, PartialEq, Eq, Structural)]
pub struct Ipv4Config {
    pub src_ip: Ipv4Addr,
    pub dst_ip: Ipv4Addr,
    pub ttl: u8,
    pub tos: u8,
    pub protocol: u8,
    pub fragment_size: usize,
    pub identification: u16,
    pub dont_fragment: bool,
}

/// The flags-and-offset field: offset in 8-byte units, MF at bit 13, DF at
/// bit 14.
pub open spec fn spec_flags_offset(offset: int, more: bool, dont_fragment: bool) -> int {
    offset / 8 + (if more {
        0x2000int
    } else {
        0int
    }) + (if dont_fragment {
        0x4000int
    } else {
        0int
    })
}

/// The 60 header bytes with the given checksum field: 20 ordinary bytes
/// followed by a zeroed 40-byte options area.
pub open spec fn spec_tool_header(
    cfg: Ipv4Config,
    more: bool,
    offset: int,
    frag_len: int,
    checksum: u16,
) -> Seq<u8> {
    let total_len = (60 + frag_len) as u16;
    let fo = spec_flags_offset(offset, more, cfg.dont_fragment) as u16;
    seq![
        0x4Fu8,
        cfg.tos,
        u16_hi(total_len),
        u16_lo(total_len),
        u16_hi(cfg.identification),
        u16_lo(cfg.identification),
        u16_hi(fo),
        u16_lo(fo),
        cfg.ttl,
        cfg.protocol,
        u16_hi(checksum),
        u16_lo(checksum),
    ] + cfg.src_ip@ + cfg.dst_ip@ + Seq::new(40, |i: int| 0u8)
}

/// One assembled fragment: the 60-byte header, checksum filled in, then
/// the fragment data.
pub open spec fn spec_fragment_bytes(
    fragment: Seq<u8>,
    more: bool,
    offset: int,
    cfg: Ipv4Config,
) -> Seq<u8> {
    let c = internet_checksum(
        spec_tool_header(cfg, more, offset, fragment.len() as int, 0),
    ) as u16;
    spec_tool_header(cfg, more, offset, fragment.len() as int, c) + fragment
}

/// The fragments covering `data` from `offset` on, in order.
pub open spec fn spec_fragments(data: Seq<u8>, cfg: Ipv4Config, offset: int) -> Seq<Seq<u8>>
    decreases data.len() - offset,
        when 0 <= offset && cfg.fragment_size > 0
{
    if offset >= data.len() {
        Seq::empty()
    } else {
        let chunk_len = if data.len() - offset < cfg.fragment_size {
            data.len() - offset
        } else {
            cfg.fragment_size as int
        };
        let more = offset + chunk_len < data.len();
        seq![spec_fragment_bytes(data.subrange(offset, offset + chunk_len), more, offset, cfg)]
            + spec_fragments(data, cfg, offset + chunk_len)
    }
}

/// Builds the 60 header bytes with the given checksum field.
fn build_tool_header(cfg: &Ipv4Config, more: bool, offset: usize, frag_len: usize, checksum: u16)
    -> (r: Vec<u8>)
    requires
        offset % 8 == 0,
        offset <= MAX_DATAGRAM_DATA,
        frag_len <= MAX_FRAGMENT_SIZE,
    ensures
        r@ == spec_tool_header(*cfg, more, offset as int, frag_len as int, checksum),
        r@.len() == 60,
{
    let total_len: u16 = (60 + frag_len) as u16;
    let mut fo: u16 = (offset / 8) as u16;
    if more {
        fo = fo + 0x2000;
    }
    if cfg.dont_fragment {
        fo = fo + 0x4000;
    }
    let mut r: Vec<u8> = Vec::new();
    r.push(0x4Fu8);
    r.push(cfg.tos);
    let (tl_hi, tl_lo) = split_be16(total_len);
    r.push(tl_hi);
    r.push(tl_lo);
    let (id_hi, id_lo) = split_be16(cfg.identification);
    r.push(id_hi);
    r.push(id_lo);
    let (fo_hi, fo_lo) = split_be16(fo);
    r.push(fo_hi);
    r.push(fo_lo);
    r.push(cfg.ttl);
    r.push(cfg.protocol);
    let (ck_hi, ck_lo) = split_be16(checksum);
    r.push(ck_hi);
    r.push(ck_lo);
    r.push(cfg.src_ip.o0);
    r.push(cfg.src_ip.o1);
    r.push(cfg.src_ip.o2);
    r.push(cfg.src_ip.o3);
    r.push(cfg.dst_ip.o0);
    r.push(cfg.dst_ip.o1);
    r.push(cfg.dst_ip.o2);
    r.push(cfg.dst_ip.o3);
    let ghost target = spec_tool_header(*cfg, more, offset as int, frag_len as int, checksum);
    proof {
        assert(r@ =~= target.subrange(0, 20));
    }
    let mut i: usize = 0;
    while i < 40
        invariant
            i <= 40,
            r@ == target.subrange(0, 20) + Seq::new(i as nat, |k: int| 0u8),
        decreases 40 - i,
    {
        r.push(0u8);
        proof {
            assert(target.subrange(0, 20) + Seq::new((i + 1) as nat, |k: int| 0u8)
                =~= (target.subrange(0, 20) + Seq::new(i as nat, |k: int| 0u8)).push(0u8));
        }
        i = i + 1;
    }
    proof {
        assert(r@ =~= target);
    }
    r
}

/// Assembles one fragment: header with computed checksum, then the data.
pub fn assemble_fragment(fragment: &[u8], more: bool, offset: usize, cfg: &Ipv4Config) -> (r: Vec<
    u8,
>)
    requires
        offset % 8 == 0,
        offset <= MAX_DATAGRAM_DATA,
        fragment@.len() <= MAX_FRAGMENT_SIZE,
    ensures
        r@ == spec_fragment_bytes(fragment@, more, offset as int, *cfg),
{
    let zeroed = build_tool_header(cfg, more, offset, fragment.len(), 0);
    let checksum = simple_checksum(zeroed.as_slice());
    let mut r = build_tool_header(cfg, more, offset, fragment.len(), checksum);
    push_bytes(&mut r, fragment);
    r
}

/// Cuts `data` into IPv4 fragments of at most `cfg.fragment_size` bytes,
/// each assembled behind its own header, offsets in file order. The size
/// must be positive, 8-byte aligned and fit an Ethernet payload; the data
/// must be non-empty and fit a single datagram's 16-bit length.
pub fn build_ipv4_payloads(data: &[u8], cfg: &Ipv4Config) -> (r: Result<
    Vec<Vec<u8>>,
    FragmentError,
>)
    ensures
        data@.len() == 0 ==> r == Err::<Vec<Vec<u8>>, FragmentError>(FragmentError::EmptyData),
        data@.len() > 0 && cfg.fragment_size == 0 ==> r == Err::<Vec<Vec<u8>>, FragmentError>(
            FragmentError::FragmentSizeZero,
        ),
        data@.len() > 0 && cfg.fragment_size > 1440 ==> r == Err::<Vec<Vec<u8>>, FragmentError>(
            FragmentError::FragmentSizeTooLarge,
        ),
        data@.len() > 0 && 0 < cfg.fragment_size <= 1440 && cfg.fragment_size % 8 != 0 ==> r
            == Err::<Vec<Vec<u8>>, FragmentError>(FragmentError::FragmentSizeUnaligned),
        data@.len() > 65475 && 0 < cfg.fragment_size <= 1440 && cfg.fragment_size % 8 == 0 ==> r
            == Err::<Vec<Vec<u8>>, FragmentError>(FragmentError::DataTooLarge),
        0 < data@.len() <= 65475 && 0 < cfg.fragment_size <= 1440 && cfg.fragment_size % 8 == 0
            ==> (r matches Ok(v) && frames_view(v@) == spec_fragments(data@, *cfg, 0)),
{
    if data.len() == 0 {
        return Err(FragmentError::EmptyData);
    }
    if cfg.fragment_size == 0 {
        return Err(FragmentError::FragmentSizeZero);
    }
    if cfg.fragment_size > MAX_FRAGMENT_SIZE {
        return Err(FragmentError::FragmentSizeTooLarge);
    }
    if cfg.fragment_size % 8 != 0 {
        return Err(FragmentError::FragmentSizeUnaligned);
    }
    if data.len() > MAX_DATAGRAM_DATA {
        return Err(FragmentError::DataTooLarge);
    }
    let mut payloads: Vec<Vec<u8>> = Vec::new();
    let mut offset: usize = 0;
    while offset < data.len()
        invariant
            offset <= data@.len(),
            offset % 8 == 0 || offset == data@.len(),
            0 < cfg.fragment_size <= 1440,
            cfg.fragment_size % 8 == 0,
            0 < data@.len() <= 65475,
            spec_fragments(data@, *cfg, 0) == frames_view(payloads@) + spec_fragments(
                data@,
                *cfg,
                offset as int,
            ),
        decreases data@.len() - offset,
    {
        let remaining = data.len() - offset;
        let chunk_len = if remaining < cfg.fragment_size {
            remaining
        } else {
            cfg.fragment_size
        };
        let more = offset + chunk_len < data.len();
        let fragment = &data[offset..offset + chunk_len];
        let assembled = assemble_fragment(fragment, more, offset, cfg);
        let ghost payloads0 = payloads@;
        payloads.push(assembled);
        proof {
            assert(fragment@ == data@.subrange(offset as int, offset + chunk_len));
            assert(frames_view(payloads@) =~= frames_view(payloads0).push(assembled@));
            assert(spec_fragments(data@, *cfg, offset as int) == seq![
                spec_fragment_bytes(
                    data@.subrange(offset as int, offset + chunk_len),
                    more,
                    offset as int,
                    *cfg,
                ),
            ] + spec_fragments(data@, *cfg, offset + chunk_len));
            assert(frames_view(payloads0).push(assembled@) + spec_fragments(
                data@,
                *cfg,
                offset + chunk_len,
            ) =~= frames_view(payloads0) + (seq![assembled@] + spec_fragments(
                data@,
                *cfg,
                offset + chunk_len,
            )));
        }
        offset = offset + chunk_len;
    }
    proof {
        assert(spec_fragments(data@, *cfg, data@.len() as int) =~= Seq::<Seq<u8>>::empty());
        assert(frames_view(payloads@) + Seq::<Seq<u8>>::empty() =~= frames_view(payloads@));
    }
    Ok(payloads)
}

} // verus!
