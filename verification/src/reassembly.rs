//! The capture utility's offline IPv4 processor: validates datagrams
//! against an accept list and reassembles fragmented ones, holding partial
//! fragment runs per (source, destination, identification) key.

use vstd::prelude::*;
use crate::addr::Ipv4Addr;
use crate::bytes::{be16, read_be16, push_bytes};
use crate::checksum::{internet_checksum, simple_checksum};

verus! {

/// How long a partial fragment run may sit idle before it is dropped, in
/// milliseconds.
pub const FRAGMENT_TIMEOUT_MS: u64 = 30_000;

/// What one processed IPv4 payload came to.
#[derive(Debug)]
pub enum Ipv4ProcessOutcome {
    /// Shorter than a minimal header.
    TooShort,
    /// Bad version, bad header length, or a header longer than the data.
    BadHeader,
    /// The total-length field exceeds the data.
    BadLength,
    /// TTL zero.
    TtlExpired,
    /// The header checksum does not verify to zero.
    BadChecksum,
    /// The destination IP is not on the accept list.
    NotAccepted,
    /// An unfragmented datagram; its data is ready.
    Complete { data: Vec<u8> },
    /// A fragment whose offset does not continue its run; the run is
    /// dropped.
    FragmentDiscontinuous,
    /// A fragment stored while more are expected.
    FragmentStored,
    /// The final fragment arrived; the reassembled data is ready.
    Reassembled { data: Vec<u8> },
}

/// The reassembly key: one run per source, destination and identification.
#[derive(Clone, Copy, Debug, PartialEq, Eq, Structural)]
pub struct FragmentKey {
    pub src: Ipv4Addr,
    pub dst: Ipv4Addr,
    pub id: u16,
}

/// One partial fragment run.
#[derive(Debug)]
pub struct FragmentBuffer {
    pub data: Vec<u8>,
    pub last_update: u64,
    pub more_expected: bool,
    pub next_offset: usize,
}

/// What a partial run says, with its data as a byte sequence.
pub struct BufferModel {
    pub data: Seq<u8>,
    pub last_update: u64,
    pub more_expected: bool,
    pub next_offset: int,
}

pub open spec fn buffer_model(b: FragmentBuffer) -> BufferModel {
    BufferModel {
        data: b.data@,
        last_update: b.last_update,
        more_expected: b.more_expected,
        next_offset: b.next_offset as int,
    }
}

pub struct FragEntry {
    pub key: FragmentKey,
    pub buffer: FragmentBuffer,
}

/// Each key appears at most once.
pub open spec fn unique_frag_keys(s: Seq<FragEntry>) -> bool {
    forall|i: int, j: int|
        0 <= i < j < s.len() ==> (#[trigger] s[i]).key != (#[trigger] s[j]).key
}

/// The mapping a run of entries stands for.
pub open spec fn frag_map(s: Seq<FragEntry>) -> Map<FragmentKey, BufferModel>
    decreases s.len(),
{
    if s.len() == 0 {
        Map::empty()
    } else {
        frag_map(s.drop_last()).insert(s.last().key, buffer_model(s.last().buffer))
    }
}

/// With unique keys, the mapping holds exactly the entries' keys, each
/// bound to what its buffer says.
pub proof fn lemma_frag_map_characterization(s: Seq<FragEntry>)
    requires
        unique_frag_keys(s),
    ensures
        forall|i: int|
            0 <= i < s.len() ==> frag_map(s).contains_key((#[trigger] s[i]).key) && frag_map(s)[
                s[i].key] == buffer_model(s[i].buffer),
        forall|k: FragmentKey|
            #[trigger] frag_map(s).contains_key(k) ==> exists|i: int|
                0 <= i < s.len() && (#[trigger] s[i]).key == k,
    decreases s.len(),
{
    if s.len() > 0 {
        let rest = s.drop_last();
        lemma_frag_map_characterization(rest);
        assert forall|i: int| 0 <= i < s.len() implies frag_map(s).contains_key(
            (#[trigger] s[i]).key,
        ) && frag_map(s)[s[i].key] == buffer_model(s[i].buffer) by {
            if i < s.len() - 1 {
                assert(s[i] == rest[i]);
                assert(s[i].key != s.last().key);
            }
        }
        assert forall|k: FragmentKey| #[trigger] frag_map(s).contains_key(k) implies exists|i: int|
            0 <= i < s.len() && (#[trigger] s[i]).key == k by {
            if k == s.last().key {
                assert(s[s.len() - 1].key == k);
            } else {
                assert(frag_map(rest).contains_key(k));
                let i = choose|i: int| 0 <= i < rest.len() && (#[trigger] rest[i]).key == k;
                assert(s[i].key == k);
            }
        }
    }
}

/// Is a run last touched at `last_update` still waiting at `now_ms`? A
/// touch time in the future counts as live.
pub open spec fn frag_live(last_update: u64, now_ms: u64) -> bool {
    now_ms - last_update <= FRAGMENT_TIMEOUT_MS
}

/// The mapping with every timed-out run dropped.
pub open spec fn spec_pruned(m: Map<FragmentKey, BufferModel>, now_ms: u64) -> Map<
    FragmentKey,
    BufferModel,
> {
    Map::new(|k: FragmentKey| m.contains_key(k) && frag_live(m[k].last_update, now_ms), |k: FragmentKey| m[k])
}

/// How a fragment run closes over one arriving fragment: a gap drops the
/// run; a continuation extends it; a final fragment completes it.
#[derive(PartialEq, Eq, Structural)]
pub enum FragStep {
    Discontinuous,
    Stored,
    Done,
}

/// What one fragment does to the pruned mapping: the arriving fragment
/// either continues its run at exactly the next expected offset, or the
/// run is dropped.
pub open spec fn spec_fragment_outcome(
    m: Map<FragmentKey, BufferModel>,
    key: FragmentKey,
    offset: int,
    more: bool,
    data: Seq<u8>,
    now_ms: u64,
) -> (FragStep, Map<FragmentKey, BufferModel>, Seq<u8>) {
    let entry = if m.contains_key(key) {
        m[key]
    } else {
        BufferModel { data: Seq::empty(), last_update: now_ms, more_expected: true, next_offset: 0 }
    };
    if offset != entry.next_offset {
        (FragStep::Discontinuous, m.remove(key), Seq::empty())
    } else {
        let grown = BufferModel {
            data: entry.data + data,
            last_update: now_ms,
            more_expected: more,
            next_offset: entry.next_offset + data.len(),
        };
        if more {
            (FragStep::Stored, m.insert(key, grown), Seq::empty())
        } else {
            (FragStep::Done, m.remove(key), grown.data)
        }
    }
}

/// The offline IPv4 validator and reassembler. Its view is the mapping
/// from each in-progress fragment run to its partial state.
pub struct Ipv4Processor {
    accepted: Vec<Ipv4Addr>,
    buffers: Vec<FragEntry>,
}

impl View for Ipv4Processor {
    type V = Map<FragmentKey, BufferModel>;

    closed spec fn view(&self) -> Map<FragmentKey, BufferModel> {
        frag_map(self.buffers@)
    }
}

impl Ipv4Processor {
    pub closed spec fn wf(&self) -> bool {
        unique_frag_keys(self.buffers@)
    }

    /// The destination accept list the processor was built with.
    pub closed spec fn accept_list(&self) -> Seq<Ipv4Addr> {
        self.accepted@
    }

    /// A processor accepting the given destinations; with none given the
    /// caller passes its defaults.
    pub fn new(accepted: Vec<Ipv4Addr>) -> (r: Ipv4Processor)
        ensures
            r.wf(),
            r@ == Map::<FragmentKey, BufferModel>::empty(),
            r.accept_list() == accepted@,
    {
        Ipv4Processor { accepted, buffers: Vec::new() }
    }

    /// The accepted destinations, for display.
    pub fn allowed_slice(&self) -> (r: &Vec<Ipv4Addr>)
        ensures
            r@ == self.accept_list(),
    {
        &self.accepted
    }

    /// The index of the run for `key`, if one exists.
    fn position(&self, key: FragmentKey) -> (r: Option<usize>)
        ensures
            match r {
                Some(i) => i < self.buffers@.len() && self.buffers@[i as int].key == key,
                None => forall|i: int|
                    0 <= i < self.buffers@.len() ==> (#[trigger] self.buffers@[i]).key != key,
            },
    {
        let mut i: usize = 0;
        while i < self.buffers.len()
            invariant
                i <= self.buffers@.len(),
                forall|j: int| 0 <= j < i ==> (#[trigger] self.buffers@[j]).key != key,
            decreases self.buffers@.len() - i,
        {
            if self.buffers[i].key == key {
                return Some(i);
            }
            i = i + 1;
        }
        None
    }

    /// Drops every run whose last touch is `FRAGMENT_TIMEOUT_MS` or more
    /// in the past.
    fn prune(&mut self, now_ms: u64)
        requires
            old(self).wf(),
        ensures
            final(self).wf(),
            final(self)@ == spec_pruned(old(self)@, now_ms),
            final(self).accept_list() == old(self).accept_list(),
    {
        let ghost s0 = self.buffers@;
        proof {
            lemma_frag_map_characterization(s0);
        }
        let mut rest: Vec<FragEntry> = Vec::new();
        core::mem::swap(&mut rest, &mut self.buffers);
        let mut kept: Vec<FragEntry> = Vec::new();
        while rest.len() > 0
            invariant
                rest@.len() <= s0.len(),
                rest@ == s0.subrange(s0.len() - rest@.len(), s0.len() as int),
                unique_frag_keys(s0),
                unique_frag_keys(kept@),
                forall|j: int|
                    0 <= j < kept@.len() ==> exists|k: int|
                        0 <= k < s0.len() - rest@.len() && (#[trigger] kept@[j]) == s0[k],
                forall|j: int|
                    0 <= j < kept@.len() ==> frag_live(
                        (#[trigger] kept@[j]).buffer.last_update,
                        now_ms,
                    ),
                forall|k: int|
                    0 <= k < s0.len() - rest@.len() && frag_live(
                        (#[trigger] s0[k]).buffer.last_update,
                        now_ms,
                    ) ==> exists|j: int| 0 <= j < kept@.len() && (#[trigger] kept@[j]) == s0[k],
            decreases rest@.len(),
        {
            let ghost i = s0.len() - rest@.len();
            let ghost kept0 = kept@;
            let entry = rest.remove(0);
            proof {
                assert(entry == s0[i]);
                assert(rest@ =~= s0.subrange(s0.len() - rest@.len(), s0.len() as int));
            }
            let live = if now_ms >= entry.buffer.last_update {
                now_ms - entry.buffer.last_update <= FRAGMENT_TIMEOUT_MS
            } else {
                true
            };
            if live {
                kept.push(entry);
                proof {
                    assert(kept@[kept@.len() - 1] == s0[i]);
                    assert(unique_frag_keys(kept@)) by {
                        assert forall|a: int, b: int| 0 <= a < b < kept@.len() implies (
                        #[trigger] kept@[a]).key != (#[trigger] kept@[b]).key by {
                            if b == kept@.len() - 1 {
                                let ka = choose|k: int|
                                    0 <= k < i && (#[trigger] kept0[a]) == s0[k];
                                assert(s0[ka].key != s0[i].key);
                            }
                        }
                    }
                }
            }
            proof {
                assert forall|k: int|
                    0 <= k < i + 1 && frag_live(
                        (#[trigger] s0[k]).buffer.last_update,
                        now_ms,
                    ) implies exists|j: int|
                    0 <= j < kept@.len() && (#[trigger] kept@[j]) == s0[k] by {
                    if k < i {
                        let j = choose|j: int| 0 <= j < kept0.len() && (#[trigger] kept0[j]) == s0[
                            k];
                        assert(kept@[j] == s0[k]);
                    } else {
                        assert(kept@[kept@.len() - 1] == s0[k]);
                    }
                }
            }
        }
        proof {
            assert(s0.subrange(s0.len() as int, s0.len() as int) =~= Seq::<FragEntry>::empty());
        }
        self.buffers = kept;
        proof {
            let s1 = self.buffers@;
            lemma_frag_map_characterization(s1);
            assert(s0.subrange(0, 0) =~= Seq::<FragEntry>::empty());
            let target = spec_pruned(frag_map(s0), now_ms);
            assert forall|k: FragmentKey| #[trigger]
                frag_map(s1).contains_key(k) implies target.contains_key(k) && frag_map(s1)[k]
                == target[k] by {
                let j = choose|j: int| 0 <= j < s1.len() && (#[trigger] s1[j]).key == k;
                let i = choose|i: int| 0 <= i < s0.len() && (#[trigger] s1[j]) == s0[i];
                assert(s0[i].key == k);
                assert(frag_map(s0)[k] == buffer_model(s0[i].buffer));
                assert(frag_map(s1)[k] == buffer_model(s1[j].buffer));
            }
            assert forall|k: FragmentKey| #[trigger]
                target.contains_key(k) implies frag_map(s1).contains_key(k) by {
                assert(frag_map(s0).contains_key(k));
                let i = choose|i: int| 0 <= i < s0.len() && (#[trigger] s0[i]).key == k;
                assert(frag_map(s0)[k] == buffer_model(s0[i].buffer));
                assert(frag_live(s0[i].buffer.last_update, now_ms));
                let j = choose|j: int| 0 <= j < s1.len() && (#[trigger] s1[j]) == s0[i];
                assert(s1[j].key == k);
            }
            assert(frag_map(s1) =~= target);
        }
    }

    /// Continues (or drops) the fragment run this fragment belongs to,
    /// after pruning idle runs.
    fn handle_fragment(
        &mut self,
        src: Ipv4Addr,
        dst: Ipv4Addr,
        id: u16,
        offset: usize,
        more: bool,
        data: &[u8],
        now_ms: u64,
    ) -> (r: Ipv4ProcessOutcome)
        requires
            old(self).wf(),
            offset <= 65528,
            data@.len() <= 65535,
        ensures
            final(self).wf(),
            final(self).accept_list() == old(self).accept_list(),
            ({
                let key = FragmentKey { src, dst, id };
                let m1 = spec_pruned(old(self)@, now_ms);
                let o = spec_fragment_outcome(m1, key, offset as int, more, data@, now_ms);
                &&& final(self)@ == o.1
                &&& (o.0 == FragStep::Discontinuous ==> r is FragmentDiscontinuous)
                &&& (o.0 == FragStep::Stored ==> r is FragmentStored)
                &&& (o.0 == FragStep::Done ==> (r matches Ipv4ProcessOutcome::Reassembled {
                    data: d,
                } && d@ == o.2))
            }),
    {
        self.prune(now_ms);
        let key = FragmentKey { src, dst, id };
        let ghost s1 = self.buffers@;
        let ghost m1 = frag_map(s1);
        proof {
            lemma_frag_map_characterization(s1);
        }
        match self.position(key) {
            Some(i) => {
                let ghost old_model = buffer_model(s1[i as int].buffer);
                if offset != self.buffers[i].buffer.next_offset {
                    self.buffers.remove(i);
                    proof {
                        lemma_frag_map_removal(s1, self.buffers@, i as int);
                    }
                    Ipv4ProcessOutcome::FragmentDiscontinuous
                } else {
                    let entry = self.buffers.remove(i);
                    proof {
                        lemma_frag_map_removal(s1, self.buffers@, i as int);
                    }
                    let mut new_data = entry.buffer.data;
                    push_bytes(&mut new_data, data);
                    let next = entry.buffer.next_offset + data.len();
                    if more {
                        let ghost s2 = self.buffers@;
                        let buffer = FragmentBuffer {
                            data: new_data,
                            last_update: now_ms,
                            more_expected: more,
                            next_offset: next,
                        };
                        let ghost grown = buffer_model(buffer);
                        self.buffers.push(FragEntry { key, buffer });
                        proof {
                            let s3 = self.buffers@;
                            assert(s3.drop_last() =~= s2);
                            assert(unique_frag_keys(s3)) by {
                                assert(forall|k: int|
                                    0 <= k < s2.len() ==> (#[trigger] s3[k]) == s2[k]);
                                lemma_frag_map_characterization(s2);
                                assert(forall|k: int|
                                    0 <= k < s2.len() ==> (#[trigger] s2[k]).key != key);
                            }
                            assert(frag_map(s3) == frag_map(s2).insert(key, grown));
                            assert(frag_map(s3) =~= m1.insert(key, grown));
                        }
                        Ipv4ProcessOutcome::FragmentStored
                    } else {
                        Ipv4ProcessOutcome::Reassembled { data: new_data }
                    }
                }
            },
            None => {
                proof {
                    assert forall|k: FragmentKey| m1.contains_key(k) implies k != key by {
                        let j = choose|j: int|
                            0 <= j < s1.len() && (#[trigger] s1[j]).key == k;
                    }
                    assert(m1.remove(key) =~= m1);
                }
                if offset != 0 {
                    Ipv4ProcessOutcome::FragmentDiscontinuous
                } else {
                    let mut new_data: Vec<u8> = Vec::new();
                    push_bytes(&mut new_data, data);
                    proof {
                        assert(Seq::<u8>::empty() + data@ =~= data@);
                        assert(new_data@ =~= Seq::<u8>::empty() + data@);
                    }
                    if more {
                        let buffer = FragmentBuffer {
                            data: new_data,
                            last_update: now_ms,
                            more_expected: more,
                            next_offset: data.len(),
                        };
                        let ghost grown = buffer_model(buffer);
                        let ghost s2 = self.buffers@;
                        self.buffers.push(FragEntry { key, buffer });
                        proof {
                            let s3 = self.buffers@;
                            assert(s3.drop_last() =~= s2);
                            assert(unique_frag_keys(s3)) by {
                                assert(forall|k: int|
                                    0 <= k < s2.len() ==> (#[trigger] s3[k]) == s2[k]);
                            }
                            assert(frag_map(s3) == frag_map(s2).insert(key, grown));
                        }
                        Ipv4ProcessOutcome::FragmentStored
                    } else {
                        Ipv4ProcessOutcome::Reassembled { data: new_data }
                    }
                }
            },
        }
    }

    /// Validates one captured IPv4 payload and routes its data: whole
    /// datagrams come out at once, fragments accumulate per run until the
    /// final one completes it. The checks run in the order listed on
    /// `Ipv4ProcessOutcome`.
    pub fn process(&mut self, payload: &[u8], now_ms: u64) -> (r: Ipv4ProcessOutcome)
        requires
            old(self).wf(),
            payload@.len() <= 65535,
        ensures
            final(self).wf(),
            final(self).accept_list() == old(self).accept_list(),
            ({
                let b = payload@;
                let version = b[0] / 16;
                let hl = (b[0] % 16) * 4;
                let total = be16(b[2], b[3]) as int;
                let field = be16(b[6], b[7]);
                let more = (field & 0x2000) != 0;
                let offset = (field & 0x1FFF) * 8;
                let dst = crate::addr::spec_ipv4_at(b, 16);
                let data_end = if total < b.len() { total } else { b.len() as int };
                let region = b.subrange(hl as int, data_end);
                if b.len() < 20 {
                    r is TooShort && final(self)@ == old(self)@
                } else if version != 4 || hl < 20 || b.len() < hl {
                    r is BadHeader && final(self)@ == old(self)@
                } else if total > b.len() || total < hl {
                    r is BadLength && final(self)@ == old(self)@
                } else if b[8] == 0 {
                    r is TtlExpired && final(self)@ == old(self)@
                } else if internet_checksum(b.subrange(0, hl as int)) != 0 {
                    r is BadChecksum && final(self)@ == old(self)@
                } else if old(self).accept_list().len() > 0 && !old(self).accept_list().contains(
                    dst,
                ) {
                    r is NotAccepted && final(self)@ == old(self)@
                } else if offset == 0 && !more {
                    (r matches Ipv4ProcessOutcome::Complete { data } && data@ == region)
                        && final(self)@ == old(self)@
                } else {
                    let key = FragmentKey {
                        src: crate::addr::spec_ipv4_at(b, 12),
                        dst,
                        id: be16(b[4], b[5]),
                    };
                    let m1 = spec_pruned(old(self)@, now_ms);
                    let o = spec_fragment_outcome(m1, key, offset as int, more, region, now_ms);
                    &&& final(self)@ == o.1
                    &&& (o.0 == FragStep::Discontinuous ==> r is FragmentDiscontinuous)
                    &&& (o.0 == FragStep::Stored ==> r is FragmentStored)
                    &&& (o.0 == FragStep::Done ==> (r matches Ipv4ProcessOutcome::Reassembled {
                        data: d,
                    } && d@ == o.2))
                }
            }),
    {
        if payload.len() < 20 {
            return Ipv4ProcessOutcome::TooShort;
        }
        let version = payload[0] / 16;
        let header_len: usize = ((payload[0] % 16) as usize) * 4;
        if version != 4 || header_len < 20 || payload.len() < header_len {
            return Ipv4ProcessOutcome::BadHeader;
        }
        let total_length: usize = read_be16(payload[2], payload[3]) as usize;
        if total_length > payload.len() || total_length < header_len {
            return Ipv4ProcessOutcome::BadLength;
        }
        let ttl = payload[8];
        if ttl == 0 {
            return Ipv4ProcessOutcome::TtlExpired;
        }
        let computed = simple_checksum(&payload[0..header_len]);
        if computed != 0 {
            return Ipv4ProcessOutcome::BadChecksum;
        }
        let dst = Ipv4Addr {
            o0: payload[16],
            o1: payload[17],
            o2: payload[18],
            o3: payload[19],
        };
        proof {
            assert(dst == crate::addr::spec_ipv4_at(payload@, 16));
        }
        if self.accepted.len() > 0 {
            let mut found = false;
            let mut i: usize = 0;
            while i < self.accepted.len()
                invariant
                    i <= self.accepted@.len(),
                    found == exists|j: int| 0 <= j < i && self.accepted@[j] == dst,
                decreases self.accepted@.len() - i,
            {
                if self.accepted[i] == dst {
                    proof {
                        assert(self.accepted@[i as int] == dst);
                    }
                    found = true;
                }
                i = i + 1;
            }
            proof {
                if found {
                    let j = choose|j: int|
                        0 <= j < self.accepted@.len() && self.accepted@[j] == dst;
                    assert(self.accept_list().contains(dst));
                } else {
                    assert(!self.accept_list().contains(dst)) by {
                        if self.accept_list().contains(dst) {
                            let j = choose|j: int|
                                0 <= j < self.accepted@.len() && self.accepted@[j] == dst;
                        }
                    }
                }
            }
            if !found {
                return Ipv4ProcessOutcome::NotAccepted;
            }
        }
        let src = Ipv4Addr {
            o0: payload[12],
            o1: payload[13],
            o2: payload[14],
            o3: payload[15],
        };
        proof {
            assert(src == crate::addr::spec_ipv4_at(payload@, 12));
        }
        let identification = read_be16(payload[4], payload[5]);
        let fragment_field = read_be16(payload[6], payload[7]);
        let more_fragments = (fragment_field & 0x2000) != 0;
        let masked = fragment_field & 0x1FFF;
        proof {
            assert(masked <= 0x1FFF) by (bit_vector)
                requires masked == fragment_field & 0x1FFF;
        }
        let fragment_offset: usize = (masked as usize) * 8;
        let data_end: usize = if total_length < payload.len() {
            total_length
        } else {
            payload.len()
        };
        let ip_data = &payload[header_len..data_end];
        proof {
            assert(ip_data@ == payload@.subrange(header_len as int, data_end as int));
        }
        if fragment_offset == 0 && !more_fragments {
            let data = vstd::slice::slice_to_vec(ip_data);
            return Ipv4ProcessOutcome::Complete { data };
        }
        self.handle_fragment(
            src,
            dst,
            identification,
            fragment_offset,
            more_fragments,
            ip_data,
            now_ms,
        )
    }
}

/// Removing the entry at `i` turns the mapping into a remove of its key.
proof fn lemma_frag_map_removal(s0: Seq<FragEntry>, s1: Seq<FragEntry>, i: int)
    requires
        unique_frag_keys(s0),
        0 <= i < s0.len(),
        s1 == s0.remove(i),
    ensures
        unique_frag_keys(s1),
        frag_map(s1) == frag_map(s0).remove(s0[i].key),
{
    assert(forall|j: int|
        0 <= j < s1.len() ==> #[trigger] s1[j] == if j < i {
            s0[j]
        } else {
            s0[j + 1]
        });
    assert(unique_frag_keys(s1));
    lemma_frag_map_characterization(s0);
    lemma_frag_map_characterization(s1);
    let k0 = s0[i].key;
    assert forall|k: FragmentKey| #[trigger]
        frag_map(s1).contains_key(k) implies frag_map(s0).remove(k0).contains_key(k) && frag_map(
        s1,
    )[k] == frag_map(s0).remove(k0)[k] by {
        let j = choose|j: int| 0 <= j < s1.len() && (#[trigger] s1[j]).key == k;
        let jj = if j < i {
            j
        } else {
            j + 1
        };
        assert(s0[jj] == s1[j]);
        assert(s0[jj].key == k);
        assert(k != k0);
    }
    assert forall|k: FragmentKey| #[trigger]
        frag_map(s0).remove(k0).contains_key(k) implies frag_map(s1).contains_key(k) by {
        assert(frag_map(s0).contains_key(k));
        let j = choose|j: int| 0 <= j < s0.len() && (#[trigger] s0[j]).key == k;
        assert(j != i);
        let jj = if j < i {
            j
        } else {
            j - 1
        };
        assert(s1[jj].key == k);
    }
    assert(frag_map(s1) =~= frag_map(s0).remove(k0));
}

} // verus!

