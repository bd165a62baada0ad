//! The pending-packet queue: outbound IP packets buffered per destination
//! while an ARP resolution is in flight, FIFO within each destination.

use vstd::prelude::*;
use crate::addr::Ipv4Addr;
use crate::ipv4::Ipv4Protocol;

verus! {

/// How long a packet may wait for ARP resolution, in milliseconds.
pub const PENDING_TTL_MS: u64 = 3_000;

/// An outbound IP packet waiting for its destination's MAC.
#[derive(Debug)]
pub struct PendingPacket {
    pub dst_ip: Ipv4Addr,
    pub protocol: Ipv4Protocol,
    pub payload: Vec<u8>,
    /// When the packet was queued, in stack milliseconds.
    pub timestamp: u64,
}

/// What a waiting packet says, with the payload as a byte sequence.
pub struct PendingModel {
    pub dst_ip: Ipv4Addr,
    pub protocol: Ipv4Protocol,
    pub payload: Seq<u8>,
    pub timestamp: u64,
}

pub open spec fn pending_model(p: PendingPacket) -> PendingModel {
    PendingModel {
        dst_ip: p.dst_ip,
        protocol: p.protocol,
        payload: p.payload@,
        timestamp: p.timestamp,
    }
}

pub open spec fn packets_models(s: Seq<PendingPacket>) -> Seq<PendingModel> {
    s.map_values(|p: PendingPacket| pending_model(p))
}

/// Is a packet queued at `queued_at` still worth sending at `now_ms`? A
/// queue time in the future counts as fresh.
pub open spec fn pending_fresh(queued_at: u64, now_ms: u64) -> bool {
    now_ms - queued_at < PENDING_TTL_MS
}

/// One destination's FIFO of waiting packets.
#[derive(Debug)]
pub struct PendingBucket {
    pub ip: Ipv4Addr,
    pub packets: Vec<PendingPacket>,
}

/// Each destination appears at most once.
pub open spec fn unique_bucket_ips(s: Seq<PendingBucket>) -> bool {
    forall|i: int, j: int| 0 <= i < j < s.len() ==> (#[trigger] s[i]).ip != (#[trigger] s[j]).ip
}

/// The mapping a run of buckets stands for.
pub open spec fn buckets_map(s: Seq<PendingBucket>) -> Map<Ipv4Addr, Seq<PendingModel>>
    decreases s.len(),
{
    if s.len() == 0 {
        Map::empty()
    } else {
        buckets_map(s.drop_last()).insert(s.last().ip, packets_models(s.last().packets@))
    }
}

/// With unique destinations, the mapping holds exactly the buckets' IPs,
/// each bound to what its bucket's packets say.
pub proof fn lemma_buckets_map_characterization(s: Seq<PendingBucket>)
    requires
        unique_bucket_ips(s),
    ensures
        forall|i: int|
            0 <= i < s.len() ==> buckets_map(s).contains_key((#[trigger] s[i]).ip)
                && buckets_map(s)[s[i].ip] == packets_models(s[i].packets@),
        forall|ip: Ipv4Addr|
            #[trigger] buckets_map(s).contains_key(ip) ==> exists|i: int|
                0 <= i < s.len() && (#[trigger] s[i]).ip == ip,
    decreases s.len(),
{
    if s.len() > 0 {
        let rest = s.drop_last();
        lemma_buckets_map_characterization(rest);
        assert forall|i: int| 0 <= i < s.len() implies buckets_map(s).contains_key(
            (#[trigger] s[i]).ip,
        ) && buckets_map(s)[s[i].ip] == packets_models(s[i].packets@) by {
            if i < s.len() - 1 {
                assert(s[i] == rest[i]);
                assert(s[i].ip != s.last().ip);
            }
        }
        assert forall|ip: Ipv4Addr| #[trigger] buckets_map(s).contains_key(ip) implies exists|
            i: int,
        | 0 <= i < s.len() && (#[trigger] s[i]).ip == ip by {
            if ip == s.last().ip {
                assert(s[s.len() - 1].ip == ip);
            } else {
                assert(buckets_map(rest).contains_key(ip));
                let i = choose|i: int| 0 <= i < rest.len() && (#[trigger] rest[i]).ip == ip;
                assert(s[i].ip == ip);
            }
        }
    }
}

/// Every element of a filtered run is an element of the run.
pub proof fn lemma_filter_element_of<A>(s: Seq<A>, pred: spec_fn(A) -> bool, i: int)
    requires
        0 <= i < s.filter(pred).len(),
    ensures
        s.contains(s.filter(pred)[i]),
    decreases s.len(),
{
    reveal(Seq::filter);
    if s.len() > 0 {
        let rest = s.drop_last();
        if pred(s.last()) && i == s.filter(pred).len() - 1 {
            assert(s[s.len() - 1] == s.filter(pred)[i]);
        } else {
            lemma_filter_element_of(rest, pred, i);
            let j = choose|j: int| 0 <= j < rest.len() && rest[j] == rest.filter(pred)[i];
            assert(s[j] == s.filter(pred)[i]);
        }
    }
}

/// Destination-keyed buffer of packets awaiting ARP resolution. Its view is
/// the mapping from each destination to its FIFO of waiting packets.
pub struct PendingQueue {
    buckets: Vec<PendingBucket>,
}

impl View for PendingQueue {
    type V = Map<Ipv4Addr, Seq<PendingModel>>;

    closed spec fn view(&self) -> Map<Ipv4Addr, Seq<PendingModel>> {
        buckets_map(self.buckets@)
    }
}

impl PendingQueue {
    pub closed spec fn wf(&self) -> bool {
        unique_bucket_ips(self.buckets@)
    }

    pub fn new() -> (r: PendingQueue)
        ensures
            r.wf(),
            r@ == Map::<Ipv4Addr, Seq<PendingModel>>::empty(),
    {
        PendingQueue { buckets: Vec::new() }
    }

    /// The index of the bucket for `ip`, if one exists.
    fn position(&self, ip: Ipv4Addr) -> (r: Option<usize>)
        ensures
            match r {
                Some(i) => i < self.buckets@.len() && self.buckets@[i as int].ip == ip,
                None => forall|i: int|
                    0 <= i < self.buckets@.len() ==> (#[trigger] self.buckets@[i]).ip != ip,
            },
    {
        let mut i: usize = 0;
        while i < self.buckets.len()
            invariant
                i <= self.buckets@.len(),
                forall|j: int| 0 <= j < i ==> (#[trigger] self.buckets@[j]).ip != ip,
            decreases self.buckets@.len() - i,
        {
            if self.buckets[i].ip == ip {
                return Some(i);
            }
            i = i + 1;
        }
        None
    }

    /// Appends a packet to its destination's FIFO, creating the bucket if
    /// none exists.
    pub fn enqueue(&mut self, dst_ip: Ipv4Addr, packet: PendingPacket)
        requires
            old(self).wf(),
        ensures
            final(self).wf(),
            final(self)@ == old(self)@.insert(
                dst_ip,
                if old(self)@.contains_key(dst_ip) {
                    old(self)@[dst_ip].push(pending_model(packet))
                } else {
                    seq![pending_model(packet)]
                },
            ),
    {
        let ghost s0 = self.buckets@;
        let ghost pm = pending_model(packet);
        proof {
            lemma_buckets_map_characterization(s0);
        }
        match self.position(dst_ip) {
            Some(i) => {
                let ghost old_bucket = s0[i as int];
                self.buckets[i].packets.push(packet);
                proof {
                    let s1 = self.buckets@;
                    let new_bucket = s1[i as int];
                    assert(new_bucket.ip == dst_ip);
                    assert(new_bucket.packets@ == old_bucket.packets@.push(packet));
                    assert(packets_models(new_bucket.packets@) =~= packets_models(
                        old_bucket.packets@,
                    ).push(pm));
                    assert(s1 == s0.update(i as int, new_bucket));
                    assert(unique_bucket_ips(s1)) by {
                        assert(forall|k: int|
                            0 <= k < s1.len() ==> (#[trigger] s1[k]).ip == s0[k].ip);
                    }
                    lemma_buckets_map_characterization(s1);
                    let target = buckets_map(s0).insert(dst_ip, buckets_map(s0)[dst_ip].push(pm));
                    assert forall|k: Ipv4Addr| #[trigger]
                        buckets_map(s1).contains_key(k) implies target.contains_key(k)
                        && buckets_map(s1)[k] == target[k] by {
                        let j = choose|j: int| 0 <= j < s1.len() && (#[trigger] s1[j]).ip == k;
                        if j == i {
                            assert(k == dst_ip);
                            assert(buckets_map(s0)[dst_ip] == packets_models(old_bucket.packets@));
                        } else {
                            assert(s0[j] == s1[j]);
                            assert(s0[j].ip == k);
                            assert(k != dst_ip) by {
                                assert(s0[i as int].ip == dst_ip);
                            }
                        }
                    }
                    assert forall|k: Ipv4Addr| #[trigger]
                        target.contains_key(k) implies buckets_map(s1).contains_key(k) by {
                        if k == dst_ip {
                            assert(s1[i as int].ip == k);
                        } else {
                            assert(buckets_map(s0).contains_key(k));
                            let j = choose|j: int| 0 <= j < s0.len() && (#[trigger] s0[j]).ip == k;
                            assert(s1[j].ip == k);
                        }
                    }
                    assert(buckets_map(s1) =~= target);
                }
            },
            None => {
                self.buckets.push(PendingBucket { ip: dst_ip, packets: vec![packet] });
                proof {
                    let s1 = self.buckets@;
                    assert(s1.drop_last() =~= s0);
                    assert(s1.last().ip == dst_ip);
                    assert(packets_models(s1.last().packets@) =~= seq![pm]);
                    assert(unique_bucket_ips(s1)) by {
                        assert(forall|k: int| 0 <= k < s0.len() ==> (#[trigger] s1[k]) == s0[k]);
                    }
                    assert(buckets_map(s1) == buckets_map(s0).insert(dst_ip, seq![pm]));
                }
            },
        }
    }

    /// Atomically removes and returns the FIFO for `ip`, oldest first;
    /// nothing if no packet waits there.
    pub fn drain(&mut self, ip: Ipv4Addr) -> (r: Option<Vec<PendingPacket>>)
        requires
            old(self).wf(),
        ensures
            final(self).wf(),
            old(self)@.contains_key(ip) ==> (r matches Some(v) && packets_models(v@) == old(
                self,
            )@[ip] && final(self)@ == old(self)@.remove(ip)),
            !old(self)@.contains_key(ip) ==> r is None && final(self)@ == old(self)@,
    {
        let ghost s0 = self.buckets@;
        proof {
            lemma_buckets_map_characterization(s0);
        }
        match self.position(ip) {
            Some(i) => {
                let bucket = self.buckets.remove(i);
                proof {
                    let s1 = self.buckets@;
                    assert(forall|j: int|
                        0 <= j < s1.len() ==> #[trigger] s1[j] == if j < i {
                            s0[j]
                        } else {
                            s0[j + 1]
                        });
                    assert(unique_bucket_ips(s1));
                    lemma_buckets_map_characterization(s1);
                    assert forall|k: Ipv4Addr| #[trigger]
                        buckets_map(s1).contains_key(k) implies buckets_map(s0).remove(
                        ip,
                    ).contains_key(k) && buckets_map(s1)[k] == buckets_map(s0).remove(ip)[k] by {
                        let j = choose|j: int| 0 <= j < s1.len() && (#[trigger] s1[j]).ip == k;
                        let jj = if j < i {
                            j
                        } else {
                            j + 1
                        };
                        assert(s0[jj] == s1[j]);
                        assert(s0[jj].ip == k);
                        assert(k != ip) by {
                            assert(s0[i as int].ip == ip);
                        }
                    }
                    assert forall|k: Ipv4Addr| #[trigger]
                        buckets_map(s0).remove(ip).contains_key(k) implies buckets_map(
                        s1,
                    ).contains_key(k) by {
                        assert(buckets_map(s0).contains_key(k));
                        let j = choose|j: int| 0 <= j < s0.len() && (#[trigger] s0[j]).ip == k;
                        assert(j != i);
                        let jj = if j < i {
                            j
                        } else {
                            j - 1
                        };
                        assert(s1[jj].ip == k);
                    }
                    assert(buckets_map(s1) =~= buckets_map(s0).remove(ip));
                    assert(packets_models(bucket.packets@) == buckets_map(s0)[ip]);
                }
                Some(bucket.packets)
            },
            None => None,
        }
    }

    /// Drops every packet that has waited `PENDING_TTL_MS` or longer, and
    /// every destination left with no packet.
    pub fn cleanup(&mut self, now_ms: u64)
        requires
            old(self).wf(),
        ensures
            final(self).wf(),
            forall|ip: Ipv4Addr| #[trigger]
                final(self)@.contains_key(ip) <==> (old(self)@.contains_key(ip)
                    && old(self)@[ip].filter(
                    |p: PendingModel| pending_fresh(p.timestamp, now_ms),
                ).len() > 0),
            forall|ip: Ipv4Addr|
                final(self)@.contains_key(ip) ==> #[trigger] final(self)@[ip] == old(self)@[
                    ip].filter(|p: PendingModel| pending_fresh(p.timestamp, now_ms)),
    {
        let ghost s0 = self.buckets@;
        let ghost pred = |p: PendingModel| pending_fresh(p.timestamp, now_ms);
        proof {
            lemma_buckets_map_characterization(s0);
        }
        let mut kept: Vec<PendingBucket> = Vec::new();
        while self.buckets.len() > 0
            invariant
                self.buckets@.len() <= s0.len(),
                self.buckets@ == s0.subrange(0, self.buckets@.len() as int),
                unique_bucket_ips(s0),
                unique_bucket_ips(kept@),
                pred == (|p: PendingModel| pending_fresh(p.timestamp, now_ms)),
                forall|j: int|
                    0 <= j < kept@.len() ==> exists|k: int|
                        self.buckets@.len() <= k < s0.len() && (#[trigger] kept@[j]).ip == s0[
                            k].ip && packets_models(kept@[j].packets@) == packets_models(
                            s0[k].packets@,
                        ).filter(pred),
                forall|j: int| 0 <= j < kept@.len() ==> (#[trigger] kept@[j]).packets@.len() > 0,
                forall|k: int|
                    self.buckets@.len() <= k < s0.len() && packets_models(
                        (#[trigger] s0[k]).packets@,
                    ).filter(pred).len() > 0 ==> exists|j: int|
                        0 <= j < kept@.len() && (#[trigger] kept@[j]).ip == s0[k].ip,
            decreases self.buckets@.len(),
        {
            let ghost remaining0 = self.buckets@;
            let ghost kept0 = kept@;
            let bucket_opt = self.buckets.pop();
            let mut bucket = match bucket_opt {
                Some(b) => b,
                None => {
                    proof {
                        assert(false);
                    }
                    continue
                },
            };
            let ghost bk = remaining0.len() - 1;
            proof {
                assert(bucket == s0[bk]);
                assert(self.buckets@ =~= s0.subrange(0, self.buckets@.len() as int));
            }
            let ghost orig = bucket.packets@;
            let ghost orig_ip = bucket.ip;
            let mut fresh_packets: Vec<PendingPacket> = Vec::new();
            while bucket.packets.len() > 0
                invariant
                    pred == (|p: PendingModel| pending_fresh(p.timestamp, now_ms)),
                    bucket.ip == orig_ip,
                    bucket.packets@.len() <= orig.len(),
                    bucket.packets@ == orig.subrange(
                        orig.len() - bucket.packets@.len(),
                        orig.len() as int,
                    ),
                    packets_models(fresh_packets@) == packets_models(
                        orig.subrange(0, orig.len() - bucket.packets@.len()),
                    ).filter(pred),
                decreases bucket.packets@.len(),
            {
                let ghost j = orig.len() - bucket.packets@.len();
                let ghost models_prefix = packets_models(orig.subrange(0, j));
                let p = bucket.packets.remove(0);
                proof {
                    assert(p == orig[j]);
                    assert(bucket.packets@ =~= orig.subrange(j + 1, orig.len() as int));
                    let models_next = packets_models(orig.subrange(0, j + 1));
                    assert(models_next =~= models_prefix + seq![pending_model(orig[j])]);
                    Seq::<PendingModel>::filter_distributes_over_add(
                        models_prefix,
                        seq![pending_model(orig[j])],
                        pred,
                    );
                    reveal_with_fuel(Seq::<PendingModel>::filter, 2);
                    assert(seq![pending_model(orig[j])].drop_last() =~= Seq::<
                        PendingModel,
                    >::empty());
                }
                let fresh = if now_ms >= p.timestamp {
                    now_ms - p.timestamp < PENDING_TTL_MS
                } else {
                    true
                };
                if fresh {
                    fresh_packets.push(p);
                    proof {
                        assert(packets_models(fresh_packets@) =~= models_prefix.filter(pred).push(
                            pending_model(orig[j]),
                        ));
                    }
                }
            }
            proof {
                assert(orig.subrange(0, orig.len() as int) =~= orig);
                assert(packets_models(fresh_packets@) == packets_models(orig).filter(pred));
            }
            if fresh_packets.len() > 0 {
                let ip = bucket.ip;
                kept.push(PendingBucket { ip, packets: fresh_packets });
                proof {
                    assert(kept@[kept@.len() - 1].ip == s0[bk].ip);
                    assert(unique_bucket_ips(kept@)) by {
                        assert forall|a: int, b: int| 0 <= a < b < kept@.len() implies (
                        #[trigger] kept@[a]).ip != (#[trigger] kept@[b]).ip by {
                            if b == kept@.len() - 1 {
                                let ka = choose|k: int|
                                    bk + 1 <= k < s0.len() && (#[trigger] kept0[a]).ip == s0[k].ip
                                        && packets_models(kept0[a].packets@) == packets_models(
                                        s0[k].packets@,
                                    ).filter(pred);
                                assert(s0[bk].ip != s0[ka].ip);
                            }
                        }
                    }
                }
            }
            proof {
                assert forall|k: int|
                    self.buckets@.len() <= k < s0.len() && packets_models(
                        (#[trigger] s0[k]).packets@,
                    ).filter(pred).len() > 0 implies exists|j: int|
                    0 <= j < kept@.len() && (#[trigger] kept@[j]).ip == s0[k].ip by {
                    if k > bk {
                        let j = choose|j: int|
                            0 <= j < kept0.len() && (#[trigger] kept0[j]).ip == s0[k].ip;
                        assert(kept@[j].ip == s0[k].ip);
                    } else {
                        assert(k == bk);
                        assert(packets_models(fresh_packets@).len() > 0);
                        assert(fresh_packets@.len() > 0);
                        assert(kept@[kept@.len() - 1].ip == s0[k].ip);
                    }
                }
            }
        }
        self.buckets = kept;
        proof {
            let s1 = self.buckets@;
            lemma_buckets_map_characterization(s1);
            assert(s0.subrange(0, 0) =~= Seq::<PendingBucket>::empty());
            assert forall|ip: Ipv4Addr| #[trigger]
                buckets_map(s1).contains_key(ip) implies (buckets_map(s0).contains_key(ip)
                && buckets_map(s0)[ip].filter(pred).len() > 0 && buckets_map(s1)[ip] == buckets_map(
                s0,
            )[ip].filter(pred)) by {
                let j = choose|j: int| 0 <= j < s1.len() && (#[trigger] s1[j]).ip == ip;
                let k = choose|k: int|
                    0 <= k < s0.len() && (#[trigger] s1[j]).ip == s0[k].ip && packets_models(
                        s1[j].packets@,
                    ) == packets_models(s0[k].packets@).filter(pred);
                assert(buckets_map(s0)[ip] == packets_models(s0[k].packets@));
                assert(buckets_map(s1)[ip] == packets_models(s1[j].packets@));
                assert(s1[j].packets@.len() > 0);
                assert(packets_models(s1[j].packets@).len() > 0);
            }
            assert forall|ip: Ipv4Addr|
                buckets_map(s0).contains_key(ip) && buckets_map(s0)[ip].filter(pred).len()
                    > 0 implies #[trigger] buckets_map(s1).contains_key(ip) by {
                let k = choose|k: int| 0 <= k < s0.len() && (#[trigger] s0[k]).ip == ip;
                assert(buckets_map(s0)[ip] == packets_models(s0[k].packets@));
                let j = choose|j: int| 0 <= j < s1.len() && (#[trigger] s1[j]).ip == s0[k].ip;
                assert(s1[j].ip == ip);
            }
        }
    }
}

} // verus!
