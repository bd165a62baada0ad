//! The ARP cache: an IPv4-to-MAC mapping with a stack-wide time-to-live,
//! and the capture utility's plain learning cache.

use vstd::prelude::*;
use crate::addr::{Ipv4Addr, MacAddr};
use crate::arp::{ArpPacket, spec_arp_parse, spec_arp_parse_ok};
use crate::error::ArpParseError;

verus! {

/// Default time-to-live of a learned entry, in milliseconds.
pub const ARP_TTL_MS: u64 = 300_000;

#[derive(Clone, Copy, Debug, PartialEq, Eq, Structural)]
pub struct ArpEntry {
    pub ip: Ipv4Addr,
    pub mac: MacAddr,
    /// When the entry was learned, in stack milliseconds.
    pub learned_at: u64,
}

/// Each IP appears at most once.
pub open spec fn unique_ips(s: Seq<ArpEntry>) -> bool {
    forall|i: int, j: int| 0 <= i < j < s.len() ==> (#[trigger] s[i]).ip != (#[trigger] s[j]).ip
}

/// The mapping a run of entries stands for; later entries override earlier
/// ones, though well-formed tables never hold two entries for one IP.
pub open spec fn entries_map(s: Seq<ArpEntry>) -> Map<Ipv4Addr, (MacAddr, u64)>
    decreases s.len(),
{
    if s.len() == 0 {
        Map::empty()
    } else {
        entries_map(s.drop_last()).insert(s.last().ip, (s.last().mac, s.last().learned_at))
    }
}

/// With unique IPs, the mapping holds exactly the entries' IPs, each bound
/// to its entry's MAC and learn time.
pub proof fn lemma_entries_map_characterization(s: Seq<ArpEntry>)
    requires
        unique_ips(s),
    ensures
        forall|i: int|
            0 <= i < s.len() ==> entries_map(s).contains_key((#[trigger] s[i]).ip)
                && entries_map(s)[s[i].ip] == (s[i].mac, s[i].learned_at),
        forall|ip: Ipv4Addr|
            #[trigger] entries_map(s).contains_key(ip) ==> exists|i: int|
                0 <= i < s.len() && (#[trigger] s[i]).ip == ip,
    decreases s.len(),
{
    if s.len() > 0 {
        let rest = s.drop_last();
        lemma_entries_map_characterization(rest);
        assert forall|i: int| 0 <= i < s.len() implies entries_map(s).contains_key(
            (#[trigger] s[i]).ip,
        ) && entries_map(s)[s[i].ip] == (s[i].mac, s[i].learned_at) by {
            if i < s.len() - 1 {
                assert(s[i] == rest[i]);
                assert(s[i].ip != s.last().ip);
            }
        }
        assert forall|ip: Ipv4Addr| #[trigger] entries_map(s).contains_key(ip) implies exists|
            i: int,
        | 0 <= i < s.len() && (#[trigger] s[i]).ip == ip by {
            if ip == s.last().ip {
                assert(s[s.len() - 1].ip == ip);
            } else {
                assert(entries_map(rest).contains_key(ip));
                let i = choose|i: int| 0 <= i < rest.len() && (#[trigger] rest[i]).ip == ip;
                assert(s[i].ip == ip);
            }
        }
    }
}

/// Is an entry learned at `learned_at` still alive at `now_ms` under
/// `ttl_ms`? A learn time in the future counts as alive.
pub open spec fn arp_fresh(learned_at: u64, now_ms: u64, ttl_ms: u64) -> bool {
    now_ms - learned_at < ttl_ms
}

/// IP-to-MAC cache with expiry. Its view is the mapping from each cached IP
/// to the learned MAC and learn time.
pub struct ArpTable {
    entries: Vec<ArpEntry>,
    /// Entries older than this many milliseconds are no longer returned.
    ttl_ms: u64,
}

impl View for ArpTable {
    type V = Map<Ipv4Addr, (MacAddr, u64)>;

    closed spec fn view(&self) -> Map<Ipv4Addr, (MacAddr, u64)> {
        entries_map(self.entries@)
    }
}

impl ArpTable {
    pub closed spec fn wf(&self) -> bool {
        unique_ips(self.entries@)
    }

    /// The table's time-to-live in milliseconds.
    pub closed spec fn ttl(&self) -> u64 {
        self.ttl_ms
    }

    pub fn new(ttl_ms: u64) -> (r: ArpTable)
        ensures
            r.wf(),
            r@ == Map::<Ipv4Addr, (MacAddr, u64)>::empty(),
            r.ttl() == ttl_ms,
    {
        ArpTable { entries: Vec::new(), ttl_ms }
    }

    /// The index of the entry for `ip`, if one exists.
    fn position(&self, ip: Ipv4Addr) -> (r: Option<usize>)
        ensures
            match r {
                Some(i) => i < self.entries@.len() && self.entries@[i as int].ip == ip,
                None => forall|i: int| 0 <= i < self.entries@.len() ==> (#[trigger] self.entries@[i]).ip != ip,
            },
    {
        let mut i: usize = 0;
        while i < self.entries.len()
            invariant
                i <= self.entries@.len(),
                forall|j: int| 0 <= j < i ==> (#[trigger] self.entries@[j]).ip != ip,
            decreases self.entries@.len() - i,
        {
            if self.entries[i].ip == ip {
                return Some(i);
            }
            i = i + 1;
        }
        None
    }

    /// Learns or refreshes a mapping: the entry for `ip` now holds `mac`
    /// with learn time `now_ms`; everything else is untouched.
    pub fn insert(&mut self, ip: Ipv4Addr, mac: MacAddr, now_ms: u64)
        requires
            old(self).wf(),
        ensures
            final(self).wf(),
            final(self)@ == old(self)@.insert(ip, (mac, now_ms)),
            final(self).ttl() == old(self).ttl(),
    {
        let entry = ArpEntry { ip, mac, learned_at: now_ms };
        let ghost s0 = self.entries@;
        match self.position(ip) {
            Some(i) => {
                self.entries[i] = entry;
                proof {
                    let s1 = self.entries@;
                    assert(s1 == s0.update(i as int, entry));
                    assert(unique_ips(s1)) by {
                        assert(forall|k: int| 0 <= k < s1.len() ==> (#[trigger] s1[k]).ip == s0[
                            k].ip);
                    }
                    lemma_entries_map_characterization(s0);
                    lemma_entries_map_characterization(s1);
                    assert forall|k: Ipv4Addr| #[trigger]
                        entries_map(s1).contains_key(k) implies entries_map(s0).insert(
                        ip,
                        (mac, now_ms),
                    ).contains_key(k) by {
                        let j = choose|j: int| 0 <= j < s1.len() && (#[trigger] s1[j]).ip == k;
                        if j != i {
                            assert(s0[j].ip == k);
                        }
                    }
                    assert forall|k: Ipv4Addr| #[trigger]
                        entries_map(s0).insert(ip, (mac, now_ms)).contains_key(
                        k,
                    ) implies entries_map(s1).contains_key(k) by {
                        if k == ip {
                            assert(s1[i as int].ip == k);
                        } else {
                            assert(entries_map(s0).contains_key(k));
                            let j = choose|j: int| 0 <= j < s0.len() && (#[trigger] s0[j]).ip == k;
                            assert(s1[j].ip == k);
                        }
                    }
                    assert forall|k: Ipv4Addr| #[trigger]
                        entries_map(s1).contains_key(k) implies entries_map(s1)[k] == entries_map(
                        s0,
                    ).insert(ip, (mac, now_ms))[k] by {
                        let j = choose|j: int| 0 <= j < s1.len() && (#[trigger] s1[j]).ip == k;
                        assert(entries_map(s1)[k] == (s1[j].mac, s1[j].learned_at));
                        if j == i {
                            assert(k == ip);
                        } else {
                            assert(s0[j] == s1[j]);
                            assert(s0[j].ip == k);
                            assert(k != ip) by {
                                assert(s0[i as int].ip == ip);
                            }
                            assert(entries_map(s0)[k] == (s0[j].mac, s0[j].learned_at));
                        }
                    }
                    assert(entries_map(s1) =~= entries_map(s0).insert(ip, (mac, now_ms)));
                }
            },
            None => {
                self.entries.push(entry);
                proof {
                    let s1 = self.entries@;
                    assert(s1.drop_last() =~= s0);
                    assert(s1.last() == entry);
                    assert(unique_ips(s1)) by {
                        assert(forall|k: int| 0 <= k < s0.len() ==> (#[trigger] s1[k]) == s0[k]);
                    }
                }
            },
        }
    }

    /// The MAC for `ip`, if a cached entry exists and its age is below the
    /// time-to-live; an expired or missing entry gives nothing.
    pub fn lookup(&self, ip: Ipv4Addr, now_ms: u64) -> (r: Option<MacAddr>)
        requires
            self.wf(),
        ensures
            r == if self@.contains_key(ip) && arp_fresh(self@[ip].1, now_ms, self.ttl()) {
                Some(self@[ip].0)
            } else {
                None::<MacAddr>
            },
    {
        proof {
            lemma_entries_map_characterization(self.entries@);
        }
        match self.position(ip) {
            Some(i) => {
                let e = self.entries[i];
                let fresh = if now_ms >= e.learned_at {
                    now_ms - e.learned_at < self.ttl_ms
                } else {
                    true
                };
                if fresh {
                    Some(e.mac)
                } else {
                    None
                }
            },
            None => None,
        }
    }

    /// Drops every entry whose age has reached the time-to-live; fresh
    /// entries and the time-to-live itself are untouched.
    pub fn prune_expired(&mut self, now_ms: u64)
        requires
            old(self).wf(),
        ensures
            final(self).wf(),
            final(self).ttl() == old(self).ttl(),
            forall|ip: Ipv4Addr|
                #[trigger] final(self)@.contains_key(ip) <==> (old(self)@.contains_key(ip)
                    && arp_fresh(old(self)@[ip].1, now_ms, old(self).ttl())),
            forall|ip: Ipv4Addr|
                final(self)@.contains_key(ip) ==> #[trigger] final(self)@[ip] == old(self)@[ip],
    {
        let ghost s0 = self.entries@;
        let mut kept: Vec<ArpEntry> = Vec::new();
        let mut i: usize = 0;
        while i < self.entries.len()
            invariant
                i <= self.entries@.len(),
                self.entries@ == s0,
                unique_ips(s0),
                unique_ips(kept@),
                forall|j: int|
                    0 <= j < kept@.len() ==> exists|k: int|
                        0 <= k < i && (#[trigger] kept@[j]) == s0[k],
                forall|k: int|
                    0 <= k < i && arp_fresh((#[trigger] s0[k]).learned_at, now_ms, self.ttl_ms)
                        ==> kept@.contains(s0[k]),
                forall|j: int|
                    0 <= j < kept@.len() ==> arp_fresh(
                        (#[trigger] kept@[j]).learned_at,
                        now_ms,
                        self.ttl_ms,
                    ),
            decreases self.entries@.len() - i,
        {
            let e = self.entries[i];
            let fresh = if now_ms >= e.learned_at {
                now_ms - e.learned_at < self.ttl_ms
            } else {
                true
            };
            if fresh {
                let ghost kept0 = kept@;
                kept.push(e);
                proof {
                    assert(unique_ips(kept@)) by {
                        assert forall|a: int, b: int| 0 <= a < b < kept@.len() implies (
                        #[trigger] kept@[a]).ip != (#[trigger] kept@[b]).ip by {
                            if b == kept@.len() - 1 {
                                let ka = choose|k: int|
                                    0 <= k < i && (#[trigger] kept0[a]) == s0[k];
                                assert(s0[ka].ip != s0[i as int].ip);
                            }
                        }
                    }
                    assert forall|k: int|
                        0 <= k < i + 1 && arp_fresh(
                            (#[trigger] s0[k]).learned_at,
                            now_ms,
                            self.ttl_ms,
                        ) implies kept@.contains(s0[k]) by {
                        if k < i {
                            assert(kept0.contains(s0[k]));
                            let j = choose|j: int| 0 <= j < kept0.len() && kept0[j] == s0[k];
                            assert(kept@[j] == s0[k]);
                        } else {
                            assert(kept@[kept@.len() - 1] == s0[i as int]);
                        }
                    }
                }
            }
            i = i + 1;
        }
        self.entries = kept;
        proof {
            let s1 = self.entries@;
            lemma_entries_map_characterization(s0);
            lemma_entries_map_characterization(s1);
            assert forall|ip: Ipv4Addr| #[trigger]
                entries_map(s1).contains_key(ip) implies (entries_map(s0).contains_key(ip)
                && arp_fresh(entries_map(s0)[ip].1, now_ms, self.ttl_ms) && entries_map(s1)[ip]
                == entries_map(s0)[ip]) by {
                let j = choose|j: int| 0 <= j < s1.len() && (#[trigger] s1[j]).ip == ip;
                let k = choose|k: int| 0 <= k < s0.len() && (#[trigger] s1[j]) == s0[k];
                assert(s0[k].ip == ip);
                assert(entries_map(s0)[ip] == (s0[k].mac, s0[k].learned_at));
                assert(entries_map(s1)[ip] == (s1[j].mac, s1[j].learned_at));
            }
            assert forall|ip: Ipv4Addr|
                entries_map(s0).contains_key(ip) && arp_fresh(
                    entries_map(s0)[ip].1,
                    now_ms,
                    self.ttl_ms,
                ) implies #[trigger] entries_map(s1).contains_key(ip) by {
                let k = choose|k: int| 0 <= k < s0.len() && (#[trigger] s0[k]).ip == ip;
                assert(entries_map(s0)[ip] == (s0[k].mac, s0[k].learned_at));
                assert(arp_fresh(s0[k].learned_at, now_ms, self.ttl_ms));
                assert(s1.contains(s0[k]));
                let j = choose|j: int| 0 <= j < s1.len() && s1[j] == s0[k];
                assert(s1[j].ip == ip);
            }
        }
    }
}

/// The ARP learning law: after a mapping `ip -> mac` is learned at
/// `learn_ms`, a lookup at any `now_ms` within the time-to-live gives that
/// MAC, unless a later insert overrode the entry.
pub proof fn lemma_arp_learn_then_lookup(
    m: Map<Ipv4Addr, (MacAddr, u64)>,
    ip: Ipv4Addr,
    mac: MacAddr,
    learn_ms: u64,
    now_ms: u64,
    ttl_ms: u64,
)
    requires
        arp_fresh(learn_ms, now_ms, ttl_ms),
    ensures
        m.insert(ip, (mac, learn_ms)).contains_key(ip),
        m.insert(ip, (mac, learn_ms))[ip] == (mac, learn_ms),
        arp_fresh(m.insert(ip, (mac, learn_ms))[ip].1, now_ms, ttl_ms),
{
}

/// One learned mapping in the capture utility's plain ARP cache.
#[derive(Clone, Copy, Debug, PartialEq, Eq, Structural)]
pub struct CacheEntry {
    pub ip: Ipv4Addr,
    pub mac: MacAddr,
}

pub open spec fn unique_cache_ips(s: Seq<CacheEntry>) -> bool {
    forall|i: int, j: int| 0 <= i < j < s.len() ==> (#[trigger] s[i]).ip != (#[trigger] s[j]).ip
}

/// The mapping a run of cache entries stands for.
pub open spec fn cache_map(s: Seq<CacheEntry>) -> Map<Ipv4Addr, MacAddr>
    decreases s.len(),
{
    if s.len() == 0 {
        Map::empty()
    } else {
        cache_map(s.drop_last()).insert(s.last().ip, s.last().mac)
    }
}

/// With unique IPs, the mapping holds exactly the entries' IPs.
pub proof fn lemma_cache_map_characterization(s: Seq<CacheEntry>)
    requires
        unique_cache_ips(s),
    ensures
        forall|i: int|
            0 <= i < s.len() ==> cache_map(s).contains_key((#[trigger] s[i]).ip) && cache_map(s)[
                s[i].ip] == s[i].mac,
        forall|ip: Ipv4Addr|
            #[trigger] cache_map(s).contains_key(ip) ==> exists|i: int|
                0 <= i < s.len() && (#[trigger] s[i]).ip == ip,
    decreases s.len(),
{
    if s.len() > 0 {
        let rest = s.drop_last();
        lemma_cache_map_characterization(rest);
        assert forall|i: int| 0 <= i < s.len() implies cache_map(s).contains_key(
            (#[trigger] s[i]).ip,
        ) && cache_map(s)[s[i].ip] == s[i].mac by {
            if i < s.len() - 1 {
                assert(s[i] == rest[i]);
                assert(s[i].ip != s.last().ip);
            }
        }
        assert forall|ip: Ipv4Addr| #[trigger] cache_map(s).contains_key(ip) implies exists|i: int|
            0 <= i < s.len() && (#[trigger] s[i]).ip == ip by {
            if ip == s.last().ip {
                assert(s[s.len() - 1].ip == ip);
            } else {
                assert(cache_map(rest).contains_key(ip));
                let i = choose|i: int| 0 <= i < rest.len() && (#[trigger] rest[i]).ip == ip;
                assert(s[i].ip == ip);
            }
        }
    }
}

/// The capture utility's ARP observer: filters inbound ARP packets against
/// a target allow-list and learns sender mappings without expiry. Its view
/// is the learned IP-to-MAC mapping.
pub struct ArpProcessor {
    allowed_targets: Vec<Ipv4Addr>,
    cache: Vec<CacheEntry>,
}

impl View for ArpProcessor {
    type V = Map<Ipv4Addr, MacAddr>;

    closed spec fn view(&self) -> Map<Ipv4Addr, MacAddr> {
        cache_map(self.cache@)
    }
}

impl ArpProcessor {
    pub closed spec fn wf(&self) -> bool {
        unique_cache_ips(self.cache@)
    }

    /// The target allow-list the processor was built with.
    pub closed spec fn allowed(&self) -> Seq<Ipv4Addr> {
        self.allowed_targets@
    }

    pub fn new(allowed_targets: Vec<Ipv4Addr>) -> (r: ArpProcessor)
        ensures
            r.wf(),
            r@ == Map::<Ipv4Addr, MacAddr>::empty(),
            r.allowed() == allowed_targets@,
    {
        ArpProcessor { allowed_targets, cache: Vec::new() }
    }

    /// The learned MAC for `ip`, if the cache holds one.
    pub fn cached(&self, ip: Ipv4Addr) -> (r: Option<MacAddr>)
        requires
            self.wf(),
        ensures
            r == if self@.contains_key(ip) {
                Some(self@[ip])
            } else {
                None::<MacAddr>
            },
    {
        proof {
            lemma_cache_map_characterization(self.cache@);
        }
        let mut i: usize = 0;
        while i < self.cache.len()
            invariant
                i <= self.cache@.len(),
                forall|j: int| 0 <= j < i ==> (#[trigger] self.cache@[j]).ip != ip,
                self.wf(),
            decreases self.cache@.len() - i,
        {
            if self.cache[i].ip == ip {
                proof {
                    lemma_cache_map_characterization(self.cache@);
                }
                return Some(self.cache[i].mac);
            }
            i = i + 1;
        }
        proof {
            if self@.contains_key(ip) {
                let j = choose|j: int|
                    0 <= j < self.cache@.len() && (#[trigger] self.cache@[j]).ip == ip;
            }
        }
        None
    }

    /// Observes one ARP payload: parse faults surface; packets that are
    /// not Ethernet/IPv4 or whose target is off the allow-list are
    /// ignored; otherwise the sender's mapping is learned, replacing any
    /// older one.
    pub fn process(&mut self, payload: &[u8]) -> (r: Result<(), ArpParseError>)
        requires
            old(self).wf(),
        ensures
            final(self).wf(),
            final(self).allowed() == old(self).allowed(),
            !spec_arp_parse_ok(payload@) ==> r is Err && final(self)@ == old(self)@,
            spec_arp_parse_ok(payload@) ==> r == Ok::<(), ArpParseError>(()) && ({
                let pkt = spec_arp_parse(payload@);
                if pkt.hardware_type != 1 || pkt.protocol_type != 0x0800 {
                    final(self)@ == old(self)@
                } else if old(self).allowed().len() > 0 && !old(self).allowed().contains(
                    pkt.target_ip,
                ) {
                    final(self)@ == old(self)@
                } else {
                    final(self)@ == old(self)@.insert(pkt.sender_ip, pkt.sender_mac)
                }
            }),
    {
        let packet = match ArpPacket::parse(payload) {
            Ok(p) => p,
            Err(e) => {
                return Err(e);
            },
        };
        if !packet.is_ethernet_ipv4() {
            return Ok(());
        }
        if self.allowed_targets.len() > 0 {
            let mut found = false;
            let mut i: usize = 0;
            while i < self.allowed_targets.len()
                invariant
                    i <= self.allowed_targets@.len(),
                    found == exists|j: int|
                        0 <= j < i && self.allowed_targets@[j] == packet.target_ip,
                decreases self.allowed_targets@.len() - i,
            {
                if self.allowed_targets[i] == packet.target_ip {
                    proof {
                        assert(self.allowed_targets@[i as int] == packet.target_ip);
                    }
                    found = true;
                }
                i = i + 1;
            }
            proof {
                if found {
                    let j = choose|j: int|
                        0 <= j < self.allowed_targets@.len() && self.allowed_targets@[j]
                            == packet.target_ip;
                    assert(self.allowed().contains(packet.target_ip));
                } else {
                    assert(!self.allowed().contains(packet.target_ip)) by {
                        if self.allowed().contains(packet.target_ip) {
                            let j = choose|j: int|
                                0 <= j < self.allowed_targets@.len() && self.allowed_targets@[j]
                                    == packet.target_ip;
                        }
                    }
                }
            }
            if !found {
                return Ok(());
            }
        }
        let entry = CacheEntry { ip: packet.sender_ip, mac: packet.sender_mac };
        let ghost s0 = self.cache@;
        proof {
            lemma_cache_map_characterization(s0);
        }
        let mut i: usize = 0;
        let mut found_at: Option<usize> = None;
        while i < self.cache.len()
            invariant
                i <= self.cache@.len(),
                self.cache@ == s0,
                match found_at {
                    Some(k) => k < i && s0[k as int].ip == packet.sender_ip,
                    None => forall|j: int|
                        0 <= j < i ==> (#[trigger] s0[j]).ip != packet.sender_ip,
                },
            decreases self.cache@.len() - i,
        {
            if self.cache[i].ip == packet.sender_ip {
                found_at = Some(i);
                proof {
                    assert(s0[i as int].ip == packet.sender_ip);
                }
            }
            i = i + 1;
        }
        match found_at {
            Some(k) => {
                self.cache[k] = entry;
                proof {
                    let s1 = self.cache@;
                    assert(s1 == s0.update(k as int, entry));
                    assert(unique_cache_ips(s1)) by {
                        assert(forall|j: int|
                            0 <= j < s1.len() ==> (#[trigger] s1[j]).ip == s0[j].ip);
                    }
                    lemma_cache_map_characterization(s1);
                    let target = cache_map(s0).insert(packet.sender_ip, packet.sender_mac);
                    assert forall|p: Ipv4Addr| #[trigger]
                        cache_map(s1).contains_key(p) implies target.contains_key(p) && cache_map(
                        s1,
                    )[p] == target[p] by {
                        let j = choose|j: int| 0 <= j < s1.len() && (#[trigger] s1[j]).ip == p;
                        if j != k {
                            assert(s0[j] == s1[j]);
                            assert(s0[j].ip == p);
                            assert(p != packet.sender_ip) by {
                                assert(s0[k as int].ip == packet.sender_ip);
                            }
                        }
                    }
                    assert forall|p: Ipv4Addr| #[trigger]
                        target.contains_key(p) implies cache_map(s1).contains_key(p) by {
                        if p == packet.sender_ip {
                            assert(s1[k as int].ip == p);
                        } else {
                            assert(cache_map(s0).contains_key(p));
                            let j = choose|j: int| 0 <= j < s0.len() && (#[trigger] s0[j]).ip == p;
                            assert(s1[j].ip == p);
                        }
                    }
                    assert(cache_map(s1) =~= target);
                }
            },
            None => {
                self.cache.push(entry);
                proof {
                    let s1 = self.cache@;
                    assert(s1.drop_last() =~= s0);
                    assert(unique_cache_ips(s1)) by {
                        assert(forall|j: int| 0 <= j < s0.len() ==> (#[trigger] s1[j]) == s0[j]);
                    }
                }
            },
        }
        Ok(())
    }
}

} // verus!
