//! The socket registry and demultiplexer: bound endpoints keyed by their
//! 5-tuple, with the three-tier unicast lookup and the multicast lookup.

use vstd::prelude::*;
use crate::addr::{Ipv4Addr, ip_unspecified};
use crate::udp_socket::{UdpSocketState, UdpMessage, msg_view};

verus! {

#[derive(Clone, Copy, Debug, PartialEq, Eq, Structural)]
pub enum SocketType {
    Udp,
    Tcp,
    Unknown,
}

/// The IANA protocol code of a socket type; `Unknown` maps to 0.
pub open spec fn socket_type_code(t: SocketType) -> u8 {
    match t {
        SocketType::Tcp => 6,
        SocketType::Udp => 17,
        SocketType::Unknown => 0,
    }
}

impl SocketType {
    pub fn to_code(&self) -> (r: u8)
        ensures
            r == socket_type_code(*self),
    {
        match self {
            SocketType::Tcp => 6,
            SocketType::Udp => 17,
            SocketType::Unknown => 0,
        }
    }

    pub fn parse(st: u8) -> (r: SocketType)
        ensures
            st == 6 ==> r == SocketType::Tcp,
            st == 17 ==> r == SocketType::Udp,
            st != 6 && st != 17 ==> r == SocketType::Unknown,
    {
        if st == 6 {
            SocketType::Tcp
        } else if st == 17 {
            SocketType::Udp
        } else {
            SocketType::Unknown
        }
    }
}

/// The 5-tuple identifying a bound endpoint.
#[derive(Clone, Copy, Debug, PartialEq, Eq, Hash, Structural)]
pub struct SocketHandle {
    /// IANA protocol code: 6 for TCP, 17 for UDP.
    pub protocol: u8,
    pub local_addr: Ipv4Addr,
    pub local_port: u16,
    pub remote_addr: Ipv4Addr,
    pub remote_port: u16,
}

impl SocketHandle {
    pub fn new(
        protocol: &SocketType,
        local_addr: Ipv4Addr,
        local_port: u16,
        remote_addr: Ipv4Addr,
        remote_port: u16,
    ) -> (r: SocketHandle)
        ensures
            r == (SocketHandle {
                protocol: socket_type_code(*protocol),
                local_addr,
                local_port,
                remote_addr,
                remote_port,
            }),
    {
        SocketHandle {
            protocol: protocol.to_code(),
            local_addr,
            local_port,
            remote_addr,
            remote_port,
        }
    }
}

/// A registered socket; only UDP exists today, TCP is reserved.
#[derive(Debug)]
pub enum Socket {
    Udp(UdpSocketState),
}

/// What a socket's state says: both FIFOs and their capacities.
pub struct SocketModel {
    pub rx: Seq<(Ipv4Addr, u16, Seq<u8>)>,
    pub rx_cap: usize,
    pub tx: Seq<(Ipv4Addr, u16, Seq<u8>)>,
    pub tx_cap: usize,
}

pub open spec fn socket_model(s: Socket) -> SocketModel {
    match s {
        Socket::Udp(u) => SocketModel {
            rx: u.rx(),
            rx_cap: u.rx_cap(),
            tx: u.tx(),
            tx_cap: u.tx_cap(),
        },
    }
}

/// A model after an arrived datagram is queued: pushed onto the receive
/// FIFO, or dropped if it is full.
pub open spec fn spec_rx_enqueued(m: SocketModel, msg: (Ipv4Addr, u16, Seq<u8>)) -> SocketModel {
    if m.rx.len() < m.rx_cap {
        SocketModel { rx: m.rx.push(msg), ..m }
    } else {
        m
    }
}

/// A model after an outbound datagram is queued: pushed onto the transmit
/// FIFO, or dropped if it is full.
pub open spec fn spec_tx_enqueued(m: SocketModel, msg: (Ipv4Addr, u16, Seq<u8>)) -> SocketModel {
    if m.tx.len() < m.tx_cap {
        SocketModel { tx: m.tx.push(msg), ..m }
    } else {
        m
    }
}

pub struct SetEntry {
    pub handle: SocketHandle,
    pub socket: Socket,
}

/// Each 5-tuple appears at most once.
pub open spec fn unique_handles(s: Seq<SetEntry>) -> bool {
    forall|i: int, j: int|
        0 <= i < j < s.len() ==> (#[trigger] s[i]).handle != (#[trigger] s[j]).handle
}

/// The mapping a run of registry entries stands for.
pub open spec fn set_map(s: Seq<SetEntry>) -> Map<SocketHandle, SocketModel>
    decreases s.len(),
{
    if s.len() == 0 {
        Map::empty()
    } else {
        set_map(s.drop_last()).insert(s.last().handle, socket_model(s.last().socket))
    }
}

/// With unique handles, the mapping holds exactly the entries' handles,
/// each bound to its socket's model.
pub proof fn lemma_set_map_characterization(s: Seq<SetEntry>)
    requires
        unique_handles(s),
    ensures
        forall|i: int|
            0 <= i < s.len() ==> set_map(s).contains_key((#[trigger] s[i]).handle) && set_map(s)[
                s[i].handle] == socket_model(s[i].socket),
        forall|h: SocketHandle|
            #[trigger] set_map(s).contains_key(h) ==> exists|i: int|
                0 <= i < s.len() && (#[trigger] s[i]).handle == h,
    decreases s.len(),
{
    if s.len() > 0 {
        let rest = s.drop_last();
        lemma_set_map_characterization(rest);
        assert forall|i: int| 0 <= i < s.len() implies set_map(s).contains_key(
            (#[trigger] s[i]).handle,
        ) && set_map(s)[s[i].handle] == socket_model(s[i].socket) by {
            if i < s.len() - 1 {
                assert(s[i] == rest[i]);
                assert(s[i].handle != s.last().handle);
            }
        }
        assert forall|h: SocketHandle| #[trigger] set_map(s).contains_key(h) implies exists|i: int|
            0 <= i < s.len() && (#[trigger] s[i]).handle == h by {
            if h == s.last().handle {
                assert(s[s.len() - 1].handle == h);
            } else {
                assert(set_map(rest).contains_key(h));
                let i = choose|i: int| 0 <= i < rest.len() && (#[trigger] rest[i]).handle == h;
                assert(s[i].handle == h);
            }
        }
    }
}

/// Replacing the entry at `i` with one carrying the same handle turns the
/// mapping into an insert of the new socket's model.
proof fn lemma_set_map_update(s0: Seq<SetEntry>, s1: Seq<SetEntry>, i: int, e: SetEntry)
    requires
        unique_handles(s0),
        0 <= i < s0.len(),
        e.handle == s0[i].handle,
        s1 == s0.update(i, e),
    ensures
        unique_handles(s1),
        set_map(s1) == set_map(s0).insert(e.handle, socket_model(e.socket)),
{
    assert(unique_handles(s1)) by {
        assert(forall|k: int| 0 <= k < s1.len() ==> (#[trigger] s1[k]).handle == s0[k].handle);
    }
    lemma_set_map_characterization(s0);
    lemma_set_map_characterization(s1);
    let target = set_map(s0).insert(e.handle, socket_model(e.socket));
    assert forall|h: SocketHandle| #[trigger]
        set_map(s1).contains_key(h) implies target.contains_key(h) && set_map(s1)[h]
        == target[h] by {
        let j = choose|j: int| 0 <= j < s1.len() && (#[trigger] s1[j]).handle == h;
        if j == i {
            assert(h == e.handle);
        } else {
            assert(s0[j] == s1[j]);
            assert(s0[j].handle == h);
            assert(h != e.handle) by {
                assert(s0[i].handle == e.handle);
            }
        }
    }
    assert forall|h: SocketHandle| #[trigger]
        target.contains_key(h) implies set_map(s1).contains_key(h) by {
        if h == e.handle {
            assert(s1[i].handle == h);
        } else {
            assert(set_map(s0).contains_key(h));
            let j = choose|j: int| 0 <= j < s0.len() && (#[trigger] s0[j]).handle == h;
            assert(s1[j].handle == h);
        }
    }
    assert(set_map(s1) =~= target);
}

/// Removing the entry at `i` turns the mapping into a remove of its handle.
proof fn lemma_set_map_removal(s0: Seq<SetEntry>, s1: Seq<SetEntry>, i: int)
    requires
        unique_handles(s0),
        0 <= i < s0.len(),
        s1 == s0.remove(i),
    ensures
        unique_handles(s1),
        set_map(s1) == set_map(s0).remove(s0[i].handle),
{
    assert(forall|j: int|
        0 <= j < s1.len() ==> #[trigger] s1[j] == if j < i {
            s0[j]
        } else {
            s0[j + 1]
        });
    assert(unique_handles(s1));
    lemma_set_map_characterization(s0);
    lemma_set_map_characterization(s1);
    let h0 = s0[i].handle;
    assert forall|h: SocketHandle| #[trigger]
        set_map(s1).contains_key(h) implies set_map(s0).remove(h0).contains_key(h) && set_map(s1)[h]
        == set_map(s0).remove(h0)[h] by {
        let j = choose|j: int| 0 <= j < s1.len() && (#[trigger] s1[j]).handle == h;
        let jj = if j < i {
            j
        } else {
            j + 1
        };
        assert(s0[jj] == s1[j]);
        assert(s0[jj].handle == h);
        assert(h != h0);
    }
    assert forall|h: SocketHandle| #[trigger]
        set_map(s0).remove(h0).contains_key(h) implies set_map(s1).contains_key(h) by {
        assert(set_map(s0).contains_key(h));
        let j = choose|j: int| 0 <= j < s0.len() && (#[trigger] s0[j]).handle == h;
        assert(j != i);
        let jj = if j < i {
            j
        } else {
            j - 1
        };
        assert(s1[jj].handle == h);
    }
    assert(set_map(s1) =~= set_map(s0).remove(h0));
}

/// The exact-tier key for an inbound datagram: connected to that peer.
pub open spec fn spec_exact_handle(
    code: u8,
    src_ip: Ipv4Addr,
    src_port: u16,
    dst_ip: Ipv4Addr,
    dst_port: u16,
) -> SocketHandle {
    SocketHandle {
        protocol: code,
        local_addr: dst_ip,
        local_port: dst_port,
        remote_addr: src_ip,
        remote_port: src_port,
    }
}

/// The bound-local-tier key: bound to the datagram's destination IP,
/// unconnected.
pub open spec fn spec_bound_handle(code: u8, dst_ip: Ipv4Addr, dst_port: u16) -> SocketHandle {
    SocketHandle {
        protocol: code,
        local_addr: dst_ip,
        local_port: dst_port,
        remote_addr: ip_unspecified(),
        remote_port: 0,
    }
}

/// The wildcard-tier key: bound to 0.0.0.0.
pub open spec fn spec_wildcard_handle(code: u8, dst_port: u16) -> SocketHandle {
    SocketHandle {
        protocol: code,
        local_addr: ip_unspecified(),
        local_port: dst_port,
        remote_addr: ip_unspecified(),
        remote_port: 0,
    }
}

/// The three-tier unicast lookup: the exact tier's socket if registered,
/// else the bound-local tier's, else the wildcard tier's, else nothing.
pub open spec fn spec_three_tier_lookup(
    m: Map<SocketHandle, SocketModel>,
    code: u8,
    src_ip: Ipv4Addr,
    src_port: u16,
    dst_ip: Ipv4Addr,
    dst_port: u16,
) -> Option<SocketHandle> {
    let exact = spec_exact_handle(code, src_ip, src_port, dst_ip, dst_port);
    let bound = spec_bound_handle(code, dst_ip, dst_port);
    let wildcard = spec_wildcard_handle(code, dst_port);
    if m.contains_key(exact) {
        Some(exact)
    } else if m.contains_key(bound) {
        Some(bound)
    } else if m.contains_key(wildcard) {
        Some(wildcard)
    } else {
        None
    }
}

/// Whether a registered handle takes an inbound broadcast or multicast
/// datagram: protocol and local port must match, local IP matches the
/// destination or is unspecified, and remote fields match the source or are
/// unspecified and zero.
pub open spec fn spec_multicast_match(
    h: SocketHandle,
    code: u8,
    src_ip: Ipv4Addr,
    src_port: u16,
    dst_ip: Ipv4Addr,
    dst_port: u16,
) -> bool {
    &&& h.protocol == code
    &&& h.local_port == dst_port
    &&& (h.local_addr == dst_ip || h.local_addr == ip_unspecified())
    &&& (h.remote_addr == ip_unspecified() || h.remote_addr == src_ip)
    &&& (h.remote_port == 0 || h.remote_port == src_port)
}

/// The registry of bound endpoints. Its view is the mapping from each
/// registered 5-tuple to its socket's model.
pub struct SocketSet {
    entries: Vec<SetEntry>,
}

impl View for SocketSet {
    type V = Map<SocketHandle, SocketModel>;

    closed spec fn view(&self) -> Map<SocketHandle, SocketModel> {
        set_map(self.entries@)
    }
}

impl SocketSet {
    pub closed spec fn wf(&self) -> bool {
        unique_handles(self.entries@)
    }

    /// The registered 5-tuples in registration order; the order
    /// `handles` reports and the event loop drains in.
    pub closed spec fn key_order(&self) -> Seq<SocketHandle> {
        self.entries@.map_values(|e: SetEntry| e.handle)
    }

    pub fn new() -> (r: SocketSet)
        ensures
            r.wf(),
            r@ == Map::<SocketHandle, SocketModel>::empty(),
    {
        SocketSet { entries: Vec::new() }
    }

    /// The index of the entry for `handle`, if one exists.
    fn position(&self, handle: SocketHandle) -> (r: Option<usize>)
        ensures
            match r {
                Some(i) => i < self.entries@.len() && self.entries@[i as int].handle == handle,
                None => forall|i: int|
                    0 <= i < self.entries@.len() ==> (#[trigger] self.entries@[i]).handle
                        != handle,
            },
    {
        let mut i: usize = 0;
        while i < self.entries.len()
            invariant
                i <= self.entries@.len(),
                forall|j: int| 0 <= j < i ==> (#[trigger] self.entries@[j]).handle != handle,
            decreases self.entries@.len() - i,
        {
            if self.entries[i].handle == handle {
                return Some(i);
            }
            i = i + 1;
        }
        None
    }

    /// Registers a socket under `handle`, replacing any socket already
    /// registered there.
    pub fn add(&mut self, handle: SocketHandle, socket: Socket)
        requires
            old(self).wf(),
        ensures
            final(self).wf(),
            final(self)@ == old(self)@.insert(handle, socket_model(socket)),
    {
        let ghost s0 = self.entries@;
        let ghost m = socket_model(socket);
        match self.position(handle) {
            Some(i) => {
                self.entries[i] = SetEntry { handle, socket };
                proof {
                    lemma_set_map_update(s0, self.entries@, i as int, self.entries@[i as int]);
                }
            },
            None => {
                self.entries.push(SetEntry { handle, socket });
                proof {
                    let s1 = self.entries@;
                    assert(s1.drop_last() =~= s0);
                    assert(unique_handles(s1)) by {
                        assert(forall|k: int| 0 <= k < s0.len() ==> (#[trigger] s1[k]) == s0[k]);
                    }
                }
            },
        }
    }

    /// The socket registered under `handle`, if any.
    pub fn get(&self, handle: SocketHandle) -> (r: Option<&Socket>)
        requires
            self.wf(),
        ensures
            self@.contains_key(handle) ==> (r matches Some(s) && socket_model(*s)
                == self@[handle]),
            !self@.contains_key(handle) ==> r is None,
    {
        proof {
            lemma_set_map_characterization(self.entries@);
        }
        match self.position(handle) {
            Some(i) => Some(&self.entries[i].socket),
            None => None,
        }
    }

    /// Unregisters and returns the socket under `handle`, if any.
    pub fn remove(&mut self, handle: SocketHandle) -> (r: Option<Socket>)
        requires
            old(self).wf(),
        ensures
            final(self).wf(),
            old(self)@.contains_key(handle) ==> (r matches Some(s) && socket_model(s) == old(
                self,
            )@[handle] && final(self)@ == old(self)@.remove(handle)),
            !old(self)@.contains_key(handle) ==> r is None && final(self)@ == old(self)@,
    {
        let ghost s0 = self.entries@;
        proof {
            lemma_set_map_characterization(s0);
        }
        match self.position(handle) {
            Some(i) => {
                let entry = self.entries.remove(i);
                proof {
                    lemma_set_map_removal(s0, self.entries@, i as int);
                }
                Some(entry.socket)
            },
            None => None,
        }
    }

    /// The registered 5-tuples, one for each socket.
    pub fn handles(&self) -> (r: Vec<SocketHandle>)
        requires
            self.wf(),
        ensures
            r@ == self.key_order(),
            forall|h: SocketHandle| r@.contains(h) <==> #[trigger] self@.contains_key(h),
            forall|j: int, k: int| 0 <= j < k < r@.len() ==> r@[j] != r@[k],
    {
        proof {
            lemma_set_map_characterization(self.entries@);
        }
        let mut r: Vec<SocketHandle> = Vec::new();
        let mut i: usize = 0;
        while i < self.entries.len()
            invariant
                i <= self.entries@.len(),
                r@.len() == i,
                forall|j: int| 0 <= j < i ==> r@[j] == (#[trigger] self.entries@[j]).handle,
            decreases self.entries@.len() - i,
        {
            r.push(self.entries[i].handle);
            i = i + 1;
        }
        proof {
            assert(r@ =~= self.key_order());
            assert forall|h: SocketHandle| r@.contains(h) implies self@.contains_key(h) by {
                let j = choose|j: int| 0 <= j < r@.len() && r@[j] == h;
                assert(self.entries@[j].handle == h);
            }
            assert forall|h: SocketHandle| #[trigger] self@.contains_key(h) implies r@.contains(
                h,
            ) by {
                let j = choose|j: int|
                    0 <= j < self.entries@.len() && (#[trigger] self.entries@[j]).handle == h;
                assert(r@[j] == h);
            }
        }
        r
    }

    /// The three-tier unicast lookup for an inbound datagram: stops at the
    /// first tier whose key is registered.
    pub fn lookup(
        &self,
        protocol: &SocketType,
        src_ip: Ipv4Addr,
        src_port: u16,
        dst_ip: Ipv4Addr,
        dst_port: u16,
    ) -> (r: Option<SocketHandle>)
        requires
            self.wf(),
        ensures
            r == spec_three_tier_lookup(
                self@,
                socket_type_code(*protocol),
                src_ip,
                src_port,
                dst_ip,
                dst_port,
            ),
    {
        let exact = SocketHandle::new(protocol, dst_ip, dst_port, src_ip, src_port);
        if self.position(exact).is_some() {
            proof {
                lemma_set_map_characterization(self.entries@);
            }
            return Some(exact);
        }
        let bound = SocketHandle::new(protocol, dst_ip, dst_port, Ipv4Addr::unspecified(), 0);
        if self.position(bound).is_some() {
            proof {
                lemma_set_map_characterization(self.entries@);
            }
            return Some(bound);
        }
        let wildcard = SocketHandle::new(
            protocol,
            Ipv4Addr::unspecified(),
            dst_port,
            Ipv4Addr::unspecified(),
            0,
        );
        proof {
            lemma_set_map_characterization(self.entries@);
        }
        if self.position(wildcard).is_some() {
            return Some(wildcard);
        }
        None
    }

    /// Every registered handle that takes an inbound broadcast or multicast
    /// datagram from the given source to the given destination.
    pub fn lookup_multicast(
        &self,
        protocol: &SocketType,
        src_ip: Ipv4Addr,
        src_port: u16,
        dst_ip: Ipv4Addr,
        dst_port: u16,
    ) -> (r: Vec<SocketHandle>)
        requires
            self.wf(),
        ensures
            forall|h: SocketHandle|
                r@.contains(h) <==> (#[trigger] self@.contains_key(h) && spec_multicast_match(
                    h,
                    socket_type_code(*protocol),
                    src_ip,
                    src_port,
                    dst_ip,
                    dst_port,
                )),
    {
        let ghost code = socket_type_code(*protocol);
        proof {
            lemma_set_map_characterization(self.entries@);
        }
        let any_ip = Ipv4Addr::unspecified();
        let proto_code = protocol.to_code();
        let mut r: Vec<SocketHandle> = Vec::new();
        let mut i: usize = 0;
        while i < self.entries.len()
            invariant
                i <= self.entries@.len(),
                proto_code == code,
                any_ip == ip_unspecified(),
                forall|h: SocketHandle|
                    r@.contains(h) <==> exists|j: int|
                        0 <= j < i && (#[trigger] self.entries@[j]).handle == h
                            && spec_multicast_match(h, code, src_ip, src_port, dst_ip, dst_port),
            decreases self.entries@.len() - i,
        {
            let ghost r0 = r@;
            let h = self.entries[i].handle;
            if h.protocol == proto_code && h.local_port == dst_port && (h.local_addr == dst_ip
                || h.local_addr == any_ip) && (h.remote_addr == any_ip || h.remote_addr == src_ip)
                && (h.remote_port == 0 || h.remote_port == src_port) {
                r.push(h);
            }
            proof {
                assert forall|h2: SocketHandle| r@.contains(h2) implies exists|j: int|
                    0 <= j < i + 1 && (#[trigger] self.entries@[j]).handle == h2
                        && spec_multicast_match(h2, code, src_ip, src_port, dst_ip, dst_port) by {
                    if r0.contains(h2) {
                        let j = choose|j: int|
                            0 <= j < i && (#[trigger] self.entries@[j]).handle == h2
                                && spec_multicast_match(
                                h2,
                                code,
                                src_ip,
                                src_port,
                                dst_ip,
                                dst_port,
                            );
                        assert(0 <= j < i + 1 && self.entries@[j].handle == h2
                            && spec_multicast_match(h2, code, src_ip, src_port, dst_ip, dst_port));
                    } else {
                        let k = choose|k: int| 0 <= k < r@.len() && r@[k] == h2;
                        assert(h2 == h);
                        assert(self.entries@[i as int].handle == h2);
                    }
                }
                assert forall|h2: SocketHandle|
                    exists|j: int|
                        0 <= j < i + 1 && (#[trigger] self.entries@[j]).handle == h2
                            && spec_multicast_match(
                            h2,
                            code,
                            src_ip,
                            src_port,
                            dst_ip,
                            dst_port,
                        ) implies r@.contains(h2) by {
                    let j = choose|j: int|
                        0 <= j < i + 1 && (#[trigger] self.entries@[j]).handle == h2
                            && spec_multicast_match(h2, code, src_ip, src_port, dst_ip, dst_port);
                    if j < i {
                        assert(r0.contains(h2));
                        let k = choose|k: int| 0 <= k < r0.len() && r0[k] == h2;
                        assert(r@[k] == h2);
                    } else {
                        assert(h2 == h);
                        assert(r@[r@.len() - 1] == h2);
                    }
                }
            }
            i = i + 1;
        }
        proof {
            assert forall|h: SocketHandle| r@.contains(h) implies (#[trigger] self@.contains_key(h)
                && spec_multicast_match(h, code, src_ip, src_port, dst_ip, dst_port)) by {
                let j = choose|j: int|
                    0 <= j < self.entries@.len() && (#[trigger] self.entries@[j]).handle == h
                        && spec_multicast_match(h, code, src_ip, src_port, dst_ip, dst_port);
            }
            assert forall|h: SocketHandle|
                #[trigger] self@.contains_key(h) && spec_multicast_match(
                    h,
                    code,
                    src_ip,
                    src_port,
                    dst_ip,
                    dst_port,
                ) implies r@.contains(h) by {
                let j = choose|j: int|
                    0 <= j < self.entries@.len() && (#[trigger] self.entries@[j]).handle == h;
            }
        }
        r
    }

    /// Queues an arrived datagram on the socket registered under `handle`;
    /// nothing changes if the handle is unknown or its receive FIFO full.
    pub fn rx_enqueue_at(
        &mut self,
        handle: SocketHandle,
        src_ip: Ipv4Addr,
        src_port: u16,
        payload: &[u8],
    )
        requires
            old(self).wf(),
        ensures
            final(self).wf(),
            final(self).key_order() == old(self).key_order(),
            old(self)@.contains_key(handle) ==> final(self)@ == old(self)@.insert(
                handle,
                spec_rx_enqueued(old(self)@[handle], (src_ip, src_port, payload@)),
            ),
            !old(self)@.contains_key(handle) ==> final(self)@ == old(self)@,
    {
        let ghost s0 = self.entries@;
        proof {
            lemma_set_map_characterization(s0);
        }
        match self.position(handle) {
            Some(i) => {
                match &mut self.entries[i].socket {
                    Socket::Udp(u) => {
                        u.rx_enqueue(src_ip, src_port, payload);
                    },
                }
                proof {
                    lemma_set_map_update(s0, self.entries@, i as int, self.entries@[i as int]);
                    assert(self.entries@.map_values(|e: SetEntry| e.handle) =~= s0.map_values(
                        |e: SetEntry| e.handle,
                    ));
                }
            },
            None => {},
        }
    }

    /// Queues an outbound datagram on the socket registered under `handle`;
    /// nothing changes if the handle is unknown or its transmit FIFO full.
    pub fn tx_enqueue_at(
        &mut self,
        handle: SocketHandle,
        payload: &[u8],
        dst_ip: Ipv4Addr,
        dst_port: u16,
    ) -> (found: bool)
        requires
            old(self).wf(),
        ensures
            final(self).wf(),
            final(self).key_order() == old(self).key_order(),
            found == old(self)@.contains_key(handle),
            old(self)@.contains_key(handle) ==> final(self)@ == old(self)@.insert(
                handle,
                spec_tx_enqueued(old(self)@[handle], (dst_ip, dst_port, payload@)),
            ),
            !old(self)@.contains_key(handle) ==> final(self)@ == old(self)@,
    {
        let ghost s0 = self.entries@;
        proof {
            lemma_set_map_characterization(s0);
        }
        match self.position(handle) {
            Some(i) => {
                match &mut self.entries[i].socket {
                    Socket::Udp(u) => {
                        u.send_to(payload, dst_ip, dst_port);
                    },
                }
                proof {
                    lemma_set_map_update(s0, self.entries@, i as int, self.entries@[i as int]);
                    assert(self.entries@.map_values(|e: SetEntry| e.handle) =~= s0.map_values(
                        |e: SetEntry| e.handle,
                    ));
                }
                true
            },
            None => false,
        }
    }

    /// Takes the oldest received datagram of the socket under `handle`.
    /// The outer result says whether the handle is registered; the inner
    /// option whether a datagram was waiting.
    pub fn recv_at(&mut self, handle: SocketHandle) -> (r: Option<Option<UdpMessage>>)
        requires
            old(self).wf(),
        ensures
            final(self).wf(),
            final(self).key_order() == old(self).key_order(),
            !old(self)@.contains_key(handle) ==> r is None && final(self)@ == old(self)@,
            old(self)@.contains_key(handle) && old(self)@[handle].rx.len() == 0 ==> r == Some(
                None::<UdpMessage>,
            ) && final(self)@ == old(self)@,
            old(self)@.contains_key(handle) && old(self)@[handle].rx.len() > 0 ==> (
            r matches Some(Some(m)) && msg_view(m) == old(self)@[handle].rx[0] && final(self)@
                == old(self)@.insert(
                handle,
                SocketModel { rx: old(self)@[handle].rx.drop_first(), ..old(self)@[handle] },
            )),
    {
        let ghost s0 = self.entries@;
        proof {
            lemma_set_map_characterization(s0);
        }
        match self.position(handle) {
            Some(i) => {
                let m = match &mut self.entries[i].socket {
                    Socket::Udp(u) => u.recv(),
                };
                proof {
                    lemma_set_map_update(s0, self.entries@, i as int, self.entries@[i as int]);
                    assert(self.entries@.map_values(|e: SetEntry| e.handle) =~= s0.map_values(
                        |e: SetEntry| e.handle,
                    ));
                    if old(self)@[handle].rx.len() == 0 {
                        assert(set_map(self.entries@) =~= set_map(s0));
                    }
                }
                Some(m)
            },
            None => None,
        }
    }

    /// Takes the oldest outbound datagram of the socket under `handle`.
    /// The outer result says whether the handle is registered; the inner
    /// option whether a datagram was waiting.
    pub fn poll_transmit_at(&mut self, handle: SocketHandle) -> (r: Option<Option<UdpMessage>>)
        requires
            old(self).wf(),
        ensures
            final(self).wf(),
            final(self).key_order() == old(self).key_order(),
            !old(self)@.contains_key(handle) ==> r is None && final(self)@ == old(self)@,
            old(self)@.contains_key(handle) && old(self)@[handle].tx.len() == 0 ==> r == Some(
                None::<UdpMessage>,
            ) && final(self)@ == old(self)@,
            old(self)@.contains_key(handle) && old(self)@[handle].tx.len() > 0 ==> (
            r matches Some(Some(m)) && msg_view(m) == old(self)@[handle].tx[0] && final(self)@
                == old(self)@.insert(
                handle,
                SocketModel { tx: old(self)@[handle].tx.drop_first(), ..old(self)@[handle] },
            )),
    {
        let ghost s0 = self.entries@;
        proof {
            lemma_set_map_characterization(s0);
        }
        match self.position(handle) {
            Some(i) => {
                let m = match &mut self.entries[i].socket {
                    Socket::Udp(u) => u.poll_transmit(),
                };
                proof {
                    lemma_set_map_update(s0, self.entries@, i as int, self.entries@[i as int]);
                    assert(self.entries@.map_values(|e: SetEntry| e.handle) =~= s0.map_values(
                        |e: SetEntry| e.handle,
                    ));
                    if old(self)@[handle].tx.len() == 0 {
                        assert(set_map(self.entries@) =~= set_map(s0));
                    }
                }
                Some(m)
            },
            None => None,
        }
    }
}

} // verus!
