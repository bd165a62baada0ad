//! Per-socket UDP state: bounded receive and transmit FIFOs of datagram
//! messages, with tail-drop backpressure.

use vstd::prelude::*;
use vstd::slice::slice_to_vec;
use crate::addr::Ipv4Addr;

verus! {

/// Default capacity of each queue, in messages.
pub const UDP_QUEUE_CAPACITY: usize = 32;

/// A queued datagram: peer address, peer port, payload.
pub type UdpMessage = (Ipv4Addr, u16, Vec<u8>);

/// What a queued message says, with the payload as a byte sequence.
pub open spec fn msg_view(m: UdpMessage) -> (Ipv4Addr, u16, Seq<u8>) {
    (m.0, m.1, m.2@)
}

pub open spec fn msgs_view(s: Seq<UdpMessage>) -> Seq<(Ipv4Addr, u16, Seq<u8>)> {
    s.map_values(|m: UdpMessage| msg_view(m))
}

/// UDP socket state: a bounded receive FIFO filled by the demultiplexer and
/// a bounded transmit FIFO drained by the event loop. Message boundaries
/// are kept; a message arriving at a full queue is dropped.
#[derive(Debug)]
pub struct UdpSocketState {
    rx_queue: Vec<UdpMessage>,
    rx_capacity: usize,
    tx_queue: Vec<UdpMessage>,
    tx_capacity: usize,
}

impl UdpSocketState {
    /// The receive FIFO, oldest first.
    pub closed spec fn rx(&self) -> Seq<(Ipv4Addr, u16, Seq<u8>)> {
        msgs_view(self.rx_queue@)
    }

    /// The transmit FIFO, oldest first.
    pub closed spec fn tx(&self) -> Seq<(Ipv4Addr, u16, Seq<u8>)> {
        msgs_view(self.tx_queue@)
    }

    pub closed spec fn rx_cap(&self) -> usize {
        self.rx_capacity
    }

    pub closed spec fn tx_cap(&self) -> usize {
        self.tx_capacity
    }

    /// The queue-bound invariant: neither FIFO ever exceeds its capacity.
    pub open spec fn bounded(&self) -> bool {
        self.rx().len() <= self.rx_cap() && self.tx().len() <= self.tx_cap()
    }

    pub fn new() -> (r: UdpSocketState)
        ensures
            r.rx() == Seq::<(Ipv4Addr, u16, Seq<u8>)>::empty(),
            r.tx() == Seq::<(Ipv4Addr, u16, Seq<u8>)>::empty(),
            r.rx_cap() == UDP_QUEUE_CAPACITY,
            r.tx_cap() == UDP_QUEUE_CAPACITY,
            r.bounded(),
    {
        let r = UdpSocketState {
            rx_queue: Vec::new(),
            rx_capacity: UDP_QUEUE_CAPACITY,
            tx_queue: Vec::new(),
            tx_capacity: UDP_QUEUE_CAPACITY,
        };
        proof {
            assert(r.rx() =~= Seq::<(Ipv4Addr, u16, Seq<u8>)>::empty());
            assert(r.tx() =~= Seq::<(Ipv4Addr, u16, Seq<u8>)>::empty());
        }
        r
    }

    pub fn set_rx_capacity(&mut self, capacity: usize)
        ensures
            final(self).rx_cap() == capacity,
            final(self).rx() == old(self).rx(),
            final(self).tx() == old(self).tx(),
            final(self).tx_cap() == old(self).tx_cap(),
    {
        self.rx_capacity = capacity;
    }

    pub fn set_tx_capacity(&mut self, capacity: usize)
        ensures
            final(self).tx_cap() == capacity,
            final(self).rx() == old(self).rx(),
            final(self).tx() == old(self).tx(),
            final(self).rx_cap() == old(self).rx_cap(),
    {
        self.tx_capacity = capacity;
    }

    /// Queues an arrived datagram for `recv`; a full queue drops it.
    pub fn rx_enqueue(&mut self, src_ip: Ipv4Addr, src_port: u16, payload: &[u8])
        ensures
            old(self).rx().len() < old(self).rx_cap() ==> final(self).rx() == old(self).rx().push(
                (src_ip, src_port, payload@),
            ),
            old(self).rx().len() >= old(self).rx_cap() ==> final(self).rx() == old(self).rx(),
            final(self).tx() == old(self).tx(),
            final(self).rx_cap() == old(self).rx_cap(),
            final(self).tx_cap() == old(self).tx_cap(),
            old(self).bounded() ==> final(self).bounded(),
    {
        if self.rx_queue.len() < self.rx_capacity {
            self.rx_queue.push((src_ip, src_port, slice_to_vec(payload)));
            proof {
                assert(self.rx() =~= old(self).rx().push((src_ip, src_port, payload@)));
            }
        }
    }

    /// Takes the oldest received datagram, if any.
    pub fn recv(&mut self) -> (r: Option<UdpMessage>)
        ensures
            old(self).rx().len() == 0 ==> r is None && final(self).rx() == old(self).rx(),
            old(self).rx().len() > 0 ==> (r matches Some(m) && msg_view(m) == old(self).rx()[0]
                && final(self).rx() == old(self).rx().drop_first()),
            final(self).tx() == old(self).tx(),
            final(self).rx_cap() == old(self).rx_cap(),
            final(self).tx_cap() == old(self).tx_cap(),
            old(self).bounded() ==> final(self).bounded(),
    {
        if self.rx_queue.len() == 0 {
            return None;
        }
        let m = self.rx_queue.remove(0);
        proof {
            assert(self.rx() =~= old(self).rx().drop_first());
        }
        Some(m)
    }

    /// Is a received datagram waiting?
    pub fn can_recv(&self) -> (r: bool)
        ensures
            r == (self.rx().len() > 0),
    {
        self.rx_queue.len() > 0
    }

    /// Queues an outbound datagram for the event loop; a full queue drops
    /// it.
    pub fn send_to(&mut self, payload: &[u8], dst_ip: Ipv4Addr, dst_port: u16)
        ensures
            old(self).tx().len() < old(self).tx_cap() ==> final(self).tx() == old(self).tx().push(
                (dst_ip, dst_port, payload@),
            ),
            old(self).tx().len() >= old(self).tx_cap() ==> final(self).tx() == old(self).tx(),
            final(self).rx() == old(self).rx(),
            final(self).rx_cap() == old(self).rx_cap(),
            final(self).tx_cap() == old(self).tx_cap(),
            old(self).bounded() ==> final(self).bounded(),
    {
        if self.tx_queue.len() < self.tx_capacity {
            self.tx_queue.push((dst_ip, dst_port, slice_to_vec(payload)));
            proof {
                assert(self.tx() =~= old(self).tx().push((dst_ip, dst_port, payload@)));
            }
        }
    }

    /// Takes the oldest outbound datagram, if any.
    pub fn poll_transmit(&mut self) -> (r: Option<UdpMessage>)
        ensures
            old(self).tx().len() == 0 ==> r is None && final(self).tx() == old(self).tx(),
            old(self).tx().len() > 0 ==> (r matches Some(m) && msg_view(m) == old(self).tx()[0]
                && final(self).tx() == old(self).tx().drop_first()),
            final(self).rx() == old(self).rx(),
            final(self).rx_cap() == old(self).rx_cap(),
            final(self).tx_cap() == old(self).tx_cap(),
            old(self).bounded() ==> final(self).bounded(),
    {
        if self.tx_queue.len() == 0 {
            return None;
        }
        let m = self.tx_queue.remove(0);
        proof {
            assert(self.tx() =~= old(self).tx().drop_first());
        }
        Some(m)
    }
}

/// The ordering law for a single socket's queues: with arrivals `s` already
/// waiting, two more arrivals `a` then `b` are handed out after all of `s`,
/// `a` first, `b` second.
pub proof fn lemma_queue_fifo_order(s: Seq<(Ipv4Addr, u16, Seq<u8>)>, a: (Ipv4Addr, u16, Seq<u8>), b: (
    Ipv4Addr,
    u16,
    Seq<u8>,
))
    ensures
        s.push(a).push(b)[s.len() as int] == a,
        s.push(a).push(b)[s.len() as int + 1] == b,
        forall|i: int| 0 <= i < s.len() ==> s.push(a).push(b)[i] == s[i],
        s.push(a).push(b).skip(s.len() as int) == seq![a, b],
{
    assert(s.push(a).push(b).skip(s.len() as int) =~= seq![a, b]);
}

} // verus!
