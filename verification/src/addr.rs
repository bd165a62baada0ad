//! Link-layer and network-layer addresses: `MacAddr` and `Ipv4Addr`.

use vstd::prelude::*;

verus! {

/// A 48-bit Ethernet hardware address.
#[derive(Clone, Copy, Debug, PartialEq, Eq, Structural)]
pub struct MacAddr {
    pub b0: u8,
    pub b1: u8,
    pub b2: u8,
    pub b3: u8,
    pub b4: u8,
    pub b5: u8,
}

impl View for MacAddr {
    type V = Seq<u8>;

    open spec fn view(&self) -> Seq<u8> {
        seq![self.b0, self.b1, self.b2, self.b3, self.b4, self.b5]
    }
}

impl MacAddr {
    pub fn from_raw(bytes: [u8; 6]) -> (r: MacAddr)
        ensures
            r@ == bytes@,
    {
        let r = MacAddr {
            b0: bytes[0],
            b1: bytes[1],
            b2: bytes[2],
            b3: bytes[3],
            b4: bytes[4],
            b5: bytes[5],
        };
        proof {
            assert(r@ =~= bytes@);
        }
        r
    }

    pub fn from_slice(bytes: &[u8]) -> (r: MacAddr)
        requires
            bytes@.len() >= 6,
        ensures
            r@ == bytes@.subrange(0, 6),
    {
        let r = MacAddr {
            b0: bytes[0],
            b1: bytes[1],
            b2: bytes[2],
            b3: bytes[3],
            b4: bytes[4],
            b5: bytes[5],
        };
        proof {
            assert(r@ =~= bytes@.subrange(0, 6));
        }
        r
    }

    /// The all-ones broadcast address ff:ff:ff:ff:ff:ff.
    pub fn broadcast() -> (r: MacAddr)
        ensures
            r == mac_broadcast(),
    {
        MacAddr { b0: 0xFF, b1: 0xFF, b2: 0xFF, b3: 0xFF, b4: 0xFF, b5: 0xFF }
    }

    /// The all-zero address 00:00:00:00:00:00.
    pub fn zero() -> (r: MacAddr)
        ensures
            r == mac_zero(),
    {
        MacAddr { b0: 0, b1: 0, b2: 0, b3: 0, b4: 0, b5: 0 }
    }

    pub fn as_bytes(&self) -> (r: [u8; 6])
        ensures
            r@ == self@,
    {
        let r = [self.b0, self.b1, self.b2, self.b3, self.b4, self.b5];
        proof {
            assert(r@ =~= self@);
        }
        r
    }
}

pub open spec fn mac_broadcast() -> MacAddr {
    MacAddr { b0: 0xFF, b1: 0xFF, b2: 0xFF, b3: 0xFF, b4: 0xFF, b5: 0xFF }
}

pub open spec fn mac_zero() -> MacAddr {
    MacAddr { b0: 0, b1: 0, b2: 0, b3: 0, b4: 0, b5: 0 }
}

/// A 32-bit IPv4 address held as its four dotted-decimal octets.
#[derive(Clone, Copy, Debug, PartialEq, Eq, Hash, Structural)]
pub struct Ipv4Addr {
    pub o0: u8,
    pub o1: u8,
    pub o2: u8,
    pub o3: u8,
}

impl View for Ipv4Addr {
    type V = Seq<u8>;

    open spec fn view(&self) -> Seq<u8> {
        seq![self.o0, self.o1, self.o2, self.o3]
    }
}

impl Ipv4Addr {
    pub fn new(a: u8, b: u8, c: u8, d: u8) -> (r: Ipv4Addr)
        ensures
            r == (Ipv4Addr { o0: a, o1: b, o2: c, o3: d }),
    {
        Ipv4Addr { o0: a, o1: b, o2: c, o3: d }
    }

    pub fn from_octets(octets: [u8; 4]) -> (r: Ipv4Addr)
        ensures
            r@ == octets@,
    {
        let r = Ipv4Addr { o0: octets[0], o1: octets[1], o2: octets[2], o3: octets[3] };
        proof {
            assert(r@ =~= octets@);
        }
        r
    }

    pub fn octets(&self) -> (r: [u8; 4])
        ensures
            r@ == self@,
    {
        let r = [self.o0, self.o1, self.o2, self.o3];
        proof {
            assert(r@ =~= self@);
        }
        r
    }

    /// The limited-broadcast address 255.255.255.255.
    pub fn broadcast() -> (r: Ipv4Addr)
        ensures
            r == ip_broadcast(),
    {
        Ipv4Addr { o0: 255, o1: 255, o2: 255, o3: 255 }
    }

    /// The unspecified address 0.0.0.0, meaning "any" in socket binds.
    pub fn unspecified() -> (r: Ipv4Addr)
        ensures
            r == ip_unspecified(),
    {
        Ipv4Addr { o0: 0, o1: 0, o2: 0, o3: 0 }
    }

    /// The loopback address 127.0.0.1.
    pub fn localhost() -> (r: Ipv4Addr)
        ensures
            r == (Ipv4Addr { o0: 127, o1: 0, o2: 0, o3: 1 }),
    {
        Ipv4Addr { o0: 127, o1: 0, o2: 0, o3: 1 }
    }

    pub fn is_broadcast(&self) -> (r: bool)
        ensures
            r == (*self == ip_broadcast()),
    {
        self.o0 == 255 && self.o1 == 255 && self.o2 == 255 && self.o3 == 255
    }

    /// True for the class-D multicast range: first octet 224 through 239.
    pub fn is_multicast(&self) -> (r: bool)
        ensures
            r == ip_is_multicast(*self),
    {
        224 <= self.o0 && self.o0 <= 239
    }
}

pub open spec fn ip_broadcast() -> Ipv4Addr {
    Ipv4Addr { o0: 255, o1: 255, o2: 255, o3: 255 }
}

pub open spec fn ip_unspecified() -> Ipv4Addr {
    Ipv4Addr { o0: 0, o1: 0, o2: 0, o3: 0 }
}

pub open spec fn ip_is_multicast(ip: Ipv4Addr) -> bool {
    224 <= ip.o0 <= 239
}

/// The MAC address held at bytes `off .. off + 6` of `b`.
pub open spec fn spec_mac_at(b: Seq<u8>, off: int) -> MacAddr {
    MacAddr {
        b0: b[off],
        b1: b[off + 1],
        b2: b[off + 2],
        b3: b[off + 3],
        b4: b[off + 4],
        b5: b[off + 5],
    }
}

/// The IPv4 address held at bytes `off .. off + 4` of `b`.
pub open spec fn spec_ipv4_at(b: Seq<u8>, off: int) -> Ipv4Addr {
    Ipv4Addr { o0: b[off], o1: b[off + 1], o2: b[off + 2], o3: b[off + 3] }
}

} // verus!
