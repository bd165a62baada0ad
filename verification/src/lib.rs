//! A user-space network stack over raw Ethernet frames: codecs for
//! Ethernet, ARP, IPv4, ICMP Echo and UDP; an ARP cache with a
//! pending-packet queue; a socket registry with three-tier
//! demultiplexing; and the packet engine tying them together as a pure
//! state machine over frames and clock readings. The capture utilities'
//! cores - frame assembly and inspection, IPv4 fragmentation and offline
//! reassembly - live here too.
//!
//! Device I/O, threads and the clock stay with the caller.

pub mod addr;
pub mod arp;
pub mod arp_table;
pub mod bytes;
pub mod checksum;
pub mod error;
pub mod ethernet;
pub mod fragment;
pub mod frame;
pub mod icmp;
pub mod ipv4;
pub mod pending;
pub mod reassembly;
pub mod socket;
pub mod stack;
pub mod text;
pub mod udp;
pub mod udp_socket;
