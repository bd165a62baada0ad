//! Error kinds surfaced by the codecs and by the address and configuration
//! parsers.

use vstd::prelude::*;

verus! {

#[derive(Clone, Copy, Debug, PartialEq, Eq, Structural)]
pub enum EthernetParseError {
    PacketTooShort,
}

#[derive(Clone, Copy, Debug, PartialEq, Eq, Structural)]
pub enum ArpParseError {
    InvalidArpFixedLength,
    InvalidArpHardwareLength,
    InvalidArpProtocolLength,
}

#[derive(Clone, Copy, Debug, PartialEq, Eq, Structural)]
pub enum Ipv4HeaderParseError {
    InvalidVersion,
    InvalidHeaderLength,
    InvalidFlags,
    InvalidOffset,
    InvalidTimeToLive,
    InvalidChecksum,
}

/// Failure to read an IPv4 address from dotted-decimal text.
#[derive(Clone, Copy, Debug, PartialEq, Eq, Structural)]
pub enum Ipv4ParseError {
    InvalidFormat,
    InvalidOctet,
}

#[derive(Clone, Copy, Debug, PartialEq, Eq, Structural)]
pub enum IcmpParseError {
    IcmpLengthErr,
    IcmpHeaderLengthNotMatch,
    IcmpPayloadLengthNotMatch,
    InvalidIcmpHeader,
    InvalidIcmpTime,
}

#[derive(Clone, Copy, Debug, PartialEq, Eq, Structural)]
pub enum UdpParseError {
    InvalidUdpLen,
    InvalidChecksum,
}

/// Failure to read a MAC address from six hex octets.
#[derive(Clone, Copy, Debug, PartialEq, Eq, Structural)]
pub struct MacParseError;

/// Failure to read an `IP:PORT` socket address string.
#[derive(Clone, Copy, Debug, PartialEq, Eq, Structural)]
pub enum AddrParseError {
    InvalidFormat,
    InvalidIp,
    InvalidPort,
}

/// Failure to read the `key=value` stack configuration text.
#[derive(Clone, Copy, Debug, PartialEq, Eq, Structural)]
pub enum ConfigError {
    MissingIp,
    MissingMac,
    InvalidIp,
    InvalidMac,
}

/// Failure to prepare an Ethernet payload in the sender utility.
#[derive(Clone, Copy, Debug, PartialEq, Eq, Structural)]
pub enum PayloadError {
    TooLarge,
    TooSmall,
}

/// Failure to cut a datagram into IPv4 fragments in the sender utility.
#[derive(Clone, Copy, Debug, PartialEq, Eq, Structural)]
pub enum FragmentError {
    EmptyData,
    FragmentSizeZero,
    FragmentSizeTooLarge,
    FragmentSizeUnaligned,
    DataTooLarge,
}

/// Failure returned to callers of the socket API.
#[derive(Clone, Copy, Debug, PartialEq, Eq, Structural)]
pub enum ApiError {
    SocketNotFound,
    NoData,
}

} // verus!
