//! Textual address forms: dotted-decimal IPv4, colon- or dash-separated
//! hex MAC addresses, and `IP:PORT` socket addresses.

use vstd::prelude::*;
use vstd::string::StringSliceAdditionalSpecFns;
use crate::addr::{Ipv4Addr, MacAddr};
use crate::error::{AddrParseError, Ipv4ParseError, MacParseError};

verus! {

pub open spec fn is_ascii_digit(c: u8) -> bool {
    48 <= c <= 57
}

/// The value of a run of decimal digit characters.
pub open spec fn digits_val(t: Seq<u8>) -> int
    decreases t.len(),
{
    if t.len() == 0 {
        0
    } else {
        digits_val(t.drop_last()) * 10 + (t.last() - 48)
    }
}

/// The first index at or after `i` holding no decimal digit.
pub open spec fn digit_run_end(t: Seq<u8>, i: int) -> int
    decreases t.len() - i,
        when 0 <= i <= t.len()
{
    if i < t.len() && is_ascii_digit(t[i]) {
        digit_run_end(t, i + 1)
    } else {
        i
    }
}

pub open spec fn is_hex_digit(c: u8) -> bool {
    (48 <= c <= 57) || (97 <= c <= 102) || (65 <= c <= 70)
}

/// The value of one hexadecimal digit character.
pub open spec fn hex_digit_val(c: u8) -> int {
    if 48 <= c <= 57 {
        c - 48
    } else if 97 <= c <= 102 {
        c - 87
    } else {
        c - 55
    }
}

/// The value of a run of hexadecimal digit characters.
pub open spec fn hex_val(t: Seq<u8>) -> int
    decreases t.len(),
{
    if t.len() == 0 {
        0
    } else {
        hex_val(t.drop_last()) * 16 + hex_digit_val(t.last())
    }
}

/// The first index at or after `i` holding no hexadecimal digit.
pub open spec fn hex_run_end(t: Seq<u8>, i: int) -> int
    decreases t.len() - i,
        when 0 <= i <= t.len()
{
    if i < t.len() && is_hex_digit(t[i]) {
        hex_run_end(t, i + 1)
    } else {
        i
    }
}

/// A decimal octet starting at `i`: its value and the index after it, or
/// nothing if no digit starts there or the value exceeds 255.
pub open spec fn spec_octet_at(t: Seq<u8>, i: int) -> Option<(u8, int)> {
    let e = digit_run_end(t, i);
    if e > i && digits_val(t.subrange(i, e)) <= 255 {
        Some((digits_val(t.subrange(i, e)) as u8, e))
    } else {
        None
    }
}

/// Does a digit run start at `i`? Distinguishes a malformed string from an
/// octet out of range.
pub open spec fn spec_octet_starts(t: Seq<u8>, i: int) -> bool {
    digit_run_end(t, i) > i
}

/// The dotted-decimal grammar `a.b.c.d`: four digit runs of value at most
/// 255, separated by single dots, covering the whole string. A structural
/// fault is `InvalidFormat`; an octet out of range is `InvalidOctet`.
pub open spec fn spec_parse_ipv4_str(s: Seq<u8>) -> Result<Ipv4Addr, Ipv4ParseError> {
    let e0 = digit_run_end(s, 0);
    if e0 == 0 {
        Err(Ipv4ParseError::InvalidFormat)
    } else if digits_val(s.subrange(0, e0)) > 255 {
        Err(Ipv4ParseError::InvalidOctet)
    } else if !(e0 < s.len() && s[e0] == 46) {
        Err(Ipv4ParseError::InvalidFormat)
    } else {
        let e1 = digit_run_end(s, e0 + 1);
        if e1 == e0 + 1 {
            Err(Ipv4ParseError::InvalidFormat)
        } else if digits_val(s.subrange(e0 + 1, e1)) > 255 {
            Err(Ipv4ParseError::InvalidOctet)
        } else if !(e1 < s.len() && s[e1] == 46) {
            Err(Ipv4ParseError::InvalidFormat)
        } else {
            let e2 = digit_run_end(s, e1 + 1);
            if e2 == e1 + 1 {
                Err(Ipv4ParseError::InvalidFormat)
            } else if digits_val(s.subrange(e1 + 1, e2)) > 255 {
                Err(Ipv4ParseError::InvalidOctet)
            } else if !(e2 < s.len() && s[e2] == 46) {
                Err(Ipv4ParseError::InvalidFormat)
            } else {
                let e3 = digit_run_end(s, e2 + 1);
                if e3 == e2 + 1 || e3 != s.len() {
                    Err(Ipv4ParseError::InvalidFormat)
                } else if digits_val(s.subrange(e2 + 1, e3)) > 255 {
                    Err(Ipv4ParseError::InvalidOctet)
                } else {
                    Ok(
                        Ipv4Addr {
                            o0: digits_val(s.subrange(0, e0)) as u8,
                            o1: digits_val(s.subrange(e0 + 1, e1)) as u8,
                            o2: digits_val(s.subrange(e1 + 1, e2)) as u8,
                            o3: digits_val(s.subrange(e2 + 1, e3)) as u8,
                        },
                    )
                }
            }
        }
    }
}

/// Scans one decimal octet: the parsed value with the index after its
/// digits, or nothing on a missing run or a value over 255; also says
/// whether a run was present at all.
fn scan_octet(bytes: &[u8], start: usize) -> (r: (Option<(u8, usize)>, bool))
    requires
        start <= bytes@.len(),
    ensures
        ({
            let e = digit_run_end(bytes@, start as int);
            &&& start <= e <= bytes@.len()
            &&& r.1 == spec_octet_starts(bytes@, start as int)
            &&& match spec_octet_at(bytes@, start as int) {
                Some((v, ee)) => r.0 matches Some(p) && p.0 == v && p.1 == ee,
                None => r.0 is None,
            }
        }),
{
    let mut i: usize = start;
    let mut acc: u32 = 0;
    while i < bytes.len() && 48 <= bytes[i] && bytes[i] <= 57
        invariant
            start <= i <= bytes@.len(),
            digit_run_end(bytes@, start as int) == digit_run_end(bytes@, i as int),
            forall|j: int| start <= j < i ==> is_ascii_digit(bytes@[j]),
            digits_val(bytes@.subrange(start as int, i as int)) <= 255 ==> acc == digits_val(
                bytes@.subrange(start as int, i as int),
            ),
            digits_val(bytes@.subrange(start as int, i as int)) > 255 ==> acc > 255,
            acc <= 2559,
        decreases bytes@.len() - i,
    {
        let d = bytes[i];
        proof {
            let prefix = bytes@.subrange(start as int, i as int);
            let next = bytes@.subrange(start as int, i + 1 as int);
            assert(next.drop_last() =~= prefix);
            assert(next.last() == bytes@[i as int]);
        }
        if acc <= 255 {
            acc = acc * 10 + ((d - 48) as u32);
        }
        i = i + 1;
    }
    proof {
        assert(digit_run_end(bytes@, i as int) == i);
        assert(digit_run_end(bytes@, start as int) == i);
    }
    if i == start {
        return (None, false);
    }
    if acc > 255 {
        return (None, true);
    }
    (Some(((acc as u8), i)), true)
}

impl Ipv4Addr {
    /// Reads a dotted-decimal address `a.b.c.d`.
    pub fn from_str(s: &str) -> (r: Result<Ipv4Addr, Ipv4ParseError>)
        ensures
            r == spec_parse_ipv4_str(s.spec_bytes()),
    {
        parse_ipv4_bytes(s.as_bytes())
    }
}

/// Reads a dotted-decimal address from its raw bytes.
pub fn parse_ipv4_bytes(bytes: &[u8]) -> (r: Result<Ipv4Addr, Ipv4ParseError>)
    ensures
        r == spec_parse_ipv4_str(bytes@),
{
    let (first, started) = scan_octet(bytes, 0);
    let (v0, e0) = match first {
        Some(p) => p,
        None => {
            if started {
                return Err(Ipv4ParseError::InvalidOctet);
            }
            return Err(Ipv4ParseError::InvalidFormat);
        },
    };
    if !(e0 < bytes.len() && bytes[e0] == 46) {
        return Err(Ipv4ParseError::InvalidFormat);
    }
    let (second, started1) = scan_octet(bytes, e0 + 1);
    let (v1, e1) = match second {
        Some(p) => p,
        None => {
            if started1 {
                return Err(Ipv4ParseError::InvalidOctet);
            }
            return Err(Ipv4ParseError::InvalidFormat);
        },
    };
    if !(e1 < bytes.len() && bytes[e1] == 46) {
        return Err(Ipv4ParseError::InvalidFormat);
    }
    let (third, started2) = scan_octet(bytes, e1 + 1);
    let (v2, e2) = match third {
        Some(p) => p,
        None => {
            if started2 {
                return Err(Ipv4ParseError::InvalidOctet);
            }
            return Err(Ipv4ParseError::InvalidFormat);
        },
    };
    if !(e2 < bytes.len() && bytes[e2] == 46) {
        return Err(Ipv4ParseError::InvalidFormat);
    }
    let (fourth, started3) = scan_octet(bytes, e2 + 1);
    let (v3, e3) = match fourth {
        Some(p) => p,
        None => {
            if started3 {
                if digit_run_end_exec(bytes, e2 + 1) != bytes.len() {
                    return Err(Ipv4ParseError::InvalidFormat);
                }
                return Err(Ipv4ParseError::InvalidOctet);
            }
            return Err(Ipv4ParseError::InvalidFormat);
        },
    };
    if e3 != bytes.len() {
        return Err(Ipv4ParseError::InvalidFormat);
    }
    Ok(Ipv4Addr { o0: v0, o1: v1, o2: v2, o3: v3 })
}

/// The first index at or after `start` holding no decimal digit.
fn digit_run_end_exec(bytes: &[u8], start: usize) -> (r: usize)
    requires
        start <= bytes@.len(),
    ensures
        r == digit_run_end(bytes@, start as int),
{
    let mut i: usize = start;
    while i < bytes.len() && 48 <= bytes[i] && bytes[i] <= 57
        invariant
            start <= i <= bytes@.len(),
            digit_run_end(bytes@, start as int) == digit_run_end(bytes@, i as int),
        decreases bytes@.len() - i,
    {
        i = i + 1;
    }
    i
}

/// Is `c` a MAC octet separator: a colon or a dash?
pub open spec fn is_mac_sep(c: u8) -> bool {
    c == 58 || c == 45
}

/// A hexadecimal octet starting at `i`: its value and the index after it,
/// or nothing if no hex digit starts there or the value exceeds 255.
pub open spec fn spec_hex_octet_at(t: Seq<u8>, i: int) -> Option<(u8, int)> {
    let e = hex_run_end(t, i);
    if e > i && hex_val(t.subrange(i, e)) <= 255 {
        Some((hex_val(t.subrange(i, e)) as u8, e))
    } else {
        None
    }
}

/// The values of `k` colon- or dash-separated hex octets filling `s` from
/// `i` to its end, if they are there.
pub open spec fn spec_mac_from(s: Seq<u8>, i: int, k: int) -> Option<Seq<u8>>
    decreases k,
        when k >= 1 && 0 <= i <= s.len()
{
    match spec_hex_octet_at(s, i) {
        None => None,
        Some((v, e)) => {
            if k == 1 {
                if e == s.len() {
                    Some(seq![v])
                } else {
                    None
                }
            } else if e < s.len() && is_mac_sep(s[e]) {
                match spec_mac_from(s, e + 1, k - 1) {
                    Some(rest) => Some(seq![v] + rest),
                    None => None,
                }
            } else {
                None
            }
        },
    }
}

/// The MAC grammar: six hex octets separated by `:` or `-`.
pub open spec fn spec_parse_mac_str(s: Seq<u8>) -> Result<MacAddr, MacParseError> {
    match spec_mac_from(s, 0, 6) {
        Some(v) => Ok(
            MacAddr { b0: v[0], b1: v[1], b2: v[2], b3: v[3], b4: v[4], b5: v[5] },
        ),
        None => Err(MacParseError),
    }
}

/// Scans one hexadecimal octet, like `scan_octet` but base 16.
fn scan_hex_octet(bytes: &[u8], start: usize) -> (r: Option<(u8, usize)>)
    requires
        start <= bytes@.len(),
    ensures
        start <= hex_run_end(bytes@, start as int) <= bytes@.len(),
        match spec_hex_octet_at(bytes@, start as int) {
            Some((v, e)) => r matches Some(p) && p.0 == v && p.1 == e,
            None => r is None,
        },
{
    let mut i: usize = start;
    let mut acc: u32 = 0;
    while i < bytes.len() && (48 <= bytes[i] && bytes[i] <= 57 || 97 <= bytes[i] && bytes[i] <= 102
        || 65 <= bytes[i] && bytes[i] <= 70)
        invariant
            start <= i <= bytes@.len(),
            hex_run_end(bytes@, start as int) == hex_run_end(bytes@, i as int),
            forall|j: int| start <= j < i ==> is_hex_digit(bytes@[j]),
            hex_val(bytes@.subrange(start as int, i as int)) <= 255 ==> acc == hex_val(
                bytes@.subrange(start as int, i as int),
            ),
            hex_val(bytes@.subrange(start as int, i as int)) > 255 ==> acc > 255,
            acc <= 4095,
        decreases bytes@.len() - i,
    {
        let c = bytes[i];
        let d: u32 = if 48 <= c && c <= 57 {
            (c - 48) as u32
        } else if 97 <= c && c <= 102 {
            (c - 87) as u32
        } else {
            (c - 55) as u32
        };
        proof {
            let prefix = bytes@.subrange(start as int, i as int);
            let next = bytes@.subrange(start as int, i + 1 as int);
            assert(next.drop_last() =~= prefix);
            assert(next.last() == bytes@[i as int]);
        }
        if acc <= 255 {
            acc = acc * 16 + d;
        }
        i = i + 1;
    }
    proof {
        assert(hex_run_end(bytes@, i as int) == i);
        assert(hex_run_end(bytes@, start as int) == i);
    }
    if i == start {
        return None;
    }
    if acc > 255 {
        return None;
    }
    Some(((acc as u8), i))
}

impl MacAddr {
    /// Reads a MAC address of six hex octets separated by `:` or `-`.
    pub fn from_str(s: &str) -> (r: Result<MacAddr, MacParseError>)
        ensures
            r == spec_parse_mac_str(s.spec_bytes()),
    {
        parse_mac_bytes(s.as_bytes())
    }
}

/// Reads a MAC address from its raw bytes.
pub fn parse_mac_bytes(bytes: &[u8]) -> (r: Result<MacAddr, MacParseError>)
    ensures
        r == spec_parse_mac_str(bytes@),
{
    let mut vals: [u8; 6] = [0, 0, 0, 0, 0, 0];
    let mut pos: usize = 0;
    let p0 = match scan_hex_octet(bytes, 0) {
        Some(p) => p,
        None => {
            proof {
                reveal_with_fuel(spec_mac_from, 7);
            }
            return Err(MacParseError);
        },
    };
    if !(p0.1 < bytes.len() && (bytes[p0.1] == 58 || bytes[p0.1] == 45)) {
        proof {
            reveal_with_fuel(spec_mac_from, 7);
        }
        return Err(MacParseError);
    }
    let p1 = match scan_hex_octet(bytes, p0.1 + 1) {
        Some(p) => p,
        None => {
            proof {
                reveal_with_fuel(spec_mac_from, 7);
            }
            return Err(MacParseError);
        },
    };
    if !(p1.1 < bytes.len() && (bytes[p1.1] == 58 || bytes[p1.1] == 45)) {
        proof {
            reveal_with_fuel(spec_mac_from, 7);
        }
        return Err(MacParseError);
    }
    let p2 = match scan_hex_octet(bytes, p1.1 + 1) {
        Some(p) => p,
        None => {
            proof {
                reveal_with_fuel(spec_mac_from, 7);
            }
            return Err(MacParseError);
        },
    };
    if !(p2.1 < bytes.len() && (bytes[p2.1] == 58 || bytes[p2.1] == 45)) {
        proof {
            reveal_with_fuel(spec_mac_from, 7);
        }
        return Err(MacParseError);
    }
    let p3 = match scan_hex_octet(bytes, p2.1 + 1) {
        Some(p) => p,
        None => {
            proof {
                reveal_with_fuel(spec_mac_from, 7);
            }
            return Err(MacParseError);
        },
    };
    if !(p3.1 < bytes.len() && (bytes[p3.1] == 58 || bytes[p3.1] == 45)) {
        proof {
            reveal_with_fuel(spec_mac_from, 7);
        }
        return Err(MacParseError);
    }
    let p4 = match scan_hex_octet(bytes, p3.1 + 1) {
        Some(p) => p,
        None => {
            proof {
                reveal_with_fuel(spec_mac_from, 7);
            }
            return Err(MacParseError);
        },
    };
    if !(p4.1 < bytes.len() && (bytes[p4.1] == 58 || bytes[p4.1] == 45)) {
        proof {
            reveal_with_fuel(spec_mac_from, 7);
        }
        return Err(MacParseError);
    }
    let p5 = match scan_hex_octet(bytes, p4.1 + 1) {
        Some(p) => p,
        None => {
            proof {
                reveal_with_fuel(spec_mac_from, 7);
            }
            return Err(MacParseError);
        },
    };
    if p5.1 != bytes.len() {
        proof {
            reveal_with_fuel(spec_mac_from, 7);
        }
        return Err(MacParseError);
    }
    proof {
        reveal_with_fuel(spec_mac_from, 7);
        let bs = bytes@;
        assert(spec_mac_from(bs, p4.1 + 1, 1) == Some(seq![p5.0]));
        assert(spec_mac_from(bs, p3.1 + 1, 2) == Some(seq![p4.0] + seq![p5.0]));
        assert(spec_mac_from(bs, p2.1 + 1, 3) == Some(seq![p3.0] + (seq![p4.0] + seq![p5.0])));
        assert(spec_mac_from(bs, p1.1 + 1, 4) == Some(
            seq![p2.0] + (seq![p3.0] + (seq![p4.0] + seq![p5.0])),
        ));
        assert(spec_mac_from(bs, p0.1 + 1, 5) == Some(
            seq![p1.0] + (seq![p2.0] + (seq![p3.0] + (seq![p4.0] + seq![p5.0]))),
        ));
        assert(spec_mac_from(bs, 0, 6) == Some(
            seq![p0.0] + (seq![p1.0] + (seq![p2.0] + (seq![p3.0] + (seq![p4.0] + seq![p5.0])))),
        ));
        let v = seq![p0.0] + (seq![p1.0] + (seq![p2.0] + (seq![p3.0] + (seq![p4.0] + seq![
            p5.0,
        ]))));
        assert(v[0] == p0.0 && v[1] == p1.0 && v[2] == p2.0 && v[3] == p3.0 && v[4] == p4.0 && v[5]
            == p5.0);
    }
    Ok(
        MacAddr { b0: p0.0, b1: p1.0, b2: p2.0, b3: p3.0, b4: p4.0, b5: p5.0 },
    )
}

/// The first index at or after `i` holding byte `ch`, or the length.
pub open spec fn find_byte(s: Seq<u8>, ch: u8, i: int) -> int
    decreases s.len() - i,
        when 0 <= i <= s.len()
{
    if i >= s.len() {
        s.len() as int
    } else if s[i] == ch {
        i
    } else {
        find_byte(s, ch, i + 1)
    }
}

/// The `IP:PORT` grammar: a dotted-decimal address, one colon, a decimal
/// port. Structural faults are `InvalidFormat`; a bad address part is
/// `InvalidIp`; a bad port part is `InvalidPort`.
pub open spec fn spec_parse_addr_str(s: Seq<u8>) -> Result<(Ipv4Addr, u16), AddrParseError> {
    let c = find_byte(s, 58, 0);
    if c == s.len() {
        Err(AddrParseError::InvalidFormat)
    } else if find_byte(s, 58, c + 1) != s.len() {
        Err(AddrParseError::InvalidFormat)
    } else {
        match spec_parse_ipv4_str(s.subrange(0, c)) {
            Err(_) => Err(AddrParseError::InvalidIp),
            Ok(ip) => {
                let e = digit_run_end(s, c + 1);
                if e == c + 1 || e != s.len() || digits_val(s.subrange(c + 1, e)) > 65535 {
                    Err(AddrParseError::InvalidPort)
                } else {
                    Ok((ip, digits_val(s.subrange(c + 1, e)) as u16))
                }
            },
        }
    }
}

/// Scans a decimal port number covering `start` to the end of the bytes.
fn scan_port(bytes: &[u8], start: usize) -> (r: Option<u16>)
    requires
        start <= bytes@.len(),
    ensures
        ({
            let e = digit_run_end(bytes@, start as int);
            if e == start || e != bytes@.len() || digits_val(
                bytes@.subrange(start as int, e),
            ) > 65535 {
                r is None
            } else {
                r == Some(digits_val(bytes@.subrange(start as int, e)) as u16)
            }
        }),
{
    let mut i: usize = start;
    let mut acc: u32 = 0;
    while i < bytes.len() && 48 <= bytes[i] && bytes[i] <= 57
        invariant
            start <= i <= bytes@.len(),
            digit_run_end(bytes@, start as int) == digit_run_end(bytes@, i as int),
            digits_val(bytes@.subrange(start as int, i as int)) <= 65535 ==> acc == digits_val(
                bytes@.subrange(start as int, i as int),
            ),
            digits_val(bytes@.subrange(start as int, i as int)) > 65535 ==> acc > 65535,
            acc <= 655359,
        decreases bytes@.len() - i,
    {
        let d = bytes[i];
        proof {
            let prefix = bytes@.subrange(start as int, i as int);
            let next = bytes@.subrange(start as int, i + 1 as int);
            assert(next.drop_last() =~= prefix);
            assert(next.last() == bytes@[i as int]);
        }
        if acc <= 65535 {
            acc = acc * 10 + ((d - 48) as u32);
        }
        i = i + 1;
    }
    proof {
        assert(digit_run_end(bytes@, i as int) == i);
        assert(digit_run_end(bytes@, start as int) == i);
    }
    if i == start || i != bytes.len() || acc > 65535 {
        return None;
    }
    Some(acc as u16)
}

/// Reads an `IP:PORT` socket address string.
pub fn parse_addr(addr: &str) -> (r: Result<(Ipv4Addr, u16), AddrParseError>)
    ensures
        r == spec_parse_addr_str(addr.spec_bytes()),
{
    let bytes = addr.as_bytes();
    let mut c: usize = 0;
    while c < bytes.len() && bytes[c] != 58
        invariant
            c <= bytes@.len(),
            find_byte(bytes@, 58, 0) == find_byte(bytes@, 58, c as int),
        decreases bytes@.len() - c,
    {
        c = c + 1;
    }
    proof {
        assert(find_byte(bytes@, 58, c as int) == if c < bytes@.len() {
            c as int
        } else {
            bytes@.len() as int
        });
    }
    if c == bytes.len() {
        return Err(AddrParseError::InvalidFormat);
    }
    let mut c2: usize = c + 1;
    while c2 < bytes.len() && bytes[c2] != 58
        invariant
            c + 1 <= c2 <= bytes@.len(),
            find_byte(bytes@, 58, c + 1 as int) == find_byte(bytes@, 58, c2 as int),
        decreases bytes@.len() - c2,
    {
        c2 = c2 + 1;
    }
    proof {
        assert(find_byte(bytes@, 58, c2 as int) == if c2 < bytes@.len() {
            c2 as int
        } else {
            bytes@.len() as int
        });
    }
    if c2 != bytes.len() {
        return Err(AddrParseError::InvalidFormat);
    }
    let ip = match parse_ipv4_bytes(&bytes[0..c]) {
        Ok(ip) => ip,
        Err(_) => {
            return Err(AddrParseError::InvalidIp);
        },
    };
    let port = match scan_port(bytes, c + 1) {
        Some(p) => p,
        None => {
            return Err(AddrParseError::InvalidPort);
        },
    };
    Ok((ip, port))
}

} // verus!
