//! The 16-bit Internet checksum (RFC 1071 style) used by IPv4, ICMP and UDP,
//! and the reflected CRC-32 used as an Ethernet frame check sequence.

use vstd::prelude::*;
use vstd::arithmetic::div_mod::{lemma_mod_multiples_vanish, lemma_mod_bound};

verus! {

/// The 16-bit big-endian word starting at byte `2 * i`; a final odd byte is
/// the high byte of a word whose low byte is zero.
pub open spec fn word_at(b: Seq<u8>, i: int) -> int {
    if 2 * i + 1 < b.len() {
        b[2 * i] * 256 + b[2 * i + 1]
    } else if 2 * i < b.len() {
        b[2 * i] * 256
    } else {
        0
    }
}

/// Number of 16-bit words covering `b`, counting a final odd byte as a word.
pub open spec fn num_words(b: Seq<u8>) -> int {
    (b.len() + 1) as int / 2
}

/// Sum of the first `k` big-endian words of `b`.
pub open spec fn sum_first_words(b: Seq<u8>, k: int) -> int
    decreases k,
{
    if k <= 0 {
        0
    } else {
        sum_first_words(b, k - 1) + word_at(b, k - 1)
    }
}

/// Plain sum of all 16-bit words of `b`, before any carry folding.
pub open spec fn sum_words(b: Seq<u8>) -> int {
    sum_first_words(b, num_words(b))
}

/// One's-complement carry folding: add the high half into the low half until
/// the value fits in 16 bits.
pub open spec fn fold_carries(s: int) -> int
    decreases s,
        when s >= 0
        via fold_carries_decreases
{
    if s < 0x10000 {
        s
    } else {
        fold_carries(s % 0x10000 + s / 0x10000)
    }
}

#[via_fn]
proof fn fold_carries_decreases(s: int) {
    if s >= 0x10000 {
        lemma_fold_step_shrinks(s);
    }
}

proof fn lemma_fold_step_shrinks(s: int)
    requires
        s >= 0x10000,
    ensures
        0 <= s % 0x10000 + s / 0x10000 < s,
{
    let q = s / 0x10000;
    let r = s % 0x10000;
    assert(s == 0x10000 * q + r) by {
        vstd::arithmetic::div_mod::lemma_fundamental_div_mod(s, 0x10000);
    }
    assert(0 <= r < 0x10000) by {
        lemma_mod_bound(s, 0x10000);
    }
    assert(q >= 1) by (nonlinear_arith)
        requires s >= 0x10000 && s == 0x10000 * q + r && r < 0x10000;
    assert(q < 0x10000 * q) by (nonlinear_arith)
        requires q >= 1;
}

/// The Internet checksum of `b`: the one's complement of the folded word sum.
pub open spec fn internet_checksum(b: Seq<u8>) -> int {
    0xFFFF - fold_carries(sum_words(b))
}

proof fn lemma_sum_first_words_bounds(b: Seq<u8>, k: int)
    requires
        0 <= k,
    ensures
        0 <= sum_first_words(b, k) <= 0xFFFF * k,
    decreases k,
{
    if k > 0 {
        lemma_sum_first_words_bounds(b, k - 1);
        assert(0 <= word_at(b, k - 1) <= 0xFFFF);
        assert(0xFFFF * (k - 1) + 0xFFFF == 0xFFFF * k) by (nonlinear_arith);
    }
}

/// Computes the Internet checksum over `header`: the one's complement of the
/// carry-folded sum of big-endian 16-bit words, a final odd byte standing as
/// the high byte of a last word.
pub fn simple_checksum(header: &[u8]) -> (r: u16)
    requires
        header@.len() <= u32::MAX,
    ensures
        r == internet_checksum(header@),
{
    let len = header.len();
    let mut sum: u64 = 0;
    let mut i: usize = 0;
    while i + 1 < len
        invariant
            i % 2 == 0,
            i <= len,
            len == header@.len() <= u32::MAX,
            sum == sum_first_words(header@, i as int / 2),
            sum <= 0xFFFF * (i as int / 2),
        decreases len - i,
    {
        let word: u64 = (header[i] as u64) * 256 + (header[i + 1] as u64);
        proof {
            assert(word_at(header@, i as int / 2) == word);
            assert((i + 2) as int / 2 == i as int / 2 + 1);
        }
        sum = sum + word;
        i = i + 2;
    }
    if i < len {
        proof {
            assert(word_at(header@, i as int / 2) == header@[i as int] * 256);
            assert(num_words(header@) == i as int / 2 + 1);
        }
        sum = sum + (header[i] as u64) * 256;
    } else {
        proof {
            assert(i == len);
            assert(num_words(header@) == i as int / 2);
        }
    }
    proof {
        assert(sum == sum_words(header@));
        lemma_sum_first_words_bounds(header@, num_words(header@));
    }
    while sum >= 0x10000
        invariant
            sum >= 0,
            fold_carries(sum as int) == fold_carries(sum_words(header@)),
        decreases sum,
    {
        proof {
            lemma_fold_step_shrinks(sum as int);
        }
        sum = sum % 0x10000 + sum / 0x10000;
    }
    0xFFFFu16 - (sum as u16)
}

/// The Internet checksum over an IPv4 header region; the name the sender
/// utility uses for the same computation.
pub fn ipv4_checksum(header: &[u8]) -> (r: u16)
    requires
        header@.len() <= u32::MAX,
    ensures
        r == internet_checksum(header@),
{
    simple_checksum(header)
}

proof fn lemma_fold_carries_range(s: int)
    requires
        s >= 0,
    ensures
        0 <= fold_carries(s) <= 0xFFFF,
    decreases s,
{
    if s >= 0x10000 {
        lemma_fold_step_shrinks(s);
        lemma_fold_carries_range(s % 0x10000 + s / 0x10000);
    }
}

proof fn lemma_fold_carries_mod(s: int)
    requires
        s >= 0,
    ensures
        fold_carries(s) % 0xFFFF == s % 0xFFFF,
    decreases s,
{
    if s >= 0x10000 {
        let q = s / 0x10000;
        let r = s % 0x10000;
        assert(s == 0x10000 * q + r) by {
            vstd::arithmetic::div_mod::lemma_fundamental_div_mod(s, 0x10000);
        }
        lemma_fold_step_shrinks(s);
        lemma_fold_carries_mod(q + r);
        assert(s == 0xFFFF * q + (q + r));
        assert((0xFFFF * q + (q + r)) % 0xFFFF == (q + r) % 0xFFFF) by {
            lemma_mod_multiples_vanish(q, q + r, 0xFFFF);
        }
    }
}

proof fn lemma_fold_carries_pos(s: int)
    requires
        s > 0,
    ensures
        fold_carries(s) > 0,
    decreases s,
{
    if s >= 0x10000 {
        lemma_fold_step_shrinks(s);
        assert(s / 0x10000 >= 1) by (nonlinear_arith)
            requires s >= 0x10000;
        lemma_fold_carries_pos(s % 0x10000 + s / 0x10000);
    }
}

/// Two byte strings of one length whose words agree everywhere but at index
/// `j` have word sums that differ exactly by the words at `j`.
proof fn lemma_sum_first_words_differ_one(b0: Seq<u8>, b1: Seq<u8>, j: int, k: int)
    requires
        b0.len() == b1.len(),
        0 <= j,
        0 <= k,
        forall|i: int| 0 <= i && i != j ==> word_at(b0, i) == word_at(b1, i),
    ensures
        k <= j ==> sum_first_words(b1, k) == sum_first_words(b0, k),
        k > j ==> sum_first_words(b1, k) == sum_first_words(b0, k) + word_at(b1, j) - word_at(
            b0,
            j,
        ),
    decreases k,
{
    if k > 0 {
        lemma_sum_first_words_differ_one(b0, b1, j, k - 1);
    }
}

/// The checksum-verification law: if a region's checksum field holds the
/// Internet checksum computed with that field zeroed, then the checksum of
/// the full region is 0.
///
/// `b0` is the region with zeros at the 16-bit field starting at byte `2 * j`;
/// `b1` is the same region with the computed checksum written there.
pub proof fn lemma_checksum_verifies(b0: Seq<u8>, b1: Seq<u8>, j: int)
    requires
        b0.len() == b1.len(),
        0 <= j,
        2 * j + 1 < b0.len(),
        b0[2 * j] == 0,
        b0[2 * j + 1] == 0,
        b1[2 * j] == internet_checksum(b0) / 256,
        b1[2 * j + 1] == internet_checksum(b0) % 256,
        forall|i: int| 0 <= i < b0.len() && i != 2 * j && i != 2 * j + 1 ==> b0[i] == b1[i],
    ensures
        internet_checksum(b1) == 0,
{
    let s0 = sum_words(b0);
    lemma_sum_first_words_bounds(b0, num_words(b0));
    lemma_fold_carries_range(s0);
    let c = 0xFFFF - fold_carries(s0);
    assert(0 <= c <= 0xFFFF);
    assert(c == internet_checksum(b0));
    assert(word_at(b0, j) == 0);
    assert(word_at(b1, j) == (c / 256) * 256 + c % 256);
    assert((c / 256) * 256 + c % 256 == c) by {
        vstd::arithmetic::div_mod::lemma_fundamental_div_mod(c, 256);
    }
    assert(forall|i: int| 0 <= i && i != j ==> word_at(b0, i) == word_at(b1, i));
    lemma_sum_first_words_differ_one(b0, b1, j, num_words(b1));
    assert(num_words(b0) == num_words(b1));
    let s1 = sum_words(b1);
    assert(s1 == s0 + c);
    lemma_fold_carries_mod(s0);
    lemma_fold_carries_mod(s1);
    lemma_fold_carries_range(s1);
    assert(s1 % 0xFFFF == (fold_carries(s0) + c) % 0xFFFF) by {
        lemma_mod_multiples_vanish(1, fold_carries(s0) + c, 0xFFFF);
        lemma_fold_carries_mod(s0);
        assert(s0 % 0xFFFF == fold_carries(s0) % 0xFFFF);
        assert(s1 == s0 + c);
        lemma_mod_add_congruent(s0, fold_carries(s0), c, 0xFFFF);
    }
    assert((fold_carries(s0) + c) == 0xFFFF);
    assert(s1 % 0xFFFF == 0) by {
        vstd::arithmetic::div_mod::lemma_mod_self_0(0xFFFF);
    }
    assert(fold_carries(s1) % 0xFFFF == 0);
    assert(fold_carries(s1) == 0 || fold_carries(s1) == 0xFFFF) by {
        lemma_fold_carries_range(s1);
        lemma_mod_bound(fold_carries(s1), 0xFFFF);
        if 0 < fold_carries(s1) < 0xFFFF {
            vstd::arithmetic::div_mod::lemma_small_mod(fold_carries(s1) as nat, 0xFFFF as nat);
        }
    }
    assert(s1 > 0) by {
        lemma_sum_first_words_bounds(b0, num_words(b0));
        if s0 == 0 {
            assert(fold_carries(s0) == 0);
            assert(c == 0xFFFF);
        } else {
            assert(s0 > 0);
        }
    }
    lemma_fold_carries_pos(s1);
    assert(fold_carries(s1) == 0xFFFF);
}

/// Congruence: if `a % m == b % m` then `(a + d) % m == (b + d) % m`.
proof fn lemma_mod_add_congruent(a: int, b: int, d: int, m: int)
    requires
        m > 0,
        a % m == b % m,
    ensures
        (a + d) % m == (b + d) % m,
{
    vstd::arithmetic::div_mod::lemma_fundamental_div_mod(a, m);
    vstd::arithmetic::div_mod::lemma_fundamental_div_mod(b, m);
    let qa = a / m;
    let qb = b / m;
    assert(a + d == m * qa + (a % m + d));
    assert(b + d == m * qb + (b % m + d));
    lemma_mod_multiples_vanish(qa, a % m + d, m);
    lemma_mod_multiples_vanish(qb, b % m + d, m);
}

/// One step of the reflected CRC-32 bit loop with polynomial 0xEDB88320.
pub open spec fn crc32_step(c: u32) -> u32 {
    if c & 1 == 1 {
        (c >> 1) ^ 0xEDB8_8320
    } else {
        c >> 1
    }
}

/// `crc32_step` applied `n` times.
pub open spec fn crc32_rounds(c: u32, n: nat) -> u32
    decreases n,
{
    if n == 0 {
        c
    } else {
        crc32_step(crc32_rounds(c, (n - 1) as nat))
    }
}

/// Entry `i` of the byte-indexed CRC-32 lookup table.
pub open spec fn crc32_table_entry(i: int) -> u32 {
    crc32_rounds(i as u32, 8)
}

/// One table-driven update of the running CRC state with byte `byte`.
pub open spec fn crc32_update(crc: u32, byte: u8) -> u32 {
    (crc >> 8) ^ crc32_table_entry(((crc ^ (byte as u32)) & 0xFF) as int)
}

/// The CRC state after feeding the first `k` bytes of `b` to the running
/// update, starting from the all-ones initial value.
pub open spec fn crc32_state(b: Seq<u8>, k: int) -> u32
    decreases k,
{
    if k <= 0 {
        0xFFFF_FFFF
    } else {
        crc32_update(crc32_state(b, k - 1), b[k - 1])
    }
}

/// The CRC-32 of `b`: reflected, initial value 0xFFFFFFFF, final XOR
/// 0xFFFFFFFF.
pub open spec fn crc32_of(b: Seq<u8>) -> u32 {
    crc32_state(b, b.len() as int) ^ 0xFFFF_FFFF
}

/// Table-driven CRC-32 with the reflected polynomial 0xEDB88320.
pub struct Crc32 {
    table: Vec<u32>,
}

impl Crc32 {
    /// The lookup table holds `crc32_rounds(i, 8)` for every byte value `i`.
    pub closed spec fn wf(&self) -> bool {
        &&& self.table@.len() == 256
        &&& forall|i: int| 0 <= i < 256 ==> self.table@[i] == crc32_table_entry(i)
    }

    pub fn new() -> (r: Crc32)
        ensures
            r.wf(),
    {
        let mut table: Vec<u32> = Vec::new();
        let mut i: usize = 0;
        while i < 256
            invariant
                i <= 256,
                table@.len() == i,
                forall|j: int| 0 <= j < i ==> table@[j] == crc32_table_entry(j),
            decreases 256 - i,
        {
            let mut crc: u32 = i as u32;
            let mut round: usize = 0;
            while round < 8
                invariant
                    round <= 8,
                    crc == crc32_rounds(i as u32, round as nat),
                decreases 8 - round,
            {
                if crc & 1 == 1 {
                    crc = (crc >> 1) ^ 0xEDB8_8320;
                } else {
                    crc = crc >> 1;
                }
                round = round + 1;
            }
            table.push(crc);
            i = i + 1;
        }
        Crc32 { table }
    }

    pub fn checksum(&self, buffer: &[u8]) -> (r: u32)
        requires
            self.wf(),
        ensures
            r == crc32_of(buffer@),
    {
        let mut crc: u32 = 0xFFFF_FFFF;
        let mut k: usize = 0;
        while k < buffer.len()
            invariant
                self.wf(),
                k <= buffer@.len(),
                crc == crc32_state(buffer@, k as int),
            decreases buffer@.len() - k,
        {
            let byte = buffer[k];
            let idx: u32 = (crc ^ (byte as u32)) & 0xFF;
            proof {
                assert(idx < 256) by (bit_vector)
                    requires idx == (crc ^ (byte as u32)) & 0xFF;
            }
            crc = (crc >> 8) ^ self.table[idx as usize];
            k = k + 1;
        }
        crc ^ 0xFFFF_FFFF
    }
}

} // verus!
