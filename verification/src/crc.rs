//! The reflected CRC-32 used by the GM8.1 cipher to hash its key string:
//! a 256-entry table generated from polynomial `0x04C11DB7`, folded over the
//! input bytes from an all-ones accumulator.

use vstd::arithmetic::power2::{
    lemma2_to64, lemma_pow2_pos, lemma_pow2_strictly_increases, lemma_pow2_unfold, pow2,
};
use vstd::prelude::*;

verus! {

/// The CRC-32 polynomial, reversed-input construction.
pub const CRC_POLYNOMIAL: u32 = 0x04C11DB7;

/// The low `c` bits of `v`, in reverse order.
pub open spec fn reflect_bits(v: int, c: nat) -> int
    recommends
        v >= 0,
    decreases c,
{
    if c == 0 {
        0
    } else {
        (v % 2) * pow2((c - 1) as nat) + reflect_bits(v / 2, (c - 1) as nat)
    }
}

/// A bit reversal stays within `c` bits.
pub proof fn lemma_reflect_bits_bound(v: int, c: nat)
    ensures
        0 <= reflect_bits(v, c) < pow2(c),
    decreases c,
{
    if c == 0 {
        lemma_pow2_pos(0);
    } else {
        lemma_reflect_bits_bound(v / 2, (c - 1) as nat);
        lemma_pow2_unfold(c);
        lemma_pow2_pos((c - 1) as nat);
        if v % 2 == 0 {
            assert((v % 2) * pow2((c - 1) as nat) == 0);
        } else {
            assert(v % 2 == 1);
            assert((v % 2) * pow2((c - 1) as nat) == pow2((c - 1) as nat));
        }
    }
}

/// One shift-and-conditionally-xor round of the table generator.
pub open spec fn crc_round(t: u32) -> u32 {
    if t >= 0x80000000 {
        (((t - 0x80000000) * 2) as u32) ^ CRC_POLYNOMIAL
    } else {
        (t * 2) as u32
    }
}

/// `k` rounds of the table generator.
pub open spec fn crc_rounds(t: u32, k: nat) -> u32
    decreases k,
{
    if k == 0 {
        t
    } else {
        crc_round(crc_rounds(t, (k - 1) as nat))
    }
}

/// Entry `i` of the 256-entry CRC table: reflect the index into the top
/// byte, run eight generator rounds, reflect the 32-bit result.
pub open spec fn crc_entry(i: int) -> u32
    recommends
        0 <= i < 256,
{
    reflect_bits(crc_rounds((reflect_bits(i, 8) * 0x1000000) as u32, 8) as int, 32) as u32
}

/// One step of the CRC fold: shift the accumulator down a byte and mix in
/// the table entry chosen by the low accumulator byte and the input byte.
pub open spec fn crc32_step(acc: u32, c: u8) -> u32 {
    ((acc / 0x100) as u32) ^ crc_entry(((acc % 0x100) as u8 ^ c) as int)
}

/// The accumulator after folding the first `i` bytes of `s`, starting from
/// all ones.
pub open spec fn crc32_upto(s: Seq<u8>, i: int) -> u32
    recommends
        i <= s.len(),
    decreases i,
{
    if i <= 0 {
        0xFFFFFFFFu32
    } else {
        crc32_step(crc32_upto(s, i - 1), s[i - 1])
    }
}

/// The CRC-32 of a whole byte sequence.
pub open spec fn crc32_spec(s: Seq<u8>) -> u32 {
    crc32_upto(s, s.len() as int)
}

/// On empty input the fold never runs: the CRC is the initial all-ones
/// accumulator.
pub proof fn lemma_crc32_empty()
    ensures
        crc32_spec(Seq::<u8>::empty()) == 0xFFFFFFFFu32,
{
}

/// Table generation is deterministic: any two tables whose entries satisfy
/// the generator are equal.
pub proof fn lemma_crc_table_deterministic(t1: Seq<u32>, t2: Seq<u32>)
    requires
        t1.len() == 256,
        t2.len() == 256,
        forall|i: int| 0 <= i < 256 ==> t1[i] == crc_entry(i),
        forall|i: int| 0 <= i < 256 ==> t2[i] == crc_entry(i),
    ensures
        t1 == t2,
{
    assert forall|i: int| 0 <= i < 256 implies t1[i] == t2[i] by {
        assert(t1[i] == crc_entry(i));
        assert(t2[i] == crc_entry(i));
    }
    assert(t1 =~= t2);
}

/// Reverse the low `c` bits of `value`.
pub fn crc_reflect(value: u32, c: u32) -> (r: u32)
    requires
        c <= 32,
    ensures
        r == reflect_bits(value as int, c as nat),
{
    if c == 0 {
        return 0;
    }
    let ghost v0 = value as int;
    proof {
        lemma2_to64();
    }
    let mut p: u32 = 1;
    let mut j: u32 = 0;
    while j < c - 1
        invariant
            1 <= c <= 32,
            j <= c - 1,
            p == pow2(j as nat),
        decreases c - 1 - j,
    {
        proof {
            lemma_pow2_unfold((j + 1) as nat);
            if j + 1 < 32 {
                lemma_pow2_strictly_increases((j + 1) as nat, 32);
            }
            lemma2_to64();
        }
        p = p * 2;
        j = j + 1;
    }
    let mut v: u32 = value;
    let mut acc: u32 = 0;
    let mut k: u32 = 0;
    while k < c
        invariant
            k <= c,
            1 <= c <= 32,
            reflect_bits(v0, c as nat) == acc + reflect_bits(v as int, (c - k) as nat),
            acc + pow2((c - k) as nat) <= pow2(c as nat),
            k < c ==> p == pow2((c - k - 1) as nat),
        decreases c - k,
    {
        proof {
            lemma2_to64();
            lemma_pow2_unfold((c - k) as nat);
            if k + 1 < c {
                lemma_pow2_unfold((c - k - 1) as nat);
            }
            lemma_pow2_pos((c - k - 1) as nat);
            assert(reflect_bits(v as int, (c - k) as nat) == (v as int % 2) * pow2(
                (c - k - 1) as nat,
            ) + reflect_bits(v as int / 2, (c - k - 1) as nat));
            if v as int % 2 == 0 {
                assert((v as int % 2) * pow2((c - k - 1) as nat) == 0);
            } else {
                assert(v as int % 2 == 1);
                assert((v as int % 2) * pow2((c - k - 1) as nat) == pow2((c - k - 1) as nat));
            }
            lemma_reflect_bits_bound(v as int / 2, (c - k - 1) as nat);
        }
        if v % 2 == 1 {
            acc = acc + p;
        }
        v = v / 2;
        p = p / 2;
        k = k + 1;
    }
    acc
}

/// Generate the 256-entry reflected CRC-32 table.
pub fn make_crc_table() -> (table: Vec<u32>)
    ensures
        table@.len() == 256,
        forall|i: int| 0 <= i < 256 ==> table@[i] == crc_entry(i),
{
    let mut table: Vec<u32> = Vec::new();
    let mut i: usize = 0;
    while i < 256
        invariant
            i <= 256,
            table@.len() == i,
            forall|j: int| 0 <= j < i ==> table@[j] == crc_entry(j),
        decreases 256 - i,
    {
        let r8: u32 = crc_reflect(i as u32, 8);
        proof {
            lemma_reflect_bits_bound(i as int, 8);
            lemma2_to64();
        }
        let mut t: u32 = r8 * 0x1000000;
        let mut k: u32 = 0;
        while k < 8
            invariant
                k <= 8,
                t == crc_rounds((r8 * 0x1000000) as u32, k as nat),
            decreases 8 - k,
        {
            if t >= 0x80000000 {
                t = ((t - 0x80000000) * 2) ^ CRC_POLYNOMIAL;
            } else {
                t = t * 2;
            }
            k = k + 1;
        }
        let e: u32 = crc_reflect(t, 32);
        proof {
            lemma_reflect_bits_bound(t as int, 32);
            lemma2_to64();
        }
        table.push(e);
        i = i + 1;
    }
    table
}

/// Fold the CRC over `data` using a generated table.
pub fn crc32(data: &Vec<u8>, table: &Vec<u32>) -> (r: u32)
    requires
        table@.len() == 256,
        forall|i: int| 0 <= i < 256 ==> table@[i] == crc_entry(i),
    ensures
        r == crc32_spec(data@),
{
    let mut acc: u32 = 0xFFFFFFFF;
    let mut i: usize = 0;
    let n: usize = data.len();
    while i < n
        invariant
            i <= n,
            n == data@.len(),
            table@.len() == 256,
            forall|j: int| 0 <= j < 256 ==> table@[j] == crc_entry(j),
            acc == crc32_upto(data@, i as int),
        decreases n - i,
    {
        let idx: u8 = (acc % 0x100) as u8 ^ data[i];
        acc = (acc / 0x100) ^ table[idx as usize];
        i = i + 1;
    }
    acc
}

} // verus!
