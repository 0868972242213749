//! Little-endian 32-bit words over byte sequences, and the byte-swap
//! primitive the ciphers are built from. Everything is stated in plain
//! arithmetic so that word-level contracts translate back to bytes.

use vstd::prelude::*;

verus! {

/// The little-endian 32-bit word formed by `s[i .. i + 4]`.
pub open spec fn le_u32_at(s: Seq<u8>, i: int) -> u32
    recommends
        0 <= i,
        i + 4 <= s.len(),
{
    (s[i] + s[i + 1] * 0x100 + s[i + 2] * 0x10000 + s[i + 3] * 0x1000000) as u32
}

/// Byte `k` (0 = least significant) of a 32-bit value.
pub open spec fn byte_of(v: u32, k: int) -> u8
    recommends
        0 <= k < 4,
{
    ((v as int / pow256(k)) % 0x100) as u8
}

/// 256 to the power `k`, for byte positions.
pub open spec fn pow256(k: int) -> int
    decreases k,
{
    if k <= 0 {
        1
    } else {
        0x100 * pow256(k - 1)
    }
}

/// `v` with its four bytes reversed.
pub open spec fn swap32(v: u32) -> u32 {
    (byte_of(v, 3) + byte_of(v, 2) * 0x100 + byte_of(v, 1) * 0x10000 + byte_of(v, 0) * 0x1000000)
        as u32
}

/// The small powers of 256 that byte positions use.
pub proof fn lemma_pow256_small()
    ensures
        pow256(0) == 1,
        pow256(1) == 0x100,
        pow256(2) == 0x10000,
        pow256(3) == 0x1000000,
{
    reveal_with_fuel(pow256, 5);
}

/// The four bytes of a word recompose to the word.
pub proof fn lemma_le_recompose(v: u32)
    ensures
        byte_of(v, 0) + byte_of(v, 1) * 0x100 + byte_of(v, 2) * 0x10000 + byte_of(v, 3) * 0x1000000
            == v,
{
    assert(byte_of(v, 0) + byte_of(v, 1) * 0x100 + byte_of(v, 2) * 0x10000 + byte_of(v, 3)
        * 0x1000000 == v) by {
        lemma_pow256_small();
        let n = v as int;
        assert(n == 0x100 * (n / 0x100) + n % 0x100);
        assert(n / 0x100 == 0x100 * (n / 0x100 / 0x100) + (n / 0x100) % 0x100);
        vstd::arithmetic::div_mod::lemma_div_denominator(n, 0x100, 0x100);
        assert(n / 0x100 / 0x100 == n / 0x10000);
        assert(n / 0x10000 == 0x100 * (n / 0x10000 / 0x100) + (n / 0x10000) % 0x100);
        vstd::arithmetic::div_mod::lemma_div_denominator(n, 0x10000, 0x100);
        assert(n / 0x10000 / 0x100 == n / 0x1000000);
        assert(n / 0x1000000 % 0x100 == n / 0x1000000);
    };
}

/// Each byte of a word read back from its little-endian encoding.
pub proof fn lemma_byte_of_le(b0: u8, b1: u8, b2: u8, b3: u8)
    ensures
        byte_of((b0 + b1 * 0x100 + b2 * 0x10000 + b3 * 0x1000000) as u32, 0) == b0,
        byte_of((b0 + b1 * 0x100 + b2 * 0x10000 + b3 * 0x1000000) as u32, 1) == b1,
        byte_of((b0 + b1 * 0x100 + b2 * 0x10000 + b3 * 0x1000000) as u32, 2) == b2,
        byte_of((b0 + b1 * 0x100 + b2 * 0x10000 + b3 * 0x1000000) as u32, 3) == b3,
{
    let n = b0 + b1 * 0x100 + b2 * 0x10000 + b3 * 0x1000000;
    lemma_pow256_small();
    vstd::arithmetic::div_mod::lemma_fundamental_div_mod_converse(
        n,
        0x100,
        b1 + b2 * 0x100 + b3 * 0x10000,
        b0 as int,
    );
    vstd::arithmetic::div_mod::lemma_fundamental_div_mod_converse(
        n,
        0x10000,
        b2 + b3 * 0x100,
        b0 + b1 * 0x100,
    );
    vstd::arithmetic::div_mod::lemma_fundamental_div_mod_converse(
        n,
        0x1000000,
        b3 as int,
        b0 + b1 * 0x100 + b2 * 0x10000,
    );
    assert((n / 0x100) % 0x100 == b1) by {
        vstd::arithmetic::div_mod::lemma_fundamental_div_mod_converse(
            b1 + b2 * 0x100 + b3 * 0x10000,
            0x100,
            b2 + b3 * 0x100,
            b1 as int,
        );
    };
    assert((n / 0x10000) % 0x100 == b2) by {
        vstd::arithmetic::div_mod::lemma_fundamental_div_mod_converse(
            b2 + b3 * 0x100,
            0x100,
            b3 as int,
            b2 as int,
        );
    };
}

/// Swapping bytes twice restores the word.
pub proof fn lemma_swap32_involution(v: u32)
    ensures
        swap32(swap32(v)) == v,
{
    lemma_byte_of_le(byte_of(v, 3), byte_of(v, 2), byte_of(v, 1), byte_of(v, 0));
    lemma_le_recompose(v);
}

/// Masking with the same word twice restores the original.
pub proof fn lemma_xor_cancel(q: u32, x: u32)
    ensures
        (q ^ x) ^ x == q,
{
    assert((q ^ x) ^ x == q) by (bit_vector);
}

/// Indices inside a 4-byte word split back into word and byte position.
pub proof fn lemma_div4(j: int, t: int)
    requires
        0 <= t < 4,
        0 <= j,
    ensures
        (4 * j + t) / 4 == j,
        (4 * j + t) % 4 == t,
{
    vstd::arithmetic::div_mod::lemma_fundamental_div_mod_converse(4 * j + t, 4, j, t);
}

/// Executable byte swap, equal to [`swap32`].
pub fn swap_bytes_u32(v: u32) -> (r: u32)
    ensures
        r == swap32(v),
{
    proof {
        lemma_pow256_small();
        assert(v as int / 0x1000000 < 0x100) by (nonlinear_arith)
            requires
                v <= 0xFFFF_FFFFu32,
        ;
    }
    let b0: u32 = v % 0x100;
    let b1: u32 = (v / 0x100) % 0x100;
    let b2: u32 = (v / 0x10000) % 0x100;
    let b3: u32 = v / 0x1000000;
    b3 + b2 * 0x100 + b1 * 0x10000 + b0 * 0x1000000
}

/// Read the little-endian word at byte offset `i0` of `data`.
pub fn word_at(data: &Vec<u8>, i0: usize) -> (v: u32)
    requires
        i0 + 4 <= data@.len(),
    ensures
        v == le_u32_at(data@, i0 as int),
{
    let n: usize = data.len();
    let b0: u8 = data[i0];
    let b1: u8 = data[i0 + 1];
    let b2: u8 = data[i0 + 2];
    let b3: u8 = data[i0 + 3];
    b0 as u32 + b1 as u32 * 0x100 + b2 as u32 * 0x10000 + b3 as u32 * 0x1000000
}

/// Write `v` as a little-endian word at byte offset `i0` of `data`.
pub fn set_word_at(data: &mut Vec<u8>, i0: usize, v: u32)
    requires
        i0 + 4 <= old(data)@.len(),
    ensures
        final(data)@.len() == old(data)@.len(),
        forall|i: int|
            0 <= i < old(data)@.len() && !(i0 <= i < i0 + 4) ==> final(data)@[i] == old(data)@[i],
        forall|t: int| 0 <= t < 4 ==> final(data)@[i0 + t] == byte_of(v, t),
        le_u32_at(final(data)@, i0 as int) == v,
{
    let n: usize = data.len();
    proof {
        lemma_pow256_small();
        assert(v as int / 0x1000000 < 0x100) by (nonlinear_arith)
            requires
                v <= 0xFFFF_FFFFu32,
        ;
    }
    data[i0] = (v % 0x100) as u8;
    data[i0 + 1] = ((v / 0x100) % 0x100) as u8;
    data[i0 + 2] = ((v / 0x10000) % 0x100) as u8;
    data[i0 + 3] = (v / 0x1000000) as u8;
    proof {
        lemma_le_recompose(v);
    }
}

} // verus!
