//! The GM8.1 keystream cipher: two 32-bit seeds - one read from the
//! stream, one the CRC-32 of a key string derived from a second stream
//! value - drive a pair of linear-congruential generators whose combined
//! output is XORed word by word over the encrypted region.

use crate::bytes::{byte_of, le_u32_at, lemma_div4, lemma_le_recompose, lemma_xor_cancel,
    set_word_at, word_at};
use crate::crc::{crc32, crc32_spec, make_crc_table};
use crate::image::ExecutableImage;
use crate::reader::ReaderError;
use vstd::prelude::*;

verus! {

/// One step of a seed generator: multiply the low half, add the high half.
pub open spec fn gm81_next(seed: u32, m: u32) -> u32 {
    ((seed % 0x10000) * m + seed / 0x10000) as u32
}

/// The first seed after `k` steps (multiplier `0x9069`).
pub open spec fn gm81_seed1(s1: u32, k: nat) -> u32
    decreases k,
{
    if k == 0 {
        s1
    } else {
        gm81_next(gm81_seed1(s1, (k - 1) as nat), 0x9069)
    }
}

/// The second seed after `k` steps (multiplier `0x4650`).
pub open spec fn gm81_seed2(s2: u32, k: nat) -> u32
    decreases k,
{
    if k == 0 {
        s2
    } else {
        gm81_next(gm81_seed2(s2, (k - 1) as nat), 0x4650)
    }
}

/// The XOR mask built from the two evolved seeds.
pub open spec fn gm81_mask(s1: u32, s2: u32) -> u32 {
    ((s1 % 0x10000) * 0x10000 + s2 % 0x10000) as u32
}

/// The mask applied to word `j` of the encrypted region: both seeds are
/// stepped before each word, so word `j` sees step `j + 1`. The sequence
/// is a pure function of the two initial seeds and the position.
pub open spec fn gm81_mask_at(s1: u32, s2: u32, j: int) -> u32
    recommends
        j >= 0,
{
    gm81_mask(gm81_seed1(s1, (j + 1) as nat), gm81_seed2(s2, (j + 1) as nat))
}

/// The buffer with the keystream XORed over the words from `start` to the
/// last whole word before the end; bytes before `start` and a trailing
/// remainder of fewer than four bytes are untouched.
pub open spec fn gm81_apply(s: Seq<u8>, start: int, s1: u32, s2: u32) -> Seq<u8>
    recommends
        0 <= start,
{
    let w = if start <= s.len() {
        (s.len() - start) / 4
    } else {
        0
    };
    Seq::new(
        s.len(),
        |i: int|
            if start <= i < start + 4 * w {
                let j = (i - start) / 4;
                let b = (i - start) % 4;
                byte_of(le_u32_at(s, start + 4 * j) ^ gm81_mask_at(s1, s2, j), b)
            } else {
                s[i]
            },
    )
}

/// An even number of applications is the identity: the keystream depends
/// only on the seeds and the position, so XORing it over the same region
/// twice restores the input. One application is therefore self-inverse
/// against true ciphertext, but applying it twice does not yield plaintext
/// - it yields the input back.
pub proof fn lemma_gm81_double_application(s: Seq<u8>, start: int, s1: u32, s2: u32)
    requires
        0 <= start,
    ensures
        gm81_apply(gm81_apply(s, start, s1, s2), start, s1, s2) == s,
{
    let e = gm81_apply(s, start, s1, s2);
    let d = gm81_apply(e, start, s1, s2);
    let w = if start <= s.len() {
        (s.len() - start) / 4
    } else {
        0
    };
    assert forall|i: int| 0 <= i < s.len() implies d[i] == s[i] by {
        if start <= i < start + 4 * w {
            let j = (i - start) / 4;
            let b = (i - start) % 4;
            assert(i - start == 4 * j + b);
            assert(0 <= j < w);
            let m = gm81_mask_at(s1, s2, j);
            let we = le_u32_at(s, start + 4 * j) ^ m;
            lemma_div4(j, 0);
            lemma_div4(j, 1);
            lemma_div4(j, 2);
            lemma_div4(j, 3);
            assert(e[start + 4 * j] == byte_of(we, 0));
            assert(e[start + 4 * j + 1] == byte_of(we, 1));
            assert(e[start + 4 * j + 2] == byte_of(we, 2));
            assert(e[start + 4 * j + 3] == byte_of(we, 3));
            lemma_le_recompose(we);
            assert(le_u32_at(e, start + 4 * j) == we);
            lemma_xor_cancel(le_u32_at(s, start + 4 * j), m);
            crate::bytes::lemma_byte_of_le(
                s[start + 4 * j],
                s[start + 4 * j + 1],
                s[start + 4 * j + 2],
                s[start + 4 * j + 3],
            );
        }
    }
    assert(d =~= s);
}

/// The decimal digits of `n`, as ASCII bytes, most significant first.
pub open spec fn dec_digits(n: int) -> Seq<u8>
    recommends
        n >= 0,
    decreases n,
{
    if n < 10 {
        seq![(0x30 + n) as u8]
    } else {
        dec_digits(n / 10) + seq![(0x30 + n % 10) as u8]
    }
}

/// A byte string spread to two bytes per character, each followed by zero.
pub open spec fn utf16ish(s: Seq<u8>) -> Seq<u8> {
    Seq::new(2 * s.len(), |i: int| if i % 2 == 0 { s[i / 2] } else { 0u8 })
}

/// The hashed key string `_MJD<n>#RWK`, with `n` in decimal, spread to two
/// bytes per character.
pub open spec fn gm81_hash_bytes(n: u32) -> Seq<u8> {
    utf16ish(
        seq![0x5Fu8, 0x4Du8, 0x4Au8, 0x44u8] + dec_digits(n as int) + seq![
            0x23u8, 0x52u8, 0x57u8, 0x4Bu8 ],
    )
}

/// The decimal digits of `n`, most significant first.
pub fn u32_digits(n: u32) -> (r: Vec<u8>)
    ensures
        r@ == dec_digits(n as int),
    decreases n,
{
    if n < 10 {
        let mut v: Vec<u8> = Vec::new();
        v.push(0x30 + (n as u8));
        proof {
            assert(v@ =~= dec_digits(n as int));
        }
        v
    } else {
        proof {
            assert(n as int / 10 < n as int) by (nonlinear_arith)
                requires
                    n >= 10,
            ;
        }
        let mut v: Vec<u8> = u32_digits(n / 10);
        v.push(0x30 + ((n % 10) as u8));
        proof {
            assert(v@ =~= dec_digits(n as int));
        }
        v
    }
}

/// Spread a byte string to two bytes per character, zero interleaved.
pub fn spread_wide(s: &Vec<u8>) -> (r: Vec<u8>)
    requires
        s@.len() < 0x2000_0000_0000_0000,
    ensures
        r@ == utf16ish(s@),
{
    let mut out: Vec<u8> = Vec::new();
    let mut i: usize = 0;
    let n: usize = s.len();
    while i < n
        invariant
            i <= n,
            n == s@.len(),
            n < 0x2000_0000_0000_0000,
            out@.len() == 2 * i,
            forall|t: int|
                0 <= t < 2 * i ==> out@[t] == (if t % 2 == 0 {
                    s@[t / 2]
                } else {
                    0u8
                }),
        decreases n - i,
    {
        out.push(s[i]);
        out.push(0u8);
        proof {
            lemma_div2(i as int, 0);
            lemma_div2(i as int, 1);
        }
        i = i + 1;
    }
    proof {
        assert(out@ =~= utf16ish(s@));
    }
    out
}

/// Indices inside a 2-byte pair split back into pair and position.
proof fn lemma_div2(j: int, t: int)
    requires
        0 <= t < 2,
        0 <= j,
    ensures
        (2 * j + t) / 2 == j,
        (2 * j + t) % 2 == t,
{
    vstd::arithmetic::div_mod::lemma_fundamental_div_mod_converse(2 * j + t, 2, j, t);
}

/// Where the encrypted region starts, relative to the position of the two
/// seed reads: the low byte of the CRC seed plus ten, past the seeds.
pub open spec fn gm81_region_start(s: Seq<u8>, p0: int) -> int {
    p0 + 8 + crc32_spec(gm81_hash_bytes(le_u32_at(s, p0))) % 0x100 + 10
}

/// Remove GM8.1 encryption in place. Two words are read at the cursor: a
/// value naming the key string, and the first seed. The second seed is the
/// CRC-32 of the key string. The region a seed-dependent distance ahead is
/// XORed with the keystream, and the cursor is left just after the two
/// seed reads, not at the end of the region.
pub fn decrypt_gm81(data: &mut ExecutableImage) -> (r: Result<(), ReaderError>)
    requires
        old(data).pos <= old(data).data@.len(),
        old(data).data@.len() < 0x1000_0000_0000_0000,
    ensures
        old(data).pos + 8 <= old(data).data@.len() ==> r == Ok::<(), ReaderError>(())
            && final(data).data@ == gm81_apply(
            old(data).data@,
            gm81_region_start(old(data).data@, old(data).pos as int),
            le_u32_at(old(data).data@, old(data).pos + 4),
            crc32_spec(gm81_hash_bytes(le_u32_at(old(data).data@, old(data).pos as int))),
        ) && final(data).pos == old(data).pos + 8,
        old(data).pos + 8 > old(data).data@.len() ==> r == Err::<(), ReaderError>(
            ReaderError::IoFailure,
        ) && final(data).data@ == old(data).data@,
{
    let ghost o = data.data@;
    let ghost p0 = data.pos as int;
    let hash_value = match data.read_u32_le() {
        Ok(v) => v,
        Err(e) => { return Err(e); },
    };
    let seed1_0 = match data.read_u32_le() {
        Ok(v) => v,
        Err(e) => { return Err(e); },
    };

    // build the key string "_MJD<n>#RWK" and hash it
    let mut key: Vec<u8> = Vec::new();
    key.push(0x5F);
    key.push(0x4D);
    key.push(0x4A);
    key.push(0x44);
    let mut digits: Vec<u8> = u32_digits(hash_value);
    key.append(&mut digits);
    key.push(0x23);
    key.push(0x52);
    key.push(0x57);
    key.push(0x4B);
    proof {
        assert(key@ =~= seq![0x5Fu8, 0x4Du8, 0x4Au8, 0x44u8] + dec_digits(hash_value as int)
            + seq![0x23u8, 0x52u8, 0x57u8, 0x4Bu8]);
        lemma_dec_digits_len(hash_value as int);
    }
    let wide: Vec<u8> = spread_wide(&key);
    let table: Vec<u32> = make_crc_table();
    let seed2_0: u32 = crc32(&wide, &table);
    proof {
        assert(seed2_0 == crc32_spec(gm81_hash_bytes(le_u32_at(o, p0))));
    }

    // the encrypted region starts a seed-dependent distance ahead
    let old_position: u64 = data.pos;
    let start: u64 = data.pos + (seed2_0 % 0x100) as u64 + 10;
    let ghost start_spec = gm81_region_start(o, p0);
    proof {
        assert(start as int == start_spec);
    }

    let len: usize = data.data.len();
    let mut s1: u32 = seed1_0;
    let mut s2: u32 = seed2_0;
    let ghost w = if start_spec <= o.len() {
        (o.len() - start_spec) / 4
    } else {
        0
    };
    let mut cur: usize = if start <= len as u64 {
        start as usize
    } else {
        len
    };
    let ghost mut k: int = 0;
    while len - cur >= 4
        invariant
            data.data@.len() == o.len(),
            o.len() == len,
            o.len() < 0x1000_0000_0000_0000,
            cur <= len,
            0 <= start_spec,
            start_spec <= o.len() ==> cur as int == start_spec + 4 * k && 0 <= k <= (o.len()
                - start_spec) / 4,
            start_spec > o.len() ==> cur == len && k == 0,
            s1 == gm81_seed1(seed1_0, k as nat),
            s2 == gm81_seed2(seed2_0, k as nat),
            data.pos == old_position,
            forall|i: int| 0 <= i < o.len() && !(start_spec <= i < cur as int) ==> data.data@[i]
                == o[i],
            forall|i: int|
                start_spec <= i < cur as int ==> data.data@[i] == ({
                    let j = (i - start_spec) / 4;
                    let b = (i - start_spec) % 4;
                    byte_of(le_u32_at(o, start_spec + 4 * j) ^ gm81_mask_at(seed1_0, seed2_0, j), b)
                }),
        decreases len - cur,
    {
        let v: u32 = word_at(&data.data, cur);
        proof {
            assert(le_u32_at(data.data@, cur as int) == le_u32_at(o, cur as int));
            assert((s1 % 0x10000) * 0x9069 + s1 / 0x10000 <= 0xFFFF * 0x9069 + 0xFFFF)
                by (nonlinear_arith);
            assert((s2 % 0x10000) * 0x4650 + s2 / 0x10000 <= 0xFFFF * 0x4650 + 0xFFFF)
                by (nonlinear_arith);
            assert((s1 % 0x10000) * 0x10000 <= 0xFFFF * 0x10000) by (nonlinear_arith);
        }
        s1 = (s1 % 0x10000) * 0x9069 + s1 / 0x10000;
        s2 = (s2 % 0x10000) * 0x4650 + s2 / 0x10000;
        let mask: u32 = (s1 % 0x10000) * 0x10000 + s2 % 0x10000;
        let t: u32 = v ^ mask;
        let ghost before = data.data@;
        set_word_at(&mut data.data, cur, t);
        proof {
            assert(s1 == gm81_seed1(seed1_0, (k + 1) as nat));
            assert(s2 == gm81_seed2(seed2_0, (k + 1) as nat));
            assert(mask == gm81_mask_at(seed1_0, seed2_0, k));
            assert(t == le_u32_at(o, start_spec + 4 * k) ^ gm81_mask_at(seed1_0, seed2_0, k));
            assert forall|i: int|
                start_spec <= i < cur + 4 implies data.data@[i] == ({
                let j = (i - start_spec) / 4;
                let b = (i - start_spec) % 4;
                byte_of(le_u32_at(o, start_spec + 4 * j) ^ gm81_mask_at(seed1_0, seed2_0, j), b)
            }) by {
                let j = (i - start_spec) / 4;
                let b = (i - start_spec) % 4;
                assert(i - start_spec == 4 * j + b);
                if i < cur as int {
                    assert(data.data@[i] == before[i]);
                } else {
                    assert(j == k) by {
                        lemma_div4(k, i - cur);
                    };
                    assert(data.data@[i] == byte_of(t, b)) by {
                        lemma_div4(k, i - cur);
                    };
                }
            }
        }
        cur = cur + 4;
        proof {
            k = k + 1;
        }
    }
    data.set_pos(old_position);
    proof {
        if start_spec <= o.len() {
            vstd::arithmetic::div_mod::lemma_fundamental_div_mod_converse(
                o.len() - start_spec,
                4,
                k,
                o.len() - start_spec - 4 * k,
            );
            assert(k == w);
        }
        let result = gm81_apply(o, start_spec, seed1_0, seed2_0);
        assert forall|i: int| 0 <= i < o.len() implies data.data@[i] == result[i] by {
            if start_spec <= i < start_spec + 4 * w {
                let j = (i - start_spec) / 4;
                let b = (i - start_spec) % 4;
                assert(i - start_spec == 4 * j + b);
                assert(0 <= j < w);
                assert(i < cur as int);
            }
        }
        assert(data.data@ =~= result);
    }
    Ok(())
}

/// A decimal rendering is never empty, and never longer than its value.
pub proof fn lemma_dec_digits_len(n: int)
    requires
        0 <= n,
    ensures
        1 <= dec_digits(n).len() <= n + 1,
    decreases n,
{
    if n >= 10 {
        lemma_dec_digits_len(n / 10);
        assert(n / 10 + 1 <= n) by (nonlinear_arith)
            requires
                n >= 10,
        ;
    }
}

} // verus!
