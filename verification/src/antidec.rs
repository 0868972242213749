//! The antidec2 cipher: a cycling XOR / add / byte-swap transform over the
//! gamedata region, processed in 4-byte little-endian words from the end of
//! the buffer toward the start. The mask evolution only lines up when the
//! words are walked back to front, so every word's masks are indexed by its
//! distance from the end.

use crate::bytes::{
    byte_of, le_u32_at, lemma_div4, lemma_le_recompose, lemma_swap32_involution, lemma_xor_cancel,
    set_word_at, swap32, swap_bytes_u32, word_at,
};
use crate::image::ExecutableImage;
use crate::reader::ReaderError;
use vstd::prelude::*;
use vstd::wrapping::u32_specs;

verus! {

/// Decrypt one word: XOR, wrapping add, byte swap.
pub open spec fn antidec_word_decrypt(v: u32, x: u32, a: u32) -> u32 {
    swap32(u32_specs::wrapping_add(v ^ x, a))
}

/// Encrypt one word: the inverse operations in the inverse order.
pub open spec fn antidec_word_encrypt(v: u32, x: u32, a: u32) -> u32 {
    u32_specs::wrapping_sub(swap32(v), a) ^ x
}

/// The XOR mask after `k` words: it shrinks by `sub` each step.
pub open spec fn antidec_xmask(x0: u32, sub: u32, k: nat) -> u32
    decreases k,
{
    if k == 0 {
        x0
    } else {
        u32_specs::wrapping_sub(antidec_xmask(x0, sub, (k - 1) as nat), sub)
    }
}

/// The add mask after `k` words: byte-swapped and incremented each step.
pub open spec fn antidec_amask(a0: u32, k: nat) -> u32
    decreases k,
{
    if k == 0 {
        a0
    } else {
        u32_specs::wrapping_add(swap32(antidec_amask(a0, (k - 1) as nat)), 1)
    }
}

/// The whole region decrypted. Words are aligned to the end of the region:
/// a leading remainder of fewer than four bytes is left untouched, and the
/// word `j` words from the front uses the masks of step `w - 1 - j`, since
/// the cipher walks the region from the end.
pub open spec fn antidec_decrypt_seq(s: Seq<u8>, x0: u32, a0: u32, sub: u32) -> Seq<u8> {
    let rem = s.len() as int % 4;
    let w = s.len() as int / 4;
    Seq::new(
        s.len(),
        |i: int|
            if i < rem {
                s[i]
            } else {
                let j = (i - rem) / 4;
                let b = (i - rem) % 4;
                byte_of(
                    antidec_word_decrypt(
                        le_u32_at(s, rem + 4 * j),
                        antidec_xmask(x0, sub, (w - 1 - j) as nat),
                        antidec_amask(a0, (w - 1 - j) as nat),
                    ),
                    b,
                )
            },
    )
}

/// The whole region encrypted: the forward transform, same mask schedule.
pub open spec fn antidec_encrypt_seq(s: Seq<u8>, x0: u32, a0: u32, sub: u32) -> Seq<u8> {
    let rem = s.len() as int % 4;
    let w = s.len() as int / 4;
    Seq::new(
        s.len(),
        |i: int|
            if i < rem {
                s[i]
            } else {
                let j = (i - rem) / 4;
                let b = (i - rem) % 4;
                byte_of(
                    antidec_word_encrypt(
                        le_u32_at(s, rem + 4 * j),
                        antidec_xmask(x0, sub, (w - 1 - j) as nat),
                        antidec_amask(a0, (w - 1 - j) as nat),
                    ),
                    b,
                )
            },
    )
}

/// Decrypting an encrypted word with the same masks gives the word back.
pub proof fn lemma_antidec_word_roundtrip(v: u32, x: u32, a: u32)
    ensures
        antidec_word_decrypt(antidec_word_encrypt(v, x, a), x, a) == v,
{
    let q = u32_specs::wrapping_sub(swap32(v), a);
    lemma_xor_cancel(q, x);
    assert(u32_specs::wrapping_add(q, a) == swap32(v));
    lemma_swap32_involution(v);
}

/// Round trip: running the decrypt transform over the output of the
/// encrypt transform, with the same mask triple, reproduces the original
/// region exactly, for a region of any length.
pub proof fn lemma_antidec_round_trip(s: Seq<u8>, x0: u32, a0: u32, sub: u32)
    ensures
        antidec_decrypt_seq(antidec_encrypt_seq(s, x0, a0, sub), x0, a0, sub) == s,
{
    let e = antidec_encrypt_seq(s, x0, a0, sub);
    let d = antidec_decrypt_seq(e, x0, a0, sub);
    let rem = s.len() as int % 4;
    let w = s.len() as int / 4;
    assert(s.len() as int == 4 * w + rem);
    assert forall|i: int| 0 <= i < s.len() implies d[i] == s[i] by {
        if i >= rem {
            let j = (i - rem) / 4;
            let b = (i - rem) % 4;
            assert(i - rem == 4 * j + b);
            assert(0 <= j < w);
            let xm = antidec_xmask(x0, sub, (w - 1 - j) as nat);
            let am = antidec_amask(a0, (w - 1 - j) as nat);
            let we = antidec_word_encrypt(le_u32_at(s, rem + 4 * j), xm, am);
            lemma_div4(j, 0);
            lemma_div4(j, 1);
            lemma_div4(j, 2);
            lemma_div4(j, 3);
            assert(e[rem + 4 * j] == byte_of(we, 0));
            assert(e[rem + 4 * j + 1] == byte_of(we, 1));
            assert(e[rem + 4 * j + 2] == byte_of(we, 2));
            assert(e[rem + 4 * j + 3] == byte_of(we, 3));
            lemma_le_recompose(we);
            assert(le_u32_at(e, rem + 4 * j) == we);
            lemma_antidec_word_roundtrip(le_u32_at(s, rem + 4 * j), xm, am);
            crate::bytes::lemma_byte_of_le(
                s[rem + 4 * j],
                s[rem + 4 * j + 1],
                s[rem + 4 * j + 2],
                s[rem + 4 * j + 3],
            );
        }
    }
    assert(d =~= s);
}

/// Remove antidec2 encryption from the gamedata region, in place, and set
/// the cursor to the start of the gamedata: `exe_load_offset` plus the
/// header start read from the loader, plus the four header bytes.
pub fn decrypt_antidec(
    data: &mut ExecutableImage,
    exe_load_offset: u32,
    header_start: u32,
    xor_mask: u32,
    add_mask: u32,
    sub_mask: u32,
) -> (r: Result<(), ReaderError>)
    ensures
        exe_load_offset as int <= old(data).data@.len() ==> r == Ok::<(), ReaderError>(())
            && final(data).data@ == old(data).data@.take(exe_load_offset as int) + antidec_decrypt_seq(
            old(data).data@.skip(exe_load_offset as int),
            xor_mask,
            add_mask,
            sub_mask,
        ) && final(data).pos == exe_load_offset + header_start + 4,
        exe_load_offset as int > old(data).data@.len() ==> r == Err::<(), ReaderError>(
            ReaderError::IoFailure,
        ) && final(data).data@ == old(data).data@ && final(data).pos == old(data).pos,
{
    let off: usize = exe_load_offset as usize;
    if off > data.data.len() {
        return Err(ReaderError::IoFailure);
    }
    let ghost o = data.data@;
    let region_len: usize = data.data.len() - off;
    let rem: usize = region_len % 4;
    let w: usize = region_len / 4;
    let base: usize = off + rem;
    proof {
        assert(region_len as int == 4 * (w as int) + rem as int);
    }
    let mut x: u32 = xor_mask;
    let mut a: u32 = add_mask;
    let mut k: usize = 0;
    while k < w
        invariant
            data.data@.len() == o.len(),
            o.len() <= usize::MAX,
            off + region_len == o.len(),
            region_len as int == 4 * (w as int) + rem as int,
            base == off + rem,
            k <= w,
            x == antidec_xmask(xor_mask, sub_mask, k as nat),
            a == antidec_amask(add_mask, k as nat),
            data.pos == old(data).pos,
            forall|i: int| 0 <= i < base + 4 * ((w - k) as int) ==> data.data@[i] == o[i],
            forall|i: int|
                base + 4 * ((w - k) as int) <= i < o.len() ==> data.data@[i] == ({
                    let j = (i - base) / 4;
                    let b = (i - base) % 4;
                    byte_of(
                        antidec_word_decrypt(
                            le_u32_at(o, base + 4 * j),
                            antidec_xmask(xor_mask, sub_mask, (w - 1 - j) as nat),
                            antidec_amask(add_mask, (w - 1 - j) as nat),
                        ),
                        b,
                    )
                }),
        decreases w - k,
    {
        let j: usize = w - 1 - k;
        let i0: usize = base + 4 * j;
        let v: u32 = word_at(&data.data, i0);
        proof {
            assert(le_u32_at(data.data@, i0 as int) == le_u32_at(o, i0 as int));
        }
        let t1: u32 = v ^ x;
        let t2: u32 = t1.wrapping_add(a);
        let t3: u32 = swap_bytes_u32(t2);
        let ghost before = data.data@;
        set_word_at(&mut data.data, i0, t3);
        proof {
            assert(t3 == antidec_word_decrypt(
                le_u32_at(o, i0 as int),
                antidec_xmask(xor_mask, sub_mask, k as nat),
                antidec_amask(add_mask, k as nat),
            ));
            lemma_div4(j as int, 0);
            lemma_div4(j as int, 1);
            lemma_div4(j as int, 2);
            lemma_div4(j as int, 3);
            assert forall|i: int|
                base + 4 * ((w - k - 1) as int) <= i < o.len() implies data.data@[i] == ({
                let jj = (i - base) / 4;
                let b = (i - base) % 4;
                byte_of(
                    antidec_word_decrypt(
                        le_u32_at(o, base + 4 * jj),
                        antidec_xmask(xor_mask, sub_mask, (w - 1 - jj) as nat),
                        antidec_amask(add_mask, (w - 1 - jj) as nat),
                    ),
                    b,
                )
            }) by {
                let jj = (i - base) / 4;
                let b = (i - base) % 4;
                assert(i - base == 4 * jj + b);
                if i < base + 4 * ((w - k) as int) {
                    assert(jj == j as int) by {
                        lemma_div4(j as int, i - base - 4 * (j as int));
                    };
                    assert(data.data@[i] == byte_of(t3, b));
                } else {
                    assert(data.data@[i] == before[i]);
                }
            }
        }
        x = x.wrapping_sub(sub_mask);
        a = swap_bytes_u32(a).wrapping_add(1);
        k = k + 1;
    }
    data.pos = exe_load_offset as u64 + header_start as u64 + 4;
    proof {
        let result = old(data).data@.take(off as int) + antidec_decrypt_seq(
            o.skip(off as int),
            xor_mask,
            add_mask,
            sub_mask,
        );
        let s = o.skip(off as int);
        assert forall|i: int| 0 <= i < o.len() implies data.data@[i] == result[i] by {
            if i < off {
            } else {
                let ri = i - off;
                assert(s.len() as int % 4 == rem as int);
                assert(s.len() as int / 4 == w as int);
                if ri < rem {
                    assert(data.data@[i] == o[i]);
                } else {
                    let j = (ri - rem) / 4;
                    let b = (ri - rem) % 4;
                    assert(ri - rem == 4 * j + b);
                    assert(i - base == 4 * j + b);
                    assert((i - base) / 4 == j && (i - base) % 4 == b) by {
                        lemma_div4(j, b);
                    };
                    assert(le_u32_at(s, rem + 4 * j) == le_u32_at(o, base + 4 * j));
                }
            }
        }
        assert(data.data@ =~= result);
    }
    Ok(())
}

/// Apply the antidec2 forward transform (encryption) to the region from
/// `exe_load_offset` to the end of the buffer, in place. This is the exact
/// inverse of [`decrypt_antidec`] over the same mask triple; the cursor is
/// left where it was.
pub fn encrypt_antidec(
    data: &mut ExecutableImage,
    exe_load_offset: u32,
    xor_mask: u32,
    add_mask: u32,
    sub_mask: u32,
) -> (r: Result<(), ReaderError>)
    ensures
        exe_load_offset as int <= old(data).data@.len() ==> r == Ok::<(), ReaderError>(())
            && final(data).data@ == old(data).data@.take(exe_load_offset as int) + antidec_encrypt_seq(
            old(data).data@.skip(exe_load_offset as int),
            xor_mask,
            add_mask,
            sub_mask,
        ),
        exe_load_offset as int > old(data).data@.len() ==> r == Err::<(), ReaderError>(
            ReaderError::IoFailure,
        ) && final(data).data@ == old(data).data@,
        final(data).pos == old(data).pos,
{
    let off: usize = exe_load_offset as usize;
    if off > data.data.len() {
        return Err(ReaderError::IoFailure);
    }
    let ghost o = data.data@;
    let region_len: usize = data.data.len() - off;
    let rem: usize = region_len % 4;
    let w: usize = region_len / 4;
    let base: usize = off + rem;
    proof {
        assert(region_len as int == 4 * (w as int) + rem as int);
    }
    let mut x: u32 = xor_mask;
    let mut a: u32 = add_mask;
    let mut k: usize = 0;
    while k < w
        invariant
            data.data@.len() == o.len(),
            o.len() <= usize::MAX,
            off + region_len == o.len(),
            region_len as int == 4 * (w as int) + rem as int,
            base == off + rem,
            k <= w,
            x == antidec_xmask(xor_mask, sub_mask, k as nat),
            a == antidec_amask(add_mask, k as nat),
            data.pos == old(data).pos,
            forall|i: int| 0 <= i < base + 4 * ((w - k) as int) ==> data.data@[i] == o[i],
            forall|i: int|
                base + 4 * ((w - k) as int) <= i < o.len() ==> data.data@[i] == ({
                    let j = (i - base) / 4;
                    let b = (i - base) % 4;
                    byte_of(
                        antidec_word_encrypt(
                            le_u32_at(o, base + 4 * j),
                            antidec_xmask(xor_mask, sub_mask, (w - 1 - j) as nat),
                            antidec_amask(add_mask, (w - 1 - j) as nat),
                        ),
                        b,
                    )
                }),
        decreases w - k,
    {
        let j: usize = w - 1 - k;
        let i0: usize = base + 4 * j;
        let v: u32 = word_at(&data.data, i0);
        proof {
            assert(le_u32_at(data.data@, i0 as int) == le_u32_at(o, i0 as int));
        }
        let t1: u32 = swap_bytes_u32(v);
        let t2: u32 = t1.wrapping_sub(a);
        let t3: u32 = t2 ^ x;
        let ghost before = data.data@;
        set_word_at(&mut data.data, i0, t3);
        proof {
            assert(t3 == antidec_word_encrypt(
                le_u32_at(o, i0 as int),
                antidec_xmask(xor_mask, sub_mask, k as nat),
                antidec_amask(add_mask, k as nat),
            ));
            lemma_div4(j as int, 0);
            lemma_div4(j as int, 1);
            lemma_div4(j as int, 2);
            lemma_div4(j as int, 3);
            assert forall|i: int|
                base + 4 * ((w - k - 1) as int) <= i < o.len() implies data.data@[i] == ({
                let jj = (i - base) / 4;
                let b = (i - base) % 4;
                byte_of(
                    antidec_word_encrypt(
                        le_u32_at(o, base + 4 * jj),
                        antidec_xmask(xor_mask, sub_mask, (w - 1 - jj) as nat),
                        antidec_amask(add_mask, (w - 1 - jj) as nat),
                    ),
                    b,
                )
            }) by {
                let jj = (i - base) / 4;
                let b = (i - base) % 4;
                assert(i - base == 4 * jj + b);
                if i < base + 4 * ((w - k) as int) {
                    assert(jj == j as int) by {
                        lemma_div4(j as int, i - base - 4 * (j as int));
                    };
                    assert(data.data@[i] == byte_of(t3, b));
                } else {
                    assert(data.data@[i] == before[i]);
                }
            }
        }
        x = x.wrapping_sub(sub_mask);
        a = swap_bytes_u32(a).wrapping_add(1);
        k = k + 1;
    }
    proof {
        let result = old(data).data@.take(off as int) + antidec_encrypt_seq(
            o.skip(off as int),
            xor_mask,
            add_mask,
            sub_mask,
        );
        let s = o.skip(off as int);
        assert forall|i: int| 0 <= i < o.len() implies data.data@[i] == result[i] by {
            if i < off {
            } else {
                let ri = i - off;
                assert(s.len() as int % 4 == rem as int);
                assert(s.len() as int / 4 == w as int);
                if ri < rem {
                    assert(data.data@[i] == o[i]);
                } else {
                    let j = (ri - rem) / 4;
                    let b = (ri - rem) % 4;
                    assert(ri - rem == 4 * j + b);
                    assert(i - base == 4 * j + b);
                    assert((i - base) / 4 == j && (i - base) % 4 == b) by {
                        lemma_div4(j, b);
                    };
                    assert(le_u32_at(s, rem + 4 * j) == le_u32_at(o, base + 4 * j));
                }
            }
        }
        assert(data.data@ =~= result);
    }
    Ok(())
}

} // verus!
