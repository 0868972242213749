//! The UPX-undo stream decompressor: a bit-stream literal/match decoder
//! that mirrors the compiled unpacker's control flow. State is a 32-bit
//! shift register refilled from the input on demand, with a sentinel bit
//! marking exhaustion; the decoder alternates literal runs and
//! back-reference copies until a length field decodes to the sentinel.
//! The whole decode is modelled by the spec-level machine [`upx_model`],
//! which the executable decoder is proved to follow exactly; malformed
//! input is a decode error, never an out-of-bounds read or write.

use crate::bytes::le_u32_at;
use crate::image::ExecutableImage;
use crate::reader::ReaderError;
use vstd::arithmetic::power2::{lemma2_to64, lemma_pow2_adds, lemma_pow2_pos, lemma_pow2_unfold,
    pow2};
use vstd::prelude::*;
use vstd::wrapping::u32_specs;

verus! {

/// The shift register. `bits` counts the payload bits still in the
/// register (the sentinel excluded); `mult` witnesses that the register is
/// the multiple `mult * 2^(31 - bits)`, which is what forces a refill
/// exactly when the payload runs out.
struct BitReg {
    reg: u32,
    bits: Ghost<nat>,
    mult: Ghost<int>,
}

impl BitReg {
    spec fn wf(self) -> bool {
        &&& self.bits@ <= 31
        &&& self.mult@ >= 0
        &&& self.reg as int == self.mult@ * pow2((31 - self.bits@) as nat)
    }

    /// How much fuel is left before the decoder must stop: refills consume
    /// input, everything else consumes register bits.
    spec fn fuel(self, img: ExecutableImage) -> int {
        33 * (img.data@.len() - img.pos) + self.bits@
    }

    /// An empty register: the first use refills from the input.
    fn empty() -> (r: BitReg)
        ensures
            r.wf(),
            r.bits@ == 0,
            r.reg == 0x80000000,
    {
        let r = BitReg { reg: 0x80000000, bits: Ghost(0nat), mult: Ghost(1int) };
        proof {
            lemma2_to64();
        }
        r
    }

    /// Pull the next bit: double the register and report the carry; when
    /// the register empties, refill it from the next input word, whose top
    /// bit becomes the bit delivered. Exhausting the input mid-stream is a
    /// decode error.
    fn take_bit(&mut self, img: &mut ExecutableImage) -> (r: Result<bool, ReaderError>)
        requires
            old(self).wf(),
            old(img).pos <= old(img).data@.len(),
        ensures
            final(self).wf(),
            final(img).data@ == old(img).data@,
            r is Ok ==> final(img).pos <= final(img).data@.len() && final(self).fuel(*final(img))
                < old(self).fuel(*old(img)),
            r is Err ==> r == Err::<bool, ReaderError>(ReaderError::DecodeFailure),
            r matches Ok(b) ==> upx_bit(
                old(img).data@,
                old(img).pos as int,
                old(self).reg,
                old(self).bits@,
            ) == Some((b, final(img).pos as int, final(self).reg, final(self).bits@)),
            r is Err ==> upx_bit(
                old(img).data@,
                old(img).pos as int,
                old(self).reg,
                old(self).bits@,
            ) is None && final(self).reg == old(self).reg && final(self).bits@ == old(self).bits@
                && final(img).pos == old(img).pos,
    {
        let carry = self.reg >= 0x80000000;
        let doubled = self.reg.wrapping_mul(2);
        if doubled != 0 {
            proof {
                let b = self.bits@;
                let q = self.mult@;
                let d = pow2((31 - b) as nat) as int;
                lemma_pow2_pos((31 - b) as nat);
                if b == 0 {
                    // a bitless register is 0 or the bare sentinel: doubling
                    // it must wrap to zero
                    lemma2_to64();
                    assert(self.reg as int == q * 0x80000000);
                    assert(q <= 1) by (nonlinear_arith)
                        requires
                            q * 0x80000000 <= 0xFFFF_FFFF,
                            q >= 0,
                    ;
                    assert(false);
                }
                let d2 = pow2((31 - (b - 1)) as nat) as int;
                lemma2_to64();
                lemma_pow2_unfold((32 - b) as nat);
                assert(d2 == 2 * d);
                if carry {
                    vstd::arithmetic::div_mod::lemma_fundamental_div_mod_converse(
                        2 * self.reg as int,
                        0x1_0000_0000,
                        1,
                        2 * self.reg as int - 0x1_0000_0000,
                    );
                    assert(doubled as int == 2 * self.reg as int - 0x1_0000_0000);
                } else {
                    vstd::arithmetic::div_mod::lemma_fundamental_div_mod_converse(
                        2 * self.reg as int,
                        0x1_0000_0000,
                        0,
                        2 * self.reg as int,
                    );
                    assert(doubled as int == 2 * self.reg as int);
                }
                if carry {
                    lemma_pow2_adds((32 - b) as nat, b);
                    assert(0x1_0000_0000 == d2 * pow2(b));
                    assert(doubled as int == 2 * (q * d) - 0x1_0000_0000);
                    assert(2 * (q * d) == q * d2) by (nonlinear_arith)
                        requires
                            d2 == 2 * d,
                    ;
                    assert(doubled as int == (q - pow2(b)) * d2) by (nonlinear_arith)
                        requires
                            doubled as int == q * d2 - d2 * pow2(b),
                    ;
                    assert(q - pow2(b) >= 0) by (nonlinear_arith)
                        requires
                            (q - pow2(b)) * d2 >= 0,
                            d2 > 0,
                    ;
                    self.mult@ = q - pow2(b);
                } else {
                    assert(doubled as int == 2 * (q * d));
                    assert(2 * (q * d) == q * d2) by (nonlinear_arith)
                        requires
                            d2 == 2 * d,
                    ;
                    self.mult@ = q;
                }
                self.bits@ = (b - 1) as nat;
            }
            self.reg = doubled;
            Ok(carry)
        } else {
            let w = match img.read_u32_le() {
                Ok(w) => w,
                Err(_) => { return Err(ReaderError::DecodeFailure) },
            };
            let c2 = w >= 0x80000000;
            self.reg = w.wrapping_mul(2).wrapping_add(1);
            proof {
                self.bits@ = 31nat;
                self.mult@ = self.reg as int;
                lemma2_to64();
                assert((31 - self.bits@) as nat == 0nat);
                assert(self.reg as int == self.mult@ * pow2((31 - self.bits@) as nat));
            }
            Ok(c2)
        }
    }
}


/// The decoder's state between steps: input cursor, shift register with
/// its remaining payload bits, the output built so far, the output cursor,
/// and the current (negated) match distance.
pub struct UpxState {
    pub pos: int,
    pub reg: u32,
    pub bits: nat,
    pub out: Seq<u8>,
    pub pu14: u32,
    pub u12: u32,
}

/// What a decode run ends in: the finished output with the final input
/// cursor, or the error the run fails with.
pub enum UpxOutcome {
    Done(Seq<u8>, int),
    Fail(ReaderError),
}

/// One bit pulled from the shift register: the carry of a doubling, or -
/// when the register empties - the top bit of a freshly read input word.
/// `None` when the refill read runs past the end (or the register carries
/// no payload, which a well-formed register never does).
pub open spec fn upx_bit(s: Seq<u8>, pos: int, reg: u32, bits: nat) -> Option<
    (bool, int, u32, nat),
> {
    let doubled = u32_specs::wrapping_mul(reg, 2);
    if doubled != 0 {
        if bits == 0 {
            None
        } else {
            Some((reg >= 0x80000000, pos, doubled, (bits - 1) as nat))
        }
    } else {
        if pos + 4 <= s.len() && pos >= 0 {
            let w = le_u32_at(s, pos);
            Some(
                (
                    w >= 0x80000000,
                    pos + 4,
                    u32_specs::wrapping_add(u32_specs::wrapping_mul(w, 2), 1),
                    31nat,
                ),
            )
        } else {
            None
        }
    }
}

/// How much input the decoder can still consume: refills use input bytes,
/// everything else uses register bits.
pub open spec fn upx_fuel(s: Seq<u8>, pos: int, bits: nat) -> int {
    33 * (if 0 <= pos <= s.len() {
        s.len() - pos
    } else {
        0
    }) + bits
}

/// How much of the output is still writable, for the copy loop.
pub open spec fn upx_room(st: UpxState) -> int {
    if st.pu14 < st.out.len() {
        st.out.len() - st.pu14
    } else {
        0
    }
}

/// The top of the command loop: a set carry bit opens a literal run,
/// otherwise a match command is decoded directly.
pub open spec fn upx_main(s: Seq<u8>, st: UpxState, carry: bool) -> UpxOutcome
    decreases upx_fuel(s, st.pos, st.bits), 4int, 0int,
{
    if carry {
        upx_literal(s, st)
    } else {
        upx_prefix(s, st, 1)
    }
}

/// A literal run: copy input bytes to the output while the bits say so.
pub open spec fn upx_literal(s: Seq<u8>, st: UpxState) -> UpxOutcome
    decreases upx_fuel(s, st.pos, st.bits), 3int, 0int,
{
    if !(0 <= st.pos && st.pos + 1 <= s.len()) {
        UpxOutcome::Fail(ReaderError::DecodeFailure)
    } else {
        let c = s[st.pos];
        if st.pu14 >= st.out.len() {
            UpxOutcome::Fail(ReaderError::DecodeFailure)
        } else {
            let st1 = UpxState {
                pos: st.pos + 1,
                out: st.out.update(st.pu14 as int, c),
                pu14: (st.pu14 + 1) as u32,
                ..st
            };
            match upx_bit(s, st1.pos, st1.reg, st1.bits) {
                None => UpxOutcome::Fail(ReaderError::DecodeFailure),
                Some((b, pos2, reg2, bits2)) => {
                    let st2 = UpxState { pos: pos2, reg: reg2, bits: bits2, ..st1 };
                    if b {
                        upx_literal(s, st2)
                    } else {
                        upx_prefix(s, st2, 1)
                    }
                },
            }
        }
    }
}

/// The first variable-length field of a match command.
pub open spec fn upx_prefix(s: Seq<u8>, st: UpxState, u6: u32) -> UpxOutcome
    decreases upx_fuel(s, st.pos, st.bits), 3int, 0int,
{
    match upx_bit(s, st.pos, st.reg, st.bits) {
        None => UpxOutcome::Fail(ReaderError::DecodeFailure),
        Some((b_a, pos1, reg1, bits1)) => {
            let u6a = u32_specs::wrapping_add(
                u32_specs::wrapping_mul(u6, 2),
                if b_a {
                    1
                } else {
                    0
                },
            );
            match upx_bit(s, pos1, reg1, bits1) {
                None => UpxOutcome::Fail(ReaderError::DecodeFailure),
                Some((b_b, pos2, reg2, bits2)) => {
                    let st2 = UpxState { pos: pos2, reg: reg2, bits: bits2, ..st };
                    if b_b {
                        upx_field(s, st2, u6a)
                    } else {
                        match upx_bit(s, pos2, reg2, bits2) {
                            None => UpxOutcome::Fail(ReaderError::DecodeFailure),
                            Some((b_c, pos3, reg3, bits3)) => {
                                let st3 = UpxState { pos: pos3, reg: reg3, bits: bits3, ..st };
                                upx_prefix(
                                    s,
                                    st3,
                                    u32_specs::wrapping_add(
                                        u32_specs::wrapping_mul(
                                            u32_specs::wrapping_sub(u6a, 1),
                                            2,
                                        ),
                                        if b_c {
                                            1
                                        } else {
                                            0
                                        },
                                    ),
                                )
                            },
                        }
                    }
                },
            }
        },
    }
}

/// After the first field: a small field reuses the previous distance;
/// a larger one reads an extension byte, where an all-ones value is the
/// sentinel that ends decoding.
pub open spec fn upx_field(s: Seq<u8>, st: UpxState, u6: u32) -> UpxOutcome
    decreases upx_fuel(s, st.pos, st.bits), 3int, 0int,
{
    if u6 < 3 {
        match upx_bit(s, st.pos, st.reg, st.bits) {
            None => UpxOutcome::Fail(ReaderError::DecodeFailure),
            Some((d, pos1, reg1, bits1)) => {
                upx_length(s, UpxState { pos: pos1, reg: reg1, bits: bits1, ..st }, d)
            },
        }
    } else {
        if !(0 <= st.pos && st.pos + 1 <= s.len()) {
            UpxOutcome::Fail(ReaderError::DecodeFailure)
        } else {
            let ext = s[st.pos];
            let u12 = u32_specs::wrapping_add(
                u32_specs::wrapping_mul(u32_specs::wrapping_sub(u6, 3), 0x100) & 0xFFFFFF00,
                ext as u32,
            ) ^ 0xFFFFFFFF;
            if u12 == 0 {
                UpxOutcome::Done(st.out, st.pos + 1)
            } else {
                let did = u12 % 2 == 1;
                let u12b = if u12 >= 0x80000000 {
                    (u12 / 2 + 0x80000000) as u32
                } else {
                    u12 / 2
                };
                upx_length(s, UpxState { pos: st.pos + 1, u12: u12b, ..st }, did)
            }
        }
    }
}

/// The copy length: one bit for short lengths, a further bit choosing a
/// variable-length tail for long ones.
pub open spec fn upx_length(s: Seq<u8>, st: UpxState, did: bool) -> UpxOutcome
    decreases upx_fuel(s, st.pos, st.bits), 3int, 0int,
{
    if did {
        match upx_bit(s, st.pos, st.reg, st.bits) {
            None => UpxOutcome::Fail(ReaderError::DecodeFailure),
            Some((b_d, pos1, reg1, bits1)) => {
                upx_copy_begin(
                    s,
                    UpxState { pos: pos1, reg: reg1, bits: bits1, ..st },
                    if b_d {
                        1
                    } else {
                        0
                    },
                )
            },
        }
    } else {
        match upx_bit(s, st.pos, st.reg, st.bits) {
            None => UpxOutcome::Fail(ReaderError::DecodeFailure),
            Some((d2, pos1, reg1, bits1)) => {
                let st1 = UpxState { pos: pos1, reg: reg1, bits: bits1, ..st };
                if d2 {
                    match upx_bit(s, pos1, reg1, bits1) {
                        None => UpxOutcome::Fail(ReaderError::DecodeFailure),
                        Some((b_d, pos2, reg2, bits2)) => {
                            upx_copy_begin(
                                s,
                                UpxState { pos: pos2, reg: reg2, bits: bits2, ..st },
                                u32_specs::wrapping_add(
                                    2,
                                    if b_d {
                                        1
                                    } else {
                                        0
                                    },
                                ),
                            )
                        },
                    }
                } else {
                    upx_tail(s, st1, 1)
                }
            },
        }
    }
}

/// The variable-length tail of a long copy length.
pub open spec fn upx_tail(s: Seq<u8>, st: UpxState, i5: u32) -> UpxOutcome
    decreases upx_fuel(s, st.pos, st.bits), 3int, 0int,
{
    match upx_bit(s, st.pos, st.reg, st.bits) {
        None => UpxOutcome::Fail(ReaderError::DecodeFailure),
        Some((b_a, pos1, reg1, bits1)) => {
            let i5a = u32_specs::wrapping_add(
                u32_specs::wrapping_mul(i5, 2),
                if b_a {
                    1
                } else {
                    0
                },
            );
            match upx_bit(s, pos1, reg1, bits1) {
                None => UpxOutcome::Fail(ReaderError::DecodeFailure),
                Some((b_b, pos2, reg2, bits2)) => {
                    let st2 = UpxState { pos: pos2, reg: reg2, bits: bits2, ..st };
                    if b_b {
                        upx_copy_begin(s, st2, u32_specs::wrapping_add(i5a, 2))
                    } else {
                        upx_tail(s, st2, i5a)
                    }
                },
            }
        },
    }
}

/// Fix the copy count and source and start copying.
pub open spec fn upx_copy_begin(s: Seq<u8>, st: UpxState, i5: u32) -> UpxOutcome
    decreases upx_fuel(s, st.pos, st.bits), 3int, 1int,
{
    let u10 = u32_specs::wrapping_add(
        u32_specs::wrapping_add(i5, 2),
        if st.u12 < 0xFFFFFB00 {
            1
        } else {
            0
        },
    );
    upx_copy(s, st, u32_specs::wrapping_add(st.pu14, st.u12), u10)
}

/// Copy bytes from the back-reference, one at a time; running off either
/// end of the output is a decode error.
pub open spec fn upx_copy(s: Seq<u8>, st: UpxState, src: u32, cnt: u32) -> UpxOutcome
    decreases upx_fuel(s, st.pos, st.bits), 2int, upx_room(st),
{
    if st.out.len() > 0xFFFF_FFFF {
        // an output larger than the 32-bit cursors cannot arise from a PE
        // entry point
        UpxOutcome::Fail(ReaderError::DecodeFailure)
    } else if src >= st.out.len() || st.pu14 >= st.out.len() {
        UpxOutcome::Fail(ReaderError::DecodeFailure)
    } else {
        let st1 = UpxState {
            out: st.out.update(st.pu14 as int, st.out[src as int]),
            pu14: (st.pu14 + 1) as u32,
            ..st
        };
        let cnt1 = u32_specs::wrapping_sub(cnt, 1);
        if cnt1 == 0 {
            upx_next(s, st1)
        } else {
            upx_copy(s, st1, (src + 1) as u32, cnt1)
        }
    }
}

/// After a copy: one more bit decides between a literal run and the next
/// match command.
pub open spec fn upx_next(s: Seq<u8>, st: UpxState) -> UpxOutcome
    decreases upx_fuel(s, st.pos, st.bits), 1int, 0int,
{
    match upx_bit(s, st.pos, st.reg, st.bits) {
        None => UpxOutcome::Fail(ReaderError::DecodeFailure),
        Some((b, pos1, reg1, bits1)) => {
            upx_main(s, UpxState { pos: pos1, reg: reg1, bits: bits1, ..st }, b)
        },
    }
}

/// The whole decode as a function of the input bytes: read the PE header
/// fields, set up the zeroed output and the cursors, pull the first bit,
/// and run the command loop to its outcome. A buffer too short for the
/// header reads fails as a short read; exhausting the stream afterwards
/// is a decode failure.
pub open spec fn upx_model(s: Seq<u8>) -> UpxOutcome {
    if s.len() <= 0x3C {
        UpxOutcome::Fail(ReaderError::IoFailure)
    } else {
        let pe = s[0x3C] as int;
        if pe + 44 > s.len() {
            UpxOutcome::Fail(ReaderError::IoFailure)
        } else {
            let entry = le_u32_at(s, pe + 40);
            let start = pe + 44 + 361;
            if start > s.len() {
                UpxOutcome::Fail(ReaderError::DecodeFailure)
            } else {
                let st0 = UpxState {
                    pos: start,
                    reg: 0x80000000,
                    bits: 0nat,
                    out: Seq::new(entry as nat, |i: int| 0u8),
                    pu14: 0x400,
                    u12: 0xFFFFFFFF,
                };
                match upx_bit(s, st0.pos, st0.reg, st0.bits) {
                    None => UpxOutcome::Fail(ReaderError::DecodeFailure),
                    Some((b, pos1, reg1, bits1)) => {
                        upx_main(s, UpxState { pos: pos1, reg: reg1, bits: bits1, ..st0 }, b)
                    },
                }
            }
        }
    }
}

/// The decoder state a concrete moment of execution corresponds to.
spec fn st_of(img: ExecutableImage, br: BitReg, out: Seq<u8>, pu14: u32, u12: u32) -> UpxState {
    UpxState { pos: img.pos as int, reg: br.reg, bits: br.bits@, out: out, pu14: pu14, u12: u12 }
}

/// Where the unpacker reads its output size: the PE header offset named at
/// `0x3C`, plus 40.
pub open spec fn upx_output_size(s: Seq<u8>) -> u32
    recommends
        0x3C < s.len(),
        s[0x3C] + 44 <= s.len(),
{
    le_u32_at(s, s[0x3C] + 40)
}

/// A literal run: copy input bytes to the output while the bits keep
/// asking for another, then hand over to the next match command.
#[verifier::rlimit(100)]
fn run_literals(
    data: &mut ExecutableImage,
    br: &mut BitReg,
    out: &mut Vec<u8>,
    pu14: &mut u32,
    Ghost(u12): Ghost<u32>,
) -> (r: Result<(), ReaderError>)
    requires
        old(br).wf(),
        old(data).pos <= old(data).data@.len(),
        old(out)@.len() <= 0xFFFF_FFFF,
        upx_model(old(data).data@) == upx_literal(
            old(data).data@,
            st_of(*old(data), *old(br), old(out)@, *old(pu14), u12),
        ),
    ensures
        final(br).wf(),
        final(data).data@ == old(data).data@,
        final(data).pos <= final(data).data@.len(),
        final(out)@.len() == old(out)@.len(),
        r is Ok ==> final(br).fuel(*final(data)) < old(br).fuel(*old(data)),
        r is Ok ==> upx_model(old(data).data@) == upx_prefix(
            old(data).data@,
            st_of(*final(data), *final(br), final(out)@, *final(pu14), u12),
            1,
        ),
        r matches Err(e) ==> upx_model(old(data).data@) == UpxOutcome::Fail(e),
{
    let ghost s = data.data@;
    let ghost fuel_e = br.fuel(*data);
    let out_len: usize = out.len();
    loop
        invariant_except_break
            upx_model(s) == upx_literal(s, st_of(*data, *br, out@, *pu14, u12)),
        invariant
            br.wf(),
            data.pos <= data.data@.len(),
            data.data@ == s,
            s == old(data).data@,
            out@.len() == out_len,
            out_len == old(out)@.len(),
            out_len <= 0xFFFF_FFFF,
            br.fuel(*data) <= fuel_e,
        ensures
            out@.len() == old(out)@.len(),
            br.fuel(*data) < fuel_e,
            upx_model(s) == upx_prefix(s, st_of(*data, *br, out@, *pu14, u12), 1),
        decreases br.fuel(*data),
    {
        let ghost st_a = st_of(*data, *br, out@, *pu14, u12);
        let c = match data.read_u8() {
            Ok(b) => b,
            Err(_) => {
                proof {
                    assert(upx_literal(s, st_a) == UpxOutcome::Fail(ReaderError::DecodeFailure));
                }
                return Err(ReaderError::DecodeFailure);
            },
        };
        if *pu14 as usize >= out_len {
            proof {
                assert(upx_literal(s, st_a) == UpxOutcome::Fail(ReaderError::DecodeFailure));
            }
            return Err(ReaderError::DecodeFailure);
        }
        let idx: usize = *pu14 as usize;
        out[idx] = c;
        *pu14 = *pu14 + 1;
        let ghost st_b = st_of(*data, *br, out@, *pu14, u12);
        proof {
            assert(st_b == (UpxState {
                pos: st_a.pos + 1,
                out: st_a.out.update(st_a.pu14 as int, c),
                pu14: (st_a.pu14 + 1) as u32,
                ..st_a
            }));
        }
        let more = match br.take_bit(data) {
            Ok(b) => b,
            Err(e) => {
                proof {
                    assert(upx_literal(s, st_a) == UpxOutcome::Fail(ReaderError::DecodeFailure));
                }
                return Err(e);
            },
        };
        proof {
            let bitres = upx_bit(s, st_b.pos, st_b.reg, st_b.bits);
            assert(bitres == Some((more, data.pos as int, br.reg, br.bits@)));
            let st2 = UpxState { pos: data.pos as int, reg: br.reg, bits: br.bits@, ..st_b };
            assert(st2 == st_of(*data, *br, out@, *pu14, u12));
            assert(st_a.pos + 1 <= s.len() && 0 <= st_a.pos);
            assert(s[st_a.pos] == c);
            assert(st_a.pu14 < st_a.out.len());
            assert(upx_literal(s, st_a) == (if more {
                upx_literal(s, st2)
            } else {
                upx_prefix(s, st2, 1)
            }));
        }
        if !more {
            break ;
        }
    }
    Ok(())
}

/// The first variable-length field of a match command, decoded bit pair
/// by bit pair.
#[verifier::rlimit(100)]
fn decode_prefix(
    data: &mut ExecutableImage,
    br: &mut BitReg,
    Ghost(out): Ghost<Seq<u8>>,
    Ghost(pu14): Ghost<u32>,
    Ghost(u12): Ghost<u32>,
) -> (r: Result<u32, ReaderError>)
    requires
        old(br).wf(),
        old(data).pos <= old(data).data@.len(),
        upx_model(old(data).data@) == upx_prefix(
            old(data).data@,
            st_of(*old(data), *old(br), out, pu14, u12),
            1,
        ),
    ensures
        final(br).wf(),
        final(data).data@ == old(data).data@,
        final(data).pos <= final(data).data@.len(),
        r is Ok ==> final(br).fuel(*final(data)) < old(br).fuel(*old(data)),
        r matches Ok(u6) ==> upx_model(old(data).data@) == upx_field(
            old(data).data@,
            st_of(*final(data), *final(br), out, pu14, u12),
            u6,
        ),
        r matches Err(e) ==> upx_model(old(data).data@) == UpxOutcome::Fail(e),
{
    let ghost s = data.data@;
    let ghost fuel_e = br.fuel(*data);
    let mut u6: u32 = 1;
    loop
        invariant_except_break
            upx_model(s) == upx_prefix(s, st_of(*data, *br, out, pu14, u12), u6),
        invariant
            br.wf(),
            data.pos <= data.data@.len(),
            data.data@ == s,
            s == old(data).data@,
            br.fuel(*data) <= fuel_e,
        ensures
            br.fuel(*data) < fuel_e,
            upx_model(s) == upx_field(s, st_of(*data, *br, out, pu14, u12), u6),
        decreases br.fuel(*data),
    {
        let ghost st_a = st_of(*data, *br, out, pu14, u12);
        let ghost u6_0 = u6;
        let b_a = match br.take_bit(data) {
            Ok(b) => b,
            Err(e) => {
                proof {
                    assert(upx_prefix(s, st_a, u6) == UpxOutcome::Fail(ReaderError::DecodeFailure));
                }
                return Err(e);
            },
        };
        u6 = u6.wrapping_mul(2).wrapping_add(if b_a {
            1
        } else {
            0
        });
        let ghost st_b = st_of(*data, *br, out, pu14, u12);
        let b_b = match br.take_bit(data) {
            Ok(b) => b,
            Err(e) => {
                proof {
                    assert(upx_prefix(s, st_a, u6_0) == UpxOutcome::Fail(
                        ReaderError::DecodeFailure,
                    ));
                }
                return Err(e);
            },
        };
        if b_b {
            proof {
                assert(upx_prefix(s, st_a, u6_0) == upx_field(
                    s,
                    st_of(*data, *br, out, pu14, u12),
                    u6,
                ));
            }
            break ;
        }
        let ghost st_c = st_of(*data, *br, out, pu14, u12);
        let b_c = match br.take_bit(data) {
            Ok(b) => b,
            Err(e) => {
                proof {
                    assert(upx_prefix(s, st_a, u6_0) == UpxOutcome::Fail(
                        ReaderError::DecodeFailure,
                    ));
                }
                return Err(e);
            },
        };
        u6 = u6.wrapping_sub(1).wrapping_mul(2).wrapping_add(if b_c {
            1
        } else {
            0
        });
        proof {
            assert(upx_prefix(s, st_a, u6_0) == upx_prefix(
                s,
                st_of(*data, *br, out, pu14, u12),
                u6,
            ));
        }
    }
    Ok(u6)
}

/// Decode a match command's second field: a small one reuses the
/// previous distance, a larger one reads an extension byte. `Ok(None)` is
/// the sentinel: the length field decoded to all ones and the run is
/// complete; otherwise the carried bit chooses the length form.
#[verifier::rlimit(100)]
fn decode_field(
    data: &mut ExecutableImage,
    br: &mut BitReg,
    u6: u32,
    u12: &mut u32,
    Ghost(out): Ghost<Seq<u8>>,
    Ghost(pu14): Ghost<u32>,
) -> (r: Result<Option<bool>, ReaderError>)
    requires
        old(br).wf(),
        old(data).pos <= old(data).data@.len(),
        upx_model(old(data).data@) == upx_field(
            old(data).data@,
            st_of(*old(data), *old(br), out, pu14, *old(u12)),
            u6,
        ),
    ensures
        final(br).wf(),
        final(data).data@ == old(data).data@,
        final(data).pos <= final(data).data@.len(),
        r is Ok ==> final(br).fuel(*final(data)) < old(br).fuel(*old(data)),
        r matches Ok(Some(did)) ==> upx_model(old(data).data@) == upx_length(
            old(data).data@,
            st_of(*final(data), *final(br), out, pu14, *final(u12)),
            did,
        ),
        r matches Ok(None) ==> upx_model(old(data).data@) == UpxOutcome::Done(
            out,
            final(data).pos as int,
        ),
        r matches Err(e) ==> upx_model(old(data).data@) == UpxOutcome::Fail(e),
{
    let ghost s = data.data@;
    let ghost st_f = st_of(*data, *br, out, pu14, *u12);
    // small fields reuse the previous distance; larger ones read an
    // explicit extension byte, and an all-ones field is the sentinel
    let did17: bool;
    if u6 < 3 {
        did17 = match br.take_bit(data) {
            Ok(b) => b,
            Err(e) => {
                proof {
                    assert(upx_field(s, st_f, u6) == UpxOutcome::Fail(ReaderError::DecodeFailure));
                }
                return Err(e);
            },
        };
        proof {
            assert(upx_field(s, st_f, u6) == upx_length(
                s,
                st_of(*data, *br, out, pu14, *u12),
                did17,
            ));
        }
    } else {
        let ext = match data.read_u8() {
            Ok(b) => b,
            Err(_) => {
                proof {
                    assert(upx_field(s, st_f, u6) == UpxOutcome::Fail(ReaderError::DecodeFailure));
                }
                return Err(ReaderError::DecodeFailure);
            },
        };
        *u12 = (u6.wrapping_sub(3).wrapping_mul(0x100) & 0xFFFFFF00).wrapping_add(ext as u32)
            ^ 0xFFFFFFFF;
        if *u12 == 0 {
            proof {
                assert(upx_field(s, st_f, u6) == UpxOutcome::Done(out, data.pos as int));
            }
            return Ok(None);
        }
        did17 = *u12 % 2 == 1;
        *u12 = if *u12 >= 0x80000000 {
            *u12 / 2 + 0x80000000
        } else {
            *u12 / 2
        };
        proof {
            assert(upx_field(s, st_f, u6) == upx_length(
                s,
                st_of(*data, *br, out, pu14, *u12),
                did17,
            ));
        }
    }
    Ok(Some(did17))
}

/// Decode the copy length that follows the distance field: one bit for
/// short lengths, a variable-length tail for long ones.
#[verifier::rlimit(100)]
fn decode_length(
    data: &mut ExecutableImage,
    br: &mut BitReg,
    did17: bool,
    Ghost(out): Ghost<Seq<u8>>,
    Ghost(pu14): Ghost<u32>,
    Ghost(u12): Ghost<u32>,
) -> (r: Result<u32, ReaderError>)
    requires
        old(br).wf(),
        old(data).pos <= old(data).data@.len(),
        upx_model(old(data).data@) == upx_length(
            old(data).data@,
            st_of(*old(data), *old(br), out, pu14, u12),
            did17,
        ),
    ensures
        final(br).wf(),
        final(data).data@ == old(data).data@,
        final(data).pos <= final(data).data@.len(),
        r is Ok ==> final(br).fuel(*final(data)) < old(br).fuel(*old(data)),
        r matches Ok(i5) ==> upx_model(old(data).data@) == upx_copy_begin(
            old(data).data@,
            st_of(*final(data), *final(br), out, pu14, u12),
            i5,
        ),
        r matches Err(e) ==> upx_model(old(data).data@) == UpxOutcome::Fail(e),
{
    let ghost s = data.data@;
    let ghost fuel_e = br.fuel(*data);
    let ghost st_l = st_of(*data, *br, out, pu14, u12);
    if did17 {
        // a short length: a single bit
        let b_d = match br.take_bit(data) {
            Ok(b) => b,
            Err(e) => {
                proof {
                    assert(upx_length(s, st_l, did17) == UpxOutcome::Fail(
                        ReaderError::DecodeFailure,
                    ));
                }
                return Err(e);
            },
        };
        let i5: u32 = if b_d {
            1
        } else {
            0
        };
        proof {
            assert(upx_length(s, st_l, did17) == upx_copy_begin(
                s,
                st_of(*data, *br, out, pu14, u12),
                i5,
            ));
        }
        return Ok(i5);
    }
    let d2 = match br.take_bit(data) {
        Ok(b) => b,
        Err(e) => {
            proof {
                assert(upx_length(s, st_l, did17) == UpxOutcome::Fail(ReaderError::DecodeFailure));
            }
            return Err(e);
        },
    };
    if d2 {
        // still short: one more bit on top of two
        let b_d = match br.take_bit(data) {
            Ok(b) => b,
            Err(e) => {
                proof {
                    assert(upx_length(s, st_l, did17) == UpxOutcome::Fail(
                        ReaderError::DecodeFailure,
                    ));
                }
                return Err(e);
            },
        };
        let i5: u32 = if b_d {
            3
        } else {
            2
        };
        proof {
            assert(upx_length(s, st_l, did17) == upx_copy_begin(
                s,
                st_of(*data, *br, out, pu14, u12),
                i5,
            ));
        }
        return Ok(i5);
    }
    // a long length: a variable-length tail
    proof {
        assert(upx_length(s, st_l, did17) == upx_tail(s, st_of(*data, *br, out, pu14, u12), 1));
    }
    let mut i5: u32 = 1;
    let ghost fuel_c = br.fuel(*data);
    loop
        invariant_except_break
            upx_length(s, st_l, did17) == upx_tail(s, st_of(*data, *br, out, pu14, u12), i5),
        invariant
            br.wf(),
            data.pos <= data.data@.len(),
            data.data@ == s,
            s == old(data).data@,
            upx_model(s) == upx_length(s, st_l, did17),
            br.fuel(*data) <= fuel_c,
            fuel_c < fuel_e,
        ensures
            br.fuel(*data) < fuel_e,
            upx_length(s, st_l, did17) == upx_copy_begin(
                s,
                st_of(*data, *br, out, pu14, u12),
                u32_specs::wrapping_add(i5, 2),
            ),
        decreases br.fuel(*data),
    {
        let ghost st_a = st_of(*data, *br, out, pu14, u12);
        let ghost i5_0 = i5;
        let b_a = match br.take_bit(data) {
            Ok(b) => b,
            Err(e) => {
                proof {
                    assert(upx_tail(s, st_a, i5) == UpxOutcome::Fail(ReaderError::DecodeFailure));
                }
                return Err(e);
            },
        };
        i5 = i5.wrapping_mul(2).wrapping_add(if b_a {
            1
        } else {
            0
        });
        let b_b = match br.take_bit(data) {
            Ok(b) => b,
            Err(e) => {
                proof {
                    assert(upx_tail(s, st_a, i5_0) == UpxOutcome::Fail(
                        ReaderError::DecodeFailure,
                    ));
                }
                return Err(e);
            },
        };
        proof {
            assert(upx_tail(s, st_a, i5_0) == (if b_b {
                upx_copy_begin(
                    s,
                    st_of(*data, *br, out, pu14, u12),
                    u32_specs::wrapping_add(i5, 2),
                )
            } else {
                upx_tail(s, st_of(*data, *br, out, pu14, u12), i5)
            }));
        }
        if b_b {
            break ;
        }
    }
    let i5f: u32 = i5.wrapping_add(2);
    Ok(i5f)
}

/// Copy bytes from the back-reference, one at a time, holding both
/// cursors inside the output.
#[verifier::rlimit(100)]
fn run_copy(
    out: &mut Vec<u8>,
    pu14: &mut u32,
    src0: u32,
    cnt0: u32,
    Ghost(img): Ghost<ExecutableImage>,
    Ghost(breg): Ghost<BitReg>,
    Ghost(u12): Ghost<u32>,
) -> (r: Result<(), ReaderError>)
    requires
        old(out)@.len() <= 0xFFFF_FFFF,
        upx_model(img.data@) == upx_copy(
            img.data@,
            st_of(img, breg, old(out)@, *old(pu14), u12),
            src0,
            cnt0,
        ),
    ensures
        final(out)@.len() == old(out)@.len(),
        r is Ok ==> upx_model(img.data@) == upx_next(
            img.data@,
            st_of(img, breg, final(out)@, *final(pu14), u12),
        ),
        r matches Err(e) ==> upx_model(img.data@) == UpxOutcome::Fail(e),
{
    let ghost s = img.data@;
    let out_len: usize = out.len();
    let mut src: u32 = src0;
    let mut cnt: u32 = cnt0;
    loop
        invariant_except_break
            upx_model(s) == upx_copy(s, st_of(img, breg, out@, *pu14, u12), src, cnt),
        invariant
            out@.len() == out_len,
            out_len == old(out)@.len(),
            out_len <= 0xFFFF_FFFF,
            s == img.data@,
        ensures
            out@.len() == old(out)@.len(),
            upx_model(s) == upx_next(s, st_of(img, breg, out@, *pu14, u12)),
        decreases
                (if *pu14 as int <= out_len as int {
                    out_len as int - *pu14 as int
                } else {
                    0int
                }),
    {
        let ghost st_a = st_of(img, breg, out@, *pu14, u12);
        if src as usize >= out_len || *pu14 as usize >= out_len {
            proof {
                assert(upx_copy(s, st_a, src, cnt) == UpxOutcome::Fail(ReaderError::DecodeFailure));
            }
            return Err(ReaderError::DecodeFailure);
        }
        let byte = out[src as usize];
        let idx: usize = *pu14 as usize;
        out[idx] = byte;
        let ghost src_0 = src;
        let ghost cnt_0 = cnt;
        src = src + 1;
        *pu14 = *pu14 + 1;
        cnt = cnt.wrapping_sub(1);
        proof {
            assert(upx_copy(s, st_a, src_0, cnt_0) == (if cnt == 0 {
                upx_next(s, st_of(img, breg, out@, *pu14, u12))
            } else {
                upx_copy(s, st_of(img, breg, out@, *pu14, u12), src, cnt)
            }));
        }
        if cnt == 0 {
            break ;
        }
    }
    Ok(())
}

/// Unpack the UPX-compressed code of the executable into a separate
/// buffer, whose size is the entry point read from the PE header - the
/// area the stub extracts to always lies below it. The result is exactly
/// what the spec-level decoder [`upx_model`] yields for the input bytes:
/// its output and final cursor on success, its error otherwise. The input
/// buffer is only read.
#[verifier::rlimit(100)]
pub fn unpack_upx(data: &mut ExecutableImage) -> (r: Result<Vec<u8>, ReaderError>)
    ensures
        final(data).data@ == old(data).data@,
        upx_model(old(data).data@) matches UpxOutcome::Done(o, p) ==> r is Ok && r->Ok_0@ == o
            && final(data).pos == p,
        upx_model(old(data).data@) matches UpxOutcome::Fail(e) ==> r == Err::<Vec<u8>, ReaderError>(
            e,
        ),
        r is Ok ==> 0x3C < old(data).data@.len() && old(data).data@[0x3C] + 44 <= old(
            data,
        ).data@.len() && r->Ok_0@.len() == upx_output_size(old(data).data@),
{
    let ghost s = data.data@;
    // locate the PE header and read the code entry point
    data.set_pos(0x3C);
    let pe_header = match data.read_u8() {
        Ok(b) => b,
        Err(e) => {
            proof {
                assert(upx_model(s) == UpxOutcome::Fail(ReaderError::IoFailure)) by {
                }
            }
            return Err(e);
        },
    };
    data.set_pos(pe_header as u64 + 40);
    let entry_point = match data.read_u32_le() {
        Ok(v) => v,
        Err(e) => {
            proof {
                assert(upx_model(s) == UpxOutcome::Fail(ReaderError::IoFailure)) by {
                }
            }
            return Err(e);
        },
    };
    match data.skip(361) {
        Ok(()) => (),
        Err(e) => { return Err(e) },
    }

    let out_len: usize = entry_point as usize;
    let mut out: Vec<u8> = vec![0u8; out_len];
    let mut pu14: u32 = 0x400;  // output cursor
    let mut u12: u32 = 0xFFFFFFFF;  // current (negated) match distance
    proof {
        assert(out@ =~= Seq::new(entry_point as nat, |i: int| 0u8));
    }

    if data.pos > data.data.len() as u64 {
        // nothing left for the first refill: the stream is exhausted
        proof {
            assert(upx_model(s) == UpxOutcome::Fail(ReaderError::DecodeFailure)) by {
            }
        }
        return Err(ReaderError::DecodeFailure);
    }
    let mut br = BitReg::empty();
    let ghost st0 = st_of(*data, br, out@, pu14, u12);
    let mut carry18: bool = match br.take_bit(data) {
        Ok(b) => b,
        Err(e) => {
            proof {
                assert(upx_model(s) == UpxOutcome::Fail(ReaderError::DecodeFailure)) by {
                }
            }
            return Err(e);
        },
    };
    proof {
        assert(upx_model(s) == upx_main(s, st_of(*data, br, out@, pu14, u12), carry18)) by {
        }
    }

    loop
        invariant_except_break
            upx_model(s) == upx_main(s, st_of(*data, br, out@, pu14, u12), carry18),
        invariant
            br.wf(),
            data.pos <= data.data@.len(),
            data.data@ == old(data).data@,
            s == old(data).data@,
            out@.len() == out_len,
            out_len == entry_point,
            entry_point as int == upx_output_size(old(data).data@),
            0x3C < old(data).data@.len(),
            old(data).data@[0x3C] + 44 <= old(data).data@.len(),
        ensures
            upx_model(s) == UpxOutcome::Done(out@, data.pos as int),
        decreases br.fuel(*data),
    {
        if carry18 {
            proof {
                assert(upx_model(s) == upx_literal(s, st_of(*data, br, out@, pu14, u12))) by {
                }
            }
            match run_literals(data, &mut br, &mut out, &mut pu14, Ghost(u12)) {
                Ok(()) => {},
                Err(e) => {
                    return Err(e);
                },
            }
        } else {
            proof {
                assert(upx_model(s) == upx_prefix(s, st_of(*data, br, out@, pu14, u12), 1)) by {
                }
            }
        }
        // decode the first variable-length field
        let u6: u32 = match decode_prefix(data, &mut br, Ghost(out@), Ghost(pu14), Ghost(u12)) {
            Ok(v) => v,
            Err(e) => {
                return Err(e);
            },
        };
        // the distance field, or the sentinel
        let did17: bool;
        match decode_field(data, &mut br, u6, &mut u12, Ghost(out@), Ghost(pu14)) {
            Ok(Some(d)) => {
                did17 = d;
            },
            Ok(None) => {
                // the designed sentinel: decoding is complete
                break ;
            },
            Err(e) => {
                return Err(e);
            },
        }
        // the copy length
        let i5: u32 = match decode_length(
            data,
            &mut br,
            did17,
            Ghost(out@),
            Ghost(pu14),
            Ghost(u12),
        ) {
            Ok(v) => v,
            Err(e) => {
                return Err(e);
            },
        };
        // copy bytes from the back-reference, byte by byte; the compiled
        // unpacker also has an aligned 4-byte fast path, but the byte
        // loop is the byte-identical general case
        let src: u32 = pu14.wrapping_add(u12);
        let cnt: u32 = i5.wrapping_add(2).wrapping_add(
            if u12 < 0xFFFFFB00 {
                1
            } else {
                0
            },
        );
        proof {
            assert(upx_model(s) == upx_copy(s, st_of(*data, br, out@, pu14, u12), src, cnt)) by {
            }
        }
        match run_copy(&mut out, &mut pu14, src, cnt, Ghost(*data), Ghost(br), Ghost(u12)) {
            Ok(()) => {},
            Err(e) => {
                return Err(e);
            },
        }
        let ghost st_n = st_of(*data, br, out@, pu14, u12);
        carry18 = match br.take_bit(data) {
            Ok(b) => b,
            Err(e) => {
                proof {
                    assert(upx_next(s, st_n) == UpxOutcome::Fail(ReaderError::DecodeFailure)) by {
                    }
                }
                return Err(e);
            },
        };
        proof {
            assert(upx_next(s, st_n) == upx_main(s, st_of(*data, br, out@, pu14, u12), carry18))
                by {
            }
        }
    }
    Ok(out)
}

} // verus!
