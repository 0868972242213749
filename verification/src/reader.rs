//! Format detection and dispatch for the gamedata extraction pipeline.
//!
//! The detector probes fixed file offsets for byte signatures left by the
//! known loaders, in a fixed priority order: a UPX wrapper around antidec2,
//! bare antidec2, the standard GM8.0 layout, the standard GM8.1 layout, and
//! otherwise an unknown format. On a match it extracts the scheme's
//! parameters, runs the matching transforms, and leaves the cursor at the
//! start of the plaintext gamedata.

use crate::antidec::{antidec_decrypt_seq, decrypt_antidec};
use crate::bytes::{le_u32_at, word_at};
use crate::crc::crc32_spec;
use crate::gm81::{decrypt_gm81, gm81_apply, gm81_hash_bytes, gm81_region_start};
use crate::image::ExecutableImage;
use crate::upx::{unpack_upx, upx_model, UpxOutcome};
use crate::GameVersion;
use vstd::prelude::*;

verus! {

/// A terminal failure of the extraction pipeline. None of these is retried:
/// the only recovery is probing the next candidate format, which is ordinary
/// control flow in the detector, not error handling.
#[derive(Clone, Copy, Debug, PartialEq, Eq, Structural)]
pub enum ReaderError {
    /// The buffer is too short for a required read.
    IoFailure,
    /// The UPX signature matched but a required sub-signature did not:
    /// protection is present but not fully recognized.
    PartialUPXPacking,
    /// No probe matched.
    UnknownFormat,
    /// Malformed compressed data in the stream decompressor.
    DecodeFailure,
}

/// Where the standard formats keep the header start offset.
pub const GM80_HEADER_START_POS: usize = 0x144AC0;

/// The buffer carries the antidec2 loading sequence at its fixed offset
/// (and is long enough for every read the scheme needs).
pub open spec fn antidec_sig(s: Seq<u8>) -> bool {
    &&& s.len() >= GM80_HEADER_START_POS + 4
    &&& le_u32_at(s, 0x32337) == 0x05C7F7E2
    &&& le_u32_at(s, 0x3233B) == 0x00432F2E
}

/// The single-byte XOR mask stored just before the antidec2 signature,
/// broadcast to all four bytes of a word.
pub open spec fn antidec_byte_mask(s: Seq<u8>) -> u32 {
    (s[0x32336] + s[0x32336] * 0x100 + s[0x32336] * 0x10000 + s[0x32336] * 0x1000000) as u32
}

/// The five antidec2 decryption parameters, read from fixed offsets and
/// unmasked: load offset, header start, XOR mask, add mask, subtract mask.
pub open spec fn antidec_params(s: Seq<u8>) -> (u32, u32, u32, u32, u32) {
    let m = antidec_byte_mask(s);
    (
        le_u32_at(s, 0x322A9) ^ m,
        le_u32_at(s, GM80_HEADER_START_POS as int),
        le_u32_at(s, 0x322D3) ^ m,
        le_u32_at(s, 0x322D8) ^ m,
        le_u32_at(s, 0x322E4) ^ m,
    )
}

/// Probe a buffer for the antidec2 loading sequence; on a match hand back
/// the decryption parameters extracted from it.
pub fn check_antidec(data: &Vec<u8>) -> (r: Option<(u32, u32, u32, u32, u32)>)
    ensures
        antidec_sig(data@) ==> r == Some(antidec_params(data@)),
        !antidec_sig(data@) ==> r is None,
{
    if data.len() < GM80_HEADER_START_POS + 4 {
        return None;
    }
    if word_at(data, 0x32337) != 0x05C7F7E2 || word_at(data, 0x3233B) != 0x00432F2E {
        return None;
    }
    let mb: u8 = data[0x32336];
    let m: u32 = mb as u32 + mb as u32 * 0x100 + mb as u32 * 0x10000 + mb as u32 * 0x1000000;
    let exe_load_offset: u32 = word_at(data, 0x322A9) ^ m;
    let header_start: u32 = word_at(data, GM80_HEADER_START_POS);
    let xor_mask: u32 = word_at(data, 0x322D3) ^ m;
    let add_mask: u32 = word_at(data, 0x322D8) ^ m;
    let sub_mask: u32 = word_at(data, 0x322E4) ^ m;
    Some((exe_load_offset, header_start, xor_mask, add_mask, sub_mask))
}

/// What probing for the standard GM8.0 layout decides.
pub enum Gm80Outcome {
    /// The loading sequence is absent or inconsistent: not this format.
    NotThis,
    /// A header read would run past the end of the buffer.
    ShortRead,
    /// The format matched; the cursor belongs at the start of gamedata.
    Matched,
}

/// The standard GM8.0 loading sequence at its fixed offset.
pub open spec fn gm80_sig(s: Seq<u8>) -> bool {
    le_u32_at(s, 0xA49BE) == 0xE8F4458B && le_u32_at(s, 0xA49C2) == 0xFFFDBD2A
}

/// The first guard value: `Some(Some(m))` when the magic check is intact,
/// `Some(None)` when it was patched out, `None` when the byte is neither -
/// then this is not GM8.0 at all.
pub open spec fn gm80_magic1(s: Seq<u8>) -> Option<Option<u32>> {
    if s[0xA49C6] == 0x3D {
        if le_u32_at(s, 0xA49CB) == 0x0118850F && s[0xA49CF] == 0x00 && s[0xA49D0] == 0x00 {
            Some(Some(le_u32_at(s, 0xA49C7)))
        } else {
            Some(None)
        }
    } else if s[0xA49C6] == 0x90 {
        Some(None)
    } else {
        None
    }
}

/// The second guard value (the header version), under the same
/// patched-out convention; a missing compare sequence counts as patched.
pub open spec fn gm80_magic2(s: Seq<u8>) -> Option<Option<u32>> {
    if le_u32_at(s, 0xA49E2) == 0x07E8C68B && s[0xA49E6] == 0xBD && s[0xA49E7] == 0xFD && s[0xA49E8]
        == 0xFF {
        if s[0xA49E9] == 0x3D {
            if le_u32_at(s, 0xA49EE) == 0x00F5850F && s[0xA49F2] == 0x00 && s[0xA49F3] == 0x00 {
                Some(Some(le_u32_at(s, 0xA49EA)))
            } else {
                Some(None)
            }
        } else if s[0xA49E9] == 0x90 {
            Some(None)
        } else {
            None
        }
    } else {
        Some(None)
    }
}

/// The whole GM8.0 probe: signature, both guards with tolerance for
/// patched-out checks, and validation of the guards that are present
/// against the header's first two words.
pub open spec fn gm80_outcome(s: Seq<u8>) -> Gm80Outcome {
    if s.len() < GM80_HEADER_START_POS + 4 {
        Gm80Outcome::NotThis
    } else if !gm80_sig(s) {
        Gm80Outcome::NotThis
    } else if gm80_magic1(s) is None || gm80_magic2(s) is None {
        Gm80Outcome::NotThis
    } else {
        let h = le_u32_at(s, GM80_HEADER_START_POS as int) as int;
        let m1 = gm80_magic1(s)->0;
        let m2 = gm80_magic2(s)->0;
        if m1 is Some && h + 4 > s.len() {
            Gm80Outcome::ShortRead
        } else if m1 is Some && le_u32_at(s, h) != m1->0 {
            Gm80Outcome::NotThis
        } else if m2 is Some && h + 8 > s.len() {
            Gm80Outcome::ShortRead
        } else if m2 is Some && le_u32_at(s, h + 4) != m2->0 {
            Gm80Outcome::NotThis
        } else {
            Gm80Outcome::Matched
        }
    }
}

/// Probe for the standard GM8.0 loading sequence; on a full match set the
/// cursor to the start of the gamedata, sixteen bytes past the header
/// start.
pub fn check_gm80(exe: &mut ExecutableImage) -> (r: Result<bool, ReaderError>)
    ensures
        final(exe).data@ == old(exe).data@,
        gm80_outcome(old(exe).data@) is NotThis ==> r == Ok::<bool, ReaderError>(false) && final(exe).pos == old(exe).pos,
        gm80_outcome(old(exe).data@) is ShortRead ==> r == Err::<bool, ReaderError>(
            ReaderError::IoFailure,
        ) && final(exe).pos == old(exe).pos,
        gm80_outcome(old(exe).data@) is Matched ==> r == Ok::<bool, ReaderError>(true) && final(exe).pos == le_u32_at(old(exe).data@, GM80_HEADER_START_POS as int) + 16,
{
    let len: usize = exe.data.len();
    if len < GM80_HEADER_START_POS + 4 {
        return Ok(false);
    }
    if word_at(&exe.data, 0xA49BE) != 0xE8F4458B || word_at(&exe.data, 0xA49C2) != 0xFFFDBD2A {
        return Ok(false);
    }
    // first guard: an intact CMP+JNZ carries the magic; NOP means patched
    let instr1: u8 = exe.data[0xA49C6];
    let m1: Option<u32> = if instr1 == 0x3D {
        if word_at(&exe.data, 0xA49CB) == 0x0118850F && exe.data[0xA49CF] == 0x00
            && exe.data[0xA49D0] == 0x00 {
            Some(word_at(&exe.data, 0xA49C7))
        } else {
            None
        }
    } else if instr1 == 0x90 {
        None
    } else {
        return Ok(false);
    };
    // second guard, same convention; a missing compare counts as patched
    let m2: Option<u32> = if word_at(&exe.data, 0xA49E2) == 0x07E8C68B && exe.data[0xA49E6] == 0xBD
        && exe.data[0xA49E7] == 0xFD && exe.data[0xA49E8] == 0xFF {
        let instr2: u8 = exe.data[0xA49E9];
        if instr2 == 0x3D {
            if word_at(&exe.data, 0xA49EE) == 0x00F5850F && exe.data[0xA49F2] == 0x00
                && exe.data[0xA49F3] == 0x00 {
                Some(word_at(&exe.data, 0xA49EA))
            } else {
                None
            }
        } else if instr2 == 0x90 {
            None
        } else {
            return Ok(false);
        }
    } else {
        None
    };
    // validate whichever guards are present against the header words
    let header_start: u32 = word_at(&exe.data, GM80_HEADER_START_POS);
    let h: usize = header_start as usize;
    match m1 {
        Some(n) => {
            if h > len || len - h < 4 {
                return Err(ReaderError::IoFailure);
            }
            if word_at(&exe.data, h) != n {
                return Ok(false);
            }
        },
        None => {},
    }
    match m2 {
        Some(n) => {
            if h > len || len - h < 8 {
                return Err(ReaderError::IoFailure);
            }
            if word_at(&exe.data, h + 4) != n {
                return Ok(false);
            }
        },
        None => {},
    }
    exe.set_pos(header_start as u64 + 16);
    Ok(true)
}

/// What probing for the standard GM8.1 layout decides.
pub enum Gm81Outcome {
    /// The loading sequence is absent, or the header search failed: not
    /// this format.
    NotThis,
    /// The first header-search read would run past the end of the buffer.
    ShortRead,
    /// The format matched: decryption starts with the seed reads at this
    /// offset.
    Decrypt(int),
}

/// The standard GM8.1 loading sequence at its fixed offset.
pub open spec fn gm81_sig(s: Seq<u8>) -> bool {
    le_u32_at(s, 0x226CF3) == 0xDDF280E8 && le_u32_at(s, 0x226CF7) == 0xF045C7FF
}

/// The GM8.1 guard value: present when its compare-and-jump survives,
/// absent when either instruction was patched out.
pub open spec fn gm81_magic(s: Seq<u8>) -> Option<u32> {
    if s[0x226D7C] == 0x81 && s[0x226D7D] == 0x7D && s[0x226D7E] == 0xEC && s[0x226D83] == 0x74 {
        Some(le_u32_at(s, 0x226D7F))
    } else {
        None
    }
}

/// The masked-and-summed word pair the header search compares against the
/// guard value.
pub open spec fn gm81_probe_val(s: Seq<u8>, j: int) -> u32 {
    (((le_u32_at(s, j) & 0xFF00FF00) + (le_u32_at(s, j + 4) & 0x00FF00FF)) as u32)
}

/// The linear header search: the first offset at or after `j` whose probe
/// value equals `n`. It gives up once the next read would reach the last
/// eight bytes.
pub open spec fn gm81_search(s: Seq<u8>, j: int, n: u32) -> Option<int>
    recommends
        0 <= j,
        j + 8 <= s.len(),
    decreases s.len() - j,
{
    if gm81_probe_val(s, j) == n {
        Some(j)
    } else if j + 9 >= s.len() {
        None
    } else {
        gm81_search(s, j + 1, n)
    }
}

/// The whole GM8.1 probe: signature, the optional guard, and - when the
/// guard is present - the header search for it.
pub open spec fn gm81_outcome(s: Seq<u8>) -> Gm81Outcome {
    if s.len() < 0x226D8A {
        Gm81Outcome::NotThis
    } else if !gm81_sig(s) {
        Gm81Outcome::NotThis
    } else {
        let h = le_u32_at(s, 0x226CFB) as int;
        match gm81_magic(s) {
            Some(n) => {
                if h + 8 > s.len() {
                    Gm81Outcome::ShortRead
                } else {
                    match gm81_search(s, h, n) {
                        Some(j) => Gm81Outcome::Decrypt(j + 8),
                        None => Gm81Outcome::NotThis,
                    }
                }
            },
            None => Gm81Outcome::Decrypt(h + 8),
        }
    }
}

/// Probe for the standard GM8.1 loading sequence; on a match remove the
/// GM8.1 encryption and set the cursor to the start of the gamedata.
#[verifier::rlimit(100)]
pub fn check_gm81(exe: &mut ExecutableImage) -> (r: Result<bool, ReaderError>)
    requires
        old(exe).data@.len() < 0x1000_0000_0000_0000,
    ensures
        gm81_outcome(old(exe).data@) is NotThis ==> r == Ok::<bool, ReaderError>(false) && final(exe).data@ == old(exe).data@ && final(exe).pos == old(exe).pos,
        gm81_outcome(old(exe).data@) is ShortRead ==> r == Err::<bool, ReaderError>(
            ReaderError::IoFailure,
        ) && final(exe).data@ == old(exe).data@ && final(exe).pos == old(exe).pos,
        gm81_outcome(old(exe).data@) matches Gm81Outcome::Decrypt(p0) ==> ({
            let s = old(exe).data@;
            if p0 + 8 <= s.len() {
                r == Ok::<bool, ReaderError>(true) && final(exe).data@ == gm81_apply(
                    s,
                    gm81_region_start(s, p0),
                    le_u32_at(s, p0 + 4),
                    crc32_spec(gm81_hash_bytes(le_u32_at(s, p0))),
                ) && final(exe).pos == p0 + 28
            } else {
                r == Err::<bool, ReaderError>(ReaderError::IoFailure) && final(exe).data@ == old(
                    exe,
                ).data@
            }
        }),
{
    let len: usize = exe.data.len();
    if len < 0x226D8A {
        return Ok(false);
    }
    if word_at(&exe.data, 0x226CF3) != 0xDDF280E8 || word_at(&exe.data, 0x226CF7) != 0xF045C7FF {
        return Ok(false);
    }
    let header_start: u32 = word_at(&exe.data, 0x226CFB);
    let h: usize = header_start as usize;
    // the guard value, unless its compare or jump was patched out
    let magic: Option<u32> = if exe.data[0x226D7C] == 0x81 && exe.data[0x226D7D] == 0x7D
        && exe.data[0x226D7E] == 0xEC && exe.data[0x226D83] == 0x74 {
        Some(word_at(&exe.data, 0x226D7F))
    } else {
        None
    };
    let p0: usize;
    match magic {
        Some(n) => {
            // search forward word by word for the masked sum - the
            // header's exact position is only approximately known
            if h > len || len - h < 8 {
                return Err(ReaderError::IoFailure);
            }
            let mut j: usize = h;
            let ghost s0 = exe.data@;
            loop
                invariant
                    exe.data@ == s0,
                    s0 == old(exe).data@,
                    exe.data@.len() == len,
                    len < 0x1000_0000_0000_0000,
                    h <= j,
                    j + 8 <= len,
                    len >= 0x226D8A,
                    gm81_sig(s0),
                    gm81_magic(s0) == Some(n),
                    h as int == le_u32_at(s0, 0x226CFB),
                    h + 8 <= len,
                    gm81_search(s0, h as int, n) == gm81_search(s0, j as int, n),
                ensures
                    h <= j,
                    j + 8 <= len,
                    gm81_search(s0, h as int, n) == Some(j as int),
                decreases len - j,
            {
                let wa: u32 = word_at(&exe.data, j);
                let wb: u32 = word_at(&exe.data, j + 4);
                proof {
                    assert(wa & 0xFF00FF00u32 <= 0xFF00FF00u32) by (bit_vector);
                    assert(wb & 0x00FF00FFu32 <= 0x00FF00FFu32) by (bit_vector);
                }
                let a: u32 = wa & 0xFF00FF00;
                let b: u32 = wb & 0x00FF00FF;
                let val: u32 = a + b;
                if val == n {
                    proof {
                        assert(gm81_probe_val(s0, j as int) == n);
                        assert(gm81_search(s0, j as int, n) == Some(j as int));
                    }
                    break ;
                }
                j = j + 1;
                if len - j <= 8 {
                    proof {
                        assert(gm81_search(s0, j - 1, n) is None);
                        assert(gm81_outcome(old(exe).data@) is NotThis);
                    }
                    return Ok(false);
                }
            }
            p0 = j + 8;
            proof {
                assert(gm81_outcome(old(exe).data@) == Gm81Outcome::Decrypt(p0 as int));
            }
        },
        None => {
            if h > len || len - h < 8 {
                return Err(ReaderError::IoFailure);
            }
            p0 = h + 8;
            proof {
                assert(gm81_outcome(old(exe).data@) == Gm81Outcome::Decrypt(p0 as int));
            }
        },
    }
    exe.set_pos(p0 as u64);
    match decrypt_gm81(exe) {
        Ok(()) => {},
        Err(e) => { return Err(e) },
    }
    proof {
        assert(exe.pos + 20 <= u64::MAX);
    }
    match exe.skip(20) {
        Ok(()) => {},
        Err(e) => { return Err(e) },
    }
    Ok(true)
}

/// The UPX stub's first section marker at its fixed offset.
pub open spec fn upx0_sig(s: Seq<u8>) -> bool {
    s.len() >= 0x174 && le_u32_at(s, 0x170) == 0x30585055
}

/// Both UPX section markers in place.
pub open spec fn upx01_sig(s: Seq<u8>) -> bool {
    upx0_sig(s) && s.len() >= 0x19C && le_u32_at(s, 0x198) == 0x31585055
}

/// The detector falls through to the non-UPX probes: either the first
/// marker is absent, or it is present with room for the second, which is
/// absent.
pub open spec fn upx_fallthrough(s: Seq<u8>) -> bool {
    s.len() >= 0x174 && (!upx0_sig(s) || (s.len() >= 0x19C && !upx01_sig(s)))
}

/// The index of the zero byte terminating the UPX version string, or the
/// end of the buffer when there is none.
pub open spec fn scan_zero(s: Seq<u8>, i: int) -> int
    recommends
        0 <= i,
    decreases s.len() - i,
{
    if i >= s.len() {
        s.len() as int
    } else if s[i] == 0 {
        i
    } else {
        scan_zero(s, i + 1)
    }
}

/// The full UPX confirmation: both section markers, a terminated version
/// string, and the trailing magic marker after it.
pub open spec fn upx_confirmed(s: Seq<u8>) -> bool {
    let z = scan_zero(s, 0x1E8);
    upx01_sig(s) && z < s.len() && z + 5 <= s.len() && le_u32_at(s, z + 1) == 0x21585055
}

/// Identify the game version and the start of the gamedata header, and
/// remove any version-specific encryption, leaving the cursor at the start
/// of the plaintext gamedata. The probes run in fixed priority order:
/// UPX-wrapped antidec2, bare antidec2, standard GM8.0, standard GM8.1;
/// when none matches the format is unknown.
#[verifier::rlimit(100)]
pub fn find_gamedata(exe: &mut ExecutableImage) -> (r: Result<GameVersion, ReaderError>)
    requires
        old(exe).data@.len() < 0x1000_0000_0000_0000,
    ensures
        ({
            let s = old(exe).data@;
            s.len() < 0x174 ==> r == Err::<GameVersion, ReaderError>(ReaderError::IoFailure)
                && final(exe).data@ == s
        }),
        ({
            let s = old(exe).data@;
            upx0_sig(s) && s.len() < 0x19C ==> r == Err::<GameVersion, ReaderError>(
                ReaderError::IoFailure,
            ) && final(exe).data@ == s
        }),
        ({
            let s = old(exe).data@;
            upx01_sig(s) && scan_zero(s, 0x1E8) >= s.len() ==> r == Err::<GameVersion, ReaderError>(
                ReaderError::IoFailure,
            ) && final(exe).data@ == s
        }),
        ({
            let s = old(exe).data@;
            upx01_sig(s) && scan_zero(s, 0x1E8) < s.len() && scan_zero(s, 0x1E8) + 5 > s.len()
                ==> r == Err::<GameVersion, ReaderError>(ReaderError::IoFailure) && final(exe).data@
                == s
        }),
        ({
            let s = old(exe).data@;
            upx01_sig(s) && scan_zero(s, 0x1E8) + 5 <= s.len() && scan_zero(s, 0x1E8) < s.len()
                && le_u32_at(s, scan_zero(s, 0x1E8) + 1) != 0x21585055 ==> r == Err::<
                GameVersion,
                ReaderError,
            >(ReaderError::PartialUPXPacking) && final(exe).data@ == s
        }),
        ({
            let s = old(exe).data@;
            upx_confirmed(s) ==> ({
                match upx_model(s) {
                    UpxOutcome::Fail(e) => r == Err::<GameVersion, ReaderError>(e) && final(exe).data@ == s,
                    UpxOutcome::Done(o, p) => {
                        if antidec_sig(o) {
                            let (off, hs, xm, am, sm) = antidec_params(o);
                            if off <= s.len() {
                                r == Ok::<GameVersion, ReaderError>(GameVersion::GameMaker8_0)
                                    && final(exe).data@ == s.take(off as int)
                                    + antidec_decrypt_seq(s.skip(off as int), xm, am, sm) && final(exe).pos == off + hs + 16
                            } else {
                                r == Err::<GameVersion, ReaderError>(ReaderError::IoFailure)
                            }
                        } else {
                            r == Err::<GameVersion, ReaderError>(ReaderError::UnknownFormat)
                                && final(exe).data@ == s
                        }
                    },
                }
            })
        }),
        ({
            let s = old(exe).data@;
            upx_fallthrough(s) && antidec_sig(s) ==> ({
                let (off, hs, xm, am, sm) = antidec_params(s);
                if off <= s.len() {
                    r == Ok::<GameVersion, ReaderError>(GameVersion::GameMaker8_0) && final(exe).data@ == s.take(off as int) + antidec_decrypt_seq(
                        s.skip(off as int),
                        xm,
                        am,
                        sm,
                    ) && final(exe).pos == off + hs + 16
                } else {
                    r == Err::<GameVersion, ReaderError>(ReaderError::IoFailure)
                }
            })
        }),
        ({
            let s = old(exe).data@;
            upx_fallthrough(s) && !antidec_sig(s) && gm80_outcome(s) is Matched ==> r == Ok::<
                GameVersion,
                ReaderError,
            >(GameVersion::GameMaker8_0) && final(exe).data@ == s && final(exe).pos == le_u32_at(
                s,
                GM80_HEADER_START_POS as int,
            ) + 16
        }),
        ({
            let s = old(exe).data@;
            upx_fallthrough(s) && !antidec_sig(s) && gm80_outcome(s) is ShortRead ==> r == Err::<
                GameVersion,
                ReaderError,
            >(ReaderError::IoFailure) && final(exe).data@ == s
        }),
        ({
            let s = old(exe).data@;
            upx_fallthrough(s) && !antidec_sig(s) && gm80_outcome(s) is NotThis && gm81_outcome(s)
                is NotThis ==> r == Err::<GameVersion, ReaderError>(ReaderError::UnknownFormat)
                && final(exe).data@ == s
        }),
        ({
            let s = old(exe).data@;
            upx_fallthrough(s) && !antidec_sig(s) && gm80_outcome(s) is NotThis && gm81_outcome(s)
                is ShortRead ==> r == Err::<GameVersion, ReaderError>(ReaderError::IoFailure)
                && final(exe).data@ == s
        }),
        ({
            let s = old(exe).data@;
            upx_fallthrough(s) && !antidec_sig(s) && gm80_outcome(s) is NotThis && gm81_outcome(s)
                is Decrypt ==> ({
                let p0 = gm81_outcome(s)->Decrypt_0;
                if p0 + 8 <= s.len() {
                    r == Ok::<GameVersion, ReaderError>(GameVersion::GameMaker8_1) && final(exe).data@ == gm81_apply(
                        s,
                        gm81_region_start(s, p0),
                        le_u32_at(s, p0 + 4),
                        crc32_spec(gm81_hash_bytes(le_u32_at(s, p0))),
                    ) && final(exe).pos == p0 + 28
                } else {
                    r == Err::<GameVersion, ReaderError>(ReaderError::IoFailure) && final(exe).data@
                        == s
                }
            })
        }),
{
    let len: usize = exe.data.len();
    // probe for the UPX section markers
    if len < 0x174 {
        return Err(ReaderError::IoFailure);
    }
    match upx_branch(exe) {
        Some(res) => { return res },
        None => {},
    }
    // bare antidec2, without UPX on top
    match check_antidec(&exe.data) {
        Some((exe_load_offset, header_start, xor_mask, add_mask, sub_mask)) => {
            match decrypt_antidec(exe, exe_load_offset, header_start, xor_mask, add_mask, sub_mask) {
                Ok(()) => {},
                Err(e) => { return Err(e) },
            }
            proof {
                assert(exe.pos + 12 <= u64::MAX);
            }
            match exe.skip(12) {
                Ok(()) => {},
                Err(e) => { return Err(e) },
            }
            return Ok(GameVersion::GameMaker8_0);
        },
        None => {},
    }
    // the standard, unprotected layouts
    match check_gm80(exe) {
        Ok(true) => Ok(GameVersion::GameMaker8_0),
        Ok(false) => {
            match check_gm81(exe) {
                Ok(true) => Ok(GameVersion::GameMaker8_1),
                Ok(false) => Err(ReaderError::UnknownFormat),
                Err(e) => Err(e),
            }
        },
        Err(e) => Err(e),
    }
}

/// The UPX arm of the detector: `None` means neither marker pair was
/// complete and the next probes should run on the untouched image.
#[verifier::rlimit(100)]
fn upx_branch(exe: &mut ExecutableImage) -> (r: Option<Result<GameVersion, ReaderError>>)
    requires
        old(exe).data@.len() < 0x1000_0000_0000_0000,
        old(exe).data@.len() >= 0x174,
    ensures
        ({
            let s = old(exe).data@;
            upx_fallthrough(s) ==> r is None && final(exe).data@ == s
        }),
        ({
            let s = old(exe).data@;
            upx0_sig(s) && s.len() < 0x19C ==> r == Some(Err::<GameVersion, ReaderError>(
                ReaderError::IoFailure,
            )) && final(exe).data@ == s
        }),
        ({
            let s = old(exe).data@;
            upx01_sig(s) && scan_zero(s, 0x1E8) >= s.len() ==> r == Some(Err::<
                GameVersion,
                ReaderError,
            >(ReaderError::IoFailure)) && final(exe).data@ == s
        }),
        ({
            let s = old(exe).data@;
            upx01_sig(s) && scan_zero(s, 0x1E8) < s.len() && scan_zero(s, 0x1E8) + 5 > s.len()
                ==> r == Some(Err::<GameVersion, ReaderError>(ReaderError::IoFailure)) && final(exe).data@ == s
        }),
        ({
            let s = old(exe).data@;
            upx01_sig(s) && scan_zero(s, 0x1E8) + 5 <= s.len() && scan_zero(s, 0x1E8) < s.len()
                && le_u32_at(s, scan_zero(s, 0x1E8) + 1) != 0x21585055 ==> r == Some(Err::<
                GameVersion,
                ReaderError,
            >(ReaderError::PartialUPXPacking)) && final(exe).data@ == s
        }),
        ({
            let s = old(exe).data@;
            upx_confirmed(s) ==> r is Some && (r->0 is Ok ==> r->0 == Ok::<
                GameVersion,
                ReaderError,
            >(GameVersion::GameMaker8_0))
        }),
        ({
            let s = old(exe).data@;
            upx_confirmed(s) ==> ({
                match upx_model(s) {
                    UpxOutcome::Fail(e) => r == Some(Err::<GameVersion, ReaderError>(e))
                        && final(exe).data@ == s,
                    UpxOutcome::Done(o, p) => {
                        if antidec_sig(o) {
                            let (off, hs, xm, am, sm) = antidec_params(o);
                            if off <= s.len() {
                                r == Some(Ok::<GameVersion, ReaderError>(
                                    GameVersion::GameMaker8_0,
                                )) && final(exe).data@ == s.take(off as int) + antidec_decrypt_seq(
                                    s.skip(off as int),
                                    xm,
                                    am,
                                    sm,
                                ) && final(exe).pos == off + hs + 16
                            } else {
                                r == Some(Err::<GameVersion, ReaderError>(ReaderError::IoFailure))
                            }
                        } else {
                            r == Some(Err::<GameVersion, ReaderError>(ReaderError::UnknownFormat))
                                && final(exe).data@ == s
                        }
                    },
                }
            })
        }),
{
    let ghost s = exe.data@;
    let len: usize = exe.data.len();
    if word_at(&exe.data, 0x170) == 0x30585055 {
        if len < 0x19C {
            return Some(Err(ReaderError::IoFailure));
        }
        if word_at(&exe.data, 0x198) == 0x31585055 {
            // skip the version string: a run of nonzero bytes, then zero
            let mut z: usize = 0x1E8;
            loop
                invariant
                    exe.data@ == s,
                    s == old(exe).data@,
                    upx01_sig(s),
                    len == s.len(),
                    0x1E8 <= z,
                    scan_zero(s, 0x1E8) == scan_zero(s, z as int),
                ensures
                    z < s.len(),
                    s[z as int] == 0,
                    scan_zero(s, 0x1E8) == z as int,
                decreases s.len() - z,
            {
                if z >= exe.data.len() {
                    proof {
                        assert(scan_zero(s, z as int) == s.len());
                    }
                    return Some(Err(ReaderError::IoFailure));
                }
                if exe.data[z] == 0 {
                    proof {
                        assert(scan_zero(s, z as int) == z);
                    }
                    break ;
                }
                z = z + 1;
            }
            // confirm the trailing magic marker
            if len - z < 5 {
                return Some(Err(ReaderError::IoFailure));
            }
            if word_at(&exe.data, z + 1) != 0x21585055 {
                return Some(Err(ReaderError::PartialUPXPacking));
            }
            exe.set_pos(z as u64 + 5 + 28);
            let unpacked: Vec<u8> = match unpack_upx(exe) {
                Ok(v) => v,
                Err(e) => { return Some(Err(e)) },
            };
            // the decompressed image decides; its parameters decrypt the
            // original buffer, whose gamedata sits past the packed stub
            match check_antidec(&unpacked) {
                Some((exe_load_offset, header_start, xor_mask, add_mask, sub_mask)) => {
                    match decrypt_antidec(
                        exe,
                        exe_load_offset,
                        header_start,
                        xor_mask,
                        add_mask,
                        sub_mask,
                    ) {
                        Ok(()) => {},
                        Err(e) => { return Some(Err(e)) },
                    }
                    proof {
                        assert(exe.pos + 12 <= u64::MAX);
                    }
                    match exe.skip(12) {
                        Ok(()) => {},
                        Err(e) => { return Some(Err(e)) },
                    }
                    Some(Ok(GameVersion::GameMaker8_0))
                },
                None => { Some(Err(ReaderError::UnknownFormat)) },
            }
        } else {
            None
        }
    } else {
        None
    }
}

} // verus!
