//! End-to-end format detection through `find_gamedata`.

use gm8x::image::ExecutableImage;
use gm8x::reader::{find_gamedata, ReaderError};
use gm8x::GameVersion;

fn put_u32(buf: &mut Vec<u8>, off: usize, v: u32) {
    let b = v.to_le_bytes();
    buf[off] = b[0];
    buf[off + 1] = b[1];
    buf[off + 2] = b[2];
    buf[off + 3] = b[3];
}

fn put(buf: &mut Vec<u8>, off: usize, bytes: &[u8]) {
    for (i, b) in bytes.iter().enumerate() {
        buf[off + i] = *b;
    }
}

#[test]
fn minimum_size_rejection() {
    // a 10-byte buffer must fail cleanly on every probe
    let mut img = ExecutableImage::new(vec![0u8; 10]);
    let r = find_gamedata(&mut img);
    assert!(matches!(r, Err(ReaderError::IoFailure) | Err(ReaderError::UnknownFormat)));
}

#[test]
fn unknown_format_on_blank_image() {
    let mut img = ExecutableImage::new(vec![0u8; 0x144AC4]);
    assert_eq!(find_gamedata(&mut img), Err(ReaderError::UnknownFormat));
}

#[test]
fn partial_upx_packing() {
    // both section markers but no trailing magic after the version string
    let mut data = vec![0u8; 0x200];
    put(&mut data, 0x170, b"UPX0");
    put(&mut data, 0x198, b"UPX1");
    let mut img = ExecutableImage::new(data);
    assert_eq!(find_gamedata(&mut img), Err(ReaderError::PartialUPXPacking));
}

#[test]
fn upx_antidec_precedence() {
    // a buffer carrying the full UPX marker chain whose decompressed image
    // carries the antidec2 loading sequence must classify as GM8.0 via the
    // UPX path
    let mut data = vec![0u8; 0x22B];
    data[0x3C] = 0x80;
    put_u32(&mut data, 0xA8, 0x144AC4); // entry point: decompressed size
    put(&mut data, 0x170, b"UPX0");
    put(&mut data, 0x198, b"UPX1");
    // empty version string (zero byte at 0x1E8), then the trailing marker
    put(&mut data, 0x1E9, b"UPX!");
    // the compressed stream: one long zero copy, the antidec2 signature as
    // literals, then the length sentinel
    put(
        &mut data,
        0x215,
        &[
            0x28, 0xA8, 0x0A, 0x68, 0x01, 0x92, 0x24, 0xFC, 0x2F, 0xE2, 0xF7, 0xC7, 0x05, 0x2E,
            0x2F, 0x43, 0x00, 0x00, 0xA8, 0x24, 0x49, 0xFF,
        ],
    );
    let mut img = ExecutableImage::new(data);
    assert_eq!(find_gamedata(&mut img), Ok(GameVersion::GameMaker8_0));
    // the cursor follows the antidec2 parameters from the decompressed
    // image: load offset 0, header start 0, plus the header skip
    assert_eq!(img.pos, 16);
}

#[test]
fn gm80_guard_tolerance() {
    // both guard checks patched out: still GM8.0, validation skipped
    let mut data = vec![0u8; 0x144AC4];
    put(&mut data, 0xA49BE, &[0x8B, 0x45, 0xF4, 0xE8, 0x2A, 0xBD, 0xFD, 0xFF]);
    data[0xA49C6] = 0x90; // first check patched out with NOP
    put(&mut data, 0xA49E2, &[0x8B, 0xC6, 0xE8, 0x07, 0xBD, 0xFD, 0xFF]);
    data[0xA49E9] = 0x90; // second check patched out with NOP
    put_u32(&mut data, 0x144AC0, 0x1000);
    let mut img = ExecutableImage::new(data);
    assert_eq!(find_gamedata(&mut img), Ok(GameVersion::GameMaker8_0));
    assert_eq!(img.pos, 0x1010);
}

#[test]
fn gm80_intact_guards() {
    let mut data = vec![0u8; 0x144AC4];
    put(&mut data, 0xA49BE, &[0x8B, 0x45, 0xF4, 0xE8, 0x2A, 0xBD, 0xFD, 0xFF]);
    data[0xA49C6] = 0x3D;
    put_u32(&mut data, 0xA49C7, 1234);
    put(&mut data, 0xA49CB, &[0x0F, 0x85, 0x18, 0x01, 0x00, 0x00]);
    put(&mut data, 0xA49E2, &[0x8B, 0xC6, 0xE8, 0x07, 0xBD, 0xFD, 0xFF]);
    data[0xA49E9] = 0x3D;
    put_u32(&mut data, 0xA49EA, 0x320);
    put(&mut data, 0xA49EE, &[0x0F, 0x85, 0xF5, 0x00, 0x00, 0x00]);
    put_u32(&mut data, 0x144AC0, 0x100);
    put_u32(&mut data, 0x100, 1234);
    put_u32(&mut data, 0x104, 0x320);
    let mut img = ExecutableImage::new(data);
    assert_eq!(find_gamedata(&mut img), Ok(GameVersion::GameMaker8_0));
    assert_eq!(img.pos, 0x110);
}

#[test]
fn gm80_guard_mismatch_is_not_gm80() {
    // an intact guard whose header word disagrees: not this format, and
    // with nothing else matching the file is unknown
    let mut data = vec![0u8; 0x144AC4];
    put(&mut data, 0xA49BE, &[0x8B, 0x45, 0xF4, 0xE8, 0x2A, 0xBD, 0xFD, 0xFF]);
    data[0xA49C6] = 0x3D;
    put_u32(&mut data, 0xA49C7, 1234);
    put(&mut data, 0xA49CB, &[0x0F, 0x85, 0x18, 0x01, 0x00, 0x00]);
    data[0xA49E9] = 0x90;
    put_u32(&mut data, 0x144AC0, 0x100);
    put_u32(&mut data, 0x100, 999);
    let mut img = ExecutableImage::new(data);
    assert_eq!(find_gamedata(&mut img), Err(ReaderError::UnknownFormat));
}

#[test]
fn bare_antidec_detected() {
    // the antidec2 loading sequence in the base image, with a load offset
    // pointing at the very end: an empty region decrypts to itself
    let mut data = vec![0u8; 0x144AC4];
    put(&mut data, 0x32337, &[0xE2, 0xF7, 0xC7, 0x05, 0x2E, 0x2F, 0x43, 0x00]);
    data[0x32336] = 0xAA;
    let mask = 0xAAAAAAAAu32;
    put_u32(&mut data, 0x322A9, 0x144AC4u32 ^ mask); // load offset = len
    put_u32(&mut data, 0x322D3, mask); // xor mask = 0
    put_u32(&mut data, 0x322D8, mask); // add mask = 0
    put_u32(&mut data, 0x322E4, mask); // sub mask = 0
    let snapshot = {
        let mut d = vec![0u8; 0x144AC4];
        d.copy_from_slice(&data[..]);
        d
    };
    let mut img = ExecutableImage::new(data);
    assert_eq!(find_gamedata(&mut img), Ok(GameVersion::GameMaker8_0));
    // nothing lies past the load offset, so the bytes are untouched
    assert_eq!(img.data, snapshot);
    assert_eq!(img.pos, 0x144AC4 + 4 + 12);
}

#[test]
fn empty_image_is_io_failure() {
    let mut img = ExecutableImage::new(Vec::new());
    assert_eq!(find_gamedata(&mut img), Err(ReaderError::IoFailure));
}

#[test]
fn upx_marker_with_short_buffer_is_io_failure() {
    // the first marker fits but the second read runs off the end
    let mut data = vec![0u8; 0x180];
    put(&mut data, 0x170, b"UPX0");
    let mut img = ExecutableImage::new(data);
    assert_eq!(find_gamedata(&mut img), Err(ReaderError::IoFailure));
}
