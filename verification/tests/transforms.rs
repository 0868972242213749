//! The cipher transforms and the stream decompressor on concrete data.

use gm8x::antidec::{decrypt_antidec, encrypt_antidec};
use gm8x::gm81::decrypt_gm81;
use gm8x::image::ExecutableImage;
use gm8x::upx::unpack_upx;

#[test]
fn antidec_round_trip() {
    // encrypt with the forward transform, decrypt, and expect the exact
    // original buffer, for an arbitrary mask triple
    let original: Vec<u8> = (0u32..64).map(|i| (i * 37 + 11) as u8).collect();
    let mut img = ExecutableImage::new(original.clone());
    encrypt_antidec(&mut img, 8, 0xDEADBEEF, 0x01020304, 0x31415926).unwrap();
    assert_ne!(img.data, original);
    decrypt_antidec(&mut img, 8, 0, 0xDEADBEEF, 0x01020304, 0x31415926).unwrap();
    assert_eq!(img.data, original);
}

#[test]
fn antidec_round_trip_with_remainder() {
    // a region that is not a multiple of four keeps its leading remainder
    let original: Vec<u8> = (0u32..30).map(|i| (i * 53 + 7) as u8).collect();
    let mut img = ExecutableImage::new(original.clone());
    encrypt_antidec(&mut img, 0, 123, 456, 789).unwrap();
    decrypt_antidec(&mut img, 0, 0, 123, 456, 789).unwrap();
    assert_eq!(img.data, original);
}

#[test]
fn antidec_known_word() {
    // one zero word with an add mask of one: add, then byte-swap
    let mut img = ExecutableImage::new(vec![0u8; 4]);
    decrypt_antidec(&mut img, 0, 0, 0, 1, 0).unwrap();
    assert_eq!(img.data, vec![0x00, 0x00, 0x00, 0x01]);
    assert_eq!(img.pos, 4);
}

#[test]
fn antidec_mask_evolution() {
    // two zero words with all masks zero: the last word is processed first
    // with the initial add mask (zero), the first word with the evolved
    // mask (byte-swapped and incremented: one)
    let mut img = ExecutableImage::new(vec![0u8; 8]);
    decrypt_antidec(&mut img, 0, 0, 0, 0, 0).unwrap();
    assert_eq!(img.data, vec![0x00, 0x00, 0x00, 0x01, 0x00, 0x00, 0x00, 0x00]);
}

#[test]
fn antidec_offset_past_end_is_error() {
    let mut img = ExecutableImage::new(vec![0u8; 8]);
    assert!(decrypt_antidec(&mut img, 9, 0, 0, 0, 0).is_err());
    assert_eq!(img.data, vec![0u8; 8]);
}

#[test]
fn gm81_even_applications_restore_input() {
    // the keystream depends only on the seeds and the position, so running
    // the transform twice over the same bytes gives the input back
    let original: Vec<u8> = (0u32..600).map(|i| (i * 31 + 5) as u8).collect();
    let mut img = ExecutableImage::new(original.clone());
    decrypt_gm81(&mut img).unwrap();
    let once = img.data.clone();
    assert_ne!(once, original);
    img.pos = 0;
    decrypt_gm81(&mut img).unwrap();
    assert_eq!(img.data, original);
    assert_eq!(img.pos, 8);
}

#[test]
fn gm81_keystream_deterministic() {
    // the same seeds at the same positions give the same mask sequence
    let original: Vec<u8> = (0u32..600).map(|i| (i * 151 + 43) as u8).collect();
    let mut a = ExecutableImage::new(original.clone());
    let mut b = ExecutableImage::new(original);
    decrypt_gm81(&mut a).unwrap();
    decrypt_gm81(&mut b).unwrap();
    assert_eq!(a.data, b.data);
}

#[test]
fn gm81_short_buffer_is_error() {
    let mut img = ExecutableImage::new(vec![0u8; 7]);
    assert!(decrypt_gm81(&mut img).is_err());
    assert_eq!(img.data, vec![0u8; 7]);
}

#[test]
fn upx_literal_run_and_sentinel() {
    // a hand-built stream: a literal run of four bytes, then the length
    // field that decodes to the sentinel; the decoder must emit exactly
    // those four bytes and stop without reading past the input's end
    let mut data = vec![0u8; 0x1E2];
    data[0x3C] = 0x40; // PE header offset
    data[0x68..0x6C].copy_from_slice(&0x404u32.to_le_bytes()); // entry point
    let stream: [u8; 13] = [
        0x24, 0x49, 0x92, 0xF0, 0xDE, 0xAD, 0xBE, 0xEF, 0x00, 0x00, 0xA0, 0x92, 0xFF,
    ];
    data[0x1D5..0x1E2].copy_from_slice(&stream);
    let mut img = ExecutableImage::new(data);
    let out = unpack_upx(&mut img).unwrap();
    assert_eq!(out.len(), 0x404);
    assert_eq!(&out[0x400..0x404], &[0xDE, 0xAD, 0xBE, 0xEF]);
    assert!(out[..0x400].iter().all(|b| *b == 0));
    // every input byte was needed and none lies past the end
    assert_eq!(img.pos, 0x1E2);
}

#[test]
fn upx_truncated_stream_is_error() {
    // the same stream cut short must fail, not read out of bounds
    let mut data = vec![0u8; 0x1DC];
    data[0x3C] = 0x40;
    data[0x68..0x6C].copy_from_slice(&0x404u32.to_le_bytes());
    data[0x1D5..0x1DC].copy_from_slice(&[0x24, 0x49, 0x92, 0xF0, 0xDE, 0xAD, 0xBE]);
    let mut img = ExecutableImage::new(data);
    assert!(unpack_upx(&mut img).is_err());
}

#[test]
fn upx_output_too_small_is_decode_error() {
    // an entry point below the write cursor: the first literal write is
    // out of range and must be a decode error
    let mut data = vec![0u8; 0x1E2];
    data[0x3C] = 0x40;
    data[0x68..0x6C].copy_from_slice(&0x100u32.to_le_bytes());
    let stream: [u8; 13] = [
        0x24, 0x49, 0x92, 0xF0, 0xDE, 0xAD, 0xBE, 0xEF, 0x00, 0x00, 0xA0, 0x92, 0xFF,
    ];
    data[0x1D5..0x1E2].copy_from_slice(&stream);
    let mut img = ExecutableImage::new(data);
    assert_eq!(unpack_upx(&mut img), Err(gm8x::reader::ReaderError::DecodeFailure));
}
