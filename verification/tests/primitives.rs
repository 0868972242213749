//! The arithmetic primitives, the image cursor, zlib inflation, and the
//! GML front-end state.

use gm8x::bytes::swap_bytes_u32;
use gm8x::crc::{crc32, crc_reflect, make_crc_table};
use gm8x::gml::compiler::Compiler;
use gm8x::gml::lexer::Lexer;
use gm8x::image::ExecutableImage;
use gm8x::inflate::inflate;
use gm8x::reader::ReaderError;
use std::io::Write;

#[test]
fn swap_bytes_reverses() {
    assert_eq!(swap_bytes_u32(0x12345678), 0x78563412);
    assert_eq!(swap_bytes_u32(swap_bytes_u32(0xDEADBEEF)), 0xDEADBEEF);
    assert_eq!(swap_bytes_u32(0), 0);
}

#[test]
fn crc_reflect_reverses_bits() {
    assert_eq!(crc_reflect(1, 8), 0x80);
    assert_eq!(crc_reflect(0b1101, 4), 0b1011);
    assert_eq!(crc_reflect(1, 32), 0x80000000);
}

#[test]
fn crc_table_known_entries() {
    let table = make_crc_table();
    assert_eq!(table.len(), 256);
    assert_eq!(table[0], 0);
    assert_eq!(table[1], 0x77073096);
    assert_eq!(table[255], 0x2D02EF8D);
}

#[test]
fn crc_table_generation_deterministic() {
    assert_eq!(make_crc_table(), make_crc_table());
}

#[test]
fn crc32_empty_is_all_ones() {
    // no fold steps run: the initial accumulator comes straight back
    let table = make_crc_table();
    assert_eq!(crc32(&Vec::new(), &table), 0xFFFFFFFF);
}

#[test]
fn crc32_known_value() {
    let table = make_crc_table();
    let data: Vec<u8> = b"123456789".to_vec();
    assert_eq!(crc32(&data, &table), 0x340BC6D9);
}

#[test]
fn image_reads_and_writes() {
    let mut img = ExecutableImage::new(vec![0x78, 0x56, 0x34, 0x12, 0xFF]);
    assert_eq!(img.read_u32_le(), Ok(0x12345678));
    assert_eq!(img.read_u8(), Ok(0xFF));
    assert_eq!(img.read_u8(), Err(ReaderError::IoFailure));
    img.set_pos(0);
    img.write_u32_le(0xAABBCCDD).unwrap();
    assert_eq!(img.data, vec![0xDD, 0xCC, 0xBB, 0xAA, 0xFF]);
}

#[test]
fn image_check_bytes() {
    let mut img = ExecutableImage::new(b"UPX0rest".to_vec());
    assert_eq!(img.check_bytes(b"UPX0"), Ok(true));
    assert_eq!(img.check_bytes(b"xxxx"), Ok(false));
    assert_eq!(img.check_bytes(b"y"), Err(ReaderError::IoFailure));
}

#[test]
fn inflate_round_trip() {
    let original = b"gamedata stream with some repetition repetition repetition".to_vec();
    let mut enc = flate2::write::ZlibEncoder::new(Vec::new(), flate2::Compression::default());
    enc.write_all(&original).unwrap();
    let compressed = enc.finish().unwrap();
    assert_ne!(compressed, original);
    assert_eq!(inflate(&compressed), Ok(original));
}

#[test]
fn inflate_rejects_garbage() {
    let garbage = vec![0x01, 0x02, 0x03, 0x04];
    assert_eq!(inflate(&garbage), Err(ReaderError::IoFailure));
}

#[test]
fn compiler_registers_scripts() {
    let mut c = Compiler::new();
    c.reserve_constants(16);
    c.reserve_scripts(4);
    c.register_script(String::from("init"), 0);
    c.register_script(String::from("step"), 1);
    assert_eq!(c.script_names.len(), 2);
    assert_eq!(c.script_names[0], (String::from("init"), 0));
    assert_eq!(c.script_names[1], (String::from("step"), 1));
    assert_eq!(c.constants.len(), 0);
    assert_eq!(c.fields.len(), 0);
}

#[test]
fn lexer_fast_forward_skips_whitespace() {
    let src = b"  \n\n  x";
    let mut lex = Lexer::new(src);
    let skipped = lex.fast_forward();
    assert_eq!(skipped, 2);
    assert_eq!(lex.pos, 6);
    assert_eq!(lex.line_hint, 1);
}

#[test]
fn lexer_fast_forward_at_token_is_noop() {
    let mut lex = Lexer::new(b"var x");
    assert_eq!(lex.fast_forward(), 0);
    assert_eq!(lex.pos, 0);
}
