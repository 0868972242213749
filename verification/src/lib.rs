//! Extraction of plaintext gamedata from legacy GameMaker 8 executables.
//!
//! The entry point is [`reader::find_gamedata`]: it probes a loaded
//! executable image for the known protection schemes (a UPX wrapper, the
//! antidec2 cipher, or one of the two standard layouts), undoes whatever
//! obfuscation it finds, and leaves the image's cursor at the start of the
//! plaintext gamedata stream.

pub mod antidec;
pub mod bytes;
pub mod crc;
pub mod gm81;
pub mod gml;
pub mod inflate;
pub mod image;
pub mod reader;
pub mod upx;

use vstd::prelude::*;

verus! {

/// The GameMaker release a gamedata stream was produced by. Decided once by
/// the format detector; downstream parsing keys its format decisions on it.
#[derive(Clone, Copy, Debug, PartialEq, Eq, Structural)]
pub enum GameVersion {
    GameMaker8_0,
    GameMaker8_1,
}

} // verus!
