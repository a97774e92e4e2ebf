//! Library for reading, editing and writing Game Maker Studio "data.win"
//! asset bundles.
//!
//! The bundle is a pseudo-IFF container: a root `FORM` chunk wrapping a fixed
//! sequence of tagged, length-prefixed chunks.  Decoding produces a
//! [`GameData`] aggregate whose records can be mutated in memory and written
//! back out; writing recomputes every absolute file offset from the new
//! layout, so nothing read from the input is trusted when re-encoding.
//! The [`pseudo_iff::PseudoIff`] layer handles the same container without
//! interpreting any chunk, and round-trips it byte-identically.

pub mod audio;
pub mod chunk;
pub mod code;
pub mod cursor;
pub mod error;
pub mod fonts;
pub mod functions;
pub mod gamedata_io;
pub mod meta_data;
pub mod options;
pub mod png;
pub mod pseudo_iff;
pub mod scripts;
pub mod sounds;
pub mod sprites;
pub mod strings;
pub mod textures;
pub mod variables;
pub mod words;
pub mod xref;
