//! Whole-bundle round trips through the structured codec and the opaque
//! container layer.

use rgmk::audio::{Audio, AudioData};
use rgmk::code::{Code, CodeChunk};
use rgmk::cursor::{Reader, Writer};
use rgmk::fonts::Fonts;
use rgmk::functions::{Function, Functions};
use rgmk::gamedata_io::GameData;
use rgmk::meta_data::MetaData;
use rgmk::options::Options;
use rgmk::pseudo_iff::PseudoIff;
use rgmk::scripts::{Script, Scripts};
use rgmk::sounds::{Sound, Sounds};
use rgmk::sprites::Sprites;
use rgmk::strings::Strings;
use rgmk::textures::Txtr;
use rgmk::variables::{Variable, Variables};

fn minimal_metadata() -> MetaData {
    MetaData {
        possibly_gen8_version: 1,
        game_id_1_index: 0,
        default_index: 0,
        unk2: 2,
        unk3: 3,
        unk4: 4,
        unk5: 5,
        unk6: 6,
        unk7: 7,
        unk8: 8,
        game_id_2_index: 0,
        unk9: 9,
        unk10: 10,
        unk11: 11,
        unk12: 12,
        window_width: 640,
        window_height: 480,
        unk13: 13,
        unk14: 14,
        unk15: 15,
        unk16: 16,
        unk17: 17,
        unk18: 18,
        unk19: 19,
        unk20: 20,
        window_title_index: 1,
        unknown: vec![],
    }
}

fn minimal_options() -> Options {
    Options {
        unk1: 1,
        unk2: 2,
        icon_offset: 0,
        unk3: 3,
        unk4: 4,
        unk5: 5,
        unk6: 6,
        unk7: 7,
        unk8: 8,
        unk9: 9,
        unk10: 10,
        unk11: 11,
        unk12: 12,
        unk13: 13,
        unk14: 14,
        unk15: 15,
        constant1_name_index: 0,
        constant2_name_index: 0,
        constant3_name_index: 0,
        constant4_name_index: 0,
        constant5_name_index: 0,
        constant6_name_index: 0,
        constant7_name_index: 0,
        constant8_name_index: 0,
        constant9_name_index: 0,
        constant10_name_index: 0,
        constant11_name_index: 0,
        constant12_name_index: 0,
        constant13_name_index: 0,
        constant14_name_index: 1,
    }
}

fn minimal_gamedata() -> GameData {
    GameData {
        metadata: minimal_metadata(),
        options: minimal_options(),
        extn: vec![1, 2, 3, 4],
        sounds: Sounds {
            sounds: vec![Sound {
                name_index: 1,
                unk1: 11,
                ext_index: 0,
                filename_index: 1,
                unk2: 22,
                unk3: 33,
                unk4: 44,
                unk5: 55,
                unk6: 66,
            }],
        },
        audio_groups: None,
        sprites: Sprites { sprites: vec![] },
        backgrounds: vec![9, 9],
        paths: vec![],
        scripts: Scripts {
            scripts: vec![Script { name_index: 0, unknown: 7 }],
        },
        shaders: vec![8],
        fonts: Fonts { fonts: vec![] },
        timelines: vec![],
        objects: vec![],
        rooms: vec![],
        dafl: vec![],
        tpag: vec![],
        code: Code {
            code_chunks: vec![CodeChunk { name_index: 1, raw_code: vec![0xde, 0xad] }],
        },
        variables: Variables {
            variables: vec![Variable { name_index: 0, unknown: 1, code_offset: 2 }],
        },
        functions: Functions {
            functions: vec![Function { name_index: 1, unknown: 3, code_offset: 4 }],
        },
        strings: Strings {
            strings: vec![b"Default".to_vec(), b"MyGame".to_vec()],
        },
        textures: Txtr { textures: vec![] },
        audio: Audio { audio: vec![], offsets: vec![] },
    }
}

fn encode(g: &GameData) -> Vec<u8> {
    let orig = Reader::new(vec![]);
    let mut w = Writer::new();
    g.write_to_writer(&mut w, &orig).expect("encoding the bundle");
    w.data
}

#[test]
fn synthetic_form_reads_back() {
    let bytes = encode(&minimal_gamedata());
    let mut r = Reader::new(bytes);
    let g = GameData::from_reader(&mut r).expect("decoding the bundle");
    assert_eq!(g.strings.strings.len(), 2);
    assert_eq!(g.strings.strings[0], b"Default".to_vec());
    assert_eq!(g.strings.strings[1], b"MyGame".to_vec());
    assert_eq!(g.metadata.default_index, 0);
    assert_eq!(g.metadata.window_title_index, 1);
    assert_eq!(g.metadata.window_width, 640);
    assert_eq!(g.options.constant14_name_index, 1);
    assert_eq!(g.options.icon_offset, 0);
    assert_eq!(g.sounds.sounds[0].name_index, 1);
    assert_eq!(g.sounds.sounds[0].filename_index, 1);
    assert_eq!(g.scripts.scripts[0].name_index, 0);
    assert_eq!(g.code.code_chunks[0].name_index, 1);
    assert_eq!(g.code.code_chunks[0].raw_code, vec![0xde, 0xad]);
    assert_eq!(g.variables.variables[0].code_offset, 2);
    assert_eq!(g.functions.functions[0].name_index, 1);
    assert_eq!(g.extn, vec![1, 2, 3, 4]);
    assert_eq!(g.backgrounds, vec![9, 9]);
}

#[test]
fn write_read_write_is_byte_identical() {
    let first = encode(&minimal_gamedata());
    let mut r = Reader::new(first.clone());
    let g = GameData::from_reader(&mut r).expect("decoding the bundle");
    let mut w = Writer::new();
    g.write_to_writer(&mut w, &r).expect("re-encoding the bundle");
    assert_eq!(w.data, first);
}

#[test]
fn string_mutation_survives_write_and_read() {
    let bytes = encode(&minimal_gamedata());
    let mut r = Reader::new(bytes);
    let mut g = GameData::from_reader(&mut r).expect("decoding the bundle");
    g.strings.strings[1] = b"Renamed".to_vec();
    let mut w = Writer::new();
    g.write_to_writer(&mut w, &r).expect("re-encoding the bundle");
    let mut r2 = Reader::new(w.data);
    let g2 = GameData::from_reader(&mut r2).expect("decoding the mutated bundle");
    assert_eq!(g2.strings.strings[1], b"Renamed".to_vec());
    assert_eq!(g2.strings.strings[0], b"Default".to_vec());
    assert_eq!(g2.metadata.default_index, 0);
}

#[test]
fn pseudo_iff_round_trip_is_byte_identical() {
    let bytes = encode(&minimal_gamedata());
    let mut r = Reader::new(bytes.clone());
    let p = PseudoIff::load(&mut r).expect("splitting the bundle");
    let mut w = Writer::new();
    p.save(&mut w).expect("reassembling the bundle");
    assert_eq!(w.data, bytes);
}

#[test]
fn pseudo_iff_blob_edit_round_trips() {
    let bytes = encode(&minimal_gamedata());
    let mut r = Reader::new(bytes);
    let mut p = PseudoIff::load(&mut r).expect("splitting the bundle");
    p.extn = vec![7, 7, 7];
    let mut w = Writer::new();
    p.save(&mut w).expect("reassembling the bundle");
    let mut r2 = Reader::new(w.data);
    let p2 = PseudoIff::load(&mut r2).expect("splitting the edited bundle");
    assert_eq!(p2.extn, vec![7, 7, 7]);
    assert_eq!(p2.gen8, p.gen8);
    assert_eq!(p2.strg, p.strg);
}

#[test]
fn optional_chunks_round_trip() {
    let bytes = encode(&minimal_gamedata());
    let mut r = Reader::new(bytes);
    let mut p = PseudoIff::load(&mut r).expect("splitting the bundle");
    p.agrp = Some(vec![1]);
    p.lang = Some(vec![2, 3]);
    p.glob = Some(vec![]);
    let mut w = Writer::new();
    p.save(&mut w).expect("reassembling the bundle");
    let mut r2 = Reader::new(w.data.clone());
    let p2 = PseudoIff::load(&mut r2).expect("splitting the extended bundle");
    assert_eq!(p2.agrp, Some(vec![1]));
    assert_eq!(p2.lang, Some(vec![2, 3]));
    assert_eq!(p2.glob, Some(vec![]));
    // And back again, byte-identically.
    let mut w2 = Writer::new();
    p2.save(&mut w2).expect("reassembling once more");
    assert_eq!(w2.data, w.data);
}

#[test]
fn icon_offset_is_rebased_on_the_texture_data() {
    let mut g = minimal_gamedata();
    g.options.icon_offset = 48;
    let bytes = encode(&g);
    let mut r = Reader::new(bytes);
    let g2 = GameData::from_reader(&mut r).expect("decoding the bundle");
    // The stored word is relative to the texture data base; the decoder
    // hands back the same relative offset the encoder was given.
    assert_eq!(g2.options.icon_offset, 48);
}

#[test]
fn form_length_matches_content() {
    let bytes = encode(&minimal_gamedata());
    assert_eq!(&bytes[0..4], b"FORM");
    let declared = u32::from_le_bytes([bytes[4], bytes[5], bytes[6], bytes[7]]);
    assert_eq!(declared as usize, bytes.len() - 8);
}

#[test]
fn unexpected_chunk_tag_is_an_error() {
    let mut bytes = encode(&minimal_gamedata());
    // Corrupt the GEN8 tag.
    bytes[8] = b'X';
    let mut r = Reader::new(bytes);
    let res = GameData::from_reader(&mut r);
    assert!(matches!(
        res,
        Err(rgmk::error::ReadError::UnexpectedChunk { found: _, expected: _ })
    ));
}

#[test]
fn trailing_bytes_after_an_empty_font_table_are_an_error() {
    let bytes = encode(&minimal_gamedata());
    let pos = bytes.windows(4).position(|w| w == b"FONT").expect("FONT chunk");
    // Rebuild the FONT chunk as an empty table followed by unclaimed bytes;
    // the decoder has nowhere to keep them, so it must refuse, not drop them.
    let mut patched = Vec::new();
    patched.extend_from_slice(&bytes[..pos + 4]);
    patched.extend_from_slice(&8u32.to_le_bytes());
    patched.extend_from_slice(&0u32.to_le_bytes());
    patched.extend_from_slice(&[9, 9, 9, 9]);
    patched.extend_from_slice(&bytes[pos + 12..]);
    let mut r = Reader::new(patched);
    let res = GameData::from_reader(&mut r);
    assert!(matches!(res, Err(rgmk::error::ReadError::BadChunkSize { tag: _, size: 8 })));
}

#[test]
fn truncated_bundle_is_an_error() {
    let bytes = encode(&minimal_gamedata());
    let cut = bytes[..bytes.len() / 2].to_vec();
    let mut r = Reader::new(cut);
    let res = PseudoIff::load(&mut r);
    assert!(res.is_err());
}
