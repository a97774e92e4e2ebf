//! PNG boundary scanning and the texture codec's alignment rules.

use rgmk::audio::{Audio, AudioData};
use rgmk::cursor::{Reader, Writer};
use rgmk::error::{ReadError, WriteError};
use rgmk::png::png_length;
use rgmk::textures::{Texture, TextureSource, Txtr};

const PNG_MAGIC: [u8; 8] = [0x89, 0x50, 0x4E, 0x47, 0x0D, 0x0A, 0x1A, 0x0A];

/// A structurally valid PNG: the signature, `extra` bytes of payload in
/// one chunk, then the `IEND` chunk.  CRCs are filler; the scanner walks
/// lengths and tags only.
fn tiny_png(extra: u32) -> Vec<u8> {
    let mut v = Vec::new();
    v.extend_from_slice(&PNG_MAGIC);
    if extra > 0 {
        v.extend_from_slice(&extra.to_be_bytes());
        v.extend_from_slice(b"IDAT");
        for i in 0..extra {
            v.push((i % 251) as u8);
        }
        v.extend_from_slice(&[0xaa, 0xbb, 0xcc, 0xdd]);
    }
    v.extend_from_slice(&0u32.to_be_bytes());
    v.extend_from_slice(b"IEND");
    v.extend_from_slice(&[1, 2, 3, 4]);
    v
}

#[test]
fn scan_measures_a_single_png() {
    let png = tiny_png(5);
    let expected = png.len();
    let mut r = Reader::new(png);
    let len = png_length(&mut r).expect("scanning the PNG");
    assert_eq!(len, expected);
    // The scan restores the position.
    assert_eq!(r.tell(), 0);
}

#[test]
fn scan_of_concatenated_pngs_stops_at_each_iend() {
    let a = tiny_png(3);
    let b = tiny_png(40);
    let mut both = a.clone();
    both.extend_from_slice(&b);
    let total = both.len();
    let mut r = Reader::new(both);
    let la = png_length(&mut r).expect("scanning the first PNG");
    assert_eq!(la, a.len());
    r.seek(la).expect("seeking to the second PNG");
    let lb = png_length(&mut r).expect("scanning the second PNG");
    assert_eq!(lb, b.len());
    assert_eq!(la + lb, total);
}

#[test]
fn scan_rejects_missing_magic() {
    let mut r = Reader::new(vec![0u8; 64]);
    let res = png_length(&mut r);
    assert!(matches!(res, Err(ReadError::BadPngMagic { offset: 0 })));
}

#[test]
fn scan_rejects_truncated_png() {
    let png = tiny_png(9);
    let cut = png[..png.len() - 3].to_vec();
    let mut r = Reader::new(cut);
    let res = png_length(&mut r);
    assert!(matches!(res, Err(ReadError::UnexpectedEof)));
}

#[test]
fn written_texture_data_is_aligned() {
    let t = Txtr {
        textures: vec![
            Texture { unknown: 5, source: TextureSource::Materialized { data: tiny_png(2) } },
            Texture { unknown: 6, source: TextureSource::Materialized { data: tiny_png(130) } },
        ],
    };
    let orig = Reader::new(vec![]);
    let mut w = Writer::new();
    t.write(&mut w, &orig).expect("encoding the textures");
    let bytes = w.data;
    // Entries begin after header, count and the 2-entry offset table.
    let entries_at = 8 + 4 + 8;
    for i in 0..2 {
        let at = entries_at + 8 * i + 4;
        let off = u32::from_le_bytes([
            bytes[at],
            bytes[at + 1],
            bytes[at + 2],
            bytes[at + 3],
        ]) as usize;
        // Every PNG lands on a 128-byte boundary and starts with the
        // signature.
        assert_eq!(off % 128, 0);
        assert_eq!(&bytes[off..off + 8], &PNG_MAGIC);
        if i == 0 {
            // Entries end at 8 + 4 + 8 + 16 = 36; the first boundary
            // after that is 128.
            assert_eq!(off, 128);
        }
    }
    // The chunk end is 16-byte aligned.
    assert_eq!(bytes.len() % 16, 0);
}

#[test]
fn textures_round_trip_through_the_container() {
    let t = Txtr {
        textures: vec![Texture {
            unknown: 7,
            source: TextureSource::Materialized { data: tiny_png(17) },
        }],
    };
    let orig = Reader::new(vec![]);
    let mut w = Writer::new();
    t.write(&mut w, &orig).expect("encoding the textures");
    let mut r = Reader::new(w.data);
    let t2 = Txtr::read(&mut r).expect("decoding the textures");
    assert_eq!(t2.textures.len(), 1);
    assert_eq!(t2.textures[0].unknown, 7);
    match t2.textures[0].source {
        TextureSource::Original { offset, length } => {
            assert_eq!(offset % 128, 0);
            assert_eq!(length as usize, tiny_png(17).len());
        },
        TextureSource::Materialized { .. } => panic!("decoding keeps textures by reference"),
    }
}

#[test]
fn misaligned_texture_offset_is_an_error() {
    // A TXTR chunk with one entry whose data offset is not 128-byte
    // aligned.
    let mut content = Vec::new();
    content.extend_from_slice(&1u32.to_le_bytes());
    content.extend_from_slice(&20u32.to_le_bytes());
    content.extend_from_slice(&0u32.to_le_bytes());
    content.extend_from_slice(&25u32.to_le_bytes());
    let mut bytes = Vec::new();
    bytes.extend_from_slice(b"TXTR");
    bytes.extend_from_slice(&(content.len() as u32).to_le_bytes());
    bytes.extend_from_slice(&content);
    let mut r = Reader::new(bytes);
    let res = Txtr::read(&mut r);
    assert!(matches!(
        res,
        Err(ReadError::MisalignedTextureData { offset: 25 })
    ));
}

#[test]
fn out_of_range_texture_reference_is_an_error() {
    let t = Txtr {
        textures: vec![Texture {
            unknown: 0,
            source: TextureSource::Original { offset: 100, length: 50 },
        }],
    };
    let orig = Reader::new(vec![0u8; 40]);
    let mut w = Writer::new();
    let res = t.write(&mut w, &orig);
    assert_eq!(res, Err(WriteError::BadTextureRef));
    assert!(w.data.is_empty());
}

#[test]
fn audio_entries_round_trip_with_gaps() {
    let a = Audio {
        audio: vec![
            AudioData { data: vec![1, 2, 3] },
            AudioData { data: vec![9, 8] },
        ],
        offsets: vec![0, 10],
    };
    let mut w = Writer::new();
    a.write(&mut w).expect("encoding the audio");
    let mut r = Reader::new(w.data);
    let a2 = Audio::read(&mut r).expect("decoding the audio");
    assert_eq!(a2.offsets, vec![0, 10]);
    assert_eq!(a2.audio[0].data, vec![1, 2, 3]);
    assert_eq!(a2.audio[1].data, vec![9, 8]);
}

#[test]
fn out_of_order_audio_offsets_write_where_the_table_says() {
    // The table places the second entry before the first; each is written
    // at its own position, seek-per-entry.
    let a = Audio {
        audio: vec![
            AudioData { data: vec![1, 2, 3] },
            AudioData { data: vec![9, 8] },
        ],
        offsets: vec![10, 0],
    };
    let mut w = Writer::new();
    a.write(&mut w).expect("encoding the audio");
    let mut r = Reader::new(w.data);
    let a2 = Audio::read(&mut r).expect("decoding the audio");
    assert_eq!(a2.offsets, vec![10, 0]);
    assert_eq!(a2.audio[0].data, vec![1, 2, 3]);
    assert_eq!(a2.audio[1].data, vec![9, 8]);
}

#[test]
fn audio_table_and_entries_must_pair_up() {
    let a = Audio {
        audio: vec![AudioData { data: vec![1] }],
        offsets: vec![],
    };
    let mut w = Writer::new();
    let res = a.write(&mut w);
    assert_eq!(res, Err(WriteError::BadAudioLayout));
}
