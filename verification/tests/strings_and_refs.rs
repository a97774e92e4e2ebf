//! The string table codec, its recomputed offsets, and cross-reference
//! resolution.

use rgmk::cursor::{Reader, Writer};
use rgmk::error::ReadError;
use rgmk::strings::{string_offsets, Strings};
use rgmk::xref::resolve;

#[test]
fn string_table_round_trips() {
    let st = Strings {
        strings: vec![b"Default".to_vec(), b"MyGame".to_vec(), b"".to_vec()],
    };
    let mut w = Writer::new();
    st.write(&mut w).expect("encoding the table");
    let mut r = Reader::new(w.data);
    let (st2, offs) = Strings::read(&mut r).expect("decoding the table");
    assert_eq!(st2.strings, st.strings);
    assert_eq!(offs.len(), 3);
}

#[test]
fn string_offsets_have_exact_values_and_increase() {
    // Content begins at absolute position 8 (right after the chunk
    // header); the offset array points 4 bytes past each length prefix.
    let st = Strings {
        strings: vec![b"ab".to_vec(), b"c".to_vec(), b"defg".to_vec()],
    };
    let offs = string_offsets(&st, 8);
    // First string: 8 (base) + 4 (count) + 12 (offset array) + 4 = 28.
    assert_eq!(offs[0], 28);
    // Second: first + 4 + 2 + 1 = first + 7.
    assert_eq!(offs[1], 35);
    // Third: second + 4 + 1 + 1 = second + 6.
    assert_eq!(offs[2], 41);
    assert!(offs[0] < offs[1] && offs[1] < offs[2]);
}

#[test]
fn table_offsets_point_at_length_prefixes() {
    let st = Strings {
        strings: vec![b"ab".to_vec(), b"c".to_vec()],
    };
    let mut w = Writer::new();
    st.write(&mut w).expect("encoding the table");
    let bytes = w.data;
    // The stored offset array starts after the header and count.
    let n = 2usize;
    for i in 0..n {
        let at = 12 + 4 * i;
        let off = u32::from_le_bytes([
            bytes[at],
            bytes[at + 1],
            bytes[at + 2],
            bytes[at + 3],
        ]) as usize;
        // At the offset stands the 4-byte length prefix of string i.
        let len = u32::from_le_bytes([
            bytes[off],
            bytes[off + 1],
            bytes[off + 2],
            bytes[off + 3],
        ]) as usize;
        assert_eq!(len, st.strings[i].len());
        assert_eq!(&bytes[off + 4..off + 4 + len], &st.strings[i][..]);
        assert_eq!(bytes[off + 4 + len], 0);
    }
}

#[test]
fn written_table_ends_on_sixteen_byte_boundary() {
    let st = Strings {
        strings: vec![b"x".to_vec()],
    };
    let mut w = Writer::new();
    st.write(&mut w).expect("encoding the table");
    assert_eq!(w.data.len() % 16, 0);
}

#[test]
fn missing_null_terminator_is_an_error() {
    let st = Strings {
        strings: vec![b"hi".to_vec()],
    };
    let mut w = Writer::new();
    st.write(&mut w).expect("encoding the table");
    let mut bytes = w.data;
    // The terminator of "hi" sits right after its 2 bytes.
    let term_at = 16 + 4 + 2;
    assert_eq!(bytes[term_at], 0);
    bytes[term_at] = 1;
    let mut r = Reader::new(bytes);
    let res = Strings::read(&mut r);
    assert!(matches!(res, Err(ReadError::MissingNullTerminator)));
}

#[test]
fn invalid_utf8_is_a_decode_error() {
    let st = Strings {
        strings: vec![b"hi".to_vec()],
    };
    let mut w = Writer::new();
    st.write(&mut w).expect("encoding the table");
    let mut bytes = w.data;
    // Corrupt the first string byte into an invalid UTF-8 sequence.
    bytes[20] = 0xff;
    let mut r = Reader::new(bytes);
    let res = Strings::read(&mut r);
    assert!(matches!(res, Err(ReadError::InvalidUtf8)));
}

#[test]
fn invalid_utf8_is_an_encode_error() {
    let st = Strings {
        strings: vec![vec![0xff, 0xfe]],
    };
    let mut w = Writer::new();
    let res = st.write(&mut w);
    assert_eq!(res, Err(rgmk::error::WriteError::InvalidUtf8));
    assert!(w.data.is_empty());
}

#[test]
fn resolve_finds_the_matching_entry() {
    let offsets: Vec<u32> = vec![16, 25, 40];
    assert_eq!(resolve(&offsets, 20), Ok(0));
    assert_eq!(resolve(&offsets, 29), Ok(1));
    assert_eq!(resolve(&offsets, 44), Ok(2));
}

#[test]
fn resolve_rejects_an_unmatched_offset() {
    let offsets: Vec<u32> = vec![16, 25];
    let res = resolve(&offsets, 21);
    assert!(matches!(
        res,
        Err(ReadError::UnresolvedStringReference { offset: 21 })
    ));
}

#[test]
fn table_overrunning_offset_space_is_too_large() {
    // With the content based at the very end of the 32-bit offset space,
    // even a tiny table cannot fit.
    let st = Strings {
        strings: vec![b"x".to_vec()],
    };
    assert_eq!(st.content_size(u32::MAX), Err(rgmk::error::WriteError::TooLarge));
}

#[test]
fn writer_patch_overwrites_in_place() {
    let mut w = Writer::new();
    w.write_u32(0x11111111);
    w.write_u32(0);
    w.write_u32(0x33333333);
    w.patch_u32(4, 0x22222222);
    assert_eq!(w.data, vec![0x11, 0x11, 0x11, 0x11, 0x22, 0x22, 0x22, 0x22, 0x33, 0x33, 0x33, 0x33]);
}
