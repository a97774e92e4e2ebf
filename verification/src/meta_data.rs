//! The `GEN8` chunk: bundle metadata.
//!
//! Layout: 26 words — a version field, cross-references to two game
//! identifier strings, the default string and the window title, the window
//! size, and unmodeled fields kept verbatim — followed by any number of
//! trailing words, also kept verbatim.

use crate::chunk::{chunk_bytes, chunk_frame_ok, chunk_size_at, get_chunk_header, TAG_GEN8};
use crate::cursor::{Reader, Writer};
use crate::error::{ReadError, WriteError};
use crate::words::{
    bytes_of_u32s, lemma_parse_u32s_agrees, parse_u32s, read_u32s, write_u32s,
};
use vstd::bytes::{lemma_auto_spec_u32_to_from_le_bytes, spec_u32_from_le_bytes};
use vstd::prelude::*;

verus! {

/// The decoded metadata record.  Cross-reference fields hold string
/// indices; everything unmodeled is kept verbatim.
pub struct MetaData {
    pub possibly_gen8_version: u32,
    pub game_id_1_index: usize,
    pub default_index: usize,
    pub unk2: u32,
    pub unk3: u32,
    pub unk4: u32,
    pub unk5: u32,
    pub unk6: u32,
    pub unk7: u32,
    pub unk8: u32,
    pub game_id_2_index: usize,
    pub unk9: u32,
    pub unk10: u32,
    pub unk11: u32,
    pub unk12: u32,
    pub window_width: u32,
    pub window_height: u32,
    pub unk13: u32,
    pub unk14: u32,
    pub unk15: u32,
    pub unk16: u32,
    pub unk17: u32,
    pub unk18: u32,
    pub unk19: u32,
    pub unk20: u32,
    pub window_title_index: usize,
    pub unknown: Vec<u32>,
}

/// The raw cross-reference offsets the metadata record carries.
#[derive(Clone, Copy)]
pub struct Offsets {
    pub game_id_1: u32,
    pub default: u32,
    pub game_id_2: u32,
    pub window_title: u32,
}

/// Every cross-reference index lies within the string table.
pub open spec fn gen8_wf(m: MetaData, n_strings: int) -> bool {
    &&& m.game_id_1_index < n_strings
    &&& m.default_index < n_strings
    &&& m.game_id_2_index < n_strings
    &&& m.window_title_index < n_strings
}

/// The 26 leading words of the chunk, cross-references resolved through
/// the string-offset array.
pub open spec fn gen8_fixed_words(m: MetaData, soffs: Seq<u32>) -> Seq<u32> {
    seq![
        m.possibly_gen8_version,
        soffs[m.game_id_1_index as int],
        soffs[m.default_index as int],
        m.unk2,
        m.unk3,
        m.unk4,
        m.unk5,
        m.unk6,
        m.unk7,
        m.unk8,
        soffs[m.game_id_2_index as int],
        m.unk9,
        m.unk10,
        m.unk11,
        m.unk12,
        m.window_width,
        m.window_height,
        m.unk13,
        m.unk14,
        m.unk15,
        m.unk16,
        m.unk17,
        m.unk18,
        m.unk19,
        m.unk20,
        soffs[m.window_title_index as int],
    ]
}

/// The chunk's content bytes: the 26 fixed words, then the trailing words.
pub open spec fn gen8_content(m: MetaData, soffs: Seq<u32>) -> Seq<u8> {
    bytes_of_u32s(gen8_fixed_words(m, soffs) + m.unknown@)
}

/// The content length.
pub open spec fn gen8_content_len(m: MetaData) -> int {
    104 + 4 * m.unknown@.len() as int
}

/// A whole `GEN8` chunk decodes at `pos`: framed with its tag, its
/// declared length covering the 26 fixed words plus a whole number of
/// trailing words, all within the buffer.
pub open spec fn gen8_parse_ok(b: Seq<u8>, pos: int) -> bool {
    &&& chunk_frame_ok(b, pos, TAG_GEN8)
    &&& chunk_size_at(b, pos) >= 104
    &&& (chunk_size_at(b, pos) - 104) % 4 == 0
    &&& pos + 8 + chunk_size_at(b, pos) <= b.len()
}

/// What cross-reference resolution leaves of a decoded `GEN8` chunk:
/// every stored word tied to the bytes at `pos`, each raw string
/// reference resolved against the table's offset array `tbl`.
pub open spec fn gen8_resolved_ok(b: Seq<u8>, pos: int, m: MetaData, tbl: Seq<u32>) -> bool {
    let n = m.unknown@.len() as int;
    let fw = parse_u32s(b, pos + 8, 26);
    &&& spec_u32_from_le_bytes(b.subrange(pos + 4, pos + 8)) == (104 + 4 * n) as u32
    &&& m.possibly_gen8_version == fw[0]
    &&& crate::xref::resolves_to(tbl, fw[1], m.game_id_1_index as int)
    &&& crate::xref::resolves_to(tbl, fw[2], m.default_index as int)
    &&& m.unk2 == fw[3]
    &&& m.unk3 == fw[4]
    &&& m.unk4 == fw[5]
    &&& m.unk5 == fw[6]
    &&& m.unk6 == fw[7]
    &&& m.unk7 == fw[8]
    &&& m.unk8 == fw[9]
    &&& crate::xref::resolves_to(tbl, fw[10], m.game_id_2_index as int)
    &&& m.unk9 == fw[11]
    &&& m.unk10 == fw[12]
    &&& m.unk11 == fw[13]
    &&& m.unk12 == fw[14]
    &&& m.window_width == fw[15]
    &&& m.window_height == fw[16]
    &&& m.unk13 == fw[17]
    &&& m.unk14 == fw[18]
    &&& m.unk15 == fw[19]
    &&& m.unk16 == fw[20]
    &&& m.unk17 == fw[21]
    &&& m.unk18 == fw[22]
    &&& m.unk19 == fw[23]
    &&& m.unk20 == fw[24]
    &&& crate::xref::resolves_to(tbl, fw[25], m.window_title_index as int)
    &&& m.unknown@ == parse_u32s(b, pos + 112, n as nat)
}

/// Every raw string reference a `GEN8` chunk at `pos` stores has a match
/// in the table's offset array `tbl`.
pub open spec fn gen8_refs_ok(b: Seq<u8>, pos: int, tbl: Seq<u32>) -> bool {
    let fw = parse_u32s(b, pos + 8, 26);
    &&& (exists|j: int| crate::xref::resolves_to(tbl, fw[1], j))
    &&& (exists|j: int| crate::xref::resolves_to(tbl, fw[2], j))
    &&& (exists|j: int| crate::xref::resolves_to(tbl, fw[10], j))
    &&& (exists|j: int| crate::xref::resolves_to(tbl, fw[25], j))
}

impl MetaData {
    /// Reads the `GEN8` chunk, yielding the record (cross-references not
    /// yet resolved) and the four raw string offsets it carries.  The
    /// declared length must cover the 26 fixed words, and its remainder
    /// must be a whole number of words.
    #[verifier::loop_isolation(false)]
    pub fn read(r: &mut Reader) -> (res: Result<(MetaData, Offsets), ReadError>)
        requires
            old(r).wf(),
        ensures
            final(r).data == old(r).data,
            final(r).wf(),
            match res {
                Ok((m, offsets)) => {
                    let b = old(r).data@;
                    let pos = old(r).pos as int;
                    let n = m.unknown@.len() as int;
                    let fw = parse_u32s(b, pos + 8, 26);
                    &&& gen8_parse_ok(b, pos)
                    &&& final(r).pos == pos + 8 + chunk_size_at(b, pos)
                    &&& spec_u32_from_le_bytes(b.subrange(pos + 4, pos + 8)) == (104 + 4 * n) as u32
                    &&& pos + 112 + 4 * n <= b.len()
                    &&& final(r).pos == pos + 112 + 4 * n
                    &&& m.possibly_gen8_version == fw[0]
                    &&& offsets.game_id_1 == fw[1]
                    &&& offsets.default == fw[2]
                    &&& m.unk2 == fw[3]
                    &&& m.unk3 == fw[4]
                    &&& m.unk4 == fw[5]
                    &&& m.unk5 == fw[6]
                    &&& m.unk6 == fw[7]
                    &&& m.unk7 == fw[8]
                    &&& m.unk8 == fw[9]
                    &&& offsets.game_id_2 == fw[10]
                    &&& m.unk9 == fw[11]
                    &&& m.unk10 == fw[12]
                    &&& m.unk11 == fw[13]
                    &&& m.unk12 == fw[14]
                    &&& m.window_width == fw[15]
                    &&& m.window_height == fw[16]
                    &&& m.unk13 == fw[17]
                    &&& m.unk14 == fw[18]
                    &&& m.unk15 == fw[19]
                    &&& m.unk16 == fw[20]
                    &&& m.unk17 == fw[21]
                    &&& m.unk18 == fw[22]
                    &&& m.unk19 == fw[23]
                    &&& m.unk20 == fw[24]
                    &&& offsets.window_title == fw[25]
                    &&& m.unknown@ == parse_u32s(b, pos + 112, n as nat)
                    &&& m.game_id_1_index == 0
                    &&& m.default_index == 0
                    &&& m.game_id_2_index == 0
                    &&& m.window_title_index == 0
                },
                Err(e) => {
                    &&& !gen8_parse_ok(old(r).data@, old(r).pos as int)
                    &&& (e is UnexpectedEof || e is UnexpectedChunk || e is BadChunkSize)
                },
            },
    {
        proof {
            lemma_auto_spec_u32_to_from_le_bytes();
        }
        let ghost b = r.data@;
        let ghost start = r.pos as int;
        let h = match get_chunk_header(r, TAG_GEN8) {
            Ok(h) => h,
            Err(e) => {
                return Err(e);
            },
        };
        if h.size < 104 || (h.size - 104) % 4 != 0 {
            return Err(ReadError::BadChunkSize { tag: TAG_GEN8, size: h.size });
        }
        let f = match read_u32s(r, 26) {
            Ok(v) => v,
            Err(e) => {
                return Err(e);
            },
        };
        proof {
            lemma_parse_u32s_agrees(b, start + 8, 26, f@);
        }
        let n_extra = (h.size - 104) / 4;
        let unknown = match read_u32s(r, n_extra as usize) {
            Ok(v) => v,
            Err(e) => {
                return Err(e);
            },
        };
        proof {
            lemma_parse_u32s_agrees(b, start + 112, n_extra as nat, unknown@);
        }
        Ok(
            (
                MetaData {
                    possibly_gen8_version: f[0],
                    game_id_1_index: 0,
                    default_index: 0,
                    unk2: f[3],
                    unk3: f[4],
                    unk4: f[5],
                    unk5: f[6],
                    unk6: f[7],
                    unk7: f[8],
                    unk8: f[9],
                    game_id_2_index: 0,
                    unk9: f[11],
                    unk10: f[12],
                    unk11: f[13],
                    unk12: f[14],
                    window_width: f[15],
                    window_height: f[16],
                    unk13: f[17],
                    unk14: f[18],
                    unk15: f[19],
                    unk16: f[20],
                    unk17: f[21],
                    unk18: f[22],
                    unk19: f[23],
                    unk20: f[24],
                    window_title_index: 0,
                    unknown,
                },
                Offsets { game_id_1: f[1], default: f[2], game_id_2: f[10], window_title: f[25] },
            ),
        )
    }

    /// The content length of this record, checked against the 32-bit
    /// length field.
    pub fn content_size(&self) -> (res: Result<u32, WriteError>)
        ensures
            match res {
                Ok(sz) => sz == gen8_content_len(*self),
                Err(e) => e == WriteError::TooLarge && gen8_content_len(*self) > u32::MAX,
            },
    {
        let n = self.unknown.len();
        if n as u64 > ((u32::MAX as u64) - 104) / 4 {
            Err(WriteError::TooLarge)
        } else {
            Ok(104 + 4 * (n as u32))
        }
    }

    /// Writes the whole `GEN8` chunk: header, the 26 fixed words with
    /// cross-references taken from the recomputed string-offset array, then
    /// the trailing words verbatim.
    #[verifier::loop_isolation(false)]
    pub fn write(&self, w: &mut Writer, string_offsets: &Vec<u32>) -> (res: Result<
        (),
        WriteError,
    >)
        requires
            gen8_wf(*self, string_offsets@.len() as int),
            gen8_content_len(*self) <= u32::MAX,
        ensures
            match res {
                Ok(()) => final(w).data@ == old(w).data@ + chunk_bytes(
                    TAG_GEN8,
                    gen8_content(*self, string_offsets@),
                ),
                Err(e) => false,
            },
    {
        proof {
            lemma_auto_spec_u32_to_from_le_bytes();
        }
        let n = self.unknown.len();
        let ghost ws = gen8_fixed_words(*self, string_offsets@) + self.unknown@;
        let mut words: Vec<u32> = Vec::new();
        words.push(self.possibly_gen8_version);
        words.push(string_offsets[self.game_id_1_index]);
        words.push(string_offsets[self.default_index]);
        words.push(self.unk2);
        words.push(self.unk3);
        words.push(self.unk4);
        words.push(self.unk5);
        words.push(self.unk6);
        words.push(self.unk7);
        words.push(self.unk8);
        words.push(string_offsets[self.game_id_2_index]);
        words.push(self.unk9);
        words.push(self.unk10);
        words.push(self.unk11);
        words.push(self.unk12);
        words.push(self.window_width);
        words.push(self.window_height);
        words.push(self.unk13);
        words.push(self.unk14);
        words.push(self.unk15);
        words.push(self.unk16);
        words.push(self.unk17);
        words.push(self.unk18);
        words.push(self.unk19);
        words.push(self.unk20);
        words.push(string_offsets[self.window_title_index]);
        let mut i: usize = 0;
        while i < n
            invariant
                i <= n,
                n == self.unknown@.len(),
                words@.len() == 26 + i,
                words@.subrange(0, 26) == gen8_fixed_words(*self, string_offsets@),
                forall|j: int| 0 <= j < i ==> #[trigger] words@[26 + j] == self.unknown@[j],
            decreases n - i,
        {
            words.push(self.unknown[i]);
            proof {
                assert(words@.subrange(0, 26) =~= words@.drop_last().subrange(0, 26));
            }
            i = i + 1;
        }
        proof {
            assert forall|k: int| 0 <= k < ws.len() implies words@[k] == ws[k] by {
                if k < 26 {
                    assert(words@[k] == words@.subrange(0, 26)[k]);
                } else {
                    assert(words@[26 + (k - 26)] == self.unknown@[k - 26]);
                }
            }
            assert(words@ =~= ws);
            crate::words::lemma_bytes_of_u32s_len(ws);
        }
        crate::chunk::write_chunk_header(w, TAG_GEN8, (104 + 4 * n) as u32);
        write_u32s(w, words.as_slice());
        proof {
            assert(w.data@ =~= old(w).data@ + chunk_bytes(
                TAG_GEN8,
                gen8_content(*self, string_offsets@),
            ));
        }
        Ok(())
    }
}

} // verus!
