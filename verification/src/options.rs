//! The `OPTN` chunk: game options.
//!
//! Layout: exactly 30 words.  Word 2 is an absolute offset into the
//! texture data region (the window icon); words 16 through 29 are
//! cross-references to the fourteen constant-name strings; the rest are
//! unmodeled fields kept verbatim.

use crate::chunk::{
    chunk_bytes, chunk_frame_ok, chunk_size_at, get_chunk_header, TAG_OPTN,
};
use crate::cursor::{Reader, Writer};
use crate::error::{ReadError, WriteError};
use crate::words::{bytes_of_u32s, lemma_parse_u32s_agrees, parse_u32s, read_u32s, write_u32s};
use vstd::bytes::{lemma_auto_spec_u32_to_from_le_bytes, spec_u32_from_le_bytes};
use vstd::prelude::*;

verus! {

/// The decoded options record.  `icon_offset` is kept relative to the
/// texture data region's base, so it survives relayouting; the constant
/// name fields hold string indices.
pub struct Options {
    pub unk1: u32,
    pub unk2: u32,
    pub icon_offset: u32,
    pub unk3: u32,
    pub unk4: u32,
    pub unk5: u32,
    pub unk6: u32,
    pub unk7: u32,
    pub unk8: u32,
    pub unk9: u32,
    pub unk10: u32,
    pub unk11: u32,
    pub unk12: u32,
    pub unk13: u32,
    pub unk14: u32,
    pub unk15: u32,
    pub constant1_name_index: usize,
    pub constant2_name_index: usize,
    pub constant3_name_index: usize,
    pub constant4_name_index: usize,
    pub constant5_name_index: usize,
    pub constant6_name_index: usize,
    pub constant7_name_index: usize,
    pub constant8_name_index: usize,
    pub constant9_name_index: usize,
    pub constant10_name_index: usize,
    pub constant11_name_index: usize,
    pub constant12_name_index: usize,
    pub constant13_name_index: usize,
    pub constant14_name_index: usize,
}

/// The raw offsets the options record carries: the absolute icon offset
/// and the fourteen constant-name cross-references.
#[derive(Clone, Copy)]
pub struct Offsets {
    pub icon_offset: u32,
    pub const1_offset: u32,
    pub const2_offset: u32,
    pub const3_offset: u32,
    pub const4_offset: u32,
    pub const5_offset: u32,
    pub const6_offset: u32,
    pub const7_offset: u32,
    pub const8_offset: u32,
    pub const9_offset: u32,
    pub const10_offset: u32,
    pub const11_offset: u32,
    pub const12_offset: u32,
    pub const13_offset: u32,
    pub const14_offset: u32,
}

/// Every cross-reference index lies within the string table.
pub open spec fn optn_names_ok(o: Options, n_strings: int) -> bool {
    &&& o.constant1_name_index < n_strings
    &&& o.constant2_name_index < n_strings
    &&& o.constant3_name_index < n_strings
    &&& o.constant4_name_index < n_strings
    &&& o.constant5_name_index < n_strings
    &&& o.constant6_name_index < n_strings
    &&& o.constant7_name_index < n_strings
    &&& o.constant8_name_index < n_strings
    &&& o.constant9_name_index < n_strings
    &&& o.constant10_name_index < n_strings
    &&& o.constant11_name_index < n_strings
    &&& o.constant12_name_index < n_strings
    &&& o.constant13_name_index < n_strings
    &&& o.constant14_name_index < n_strings
}

/// The names resolve and the icon offset survives re-basing.
pub open spec fn optn_wf(o: Options, n_strings: int, texture_data_offset: int) -> bool {
    &&& optn_names_ok(o, n_strings)
    &&& texture_data_offset + o.icon_offset <= u32::MAX
}

/// The 30 words of the chunk: the icon re-based onto the new texture data
/// region, the constants resolved through the string-offset array.
pub open spec fn optn_words(o: Options, soffs: Seq<u32>, texture_data_offset: int) -> Seq<u32> {
    seq![
        o.unk1,
        o.unk2,
        (texture_data_offset + o.icon_offset) as u32,
        o.unk3,
        o.unk4,
        o.unk5,
        o.unk6,
        o.unk7,
        o.unk8,
        o.unk9,
        o.unk10,
        o.unk11,
        o.unk12,
        o.unk13,
        o.unk14,
        o.unk15,
        soffs[o.constant1_name_index as int],
        soffs[o.constant2_name_index as int],
        soffs[o.constant3_name_index as int],
        soffs[o.constant4_name_index as int],
        soffs[o.constant5_name_index as int],
        soffs[o.constant6_name_index as int],
        soffs[o.constant7_name_index as int],
        soffs[o.constant8_name_index as int],
        soffs[o.constant9_name_index as int],
        soffs[o.constant10_name_index as int],
        soffs[o.constant11_name_index as int],
        soffs[o.constant12_name_index as int],
        soffs[o.constant13_name_index as int],
        soffs[o.constant14_name_index as int],
    ]
}

/// The chunk's content bytes.
pub open spec fn optn_content(o: Options, soffs: Seq<u32>, texture_data_offset: int) -> Seq<u8> {
    bytes_of_u32s(optn_words(o, soffs, texture_data_offset))
}

/// The content length: always 30 words.
pub open spec fn optn_content_len() -> int {
    120
}

/// A whole `OPTN` chunk decodes at `pos`: framed with its tag, its 30
/// words within the buffer.
pub open spec fn optn_parse_ok(b: Seq<u8>, pos: int) -> bool {
    &&& chunk_frame_ok(b, pos, TAG_OPTN)
    &&& pos + 128 <= b.len()
}

/// What cross-reference and icon resolution leave of a decoded `OPTN`
/// chunk: every stored word tied to the bytes at `pos`, each constant
/// name resolved against `tbl`, and the icon offset re-based on the
/// texture data base `tdo`.
pub open spec fn optn_resolved_ok(b: Seq<u8>, pos: int, o: Options, tbl: Seq<u32>, tdo: int) -> bool {
    let fw = parse_u32s(b, pos + 8, 30);
    &&& o.unk1 == fw[0]
    &&& o.unk2 == fw[1]
    &&& fw[2] >= tdo
    &&& o.icon_offset == fw[2] - tdo
    &&& o.unk3 == fw[3]
    &&& o.unk4 == fw[4]
    &&& o.unk5 == fw[5]
    &&& o.unk6 == fw[6]
    &&& o.unk7 == fw[7]
    &&& o.unk8 == fw[8]
    &&& o.unk9 == fw[9]
    &&& o.unk10 == fw[10]
    &&& o.unk11 == fw[11]
    &&& o.unk12 == fw[12]
    &&& o.unk13 == fw[13]
    &&& o.unk14 == fw[14]
    &&& o.unk15 == fw[15]
    &&& crate::xref::resolves_to(tbl, fw[16], o.constant1_name_index as int)
    &&& crate::xref::resolves_to(tbl, fw[17], o.constant2_name_index as int)
    &&& crate::xref::resolves_to(tbl, fw[18], o.constant3_name_index as int)
    &&& crate::xref::resolves_to(tbl, fw[19], o.constant4_name_index as int)
    &&& crate::xref::resolves_to(tbl, fw[20], o.constant5_name_index as int)
    &&& crate::xref::resolves_to(tbl, fw[21], o.constant6_name_index as int)
    &&& crate::xref::resolves_to(tbl, fw[22], o.constant7_name_index as int)
    &&& crate::xref::resolves_to(tbl, fw[23], o.constant8_name_index as int)
    &&& crate::xref::resolves_to(tbl, fw[24], o.constant9_name_index as int)
    &&& crate::xref::resolves_to(tbl, fw[25], o.constant10_name_index as int)
    &&& crate::xref::resolves_to(tbl, fw[26], o.constant11_name_index as int)
    &&& crate::xref::resolves_to(tbl, fw[27], o.constant12_name_index as int)
    &&& crate::xref::resolves_to(tbl, fw[28], o.constant13_name_index as int)
    &&& crate::xref::resolves_to(tbl, fw[29], o.constant14_name_index as int)
}

/// Every constant-name reference an `OPTN` chunk at `pos` stores has a
/// match in the table's offset array `tbl`.
pub open spec fn optn_refs_ok(b: Seq<u8>, pos: int, tbl: Seq<u32>) -> bool {
    let fw = parse_u32s(b, pos + 8, 30);
    &&& (exists|j: int| crate::xref::resolves_to(tbl, fw[16], j))
    &&& (exists|j: int| crate::xref::resolves_to(tbl, fw[17], j))
    &&& (exists|j: int| crate::xref::resolves_to(tbl, fw[18], j))
    &&& (exists|j: int| crate::xref::resolves_to(tbl, fw[19], j))
    &&& (exists|j: int| crate::xref::resolves_to(tbl, fw[20], j))
    &&& (exists|j: int| crate::xref::resolves_to(tbl, fw[21], j))
    &&& (exists|j: int| crate::xref::resolves_to(tbl, fw[22], j))
    &&& (exists|j: int| crate::xref::resolves_to(tbl, fw[23], j))
    &&& (exists|j: int| crate::xref::resolves_to(tbl, fw[24], j))
    &&& (exists|j: int| crate::xref::resolves_to(tbl, fw[25], j))
    &&& (exists|j: int| crate::xref::resolves_to(tbl, fw[26], j))
    &&& (exists|j: int| crate::xref::resolves_to(tbl, fw[27], j))
    &&& (exists|j: int| crate::xref::resolves_to(tbl, fw[28], j))
    &&& (exists|j: int| crate::xref::resolves_to(tbl, fw[29], j))
}

impl Options {
    /// Reads the `OPTN` chunk, yielding the record (the icon offset still
    /// absolute, re-based by the container once the texture layout is
    /// known; cross-references not yet resolved) and the raw offsets.
    pub fn read(r: &mut Reader) -> (res: Result<(Options, Offsets), ReadError>)
        requires
            old(r).wf(),
        ensures
            final(r).data == old(r).data,
            final(r).wf(),
            match res {
                Ok((o, offsets)) => {
                    let b = old(r).data@;
                    let pos = old(r).pos as int;
                    let fw = parse_u32s(b, pos + 8, 30);
                    &&& optn_parse_ok(b, pos)
                    &&& pos + 128 <= b.len()
                    &&& final(r).pos == pos + 128
                    &&& o.unk1 == fw[0]
                    &&& o.unk2 == fw[1]
                    &&& offsets.icon_offset == fw[2]
                    &&& o.unk3 == fw[3]
                    &&& o.unk4 == fw[4]
                    &&& o.unk5 == fw[5]
                    &&& o.unk6 == fw[6]
                    &&& o.unk7 == fw[7]
                    &&& o.unk8 == fw[8]
                    &&& o.unk9 == fw[9]
                    &&& o.unk10 == fw[10]
                    &&& o.unk11 == fw[11]
                    &&& o.unk12 == fw[12]
                    &&& o.unk13 == fw[13]
                    &&& o.unk14 == fw[14]
                    &&& o.unk15 == fw[15]
                    &&& offsets.const1_offset == fw[16]
                    &&& offsets.const2_offset == fw[17]
                    &&& offsets.const3_offset == fw[18]
                    &&& offsets.const4_offset == fw[19]
                    &&& offsets.const5_offset == fw[20]
                    &&& offsets.const6_offset == fw[21]
                    &&& offsets.const7_offset == fw[22]
                    &&& offsets.const8_offset == fw[23]
                    &&& offsets.const9_offset == fw[24]
                    &&& offsets.const10_offset == fw[25]
                    &&& offsets.const11_offset == fw[26]
                    &&& offsets.const12_offset == fw[27]
                    &&& offsets.const13_offset == fw[28]
                    &&& offsets.const14_offset == fw[29]
                    &&& o.icon_offset == 0
                    &&& o.constant1_name_index == 0
                    &&& o.constant2_name_index == 0
                    &&& o.constant3_name_index == 0
                    &&& o.constant4_name_index == 0
                    &&& o.constant5_name_index == 0
                    &&& o.constant6_name_index == 0
                    &&& o.constant7_name_index == 0
                    &&& o.constant8_name_index == 0
                    &&& o.constant9_name_index == 0
                    &&& o.constant10_name_index == 0
                    &&& o.constant11_name_index == 0
                    &&& o.constant12_name_index == 0
                    &&& o.constant13_name_index == 0
                    &&& o.constant14_name_index == 0
                },
                Err(e) => {
                    &&& !optn_parse_ok(old(r).data@, old(r).pos as int)
                    &&& (e is UnexpectedEof || e is UnexpectedChunk)
                },
            },
    {
        proof {
            lemma_auto_spec_u32_to_from_le_bytes();
        }
        let ghost b = r.data@;
        let ghost start = r.pos as int;
        match get_chunk_header(r, TAG_OPTN) {
            Ok(_) => (),
            Err(e) => {
                return Err(e);
            },
        }
        let f = match read_u32s(r, 30) {
            Ok(v) => v,
            Err(e) => {
                return Err(e);
            },
        };
        proof {
            lemma_parse_u32s_agrees(b, start + 8, 30, f@);
        }
        Ok(
            (
                Options {
                    unk1: f[0],
                    unk2: f[1],
                    icon_offset: 0,
                    unk3: f[3],
                    unk4: f[4],
                    unk5: f[5],
                    unk6: f[6],
                    unk7: f[7],
                    unk8: f[8],
                    unk9: f[9],
                    unk10: f[10],
                    unk11: f[11],
                    unk12: f[12],
                    unk13: f[13],
                    unk14: f[14],
                    unk15: f[15],
                    constant1_name_index: 0,
                    constant2_name_index: 0,
                    constant3_name_index: 0,
                    constant4_name_index: 0,
                    constant5_name_index: 0,
                    constant6_name_index: 0,
                    constant7_name_index: 0,
                    constant8_name_index: 0,
                    constant9_name_index: 0,
                    constant10_name_index: 0,
                    constant11_name_index: 0,
                    constant12_name_index: 0,
                    constant13_name_index: 0,
                    constant14_name_index: 0,
                },
                Offsets {
                    icon_offset: f[2],
                    const1_offset: f[16],
                    const2_offset: f[17],
                    const3_offset: f[18],
                    const4_offset: f[19],
                    const5_offset: f[20],
                    const6_offset: f[21],
                    const7_offset: f[22],
                    const8_offset: f[23],
                    const9_offset: f[24],
                    const10_offset: f[25],
                    const11_offset: f[26],
                    const12_offset: f[27],
                    const13_offset: f[28],
                    const14_offset: f[29],
                },
            ),
        )
    }

    /// The content length: always 30 words.
    pub fn content_size(&self) -> (sz: u32)
        ensures
            sz == optn_content_len(),
    {
        120
    }

    /// Writes the whole `OPTN` chunk: header, then the 30 words, with the
    /// icon re-based onto the new texture data region and the constants
    /// taken from the recomputed string-offset array.
    pub fn write(
        &self,
        w: &mut Writer,
        string_offsets: &Vec<u32>,
        texture_data_offset: u32,
    ) -> (res: Result<(), WriteError>)
        requires
            optn_wf(*self, string_offsets@.len() as int, texture_data_offset as int),
        ensures
            match res {
                Ok(()) => final(w).data@ == old(w).data@ + chunk_bytes(
                    TAG_OPTN,
                    optn_content(*self, string_offsets@, texture_data_offset as int),
                ),
                Err(e) => false,
            },
    {
        proof {
            lemma_auto_spec_u32_to_from_le_bytes();
        }
        let ghost ws = optn_words(*self, string_offsets@, texture_data_offset as int);
        let mut words: Vec<u32> = Vec::new();
        words.push(self.unk1);
        words.push(self.unk2);
        words.push(texture_data_offset + self.icon_offset);
        words.push(self.unk3);
        words.push(self.unk4);
        words.push(self.unk5);
        words.push(self.unk6);
        words.push(self.unk7);
        words.push(self.unk8);
        words.push(self.unk9);
        words.push(self.unk10);
        words.push(self.unk11);
        words.push(self.unk12);
        words.push(self.unk13);
        words.push(self.unk14);
        words.push(self.unk15);
        words.push(string_offsets[self.constant1_name_index]);
        words.push(string_offsets[self.constant2_name_index]);
        words.push(string_offsets[self.constant3_name_index]);
        words.push(string_offsets[self.constant4_name_index]);
        words.push(string_offsets[self.constant5_name_index]);
        words.push(string_offsets[self.constant6_name_index]);
        words.push(string_offsets[self.constant7_name_index]);
        words.push(string_offsets[self.constant8_name_index]);
        words.push(string_offsets[self.constant9_name_index]);
        words.push(string_offsets[self.constant10_name_index]);
        words.push(string_offsets[self.constant11_name_index]);
        words.push(string_offsets[self.constant12_name_index]);
        words.push(string_offsets[self.constant13_name_index]);
        words.push(string_offsets[self.constant14_name_index]);
        proof {
            assert(words@ =~= ws);
            crate::words::lemma_bytes_of_u32s_len(ws);
        }
        crate::chunk::write_chunk_header(w, TAG_OPTN, 120);
        write_u32s(w, words.as_slice());
        proof {
            assert(w.data@ =~= old(w).data@ + chunk_bytes(
                TAG_OPTN,
                optn_content(*self, string_offsets@, texture_data_offset as int),
            ));
        }
        Ok(())
    }
}

} // verus!
