//! The `SOND` chunk: sound records.
//!
//! Layout: `count:u32`, an offset table of `count` absolute record
//! positions (recomputed on write; decoding discards it), then `count`
//! records of nine words; words 0, 2 and 3 are cross-references to the
//! sound's name, extension and file name.

use crate::chunk::{
    chunk_bytes, chunk_frame_ok, chunk_size_at, get_chunk_header, TAG_SOND,
};
use crate::cursor::{Reader, Writer};
use crate::error::{ReadError, WriteError};
use crate::words::{bytes_of_u32s, parse_u32s, read_u32s, write_u32s};
use vstd::bytes::{lemma_auto_spec_u32_to_from_le_bytes, spec_u32_from_le_bytes};
use vstd::prelude::*;

verus! {

/// One sound: cross-references to its name, extension and file name, and
/// six unmodeled fields kept verbatim.
pub struct Sound {
    pub name_index: usize,
    pub unk1: u32,
    pub ext_index: usize,
    pub filename_index: usize,
    pub unk2: u32,
    pub unk3: u32,
    pub unk4: u32,
    pub unk5: u32,
    pub unk6: u32,
}

/// The `SOND` record set.
pub struct Sounds {
    pub sounds: Vec<Sound>,
}

/// The raw cross-reference offsets one sound record carries.
pub struct Offsets {
    pub name_offset: u32,
    pub ext_offset: u32,
    pub filename_offset: u32,
}

/// Every cross-reference index lies within the string table.
pub open spec fn sond_wf(sounds: Seq<Sound>, n_strings: int) -> bool {
    forall|i: int|
        0 <= i < sounds.len() ==> (#[trigger] sounds[i]).name_index < n_strings
            && sounds[i].ext_index < n_strings && sounds[i].filename_index < n_strings
}

/// One record's nine words, its cross-references resolved through the
/// string-offset array.
pub open spec fn sond_record_word(s: Sound, soffs: Seq<u32>, m: int) -> u32 {
    if m == 0 {
        soffs[s.name_index as int]
    } else if m == 1 {
        s.unk1
    } else if m == 2 {
        soffs[s.ext_index as int]
    } else if m == 3 {
        soffs[s.filename_index as int]
    } else if m == 4 {
        s.unk2
    } else if m == 5 {
        s.unk3
    } else if m == 6 {
        s.unk4
    } else if m == 7 {
        s.unk5
    } else {
        s.unk6
    }
}

/// The chunk's content as words: count, the recomputed offset table, then
/// nine words per record.
pub open spec fn sond_words(sounds: Seq<Sound>, base: int, soffs: Seq<u32>) -> Seq<u32> {
    let n = sounds.len() as int;
    Seq::new(
        (1 + 10 * sounds.len()) as nat,
        |k: int|
            if k == 0 {
                n as u32
            } else if k <= n {
                (base + 4 + 4 * n + 36 * (k - 1)) as u32
            } else {
                let r = (k - 1 - n) / 9;
                sond_record_word(sounds[r], soffs, (k - 1 - n) % 9)
            },
    )
}

/// The chunk's content bytes.
pub open spec fn sond_content(sounds: Seq<Sound>, base: int, soffs: Seq<u32>) -> Seq<u8> {
    bytes_of_u32s(sond_words(sounds, base, soffs))
}

/// The content length: count, table, nine words per record.
pub open spec fn sond_content_len(n: int) -> int {
    4 + 40 * n
}

/// A whole `SOND` chunk decodes at `pos`: framed with its tag, its count
/// word, offset table and records within the buffer.
pub open spec fn sond_parse_ok(b: Seq<u8>, pos: int) -> bool {
    &&& chunk_frame_ok(b, pos, TAG_SOND)
    &&& pos + 12 <= b.len()
    &&& pos + 12 + 40 * (spec_u32_from_le_bytes(b.subrange(pos + 8, pos + 12)) as int) <= b.len()
}

/// What cross-reference resolution leaves of a decoded `SOND` chunk:
/// every record word tied to the bytes at `pos`, the three string
/// references of each record resolved against `tbl`.
pub open spec fn sond_resolved_ok(b: Seq<u8>, pos: int, ss: Seq<Sound>, tbl: Seq<u32>) -> bool {
    let n = ss.len() as int;
    &&& n <= u32::MAX
    &&& spec_u32_from_le_bytes(b.subrange(pos + 8, pos + 12)) == n as u32
    &&& forall|i: int|
        0 <= i < n ==> {
            let rw = parse_u32s(b, pos + 12 + 4 * n + 36 * i, 9);
            &&& crate::xref::resolves_to(tbl, rw[0], (#[trigger] ss[i]).name_index as int)
            &&& ss[i].unk1 == rw[1]
            &&& crate::xref::resolves_to(tbl, rw[2], ss[i].ext_index as int)
            &&& crate::xref::resolves_to(tbl, rw[3], ss[i].filename_index as int)
            &&& ss[i].unk2 == rw[4]
            &&& ss[i].unk3 == rw[5]
            &&& ss[i].unk4 == rw[6]
            &&& ss[i].unk5 == rw[7]
            &&& ss[i].unk6 == rw[8]
        }
}

/// Every string reference a `SOND` chunk at `pos` stores has a match in
/// the table's offset array `tbl`.
pub open spec fn sond_refs_ok(b: Seq<u8>, pos: int, tbl: Seq<u32>) -> bool {
    let cnt = spec_u32_from_le_bytes(b.subrange(pos + 8, pos + 12)) as int;
    forall|i: int|
        0 <= i < cnt ==> {
            let rw = #[trigger] parse_u32s(b, pos + 12 + 4 * cnt + 36 * i, 9);
            &&& (exists|j: int| crate::xref::resolves_to(tbl, rw[0], j))
            &&& (exists|j: int| crate::xref::resolves_to(tbl, rw[2], j))
            &&& (exists|j: int| crate::xref::resolves_to(tbl, rw[3], j))
        }
}

impl Sounds {
    /// Reads the `SOND` chunk, yielding the records (cross-references not
    /// yet resolved) and each record's raw name, extension and file-name
    /// offsets.  The stored offset table is discarded: it is recomputed on
    /// write.
    #[verifier::loop_isolation(false)]
    #[verifier::rlimit(100)]
    #[verifier::spinoff_prover]
    pub fn read(r: &mut Reader) -> (res: Result<(Sounds, Vec<Offsets>), ReadError>)
        requires
            old(r).wf(),
        ensures
            final(r).data == old(r).data,
            final(r).wf(),
            match res {
                Ok((sn, offs)) => {
                    let b = old(r).data@;
                    let pos = old(r).pos as int;
                    let n = sn.sounds@.len() as int;
                    &&& sond_parse_ok(b, pos)
                    &&& n <= u32::MAX
                    &&& offs@.len() == n
                    &&& spec_u32_from_le_bytes(b.subrange(pos + 8, pos + 12)) == n as u32
                    &&& pos + 12 + 40 * n <= b.len()
                    &&& final(r).pos == pos + 12 + 40 * n
                    &&& forall|i: int|
                        0 <= i < n ==> {
                            let rw = parse_u32s(b, pos + 12 + 4 * n + 36 * i, 9);
                            &&& (#[trigger] offs@[i]).name_offset == rw[0]
                            &&& sn.sounds@[i].unk1 == rw[1]
                            &&& offs@[i].ext_offset == rw[2]
                            &&& offs@[i].filename_offset == rw[3]
                            &&& sn.sounds@[i].unk2 == rw[4]
                            &&& sn.sounds@[i].unk3 == rw[5]
                            &&& sn.sounds@[i].unk4 == rw[6]
                            &&& sn.sounds@[i].unk5 == rw[7]
                            &&& sn.sounds@[i].unk6 == rw[8]
                            &&& sn.sounds@[i].name_index == 0
                            &&& sn.sounds@[i].ext_index == 0
                            &&& sn.sounds@[i].filename_index == 0
                        }
                },
                Err(e) => {
                    &&& !sond_parse_ok(old(r).data@, old(r).pos as int)
                    &&& (e is UnexpectedEof || e is UnexpectedChunk)
                },
            },
    {
        proof {
            lemma_auto_spec_u32_to_from_le_bytes();
        }
        let ghost b = r.data@;
        let ghost start = r.pos as int;
        match get_chunk_header(r, TAG_SOND) {
            Ok(_) => (),
            Err(e) => {
                return Err(e);
            },
        }
        let count = match r.read_u32() {
            Ok(v) => v,
            Err(e) => {
                return Err(e);
            },
        };
        match read_u32s(r, count as usize) {
            Ok(_) => (),
            Err(e) => {
                return Err(e);
            },
        }
        let ghost rpos = r.pos as int;
        let mut sounds: Vec<Sound> = Vec::new();
        let mut offs: Vec<Offsets> = Vec::new();
        let mut i: u32 = 0;
        while i < count
            invariant
                r.wf(),
                r.data == old(r).data,
                i <= count,
                sounds@.len() == i,
                offs@.len() == i,
                r.pos == rpos + 36 * i,
                forall|j: int|
                    0 <= j < i ==> {
                        let rw = parse_u32s(b, rpos + 36 * j, 9);
                        &&& (#[trigger] offs@[j]).name_offset == rw[0]
                        &&& sounds@[j].unk1 == rw[1]
                        &&& offs@[j].ext_offset == rw[2]
                        &&& offs@[j].filename_offset == rw[3]
                        &&& sounds@[j].unk2 == rw[4]
                        &&& sounds@[j].unk3 == rw[5]
                        &&& sounds@[j].unk4 == rw[6]
                        &&& sounds@[j].unk5 == rw[7]
                        &&& sounds@[j].unk6 == rw[8]
                        &&& sounds@[j].name_index == 0
                        &&& sounds@[j].ext_index == 0
                        &&& sounds@[j].filename_index == 0
                    },
            decreases count - i,
        {
            let rec = match read_u32s(r, 9) {
                Ok(v) => v,
                Err(e) => {
                    return Err(e);
                },
            };
            proof {
                crate::words::lemma_parse_u32s_agrees(b, rpos + 36 * i, 9, rec@);
            }
            offs.push(
                Offsets {
                    name_offset: rec[0],
                    ext_offset: rec[2],
                    filename_offset: rec[3],
                },
            );
            sounds.push(
                Sound {
                    name_index: 0,
                    unk1: rec[1],
                    ext_index: 0,
                    filename_index: 0,
                    unk2: rec[4],
                    unk3: rec[5],
                    unk4: rec[6],
                    unk5: rec[7],
                    unk6: rec[8],
                },
            );
            i = i + 1;
        }
        proof {
            let n_g = sounds@.len() as int;
            assert forall|i2: int|
                0 <= i2 < n_g implies {
                    let rw = parse_u32s(b, start + 12 + 4 * n_g + 36 * i2, 9);
                    &&& (#[trigger] offs@[i2]).name_offset == rw[0]
                    &&& sounds@[i2].unk1 == rw[1]
                    &&& offs@[i2].ext_offset == rw[2]
                    &&& offs@[i2].filename_offset == rw[3]
                    &&& sounds@[i2].unk2 == rw[4]
                    &&& sounds@[i2].unk3 == rw[5]
                    &&& sounds@[i2].unk4 == rw[6]
                    &&& sounds@[i2].unk5 == rw[7]
                    &&& sounds@[i2].unk6 == rw[8]
                    &&& sounds@[i2].name_index == 0
                    &&& sounds@[i2].ext_index == 0
                    &&& sounds@[i2].filename_index == 0
                } by {
                assert(offs@[i2].name_offset == parse_u32s(b, rpos + 36 * i2, 9)[0]);
                assert(rpos + 36 * i2 == start + 12 + 4 * n_g + 36 * i2);
            }
        }
        Ok((Sounds { sounds }, offs))
    }

    /// The content length of this record set, checked against the 32-bit
    /// length field.
    pub fn content_size(&self) -> (res: Result<u32, WriteError>)
        ensures
            match res {
                Ok(sz) => sz == sond_content_len(self.sounds@.len() as int),
                Err(e) => e == WriteError::TooLarge && sond_content_len(self.sounds@.len() as int)
                    > u32::MAX,
            },
    {
        let n = self.sounds.len();
        if n as u64 > ((u32::MAX as u64) - 4) / 40 {
            Err(WriteError::TooLarge)
        } else {
            Ok(4 + 40 * (n as u32))
        }
    }

    /// Writes the whole `SOND` chunk: header, count, the recomputed offset
    /// table, then each record with its three cross-references taken from
    /// the recomputed string-offset array.
    #[verifier::loop_isolation(false)]
    pub fn write(&self, w: &mut Writer, string_offsets: &Vec<u32>) -> (res: Result<
        (),
        WriteError,
    >)
        requires
            sond_wf(self.sounds@, string_offsets@.len() as int),
            old(w).data@.len() + 8 + sond_content_len(self.sounds@.len() as int) <= u32::MAX,
        ensures
            match res {
                Ok(()) => final(w).data@ == old(w).data@ + chunk_bytes(
                    TAG_SOND,
                    sond_content(self.sounds@, old(w).data@.len() as int + 8, string_offsets@),
                ),
                Err(e) => false,
            },
    {
        proof {
            lemma_auto_spec_u32_to_from_le_bytes();
        }
        let base = w.tell() + 8;
        let n = self.sounds.len();
        let ghost ws = sond_words(self.sounds@, base as int, string_offsets@);
        let mut words: Vec<u32> = Vec::new();
        words.push(n as u32);
        let first = (base + 4 + 4 * n) as u32;
        let mut i: usize = 0;
        while i < n
            invariant
                i <= n,
                words@.len() == 1 + i,
                words@[0] == n as u32,
                forall|j: int|
                    0 <= j < i ==> #[trigger] words@[1 + j] == (base + 4 + 4 * n + 36 * j) as u32,
            decreases n - i,
        {
            words.push(first + 36 * (i as u32));
            i = i + 1;
        }
        let mut i: usize = 0;
        while i < n
            invariant
                i <= n,
                words@.len() == 1 + n + 9 * i,
                words@[0] == n as u32,
                forall|j: int|
                    0 <= j < n ==> #[trigger] words@[1 + j] == (base + 4 + 4 * n + 36 * j) as u32,
                forall|j: int, m: int|
                    0 <= j < i && 0 <= m < 9 ==> #[trigger] words@[1 + n + 9 * j + m]
                        == sond_record_word(self.sounds@[j], string_offsets@, m),
            decreases n - i,
        {
            let s = &self.sounds[i];
            words.push(string_offsets[s.name_index]);
            words.push(s.unk1);
            words.push(string_offsets[s.ext_index]);
            words.push(string_offsets[s.filename_index]);
            words.push(s.unk2);
            words.push(s.unk3);
            words.push(s.unk4);
            words.push(s.unk5);
            words.push(s.unk6);
            i = i + 1;
        }
        proof {
            assert forall|k: int| 0 <= k < ws.len() implies words@[k] == ws[k] by {
                if k == 0 {
                } else if k <= n {
                    assert(words@[1 + (k - 1)] == (base + 4 + 4 * (n as int) + 36 * (k - 1)) as u32);
                } else {
                    let q = (k - 1 - n) / 9;
                    let m = (k - 1 - n) % 9;
                    assert(words@[1 + n + 9 * q + m] == sond_record_word(
                        self.sounds@[q],
                        string_offsets@,
                        m,
                    ));
                }
            }
            assert(words@ =~= ws);
            crate::words::lemma_bytes_of_u32s_len(ws);
        }
        crate::chunk::write_chunk_header(w, TAG_SOND, (4 + 40 * n) as u32);
        write_u32s(w, words.as_slice());
        proof {
            assert(w.data@ =~= old(w).data@ + chunk_bytes(
                TAG_SOND,
                sond_content(self.sounds@, old(w).data@.len() as int + 8, string_offsets@),
            ));
        }
        Ok(())
    }
}

} // verus!
