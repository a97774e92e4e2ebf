//! The `VARI` chunk: variable records.
//!
//! Layout: no count field and no offset table — records of
//! `name_offset:u32 + unknown:u32 + code_offset:u32` fill the declared
//! chunk length exactly.

use crate::chunk::{
    chunk_bytes, chunk_frame_ok, chunk_size_at, get_chunk_header, TAG_VARI,
};
use crate::cursor::{Reader, Writer};
use crate::error::{ReadError, WriteError};
use crate::words::{bytes_of_u32s, parse_u32s, write_u32s};
use vstd::bytes::{lemma_auto_spec_u32_to_from_le_bytes, spec_u32_from_le_bytes};
use vstd::prelude::*;

verus! {

/// One variable: a cross-reference to its name, and two unmodeled fields
/// kept verbatim.
pub struct Variable {
    pub name_index: usize,
    pub unknown: u32,
    pub code_offset: u32,
}

/// The `VARI` record set.
pub struct Variables {
    pub variables: Vec<Variable>,
}

/// Every cross-reference index lies within the string table.
pub open spec fn vari_wf(vars: Seq<Variable>, n_strings: int) -> bool {
    forall|i: int| 0 <= i < vars.len() ==> (#[trigger] vars[i]).name_index < n_strings
}

/// The chunk's content as words: three per record.
pub open spec fn vari_words(vars: Seq<Variable>, soffs: Seq<u32>) -> Seq<u32> {
    Seq::new(
        (3 * vars.len()) as nat,
        |k: int|
            {
                let r = k / 3;
                if k % 3 == 0 {
                    soffs[vars[r].name_index as int]
                } else if k % 3 == 1 {
                    vars[r].unknown
                } else {
                    vars[r].code_offset
                }
            },
    )
}

/// The chunk's content bytes.
pub open spec fn vari_content(vars: Seq<Variable>, soffs: Seq<u32>) -> Seq<u8> {
    bytes_of_u32s(vari_words(vars, soffs))
}

/// The content length: three words per record.
pub open spec fn vari_content_len(n: int) -> int {
    12 * n
}

/// A whole `VARI` chunk decodes at `pos`: framed with its tag, its
/// declared length a whole number of 12-byte records, all within the
/// buffer.
pub open spec fn vari_parse_ok(b: Seq<u8>, pos: int) -> bool {
    &&& chunk_frame_ok(b, pos, TAG_VARI)
    &&& chunk_size_at(b, pos) % 12 == 0
    &&& pos + 8 + chunk_size_at(b, pos) <= b.len()
}

/// What cross-reference resolution leaves of a decoded `VARI` chunk.
pub open spec fn vari_resolved_ok(b: Seq<u8>, pos: int, vs: Seq<Variable>, tbl: Seq<u32>) -> bool {
    let n = vs.len() as int;
    &&& spec_u32_from_le_bytes(b.subrange(pos + 4, pos + 8)) == (12 * n) as u32
    &&& forall|i: int|
        0 <= i < n ==> {
            let rw = parse_u32s(b, pos + 8 + 12 * i, 3);
            &&& crate::xref::resolves_to(tbl, rw[0], (#[trigger] vs[i]).name_index as int)
            &&& vs[i].unknown == rw[1]
            &&& vs[i].code_offset == rw[2]
        }
}

/// Every name reference a `VARI` chunk at `pos` stores has a match in
/// the table's offset array `tbl`.
pub open spec fn vari_refs_ok(b: Seq<u8>, pos: int, tbl: Seq<u32>) -> bool {
    let cnt = spec_u32_from_le_bytes(b.subrange(pos + 4, pos + 8)) as int / 12;
    forall|i: int|
        #![trigger parse_u32s(b, pos + 8 + 12 * i, 3)]
        0 <= i < cnt ==> exists|j: int|
            #[trigger] crate::xref::resolves_to(tbl, parse_u32s(b, pos + 8 + 12 * i, 3)[0], j)
}

impl Variables {
    /// Reads the `VARI` chunk: records fill the declared length, which must
    /// be a whole number of 12-byte records.
    #[verifier::loop_isolation(false)]
    pub fn read(r: &mut Reader) -> (res: Result<(Variables, Vec<u32>), ReadError>)
        requires
            old(r).wf(),
        ensures
            final(r).data == old(r).data,
            final(r).wf(),
            match res {
                Ok((vs, offs)) => {
                    let b = old(r).data@;
                    let pos = old(r).pos as int;
                    let n = vs.variables@.len() as int;
                    &&& vari_parse_ok(b, pos)
                    &&& final(r).pos == pos + 8 + chunk_size_at(b, pos)
                    &&& offs@.len() == n
                    &&& spec_u32_from_le_bytes(b.subrange(pos + 4, pos + 8)) == (12 * n) as u32
                    &&& pos + 8 + 12 * n <= b.len()
                    &&& final(r).pos == pos + 8 + 12 * n
                    &&& forall|i: int|
                        0 <= i < n ==> {
                            let rw = parse_u32s(b, pos + 8 + 12 * i, 3);
                            &&& (#[trigger] offs@[i]) == rw[0]
                            &&& vs.variables@[i].unknown == rw[1]
                            &&& vs.variables@[i].code_offset == rw[2]
                            &&& vs.variables@[i].name_index == 0
                        }
                },
                Err(e) => {
                    &&& !vari_parse_ok(old(r).data@, old(r).pos as int)
                    &&& (e is UnexpectedEof || e is UnexpectedChunk || e is BadChunkSize)
                },
            },
    {
        proof {
            lemma_auto_spec_u32_to_from_le_bytes();
        }
        let ghost b = r.data@;
        let ghost start = r.pos as int;
        let h = match get_chunk_header(r, TAG_VARI) {
            Ok(h) => h,
            Err(e) => {
                return Err(e);
            },
        };
        if h.size % 12 != 0 {
            return Err(ReadError::BadChunkSize { tag: TAG_VARI, size: h.size });
        }
        let count = h.size / 12;
        let ghost rpos = r.pos as int;
        let mut vars: Vec<Variable> = Vec::new();
        let mut offs: Vec<u32> = Vec::new();
        let mut i: u32 = 0;
        while i < count
            invariant
                r.wf(),
                r.data == old(r).data,
                i <= count,
                vars@.len() == i,
                offs@.len() == i,
                r.pos == rpos + 12 * i,
                forall|j: int|
                    0 <= j < i ==> {
                        let rw = parse_u32s(b, rpos + 12 * j, 3);
                        &&& (#[trigger] offs@[j]) == rw[0]
                        &&& vars@[j].unknown == rw[1]
                        &&& vars@[j].code_offset == rw[2]
                        &&& vars@[j].name_index == 0
                    },
            decreases count - i,
        {
            let name_offset = match r.read_u32() {
                Ok(v) => v,
                Err(e) => {
                    return Err(e);
                },
            };
            let unknown = match r.read_u32() {
                Ok(v) => v,
                Err(e) => {
                    return Err(e);
                },
            };
            let code_offset = match r.read_u32() {
                Ok(v) => v,
                Err(e) => {
                    return Err(e);
                },
            };
            offs.push(name_offset);
            vars.push(Variable { name_index: 0, unknown, code_offset });
            i = i + 1;
        }
        proof {
            let n_g = vars@.len() as int;
            assert forall|i2: int|
                0 <= i2 < n_g implies {
                    let rw = parse_u32s(b, start + 8 + 12 * i2, 3);
                    &&& (#[trigger] offs@[i2]) == rw[0]
                    &&& vars@[i2].unknown == rw[1]
                    &&& vars@[i2].code_offset == rw[2]
                    &&& vars@[i2].name_index == 0
                } by {
                assert(offs@[i2] == parse_u32s(b, rpos + 12 * i2, 3)[0]);
                assert(rpos + 12 * i2 == start + 8 + 12 * i2);
            }
            assert(vari_parse_ok(b, start));
        }
        Ok((Variables { variables: vars }, offs))
    }

    /// The content length of this record set, checked against the 32-bit
    /// length field.
    pub fn content_size(&self) -> (res: Result<u32, WriteError>)
        ensures
            match res {
                Ok(sz) => sz == vari_content_len(self.variables@.len() as int),
                Err(e) => e == WriteError::TooLarge && vari_content_len(
                    self.variables@.len() as int,
                ) > u32::MAX,
            },
    {
        let n = self.variables.len();
        if n as u64 > (u32::MAX as u64) / 12 {
            Err(WriteError::TooLarge)
        } else {
            Ok(12 * (n as u32))
        }
    }

    /// Writes the whole `VARI` chunk: header, then each record with its
    /// name offset taken from the recomputed string-offset array.
    #[verifier::loop_isolation(false)]
    pub fn write(&self, w: &mut Writer, string_offsets: &Vec<u32>) -> (res: Result<
        (),
        WriteError,
    >)
        requires
            vari_wf(self.variables@, string_offsets@.len() as int),
            vari_content_len(self.variables@.len() as int) <= u32::MAX,
        ensures
            match res {
                Ok(()) => final(w).data@ == old(w).data@ + chunk_bytes(
                    TAG_VARI,
                    vari_content(self.variables@, string_offsets@),
                ),
                Err(e) => false,
            },
    {
        proof {
            lemma_auto_spec_u32_to_from_le_bytes();
        }
        let n = self.variables.len();
        let ghost ws = vari_words(self.variables@, string_offsets@);
        let mut words: Vec<u32> = Vec::new();
        let mut i: usize = 0;
        while i < n
            invariant
                i <= n,
                words@.len() == 3 * i,
                forall|j: int|
                    0 <= j < i ==> words@[3 * j] == string_offsets@[self.variables@[j].name_index as int]
                        && words@[3 * j + 1] == (#[trigger] self.variables@[j]).unknown
                        && words@[3 * j + 2] == self.variables@[j].code_offset,
            decreases n - i,
        {
            let v = &self.variables[i];
            words.push(string_offsets[v.name_index]);
            words.push(v.unknown);
            words.push(v.code_offset);
            i = i + 1;
        }
        proof {
            assert forall|k: int| 0 <= k < ws.len() implies words@[k] == ws[k] by {
                let q = k / 3;
                assert(words@[3 * q] == string_offsets@[self.variables@[q].name_index as int]
                    && words@[3 * q + 1] == self.variables@[q].unknown && words@[3 * q + 2]
                    == self.variables@[q].code_offset);
            }
            assert(words@ =~= ws);
            crate::words::lemma_bytes_of_u32s_len(ws);
        }
        crate::chunk::write_chunk_header(w, TAG_VARI, (12 * n) as u32);
        write_u32s(w, words.as_slice());
        proof {
            assert(w.data@ =~= old(w).data@ + chunk_bytes(
                TAG_VARI,
                vari_content(self.variables@, string_offsets@),
            ));
        }
        Ok(())
    }
}

} // verus!
