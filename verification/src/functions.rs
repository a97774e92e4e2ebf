//! The `FUNC` chunk: function records.
//!
//! Layout: no count field and no offset table — records of
//! `name_offset:u32 + unknown:u32 + code_offset:u32` fill the declared
//! chunk length exactly.

use crate::chunk::{
    chunk_bytes, chunk_frame_ok, chunk_size_at, get_chunk_header, TAG_FUNC,
};
use crate::cursor::{Reader, Writer};
use crate::error::{ReadError, WriteError};
use crate::words::{bytes_of_u32s, parse_u32s, write_u32s};
use vstd::bytes::{lemma_auto_spec_u32_to_from_le_bytes, spec_u32_from_le_bytes};
use vstd::prelude::*;

verus! {

/// One function: a cross-reference to its name, and two unmodeled fields
/// kept verbatim.
pub struct Function {
    pub name_index: usize,
    pub unknown: u32,
    pub code_offset: u32,
}

/// The `FUNC` record set.
pub struct Functions {
    pub functions: Vec<Function>,
}

/// Every cross-reference index lies within the string table.
pub open spec fn func_wf(funs: Seq<Function>, n_strings: int) -> bool {
    forall|i: int| 0 <= i < funs.len() ==> (#[trigger] funs[i]).name_index < n_strings
}

/// The chunk's content as words: three per record.
pub open spec fn func_words(funs: Seq<Function>, soffs: Seq<u32>) -> Seq<u32> {
    Seq::new(
        (3 * funs.len()) as nat,
        |k: int|
            {
                let r = k / 3;
                if k % 3 == 0 {
                    soffs[funs[r].name_index as int]
                } else if k % 3 == 1 {
                    funs[r].unknown
                } else {
                    funs[r].code_offset
                }
            },
    )
}

/// The chunk's content bytes.
pub open spec fn func_content(funs: Seq<Function>, soffs: Seq<u32>) -> Seq<u8> {
    bytes_of_u32s(func_words(funs, soffs))
}

/// The content length: three words per record.
pub open spec fn func_content_len(n: int) -> int {
    12 * n
}

/// A whole `FUNC` chunk decodes at `pos`: framed with its tag, its
/// declared length a whole number of 12-byte records, all within the
/// buffer.
pub open spec fn func_parse_ok(b: Seq<u8>, pos: int) -> bool {
    &&& chunk_frame_ok(b, pos, TAG_FUNC)
    &&& chunk_size_at(b, pos) % 12 == 0
    &&& pos + 8 + chunk_size_at(b, pos) <= b.len()
}

/// What cross-reference resolution leaves of a decoded `FUNC` chunk.
pub open spec fn func_resolved_ok(b: Seq<u8>, pos: int, fs: Seq<Function>, tbl: Seq<u32>) -> bool {
    let n = fs.len() as int;
    &&& spec_u32_from_le_bytes(b.subrange(pos + 4, pos + 8)) == (12 * n) as u32
    &&& forall|i: int|
        0 <= i < n ==> {
            let rw = parse_u32s(b, pos + 8 + 12 * i, 3);
            &&& crate::xref::resolves_to(tbl, rw[0], (#[trigger] fs[i]).name_index as int)
            &&& fs[i].unknown == rw[1]
            &&& fs[i].code_offset == rw[2]
        }
}

/// Every name reference a `FUNC` chunk at `pos` stores has a match in
/// the table's offset array `tbl`.
pub open spec fn func_refs_ok(b: Seq<u8>, pos: int, tbl: Seq<u32>) -> bool {
    let cnt = spec_u32_from_le_bytes(b.subrange(pos + 4, pos + 8)) as int / 12;
    forall|i: int|
        #![trigger parse_u32s(b, pos + 8 + 12 * i, 3)]
        0 <= i < cnt ==> exists|j: int|
            #[trigger] crate::xref::resolves_to(tbl, parse_u32s(b, pos + 8 + 12 * i, 3)[0], j)
}

impl Functions {
    /// Reads the `FUNC` chunk: records fill the declared length, which must
    /// be a whole number of 12-byte records.
    #[verifier::loop_isolation(false)]
    pub fn read(r: &mut Reader) -> (res: Result<(Functions, Vec<u32>), ReadError>)
        requires
            old(r).wf(),
        ensures
            final(r).data == old(r).data,
            final(r).wf(),
            match res {
                Ok((fs, offs)) => {
                    let b = old(r).data@;
                    let pos = old(r).pos as int;
                    let n = fs.functions@.len() as int;
                    &&& func_parse_ok(b, pos)
                    &&& final(r).pos == pos + 8 + chunk_size_at(b, pos)
                    &&& offs@.len() == n
                    &&& spec_u32_from_le_bytes(b.subrange(pos + 4, pos + 8)) == (12 * n) as u32
                    &&& pos + 8 + 12 * n <= b.len()
                    &&& final(r).pos == pos + 8 + 12 * n
                    &&& forall|i: int|
                        0 <= i < n ==> {
                            let rw = parse_u32s(b, pos + 8 + 12 * i, 3);
                            &&& (#[trigger] offs@[i]) == rw[0]
                            &&& fs.functions@[i].unknown == rw[1]
                            &&& fs.functions@[i].code_offset == rw[2]
                            &&& fs.functions@[i].name_index == 0
                        }
                },
                Err(e) => {
                    &&& !func_parse_ok(old(r).data@, old(r).pos as int)
                    &&& (e is UnexpectedEof || e is UnexpectedChunk || e is BadChunkSize)
                },
            },
    {
        proof {
            lemma_auto_spec_u32_to_from_le_bytes();
        }
        let ghost b = r.data@;
        let ghost start = r.pos as int;
        let h = match get_chunk_header(r, TAG_FUNC) {
            Ok(h) => h,
            Err(e) => {
                return Err(e);
            },
        };
        if h.size % 12 != 0 {
            return Err(ReadError::BadChunkSize { tag: TAG_FUNC, size: h.size });
        }
        let count = h.size / 12;
        let ghost rpos = r.pos as int;
        let mut funs: Vec<Function> = Vec::new();
        let mut offs: Vec<u32> = Vec::new();
        let mut i: u32 = 0;
        while i < count
            invariant
                r.wf(),
                r.data == old(r).data,
                i <= count,
                funs@.len() == i,
                offs@.len() == i,
                r.pos == rpos + 12 * i,
                forall|j: int|
                    0 <= j < i ==> {
                        let rw = parse_u32s(b, rpos + 12 * j, 3);
                        &&& (#[trigger] offs@[j]) == rw[0]
                        &&& funs@[j].unknown == rw[1]
                        &&& funs@[j].code_offset == rw[2]
                        &&& funs@[j].name_index == 0
                    },
            decreases count - i,
        {
            let name_offset = match r.read_u32() {
                Ok(v) => v,
                Err(e) => {
                    return Err(e);
                },
            };
            let unknown = match r.read_u32() {
                Ok(v) => v,
                Err(e) => {
                    return Err(e);
                },
            };
            let code_offset = match r.read_u32() {
                Ok(v) => v,
                Err(e) => {
                    return Err(e);
                },
            };
            offs.push(name_offset);
            funs.push(Function { name_index: 0, unknown, code_offset });
            i = i + 1;
        }
        proof {
            let n_g = funs@.len() as int;
            assert forall|i2: int|
                0 <= i2 < n_g implies {
                    let rw = parse_u32s(b, start + 8 + 12 * i2, 3);
                    &&& (#[trigger] offs@[i2]) == rw[0]
                    &&& funs@[i2].unknown == rw[1]
                    &&& funs@[i2].code_offset == rw[2]
                    &&& funs@[i2].name_index == 0
                } by {
                assert(offs@[i2] == parse_u32s(b, rpos + 12 * i2, 3)[0]);
                assert(rpos + 12 * i2 == start + 8 + 12 * i2);
            }
            assert(func_parse_ok(b, start));
        }
        Ok((Functions { functions: funs }, offs))
    }

    /// The content length of this record set, checked against the 32-bit
    /// length field.
    pub fn content_size(&self) -> (res: Result<u32, WriteError>)
        ensures
            match res {
                Ok(sz) => sz == func_content_len(self.functions@.len() as int),
                Err(e) => e == WriteError::TooLarge && func_content_len(
                    self.functions@.len() as int,
                ) > u32::MAX,
            },
    {
        let n = self.functions.len();
        if n as u64 > (u32::MAX as u64) / 12 {
            Err(WriteError::TooLarge)
        } else {
            Ok(12 * (n as u32))
        }
    }

    /// Writes the whole `FUNC` chunk: header, then each record with its
    /// name offset taken from the recomputed string-offset array.
    #[verifier::loop_isolation(false)]
    pub fn write(&self, w: &mut Writer, string_offsets: &Vec<u32>) -> (res: Result<
        (),
        WriteError,
    >)
        requires
            func_wf(self.functions@, string_offsets@.len() as int),
            func_content_len(self.functions@.len() as int) <= u32::MAX,
        ensures
            match res {
                Ok(()) => final(w).data@ == old(w).data@ + chunk_bytes(
                    TAG_FUNC,
                    func_content(self.functions@, string_offsets@),
                ),
                Err(e) => false,
            },
    {
        proof {
            lemma_auto_spec_u32_to_from_le_bytes();
        }
        let n = self.functions.len();
        let ghost ws = func_words(self.functions@, string_offsets@);
        let mut words: Vec<u32> = Vec::new();
        let mut i: usize = 0;
        while i < n
            invariant
                i <= n,
                words@.len() == 3 * i,
                forall|j: int|
                    0 <= j < i ==> words@[3 * j] == string_offsets@[self.functions@[j].name_index as int]
                        && words@[3 * j + 1] == (#[trigger] self.functions@[j]).unknown
                        && words@[3 * j + 2] == self.functions@[j].code_offset,
            decreases n - i,
        {
            let v = &self.functions[i];
            words.push(string_offsets[v.name_index]);
            words.push(v.unknown);
            words.push(v.code_offset);
            i = i + 1;
        }
        proof {
            assert forall|k: int| 0 <= k < ws.len() implies words@[k] == ws[k] by {
                let q = k / 3;
                assert(words@[3 * q] == string_offsets@[self.functions@[q].name_index as int]
                    && words@[3 * q + 1] == self.functions@[q].unknown && words@[3 * q + 2]
                    == self.functions@[q].code_offset);
            }
            assert(words@ =~= ws);
            crate::words::lemma_bytes_of_u32s_len(ws);
        }
        crate::chunk::write_chunk_header(w, TAG_FUNC, (12 * n) as u32);
        write_u32s(w, words.as_slice());
        proof {
            assert(w.data@ =~= old(w).data@ + chunk_bytes(
                TAG_FUNC,
                func_content(self.functions@, string_offsets@),
            ));
        }
        Ok(())
    }
}

} // verus!
