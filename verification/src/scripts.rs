//! The `SCPT` chunk: script records.
//!
//! Layout: `count:u32`, an offset table of `count` absolute record
//! positions (recomputed on write; decoding discards it), then `count`
//! records of `name_offset:u32 + unknown:u32`.

use crate::chunk::{
    chunk_bytes, chunk_frame_ok, chunk_size_at, get_chunk_header, TAG_SCPT,
};
use crate::cursor::{Reader, Writer};
use crate::error::{ReadError, WriteError};
use crate::words::{bytes_of_u32s, parse_u32s, read_u32s, write_u32s};
use vstd::bytes::{lemma_auto_spec_u32_to_from_le_bytes, spec_u32_from_le_bytes};
use vstd::prelude::*;

verus! {

/// One script: a cross-reference to its name, and an unmodeled field kept
/// verbatim.
pub struct Script {
    pub name_index: usize,
    pub unknown: u32,
}

/// The `SCPT` record set.
pub struct Scripts {
    pub scripts: Vec<Script>,
}

/// Every cross-reference index lies within the string table.
pub open spec fn scpt_wf(scripts: Seq<Script>, n_strings: int) -> bool {
    forall|i: int| 0 <= i < scripts.len() ==> (#[trigger] scripts[i]).name_index < n_strings
}

/// The chunk's content as words: count, the recomputed offset table (each
/// record's absolute position), then each record's name offset (looked up
/// through the string-offset array) and unknown field.
pub open spec fn scpt_words(scripts: Seq<Script>, base: int, soffs: Seq<u32>) -> Seq<u32> {
    let n = scripts.len() as int;
    Seq::new(
        (1 + 3 * scripts.len()) as nat,
        |k: int|
            if k == 0 {
                n as u32
            } else if k <= n {
                (base + 4 + 4 * n + 8 * (k - 1)) as u32
            } else {
                let r = (k - 1 - n) / 2;
                if (k - 1 - n) % 2 == 0 {
                    soffs[scripts[r].name_index as int]
                } else {
                    scripts[r].unknown
                }
            },
    )
}

/// The chunk's content bytes.
pub open spec fn scpt_content(scripts: Seq<Script>, base: int, soffs: Seq<u32>) -> Seq<u8> {
    bytes_of_u32s(scpt_words(scripts, base, soffs))
}

/// The content length: count, table, two words per record.
pub open spec fn scpt_content_len(n: int) -> int {
    4 + 12 * n
}

/// A whole `SCPT` chunk decodes at `pos`: framed with its tag, its count
/// word, offset table and records within the buffer.
pub open spec fn scpt_parse_ok(b: Seq<u8>, pos: int) -> bool {
    &&& chunk_frame_ok(b, pos, TAG_SCPT)
    &&& pos + 12 <= b.len()
    &&& pos + 12 + 12 * (spec_u32_from_le_bytes(b.subrange(pos + 8, pos + 12)) as int) <= b.len()
}

/// What cross-reference resolution leaves of a decoded `SCPT` chunk.
pub open spec fn scpt_resolved_ok(b: Seq<u8>, pos: int, ss: Seq<Script>, tbl: Seq<u32>) -> bool {
    let n = ss.len() as int;
    &&& n <= u32::MAX
    &&& spec_u32_from_le_bytes(b.subrange(pos + 8, pos + 12)) == n as u32
    &&& forall|i: int|
        0 <= i < n ==> {
            let rw = parse_u32s(b, pos + 12 + 4 * n + 8 * i, 2);
            &&& crate::xref::resolves_to(tbl, rw[0], (#[trigger] ss[i]).name_index as int)
            &&& ss[i].unknown == rw[1]
        }
}

/// Every name reference a `SCPT` chunk at `pos` stores has a match in
/// the table's offset array `tbl`.
pub open spec fn scpt_refs_ok(b: Seq<u8>, pos: int, tbl: Seq<u32>) -> bool {
    let cnt = spec_u32_from_le_bytes(b.subrange(pos + 8, pos + 12)) as int;
    forall|i: int|
        #![trigger parse_u32s(b, pos + 12 + 4 * cnt + 8 * i, 2)]
        0 <= i < cnt ==> exists|j: int|
            #[trigger] crate::xref::resolves_to(
                tbl,
                parse_u32s(b, pos + 12 + 4 * cnt + 8 * i, 2)[0],
                j,
            )
}

impl Scripts {
    /// Reads the `SCPT` chunk, yielding the records (cross-references not
    /// yet resolved) and the raw name offsets read for each record, in
    /// order.  The stored offset table is discarded: it is recomputed on
    /// write.
    #[verifier::loop_isolation(false)]
    #[verifier::rlimit(100)]
    #[verifier::spinoff_prover]
    pub fn read(r: &mut Reader) -> (res: Result<(Scripts, Vec<u32>), ReadError>)
        requires
            old(r).wf(),
        ensures
            final(r).data == old(r).data,
            final(r).wf(),
            match res {
                Ok((sc, offs)) => {
                    let b = old(r).data@;
                    let pos = old(r).pos as int;
                    let n = sc.scripts@.len() as int;
                    &&& scpt_parse_ok(b, pos)
                    &&& n <= u32::MAX
                    &&& offs@.len() == n
                    &&& spec_u32_from_le_bytes(b.subrange(pos + 8, pos + 12)) == n as u32
                    &&& pos + 12 + 12 * n <= b.len()
                    &&& final(r).pos == pos + 12 + 12 * n
                    &&& forall|i: int|
                        0 <= i < n ==> {
                            let rw = parse_u32s(b, pos + 12 + 4 * n + 8 * i, 2);
                            &&& (#[trigger] offs@[i]) == rw[0]
                            &&& sc.scripts@[i].unknown == rw[1]
                            &&& sc.scripts@[i].name_index == 0
                        }
                },
                Err(e) => {
                    &&& !scpt_parse_ok(old(r).data@, old(r).pos as int)
                    &&& (e is UnexpectedEof || e is UnexpectedChunk)
                },
            },
    {
        proof {
            lemma_auto_spec_u32_to_from_le_bytes();
        }
        let ghost b = r.data@;
        let ghost start = r.pos as int;
        match get_chunk_header(r, TAG_SCPT) {
            Ok(_) => (),
            Err(e) => {
                return Err(e);
            },
        }
        let count = match r.read_u32() {
            Ok(v) => v,
            Err(e) => {
                return Err(e);
            },
        };
        match read_u32s(r, count as usize) {
            Ok(_) => (),
            Err(e) => {
                return Err(e);
            },
        }
        let ghost rpos = r.pos as int;
        let mut scripts: Vec<Script> = Vec::new();
        let mut offs: Vec<u32> = Vec::new();
        let mut i: u32 = 0;
        while i < count
            invariant
                r.wf(),
                r.data == old(r).data,
                i <= count,
                scripts@.len() == i,
                offs@.len() == i,
                r.pos == rpos + 8 * i,
                forall|j: int|
                    0 <= j < i ==> {
                        let rw = parse_u32s(b, rpos + 8 * j, 2);
                        &&& (#[trigger] offs@[j]) == rw[0]
                        &&& scripts@[j].unknown == rw[1]
                        &&& scripts@[j].name_index == 0
                    },
            decreases count - i,
        {
            let name_offset = match r.read_u32() {
                Ok(v) => v,
                Err(e) => {
                    return Err(e);
                },
            };
            let unknown = match r.read_u32() {
                Ok(v) => v,
                Err(e) => {
                    return Err(e);
                },
            };
            offs.push(name_offset);
            scripts.push(Script { name_index: 0, unknown });
            i = i + 1;
        }
        proof {
            let n_g = scripts@.len() as int;
            assert forall|i2: int|
                0 <= i2 < n_g implies {
                    let rw = parse_u32s(b, start + 12 + 4 * n_g + 8 * i2, 2);
                    &&& (#[trigger] offs@[i2]) == rw[0]
                    &&& scripts@[i2].unknown == rw[1]
                    &&& scripts@[i2].name_index == 0
                } by {
                assert(offs@[i2] == parse_u32s(b, rpos + 8 * i2, 2)[0]);
                assert(rpos + 8 * i2 == start + 12 + 4 * n_g + 8 * i2);
            }
            assert(scpt_parse_ok(b, start));
        }
        Ok((Scripts { scripts }, offs))
    }

    /// The content length of this record set, checked against the 32-bit
    /// length field.
    pub fn content_size(&self) -> (res: Result<u32, WriteError>)
        ensures
            match res {
                Ok(sz) => sz == scpt_content_len(self.scripts@.len() as int),
                Err(e) => e == WriteError::TooLarge && scpt_content_len(self.scripts@.len() as int)
                    > u32::MAX,
            },
    {
        let n = self.scripts.len();
        if n as u64 > ((u32::MAX as u64) - 4) / 12 {
            Err(WriteError::TooLarge)
        } else {
            Ok(4 + 12 * (n as u32))
        }
    }

    /// Writes the whole `SCPT` chunk: header, count, the recomputed offset
    /// table, then each record with its name offset taken from the
    /// recomputed string-offset array.
    #[verifier::loop_isolation(false)]
    pub fn write(&self, w: &mut Writer, string_offsets: &Vec<u32>) -> (res: Result<
        (),
        WriteError,
    >)
        requires
            scpt_wf(self.scripts@, string_offsets@.len() as int),
            old(w).data@.len() + 8 + scpt_content_len(self.scripts@.len() as int) <= u32::MAX,
        ensures
            match res {
                Ok(()) => final(w).data@ == old(w).data@ + chunk_bytes(
                    TAG_SCPT,
                    scpt_content(self.scripts@, old(w).data@.len() as int + 8, string_offsets@),
                ),
                Err(e) => false,
            },
    {
        proof {
            lemma_auto_spec_u32_to_from_le_bytes();
        }
        let base = w.tell() + 8;
        let n = self.scripts.len();
        let ghost ws = scpt_words(self.scripts@, base as int, string_offsets@);
        let mut words: Vec<u32> = Vec::new();
        words.push(n as u32);
        let first = (base + 4 + 4 * n) as u32;
        let mut i: usize = 0;
        while i < n
            invariant
                i <= n,
                words@.len() == 1 + i,
                words@[0] == n as u32,
                forall|j: int|
                    0 <= j < i ==> #[trigger] words@[1 + j] == (base + 4 + 4 * n + 8 * j) as u32,
            decreases n - i,
        {
            words.push(first + 8 * (i as u32));
            i = i + 1;
        }
        let mut i: usize = 0;
        while i < n
            invariant
                i <= n,
                words@.len() == 1 + n + 2 * i,
                words@[0] == n as u32,
                forall|j: int|
                    0 <= j < n ==> #[trigger] words@[1 + j] == (base + 4 + 4 * n + 8 * j) as u32,
                forall|j: int|
                    0 <= j < i ==> words@[1 + n + 2 * j] == string_offsets@[self.scripts@[j].name_index as int]
                        && words@[1 + n + 2 * j + 1] == (#[trigger] self.scripts@[j]).unknown,
            decreases n - i,
        {
            let s = &self.scripts[i];
            words.push(string_offsets[s.name_index]);
            words.push(s.unknown);
            i = i + 1;
        }
        proof {
            assert forall|k: int| 0 <= k < ws.len() implies words@[k] == ws[k] by {
                if k == 0 {
                } else if k <= n {
                    assert(words@[1 + (k - 1)] == (base + 4 + 4 * (n as int) + 8 * (k - 1)) as u32);
                } else {
                    let q = (k - 1 - n) / 2;
                    assert(words@[1 + n + 2 * q] == string_offsets@[self.scripts@[q].name_index as int]
                        && words@[1 + n + 2 * q + 1] == self.scripts@[q].unknown);
                }
            }
            assert(words@ =~= ws);
            crate::words::lemma_bytes_of_u32s_len(ws);
        }
        crate::chunk::write_chunk_header(w, TAG_SCPT, (4 + 12 * n) as u32);
        write_u32s(w, words.as_slice());
        proof {
            assert(w.data@ =~= old(w).data@ + chunk_bytes(
                TAG_SCPT,
                scpt_content(self.scripts@, old(w).data@.len() as int + 8, string_offsets@),
            ));
        }
        Ok(())
    }
}

} // verus!
