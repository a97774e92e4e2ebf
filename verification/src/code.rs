//! The `CODE` chunk: compiled code blobs.
//!
//! Layout: `count:u32`, an offset table of `count` absolute record
//! positions (recomputed on write; decoding discards it), then `count`
//! records of `name_offset:u32 + size:u32 + size raw bytes`.

use crate::chunk::{
    chunk_bytes, chunk_frame_ok, chunk_size_at, get_chunk_header, TAG_CODE,
};
use crate::cursor::{Reader, Writer};
use crate::error::{ReadError, WriteError};
use crate::words::{bytes_of_u32s, read_u32s, write_u32s};
use vstd::bytes::{lemma_auto_spec_u32_to_from_le_bytes, spec_u32_from_le_bytes, spec_u32_to_le_bytes};
use vstd::prelude::*;

verus! {

/// One code blob: a cross-reference to its name, and the raw compiled
/// bytes kept verbatim.
pub struct CodeChunk {
    pub name_index: usize,
    pub raw_code: Vec<u8>,
}

/// The `CODE` record set.
pub struct Code {
    pub code_chunks: Vec<CodeChunk>,
}

/// One record's bytes, given the value of its name slot.
pub open spec fn code_rec_bytes(name_off: u32, raw: Seq<u8>) -> Seq<u8> {
    spec_u32_to_le_bytes(name_off) + spec_u32_to_le_bytes(raw.len() as u32) + raw
}

/// All records back to back; `vals[i]` is what record `i`'s name slot
/// holds.
pub open spec fn code_recs_bytes(cs: Seq<CodeChunk>, vals: Seq<u32>) -> Seq<u8>
    decreases cs.len(),
{
    if cs.len() == 0 {
        Seq::empty()
    } else {
        code_recs_bytes(cs.drop_last(), vals.drop_last()) + code_rec_bytes(
            vals.last(),
            cs.last().raw_code@,
        )
    }
}

/// Where record `i` begins, relative to the first record.
pub open spec fn code_rec_pos(cs: Seq<CodeChunk>, i: int) -> int
    decreases i,
{
    if i <= 0 {
        0
    } else {
        code_rec_pos(cs, i - 1) + 8 + cs[i - 1].raw_code@.len()
    }
}

pub proof fn lemma_code_recs_len(cs: Seq<CodeChunk>, vals: Seq<u32>)
    requires
        cs.len() == vals.len(),
    ensures
        code_recs_bytes(cs, vals).len() == code_rec_pos(cs, cs.len() as int),
    decreases cs.len(),
{
    lemma_auto_spec_u32_to_from_le_bytes();
    if cs.len() > 0 {
        lemma_code_recs_len(cs.drop_last(), vals.drop_last());
        assert(code_rec_pos(cs.drop_last(), cs.len() - 1) == code_rec_pos(cs, cs.len() - 1)) by {
            lemma_code_rec_pos_agree(cs, cs.drop_last(), cs.len() - 1);
        }
    }
}

/// The record positions depend only on the records before them.
pub proof fn lemma_code_rec_pos_agree(a: Seq<CodeChunk>, b: Seq<CodeChunk>, i: int)
    requires
        i <= a.len(),
        i <= b.len(),
        forall|j: int| 0 <= j < i ==> a[j] == b[j],
    ensures
        code_rec_pos(a, i) == code_rec_pos(b, i),
    decreases i,
{
    if i > 0 {
        lemma_code_rec_pos_agree(a, b, i - 1);
    }
}

/// Record positions never decrease.
pub proof fn lemma_code_rec_pos_bound(cs: Seq<CodeChunk>, i: int, j: int)
    requires
        0 <= i <= j <= cs.len(),
    ensures
        code_rec_pos(cs, i) <= code_rec_pos(cs, j),
    decreases j - i,
{
    if i < j {
        lemma_code_rec_pos_bound(cs, i, j - 1);
    }
}

/// The chunk's content bytes: count, the recomputed offset table, then the
/// records with their name slots resolved through the string-offset array.
pub open spec fn code_table_words(cs: Seq<CodeChunk>, base: int) -> Seq<u32> {
    Seq::new(cs.len(), |i: int| (base + 4 + 4 * cs.len() + code_rec_pos(cs, i)) as u32)
}

/// The values the records' name slots hold, resolved through the
/// string-offset array.
pub open spec fn code_name_vals(cs: Seq<CodeChunk>, soffs: Seq<u32>) -> Seq<u32> {
    Seq::new(cs.len(), |i: int| soffs[cs[i].name_index as int])
}

pub open spec fn code_content(cs: Seq<CodeChunk>, base: int, soffs: Seq<u32>) -> Seq<u8> {
    spec_u32_to_le_bytes(cs.len() as u32) + bytes_of_u32s(code_table_words(cs, base))
        + code_recs_bytes(cs, code_name_vals(cs, soffs))
}

/// The content length.
pub open spec fn code_content_len(cs: Seq<CodeChunk>) -> int {
    4 + 4 * cs.len() + code_rec_pos(cs, cs.len() as int)
}

/// Every cross-reference index lies within the string table.
pub open spec fn code_wf(cs: Seq<CodeChunk>, n_strings: int) -> bool {
    forall|i: int| 0 <= i < cs.len() ==> (#[trigger] cs[i]).name_index < n_strings
}

/// Where the walk over `n` records starting at `pos` ends, or -1 when it
/// runs out of the buffer: each record is skipped by its own size word.
pub open spec fn code_walk_end(b: Seq<u8>, pos: int, n: nat) -> int
    decreases n,
{
    if n == 0 {
        pos
    } else if pos < 0 || pos + 8 > b.len() {
        -1
    } else {
        let sz = spec_u32_from_le_bytes(b.subrange(pos + 4, pos + 8)) as int;
        if pos + 8 + sz > b.len() {
            -1
        } else {
            code_walk_end(b, pos + 8 + sz, (n - 1) as nat)
        }
    }
}

/// A whole `CODE` chunk decodes at `pos`: framed with its tag, its count
/// word and offset table within the buffer, and the record walk staying
/// within it.
pub open spec fn code_parse_ok(b: Seq<u8>, pos: int) -> bool {
    let cnt = spec_u32_from_le_bytes(b.subrange(pos + 8, pos + 12)) as int;
    &&& chunk_frame_ok(b, pos, TAG_CODE)
    &&& pos + 12 <= b.len()
    &&& pos + 12 + 4 * cnt <= b.len()
    &&& code_walk_end(b, pos + 12 + 4 * cnt, cnt as nat) >= 0
}

/// Records with equal code bytes serialize identically, record by
/// record: the name index plays no part in the record bytes.
pub proof fn lemma_code_recs_bytes_same_raw(a: Seq<CodeChunk>, c: Seq<CodeChunk>, vals: Seq<u32>)
    requires
        a.len() == c.len(),
        forall|i: int| 0 <= i < a.len() ==> (#[trigger] a[i]).raw_code@ == c[i].raw_code@,
    ensures
        code_recs_bytes(a, vals) == code_recs_bytes(c, vals),
        code_rec_pos(a, a.len() as int) == code_rec_pos(c, c.len() as int),
    decreases a.len(),
{
    lemma_code_rec_pos_same_raw(a, c, a.len() as int);
    if a.len() > 0 {
        assert(a.drop_last().len() == c.drop_last().len());
        assert(forall|i: int|
            0 <= i < a.drop_last().len() ==> (#[trigger] a.drop_last()[i]).raw_code@
                == c.drop_last()[i].raw_code@);
        lemma_code_recs_bytes_same_raw(a.drop_last(), c.drop_last(), vals.drop_last());
        assert(a.last().raw_code@ == c.last().raw_code@);
    }
}

/// The record positions depend only on the records' code bytes.
pub proof fn lemma_code_rec_pos_same_raw(a: Seq<CodeChunk>, c: Seq<CodeChunk>, i: int)
    requires
        i <= a.len(),
        a.len() == c.len(),
        forall|j: int| 0 <= j < a.len() ==> (#[trigger] a[j]).raw_code@ == c[j].raw_code@,
    ensures
        code_rec_pos(a, i) == code_rec_pos(c, i),
    decreases i,
{
    if i > 0 {
        lemma_code_rec_pos_same_raw(a, c, i - 1);
    }
}

/// What cross-reference resolution leaves of a decoded `CODE` chunk: the
/// record region's bytes are the records' serialization under some name
/// slots, each resolved against `tbl`.
pub open spec fn code_resolved_ok(b: Seq<u8>, pos: int, cs: Seq<CodeChunk>, tbl: Seq<u32>) -> bool {
    let n = cs.len() as int;
    let rpos = pos + 12 + 4 * n;
    &&& n <= u32::MAX
    &&& spec_u32_from_le_bytes(b.subrange(pos + 8, pos + 12)) == n as u32
    &&& rpos + code_rec_pos(cs, n) <= b.len()
    &&& exists|vals: Seq<u32>|
        {
            &&& vals.len() == n
            &&& b.subrange(rpos, rpos + code_rec_pos(cs, n)) == #[trigger] code_recs_bytes(
                cs,
                vals,
            )
            &&& forall|i: int|
                0 <= i < n ==> crate::xref::resolves_to(
                    tbl,
                    vals[i],
                    (#[trigger] cs[i]).name_index as int,
                )
        }
}

/// Every name reference a `CODE` chunk at `pos` stores has a match in
/// the table's offset array `tbl`: however the record region splits into
/// records, every name slot resolves.
pub open spec fn code_refs_ok(b: Seq<u8>, pos: int, tbl: Seq<u32>) -> bool {
    let cnt = spec_u32_from_le_bytes(b.subrange(pos + 8, pos + 12)) as int;
    let rpos = pos + 12 + 4 * cnt;
    forall|cs: Seq<CodeChunk>, vals: Seq<u32>|
        {
            &&& cs.len() == cnt
            &&& vals.len() == cnt
            &&& rpos + code_rec_pos(cs, cnt) <= b.len()
            &&& b.subrange(rpos, rpos + code_rec_pos(cs, cnt)) == #[trigger] code_recs_bytes(
                cs,
                vals,
            )
        } ==> forall|i: int|
            #![trigger vals[i]]
            0 <= i < cnt ==> exists|j: int| #[trigger] crate::xref::resolves_to(tbl, vals[i], j)
}

impl Code {
    /// Reads the `CODE` chunk, yielding the records (cross-references not
    /// yet resolved) and each record's raw name offset.  The stored offset
    /// table is discarded: it is recomputed on write.
    #[verifier::loop_isolation(false)]
    pub fn read(r: &mut Reader) -> (res: Result<(Code, Vec<u32>), ReadError>)
        requires
            old(r).wf(),
        ensures
            final(r).data == old(r).data,
            final(r).wf(),
            match res {
                Ok((c, offs)) => {
                    let b = old(r).data@;
                    let pos = old(r).pos as int;
                    let n = c.code_chunks@.len() as int;
                    let rpos = pos + 12 + 4 * n;
                    &&& code_parse_ok(b, pos)
                    &&& n <= u32::MAX
                    &&& final(r).pos == code_walk_end(b, rpos, n as nat)
                    &&& offs@.len() == n
                    &&& spec_u32_from_le_bytes(b.subrange(pos + 8, pos + 12)) == n as u32
                    &&& final(r).pos == rpos + code_rec_pos(c.code_chunks@, n)
                    &&& final(r).pos <= b.len()
                    &&& b.subrange(rpos, final(r).pos as int) == code_recs_bytes(
                        c.code_chunks@,
                        offs@,
                    )
                    &&& forall|i: int|
                        0 <= i < n ==> (#[trigger] c.code_chunks@[i]).name_index == 0
                },
                Err(e) => {
                    &&& !code_parse_ok(old(r).data@, old(r).pos as int)
                    &&& (e is UnexpectedEof || e is UnexpectedChunk)
                },
            },
    {
        proof {
            lemma_auto_spec_u32_to_from_le_bytes();
        }
        let ghost b = r.data@;
        let ghost start = r.pos as int;
        match get_chunk_header(r, TAG_CODE) {
            Ok(_) => (),
            Err(e) => {
                return Err(e);
            },
        }
        let count = match r.read_u32() {
            Ok(v) => v,
            Err(e) => {
                return Err(e);
            },
        };
        match read_u32s(r, count as usize) {
            Ok(_) => (),
            Err(e) => {
                return Err(e);
            },
        }
        let ghost rpos = r.pos as int;
        let mut chunks: Vec<CodeChunk> = Vec::new();
        let mut offs: Vec<u32> = Vec::new();
        let mut i: u32 = 0;
        while i < count
            invariant
                r.wf(),
                r.data == old(r).data,
                i <= count,
                chunks@.len() == i,
                offs@.len() == i,
                r.pos == rpos + code_rec_pos(chunks@, i as int),
                0 <= rpos <= r.pos,
                code_walk_end(b, rpos, count as nat) == code_walk_end(
                    b,
                    r.pos as int,
                    (count - i) as nat,
                ),
                b.subrange(rpos, r.pos as int) == code_recs_bytes(chunks@, offs@),
                forall|j: int| 0 <= j < i ==> (#[trigger] chunks@[j]).name_index == 0,
            decreases count - i,
        {
            let name_offset = match r.read_u32() {
                Ok(v) => v,
                Err(e) => {
                    return Err(e);
                },
            };
            let size = match r.read_u32() {
                Ok(v) => v,
                Err(e) => {
                    return Err(e);
                },
            };
            let raw = match r.read_bytes(size as usize) {
                Ok(v) => v,
                Err(e) => {
                    return Err(e);
                },
            };
            let ghost old_chunks = chunks@;
            let ghost old_offs = offs@;
            let ghost p0 = rpos + code_rec_pos(old_chunks, i as int);
            chunks.push(CodeChunk { name_index: 0, raw_code: raw });
            offs.push(name_offset);
            proof {
                assert(chunks@.drop_last() =~= old_chunks);
                assert(offs@.drop_last() =~= old_offs);
                lemma_code_rec_pos_agree(chunks@, old_chunks, i as int);
                assert(b.subrange(rpos, r.pos as int) =~= b.subrange(rpos, p0) + b.subrange(
                    p0,
                    r.pos as int,
                ));
                assert(b.subrange(p0, r.pos as int) =~= code_rec_bytes(name_offset, raw@)) by {
                    assert(b.subrange(p0, p0 + 4) == spec_u32_to_le_bytes(name_offset));
                    assert(b.subrange(p0 + 4, p0 + 8) == spec_u32_to_le_bytes(size));
                    assert(b.subrange(p0 + 8, r.pos as int) == raw@);
                }
            }
            i = i + 1;
        }
        Ok((Code { code_chunks: chunks }, offs))
    }

    /// The content length of this record set, checked against the 32-bit
    /// length field.
    #[verifier::loop_isolation(false)]
    pub fn content_size(&self) -> (res: Result<u32, WriteError>)
        ensures
            match res {
                Ok(sz) => sz == code_content_len(self.code_chunks@),
                Err(e) => e == WriteError::TooLarge && code_content_len(self.code_chunks@)
                    > u32::MAX,
            },
    {
        let n = self.code_chunks.len();
        if n as u64 > ((u32::MAX as u64) - 4) / 12 {
            proof {
                lemma_code_rec_pos_ge(self.code_chunks@, self.code_chunks@.len() as int);
            }
            return Err(WriteError::TooLarge);
        }
        let mut total: u64 = 4 + 4 * (n as u64);
        let mut i: usize = 0;
        while i < n
            invariant
                i <= n,
                total == 4 + 4 * n + code_rec_pos(self.code_chunks@, i as int),
                total <= u32::MAX,
            decreases n - i,
        {
            let len = self.code_chunks[i].raw_code.len();
            if len as u64 > u32::MAX as u64 || total + 8 + (len as u64) > u32::MAX as u64 {
                proof {
                    lemma_code_rec_pos_bound(self.code_chunks@, i + 1, n as int);
                }
                return Err(WriteError::TooLarge);
            }
            total = total + 8 + (len as u64);
            i = i + 1;
        }
        Ok(total as u32)
    }

    /// Writes the whole `CODE` chunk: header, count, the recomputed offset
    /// table, then every record with its name slot taken from the
    /// recomputed string-offset array.
    #[verifier::loop_isolation(false)]
    pub fn write(&self, w: &mut Writer, string_offsets: &Vec<u32>) -> (res: Result<
        (),
        WriteError,
    >)
        requires
            code_wf(self.code_chunks@, string_offsets@.len() as int),
            old(w).data@.len() + 8 + code_content_len(self.code_chunks@) <= u32::MAX,
        ensures
            match res {
                Ok(()) => final(w).data@ == old(w).data@ + chunk_bytes(
                    TAG_CODE,
                    code_content(self.code_chunks@, old(w).data@.len() as int + 8, string_offsets@),
                ),
                Err(e) => false,
            },
    {
        proof {
            lemma_auto_spec_u32_to_from_le_bytes();
            lemma_code_rec_pos_ge(self.code_chunks@, self.code_chunks@.len() as int);
        }
        let base = w.tell() + 8;
        let n = self.code_chunks.len();
        let ghost cs = self.code_chunks@;
        let ghost vals = code_name_vals(cs, string_offsets@);
        let ghost tablews = code_table_words(cs, base as int);
        let size = match self.content_size() {
            Ok(s) => s,
            Err(e) => {
                proof {
                    lemma_code_rec_pos_ge(cs, n as int);
                }
                return Err(e);
            },
        };
        crate::chunk::write_chunk_header(w, TAG_CODE, size);
        w.write_u32(n as u32);
        let ghost prefix = old(w).data@ + crate::chunk::chunk_header_bytes(TAG_CODE, size)
            + spec_u32_to_le_bytes((n as u32));
        let mut table: Vec<u32> = Vec::new();
        let first = (base + 4 + 4 * n) as u32;
        let mut off: u32 = first;
        let mut i: usize = 0;
        while i < n
            invariant
                i <= n,
                table@.len() == i,
                off == base + 4 + 4 * n + code_rec_pos(cs, i as int),
                forall|j: int| 0 <= j < i ==> #[trigger] table@[j] == tablews[j],
            decreases n - i,
        {
            proof {
                lemma_code_rec_pos_bound(cs, i + 1, n as int);
            }
            table.push(off);
            off = off + 8 + (self.code_chunks[i].raw_code.len() as u32);
            i = i + 1;
        }
        proof {
            assert(table@ =~= tablews);
            crate::words::lemma_bytes_of_u32s_len(tablews);
        }
        write_u32s(w, table.as_slice());
        let ghost prefix2 = prefix + bytes_of_u32s(tablews);
        let mut i: usize = 0;
        proof {
            assert(w.data@ =~= prefix2 + code_recs_bytes(cs.take(0), vals.take(0)));
        }
        while i < n
            invariant
                i <= n,
                w.data@ == prefix2 + code_recs_bytes(cs.take(i as int), vals.take(i as int)),
            decreases n - i,
        {
            let c = &self.code_chunks[i];
            w.write_u32(string_offsets[c.name_index]);
            w.write_u32(c.raw_code.len() as u32);
            w.write_bytes(c.raw_code.as_slice());
            proof {
                lemma_code_rec_pos_bound(cs, i + 1, n as int);
                assert(cs.take(i + 1).drop_last() =~= cs.take(i as int));
                assert(vals.take(i + 1).drop_last() =~= vals.take(i as int));
                assert(w.data@ =~= prefix2 + (code_recs_bytes(cs.take(i as int), vals.take(i as int))
                    + code_rec_bytes(vals[i as int], cs[i as int].raw_code@)));
            }
            i = i + 1;
        }
        proof {
            assert(cs.take(n as int) =~= cs);
            assert(vals.take(n as int) =~= vals);
            lemma_code_recs_len(cs, vals);
            assert(w.data@ =~= old(w).data@ + chunk_bytes(
                TAG_CODE,
                code_content(cs, old(w).data@.len() as int + 8, string_offsets@),
            ));
        }
        Ok(())
    }
}

/// Record positions are never negative, and grow at least 8 bytes per
/// record.
pub proof fn lemma_code_rec_pos_ge(cs: Seq<CodeChunk>, i: int)
    ensures
        i >= 0 ==> code_rec_pos(cs, i) >= 8 * i,
        code_rec_pos(cs, i) >= 0,
    decreases i,
{
    if i > 0 {
        lemma_code_rec_pos_ge(cs, i - 1);
    }
}

} // verus!
