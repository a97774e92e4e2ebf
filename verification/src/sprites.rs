//! The `SPRT` chunk: sprite records.
//!
//! Layout: `count:u32`, an offset table of `count` absolute record
//! positions, then variable-length records of `name_offset:u32 + width:u32
//! + height:u32 + opaque bytes`.  A record's extent is not stored: it runs
//! to the next table entry, or to the chunk's end for the last record, so
//! decoding must follow the table.  Writing lays the records out back to
//! back and recomputes the table.

use crate::chunk::{
    chunk_bytes, chunk_frame_ok, chunk_size_at, get_chunk_header, TAG_SPRT,
};
use crate::cursor::{Reader, Writer};
use crate::error::{ReadError, WriteError};
use crate::words::{bytes_of_u32s, lemma_parse_u32s_agrees, parse_u32s, read_u32s, write_u32s};
use vstd::bytes::{
    lemma_auto_spec_u32_to_from_le_bytes, spec_u32_from_le_bytes, spec_u32_to_le_bytes,
};
use vstd::prelude::*;

verus! {

/// One sprite: a cross-reference to its name, its size, and its remaining
/// bytes kept verbatim.
pub struct Sprite {
    pub name_index: usize,
    pub width: u32,
    pub height: u32,
    pub unknown: Vec<u8>,
}

/// The `SPRT` record set.
pub struct Sprites {
    pub sprites: Vec<Sprite>,
}

/// Every cross-reference index lies within the string table.
pub open spec fn sprt_wf(sprites: Seq<Sprite>, n_strings: int) -> bool {
    forall|i: int| 0 <= i < sprites.len() ==> (#[trigger] sprites[i]).name_index < n_strings
}

/// One record's bytes, given the value of its name slot.
pub open spec fn sprite_rec_bytes(nv: u32, width: u32, height: u32, unk: Seq<u8>) -> Seq<u8> {
    spec_u32_to_le_bytes(nv) + spec_u32_to_le_bytes(width) + spec_u32_to_le_bytes(height) + unk
}

/// All records back to back; `vals[i]` is what record `i`'s name slot
/// holds.
pub open spec fn sprite_recs_bytes(ss: Seq<Sprite>, vals: Seq<u32>) -> Seq<u8>
    decreases ss.len(),
{
    if ss.len() == 0 {
        Seq::empty()
    } else {
        sprite_recs_bytes(ss.drop_last(), vals.drop_last()) + sprite_rec_bytes(
            vals.last(),
            ss.last().width,
            ss.last().height,
            ss.last().unknown@,
        )
    }
}

/// Where record `i` begins, relative to the first record.
pub open spec fn sprite_rec_pos(ss: Seq<Sprite>, i: int) -> int
    decreases i,
{
    if i <= 0 {
        0
    } else {
        sprite_rec_pos(ss, i - 1) + 12 + ss[i - 1].unknown@.len()
    }
}

pub proof fn lemma_sprite_rec_pos_agree(a: Seq<Sprite>, b: Seq<Sprite>, i: int)
    requires
        i <= a.len(),
        i <= b.len(),
        forall|j: int| 0 <= j < i ==> a[j] == b[j],
    ensures
        sprite_rec_pos(a, i) == sprite_rec_pos(b, i),
    decreases i,
{
    if i > 0 {
        lemma_sprite_rec_pos_agree(a, b, i - 1);
    }
}

pub proof fn lemma_sprite_recs_len(ss: Seq<Sprite>, vals: Seq<u32>)
    requires
        ss.len() == vals.len(),
    ensures
        sprite_recs_bytes(ss, vals).len() == sprite_rec_pos(ss, ss.len() as int),
    decreases ss.len(),
{
    lemma_auto_spec_u32_to_from_le_bytes();
    if ss.len() > 0 {
        lemma_sprite_recs_len(ss.drop_last(), vals.drop_last());
        lemma_sprite_rec_pos_agree(ss, ss.drop_last(), ss.len() - 1);
    }
}

/// Record positions grow by at least 12 bytes per record.
pub proof fn lemma_sprite_rec_pos_ge(ss: Seq<Sprite>, i: int)
    ensures
        i >= 0 ==> sprite_rec_pos(ss, i) >= 12 * i,
        sprite_rec_pos(ss, i) >= 0,
    decreases i,
{
    if i > 0 {
        lemma_sprite_rec_pos_ge(ss, i - 1);
    }
}

/// Record positions never decrease.
pub proof fn lemma_sprite_rec_pos_bound(ss: Seq<Sprite>, i: int, j: int)
    requires
        0 <= i <= j <= ss.len(),
    ensures
        sprite_rec_pos(ss, i) <= sprite_rec_pos(ss, j),
    decreases j - i,
{
    if i < j {
        lemma_sprite_rec_pos_bound(ss, i, j - 1);
    }
}

/// The recomputed offset table: each record's absolute position.
pub open spec fn sprt_table_words(ss: Seq<Sprite>, base: int) -> Seq<u32> {
    Seq::new(ss.len(), |i: int| (base + 4 + 4 * ss.len() + sprite_rec_pos(ss, i)) as u32)
}

/// The values the records' name slots hold, resolved through the
/// string-offset array.
pub open spec fn sprt_name_vals(ss: Seq<Sprite>, soffs: Seq<u32>) -> Seq<u32> {
    Seq::new(ss.len(), |i: int| soffs[ss[i].name_index as int])
}

/// The chunk's content bytes.
pub open spec fn sprt_content(ss: Seq<Sprite>, base: int, soffs: Seq<u32>) -> Seq<u8> {
    spec_u32_to_le_bytes(ss.len() as u32) + bytes_of_u32s(sprt_table_words(ss, base))
        + sprite_recs_bytes(ss, sprt_name_vals(ss, soffs))
}

/// The content length.
pub open spec fn sprt_content_len(ss: Seq<Sprite>) -> int {
    4 + 4 * ss.len() + sprite_rec_pos(ss, ss.len() as int)
}

/// The end of record `j`: the next table entry's position, or the
/// chunk's end for the last record.
pub open spec fn sprt_rec_end(tbl: Seq<u32>, j: int, end: int) -> int {
    if j + 1 < tbl.len() {
        tbl[j + 1] as int
    } else {
        end
    }
}

/// A whole `SPRT` chunk decodes at `pos`: framed with its tag, its count
/// word, offset table and declared extent within the buffer, and every
/// table entry leaving room for its record up to the next entry (or the
/// chunk's end).
pub open spec fn sprt_parse_ok(b: Seq<u8>, pos: int) -> bool {
    let cnt = spec_u32_from_le_bytes(b.subrange(pos + 8, pos + 12)) as int;
    let tbl = parse_u32s(b, pos + 12, cnt as nat);
    let end = pos + 8 + chunk_size_at(b, pos);
    &&& chunk_frame_ok(b, pos, TAG_SPRT)
    &&& pos + 12 <= b.len()
    &&& (cnt == 0 ==> chunk_size_at(b, pos) == 4)
    &&& pos + 12 + 4 * cnt <= b.len()
    &&& end <= b.len()
    &&& forall|i: int|
        0 <= i < cnt ==> (#[trigger] tbl[i]) + 12 <= sprt_rec_end(tbl, i, end) && sprt_rec_end(
            tbl,
            i,
            end,
        ) <= b.len()
}

/// What a successful `SPRT` decode yields from the bytes at `pos`: each
/// record's fields and opaque tail read at its table position, its extent
/// running to the next table entry or the chunk's end.
pub open spec fn sprt_read_ok(b: Seq<u8>, pos: int, sp: Sprites, offs: Seq<u32>) -> bool {
    let n = sp.sprites@.len() as int;
    let tbl = parse_u32s(b, pos + 12, n as nat);
    let end = pos + 8 + chunk_size_at(b, pos);
    &&& n <= u32::MAX
    &&& offs.len() == n
    &&& spec_u32_from_le_bytes(b.subrange(pos + 8, pos + 12)) == n as u32
    &&& forall|i: int|
        0 <= i < n ==> {
            &&& (#[trigger] offs[i]) == spec_u32_from_le_bytes(
                b.subrange(tbl[i] as int, tbl[i] as int + 4),
            )
            &&& sp.sprites@[i].width == spec_u32_from_le_bytes(
                b.subrange(tbl[i] as int + 4, tbl[i] as int + 8),
            )
            &&& sp.sprites@[i].height == spec_u32_from_le_bytes(
                b.subrange(tbl[i] as int + 8, tbl[i] as int + 12),
            )
            &&& sp.sprites@[i].unknown@ == b.subrange(
                tbl[i] as int + 12,
                sprt_rec_end(tbl, i, end),
            )
            &&& sp.sprites@[i].name_index == 0
        }
}

/// What cross-reference resolution leaves of a decoded `SPRT` chunk:
/// each record's fields and opaque tail tied to the bytes at its table
/// position, its name reference resolved against `tbl`.
pub open spec fn sprt_resolved_ok(b: Seq<u8>, pos: int, ss: Seq<Sprite>, tbl: Seq<u32>) -> bool {
    let n = ss.len() as int;
    let stbl = parse_u32s(b, pos + 12, n as nat);
    let end = pos + 8 + chunk_size_at(b, pos);
    &&& n <= u32::MAX
    &&& spec_u32_from_le_bytes(b.subrange(pos + 8, pos + 12)) == n as u32
    &&& forall|i: int|
        0 <= i < n ==> {
            &&& crate::xref::resolves_to(
                tbl,
                spec_u32_from_le_bytes(b.subrange(stbl[i] as int, stbl[i] as int + 4)),
                (#[trigger] ss[i]).name_index as int,
            )
            &&& ss[i].width == spec_u32_from_le_bytes(
                b.subrange(stbl[i] as int + 4, stbl[i] as int + 8),
            )
            &&& ss[i].height == spec_u32_from_le_bytes(
                b.subrange(stbl[i] as int + 8, stbl[i] as int + 12),
            )
            &&& ss[i].unknown@ == b.subrange(stbl[i] as int + 12, sprt_rec_end(stbl, i, end))
        }
}

/// Every name reference a `SPRT` chunk at `pos` stores has a match in
/// the table's offset array `tbl`.
pub open spec fn sprt_refs_ok(b: Seq<u8>, pos: int, tbl: Seq<u32>) -> bool {
    let cnt = spec_u32_from_le_bytes(b.subrange(pos + 8, pos + 12)) as int;
    let stbl = parse_u32s(b, pos + 12, cnt as nat);
    forall|i: int|
        #![trigger stbl[i]]
        0 <= i < cnt ==> exists|j: int|
            #[trigger] crate::xref::resolves_to(
                tbl,
                spec_u32_from_le_bytes(b.subrange(stbl[i] as int, stbl[i] as int + 4)),
                j,
            )
}

impl Sprites {
    /// Reads the `SPRT` chunk by following its offset table: each record
    /// is decoded at its table position, its extent inferred from the next
    /// table entry, or from the chunk's end for the last record.  Yields
    /// the records (cross-references not yet resolved) and each record's
    /// raw name offset.
    #[verifier::loop_isolation(false)]
    #[verifier::rlimit(100)]
    #[verifier::spinoff_prover]
    pub fn read(r: &mut Reader) -> (res: Result<(Sprites, Vec<u32>), ReadError>)
        requires
            old(r).wf(),
        ensures
            final(r).data == old(r).data,
            final(r).wf(),
            match res {
                Ok((sp, offs)) => {
                    &&& sprt_parse_ok(old(r).data@, old(r).pos as int)
                    &&& sprt_read_ok(old(r).data@, old(r).pos as int, sp, offs@)
                    &&& final(r).pos == old(r).pos + 8 + chunk_size_at(
                        old(r).data@,
                        old(r).pos as int,
                    )
                },
                Err(e) => {
                    &&& !sprt_parse_ok(old(r).data@, old(r).pos as int)
                    &&& (e is UnexpectedEof || e is UnexpectedChunk || e is BadChunkSize)
                },
            },
    {
        proof {
            lemma_auto_spec_u32_to_from_le_bytes();
        }
        let ghost b = r.data@;
        let blen = r.data.len();
        let start_pos = r.tell();
        let ghost start = r.pos as int;
        let h = match get_chunk_header(r, TAG_SPRT) {
            Ok(h) => h,
            Err(e) => {
                return Err(e);
            },
        };
        let count = match r.read_u32() {
            Ok(v) => v,
            Err(e) => {
                return Err(e);
            },
        };
        if count == 0 && h.size != 4 {
            return Err(ReadError::BadChunkSize { tag: TAG_SPRT, size: h.size });
        }
        let table = match read_u32s(r, count as usize) {
            Ok(v) => v,
            Err(e) => {
                return Err(e);
            },
        };
        proof {
            lemma_parse_u32s_agrees(b, start + 12, count as nat, table@);
        }
        let mut sprites: Vec<Sprite> = Vec::new();
        let mut offs: Vec<u32> = Vec::new();
        let mut i: u32 = 0;
        let ghost endg = start + 8 + h.size as int;
        while i < count
            invariant
                r.wf(),
                r.data == old(r).data,
                blen == b.len(),
                i <= count,
                sprites@.len() == i,
                offs@.len() == i,
                count as int <= table@.len(),
                table@ == parse_u32s(b, start + 12, count as nat),
                endg == start + 8 + chunk_size_at(b, start),
                forall|j: int|
                    0 <= j < i ==> #[trigger] table@[j] + 12 <= sprt_rec_end(table@, j, endg)
                        && sprt_rec_end(table@, j, endg) <= b.len(),
                forall|j: int|
                    0 <= j < i ==> {
                        &&& (#[trigger] offs@[j]) == spec_u32_from_le_bytes(
                            b.subrange(table@[j] as int, table@[j] as int + 4),
                        )
                        &&& sprites@[j].width == spec_u32_from_le_bytes(
                            b.subrange(table@[j] as int + 4, table@[j] as int + 8),
                        )
                        &&& sprites@[j].height == spec_u32_from_le_bytes(
                            b.subrange(table@[j] as int + 8, table@[j] as int + 12),
                        )
                        &&& sprites@[j].unknown@ == b.subrange(
                            table@[j] as int + 12,
                            sprt_rec_end(table@, j, endg),
                        )
                        &&& sprites@[j].name_index == 0
                    },
            decreases count - i,
        {
            match r.seek(table[i as usize] as usize) {
                Ok(()) => (),
                Err(e) => {
                    proof {
                        if sprt_parse_ok(b, start) {
                            assert(false);
                        }
                    }
                    return Err(e);
                },
            }
            let name_offset = match r.read_u32() {
                Ok(v) => v,
                Err(e) => {
                    proof {
                        if sprt_parse_ok(b, start) {
                            assert(false);
                        }
                    }
                    return Err(e);
                },
            };
            let width = match r.read_u32() {
                Ok(v) => v,
                Err(e) => {
                    proof {
                        if sprt_parse_ok(b, start) {
                            assert(false);
                        }
                    }
                    return Err(e);
                },
            };
            let height = match r.read_u32() {
                Ok(v) => v,
                Err(e) => {
                    proof {
                        if sprt_parse_ok(b, start) {
                            assert(false);
                        }
                    }
                    return Err(e);
                },
            };
            let next: usize = if (i as usize) + 1 < count as usize {
                table[(i as usize) + 1] as usize
            } else {
                let sz = h.size as usize;
                if sz > usize::MAX - 8 || start_pos > usize::MAX - 8 - sz {
                    proof {
                        if sprt_parse_ok(b, start) {
                            assert(false);
                        }
                    }
                    return Err(ReadError::UnexpectedEof);
                }
                start_pos + 8 + sz
            };
            proof {
                assert(next as int == sprt_rec_end(table@, i as int, endg));
            }
            let cur = r.tell();
            if next < cur {
                proof {
                    if sprt_parse_ok(b, start) {
                        assert(false);
                    }
                }
                return Err(ReadError::UnexpectedEof);
            }
            let unk = match r.read_bytes(next - cur) {
                Ok(v) => v,
                Err(e) => {
                    proof {
                        if sprt_parse_ok(b, start) {
                            assert(false);
                        }
                    }
                    return Err(e);
                },
            };
            offs.push(name_offset);
            sprites.push(Sprite { name_index: 0, width, height, unknown: unk });
            proof {
                assert forall|j: int|
                    0 <= j < i + 1 implies #[trigger] table@[j] + 12 <= sprt_rec_end(
                    table@,
                    j,
                    endg,
                ) && sprt_rec_end(table@, j, endg) <= b.len() by {
                    if j < i {
                        assert(offs@[j] == offs@.drop_last()[j]);
                    }
                }
                assert forall|j: int|
                    0 <= j < i + 1 implies {
                        &&& (#[trigger] offs@[j]) == spec_u32_from_le_bytes(
                            b.subrange(table@[j] as int, table@[j] as int + 4),
                        )
                        &&& sprites@[j].width == spec_u32_from_le_bytes(
                            b.subrange(table@[j] as int + 4, table@[j] as int + 8),
                        )
                        &&& sprites@[j].height == spec_u32_from_le_bytes(
                            b.subrange(table@[j] as int + 8, table@[j] as int + 12),
                        )
                        &&& sprites@[j].unknown@ == b.subrange(
                            table@[j] as int + 12,
                            sprt_rec_end(table@, j, endg),
                        )
                        &&& sprites@[j].name_index == 0
                    } by {
                    if j < i {
                        assert(offs@[j] == offs@.drop_last()[j]);
                        assert(sprites@[j] == sprites@.drop_last()[j]);
                    } else {
                        assert(offs@[j] == name_offset);
                        assert(sprites@[j].width == width);
                        assert(sprites@[j].height == height);
                        assert(sprites@[j].unknown@ == unk@);
                    }
                }
            }
            i = i + 1;
        }
        let endpos = if (h.size as usize) > usize::MAX - 8 || start_pos > usize::MAX - 8 - (h.size
            as usize) {
            proof {
                if sprt_parse_ok(b, start) {
                    assert(false);
                }
            }
            return Err(ReadError::UnexpectedEof);
        } else {
            start_pos + 8 + (h.size as usize)
        };
        match r.seek(endpos) {
            Ok(()) => (),
            Err(e) => {
                proof {
                    if sprt_parse_ok(b, start) {
                        assert(false);
                    }
                }
                return Err(e);
            },
        }
        let result = Sprites { sprites };
        proof {
            assert(parse_u32s(b, start + 12, result.sprites@.len() as nat) == parse_u32s(
                b,
                start + 12,
                count as nat,
            ));
            let cnt = spec_u32_from_le_bytes(b.subrange(start + 8, start + 12)) as int;
            let tbl = parse_u32s(b, start + 12, cnt as nat);
            let end = start + 8 + chunk_size_at(b, start);
            assert(tbl == table@);
            assert forall|k: int|
                0 <= k < cnt implies (#[trigger] tbl[k]) + 12 <= sprt_rec_end(tbl, k, end)
                    && sprt_rec_end(tbl, k, end) <= b.len() by {
                assert(table@[k] + 12 <= sprt_rec_end(table@, k, endg));
            }
            assert(chunk_frame_ok(b, start, TAG_SPRT));
            assert(start + 12 <= b.len());
            assert(start + 12 + 4 * cnt <= b.len());
            assert(end <= b.len());
            assert(sprt_parse_ok(b, start));
            assert forall|k: int|
                0 <= k < result.sprites@.len() implies {
                    &&& (#[trigger] offs@[k]) == spec_u32_from_le_bytes(
                        b.subrange(tbl[k] as int, tbl[k] as int + 4),
                    )
                    &&& result.sprites@[k].width == spec_u32_from_le_bytes(
                        b.subrange(tbl[k] as int + 4, tbl[k] as int + 8),
                    )
                    &&& result.sprites@[k].height == spec_u32_from_le_bytes(
                        b.subrange(tbl[k] as int + 8, tbl[k] as int + 12),
                    )
                    &&& result.sprites@[k].unknown@ == b.subrange(
                        tbl[k] as int + 12,
                        sprt_rec_end(tbl, k, end),
                    )
                    &&& result.sprites@[k].name_index == 0
                } by {
                assert(offs@[k] == spec_u32_from_le_bytes(
                    b.subrange(table@[k] as int, table@[k] as int + 4),
                ));
                assert(sprt_rec_end(tbl, k, end) == sprt_rec_end(table@, k, endg));
            }
            assert(sprt_read_ok(b, start, result, offs@));
        }
        Ok((result, offs))
    }

    /// The content length of this record set, checked against the 32-bit
    /// length field.
    #[verifier::loop_isolation(false)]
    pub fn content_size(&self) -> (res: Result<u32, WriteError>)
        ensures
            match res {
                Ok(sz) => sz == sprt_content_len(self.sprites@),
                Err(e) => e == WriteError::TooLarge && sprt_content_len(self.sprites@) > u32::MAX,
            },
    {
        let n = self.sprites.len();
        if n as u64 > ((u32::MAX as u64) - 4) / 16 {
            proof {
                lemma_sprite_rec_pos_ge(self.sprites@, self.sprites@.len() as int);
            }
            return Err(WriteError::TooLarge);
        }
        let mut total: u64 = 4 + 4 * (n as u64);
        let mut i: usize = 0;
        while i < n
            invariant
                i <= n,
                total == 4 + 4 * n + sprite_rec_pos(self.sprites@, i as int),
                total <= u32::MAX,
            decreases n - i,
        {
            let len = self.sprites[i].unknown.len();
            if len as u64 > u32::MAX as u64 || total + 12 + (len as u64) > u32::MAX as u64 {
                proof {
                    lemma_sprite_rec_pos_bound(self.sprites@, i + 1, n as int);
                }
                return Err(WriteError::TooLarge);
            }
            total = total + 12 + (len as u64);
            i = i + 1;
        }
        Ok(total as u32)
    }

    /// Writes the whole `SPRT` chunk: header, count, the recomputed offset
    /// table, then the records back to back with their name slots taken
    /// from the recomputed string-offset array.
    #[verifier::loop_isolation(false)]
    pub fn write(&self, w: &mut Writer, string_offsets: &Vec<u32>) -> (res: Result<
        (),
        WriteError,
    >)
        requires
            sprt_wf(self.sprites@, string_offsets@.len() as int),
            old(w).data@.len() + 8 + sprt_content_len(self.sprites@) <= u32::MAX,
        ensures
            match res {
                Ok(()) => final(w).data@ == old(w).data@ + chunk_bytes(
                    TAG_SPRT,
                    sprt_content(self.sprites@, old(w).data@.len() as int + 8, string_offsets@),
                ),
                Err(e) => false,
            },
    {
        proof {
            lemma_auto_spec_u32_to_from_le_bytes();
            lemma_sprite_rec_pos_ge(self.sprites@, self.sprites@.len() as int);
        }
        let base = w.tell() + 8;
        let n = self.sprites.len();
        let ghost ss = self.sprites@;
        let ghost vals = sprt_name_vals(ss, string_offsets@);
        let ghost tablews = sprt_table_words(ss, base as int);
        let size = match self.content_size() {
            Ok(s) => s,
            Err(e) => {
                return Err(e);
            },
        };
        crate::chunk::write_chunk_header(w, TAG_SPRT, size);
        w.write_u32(n as u32);
        let ghost prefix = old(w).data@ + crate::chunk::chunk_header_bytes(TAG_SPRT, size)
            + spec_u32_to_le_bytes((n as u32));
        let mut table: Vec<u32> = Vec::new();
        let first = (base + 4 + 4 * n) as u32;
        let mut off: u32 = first;
        let mut i: usize = 0;
        while i < n
            invariant
                i <= n,
                table@.len() == i,
                off == base + 4 + 4 * n + sprite_rec_pos(ss, i as int),
                forall|j: int| 0 <= j < i ==> #[trigger] table@[j] == tablews[j],
            decreases n - i,
        {
            proof {
                lemma_sprite_rec_pos_bound(ss, i + 1, n as int);
            }
            table.push(off);
            off = off + 12 + (self.sprites[i].unknown.len() as u32);
            i = i + 1;
        }
        proof {
            assert(table@ =~= tablews);
            crate::words::lemma_bytes_of_u32s_len(tablews);
        }
        write_u32s(w, table.as_slice());
        let ghost prefix2 = prefix + bytes_of_u32s(tablews);
        let mut i: usize = 0;
        proof {
            assert(w.data@ =~= prefix2 + sprite_recs_bytes(ss.take(0), vals.take(0)));
        }
        while i < n
            invariant
                i <= n,
                w.data@ == prefix2 + sprite_recs_bytes(ss.take(i as int), vals.take(i as int)),
            decreases n - i,
        {
            let s = &self.sprites[i];
            w.write_u32(string_offsets[s.name_index]);
            w.write_u32(s.width);
            w.write_u32(s.height);
            w.write_bytes(s.unknown.as_slice());
            proof {
                assert(ss.take(i + 1).drop_last() =~= ss.take(i as int));
                assert(vals.take(i + 1).drop_last() =~= vals.take(i as int));
                assert(w.data@ =~= prefix2 + (sprite_recs_bytes(ss.take(i as int), vals.take(i as int))
                    + sprite_rec_bytes(
                    vals[i as int],
                    ss[i as int].width,
                    ss[i as int].height,
                    ss[i as int].unknown@,
                )));
            }
            i = i + 1;
        }
        proof {
            assert(ss.take(n as int) =~= ss);
            assert(vals.take(n as int) =~= vals);
            lemma_sprite_recs_len(ss, vals);
            assert(w.data@ =~= old(w).data@ + chunk_bytes(
                TAG_SPRT,
                sprt_content(ss, old(w).data@.len() as int + 8, string_offsets@),
            ));
        }
        Ok(())
    }
}

} // verus!
