//! The `FONT` chunk: font records.
//!
//! Layout: `count:u32`, an offset table of `count` absolute record
//! positions, then variable-length records of `name_offset:u32 +
//! font_name_offset:u32 + point_size:u32 + opaque bytes`.  A record's
//! extent is not stored: it runs to the next table entry, or to the
//! chunk's end for the last record, so decoding must follow the table.
//! Writing lays the records out back to back and recomputes the table.

use crate::chunk::{
    chunk_bytes, chunk_frame_ok, chunk_size_at, get_chunk_header, TAG_FONT,
};
use crate::cursor::{Reader, Writer};
use crate::error::{ReadError, WriteError};
use crate::words::{bytes_of_u32s, lemma_parse_u32s_agrees, parse_u32s, read_u32s, write_u32s};
use vstd::bytes::{
    lemma_auto_spec_u32_to_from_le_bytes, spec_u32_from_le_bytes, spec_u32_to_le_bytes,
};
use vstd::prelude::*;

verus! {

/// One font: cross-references to its resource name and face name, the
/// point size, and its remaining bytes kept verbatim.
pub struct Font {
    pub name_index: usize,
    pub font_name_index: usize,
    pub point_size: u32,
    pub data: Vec<u8>,
}

/// The `FONT` record set.
pub struct Fonts {
    pub fonts: Vec<Font>,
}

/// The raw cross-reference offsets one font record carries.
pub struct Offset {
    pub name: u32,
    pub font_name: u32,
}

/// Every cross-reference index lies within the string table.
pub open spec fn font_wf(fonts: Seq<Font>, n_strings: int) -> bool {
    forall|i: int|
        0 <= i < fonts.len() ==> (#[trigger] fonts[i]).name_index < n_strings
            && fonts[i].font_name_index < n_strings
}

/// One record's bytes, given the values of its two name slots.
pub open spec fn font_rec_bytes(nv: u32, fv: u32, ps: u32, data: Seq<u8>) -> Seq<u8> {
    spec_u32_to_le_bytes(nv) + spec_u32_to_le_bytes(fv) + spec_u32_to_le_bytes(ps) + data
}

/// All records back to back; `nvals[i]` and `fvals[i]` are what record
/// `i`'s name slots hold.
pub open spec fn font_recs_bytes(ss: Seq<Font>, nvals: Seq<u32>, fvals: Seq<u32>) -> Seq<u8>
    decreases ss.len(),
{
    if ss.len() == 0 {
        Seq::empty()
    } else {
        font_recs_bytes(ss.drop_last(), nvals.drop_last(), fvals.drop_last()) + font_rec_bytes(
            nvals.last(),
            fvals.last(),
            ss.last().point_size,
            ss.last().data@,
        )
    }
}

/// Where record `i` begins, relative to the first record.
pub open spec fn font_rec_pos(ss: Seq<Font>, i: int) -> int
    decreases i,
{
    if i <= 0 {
        0
    } else {
        font_rec_pos(ss, i - 1) + 12 + ss[i - 1].data@.len()
    }
}

pub proof fn lemma_font_rec_pos_agree(a: Seq<Font>, b: Seq<Font>, i: int)
    requires
        i <= a.len(),
        i <= b.len(),
        forall|j: int| 0 <= j < i ==> a[j] == b[j],
    ensures
        font_rec_pos(a, i) == font_rec_pos(b, i),
    decreases i,
{
    if i > 0 {
        lemma_font_rec_pos_agree(a, b, i - 1);
    }
}

pub proof fn lemma_font_recs_len(ss: Seq<Font>, nvals: Seq<u32>, fvals: Seq<u32>)
    requires
        ss.len() == nvals.len() == fvals.len(),
    ensures
        font_recs_bytes(ss, nvals, fvals).len() == font_rec_pos(ss, ss.len() as int),
    decreases ss.len(),
{
    lemma_auto_spec_u32_to_from_le_bytes();
    if ss.len() > 0 {
        lemma_font_recs_len(ss.drop_last(), nvals.drop_last(), fvals.drop_last());
        lemma_font_rec_pos_agree(ss, ss.drop_last(), ss.len() - 1);
    }
}

/// Record positions grow by at least 12 bytes per record.
pub proof fn lemma_font_rec_pos_ge(ss: Seq<Font>, i: int)
    ensures
        i >= 0 ==> font_rec_pos(ss, i) >= 12 * i,
        font_rec_pos(ss, i) >= 0,
    decreases i,
{
    if i > 0 {
        lemma_font_rec_pos_ge(ss, i - 1);
    }
}

/// Record positions never decrease.
pub proof fn lemma_font_rec_pos_bound(ss: Seq<Font>, i: int, j: int)
    requires
        0 <= i <= j <= ss.len(),
    ensures
        font_rec_pos(ss, i) <= font_rec_pos(ss, j),
    decreases j - i,
{
    if i < j {
        lemma_font_rec_pos_bound(ss, i, j - 1);
    }
}

/// The recomputed offset table: each record's absolute position.
pub open spec fn font_table_words(ss: Seq<Font>, base: int) -> Seq<u32> {
    Seq::new(ss.len(), |i: int| (base + 4 + 4 * ss.len() + font_rec_pos(ss, i)) as u32)
}

/// The values the records' name slots hold, resolved through the
/// string-offset array.
pub open spec fn font_name_vals(ss: Seq<Font>, soffs: Seq<u32>) -> Seq<u32> {
    Seq::new(ss.len(), |i: int| soffs[ss[i].name_index as int])
}

pub open spec fn font_face_vals(ss: Seq<Font>, soffs: Seq<u32>) -> Seq<u32> {
    Seq::new(ss.len(), |i: int| soffs[ss[i].font_name_index as int])
}

/// The chunk's content bytes.
pub open spec fn font_content(ss: Seq<Font>, base: int, soffs: Seq<u32>) -> Seq<u8> {
    spec_u32_to_le_bytes(ss.len() as u32) + bytes_of_u32s(font_table_words(ss, base))
        + font_recs_bytes(ss, font_name_vals(ss, soffs), font_face_vals(ss, soffs))
}

/// The content length.
pub open spec fn font_content_len(ss: Seq<Font>) -> int {
    4 + 4 * ss.len() + font_rec_pos(ss, ss.len() as int)
}

/// The end of record `j`: the next table entry's position, or the
/// chunk's end for the last record.
pub open spec fn font_rec_end(tbl: Seq<u32>, j: int, end: int) -> int {
    if j + 1 < tbl.len() {
        tbl[j + 1] as int
    } else {
        end
    }
}

/// A whole `FONT` chunk decodes at `pos`: framed with its tag, its count
/// word, offset table and declared extent within the buffer, and every
/// table entry leaving room for its record up to the next entry (or the
/// chunk's end).
pub open spec fn font_parse_ok(b: Seq<u8>, pos: int) -> bool {
    let cnt = spec_u32_from_le_bytes(b.subrange(pos + 8, pos + 12)) as int;
    let tbl = parse_u32s(b, pos + 12, cnt as nat);
    let end = pos + 8 + chunk_size_at(b, pos);
    &&& chunk_frame_ok(b, pos, TAG_FONT)
    &&& pos + 12 <= b.len()
    &&& (cnt == 0 ==> chunk_size_at(b, pos) == 4)
    &&& pos + 12 + 4 * cnt <= b.len()
    &&& end <= b.len()
    &&& forall|i: int|
        0 <= i < cnt ==> (#[trigger] tbl[i]) + 12 <= font_rec_end(tbl, i, end) && font_rec_end(
            tbl,
            i,
            end,
        ) <= b.len()
}

/// What a successful `FONT` decode yields from the bytes at `pos`: each
/// record's fields and opaque tail read at its table position, its extent
/// running to the next table entry or the chunk's end.
pub open spec fn font_read_ok(b: Seq<u8>, pos: int, fs: Fonts, offs: Seq<Offset>) -> bool {
    let n = fs.fonts@.len() as int;
    let tbl = parse_u32s(b, pos + 12, n as nat);
    let end = pos + 8 + chunk_size_at(b, pos);
    &&& n <= u32::MAX
    &&& offs.len() == n
    &&& spec_u32_from_le_bytes(b.subrange(pos + 8, pos + 12)) == n as u32
    &&& forall|i: int|
        0 <= i < n ==> {
            &&& (#[trigger] offs[i]).name == spec_u32_from_le_bytes(
                b.subrange(tbl[i] as int, tbl[i] as int + 4),
            )
            &&& offs[i].font_name == spec_u32_from_le_bytes(
                b.subrange(tbl[i] as int + 4, tbl[i] as int + 8),
            )
            &&& fs.fonts@[i].point_size == spec_u32_from_le_bytes(
                b.subrange(tbl[i] as int + 8, tbl[i] as int + 12),
            )
            &&& fs.fonts@[i].data@ == b.subrange(
                tbl[i] as int + 12,
                font_rec_end(tbl, i, end),
            )
            &&& fs.fonts@[i].name_index == 0
            &&& fs.fonts@[i].font_name_index == 0
        }
}

/// What cross-reference resolution leaves of a decoded `FONT` chunk:
/// each record's fields and data tied to the bytes at its table
/// position, its two name references resolved against `tbl`.
pub open spec fn font_resolved_ok(b: Seq<u8>, pos: int, fs: Seq<Font>, tbl: Seq<u32>) -> bool {
    let n = fs.len() as int;
    let ftbl = parse_u32s(b, pos + 12, n as nat);
    let end = pos + 8 + chunk_size_at(b, pos);
    &&& n <= u32::MAX
    &&& spec_u32_from_le_bytes(b.subrange(pos + 8, pos + 12)) == n as u32
    &&& forall|i: int|
        0 <= i < n ==> {
            &&& crate::xref::resolves_to(
                tbl,
                spec_u32_from_le_bytes(b.subrange(ftbl[i] as int, ftbl[i] as int + 4)),
                (#[trigger] fs[i]).name_index as int,
            )
            &&& crate::xref::resolves_to(
                tbl,
                spec_u32_from_le_bytes(b.subrange(ftbl[i] as int + 4, ftbl[i] as int + 8)),
                fs[i].font_name_index as int,
            )
            &&& fs[i].point_size == spec_u32_from_le_bytes(
                b.subrange(ftbl[i] as int + 8, ftbl[i] as int + 12),
            )
            &&& fs[i].data@ == b.subrange(ftbl[i] as int + 12, font_rec_end(ftbl, i, end))
        }
}

/// Every name reference a `FONT` chunk at `pos` stores has a match in
/// the table's offset array `tbl`.
pub open spec fn font_refs_ok(b: Seq<u8>, pos: int, tbl: Seq<u32>) -> bool {
    let cnt = spec_u32_from_le_bytes(b.subrange(pos + 8, pos + 12)) as int;
    let ftbl = parse_u32s(b, pos + 12, cnt as nat);
    forall|i: int|
        #![trigger ftbl[i]]
        0 <= i < cnt ==> {
            &&& (exists|j: int|
                #[trigger] crate::xref::resolves_to(
                    tbl,
                    spec_u32_from_le_bytes(b.subrange(ftbl[i] as int, ftbl[i] as int + 4)),
                    j,
                ))
            &&& (exists|j: int|
                #[trigger] crate::xref::resolves_to(
                    tbl,
                    spec_u32_from_le_bytes(b.subrange(ftbl[i] as int + 4, ftbl[i] as int + 8)),
                    j,
                ))
        }
}

impl Fonts {
    /// Reads the `FONT` chunk by following its offset table: each record
    /// is decoded at its table position, its extent inferred from the next
    /// table entry, or from the chunk's end for the last record.  Yields
    /// the records (cross-references not yet resolved) and each record's
    /// raw name offset.
    #[verifier::loop_isolation(false)]
    #[verifier::rlimit(100)]
    #[verifier::spinoff_prover]
    pub fn read(r: &mut Reader) -> (res: Result<(Fonts, Vec<Offset>), ReadError>)
        requires
            old(r).wf(),
        ensures
            final(r).data == old(r).data,
            final(r).wf(),
            match res {
                Ok((fs, offs)) => {
                    &&& font_parse_ok(old(r).data@, old(r).pos as int)
                    &&& font_read_ok(old(r).data@, old(r).pos as int, fs, offs@)
                    &&& final(r).pos == old(r).pos + 8 + chunk_size_at(
                        old(r).data@,
                        old(r).pos as int,
                    )
                },
                Err(e) => {
                    &&& !font_parse_ok(old(r).data@, old(r).pos as int)
                    &&& (e is UnexpectedEof || e is UnexpectedChunk || e is BadChunkSize)
                },
            },
    {
        proof {
            lemma_auto_spec_u32_to_from_le_bytes();
        }
        let ghost b = r.data@;
        let blen = r.data.len();
        let start_pos = r.tell();
        let ghost start = r.pos as int;
        let h = match get_chunk_header(r, TAG_FONT) {
            Ok(h) => h,
            Err(e) => {
                return Err(e);
            },
        };
        let count = match r.read_u32() {
            Ok(v) => v,
            Err(e) => {
                return Err(e);
            },
        };
        if count == 0 && h.size != 4 {
            return Err(ReadError::BadChunkSize { tag: TAG_FONT, size: h.size });
        }
        let table = match read_u32s(r, count as usize) {
            Ok(v) => v,
            Err(e) => {
                return Err(e);
            },
        };
        proof {
            lemma_parse_u32s_agrees(b, start + 12, count as nat, table@);
        }
        let mut fonts: Vec<Font> = Vec::new();
        let mut offs: Vec<Offset> = Vec::new();
        let mut i: u32 = 0;
        let ghost endg = start + 8 + h.size as int;
        while i < count
            invariant
                r.wf(),
                r.data == old(r).data,
                blen == b.len(),
                i <= count,
                fonts@.len() == i,
                offs@.len() == i,
                count as int <= table@.len(),
                table@ == parse_u32s(b, start + 12, count as nat),
                endg == start + 8 + chunk_size_at(b, start),
                forall|j: int|
                    0 <= j < i ==> #[trigger] table@[j] + 12 <= font_rec_end(table@, j, endg)
                        && font_rec_end(table@, j, endg) <= b.len(),
                forall|j: int|
                    0 <= j < i ==> {
                        &&& (#[trigger] offs@[j]).name == spec_u32_from_le_bytes(
                            b.subrange(table@[j] as int, table@[j] as int + 4),
                        )
                        &&& offs@[j].font_name == spec_u32_from_le_bytes(
                            b.subrange(table@[j] as int + 4, table@[j] as int + 8),
                        )
                        &&& fonts@[j].point_size == spec_u32_from_le_bytes(
                            b.subrange(table@[j] as int + 8, table@[j] as int + 12),
                        )
                        &&& fonts@[j].data@ == b.subrange(
                            table@[j] as int + 12,
                            font_rec_end(table@, j, endg),
                        )
                        &&& fonts@[j].name_index == 0
                        &&& fonts@[j].font_name_index == 0
                    },
            decreases count - i,
        {
            match r.seek(table[i as usize] as usize) {
                Ok(()) => (),
                Err(e) => {
                    proof {
                        if font_parse_ok(b, start) {
                            assert(false);
                        }
                    }
                    return Err(e);
                },
            }
            let name_offset = match r.read_u32() {
                Ok(v) => v,
                Err(e) => {
                    proof {
                        if font_parse_ok(b, start) {
                            assert(false);
                        }
                    }
                    return Err(e);
                },
            };
            let font_name_offset = match r.read_u32() {
                Ok(v) => v,
                Err(e) => {
                    proof {
                        if font_parse_ok(b, start) {
                            assert(false);
                        }
                    }
                    return Err(e);
                },
            };
            let point_size = match r.read_u32() {
                Ok(v) => v,
                Err(e) => {
                    proof {
                        if font_parse_ok(b, start) {
                            assert(false);
                        }
                    }
                    return Err(e);
                },
            };
            let next: usize = if (i as usize) + 1 < count as usize {
                table[(i as usize) + 1] as usize
            } else {
                let sz = h.size as usize;
                if sz > usize::MAX - 8 || start_pos > usize::MAX - 8 - sz {
                    proof {
                        if font_parse_ok(b, start) {
                            assert(false);
                        }
                    }
                    return Err(ReadError::UnexpectedEof);
                }
                start_pos + 8 + sz
            };
            proof {
                assert(next as int == font_rec_end(table@, i as int, endg));
            }
            let cur = r.tell();
            if next < cur {
                proof {
                    if font_parse_ok(b, start) {
                        assert(false);
                    }
                }
                return Err(ReadError::UnexpectedEof);
            }
            let unk = match r.read_bytes(next - cur) {
                Ok(v) => v,
                Err(e) => {
                    proof {
                        if font_parse_ok(b, start) {
                            assert(false);
                        }
                    }
                    return Err(e);
                },
            };
            offs.push(Offset { name: name_offset, font_name: font_name_offset });
            fonts.push(
                Font { name_index: 0, font_name_index: 0, point_size, data: unk },
            );
            proof {
                assert forall|j: int|
                    0 <= j < i + 1 implies #[trigger] table@[j] + 12 <= font_rec_end(
                    table@,
                    j,
                    endg,
                ) && font_rec_end(table@, j, endg) <= b.len() by {
                    if j < i {
                        assert(offs@[j] == offs@.drop_last()[j]);
                    }
                }
                assert forall|j: int|
                    0 <= j < i + 1 implies {
                        &&& (#[trigger] offs@[j]).name == spec_u32_from_le_bytes(
                            b.subrange(table@[j] as int, table@[j] as int + 4),
                        )
                        &&& offs@[j].font_name == spec_u32_from_le_bytes(
                            b.subrange(table@[j] as int + 4, table@[j] as int + 8),
                        )
                        &&& fonts@[j].point_size == spec_u32_from_le_bytes(
                            b.subrange(table@[j] as int + 8, table@[j] as int + 12),
                        )
                        &&& fonts@[j].data@ == b.subrange(
                            table@[j] as int + 12,
                            font_rec_end(table@, j, endg),
                        )
                        &&& fonts@[j].name_index == 0
                        &&& fonts@[j].font_name_index == 0
                    } by {
                    if j < i {
                        assert(offs@[j] == offs@.drop_last()[j]);
                        assert(fonts@[j] == fonts@.drop_last()[j]);
                    } else {
                        assert(offs@[j].name == name_offset);
                        assert(offs@[j].font_name == font_name_offset);
                        assert(fonts@[j].point_size == point_size);
                        assert(fonts@[j].data@ == unk@);
                    }
                }
            }
            i = i + 1;
        }
        let endpos = if (h.size as usize) > usize::MAX - 8 || start_pos > usize::MAX - 8 - (h.size
            as usize) {
            proof {
                if font_parse_ok(b, start) {
                    assert(false);
                }
            }
            return Err(ReadError::UnexpectedEof);
        } else {
            start_pos + 8 + (h.size as usize)
        };
        match r.seek(endpos) {
            Ok(()) => (),
            Err(e) => {
                proof {
                    if font_parse_ok(b, start) {
                        assert(false);
                    }
                }
                return Err(e);
            },
        }
        let result = Fonts { fonts };
        proof {
            assert(parse_u32s(b, start + 12, result.fonts@.len() as nat) == parse_u32s(
                b,
                start + 12,
                count as nat,
            ));
            let cnt = spec_u32_from_le_bytes(b.subrange(start + 8, start + 12)) as int;
            let tbl = parse_u32s(b, start + 12, cnt as nat);
            let end = start + 8 + chunk_size_at(b, start);
            assert(tbl == table@);
            assert forall|k: int|
                0 <= k < cnt implies (#[trigger] tbl[k]) + 12 <= font_rec_end(tbl, k, end)
                    && font_rec_end(tbl, k, end) <= b.len() by {
                assert(table@[k] + 12 <= font_rec_end(table@, k, endg));
            }
            assert(chunk_frame_ok(b, start, TAG_FONT));
            assert(start + 12 <= b.len());
            assert(start + 12 + 4 * cnt <= b.len());
            assert(end <= b.len());
            assert(font_parse_ok(b, start));
            assert forall|k: int|
                0 <= k < result.fonts@.len() implies {
                    &&& (#[trigger] offs@[k]).name == spec_u32_from_le_bytes(
                        b.subrange(tbl[k] as int, tbl[k] as int + 4),
                    )
                    &&& offs@[k].font_name == spec_u32_from_le_bytes(
                        b.subrange(tbl[k] as int + 4, tbl[k] as int + 8),
                    )
                    &&& result.fonts@[k].point_size == spec_u32_from_le_bytes(
                        b.subrange(tbl[k] as int + 8, tbl[k] as int + 12),
                    )
                    &&& result.fonts@[k].data@ == b.subrange(
                        tbl[k] as int + 12,
                        font_rec_end(tbl, k, end),
                    )
                    &&& result.fonts@[k].name_index == 0
                    &&& result.fonts@[k].font_name_index == 0
                } by {
                assert(offs@[k].name == spec_u32_from_le_bytes(
                    b.subrange(table@[k] as int, table@[k] as int + 4),
                ));
                assert(font_rec_end(tbl, k, end) == font_rec_end(table@, k, endg));
            }
            assert(font_read_ok(b, start, result, offs@));
        }
        Ok((result, offs))
    }

    /// The content length of this record set, checked against the 32-bit
    /// length field.
    #[verifier::loop_isolation(false)]
    pub fn content_size(&self) -> (res: Result<u32, WriteError>)
        ensures
            match res {
                Ok(sz) => sz == font_content_len(self.fonts@),
                Err(e) => e == WriteError::TooLarge && font_content_len(self.fonts@) > u32::MAX,
            },
    {
        let n = self.fonts.len();
        if n as u64 > ((u32::MAX as u64) - 4) / 16 {
            proof {
                lemma_font_rec_pos_ge(self.fonts@, self.fonts@.len() as int);
            }
            return Err(WriteError::TooLarge);
        }
        let mut total: u64 = 4 + 4 * (n as u64);
        let mut i: usize = 0;
        while i < n
            invariant
                i <= n,
                total == 4 + 4 * n + font_rec_pos(self.fonts@, i as int),
                total <= u32::MAX,
            decreases n - i,
        {
            let len = self.fonts[i].data.len();
            if len as u64 > u32::MAX as u64 || total + 12 + (len as u64) > u32::MAX as u64 {
                proof {
                    lemma_font_rec_pos_bound(self.fonts@, i + 1, n as int);
                }
                return Err(WriteError::TooLarge);
            }
            total = total + 12 + (len as u64);
            i = i + 1;
        }
        Ok(total as u32)
    }

    /// Writes the whole `FONT` chunk: header, count, the recomputed offset
    /// table, then the records back to back with their name slots taken
    /// from the recomputed string-offset array.
    #[verifier::loop_isolation(false)]
    pub fn write(&self, w: &mut Writer, string_offsets: &Vec<u32>) -> (res: Result<
        (),
        WriteError,
    >)
        requires
            font_wf(self.fonts@, string_offsets@.len() as int),
            old(w).data@.len() + 8 + font_content_len(self.fonts@) <= u32::MAX,
        ensures
            match res {
                Ok(()) => final(w).data@ == old(w).data@ + chunk_bytes(
                    TAG_FONT,
                    font_content(self.fonts@, old(w).data@.len() as int + 8, string_offsets@),
                ),
                Err(e) => false,
            },
    {
        proof {
            lemma_auto_spec_u32_to_from_le_bytes();
            lemma_font_rec_pos_ge(self.fonts@, self.fonts@.len() as int);
        }
        let base = w.tell() + 8;
        let n = self.fonts.len();
        let ghost ss = self.fonts@;
        let ghost nvals = font_name_vals(ss, string_offsets@);
        let ghost fvals = font_face_vals(ss, string_offsets@);
        let ghost tablews = font_table_words(ss, base as int);
        let size = match self.content_size() {
            Ok(s) => s,
            Err(e) => {
                return Err(e);
            },
        };
        crate::chunk::write_chunk_header(w, TAG_FONT, size);
        w.write_u32(n as u32);
        let ghost prefix = old(w).data@ + crate::chunk::chunk_header_bytes(TAG_FONT, size)
            + spec_u32_to_le_bytes((n as u32));
        let mut table: Vec<u32> = Vec::new();
        let first = (base + 4 + 4 * n) as u32;
        let mut off: u32 = first;
        let mut i: usize = 0;
        while i < n
            invariant
                i <= n,
                table@.len() == i,
                off == base + 4 + 4 * n + font_rec_pos(ss, i as int),
                forall|j: int| 0 <= j < i ==> #[trigger] table@[j] == tablews[j],
            decreases n - i,
        {
            proof {
                lemma_font_rec_pos_bound(ss, i + 1, n as int);
            }
            table.push(off);
            off = off + 12 + (self.fonts[i].data.len() as u32);
            i = i + 1;
        }
        proof {
            assert(table@ =~= tablews);
            crate::words::lemma_bytes_of_u32s_len(tablews);
        }
        write_u32s(w, table.as_slice());
        let ghost prefix2 = prefix + bytes_of_u32s(tablews);
        let mut i: usize = 0;
        proof {
            assert(w.data@ =~= prefix2 + font_recs_bytes(ss.take(0), nvals.take(0), fvals.take(0)));
        }
        while i < n
            invariant
                i <= n,
                w.data@ == prefix2 + font_recs_bytes(
                    ss.take(i as int),
                    nvals.take(i as int),
                    fvals.take(i as int),
                ),
            decreases n - i,
        {
            let s = &self.fonts[i];
            w.write_u32(string_offsets[s.name_index]);
            w.write_u32(string_offsets[s.font_name_index]);
            w.write_u32(s.point_size);
            w.write_bytes(s.data.as_slice());
            proof {
                assert(ss.take(i + 1).drop_last() =~= ss.take(i as int));
                assert(nvals.take(i + 1).drop_last() =~= nvals.take(i as int));
                assert(fvals.take(i + 1).drop_last() =~= fvals.take(i as int));
                assert(w.data@ =~= prefix2 + (font_recs_bytes(
                    ss.take(i as int),
                    nvals.take(i as int),
                    fvals.take(i as int),
                ) + font_rec_bytes(
                    nvals[i as int],
                    fvals[i as int],
                    ss[i as int].point_size,
                    ss[i as int].data@,
                )));
            }
            i = i + 1;
        }
        proof {
            assert(ss.take(n as int) =~= ss);
            assert(nvals.take(n as int) =~= nvals);
            assert(fvals.take(n as int) =~= fvals);
            lemma_font_recs_len(ss, nvals, fvals);
            assert(w.data@ =~= old(w).data@ + chunk_bytes(
                TAG_FONT,
                font_content(ss, old(w).data@.len() as int + 8, string_offsets@),
            ));
        }
        Ok(())
    }
}

} // verus!
