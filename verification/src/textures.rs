//! The `TXTR` chunk: texture sheets.
//!
//! Layout: `count:u32`, an offset table (recomputed on write), `count`
//! entries of `unknown:u32 + data_offset:u32`, then the PNG blobs.  Each
//! entry's offset is absolute and 128-byte aligned; a PNG's extent is found
//! by boundary scanning (see the PNG scanner).  The chunk's end is aligned
//! to 16 bytes with zero padding.
//!
//! A texture's pixel source either holds the PNG bytes, or remembers where
//! they lie in the original input so writing can copy them without ever
//! materializing every sheet in memory.

use crate::chunk::{chunk_bytes, chunk_frame_ok, get_chunk_header, TAG_TXTR};
use crate::cursor::{pad_len, zeros, Reader, Writer};
use crate::error::{ReadError, WriteError};
use crate::png::{png_len_at, png_length};
use crate::words::{bytes_of_u32s, lemma_parse_u32s_agrees, parse_u32s, read_u32s, write_u32s};
use vstd::bytes::{
    lemma_auto_spec_u32_to_from_le_bytes, spec_u32_from_le_bytes, spec_u32_to_le_bytes,
};
use vstd::prelude::*;

verus! {

/// Where a texture's PNG bytes come from: carried in memory, or a region
/// of the original input stream.
pub enum TextureSource {
    Materialized { data: Vec<u8> },
    Original { offset: u64, length: u64 },
}

/// One texture sheet: an unmodeled flag kept verbatim, and its pixel
/// source.
pub struct Texture {
    pub unknown: u32,
    pub source: TextureSource,
}

/// The `TXTR` record set.
pub struct Txtr {
    pub textures: Vec<Texture>,
}

/// The PNG bytes a texture contributes, resolved against the original
/// input for a by-reference source.
pub open spec fn tex_bytes(t: Texture, orig: Seq<u8>) -> Seq<u8> {
    match t.source {
        TextureSource::Materialized { data } => data@,
        TextureSource::Original { offset, length } => orig.subrange(
            offset as int,
            offset as int + length as int,
        ),
    }
}

/// A texture source that stays within the original input.
pub open spec fn tex_source_ok(t: Texture, orig: Seq<u8>) -> bool {
    match t.source {
        TextureSource::Materialized { data } => true,
        TextureSource::Original { offset, length } => offset + length <= orig.len(),
    }
}

/// The data region holding the first `i` textures: each PNG preceded by
/// zero padding up to the next 128-byte boundary, measured from absolute
/// position `e` (the end of the entry table).
pub open spec fn tex_region(ts: Seq<Texture>, orig: Seq<u8>, e: int, i: int) -> Seq<u8>
    decreases i,
{
    if i <= 0 {
        Seq::empty()
    } else {
        let prev = tex_region(ts, orig, e, i - 1);
        prev + zeros(pad_len(e + prev.len(), 128) as nat) + tex_bytes(ts[i - 1], orig)
    }
}

/// The absolute, 128-byte aligned position texture `i`'s PNG lands at.
pub open spec fn tex_data_start(ts: Seq<Texture>, orig: Seq<u8>, e: int, i: int) -> int {
    let prev = tex_region(ts, orig, e, i);
    e + prev.len() + pad_len(e + prev.len(), 128)
}

/// Texture data alignment: every PNG's start position is a multiple of
/// 128.
pub proof fn lemma_tex_start_aligned(ts: Seq<Texture>, orig: Seq<u8>, e: int, i: int)
    requires
        e >= 0,
    ensures
        tex_data_start(ts, orig, e, i) % 128 == 0,
{
    let p = e + tex_region(ts, orig, e, i).len() as int;
    assert(p >= 0);
    assert((p + pad_len(p, 128)) % 128 == 0) by (nonlinear_arith)
        requires
            p >= 0,
    ;
}

/// The entry words: each texture's unmodeled flag and the recomputed
/// absolute position of its PNG.
pub open spec fn txtr_entry_words(ts: Seq<Texture>, orig: Seq<u8>, e: int) -> Seq<u32> {
    Seq::new(
        (2 * ts.len()) as nat,
        |k: int|
            if k % 2 == 0 {
                ts[k / 2].unknown
            } else {
                tex_data_start(ts, orig, e, k / 2) as u32
            },
    )
}

/// The offset table: each entry pair's absolute position.
pub open spec fn txtr_table_words(n: int, base: int) -> Seq<u32> {
    Seq::new(n as nat, |i: int| (base + 4 + 4 * n + 8 * i) as u32)
}

/// The chunk's content bytes: count, offset table, entries, the aligned
/// PNG region, and zero padding to a 16-byte aligned end.
pub open spec fn txtr_content(ts: Seq<Texture>, orig: Seq<u8>, base: int) -> Seq<u8> {
    let n = ts.len() as int;
    let e = base + 4 + 12 * n;
    let region = tex_region(ts, orig, e, n);
    spec_u32_to_le_bytes(ts.len() as u32) + bytes_of_u32s(txtr_table_words(n, base))
        + bytes_of_u32s(txtr_entry_words(ts, orig, e)) + region + zeros(
        pad_len(e + region.len(), 16) as nat,
    )
}

/// Chunk end alignment: the absolute end of the `TXTR` content is a
/// multiple of 16.
pub proof fn lemma_txtr_end_aligned(ts: Seq<Texture>, orig: Seq<u8>, base: int)
    requires
        base >= 0,
    ensures
        (base + txtr_content(ts, orig, base).len()) % 16 == 0,
{
    lemma_auto_spec_u32_to_from_le_bytes();
    let n = ts.len() as int;
    let e = base + 4 + 12 * n;
    let region = tex_region(ts, orig, e, n);
    crate::words::lemma_bytes_of_u32s_len(txtr_table_words(n, base));
    crate::words::lemma_bytes_of_u32s_len(txtr_entry_words(ts, orig, e));
    let p = e + region.len() as int;
    assert(p >= 0);
    assert((p + pad_len(p, 16)) % 16 == 0) by (nonlinear_arith)
        requires
            p >= 0,
    ;
}

/// The end of the texture data: one past the last entry's PNG, or the
/// end of the entry table when there are no entries.
pub open spec fn txtr_fin(b: Seq<u8>, pos: int) -> int {
    let cnt = spec_u32_from_le_bytes(b.subrange(pos + 8, pos + 12)) as int;
    let ew = parse_u32s(b, pos + 12 + 4 * cnt, (2 * cnt) as nat);
    if cnt == 0 {
        pos + 12
    } else {
        ew[2 * cnt - 1] as int + png_len_at(b, ew[2 * cnt - 1] as int).unwrap()
    }
}

/// A whole `TXTR` chunk decodes at `pos`: framed with its tag, its count
/// word, offset table and entries within the buffer, every entry's data
/// offset 128-byte aligned and starting a well-formed PNG, and the
/// 16-byte aligned end position within the buffer.
pub open spec fn txtr_parse_ok(b: Seq<u8>, pos: int) -> bool {
    let cnt = spec_u32_from_le_bytes(b.subrange(pos + 8, pos + 12)) as int;
    let ew = parse_u32s(b, pos + 12 + 4 * cnt, (2 * cnt) as nat);
    &&& chunk_frame_ok(b, pos, TAG_TXTR)
    &&& pos + 12 <= b.len()
    &&& pos + 12 + 12 * cnt <= b.len()
    &&& forall|i: int|
        0 <= i < cnt ==> (#[trigger] ew[2 * i + 1]) as int % 128 == 0 && png_len_at(
            b,
            ew[2 * i + 1] as int,
        ) is Some
    &&& txtr_fin(b, pos) + pad_len(txtr_fin(b, pos), 16) <= b.len()
}

/// What a successful `TXTR` decode yields from the bytes at `pos`: each
/// sheet's flag word from its entry, and its pixels by reference to the
/// 128-aligned PNG the entry points at.
pub open spec fn txtr_read_ok(b: Seq<u8>, pos: int, ts: Seq<Texture>) -> bool {
    let n = ts.len() as int;
    let ew = parse_u32s(b, pos + 12 + 4 * n, 2 * n as nat);
    &&& n <= u32::MAX
    &&& spec_u32_from_le_bytes(b.subrange(pos + 8, pos + 12)) == n as u32
    &&& forall|i: int|
        0 <= i < n ==> {
            &&& (#[trigger] ts[i]).unknown == ew[2 * i]
            &&& png_len_at(b, ew[2 * i + 1] as int) is Some
            &&& ts[i].source == (TextureSource::Original {
                offset: ew[2 * i + 1] as u64,
                length: png_len_at(b, ew[2 * i + 1] as int).unwrap() as u64,
            })
        }
}

impl Txtr {
    /// Reads the `TXTR` chunk without materializing any pixel data: each
    /// entry's PNG is measured by boundary scanning at its (128-byte
    /// aligned) offset and remembered as a by-reference source into the
    /// input.
    #[verifier::loop_isolation(false)]
    #[verifier::rlimit(100)]
    #[verifier::spinoff_prover]
    pub fn read(r: &mut Reader) -> (res: Result<Txtr, ReadError>)
        requires
            old(r).wf(),
        ensures
            final(r).data == old(r).data,
            final(r).wf(),
            match res {
                Ok(t) => {
                    let b = old(r).data@;
                    let pos = old(r).pos as int;
                    let n = t.textures@.len() as int;
                    let ew = parse_u32s(b, pos + 12 + 4 * n, 2 * n as nat);
                    &&& txtr_parse_ok(b, pos)
                    &&& n <= u32::MAX
                    &&& spec_u32_from_le_bytes(b.subrange(pos + 8, pos + 12)) == n as u32
                    &&& final(r).pos as int % 16 == 0
                    &&& final(r).pos == txtr_fin(b, pos) + pad_len(txtr_fin(b, pos), 16)
                    &&& forall|i: int|
                        0 <= i < n ==> {
                            &&& (#[trigger] t.textures@[i]).unknown == ew[2 * i]
                            &&& t.textures@[i].source == (TextureSource::Original {
                                offset: ew[2 * i + 1] as u64,
                                length: png_len_at(b, ew[2 * i + 1] as int).unwrap() as u64,
                            })
                            &&& ew[2 * i + 1] as int % 128 == 0
                            &&& png_len_at(b, ew[2 * i + 1] as int) is Some
                        }
                },
                Err(e) => {
                    &&& !txtr_parse_ok(old(r).data@, old(r).pos as int)
                    &&& (e is UnexpectedEof || e is UnexpectedChunk || e is BadPngMagic
                        || e is MisalignedTextureData)
                },
            },
    {
        proof {
            lemma_auto_spec_u32_to_from_le_bytes();
        }
        let ghost b = r.data@;
        let ghost start = r.pos as int;
        match get_chunk_header(r, TAG_TXTR) {
            Ok(_) => (),
            Err(e) => {
                return Err(e);
            },
        }
        let count = match r.read_u32() {
            Ok(v) => v,
            Err(e) => {
                return Err(e);
            },
        };
        match read_u32s(r, count as usize) {
            Ok(_) => (),
            Err(e) => {
                return Err(e);
            },
        }
        let entries = match read_u32s(r, 2 * (count as usize)) {
            Ok(v) => v,
            Err(e) => {
                return Err(e);
            },
        };
        proof {
            lemma_parse_u32s_agrees(b, start + 12 + 4 * (count as int), (2 * count) as nat, entries@);
        }
        let after_entries = r.tell();
        let mut textures: Vec<Texture> = Vec::new();
        let mut i: usize = 0;
        let mut finished: usize = after_entries;
        while i < count as usize
            invariant
                r.wf(),
                r.data == old(r).data,
                i <= count,
                textures@.len() == i,
                entries@.len() == 2 * count,
                finished <= b.len(),
                i == 0 ==> finished == after_entries,
                i > 0 ==> finished as int == entries@[2 * (i as int) - 1] as int + png_len_at(
                    b,
                    entries@[2 * (i as int) - 1] as int,
                ).unwrap(),
                after_entries == start + 12 + 12 * (count as int),
                forall|j: int|
                    0 <= j < i ==> {
                        &&& (#[trigger] textures@[j]).unknown == entries@[2 * j]
                        &&& textures@[j].source == (TextureSource::Original {
                            offset: entries@[2 * j + 1] as u64,
                            length: png_len_at(b, entries@[2 * j + 1] as int).unwrap() as u64,
                        })
                        &&& entries@[2 * j + 1] as int % 128 == 0
                        &&& png_len_at(b, entries@[2 * j + 1] as int) is Some
                    },
            decreases count as usize - i,
        {
            let unknown = entries[2 * i];
            let offset = entries[2 * i + 1];
            if offset % 128 != 0 {
                proof {
                    if txtr_parse_ok(b, start) {
                        let cnt = spec_u32_from_le_bytes(b.subrange(start + 8, start + 12)) as int;
                        assert(parse_u32s(b, start + 12 + 4 * cnt, (2 * cnt) as nat)
                            == entries@);
                        assert(false);
                    }
                }
                return Err(ReadError::MisalignedTextureData { offset });
            }
            match r.seek(offset as usize) {
                Ok(()) => (),
                Err(e) => {
                    proof {
                        if txtr_parse_ok(b, start) {
                            let cnt = spec_u32_from_le_bytes(b.subrange(start + 8, start + 12)) as int;
                            assert(parse_u32s(b, start + 12 + 4 * cnt, (2 * cnt) as nat)
                                == entries@);
                            assert(false);
                        }
                    }
                    return Err(e);
                },
            }
            let len = match png_length(r) {
                Ok(l) => l,
                Err(e) => {
                    proof {
                        if txtr_parse_ok(b, start) {
                            let cnt = spec_u32_from_le_bytes(b.subrange(start + 8, start + 12)) as int;
                            assert(parse_u32s(b, start + 12 + 4 * cnt, (2 * cnt) as nat)
                                == entries@);
                            assert(false);
                        }
                    }
                    return Err(e);
                },
            };
            // Materializing the buffer length keeps the sum below in
            // bounds for the verifier.
            let buf_len = r.data.len();
            finished = offset as usize + len;
            textures.push(
                Texture {
                    unknown,
                    source: TextureSource::Original { offset: offset as u64, length: len as u64 },
                },
            );
            i = i + 1;
        }
        match r.seek(finished) {
            Ok(()) => (),
            Err(e) => {
                proof {
                    if txtr_parse_ok(b, start) {
                        let cnt = spec_u32_from_le_bytes(b.subrange(start + 8, start + 12)) as int;
                        assert(parse_u32s(b, start + 12 + 4 * cnt, (2 * cnt) as nat) == entries@);
                        assert(false);
                    }
                }
                return Err(e);
            },
        }
        match r.align_to(16) {
            Ok(()) => (),
            Err(e) => {
                proof {
                    if txtr_parse_ok(b, start) {
                        let cnt = spec_u32_from_le_bytes(b.subrange(start + 8, start + 12)) as int;
                        assert(parse_u32s(b, start + 12 + 4 * cnt, (2 * cnt) as nat) == entries@);
                        assert(false);
                    }
                }
                return Err(e);
            },
        }
        let result = Txtr { textures };
        proof {
            let cnt = spec_u32_from_le_bytes(b.subrange(start + 8, start + 12)) as int;
            assert(parse_u32s(b, start + 12 + 4 * cnt, (2 * cnt) as nat) == entries@);
            assert(parse_u32s(b, start + 12 + 4 * (result.textures@.len() as int), (2
                * result.textures@.len()) as nat) == entries@);
            assert forall|i2: int|
                0 <= i2 < cnt implies (#[trigger] entries@[2 * i2 + 1]) as int % 128 == 0
                    && png_len_at(b, entries@[2 * i2 + 1] as int) is Some by {
                assert(textures@[i2].unknown == entries@[2 * i2]);
            }
            assert(txtr_fin(b, start) == finished);
            assert(txtr_parse_ok(b, start));
        }
        Ok(result)
    }
}

impl Txtr {
    /// The content length this record set encodes to when its content
    /// begins at absolute position `base`, alignment padding included.
    #[verifier::loop_isolation(false)]
    pub fn content_size(&self, base: u32, orig: &Reader) -> (res: Result<u32, WriteError>)
        requires
            forall|i: int|
                0 <= i < self.textures@.len() ==> tex_source_ok(
                    #[trigger] self.textures@[i],
                    orig.data@,
                ),
        ensures
            match res {
                Ok(sz) => {
                    &&& sz == txtr_content(self.textures@, orig.data@, base as int).len()
                    &&& base + sz <= u32::MAX
                },
                Err(e) => e == WriteError::TooLarge && base + txtr_content(
                    self.textures@,
                    orig.data@,
                    base as int,
                ).len() > u32::MAX,
            },
    {
        proof {
            lemma_auto_spec_u32_to_from_le_bytes();
        }
        let ghost ts = self.textures@;
        let ghost ov = orig.data@;
        let ghost eg = base + 4 + 12 * (self.textures@.len() as int);
        proof {
            crate::words::lemma_bytes_of_u32s_len(
                txtr_table_words(ts.len() as int, base as int),
            );
            crate::words::lemma_bytes_of_u32s_len(txtr_entry_words(ts, ov, eg));
            assert(txtr_content(ts, ov, base as int).len() == 4 + 12 * ts.len() + tex_region(
                ts,
                ov,
                eg,
                ts.len() as int,
            ).len() + pad_len(eg + tex_region(ts, ov, eg, ts.len() as int).len(), 16));
        }
        let n = self.textures.len();
        if n as u64 > ((u32::MAX as u64) - 4) / 12 {
            return Err(WriteError::TooLarge);
        }
        let e: u64 = (base as u64) + 4 + 12 * (n as u64);
        if e > u32::MAX as u64 {
            return Err(WriteError::TooLarge);
        }
        let mut rl: u64 = 0;
        let mut i: usize = 0;
        while i < n
            invariant
                i <= n,
                rl == tex_region(ts, ov, e as int, i as int).len(),
                e + rl <= u32::MAX,
                forall|j: int| 0 <= j < ts.len() ==> tex_source_ok(#[trigger] ts[j], ov),
            decreases n - i,
        {
            let cur = e + rl;
            let rem = cur % 128;
            let pad: u64 = if rem == 0 {
                0
            } else {
                128 - rem
            };
            proof {
                assert(pad == pad_len((e + rl) as int, 128));
            }
            proof {
                lemma_tex_region_step_len(ts, ov, eg, i as int);
                lemma_tex_region_mono(ts, ov, eg, i as int + 1, ts.len() as int);
            }
            let len: u64 = match &self.textures[i].source {
                TextureSource::Materialized { data } => {
                    if data.len() as u64 > u32::MAX as u64 {
                        return Err(WriteError::TooLarge);
                    }
                    data.len() as u64
                },
                TextureSource::Original { offset, length } => {
                    if *length > u32::MAX as u64 {
                        return Err(WriteError::TooLarge);
                    }
                    *length
                },
            };
            if pad + len > (u32::MAX as u64) - e - rl {
                return Err(WriteError::TooLarge);
            }
            rl = rl + pad + len;
            i = i + 1;
        }
        let endp = e + rl;
        let rem = endp % 16;
        let pad16: u64 = if rem == 0 {
            0
        } else {
            16 - rem
        };
        if endp + pad16 > u32::MAX as u64 {
            return Err(WriteError::TooLarge);
        }
        proof {
            crate::words::lemma_bytes_of_u32s_len(txtr_table_words(n as int, base as int));
            crate::words::lemma_bytes_of_u32s_len(txtr_entry_words(ts, ov, e as int));
            assert(pad16 == pad_len((e + rl) as int, 16));
        }
        Ok(((endp + pad16) - (base as u64)) as u32)
    }

    /// Writes the whole `TXTR` chunk: header, count, the recomputed offset
    /// table and entries, then every PNG at the next 128-byte boundary,
    /// copying by-reference sources out of the original input; the end is
    /// padded to a 16-byte boundary.
    #[verifier::loop_isolation(false)]
    #[verifier::rlimit(100)]
    pub fn write(&self, w: &mut Writer, orig: &Reader) -> (res: Result<(), WriteError>)
        requires
            old(w).data@.len() + 8 <= u32::MAX,
        ensures
            match res {
                Ok(()) => {
                    &&& forall|i: int|
                        0 <= i < self.textures@.len() ==> tex_source_ok(
                            #[trigger] self.textures@[i],
                            orig.data@,
                        )
                    &&& final(w).data@ == old(w).data@ + chunk_bytes(
                        TAG_TXTR,
                        txtr_content(self.textures@, orig.data@, old(w).data@.len() as int + 8),
                    )
                },
                Err(e) => {
                    &&& final(w).data@ == old(w).data@
                    &&& (e is TooLarge || e is BadTextureRef)
                    &&& e is BadTextureRef ==> !(forall|i: int|
                        0 <= i < self.textures@.len() ==> tex_source_ok(
                            #[trigger] self.textures@[i],
                            orig.data@,
                        ))
                    &&& e is TooLarge ==> old(w).data@.len() + 8 + txtr_content(
                        self.textures@,
                        orig.data@,
                        old(w).data@.len() as int + 8,
                    ).len() > u32::MAX
                },
            },
    {
        proof {
            lemma_auto_spec_u32_to_from_le_bytes();
        }
        let ghost ts = self.textures@;
        let ghost ov = orig.data@;
        let ghost base0 = old(w).data@.len() as int + 8;
        let ghost eg0 = base0 + 4 + 12 * (self.textures@.len() as int);
        proof {
            crate::words::lemma_bytes_of_u32s_len(txtr_table_words(ts.len() as int, base0));
            crate::words::lemma_bytes_of_u32s_len(txtr_entry_words(ts, ov, eg0));
            lemma_tex_region_mono(ts, ov, eg0, 0, ts.len() as int);
            assert(txtr_content(ts, ov, base0).len() == 4 + 12 * ts.len() + tex_region(
                ts,
                ov,
                eg0,
                ts.len() as int,
            ).len() + pad_len(eg0 + tex_region(ts, ov, eg0, ts.len() as int).len(), 16));
        }
        let n = self.textures.len();
        let olen = orig.data.len();
        let mut i: usize = 0;
        while i < n
            invariant
                i <= n,
                olen == ov.len(),
                n == ts.len(),
                forall|j: int| 0 <= j < i ==> tex_source_ok(#[trigger] ts[j], ov),
            decreases n - i,
        {
            match &self.textures[i].source {
                TextureSource::Materialized { data } => (),
                TextureSource::Original { offset, length } => {
                    if *offset > olen as u64 || *length > (olen as u64) - *offset {
                        return Err(WriteError::BadTextureRef);
                    }
                },
            }
            i = i + 1;
        }
        if n as u64 > ((u32::MAX as u64) - 4) / 12 {
            return Err(WriteError::TooLarge);
        }
        let base = w.tell() + 8;
        let size = match self.content_size(base as u32, orig) {
            Ok(s) => s,
            Err(e) => {
                return Err(e);
            },
        };
        let e_exec: u64 = (base as u64) + 4 + 12 * (n as u64);
        let ghost e = base as int + 4 + 12 * (n as int);
        proof {
            crate::words::lemma_bytes_of_u32s_len(txtr_table_words(n as int, base as int));
            crate::words::lemma_bytes_of_u32s_len(txtr_entry_words(ts, ov, e));
            lemma_tex_region_mono(ts, ov, e, 0, n as int);
        }
        crate::chunk::write_chunk_header(w, TAG_TXTR, size);
        w.write_u32(n as u32);
        let ghost prefix = old(w).data@ + crate::chunk::chunk_header_bytes(TAG_TXTR, size)
            + spec_u32_to_le_bytes((n as u32));
        let ghost tablews = txtr_table_words(n as int, base as int);
        let mut table: Vec<u32> = Vec::new();
        let first = (base + 4 + 4 * n) as u32;
        let mut i: usize = 0;
        while i < n
            invariant
                i <= n,
                table@.len() == i,
                forall|j: int| 0 <= j < i ==> #[trigger] table@[j] == tablews[j],
            decreases n - i,
        {
            table.push(first + 8 * (i as u32));
            i = i + 1;
        }
        proof {
            assert(table@ =~= tablews);
            crate::words::lemma_bytes_of_u32s_len(tablews);
        }
        write_u32s(w, table.as_slice());
        let ghost ews = txtr_entry_words(ts, ov, e);
        let mut entries: Vec<u32> = Vec::new();
        let mut rl: u64 = 0;
        let mut i: usize = 0;
        while i < n
            invariant
                i <= n,
                entries@.len() == 2 * i,
                rl == tex_region(ts, ov, e, i as int).len(),
                (base as int) + 4 + 12 * (n as int) == e,
                e + rl <= u32::MAX,
                forall|j: int| 0 <= j < ts.len() ==> tex_source_ok(#[trigger] ts[j], ov),
                forall|j: int| 0 <= j < 2 * i ==> #[trigger] entries@[j] == ews[j],
            decreases n - i,
        {
            let cur = e_exec + rl;
            let rem = cur % 128;
            let pad: u64 = if rem == 0 {
                0
            } else {
                128 - rem
            };
            proof {
                assert(pad == pad_len(e + rl, 128));
            }
            let start = cur + pad;
            let len: u64 = match &self.textures[i].source {
                TextureSource::Materialized { data } => data.len() as u64,
                TextureSource::Original { offset, length } => *length,
            };
            proof {
                lemma_tex_region_step_len(ts, ov, e, i as int);
                assert(tex_region(ts, ov, e, i as int + 1).len() == rl + pad + len);
                lemma_tex_region_mono(ts, ov, e, i as int + 1, n as int);
                crate::words::lemma_bytes_of_u32s_len(txtr_table_words(n as int, base as int));
                crate::words::lemma_bytes_of_u32s_len(txtr_entry_words(ts, ov, e));
            }
            entries.push(self.textures[i].unknown);
            entries.push(start as u32);
            proof {
                assert forall|j: int| 0 <= j < 2 * (i + 1) implies #[trigger] entries@[j] == ews[j] by {
                    if j < 2 * i {
                        assert(entries@[j] == entries@.drop_last().drop_last()[j]);
                    } else if j == 2 * i {
                        assert(entries@[j] == self.textures@[i as int].unknown);
                    } else {
                        assert(entries@[j] == start as u32);
                        assert(ews[j] == tex_data_start(ts, ov, e, i as int) as u32);
                    }
                }
            }
            rl = rl + pad + len;
            i = i + 1;
        }
        proof {
            assert(entries@ =~= ews);
            crate::words::lemma_bytes_of_u32s_len(ews);
        }
        write_u32s(w, entries.as_slice());
        let ghost prefix3 = prefix + bytes_of_u32s(tablews) + bytes_of_u32s(ews);
        let mut i: usize = 0;
        proof {
            assert(w.data@ =~= prefix3 + tex_region(ts, ov, e, 0));
        }
        while i < n
            invariant
                i <= n,
                n == ts.len(),
                w.data@ == prefix3 + tex_region(ts, ov, e, i as int),
                prefix3.len() == e,
                forall|j: int| 0 <= j < ts.len() ==> tex_source_ok(#[trigger] ts[j], ov),
            decreases n - i,
        {
            w.pad_to(128);
            match &self.textures[i].source {
                TextureSource::Materialized { data } => {
                    w.write_bytes(data.as_slice());
                },
                TextureSource::Original { offset, length } => {
                    let s = vstd::slice::slice_subrange(
                        orig.data.as_slice(),
                        *offset as usize,
                        (*offset + *length) as usize,
                    );
                    w.write_bytes(s);
                },
            }
            proof {
                assert(w.data@ =~= prefix3 + (tex_region(ts, ov, e, i as int) + zeros(
                    pad_len(e + tex_region(ts, ov, e, i as int).len(), 128) as nat,
                ) + tex_bytes(ts[i as int], ov)));
            }
            i = i + 1;
        }
        w.pad_to(16);
        proof {
            assert(w.data@ =~= old(w).data@ + chunk_bytes(
                TAG_TXTR,
                txtr_content(ts, ov, old(w).data@.len() as int + 8),
            ));
        }
        Ok(())
    }
}

/// One more texture extends the data region by its padding and its PNG.
pub proof fn lemma_tex_region_step_len(ts: Seq<Texture>, orig: Seq<u8>, e: int, i: int)
    requires
        0 <= i < ts.len(),
        tex_source_ok(ts[i], orig),
    ensures
        tex_region(ts, orig, e, i + 1).len() == tex_region(ts, orig, e, i).len() + pad_len(
            e + tex_region(ts, orig, e, i).len(),
            128,
        ) + tex_len(ts[i], orig),
{
}

/// The length a texture's PNG contributes.
pub open spec fn tex_len(t: Texture, orig: Seq<u8>) -> int {
    match t.source {
        TextureSource::Materialized { data } => data@.len() as int,
        TextureSource::Original { offset, length } => length as int,
    }
}

/// The data region only grows.
pub proof fn lemma_tex_region_mono(ts: Seq<Texture>, orig: Seq<u8>, e: int, i: int, j: int)
    requires
        0 <= i <= j,
    ensures
        tex_region(ts, orig, e, i).len() <= tex_region(ts, orig, e, j).len(),
    decreases j - i,
{
    if i < j {
        lemma_tex_region_mono(ts, orig, e, i, j - 1);
    }
}

} // verus!
