//! The `AUDO` chunk: audio blobs.
//!
//! Layout: `count:u32`, a table of `count` absolute entry positions, then
//! the entries, each `size:u32 + size raw bytes`.  Entries need not be
//! contiguous — each is found through its table position, kept here
//! relative to the position just past the table — so reading and writing
//! seek per entry; gaps are zero-filled on write.

use crate::chunk::{chunk_bytes, chunk_frame_ok, get_chunk_header, TAG_AUDO};
use crate::cursor::{zeros, Reader, Writer};
use crate::error::{ReadError, WriteError};
use crate::words::{bytes_of_u32s, lemma_parse_u32s_agrees, parse_u32s, read_u32s, write_u32s};
use vstd::bytes::{
    lemma_auto_spec_u32_to_from_le_bytes, spec_u32_from_le_bytes, spec_u32_to_le_bytes,
};
use vstd::prelude::*;

verus! {

/// One audio blob, kept verbatim.
pub struct AudioData {
    pub data: Vec<u8>,
}

/// The `AUDO` record set: the blobs and each one's offset relative to the
/// position just past the offset table.
pub struct Audio {
    pub audio: Vec<AudioData>,
    pub offsets: Vec<u32>,
}

/// The table and the entry list pair up, and every entry fits the
/// 32-bit offset space.
pub open spec fn audo_wf(auds: Seq<AudioData>, offs: Seq<u32>) -> bool {
    &&& auds.len() == offs.len()
    &&& forall|i: int|
        0 <= i < auds.len() ==> (#[trigger] offs[i]) + 4 + auds[i].data@.len() <= u32::MAX
}

/// The entry region's extent: one past the furthest byte any of the first
/// `i` entries touches.
pub open spec fn audo_end(auds: Seq<AudioData>, offs: Seq<u32>, i: int) -> int
    decreases i,
{
    if i <= 0 {
        0
    } else {
        let prev = audo_end(auds, offs, i - 1);
        let e = offs[i - 1] + 4 + auds[i - 1].data@.len();
        if e > prev {
            e
        } else {
            prev
        }
    }
}

/// The extent is never negative.
pub proof fn lemma_audo_end_nonneg(auds: Seq<AudioData>, offs: Seq<u32>, j: int)
    ensures
        audo_end(auds, offs, j) >= 0,
    decreases j,
{
    if j > 0 {
        lemma_audo_end_nonneg(auds, offs, j - 1);
    }
}

/// The extent never shrinks, and covers each entry it counts.
pub proof fn lemma_audo_end(auds: Seq<AudioData>, offs: Seq<u32>, i: int, j: int)
    requires
        0 <= i <= j,
    ensures
        audo_end(auds, offs, i) <= audo_end(auds, offs, j),
        audo_end(auds, offs, j) >= 0,
        0 < i ==> offs[i - 1] + 4 + auds[i - 1].data@.len() <= audo_end(auds, offs, j),
    decreases j - i,
{
    lemma_audo_end_nonneg(auds, offs, j);
    if i < j {
        lemma_audo_end(auds, offs, i + 1, j);
    }
}

/// The entry region after the first `i` entries have been placed at their
/// table positions over `l` zero bytes.  Each entry is written where its
/// table position says — the seek-per-entry discipline the format's
/// non-contiguous (possibly shared or out-of-order) tables demand — so a
/// later entry overwrites whatever lies at its position.
pub open spec fn audo_region(auds: Seq<AudioData>, offs: Seq<u32>, i: int, l: int) -> Seq<u8>
    decreases i,
{
    if i <= 0 {
        zeros(l as nat)
    } else {
        let prev = audo_region(auds, offs, i - 1, l);
        crate::cursor::splice(
            crate::cursor::splice(
                prev,
                offs[i - 1] as int,
                spec_u32_to_le_bytes(auds[i - 1].data@.len() as u32),
            ),
            offs[i - 1] + 4,
            auds[i - 1].data@,
        )
    }
}

/// Placing entries within the region never changes its length.
pub proof fn lemma_audo_region_len(auds: Seq<AudioData>, offs: Seq<u32>, i: int, l: int)
    requires
        audo_wf(auds, offs),
        0 <= i <= auds.len(),
        audo_end(auds, offs, auds.len() as int) <= l,
    ensures
        audo_region(auds, offs, i, l).len() == l,
    decreases i,
{
    lemma_auto_spec_u32_to_from_le_bytes();
    if i > 0 {
        lemma_audo_region_len(auds, offs, i - 1, l);
        lemma_audo_end(auds, offs, i, auds.len() as int);
    }
}

/// The chunk's content bytes: count, the table of absolute entry
/// positions, then the entry region.
pub open spec fn audo_content(auds: Seq<AudioData>, offs: Seq<u32>, base: int) -> Seq<u8> {
    let n = auds.len() as int;
    spec_u32_to_le_bytes(auds.len() as u32) + bytes_of_u32s(
        Seq::new(auds.len(), |i: int| (base + 4 + 4 * n + offs[i]) as u32),
    ) + audo_region(auds, offs, n, audo_end(auds, offs, n))
}

/// The content length.
pub open spec fn audo_content_len(auds: Seq<AudioData>, offs: Seq<u32>) -> int {
    4 + 4 * auds.len() + audo_end(auds, offs, auds.len() as int)
}

/// A whole `AUDO` chunk decodes at `pos`: framed with its tag, its count
/// word and table within the buffer, and every table entry pointing past
/// the table at a whole `size + bytes` record within the buffer.
pub open spec fn audo_parse_ok(b: Seq<u8>, pos: int) -> bool {
    let cnt = spec_u32_from_le_bytes(b.subrange(pos + 8, pos + 12)) as int;
    &&& chunk_frame_ok(b, pos, TAG_AUDO)
    &&& pos + 12 <= b.len()
    &&& pos + 12 + 4 * cnt <= b.len()
    &&& forall|i: int|
        0 <= i < cnt ==> {
            let p = #[trigger] parse_u32s(b, pos + 12, cnt as nat)[i] as int;
            &&& p >= pos + 12 + 4 * cnt
            &&& p - (pos + 12 + 4 * cnt) <= u32::MAX
            &&& p + 4 <= b.len()
            &&& p + 4 + spec_u32_from_le_bytes(b.subrange(p, p + 4)) as int <= b.len()
        }
}

/// What a successful `AUDO` decode yields from the bytes at `pos`: the
/// table re-based past itself, and each entry's bytes at its table
/// position.
pub open spec fn audo_read_ok(b: Seq<u8>, pos: int, a: Audio) -> bool {
    let n = a.audio@.len() as int;
    let tbl = parse_u32s(b, pos + 12, n as nat);
    let ado = pos + 12 + 4 * n;
    &&& a.offsets@.len() == n
    &&& spec_u32_from_le_bytes(b.subrange(pos + 8, pos + 12)) == n as u32
    &&& forall|i: int|
        0 <= i < n ==> {
            &&& (#[trigger] a.offsets@[i]) == tbl[i] - ado
            &&& a.audio@[i].data@ == b.subrange(
                tbl[i] as int + 4,
                tbl[i] as int + 4 + spec_u32_from_le_bytes(
                    b.subrange(tbl[i] as int, tbl[i] as int + 4),
                ) as int,
            )
        }
}

impl Audio {
    /// Reads the `AUDO` chunk: the table of absolute entry positions
    /// (re-based to the position past the table), then each entry at its
    /// position.
    #[verifier::loop_isolation(false)]
    #[verifier::rlimit(100)]
    #[verifier::spinoff_prover]
    pub fn read(r: &mut Reader) -> (res: Result<Audio, ReadError>)
        requires
            old(r).wf(),
        ensures
            final(r).data == old(r).data,
            final(r).wf(),
            match res {
                Ok(a) => audo_parse_ok(old(r).data@, old(r).pos as int) && audo_read_ok(
                    old(r).data@,
                    old(r).pos as int,
                    a,
                ),
                Err(e) => {
                    &&& !audo_parse_ok(old(r).data@, old(r).pos as int)
                    &&& (e is UnexpectedEof || e is UnexpectedChunk)
                },
            },
    {
        proof {
            lemma_auto_spec_u32_to_from_le_bytes();
        }
        let ghost b = r.data@;
        let ghost start = r.pos as int;
        match get_chunk_header(r, TAG_AUDO) {
            Ok(_) => (),
            Err(e) => {
                return Err(e);
            },
        }
        let count = match r.read_u32() {
            Ok(v) => v,
            Err(e) => {
                return Err(e);
            },
        };
        let table = match read_u32s(r, count as usize) {
            Ok(v) => v,
            Err(e) => {
                return Err(e);
            },
        };
        proof {
            lemma_parse_u32s_agrees(b, start + 12, count as nat, table@);
        }
        let ado = r.tell();
        let mut audio: Vec<AudioData> = Vec::new();
        let mut offsets: Vec<u32> = Vec::new();
        let mut i: usize = 0;
        while i < count as usize
            invariant
                r.wf(),
                r.data == old(r).data,
                i <= count,
                audio@.len() == i,
                offsets@.len() == i,
                table@.len() == count,
                ado == start + 12 + 4 * (count as int),
                forall|j: int|
                    0 <= j < i ==> {
                        &&& (#[trigger] offsets@[j]) == table@[j] - (ado as int)
                        &&& table@[j] >= ado
                        &&& table@[j] - (ado as int) <= u32::MAX
                        &&& table@[j] + 4 <= b.len()
                        &&& table@[j] + 4 + spec_u32_from_le_bytes(
                            b.subrange(table@[j] as int, table@[j] as int + 4),
                        ) as int <= b.len()
                        &&& audio@[j].data@ == b.subrange(
                            table@[j] as int + 4,
                            table@[j] as int + 4 + spec_u32_from_le_bytes(
                                b.subrange(table@[j] as int, table@[j] as int + 4),
                            ) as int,
                        )
                    },
            decreases count as usize - i,
        {
            let abs = table[i];
            proof {
                assert(parse_u32s(b, start + 12, count as nat)[i as int] == table@[i as int]);
            }
            if (abs as usize) < ado {
                proof {
                    if audo_parse_ok(b, start) {
                        let cnt = spec_u32_from_le_bytes(b.subrange(start + 8, start + 12)) as int;
                        assert(parse_u32s(b, start + 12, cnt as nat)[i as int] == table@[i as int]);
                        assert(false);
                    }
                }
                return Err(ReadError::UnexpectedEof);
            }
            let rel = (abs as usize) - ado;
            if rel > u32::MAX as usize {
            proof {
                if audo_parse_ok(b, start) {
                    let cnt = spec_u32_from_le_bytes(b.subrange(start + 8, start + 12)) as int;
                    assert(parse_u32s(b, start + 12, cnt as nat)[i as int] == table@[i as int]);
                    assert(false);
                }
            }
                return Err(ReadError::UnexpectedEof);
            }
            match r.seek(abs as usize) {
                Ok(()) => (),
                Err(e) => {
            proof {
                if audo_parse_ok(b, start) {
                    let cnt = spec_u32_from_le_bytes(b.subrange(start + 8, start + 12)) as int;
                    assert(parse_u32s(b, start + 12, cnt as nat)[i as int] == table@[i as int]);
                    assert(false);
                }
            }
                    return Err(e);
                },
            }
            let size = match r.read_u32() {
                Ok(v) => v,
                Err(e) => {
            proof {
                if audo_parse_ok(b, start) {
                    let cnt = spec_u32_from_le_bytes(b.subrange(start + 8, start + 12)) as int;
                    assert(parse_u32s(b, start + 12, cnt as nat)[i as int] == table@[i as int]);
                    assert(false);
                }
            }
                    return Err(e);
                },
            };
            let data = match r.read_bytes(size as usize) {
                Ok(v) => v,
                Err(e) => {
            proof {
                if audo_parse_ok(b, start) {
                    let cnt = spec_u32_from_le_bytes(b.subrange(start + 8, start + 12)) as int;
                    assert(parse_u32s(b, start + 12, cnt as nat)[i as int] == table@[i as int]);
                    assert(false);
                }
            }
                    return Err(e);
                },
            };
            offsets.push(rel as u32);
            audio.push(AudioData { data });
            proof {
                assert forall|j: int|
                    0 <= j < i + 1 implies {
                        &&& (#[trigger] offsets@[j]) == table@[j] - (ado as int)
                        &&& table@[j] >= ado
                        &&& table@[j] - (ado as int) <= u32::MAX
                        &&& table@[j] + 4 <= b.len()
                        &&& table@[j] + 4 + spec_u32_from_le_bytes(
                            b.subrange(table@[j] as int, table@[j] as int + 4),
                        ) as int <= b.len()
                        &&& audio@[j].data@ == b.subrange(
                            table@[j] as int + 4,
                            table@[j] as int + 4 + spec_u32_from_le_bytes(
                                b.subrange(table@[j] as int, table@[j] as int + 4),
                            ) as int,
                        )
                    } by {
                    if j < i {
                        assert(offsets@[j] == offsets@.drop_last()[j]);
                        assert(audio@[j] == audio@.drop_last()[j]);
                    } else {
                        assert(offsets@[j] == rel as u32);
                        assert(audio@[j].data@ == data@);
                    }
                }
            }
            i = i + 1;
        }
        proof {
            let ghost cnt = spec_u32_from_le_bytes(b.subrange(start + 8, start + 12)) as int;
            assert(cnt == count as int);
            assert forall|i2: int|
                0 <= i2 < cnt implies {
                    let p = #[trigger] parse_u32s(b, start + 12, cnt as nat)[i2] as int;
                    &&& p >= start + 12 + 4 * cnt
                    &&& p - (start + 12 + 4 * cnt) <= u32::MAX
                    &&& p + 4 <= b.len()
                    &&& p + 4 + spec_u32_from_le_bytes(b.subrange(p, p + 4)) as int <= b.len()
                } by {
                assert(offsets@[i2] == table@[i2] - (ado as int));
                assert(parse_u32s(b, start + 12, count as nat)[i2] == table@[i2]);
                assert(parse_u32s(b, start + 12, cnt as nat) == parse_u32s(
                    b,
                    start + 12,
                    count as nat,
                ));
            }
            assert(audo_parse_ok(b, start));
        }
        let result = Audio { audio, offsets };
        proof {
            assert(parse_u32s(b, start + 12, result.audio@.len() as nat) == parse_u32s(
                b,
                start + 12,
                count as nat,
            ));
            assert(audo_read_ok(b, start, result));
        }
        Ok(result)
    }

    /// The content length of this record set, checked against the 32-bit
    /// length field.  Fails with `BadAudioLayout` exactly when the offset
    /// table and the entry list differ in length (no table can then cover
    /// the entries), and with `TooLarge` exactly when an entry or the
    /// whole content overruns the 32-bit fields.
    #[verifier::loop_isolation(false)]
    pub fn content_size(&self) -> (res: Result<u32, WriteError>)
        ensures
            match res {
                Ok(sz) => {
                    &&& audo_wf(self.audio@, self.offsets@)
                    &&& sz == audo_content_len(self.audio@, self.offsets@)
                },
                Err(e) => {
                    &&& (e is TooLarge || e is BadAudioLayout)
                    &&& (e is BadAudioLayout <==> self.audio@.len() != self.offsets@.len())
                    &&& (e is TooLarge ==> self.audio@.len() == self.offsets@.len() && (!audo_wf(
                        self.audio@,
                        self.offsets@,
                    ) || audo_content_len(self.audio@, self.offsets@) > u32::MAX))
                },
            },
            self.audio@.len() == self.offsets@.len() && audo_wf(self.audio@, self.offsets@)
                && audo_content_len(self.audio@, self.offsets@) <= u32::MAX ==> res is Ok,
    {
        proof {
            lemma_auto_spec_u32_to_from_le_bytes();
        }
        let n = self.audio.len();
        if self.offsets.len() != n {
            return Err(WriteError::BadAudioLayout);
        }
        let ghost auds = self.audio@;
        let ghost offs = self.offsets@;
        let mut end: u64 = 0;
        let mut i: usize = 0;
        while i < n
            invariant
                i <= n,
                n == auds.len() == offs.len(),
                end == audo_end(auds, offs, i as int),
                end <= u32::MAX,
                forall|j: int|
                    0 <= j < i ==> (#[trigger] offs[j]) + 4 + auds[j].data@.len() <= u32::MAX,
            decreases n - i,
        {
            let len = self.audio[i].data.len();
            let off = self.offsets[i];
            if len as u64 > u32::MAX as u64 || (off as u64) + 4 + (len as u64) > u32::MAX as u64 {
                proof {
                    lemma_audo_end(auds, offs, i as int + 1, n as int);
                }
                return Err(WriteError::TooLarge);
            }
            let e = (off as u64) + 4 + (len as u64);
            if e > end {
                end = e;
            }
            i = i + 1;
        }
        if n as u64 > ((u32::MAX as u64) - 4) / 4 {
            proof {
                lemma_audo_end(auds, offs, 0, n as int);
            }
            return Err(WriteError::TooLarge);
        }
        let total = 4 + 4 * (n as u64) + end;
        if total > u32::MAX as u64 {
            return Err(WriteError::TooLarge);
        }
        Ok(total as u32)
    }

    /// Writes the whole `AUDO` chunk: header, count, the table of absolute
    /// entry positions, then a zeroed region in which each entry is placed
    /// at its table position — seeking per entry, so tables that are out
    /// of order or share bytes are reproduced as stored.
    #[verifier::loop_isolation(false)]
    #[verifier::rlimit(100)]
    pub fn write(&self, w: &mut Writer) -> (res: Result<(), WriteError>)
        requires
            old(w).data@.len() + 8 <= u32::MAX,
        ensures
            match res {
                Ok(()) => {
                    &&& audo_wf(self.audio@, self.offsets@)
                    &&& final(w).data@ == old(w).data@ + chunk_bytes(
                        TAG_AUDO,
                        audo_content(self.audio@, self.offsets@, old(w).data@.len() as int + 8),
                    )
                },
                Err(e) => {
                    &&& final(w).data@ == old(w).data@
                    &&& (e is TooLarge || e is BadAudioLayout)
                    &&& (e is BadAudioLayout <==> self.audio@.len() != self.offsets@.len())
                    &&& (e is TooLarge ==> self.audio@.len() == self.offsets@.len() && (!audo_wf(
                        self.audio@,
                        self.offsets@,
                    ) || old(w).data@.len() + 8 + audo_content_len(self.audio@, self.offsets@)
                        > u32::MAX))
                },
            },
    {
        proof {
            lemma_auto_spec_u32_to_from_le_bytes();
        }
        let ghost auds = self.audio@;
        let ghost offs = self.offsets@;
        let size = match self.content_size() {
            Ok(s) => s,
            Err(e) => {
                return Err(e);
            },
        };
        let base = w.tell() + 8;
        let n = self.audio.len();
        proof {
            lemma_audo_end(auds, offs, 0, n as int);
        }
        if (base as u64) + (size as u64) > u32::MAX as u64 {
            return Err(WriteError::TooLarge);
        }
        let ghost l = audo_end(auds, offs, n as int);
        crate::chunk::write_chunk_header(w, TAG_AUDO, size);
        w.write_u32(n as u32);
        let ghost tablews = Seq::new(
            auds.len(),
            |i: int| ((base as int) + 4 + 4 * (n as int) + offs[i]) as u32,
        );
        let ado = (base + 4 + 4 * n) as u32;
        let mut table: Vec<u32> = Vec::new();
        let mut i: usize = 0;
        while i < n
            invariant
                i <= n,
                n == auds.len() == offs.len(),
                table@.len() == i,
                ado == base + 4 + 4 * n,
                audo_wf(auds, offs),
                size == audo_content_len(auds, offs),
                base + size <= u32::MAX,
                forall|j: int| 0 <= j < i ==> #[trigger] table@[j] == tablews[j],
            decreases n - i,
        {
            proof {
                lemma_audo_end(auds, offs, i as int + 1, n as int);
            }
            table.push(ado + self.offsets[i]);
            i = i + 1;
        }
        proof {
            assert(table@ =~= tablews);
            crate::words::lemma_bytes_of_u32s_len(tablews);
        }
        write_u32s(w, table.as_slice());
        let ghost prefix2 = old(w).data@ + crate::chunk::chunk_header_bytes(TAG_AUDO, size)
            + spec_u32_to_le_bytes((n as u32)) + bytes_of_u32s(tablews);
        let rs = w.tell();
        let region_len = (size as usize) - 4 - 4 * n;
        w.write_zeros(region_len);
        let mut i: usize = 0;
        proof {
            assert(w.data@ =~= prefix2 + audo_region(auds, offs, 0, l));
        }
        while i < n
            invariant
                i <= n,
                n == auds.len() == offs.len(),
                audo_wf(auds, offs),
                rs == prefix2.len(),
                region_len == l,
                rs + region_len == w.data@.len(),
                base + size <= u32::MAX,
                w.data@ == prefix2 + audo_region(auds, offs, i as int, l),
            decreases n - i,
        {
            proof {
                lemma_audo_end(auds, offs, i as int + 1, n as int);
                lemma_audo_region_len(auds, offs, i as int, l);
                lemma_audo_region_len(auds, offs, i as int + 1, l);
            }
            let ghost prev = audo_region(auds, offs, i as int, l);
            let a = &self.audio[i];
            let off = self.offsets[i] as usize;
            w.patch_u32(rs + off, a.data.len() as u32);
            proof {
                assert(w.data@ =~= prefix2 + crate::cursor::splice(
                    prev,
                    offs[i as int] as int,
                    spec_u32_to_le_bytes(auds[i as int].data@.len() as u32),
                ));
            }
            let ghost mid = crate::cursor::splice(
                prev,
                offs[i as int] as int,
                spec_u32_to_le_bytes(auds[i as int].data@.len() as u32),
            );
            w.patch_bytes(rs + off + 4, a.data.as_slice());
            proof {
                assert(w.data@ =~= prefix2 + crate::cursor::splice(
                    mid,
                    offs[i as int] + 4,
                    auds[i as int].data@,
                ));
            }
            i = i + 1;
        }
        proof {
            lemma_audo_region_len(auds, offs, n as int, l);
            assert(w.data@ =~= old(w).data@ + chunk_bytes(
                TAG_AUDO,
                audo_content(auds, offs, old(w).data@.len() as int + 8),
            ));
        }
        Ok(())
    }
}

} // verus!