//! PNG boundary scanning.
//!
//! Texture pixel data is stored as whole PNG files.  Their extent is found
//! structurally — walking the chunk headers (`length:u32 big-endian +
//! tag(4) + data + crc(4)`) from the 8-byte signature until the chunk
//! tagged `IEND` — without decoding any pixels.

use crate::chunk::TAG_IEND;
use crate::cursor::Reader;
use crate::error::ReadError;
use vstd::bytes::{lemma_auto_spec_u32_to_from_le_bytes, spec_u32_from_le_bytes};
use vstd::prelude::*;

verus! {

/// A big-endian 32-bit word.
pub open spec fn spec_be32(s: Seq<u8>) -> int {
    s[0] * 0x1000000 + s[1] * 0x10000 + s[2] * 0x100 + s[3]
}

/// Whether the 8-byte PNG signature stands at `pos`.
pub open spec fn has_png_magic(b: Seq<u8>, pos: int) -> bool {
    &&& 0 <= pos
    &&& pos + 8 <= b.len()
    &&& b[pos] == 0x89
    &&& b[pos + 1] == 0x50
    &&& b[pos + 2] == 0x4E
    &&& b[pos + 3] == 0x47
    &&& b[pos + 4] == 0x0D
    &&& b[pos + 5] == 0x0A
    &&& b[pos + 6] == 0x1A
    &&& b[pos + 7] == 0x0A
}

/// The position just past the chunk run starting at `pos`: each chunk is
/// walked by its declared length, and the run ends with the chunk tagged
/// `IEND` (its 4 CRC bytes included).
pub open spec fn png_chunks_end(b: Seq<u8>, pos: int) -> Option<int>
    decreases b.len() - pos,
{
    if pos < 0 || pos + 8 > b.len() {
        None
    } else {
        let len = spec_be32(b.subrange(pos, pos + 4));
        let next = pos + 12 + len;
        if next > b.len() {
            None
        } else if spec_u32_from_le_bytes(b.subrange(pos + 4, pos + 8)) == TAG_IEND {
            Some(next)
        } else {
            png_chunks_end(b, next)
        }
    }
}

/// The whole PNG's length from its signature at `pos` through its `IEND`
/// chunk's CRC, or nothing if no well-formed PNG starts there.
pub open spec fn png_len_at(b: Seq<u8>, pos: int) -> Option<int> {
    if has_png_magic(b, pos) {
        match png_chunks_end(b, pos + 8) {
            Some(end) => Some(end - pos),
            None => None,
        }
    } else {
        None
    }
}

/// A successful chunk walk stays within the buffer and moves forward.
pub proof fn lemma_png_chunks_end_bounds(b: Seq<u8>, pos: int, end: int)
    requires
        png_chunks_end(b, pos) == Some(end),
    ensures
        pos + 12 <= end <= b.len(),
    decreases b.len() - pos,
{
    let len = spec_be32(b.subrange(pos, pos + 4));
    let next = pos + 12 + len;
    if spec_u32_from_le_bytes(b.subrange(pos + 4, pos + 8)) == TAG_IEND {
    } else {
        lemma_png_chunks_end_bounds(b, next, end);
    }
}

/// Reads a big-endian `u32`.
fn read_u32_be(r: &mut Reader) -> (res: Result<u32, ReadError>)
    requires
        old(r).wf(),
    ensures
        final(r).data == old(r).data,
        final(r).wf(),
        match res {
            Ok(v) => {
                &&& old(r).pos + 4 <= old(r).data@.len()
                &&& final(r).pos == old(r).pos + 4
                &&& v as int == spec_be32(
                    old(r).data@.subrange(old(r).pos as int, old(r).pos + 4),
                )
            },
            Err(e) => {
                &&& e == ReadError::UnexpectedEof
                &&& final(r).pos == old(r).pos
                &&& old(r).pos + 4 > old(r).data@.len()
            },
        },
{
    let bytes = match r.read_bytes(4) {
        Ok(v) => v,
        Err(e) => {
            return Err(e);
        },
    };
    let v = (bytes[0] as u32) * 0x1000000 + (bytes[1] as u32) * 0x10000 + (bytes[2] as u32) * 0x100
        + (bytes[3] as u32);
    Ok(v)
}

/// Measures the PNG whose signature stands at the reader's position by
/// scanning its chunk headers through `IEND`.  The position is restored,
/// so the caller can decide whether to copy the bytes or only remember
/// where they are.
#[verifier::loop_isolation(false)]
pub fn png_length(r: &mut Reader) -> (res: Result<usize, ReadError>)
    requires
        old(r).wf(),
    ensures
        final(r).data == old(r).data,
        final(r).wf(),
        final(r).pos == old(r).pos,
        match res {
            Ok(l) => {
                &&& png_len_at(old(r).data@, old(r).pos as int) == Some(l as int)
                &&& old(r).pos + l <= old(r).data@.len()
                &&& l >= 20
            },
            Err(e) => {
                &&& png_len_at(old(r).data@, old(r).pos as int) is None
                &&& (e is UnexpectedEof || e is BadPngMagic)
            },
        },
{
    proof {
        lemma_auto_spec_u32_to_from_le_bytes();
    }
    let ghost b = r.data@;
    let start = r.tell();
    let magic = match r.read_bytes(8) {
        Ok(v) => v,
        Err(e) => {
            return Err(ReadError::UnexpectedEof);
        },
    };
    if !(magic[0] == 0x89 && magic[1] == 0x50 && magic[2] == 0x4E && magic[3] == 0x47 && magic[4]
        == 0x0D && magic[5] == 0x0A && magic[6] == 0x1A && magic[7] == 0x0A) {
        match r.seek(start) {
            Ok(()) => (),
            Err(e) => {
                return Err(e);
            },
        }
        return Err(ReadError::BadPngMagic { offset: start as u32 });
    }
    loop
        invariant
            r.wf(),
            r.data == old(r).data,
            start + 8 <= r.pos,
            png_chunks_end(b, r.pos as int) == png_chunks_end(b, start + 8),
        decreases r.data@.len() - r.pos,
    {
        let len = match read_u32_be(r) {
            Ok(v) => v,
            Err(e) => {
                match r.seek(start) {
                    Ok(()) => (),
                    Err(e2) => {
                        return Err(e2);
                    },
                }
                return Err(ReadError::UnexpectedEof);
            },
        };
        let tag = match r.read_u32() {
            Ok(v) => v,
            Err(e) => {
                match r.seek(start) {
                    Ok(()) => (),
                    Err(e2) => {
                        return Err(e2);
                    },
                }
                return Err(ReadError::UnexpectedEof);
            },
        };
        match r.skip(len as usize) {
            Ok(()) => (),
            Err(e) => {
                match r.seek(start) {
                    Ok(()) => (),
                    Err(e2) => {
                        return Err(e2);
                    },
                }
                return Err(ReadError::UnexpectedEof);
            },
        }
        match r.skip(4) {
            Ok(()) => (),
            Err(e) => {
                match r.seek(start) {
                    Ok(()) => (),
                    Err(e2) => {
                        return Err(e2);
                    },
                }
                return Err(ReadError::UnexpectedEof);
            },
        }
        if tag == crate::chunk::TAG_IEND {
            break ;
        }
    }
    let end = r.tell();
    match r.seek(start) {
        Ok(()) => (),
        Err(e) => {
            return Err(e);
        },
    }
    Ok(end - start)
}

/// Reads a whole PNG: measures it structurally, then copies its bytes.
pub fn read_png(r: &mut Reader) -> (res: Result<Vec<u8>, ReadError>)
    requires
        old(r).wf(),
    ensures
        final(r).data == old(r).data,
        final(r).wf(),
        match res {
            Ok(v) => {
                &&& png_len_at(old(r).data@, old(r).pos as int) == Some(v@.len() as int)
                &&& final(r).pos == old(r).pos + v@.len()
                &&& v@ == old(r).data@.subrange(
                    old(r).pos as int,
                    old(r).pos + v@.len(),
                )
            },
            Err(e) => png_len_at(old(r).data@, old(r).pos as int) is None,
        },
{
    let len = match png_length(r) {
        Ok(l) => l,
        Err(e) => {
            return Err(e);
        },
    };
    match r.read_bytes(len) {
        Ok(v) => Ok(v),
        Err(e) => Err(e),
    }
}

/// PNG boundary locality: the scan result depends only on the PNG's own
/// bytes, so it stops at that PNG's `IEND` and never runs into whatever
/// follows.  Scanning each member of a concatenation of PNGs from its
/// start therefore yields exactly that member's length.
pub proof fn lemma_png_scan_local(b1: Seq<u8>, b2: Seq<u8>, pos1: int, pos2: int, len: int)
    requires
        png_len_at(b1, pos1) == Some(len),
        0 <= pos2,
        pos2 + len <= b2.len(),
        b2.subrange(pos2, pos2 + len) == b1.subrange(pos1, pos1 + len),
    ensures
        png_len_at(b2, pos2) == Some(len),
{
    lemma_png_chunks_end_bounds(b1, pos1 + 8, pos1 + len);
    assert forall|k: int| 0 <= k < len implies #[trigger] b2[pos2 + k] == b1[pos1 + k] by {
        assert(b2.subrange(pos2, pos2 + len)[k] == b2[pos2 + k]);
        assert(b1.subrange(pos1, pos1 + len)[k] == b1[pos1 + k]);
    }
    assert(has_png_magic(b2, pos2)) by {
        assert(b2[pos2 + 0] == b1[pos1 + 0]);
        assert(b2[pos2 + 1] == b1[pos1 + 1]);
        assert(b2[pos2 + 2] == b1[pos1 + 2]);
        assert(b2[pos2 + 3] == b1[pos1 + 3]);
        assert(b2[pos2 + 4] == b1[pos1 + 4]);
        assert(b2[pos2 + 5] == b1[pos1 + 5]);
        assert(b2[pos2 + 6] == b1[pos1 + 6]);
        assert(b2[pos2 + 7] == b1[pos1 + 7]);
    }
    lemma_png_chunks_local(b1, b2, pos1 + 8, pos2 + 8, pos1 + len, pos1, pos2, len);
}

/// Chunk-walk locality: a successful walk over one buffer carries over to
/// any buffer holding the same bytes at a (possibly different) position.
proof fn lemma_png_chunks_local(
    b1: Seq<u8>,
    b2: Seq<u8>,
    p1: int,
    p2: int,
    end1: int,
    base1: int,
    base2: int,
    len: int,
)
    requires
        png_chunks_end(b1, p1) == Some(end1),
        p1 - base1 == p2 - base2,
        base1 <= p1,
        end1 == base1 + len,
        0 <= base2,
        base2 + len <= b2.len(),
        forall|k: int| 0 <= k < len ==> #[trigger] b2[base2 + k] == b1[base1 + k],
    ensures
        png_chunks_end(b2, p2) == Some(p2 + (end1 - p1)),
    decreases b1.len() - p1,
{
    lemma_png_chunks_end_bounds(b1, p1, end1);
    let clen = spec_be32(b1.subrange(p1, p1 + 4));
    assert(b2.subrange(p2, p2 + 4) =~= b1.subrange(p1, p1 + 4)) by {
        assert forall|i: int| 0 <= i < 4 implies #[trigger] b2.subrange(p2, p2 + 4)[i]
            == b1.subrange(p1, p1 + 4)[i] by {
            assert(b2[base2 + (p1 + i - base1)] == b1[base1 + (p1 + i - base1)]);
        }
    }
    assert(b2.subrange(p2 + 4, p2 + 8) =~= b1.subrange(p1 + 4, p1 + 8)) by {
        assert forall|i: int| 0 <= i < 4 implies #[trigger] b2.subrange(p2 + 4, p2 + 8)[i]
            == b1.subrange(p1 + 4, p1 + 8)[i] by {
            assert(b2[base2 + (p1 + 4 + i - base1)] == b1[base1 + (p1 + 4 + i - base1)]);
        }
    }
    let next1 = p1 + 12 + clen;
    if spec_u32_from_le_bytes(b1.subrange(p1 + 4, p1 + 8)) == TAG_IEND {
        assert(png_chunks_end(b2, p2) == Some(p2 + 12 + clen));
    } else {
        lemma_png_chunks_end_bounds(b1, next1, end1);
        lemma_png_chunks_local(b1, b2, next1, p2 + 12 + clen, end1, base1, base2, len);
    }
}

} // verus!
