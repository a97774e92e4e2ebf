//! Chunk framing: the `tag(4) + length(4, little-endian)` header that every
//! chunk of the container carries, and helpers to read and write it.
//!
//! Tags are handled as the little-endian packing of their four ASCII bytes,
//! so comparing a tag is one integer comparison and a tag constant documents
//! itself through its name.

use crate::cursor::{Reader, Writer};
use crate::error::ReadError;
use vstd::bytes::{
    lemma_auto_spec_u32_to_from_le_bytes, spec_u32_from_le_bytes, spec_u32_to_le_bytes,
};
use vstd::prelude::*;

verus! {

/// The tag `FORM` as a little-endian packed word.
pub const TAG_FORM: u32 = 0x4D524F46;

/// The tag `GEN8` as a little-endian packed word.
pub const TAG_GEN8: u32 = 0x384E4547;

/// The tag `OPTN` as a little-endian packed word.
pub const TAG_OPTN: u32 = 0x4E54504F;

/// The tag `EXTN` as a little-endian packed word.
pub const TAG_EXTN: u32 = 0x4E545845;

/// The tag `SOND` as a little-endian packed word.
pub const TAG_SOND: u32 = 0x444E4F53;

/// The tag `AGRP` as a little-endian packed word.
pub const TAG_AGRP: u32 = 0x50524741;

/// The tag `SPRT` as a little-endian packed word.
pub const TAG_SPRT: u32 = 0x54525053;

/// The tag `BGND` as a little-endian packed word.
pub const TAG_BGND: u32 = 0x444E4742;

/// The tag `PATH` as a little-endian packed word.
pub const TAG_PATH: u32 = 0x48544150;

/// The tag `SCPT` as a little-endian packed word.
pub const TAG_SCPT: u32 = 0x54504353;

/// The tag `SHDR` as a little-endian packed word.
pub const TAG_SHDR: u32 = 0x52444853;

/// The tag `FONT` as a little-endian packed word.
pub const TAG_FONT: u32 = 0x544E4F46;

/// The tag `TMLN` as a little-endian packed word.
pub const TAG_TMLN: u32 = 0x4E4C4D54;

/// The tag `OBJT` as a little-endian packed word.
pub const TAG_OBJT: u32 = 0x544A424F;

/// The tag `ROOM` as a little-endian packed word.
pub const TAG_ROOM: u32 = 0x4D4F4F52;

/// The tag `DAFL` as a little-endian packed word.
pub const TAG_DAFL: u32 = 0x4C464144;

/// The tag `TPAG` as a little-endian packed word.
pub const TAG_TPAG: u32 = 0x47415054;

/// The tag `CODE` as a little-endian packed word.
pub const TAG_CODE: u32 = 0x45444F43;

/// The tag `VARI` as a little-endian packed word.
pub const TAG_VARI: u32 = 0x49524156;

/// The tag `FUNC` as a little-endian packed word.
pub const TAG_FUNC: u32 = 0x434E5546;

/// The tag `STRG` as a little-endian packed word.
pub const TAG_STRG: u32 = 0x47525453;

/// The tag `TXTR` as a little-endian packed word.
pub const TAG_TXTR: u32 = 0x52545854;

/// The tag `AUDO` as a little-endian packed word.
pub const TAG_AUDO: u32 = 0x4F445541;

/// The tag `LANG` as a little-endian packed word.
pub const TAG_LANG: u32 = 0x474E414C;

/// The tag `GLOB` as a little-endian packed word.
pub const TAG_GLOB: u32 = 0x424F4C47;

/// The PNG chunk tag `IEND` as a little-endian packed word.
pub const TAG_IEND: u32 = 0x444E4549;

/// A decoded chunk header.
pub struct ChunkHeader {
    pub type_id: u32,
    pub size: u32,
}

/// The 8 header bytes announcing a chunk with the given tag and length.
pub open spec fn chunk_header_bytes(tag: u32, size: u32) -> Seq<u8> {
    spec_u32_to_le_bytes(tag) + spec_u32_to_le_bytes(size)
}

/// The bytes of a whole chunk: header followed by its content.
pub open spec fn chunk_bytes(tag: u32, content: Seq<u8>) -> Seq<u8> {
    chunk_header_bytes(tag, content.len() as u32) + content
}

/// A chunk with the given tag is framed at `pos`: its 8-byte header lies
/// within the buffer and carries that tag.
pub open spec fn chunk_frame_ok(b: Seq<u8>, pos: int, tag: u32) -> bool {
    &&& 0 <= pos
    &&& pos + 8 <= b.len()
    &&& spec_u32_from_le_bytes(b.subrange(pos, pos + 4)) == tag
}

/// The declared content length of the chunk framed at `pos`.
pub open spec fn chunk_size_at(b: Seq<u8>, pos: int) -> int {
    spec_u32_from_le_bytes(b.subrange(pos + 4, pos + 8)) as int
}

/// Reads a chunk header: 4 tag bytes and the content length.
pub fn read_chunk_header(r: &mut Reader) -> (res: Result<ChunkHeader, ReadError>)
    requires
        old(r).wf(),
    ensures
        final(r).data == old(r).data,
        final(r).wf(),
        match res {
            Ok(h) => {
                &&& old(r).pos + 8 <= old(r).data@.len()
                &&& final(r).pos == old(r).pos + 8
                &&& chunk_header_bytes(h.type_id, h.size) == old(r).data@.subrange(
                    old(r).pos as int,
                    old(r).pos + 8,
                )
            },
            Err(e) => {
                &&& e == ReadError::UnexpectedEof
                &&& final(r).pos == old(r).pos
                &&& old(r).pos + 8 > old(r).data@.len()
            },
        },
{
    let ghost start = r.pos as int;
    if r.remaining() < 8 {
        return Err(ReadError::UnexpectedEof);
    }
    let type_id = match r.read_u32() {
        Ok(v) => v,
        Err(e) => {
            return Err(e);
        },
    };
    let size = match r.read_u32() {
        Ok(v) => v,
        Err(e) => {
            return Err(e);
        },
    };
    proof {
        assert(chunk_header_bytes(type_id, size) =~= old(r).data@.subrange(start, start + 8));
    }
    Ok(ChunkHeader { type_id, size })
}

/// Reads a chunk header and checks the tag against the one the format
/// prescribes at this position.
pub fn get_chunk_header(r: &mut Reader, should_be: u32) -> (res: Result<ChunkHeader, ReadError>)
    requires
        old(r).wf(),
    ensures
        final(r).data == old(r).data,
        final(r).wf(),
        match res {
            Ok(h) => {
                &&& h.type_id == should_be
                &&& old(r).pos + 8 <= old(r).data@.len()
                &&& final(r).pos == old(r).pos + 8
                &&& chunk_header_bytes(should_be, h.size) == old(r).data@.subrange(
                    old(r).pos as int,
                    old(r).pos + 8,
                )
                &&& spec_u32_to_le_bytes(should_be) == old(r).data@.subrange(
                    old(r).pos as int,
                    old(r).pos + 4,
                )
                &&& spec_u32_to_le_bytes(h.size) == old(r).data@.subrange(
                    old(r).pos + 4,
                    old(r).pos + 8,
                )
                &&& spec_u32_from_le_bytes(
                    old(r).data@.subrange(old(r).pos as int, old(r).pos + 4),
                ) == should_be
                &&& spec_u32_from_le_bytes(
                    old(r).data@.subrange(old(r).pos + 4, old(r).pos + 8),
                ) == h.size
            },
            Err(e) => match e {
                ReadError::UnexpectedEof => {
                    &&& old(r).pos + 8 > old(r).data@.len()
                    &&& final(r).pos == old(r).pos
                },
                ReadError::UnexpectedChunk { found, expected } => {
                    &&& expected == should_be
                    &&& found != should_be
                    &&& old(r).pos + 8 <= old(r).data@.len()
                    &&& found == spec_u32_from_le_bytes(
                        old(r).data@.subrange(old(r).pos as int, old(r).pos + 4),
                    )
                },
                _ => false,
            },
        },
{
    let ghost start = r.pos as int;
    let h = match read_chunk_header(r) {
        Ok(h) => h,
        Err(e) => {
            return Err(e);
        },
    };
    proof {
        lemma_auto_spec_u32_to_from_le_bytes();
        assert(old(r).data@.subrange(start, start + 4) =~= old(r).data@.subrange(
            start,
            start + 8,
        ).subrange(0, 4));
        assert(old(r).data@.subrange(start, start + 8).subrange(0, 4) =~= spec_u32_to_le_bytes(
            h.type_id,
        ));
        assert(old(r).data@.subrange(start + 4, start + 8) =~= old(r).data@.subrange(
            start,
            start + 8,
        ).subrange(4, 8));
        assert(old(r).data@.subrange(start, start + 8).subrange(4, 8) =~= spec_u32_to_le_bytes(
            h.size,
        ));
    }
    if h.type_id == should_be {
        Ok(h)
    } else {
        Err(ReadError::UnexpectedChunk { found: h.type_id, expected: should_be })
    }
}

/// Writes the 8-byte chunk header.
pub fn write_chunk_header(w: &mut Writer, tag: u32, size: u32)
    ensures
        final(w).data@ == old(w).data@ + chunk_header_bytes(tag, size),
{
    w.write_u32(tag);
    w.write_u32(size);
    proof {
        assert(w.data@ =~= old(w).data@ + chunk_header_bytes(tag, size));
    }
}

/// Writes a whole chunk: header, then the content verbatim.
pub fn write_chunk(w: &mut Writer, tag: u32, content: &Vec<u8>)
    requires
        content@.len() <= u32::MAX,
    ensures
        final(w).data@ == old(w).data@ + chunk_bytes(tag, content@),
{
    write_chunk_header(w, tag, content.len() as u32);
    w.write_bytes(content.as_slice());
    proof {
        assert(w.data@ =~= old(w).data@ + chunk_bytes(tag, content@));
    }
}

/// Decodes the chunk expected at `pos`: the tag must match and the declared
/// length must lie within the buffer.  On success, yields the content bytes
/// and the position just past them.
pub open spec fn parse_chunk_at(b: Seq<u8>, pos: int, tag: u32) -> Option<(Seq<u8>, int)> {
    if pos >= 0 && pos + 8 <= b.len() && spec_u32_from_le_bytes(b.subrange(pos, pos + 4)) == tag {
        let size = spec_u32_from_le_bytes(b.subrange(pos + 4, pos + 8)) as int;
        if pos + 8 + size <= b.len() {
            Some((b.subrange(pos + 8, pos + 8 + size), pos + 8 + size))
        } else {
            None
        }
    } else {
        None
    }
}

/// A chunk decoded from a buffer re-encodes to exactly the bytes it was
/// decoded from: the declared length is trusted to be the content's true
/// extent, so re-emitting header plus content reproduces the region.
pub proof fn lemma_chunk_exact(b: Seq<u8>, pos: int, tag: u32, c: Seq<u8>, end: int)
    requires
        parse_chunk_at(b, pos, tag) == Some((c, end)),
    ensures
        c.len() <= u32::MAX,
        pos + 8 <= end <= b.len(),
        chunk_bytes(tag, c) == b.subrange(pos, end),
{
    lemma_auto_spec_u32_to_from_le_bytes();
    let t = b.subrange(pos, pos + 4);
    let s = b.subrange(pos + 4, pos + 8);
    assert(spec_u32_to_le_bytes(tag) == t);
    assert(spec_u32_to_le_bytes(c.len() as u32) == s);
    assert(chunk_bytes(tag, c) =~= b.subrange(pos, end));
}

/// Chunk length invariant: in every encoded chunk, the declared length —
/// the word right after the tag — equals the actual byte count of the
/// content region that follows it.
pub proof fn lemma_chunk_length_exact(tag: u32, content: Seq<u8>)
    requires
        content.len() <= u32::MAX,
    ensures
        chunk_bytes(tag, content).len() == 8 + content.len(),
        spec_u32_from_le_bytes(chunk_bytes(tag, content).subrange(4, 8)) == content.len(),
        chunk_bytes(tag, content).subrange(8, chunk_bytes(tag, content).len() as int) == content,
{
    lemma_auto_spec_u32_to_from_le_bytes();
    assert(chunk_bytes(tag, content).subrange(4, 8) =~= spec_u32_to_le_bytes(
        content.len() as u32,
    ));
    assert(chunk_bytes(tag, content).subrange(8, chunk_bytes(tag, content).len() as int)
        =~= content);
}

} // verus!
