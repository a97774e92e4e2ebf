//! The pseudo-IFF container layer.
//!
//! A bundle is a root `FORM` chunk wrapping, in fixed order, the chunks
//! `GEN8, OPTN, EXTN, SOND, (AGRP), SPRT, BGND, PATH, SCPT, SHDR, FONT,
//! TMLN, OBJT, ROOM, DAFL, TPAG, CODE, VARI, FUNC, STRG, TXTR, AUDO, (LANG),
//! (GLOB)`; the parenthesised ones are optional and their presence varies by
//! format revision.  This layer treats every chunk as an opaque blob, so a
//! bundle can be split apart and reassembled without interpreting any chunk,
//! and decoding survives format revisions that change chunk internals.
//!
//! The root `FORM` length is never taken from the input: it is recomputed on
//! write as the total size of the emitted children.

use crate::chunk::{
    chunk_bytes, chunk_header_bytes, get_chunk_header, lemma_chunk_exact, parse_chunk_at,
    write_chunk, write_chunk_header, TAG_AGRP, TAG_AUDO, TAG_BGND, TAG_CODE,
    TAG_DAFL, TAG_EXTN, TAG_FONT, TAG_FORM, TAG_FUNC, TAG_GEN8, TAG_GLOB, TAG_LANG, TAG_OBJT,
    TAG_OPTN, TAG_PATH, TAG_ROOM, TAG_SCPT, TAG_SHDR, TAG_SOND, TAG_SPRT, TAG_STRG, TAG_TMLN,
    TAG_TPAG, TAG_TXTR, TAG_VARI,
};
use crate::cursor::{Reader, Writer};
use crate::error::{ReadError, WriteError};
use vstd::bytes::{
    lemma_auto_spec_u32_to_from_le_bytes, spec_u32_from_le_bytes, spec_u32_to_le_bytes,
};
use vstd::prelude::*;

verus! {

/// A bundle split into its chunks, each kept as an uninterpreted blob.
pub struct PseudoIff {
    pub gen8: Vec<u8>,
    pub optn: Vec<u8>,
    pub extn: Vec<u8>,
    pub sond: Vec<u8>,
    pub agrp: Option<Vec<u8>>,
    pub sprt: Vec<u8>,
    pub bgnd: Vec<u8>,
    pub path: Vec<u8>,
    pub scpt: Vec<u8>,
    pub shdr: Vec<u8>,
    pub font: Vec<u8>,
    pub tmln: Vec<u8>,
    pub objt: Vec<u8>,
    pub room: Vec<u8>,
    pub dafl: Vec<u8>,
    pub tpag: Vec<u8>,
    pub code: Vec<u8>,
    pub vari: Vec<u8>,
    pub func: Vec<u8>,
    pub strg: Vec<u8>,
    pub txtr: Vec<u8>,
    pub audo: Vec<u8>,
    pub lang: Option<Vec<u8>>,
    pub glob: Option<Vec<u8>>,
}

/// The mathematical model of a [`PseudoIff`]: every blob as a byte sequence.
pub struct PseudoIffView {
    pub gen8: Seq<u8>,
    pub optn: Seq<u8>,
    pub extn: Seq<u8>,
    pub sond: Seq<u8>,
    pub agrp: Option<Seq<u8>>,
    pub sprt: Seq<u8>,
    pub bgnd: Seq<u8>,
    pub path: Seq<u8>,
    pub scpt: Seq<u8>,
    pub shdr: Seq<u8>,
    pub font: Seq<u8>,
    pub tmln: Seq<u8>,
    pub objt: Seq<u8>,
    pub room: Seq<u8>,
    pub dafl: Seq<u8>,
    pub tpag: Seq<u8>,
    pub code: Seq<u8>,
    pub vari: Seq<u8>,
    pub func: Seq<u8>,
    pub strg: Seq<u8>,
    pub txtr: Seq<u8>,
    pub audo: Seq<u8>,
    pub lang: Option<Seq<u8>>,
    pub glob: Option<Seq<u8>>,
}

/// View of an optional blob.
pub open spec fn opt_bytes_view(c: Option<Vec<u8>>) -> Option<Seq<u8>> {
    match c {
        Some(v) => Some(v@),
        None => None,
    }
}

impl View for PseudoIff {
    type V = PseudoIffView;

    open spec fn view(&self) -> PseudoIffView {
        PseudoIffView {
            gen8: self.gen8@,
            optn: self.optn@,
            extn: self.extn@,
            sond: self.sond@,
            agrp: opt_bytes_view(self.agrp),
            sprt: self.sprt@,
            bgnd: self.bgnd@,
            path: self.path@,
            scpt: self.scpt@,
            shdr: self.shdr@,
            font: self.font@,
            tmln: self.tmln@,
            objt: self.objt@,
            room: self.room@,
            dafl: self.dafl@,
            tpag: self.tpag@,
            code: self.code@,
            vari: self.vari@,
            func: self.func@,
            strg: self.strg@,
            txtr: self.txtr@,
            audo: self.audo@,
            lang: opt_bytes_view(self.lang),
            glob: opt_bytes_view(self.glob),
        }
    }
}

/// The bytes of an optional chunk: nothing when it is absent.
pub open spec fn opt_chunk_bytes(tag: u32, c: Option<Seq<u8>>) -> Seq<u8> {
    match c {
        Some(b) => chunk_bytes(tag, b),
        None => Seq::empty(),
    }
}

/// An optional blob small enough for the 32-bit length field.
pub open spec fn opt_len_ok(c: Option<Seq<u8>>) -> bool {
    match c {
        Some(b) => b.len() <= u32::MAX,
        None => true,
    }
}

/// The first third of the `FORM` content: the chunks `GEN8` through
/// `PATH`, in order.
pub open spec fn form_content_head(v: PseudoIffView) -> Seq<u8> {
    chunk_bytes(TAG_GEN8, v.gen8) + chunk_bytes(TAG_OPTN, v.optn) + chunk_bytes(TAG_EXTN, v.extn)
        + chunk_bytes(TAG_SOND, v.sond) + opt_chunk_bytes(TAG_AGRP, v.agrp) + chunk_bytes(
        TAG_SPRT,
        v.sprt,
    ) + chunk_bytes(TAG_BGND, v.bgnd) + chunk_bytes(TAG_PATH, v.path)
}

/// The middle third of the `FORM` content: the chunks `SCPT` through `TPAG`.
pub open spec fn form_content_mid(v: PseudoIffView) -> Seq<u8> {
    chunk_bytes(TAG_SCPT, v.scpt) + chunk_bytes(TAG_SHDR, v.shdr) + chunk_bytes(TAG_FONT, v.font)
        + chunk_bytes(TAG_TMLN, v.tmln) + chunk_bytes(TAG_OBJT, v.objt) + chunk_bytes(
        TAG_ROOM,
        v.room,
    ) + chunk_bytes(TAG_DAFL, v.dafl) + chunk_bytes(TAG_TPAG, v.tpag)
}

/// The last third of the `FORM` content: the chunks `CODE` through `GLOB`.
pub open spec fn form_content_tail(v: PseudoIffView) -> Seq<u8> {
    chunk_bytes(TAG_CODE, v.code) + chunk_bytes(TAG_VARI, v.vari) + chunk_bytes(TAG_FUNC, v.func)
        + chunk_bytes(TAG_STRG, v.strg) + chunk_bytes(TAG_TXTR, v.txtr) + chunk_bytes(
        TAG_AUDO,
        v.audo,
    ) + opt_chunk_bytes(TAG_LANG, v.lang) + opt_chunk_bytes(TAG_GLOB, v.glob)
}

/// The content of the root `FORM` chunk: every child chunk in the fixed
/// order of the format.
pub open spec fn form_content(v: PseudoIffView) -> Seq<u8> {
    form_content_head(v) + form_content_mid(v) + form_content_tail(v)
}

/// The bytes of a whole bundle: the `FORM` header announcing the recomputed
/// content length, then every child chunk.
pub open spec fn form_bytes(v: PseudoIffView) -> Seq<u8> {
    chunk_bytes(TAG_FORM, form_content(v))
}

impl PseudoIffView {
    /// The chunks `GEN8` through `PATH` fit the 32-bit length field.
    pub open spec fn lens_ok_head(self) -> bool {
        &&& self.gen8.len() <= u32::MAX
        &&& self.optn.len() <= u32::MAX
        &&& self.extn.len() <= u32::MAX
        &&& self.sond.len() <= u32::MAX
        &&& opt_len_ok(self.agrp)
        &&& self.sprt.len() <= u32::MAX
        &&& self.bgnd.len() <= u32::MAX
        &&& self.path.len() <= u32::MAX
    }

    /// The chunks `SCPT` through `TPAG` fit the 32-bit length field.
    pub open spec fn lens_ok_mid(self) -> bool {
        &&& self.scpt.len() <= u32::MAX
        &&& self.shdr.len() <= u32::MAX
        &&& self.font.len() <= u32::MAX
        &&& self.tmln.len() <= u32::MAX
        &&& self.objt.len() <= u32::MAX
        &&& self.room.len() <= u32::MAX
        &&& self.dafl.len() <= u32::MAX
        &&& self.tpag.len() <= u32::MAX
    }

    /// The chunks `CODE` through `GLOB` fit the 32-bit length field.
    pub open spec fn lens_ok_tail(self) -> bool {
        &&& self.code.len() <= u32::MAX
        &&& self.vari.len() <= u32::MAX
        &&& self.func.len() <= u32::MAX
        &&& self.strg.len() <= u32::MAX
        &&& self.txtr.len() <= u32::MAX
        &&& self.audo.len() <= u32::MAX
        &&& opt_len_ok(self.lang)
        &&& opt_len_ok(self.glob)
    }

    /// Every chunk, and the whole content, fits the 32-bit length fields.
    pub open spec fn wf(self) -> bool {
        &&& self.lens_ok_head()
        &&& self.lens_ok_mid()
        &&& self.lens_ok_tail()
        &&& form_content(self).len() <= u32::MAX
    }
}

/// Decodes the optional chunk at `pos`.  A matching tag must begin a whole,
/// well-sized chunk; any other tag, or fewer than 4 bytes left, means the
/// optional chunk is absent and nothing is consumed.
pub open spec fn parse_opt_chunk_at(b: Seq<u8>, pos: int, tag: u32) -> Option<
    (Option<Seq<u8>>, int),
> {
    if pos >= 0 && pos + 4 <= b.len() && spec_u32_from_le_bytes(b.subrange(pos, pos + 4)) == tag {
        match parse_chunk_at(b, pos, tag) {
            Some((c, end)) => Some((Some(c), end)),
            None => None,
        }
    } else if 0 <= pos <= b.len() {
        Some((None, pos))
    } else {
        None
    }
}

/// An optional chunk decoded from a buffer re-encodes to exactly the bytes
/// it was decoded from; an absent chunk re-encodes to nothing.
pub proof fn lemma_opt_chunk_exact(b: Seq<u8>, pos: int, tag: u32, c: Option<Seq<u8>>, end: int)
    requires
        parse_opt_chunk_at(b, pos, tag) == Some((c, end)),
    ensures
        opt_len_ok(c),
        pos <= end <= b.len(),
        opt_chunk_bytes(tag, c) == b.subrange(pos, end),
{
    match c {
        Some(content) => {
            lemma_chunk_exact(b, pos, tag, content, end);
        },
        None => {
            assert(opt_chunk_bytes(tag, c) =~= b.subrange(pos, end));
        },
    }
}

/// Decodes a whole bundle starting at `pos`: the `FORM` header (whose length
/// field is not trusted), then every chunk in the fixed order.
pub open spec fn parse_form(b: Seq<u8>, pos: int) -> Option<(PseudoIffView, int)> {
    if !(pos >= 0 && pos + 8 <= b.len() && spec_u32_from_le_bytes(b.subrange(pos, pos + 4))
        == TAG_FORM) {
        None
    } else {
        match parse_chunk_at(b, pos + 8, TAG_GEN8) {
            None => None,
            Some((gen8, p)) => match parse_chunk_at(b, p, TAG_OPTN) {
                None => None,
                Some((optn, p)) => match parse_chunk_at(b, p, TAG_EXTN) {
                    None => None,
                    Some((extn, p)) => match parse_chunk_at(b, p, TAG_SOND) {
                        None => None,
                        Some((sond, p)) => match parse_opt_chunk_at(b, p, TAG_AGRP) {
                            None => None,
                            Some((agrp, p)) => match parse_chunk_at(b, p, TAG_SPRT) {
                                None => None,
                                Some((sprt, p)) => match parse_chunk_at(b, p, TAG_BGND) {
                                    None => None,
                                    Some((bgnd, p)) => match parse_chunk_at(b, p, TAG_PATH) {
                                        None => None,
                                        Some((path, p)) => match parse_chunk_at(b, p, TAG_SCPT) {
                                            None => None,
                                            Some((scpt, p)) => match parse_chunk_at(
                                                b,
                                                p,
                                                TAG_SHDR,
                                            ) {
                                                None => None,
                                                Some((shdr, p)) => match parse_chunk_at(
                                                    b,
                                                    p,
                                                    TAG_FONT,
                                                ) {
                                                    None => None,
                                                    Some((font, p)) => parse_form_tail(
                                                        b,
                                                        p,
                                                        gen8,
                                                        optn,
                                                        extn,
                                                        sond,
                                                        agrp,
                                                        sprt,
                                                        bgnd,
                                                        path,
                                                        scpt,
                                                        shdr,
                                                        font,
                                                    ),
                                                },
                                            },
                                        },
                                    },
                                },
                            },
                        },
                    },
                },
            },
        }
    }
}

/// Continues [`parse_form`] from the `TMLN` chunk on.
pub open spec fn parse_form_tail(
    b: Seq<u8>,
    pos: int,
    gen8: Seq<u8>,
    optn: Seq<u8>,
    extn: Seq<u8>,
    sond: Seq<u8>,
    agrp: Option<Seq<u8>>,
    sprt: Seq<u8>,
    bgnd: Seq<u8>,
    path: Seq<u8>,
    scpt: Seq<u8>,
    shdr: Seq<u8>,
    font: Seq<u8>,
) -> Option<(PseudoIffView, int)> {
    match parse_chunk_at(b, pos, TAG_TMLN) {
        None => None,
        Some((tmln, p)) => match parse_chunk_at(b, p, TAG_OBJT) {
            None => None,
            Some((objt, p)) => match parse_chunk_at(b, p, TAG_ROOM) {
                None => None,
                Some((room, p)) => match parse_chunk_at(b, p, TAG_DAFL) {
                    None => None,
                    Some((dafl, p)) => match parse_chunk_at(b, p, TAG_TPAG) {
                        None => None,
                        Some((tpag, p)) => match parse_chunk_at(b, p, TAG_CODE) {
                            None => None,
                            Some((code, p)) => match parse_chunk_at(b, p, TAG_VARI) {
                                None => None,
                                Some((vari, p)) => match parse_chunk_at(b, p, TAG_FUNC) {
                                    None => None,
                                    Some((func, p)) => match parse_chunk_at(b, p, TAG_STRG) {
                                        None => None,
                                        Some((strg, p)) => match parse_chunk_at(b, p, TAG_TXTR) {
                                            None => None,
                                            Some((txtr, p)) => match parse_chunk_at(
                                                b,
                                                p,
                                                TAG_AUDO,
                                            ) {
                                                None => None,
                                                Some((audo, p)) => match parse_opt_chunk_at(
                                                    b,
                                                    p,
                                                    TAG_LANG,
                                                ) {
                                                    None => None,
                                                    Some((lang, p)) => match parse_opt_chunk_at(
                                                        b,
                                                        p,
                                                        TAG_GLOB,
                                                    ) {
                                                        None => None,
                                                        Some((glob, p)) => Some(
                                                            (
                                                                PseudoIffView {
                                                                    gen8,
                                                                    optn,
                                                                    extn,
                                                                    sond,
                                                                    agrp,
                                                                    sprt,
                                                                    bgnd,
                                                                    path,
                                                                    scpt,
                                                                    shdr,
                                                                    font,
                                                                    tmln,
                                                                    objt,
                                                                    room,
                                                                    dafl,
                                                                    tpag,
                                                                    code,
                                                                    vari,
                                                                    func,
                                                                    strg,
                                                                    txtr,
                                                                    audo,
                                                                    lang,
                                                                    glob,
                                                                },
                                                                p,
                                                            ),
                                                        ),
                                                    },
                                                },
                                            },
                                        },
                                    },
                                },
                            },
                        },
                    },
                },
            },
        },
    }
}

/// Reads the root `FORM` header.  Its length field is read and discarded:
/// the true content length is whatever follows.
pub fn read_form_chunk(r: &mut Reader) -> (res: Result<(), ReadError>)
    requires
        old(r).wf(),
    ensures
        final(r).data == old(r).data,
        final(r).wf(),
        match res {
            Ok(()) => {
                &&& old(r).pos + 8 <= old(r).data@.len()
                &&& final(r).pos == old(r).pos + 8
                &&& spec_u32_from_le_bytes(
                    old(r).data@.subrange(old(r).pos as int, old(r).pos + 4),
                ) == TAG_FORM
            },
            Err(e) => {
                &&& !(old(r).pos + 8 <= old(r).data@.len() && spec_u32_from_le_bytes(
                    old(r).data@.subrange(old(r).pos as int, old(r).pos + 4),
                ) == TAG_FORM)
                &&& (e is UnexpectedEof || e is UnexpectedChunk)
            },
        },
{
    proof {
        lemma_auto_spec_u32_to_from_le_bytes();
    }
    let ghost start = r.pos as int;
    match get_chunk_header(r, TAG_FORM) {
        Ok(_) => Ok(()),
        Err(e) => Err(e),
    }
}

/// Reads a required chunk with the given tag, yielding its raw content.
pub fn read_chunk(r: &mut Reader, tag: u32) -> (res: Result<Vec<u8>, ReadError>)
    requires
        old(r).wf(),
    ensures
        final(r).data == old(r).data,
        final(r).wf(),
        match res {
            Ok(c) => parse_chunk_at(old(r).data@, old(r).pos as int, tag) == Some(
                (c@, final(r).pos as int),
            ),
            Err(e) => {
                &&& parse_chunk_at(old(r).data@, old(r).pos as int, tag) is None
                &&& (e is UnexpectedEof || e is UnexpectedChunk)
            },
        },
{
    proof {
        lemma_auto_spec_u32_to_from_le_bytes();
    }
    let ghost start = r.pos as int;
    let ghost b = r.data@;
    let h = match get_chunk_header(r, tag) {
        Ok(h) => h,
        Err(e) => {
            return Err(e);
        },
    };
    match r.read_bytes(h.size as usize) {
        Ok(c) => Ok(c),
        Err(e) => Err(e),
    }
}

/// Reads an optional chunk: absent when fewer than 4 bytes remain or the
/// next tag differs, in which case nothing is consumed.
pub fn read_opt_chunk(r: &mut Reader, tag: u32) -> (res: Result<Option<Vec<u8>>, ReadError>)
    requires
        old(r).wf(),
    ensures
        final(r).data == old(r).data,
        final(r).wf(),
        match res {
            Ok(c) => parse_opt_chunk_at(old(r).data@, old(r).pos as int, tag) == Some(
                (opt_bytes_view(c), final(r).pos as int),
            ),
            Err(e) => {
                &&& parse_opt_chunk_at(old(r).data@, old(r).pos as int, tag) is None
                &&& (e is UnexpectedEof || e is UnexpectedChunk)
            },
        },
{
    if r.remaining() < 4 {
        return Ok(None);
    }
    let start = r.tell();
    let t = match r.read_u32() {
        Ok(t) => t,
        Err(e) => {
            return Err(e);
        },
    };
    match r.seek(start) {
        Ok(()) => (),
        Err(e) => {
            return Err(e);
        },
    }
    if t != tag {
        return Ok(None);
    }
    match read_chunk(r, tag) {
        Ok(c) => Ok(Some(c)),
        Err(e) => Err(e),
    }
}

impl PseudoIff {
    /// Decodes a whole bundle from the reader's current position.
    ///
    /// Succeeds exactly when [`parse_form`] accepts the bytes there; the
    /// decoded value is the parse's result and the reader stops just past
    /// the last chunk.
    pub fn load(r: &mut Reader) -> (res: Result<PseudoIff, ReadError>)
        requires
            old(r).wf(),
        ensures
            final(r).data == old(r).data,
            final(r).wf(),
            match res {
                Ok(p) => parse_form(old(r).data@, old(r).pos as int) == Some(
                    (p@, final(r).pos as int),
                ),
                Err(e) => parse_form(old(r).data@, old(r).pos as int) is None,
            },
    {
        match read_form_chunk(r) {
            Ok(()) => (),
            Err(e) => {
                return Err(e);
            },
        }
        let gen8 = match read_chunk(r, TAG_GEN8) {
            Ok(c) => c,
            Err(e) => {
                return Err(e);
            },
        };
        let optn = match read_chunk(r, TAG_OPTN) {
            Ok(c) => c,
            Err(e) => {
                return Err(e);
            },
        };
        let extn = match read_chunk(r, TAG_EXTN) {
            Ok(c) => c,
            Err(e) => {
                return Err(e);
            },
        };
        let sond = match read_chunk(r, TAG_SOND) {
            Ok(c) => c,
            Err(e) => {
                return Err(e);
            },
        };
        let agrp = match read_opt_chunk(r, TAG_AGRP) {
            Ok(c) => c,
            Err(e) => {
                return Err(e);
            },
        };
        let sprt = match read_chunk(r, TAG_SPRT) {
            Ok(c) => c,
            Err(e) => {
                return Err(e);
            },
        };
        let bgnd = match read_chunk(r, TAG_BGND) {
            Ok(c) => c,
            Err(e) => {
                return Err(e);
            },
        };
        let path = match read_chunk(r, TAG_PATH) {
            Ok(c) => c,
            Err(e) => {
                return Err(e);
            },
        };
        let scpt = match read_chunk(r, TAG_SCPT) {
            Ok(c) => c,
            Err(e) => {
                return Err(e);
            },
        };
        let shdr = match read_chunk(r, TAG_SHDR) {
            Ok(c) => c,
            Err(e) => {
                return Err(e);
            },
        };
        let font = match read_chunk(r, TAG_FONT) {
            Ok(c) => c,
            Err(e) => {
                return Err(e);
            },
        };
        let tmln = match read_chunk(r, TAG_TMLN) {
            Ok(c) => c,
            Err(e) => {
                return Err(e);
            },
        };
        let objt = match read_chunk(r, TAG_OBJT) {
            Ok(c) => c,
            Err(e) => {
                return Err(e);
            },
        };
        let room = match read_chunk(r, TAG_ROOM) {
            Ok(c) => c,
            Err(e) => {
                return Err(e);
            },
        };
        let dafl = match read_chunk(r, TAG_DAFL) {
            Ok(c) => c,
            Err(e) => {
                return Err(e);
            },
        };
        let tpag = match read_chunk(r, TAG_TPAG) {
            Ok(c) => c,
            Err(e) => {
                return Err(e);
            },
        };
        let code = match read_chunk(r, TAG_CODE) {
            Ok(c) => c,
            Err(e) => {
                return Err(e);
            },
        };
        let vari = match read_chunk(r, TAG_VARI) {
            Ok(c) => c,
            Err(e) => {
                return Err(e);
            },
        };
        let func = match read_chunk(r, TAG_FUNC) {
            Ok(c) => c,
            Err(e) => {
                return Err(e);
            },
        };
        let strg = match read_chunk(r, TAG_STRG) {
            Ok(c) => c,
            Err(e) => {
                return Err(e);
            },
        };
        let txtr = match read_chunk(r, TAG_TXTR) {
            Ok(c) => c,
            Err(e) => {
                return Err(e);
            },
        };
        let audo = match read_chunk(r, TAG_AUDO) {
            Ok(c) => c,
            Err(e) => {
                return Err(e);
            },
        };
        let lang = match read_opt_chunk(r, TAG_LANG) {
            Ok(c) => c,
            Err(e) => {
                return Err(e);
            },
        };
        let glob = match read_opt_chunk(r, TAG_GLOB) {
            Ok(c) => c,
            Err(e) => {
                return Err(e);
            },
        };
        Ok(
            PseudoIff {
                gen8,
                optn,
                extn,
                sond,
                agrp,
                sprt,
                bgnd,
                path,
                scpt,
                shdr,
                font,
                tmln,
                objt,
                room,
                dafl,
                tpag,
                code,
                vari,
                func,
                strg,
                txtr,
                audo,
                lang,
                glob,
            },
        )
    }
}

/// Adds the full size of one more chunk (8 header bytes plus content) to a
/// running total, refusing a content that overruns the 32-bit length field.
fn checked_chunk_total(total: u64, content: &Vec<u8>) -> (res: Result<u64, WriteError>)
    requires
        total <= 0x100_0000_0000,
    ensures
        match res {
            Ok(t) => t == total + 8 + content@.len() && content@.len() <= u32::MAX,
            Err(e) => e == WriteError::TooLarge && content@.len() > u32::MAX,
        },
{
    if content.len() > u32::MAX as usize {
        Err(WriteError::TooLarge)
    } else {
        Ok(total + 8 + content.len() as u64)
    }
}

impl PseudoIff {
    /// The encoded size of the chunks `GEN8` through `PATH`.
    fn head_total(&self) -> (res: Result<u64, WriteError>)
        ensures
            match res {
                Ok(t) => self@.lens_ok_head() && t == form_content_head(self@).len() && t
                    <= 0x10_0000_0000,
                Err(e) => e == WriteError::TooLarge && !self@.lens_ok_head(),
            },
    {
        proof {
            lemma_auto_spec_u32_to_from_le_bytes();
        }
        let mut total: u64 = 0;
        total =
        match checked_chunk_total(total, &self.gen8) {
            Ok(t) => t,
            Err(e) => {
                return Err(e);
            },
        };
        total =
        match checked_chunk_total(total, &self.optn) {
            Ok(t) => t,
            Err(e) => {
                return Err(e);
            },
        };
        total =
        match checked_chunk_total(total, &self.extn) {
            Ok(t) => t,
            Err(e) => {
                return Err(e);
            },
        };
        total =
        match checked_chunk_total(total, &self.sond) {
            Ok(t) => t,
            Err(e) => {
                return Err(e);
            },
        };
        if let Some(data) = &self.agrp {
            total =
            match checked_chunk_total(total, data) {
                Ok(t) => t,
                Err(e) => {
                    return Err(e);
                },
            };
        }
        total =
        match checked_chunk_total(total, &self.sprt) {
            Ok(t) => t,
            Err(e) => {
                return Err(e);
            },
        };
        total =
        match checked_chunk_total(total, &self.bgnd) {
            Ok(t) => t,
            Err(e) => {
                return Err(e);
            },
        };
        total =
        match checked_chunk_total(total, &self.path) {
            Ok(t) => t,
            Err(e) => {
                return Err(e);
            },
        };
        Ok(total)
    }

    /// The encoded size of the chunks `SCPT` through `TPAG`.
    fn mid_total(&self) -> (res: Result<u64, WriteError>)
        ensures
            match res {
                Ok(t) => self@.lens_ok_mid() && t == form_content_mid(self@).len() && t
                    <= 0x10_0000_0000,
                Err(e) => e == WriteError::TooLarge && !self@.lens_ok_mid(),
            },
    {
        proof {
            lemma_auto_spec_u32_to_from_le_bytes();
        }
        let mut total: u64 = 0;
        total =
        match checked_chunk_total(total, &self.scpt) {
            Ok(t) => t,
            Err(e) => {
                return Err(e);
            },
        };
        total =
        match checked_chunk_total(total, &self.shdr) {
            Ok(t) => t,
            Err(e) => {
                return Err(e);
            },
        };
        total =
        match checked_chunk_total(total, &self.font) {
            Ok(t) => t,
            Err(e) => {
                return Err(e);
            },
        };
        total =
        match checked_chunk_total(total, &self.tmln) {
            Ok(t) => t,
            Err(e) => {
                return Err(e);
            },
        };
        total =
        match checked_chunk_total(total, &self.objt) {
            Ok(t) => t,
            Err(e) => {
                return Err(e);
            },
        };
        total =
        match checked_chunk_total(total, &self.room) {
            Ok(t) => t,
            Err(e) => {
                return Err(e);
            },
        };
        total =
        match checked_chunk_total(total, &self.dafl) {
            Ok(t) => t,
            Err(e) => {
                return Err(e);
            },
        };
        total =
        match checked_chunk_total(total, &self.tpag) {
            Ok(t) => t,
            Err(e) => {
                return Err(e);
            },
        };
        Ok(total)
    }

    /// The encoded size of the chunks `CODE` through `GLOB`.
    fn tail_total(&self) -> (res: Result<u64, WriteError>)
        ensures
            match res {
                Ok(t) => self@.lens_ok_tail() && t == form_content_tail(self@).len() && t
                    <= 0x10_0000_0000,
                Err(e) => e == WriteError::TooLarge && !self@.lens_ok_tail(),
            },
    {
        proof {
            lemma_auto_spec_u32_to_from_le_bytes();
        }
        let mut total: u64 = 0;
        total =
        match checked_chunk_total(total, &self.code) {
            Ok(t) => t,
            Err(e) => {
                return Err(e);
            },
        };
        total =
        match checked_chunk_total(total, &self.vari) {
            Ok(t) => t,
            Err(e) => {
                return Err(e);
            },
        };
        total =
        match checked_chunk_total(total, &self.func) {
            Ok(t) => t,
            Err(e) => {
                return Err(e);
            },
        };
        total =
        match checked_chunk_total(total, &self.strg) {
            Ok(t) => t,
            Err(e) => {
                return Err(e);
            },
        };
        total =
        match checked_chunk_total(total, &self.txtr) {
            Ok(t) => t,
            Err(e) => {
                return Err(e);
            },
        };
        total =
        match checked_chunk_total(total, &self.audo) {
            Ok(t) => t,
            Err(e) => {
                return Err(e);
            },
        };
        if let Some(data) = &self.lang {
            total =
            match checked_chunk_total(total, data) {
                Ok(t) => t,
                Err(e) => {
                    return Err(e);
                },
            };
        }
        if let Some(data) = &self.glob {
            total =
            match checked_chunk_total(total, data) {
                Ok(t) => t,
                Err(e) => {
                    return Err(e);
                },
            };
        }
        Ok(total)
    }

    /// The total size of the `FORM` content this bundle encodes to, checked
    /// against the 32-bit length fields of the format.
    fn content_total(&self) -> (res: Result<u64, WriteError>)
        ensures
            match res {
                Ok(t) => self@.wf() && t == form_content(self@).len(),
                Err(e) => e == WriteError::TooLarge && !self@.wf(),
            },
    {
        let head = match self.head_total() {
            Ok(t) => t,
            Err(e) => {
                return Err(e);
            },
        };
        let mid = match self.mid_total() {
            Ok(t) => t,
            Err(e) => {
                return Err(e);
            },
        };
        let tail = match self.tail_total() {
            Ok(t) => t,
            Err(e) => {
                return Err(e);
            },
        };
        let total = head + mid + tail;
        if total > u32::MAX as u64 {
            return Err(WriteError::TooLarge);
        }
        Ok(total)
    }

    /// Writes the chunks `GEN8` through `PATH`.
    fn save_head(&self, w: &mut Writer)
        requires
            self@.lens_ok_head(),
        ensures
            final(w).data@ == old(w).data@ + form_content_head(self@),
    {
        let ghost base = w.data@;
        let ghost mut acc: Seq<u8> = Seq::empty();
        proof {
            assert(w.data@ =~= base + acc);
        }
        write_chunk(w, TAG_GEN8, &self.gen8);
        proof {
            let c = chunk_bytes(TAG_GEN8, self@.gen8);
            assert(w.data@ =~= base + (acc + c));
            acc = acc + c;
        }
        write_chunk(w, TAG_OPTN, &self.optn);
        proof {
            let c = chunk_bytes(TAG_OPTN, self@.optn);
            assert(w.data@ =~= base + (acc + c));
            acc = acc + c;
        }
        write_chunk(w, TAG_EXTN, &self.extn);
        proof {
            let c = chunk_bytes(TAG_EXTN, self@.extn);
            assert(w.data@ =~= base + (acc + c));
            acc = acc + c;
        }
        write_chunk(w, TAG_SOND, &self.sond);
        proof {
            let c = chunk_bytes(TAG_SOND, self@.sond);
            assert(w.data@ =~= base + (acc + c));
            acc = acc + c;
        }
        if let Some(data) = &self.agrp {
            write_chunk(w, TAG_AGRP, data);
        }
        proof {
            let c = opt_chunk_bytes(TAG_AGRP, self@.agrp);
            assert(w.data@ =~= base + (acc + c));
            acc = acc + c;
        }
        write_chunk(w, TAG_SPRT, &self.sprt);
        proof {
            let c = chunk_bytes(TAG_SPRT, self@.sprt);
            assert(w.data@ =~= base + (acc + c));
            acc = acc + c;
        }
        write_chunk(w, TAG_BGND, &self.bgnd);
        proof {
            let c = chunk_bytes(TAG_BGND, self@.bgnd);
            assert(w.data@ =~= base + (acc + c));
            acc = acc + c;
        }
        write_chunk(w, TAG_PATH, &self.path);
        proof {
            let c = chunk_bytes(TAG_PATH, self@.path);
            assert(w.data@ =~= base + (acc + c));
            acc = acc + c;
            assert(acc =~= form_content_head(self@));
        }
    }

    /// Writes the chunks `SCPT` through `TPAG`.
    fn save_mid(&self, w: &mut Writer)
        requires
            self@.lens_ok_mid(),
        ensures
            final(w).data@ == old(w).data@ + form_content_mid(self@),
    {
        let ghost base = w.data@;
        let ghost mut acc: Seq<u8> = Seq::empty();
        proof {
            assert(w.data@ =~= base + acc);
        }
        write_chunk(w, TAG_SCPT, &self.scpt);
        proof {
            let c = chunk_bytes(TAG_SCPT, self@.scpt);
            assert(w.data@ =~= base + (acc + c));
            acc = acc + c;
        }
        write_chunk(w, TAG_SHDR, &self.shdr);
        proof {
            let c = chunk_bytes(TAG_SHDR, self@.shdr);
            assert(w.data@ =~= base + (acc + c));
            acc = acc + c;
        }
        write_chunk(w, TAG_FONT, &self.font);
        proof {
            let c = chunk_bytes(TAG_FONT, self@.font);
            assert(w.data@ =~= base + (acc + c));
            acc = acc + c;
        }
        write_chunk(w, TAG_TMLN, &self.tmln);
        proof {
            let c = chunk_bytes(TAG_TMLN, self@.tmln);
            assert(w.data@ =~= base + (acc + c));
            acc = acc + c;
        }
        write_chunk(w, TAG_OBJT, &self.objt);
        proof {
            let c = chunk_bytes(TAG_OBJT, self@.objt);
            assert(w.data@ =~= base + (acc + c));
            acc = acc + c;
        }
        write_chunk(w, TAG_ROOM, &self.room);
        proof {
            let c = chunk_bytes(TAG_ROOM, self@.room);
            assert(w.data@ =~= base + (acc + c));
            acc = acc + c;
        }
        write_chunk(w, TAG_DAFL, &self.dafl);
        proof {
            let c = chunk_bytes(TAG_DAFL, self@.dafl);
            assert(w.data@ =~= base + (acc + c));
            acc = acc + c;
        }
        write_chunk(w, TAG_TPAG, &self.tpag);
        proof {
            let c = chunk_bytes(TAG_TPAG, self@.tpag);
            assert(w.data@ =~= base + (acc + c));
            acc = acc + c;
            assert(acc =~= form_content_mid(self@));
        }
    }

    /// Writes the chunks `CODE` through `GLOB`.
    fn save_tail(&self, w: &mut Writer)
        requires
            self@.lens_ok_tail(),
        ensures
            final(w).data@ == old(w).data@ + form_content_tail(self@),
    {
        let ghost base = w.data@;
        let ghost mut acc: Seq<u8> = Seq::empty();
        proof {
            assert(w.data@ =~= base + acc);
        }
        write_chunk(w, TAG_CODE, &self.code);
        proof {
            let c = chunk_bytes(TAG_CODE, self@.code);
            assert(w.data@ =~= base + (acc + c));
            acc = acc + c;
        }
        write_chunk(w, TAG_VARI, &self.vari);
        proof {
            let c = chunk_bytes(TAG_VARI, self@.vari);
            assert(w.data@ =~= base + (acc + c));
            acc = acc + c;
        }
        write_chunk(w, TAG_FUNC, &self.func);
        proof {
            let c = chunk_bytes(TAG_FUNC, self@.func);
            assert(w.data@ =~= base + (acc + c));
            acc = acc + c;
        }
        write_chunk(w, TAG_STRG, &self.strg);
        proof {
            let c = chunk_bytes(TAG_STRG, self@.strg);
            assert(w.data@ =~= base + (acc + c));
            acc = acc + c;
        }
        write_chunk(w, TAG_TXTR, &self.txtr);
        proof {
            let c = chunk_bytes(TAG_TXTR, self@.txtr);
            assert(w.data@ =~= base + (acc + c));
            acc = acc + c;
        }
        write_chunk(w, TAG_AUDO, &self.audo);
        proof {
            let c = chunk_bytes(TAG_AUDO, self@.audo);
            assert(w.data@ =~= base + (acc + c));
            acc = acc + c;
        }
        if let Some(data) = &self.lang {
            write_chunk(w, TAG_LANG, data);
        }
        proof {
            let c = opt_chunk_bytes(TAG_LANG, self@.lang);
            assert(w.data@ =~= base + (acc + c));
            acc = acc + c;
        }
        if let Some(data) = &self.glob {
            write_chunk(w, TAG_GLOB, data);
        }
        proof {
            let c = opt_chunk_bytes(TAG_GLOB, self@.glob);
            assert(w.data@ =~= base + (acc + c));
            acc = acc + c;
            assert(acc =~= form_content_tail(self@));
        }
    }

    /// Encodes the bundle, appending its bytes to the writer.
    ///
    /// Succeeds exactly when every chunk, and the whole content, fits the
    /// 32-bit length fields; nothing is written on failure.  The emitted
    /// `FORM` length is the recomputed size of the emitted children.
    pub fn save(&self, w: &mut Writer) -> (res: Result<(), WriteError>)
        ensures
            match res {
                Ok(()) => {
                    &&& self@.wf()
                    &&& final(w).data@ == old(w).data@ + form_bytes(self@)
                },
                Err(e) => {
                    &&& e == WriteError::TooLarge
                    &&& !self@.wf()
                    &&& final(w).data@ == old(w).data@
                },
            },
    {
        proof {
            lemma_auto_spec_u32_to_from_le_bytes();
        }
        let total = match self.content_total() {
            Ok(t) => t,
            Err(e) => {
                return Err(e);
            },
        };
        let ghost base = w.data@;
        write_chunk_header(w, TAG_FORM, total as u32);
        let ghost hdr = chunk_header_bytes(TAG_FORM, form_content(self@).len() as u32);
        self.save_head(w);
        proof {
            assert(w.data@ =~= base + hdr + form_content_head(self@));
        }
        self.save_mid(w);
        proof {
            assert(w.data@ =~= base + hdr + (form_content_head(self@) + form_content_mid(self@)));
        }
        self.save_tail(w);
        proof {
            assert(w.data@ =~= base + hdr + ((form_content_head(self@) + form_content_mid(self@))
                + form_content_tail(self@)));
            assert(w.data@ =~= base + form_bytes(self@));
        }
        Ok(())
    }
}

/// Round trip: a bundle decoded from a buffer re-encodes byte-identically
/// to that buffer, provided the buffer's root `FORM` length field was exact
/// (it is the one field decoding discards) and the parse consumed the whole
/// buffer.  Every chunk's bytes, known and unknown alike, are preserved
/// verbatim.
#[verifier::rlimit(100)]
#[verifier::spinoff_prover]
pub proof fn lemma_form_round_trip(b: Seq<u8>, v: PseudoIffView, end: int)
    requires
        parse_form(b, 0) == Some((v, end)),
        end == b.len(),
        b.len() <= u32::MAX + 8,
        spec_u32_from_le_bytes(b.subrange(4, 8)) == (b.len() - 8) as u32,
    ensures
        form_bytes(v) == b,
{
    lemma_auto_spec_u32_to_from_le_bytes();
    let p0: int = 8;
    let p1 = p0 + 8 + v.gen8.len();
    assert(parse_chunk_at(b, p0, TAG_GEN8) == Some((v.gen8, p1)));
    lemma_chunk_exact(b, p0, TAG_GEN8, v.gen8, p1);
    let p2 = p1 + 8 + v.optn.len();
    assert(parse_chunk_at(b, p1, TAG_OPTN) == Some((v.optn, p2)));
    lemma_chunk_exact(b, p1, TAG_OPTN, v.optn, p2);
    assert(b.subrange(p0, p2) =~= b.subrange(p0, p1) + b.subrange(p1, p2));
    let p3 = p2 + 8 + v.extn.len();
    assert(parse_chunk_at(b, p2, TAG_EXTN) == Some((v.extn, p3)));
    lemma_chunk_exact(b, p2, TAG_EXTN, v.extn, p3);
    assert(b.subrange(p0, p3) =~= b.subrange(p0, p2) + b.subrange(p2, p3));
    let p4 = p3 + 8 + v.sond.len();
    assert(parse_chunk_at(b, p3, TAG_SOND) == Some((v.sond, p4)));
    lemma_chunk_exact(b, p3, TAG_SOND, v.sond, p4);
    assert(b.subrange(p0, p4) =~= b.subrange(p0, p3) + b.subrange(p3, p4));
    let p5 = p4 + (match v.agrp {
        Some(c) => 8 + c.len() as int,
        None => 0,
    });
    assert(parse_opt_chunk_at(b, p4, TAG_AGRP) == Some((v.agrp, p5)));
    lemma_opt_chunk_exact(b, p4, TAG_AGRP, v.agrp, p5);
    assert(b.subrange(p0, p5) =~= b.subrange(p0, p4) + b.subrange(p4, p5));
    let p6 = p5 + 8 + v.sprt.len();
    assert(parse_chunk_at(b, p5, TAG_SPRT) == Some((v.sprt, p6)));
    lemma_chunk_exact(b, p5, TAG_SPRT, v.sprt, p6);
    assert(b.subrange(p0, p6) =~= b.subrange(p0, p5) + b.subrange(p5, p6));
    let p7 = p6 + 8 + v.bgnd.len();
    assert(parse_chunk_at(b, p6, TAG_BGND) == Some((v.bgnd, p7)));
    lemma_chunk_exact(b, p6, TAG_BGND, v.bgnd, p7);
    assert(b.subrange(p0, p7) =~= b.subrange(p0, p6) + b.subrange(p6, p7));
    let p8 = p7 + 8 + v.path.len();
    assert(parse_chunk_at(b, p7, TAG_PATH) == Some((v.path, p8)));
    lemma_chunk_exact(b, p7, TAG_PATH, v.path, p8);
    assert(b.subrange(p0, p8) =~= b.subrange(p0, p7) + b.subrange(p7, p8));
    assert(b.subrange(p0, p8) == form_content_head(v));
    let p9 = p8 + 8 + v.scpt.len();
    assert(parse_chunk_at(b, p8, TAG_SCPT) == Some((v.scpt, p9)));
    lemma_chunk_exact(b, p8, TAG_SCPT, v.scpt, p9);
    let p10 = p9 + 8 + v.shdr.len();
    assert(parse_chunk_at(b, p9, TAG_SHDR) == Some((v.shdr, p10)));
    lemma_chunk_exact(b, p9, TAG_SHDR, v.shdr, p10);
    assert(b.subrange(p8, p10) =~= b.subrange(p8, p9) + b.subrange(p9, p10));
    let p11 = p10 + 8 + v.font.len();
    assert(parse_chunk_at(b, p10, TAG_FONT) == Some((v.font, p11)));
    lemma_chunk_exact(b, p10, TAG_FONT, v.font, p11);
    assert(b.subrange(p8, p11) =~= b.subrange(p8, p10) + b.subrange(p10, p11));
    assert(parse_form_tail(
        b,
        p11,
        v.gen8,
        v.optn,
        v.extn,
        v.sond,
        v.agrp,
        v.sprt,
        v.bgnd,
        v.path,
        v.scpt,
        v.shdr,
        v.font,
    ) == Some((v, end)));
    let p12 = p11 + 8 + v.tmln.len();
    assert(parse_chunk_at(b, p11, TAG_TMLN) == Some((v.tmln, p12)));
    lemma_chunk_exact(b, p11, TAG_TMLN, v.tmln, p12);
    assert(b.subrange(p8, p12) =~= b.subrange(p8, p11) + b.subrange(p11, p12));
    let p13 = p12 + 8 + v.objt.len();
    assert(parse_chunk_at(b, p12, TAG_OBJT) == Some((v.objt, p13)));
    lemma_chunk_exact(b, p12, TAG_OBJT, v.objt, p13);
    assert(b.subrange(p8, p13) =~= b.subrange(p8, p12) + b.subrange(p12, p13));
    let p14 = p13 + 8 + v.room.len();
    assert(parse_chunk_at(b, p13, TAG_ROOM) == Some((v.room, p14)));
    lemma_chunk_exact(b, p13, TAG_ROOM, v.room, p14);
    assert(b.subrange(p8, p14) =~= b.subrange(p8, p13) + b.subrange(p13, p14));
    let p15 = p14 + 8 + v.dafl.len();
    assert(parse_chunk_at(b, p14, TAG_DAFL) == Some((v.dafl, p15)));
    lemma_chunk_exact(b, p14, TAG_DAFL, v.dafl, p15);
    assert(b.subrange(p8, p15) =~= b.subrange(p8, p14) + b.subrange(p14, p15));
    let p16 = p15 + 8 + v.tpag.len();
    assert(parse_chunk_at(b, p15, TAG_TPAG) == Some((v.tpag, p16)));
    lemma_chunk_exact(b, p15, TAG_TPAG, v.tpag, p16);
    assert(b.subrange(p8, p16) =~= b.subrange(p8, p15) + b.subrange(p15, p16));
    assert(b.subrange(p8, p16) == form_content_mid(v));
    let p17 = p16 + 8 + v.code.len();
    assert(parse_chunk_at(b, p16, TAG_CODE) == Some((v.code, p17)));
    lemma_chunk_exact(b, p16, TAG_CODE, v.code, p17);
    let p18 = p17 + 8 + v.vari.len();
    assert(parse_chunk_at(b, p17, TAG_VARI) == Some((v.vari, p18)));
    lemma_chunk_exact(b, p17, TAG_VARI, v.vari, p18);
    assert(b.subrange(p16, p18) =~= b.subrange(p16, p17) + b.subrange(p17, p18));
    let p19 = p18 + 8 + v.func.len();
    assert(parse_chunk_at(b, p18, TAG_FUNC) == Some((v.func, p19)));
    lemma_chunk_exact(b, p18, TAG_FUNC, v.func, p19);
    assert(b.subrange(p16, p19) =~= b.subrange(p16, p18) + b.subrange(p18, p19));
    let p20 = p19 + 8 + v.strg.len();
    assert(parse_chunk_at(b, p19, TAG_STRG) == Some((v.strg, p20)));
    lemma_chunk_exact(b, p19, TAG_STRG, v.strg, p20);
    assert(b.subrange(p16, p20) =~= b.subrange(p16, p19) + b.subrange(p19, p20));
    let p21 = p20 + 8 + v.txtr.len();
    assert(parse_chunk_at(b, p20, TAG_TXTR) == Some((v.txtr, p21)));
    lemma_chunk_exact(b, p20, TAG_TXTR, v.txtr, p21);
    assert(b.subrange(p16, p21) =~= b.subrange(p16, p20) + b.subrange(p20, p21));
    let p22 = p21 + 8 + v.audo.len();
    assert(parse_chunk_at(b, p21, TAG_AUDO) == Some((v.audo, p22)));
    lemma_chunk_exact(b, p21, TAG_AUDO, v.audo, p22);
    assert(b.subrange(p16, p22) =~= b.subrange(p16, p21) + b.subrange(p21, p22));
    let p23 = p22 + (match v.lang {
        Some(c) => 8 + c.len() as int,
        None => 0,
    });
    assert(parse_opt_chunk_at(b, p22, TAG_LANG) == Some((v.lang, p23)));
    lemma_opt_chunk_exact(b, p22, TAG_LANG, v.lang, p23);
    assert(b.subrange(p16, p23) =~= b.subrange(p16, p22) + b.subrange(p22, p23));
    let p24 = p23 + (match v.glob {
        Some(c) => 8 + c.len() as int,
        None => 0,
    });
    assert(parse_opt_chunk_at(b, p23, TAG_GLOB) == Some((v.glob, p24)));
    lemma_opt_chunk_exact(b, p23, TAG_GLOB, v.glob, p24);
    assert(b.subrange(p16, p24) =~= b.subrange(p16, p23) + b.subrange(p23, p24));
    assert(b.subrange(p16, p24) == form_content_tail(v));
    assert(p24 == end);
    assert(b.subrange(p0, end) =~= b.subrange(p0, p8) + b.subrange(p8, p16) + b.subrange(
        p16,
        end,
    ));
    assert(b.subrange(p0, end) == form_content(v));
    assert(b.subrange(0, 4) == spec_u32_to_le_bytes(TAG_FORM));
    assert(b.subrange(4, 8) == spec_u32_to_le_bytes((b.len() - 8) as u32));
    assert((form_content(v).len() as u32) == (b.len() - 8) as u32);
    assert(b =~= b.subrange(0, 4) + b.subrange(4, 8) + b.subrange(p0, end));
    assert(form_bytes(v) == b);
}

/// A chunk whose bytes occupy a region of `b` parses back at that
/// region's start.
proof fn lemma_parse_chunk_region(b: Seq<u8>, pos: int, tag: u32, content: Seq<u8>)
    requires
        0 <= pos,
        pos + 8 + content.len() <= b.len(),
        content.len() <= u32::MAX,
        b.subrange(pos, pos + 8 + content.len()) == chunk_bytes(tag, content),
    ensures
        parse_chunk_at(b, pos, tag) == Some((content, pos + 8 + content.len())),
{
    lemma_auto_spec_u32_to_from_le_bytes();
    let region = b.subrange(pos, pos + 8 + content.len());
    assert(b.subrange(pos, pos + 4) =~= region.subrange(0, 4));
    assert(region.subrange(0, 4) =~= spec_u32_to_le_bytes(tag));
    assert(b.subrange(pos + 4, pos + 8) =~= region.subrange(4, 8));
    assert(region.subrange(4, 8) =~= spec_u32_to_le_bytes(content.len() as u32));
    assert(b.subrange(pos + 8, pos + 8 + content.len()) =~= region.subrange(
        8,
        8 + content.len() as int,
    ));
    assert(region.subrange(8, 8 + content.len() as int) =~= content);
}

/// Establishes, for the bytes a bundle encodes to, that the chunks
/// `GEN8` through `SOND` parse back at their positions.
#[verifier::rlimit(100)]
#[verifier::spinoff_prover]
proof fn lemma_parse_back_one(v: PseudoIffView, b: Seq<u8>)
    requires
        v.wf(),
        b == form_bytes(v),
    ensures
        parse_chunk_at(b, 8, TAG_GEN8) == Some((v.gen8, 8 + 8 + v.gen8.len() as int)),
        parse_chunk_at(b, 8 + 8 + v.gen8.len() as int, TAG_OPTN) == Some((v.optn, 8 + 8 + v.gen8.len() as int + 8 + v.optn.len() as int)),
        parse_chunk_at(b, 8 + 8 + v.gen8.len() as int + 8 + v.optn.len() as int, TAG_EXTN) == Some((v.extn, 8 + 8 + v.gen8.len() as int + 8 + v.optn.len() as int + 8 + v.extn.len() as int)),
        parse_chunk_at(b, 8 + 8 + v.gen8.len() as int + 8 + v.optn.len() as int + 8 + v.extn.len() as int, TAG_SOND) == Some((v.sond, 8 + 8 + v.gen8.len() as int + 8 + v.optn.len() as int + 8 + v.extn.len() as int + 8 + v.sond.len() as int)),
{
    lemma_auto_spec_u32_to_from_le_bytes();
    let p0: int = 8;
    assert(b.subrange(p0, p0 + 8 + v.gen8.len()) =~= chunk_bytes(TAG_GEN8, v.gen8));
    lemma_parse_chunk_region(b, p0, TAG_GEN8, v.gen8);
    let p1: int = 8 + 8 + v.gen8.len() as int;
    assert(b.subrange(p1, p1 + 8 + v.optn.len()) =~= chunk_bytes(TAG_OPTN, v.optn));
    lemma_parse_chunk_region(b, p1, TAG_OPTN, v.optn);
    let p2: int = 8 + 8 + v.gen8.len() as int + 8 + v.optn.len() as int;
    assert(b.subrange(p2, p2 + 8 + v.extn.len()) =~= chunk_bytes(TAG_EXTN, v.extn));
    lemma_parse_chunk_region(b, p2, TAG_EXTN, v.extn);
    let p3: int = 8 + 8 + v.gen8.len() as int + 8 + v.optn.len() as int + 8 + v.extn.len() as int;
    assert(b.subrange(p3, p3 + 8 + v.sond.len()) =~= chunk_bytes(TAG_SOND, v.sond));
    lemma_parse_chunk_region(b, p3, TAG_SOND, v.sond);
}

/// Establishes, for the bytes a bundle encodes to, that the chunks
/// `AGRP` through `PATH` parse back at their positions.
#[verifier::rlimit(100)]
#[verifier::spinoff_prover]
proof fn lemma_parse_back_two(v: PseudoIffView, b: Seq<u8>)
    requires
        v.wf(),
        b == form_bytes(v),
    ensures
        parse_opt_chunk_at(b, 8 + 8 + v.gen8.len() as int + 8 + v.optn.len() as int + 8 + v.extn.len() as int + 8 + v.sond.len() as int, TAG_AGRP) == Some((v.agrp, 8 + 8 + v.gen8.len() as int + 8 + v.optn.len() as int + 8 + v.extn.len() as int + 8 + v.sond.len() as int + opt_chunk_bytes(TAG_AGRP, v.agrp).len() as int)),
        parse_chunk_at(b, 8 + 8 + v.gen8.len() as int + 8 + v.optn.len() as int + 8 + v.extn.len() as int + 8 + v.sond.len() as int + opt_chunk_bytes(TAG_AGRP, v.agrp).len() as int, TAG_SPRT) == Some((v.sprt, 8 + 8 + v.gen8.len() as int + 8 + v.optn.len() as int + 8 + v.extn.len() as int + 8 + v.sond.len() as int + opt_chunk_bytes(TAG_AGRP, v.agrp).len() as int + 8 + v.sprt.len() as int)),
        parse_chunk_at(b, 8 + 8 + v.gen8.len() as int + 8 + v.optn.len() as int + 8 + v.extn.len() as int + 8 + v.sond.len() as int + opt_chunk_bytes(TAG_AGRP, v.agrp).len() as int + 8 + v.sprt.len() as int, TAG_BGND) == Some((v.bgnd, 8 + 8 + v.gen8.len() as int + 8 + v.optn.len() as int + 8 + v.extn.len() as int + 8 + v.sond.len() as int + opt_chunk_bytes(TAG_AGRP, v.agrp).len() as int + 8 + v.sprt.len() as int + 8 + v.bgnd.len() as int)),
        parse_chunk_at(b, 8 + 8 + v.gen8.len() as int + 8 + v.optn.len() as int + 8 + v.extn.len() as int + 8 + v.sond.len() as int + opt_chunk_bytes(TAG_AGRP, v.agrp).len() as int + 8 + v.sprt.len() as int + 8 + v.bgnd.len() as int, TAG_PATH) == Some((v.path, 8 + 8 + v.gen8.len() as int + 8 + v.optn.len() as int + 8 + v.extn.len() as int + 8 + v.sond.len() as int + opt_chunk_bytes(TAG_AGRP, v.agrp).len() as int + 8 + v.sprt.len() as int + 8 + v.bgnd.len() as int + 8 + v.path.len() as int)),
{
    lemma_auto_spec_u32_to_from_le_bytes();
    let p4: int = 8 + 8 + v.gen8.len() as int + 8 + v.optn.len() as int + 8 + v.extn.len() as int + 8 + v.sond.len() as int;
    match v.agrp {
        Some(c) => {
            assert(b.subrange(p4, p4 + 8 + c.len()) =~= chunk_bytes(TAG_AGRP, c));
            lemma_parse_chunk_region(b, p4, TAG_AGRP, c);
        },
        None => {
            assert(b.subrange(p4, p4 + 4) =~= spec_u32_to_le_bytes(TAG_SPRT));
        },
    }
    assert(parse_opt_chunk_at(b, 8 + 8 + v.gen8.len() as int + 8 + v.optn.len() as int + 8 + v.extn.len() as int + 8 + v.sond.len() as int, TAG_AGRP) == Some((v.agrp, 8 + 8 + v.gen8.len() as int + 8 + v.optn.len() as int + 8 + v.extn.len() as int + 8 + v.sond.len() as int + opt_chunk_bytes(TAG_AGRP, v.agrp).len() as int)));
    let p5: int = 8 + 8 + v.gen8.len() as int + 8 + v.optn.len() as int + 8 + v.extn.len() as int + 8 + v.sond.len() as int + opt_chunk_bytes(TAG_AGRP, v.agrp).len() as int;
    assert(b.subrange(p5, p5 + 8 + v.sprt.len()) =~= chunk_bytes(TAG_SPRT, v.sprt));
    lemma_parse_chunk_region(b, p5, TAG_SPRT, v.sprt);
    let p6: int = 8 + 8 + v.gen8.len() as int + 8 + v.optn.len() as int + 8 + v.extn.len() as int + 8 + v.sond.len() as int + opt_chunk_bytes(TAG_AGRP, v.agrp).len() as int + 8 + v.sprt.len() as int;
    assert(b.subrange(p6, p6 + 8 + v.bgnd.len()) =~= chunk_bytes(TAG_BGND, v.bgnd));
    lemma_parse_chunk_region(b, p6, TAG_BGND, v.bgnd);
    let p7: int = 8 + 8 + v.gen8.len() as int + 8 + v.optn.len() as int + 8 + v.extn.len() as int + 8 + v.sond.len() as int + opt_chunk_bytes(TAG_AGRP, v.agrp).len() as int + 8 + v.sprt.len() as int + 8 + v.bgnd.len() as int;
    assert(b.subrange(p7, p7 + 8 + v.path.len()) =~= chunk_bytes(TAG_PATH, v.path));
    lemma_parse_chunk_region(b, p7, TAG_PATH, v.path);
}

/// Establishes, for the bytes a bundle encodes to, that the chunks
/// `SCPT` through `TMLN` parse back at their positions.
#[verifier::rlimit(100)]
#[verifier::spinoff_prover]
proof fn lemma_parse_back_three(v: PseudoIffView, b: Seq<u8>)
    requires
        v.wf(),
        b == form_bytes(v),
    ensures
        parse_chunk_at(b, 8 + 8 + v.gen8.len() as int + 8 + v.optn.len() as int + 8 + v.extn.len() as int + 8 + v.sond.len() as int + opt_chunk_bytes(TAG_AGRP, v.agrp).len() as int + 8 + v.sprt.len() as int + 8 + v.bgnd.len() as int + 8 + v.path.len() as int, TAG_SCPT) == Some((v.scpt, 8 + 8 + v.gen8.len() as int + 8 + v.optn.len() as int + 8 + v.extn.len() as int + 8 + v.sond.len() as int + opt_chunk_bytes(TAG_AGRP, v.agrp).len() as int + 8 + v.sprt.len() as int + 8 + v.bgnd.len() as int + 8 + v.path.len() as int + 8 + v.scpt.len() as int)),
        parse_chunk_at(b, 8 + 8 + v.gen8.len() as int + 8 + v.optn.len() as int + 8 + v.extn.len() as int + 8 + v.sond.len() as int + opt_chunk_bytes(TAG_AGRP, v.agrp).len() as int + 8 + v.sprt.len() as int + 8 + v.bgnd.len() as int + 8 + v.path.len() as int + 8 + v.scpt.len() as int, TAG_SHDR) == Some((v.shdr, 8 + 8 + v.gen8.len() as int + 8 + v.optn.len() as int + 8 + v.extn.len() as int + 8 + v.sond.len() as int + opt_chunk_bytes(TAG_AGRP, v.agrp).len() as int + 8 + v.sprt.len() as int + 8 + v.bgnd.len() as int + 8 + v.path.len() as int + 8 + v.scpt.len() as int + 8 + v.shdr.len() as int)),
        parse_chunk_at(b, 8 + 8 + v.gen8.len() as int + 8 + v.optn.len() as int + 8 + v.extn.len() as int + 8 + v.sond.len() as int + opt_chunk_bytes(TAG_AGRP, v.agrp).len() as int + 8 + v.sprt.len() as int + 8 + v.bgnd.len() as int + 8 + v.path.len() as int + 8 + v.scpt.len() as int + 8 + v.shdr.len() as int, TAG_FONT) == Some((v.font, 8 + 8 + v.gen8.len() as int + 8 + v.optn.len() as int + 8 + v.extn.len() as int + 8 + v.sond.len() as int + opt_chunk_bytes(TAG_AGRP, v.agrp).len() as int + 8 + v.sprt.len() as int + 8 + v.bgnd.len() as int + 8 + v.path.len() as int + 8 + v.scpt.len() as int + 8 + v.shdr.len() as int + 8 + v.font.len() as int)),
        parse_chunk_at(b, 8 + 8 + v.gen8.len() as int + 8 + v.optn.len() as int + 8 + v.extn.len() as int + 8 + v.sond.len() as int + opt_chunk_bytes(TAG_AGRP, v.agrp).len() as int + 8 + v.sprt.len() as int + 8 + v.bgnd.len() as int + 8 + v.path.len() as int + 8 + v.scpt.len() as int + 8 + v.shdr.len() as int + 8 + v.font.len() as int, TAG_TMLN) == Some((v.tmln, 8 + 8 + v.gen8.len() as int + 8 + v.optn.len() as int + 8 + v.extn.len() as int + 8 + v.sond.len() as int + opt_chunk_bytes(TAG_AGRP, v.agrp).len() as int + 8 + v.sprt.len() as int + 8 + v.bgnd.len() as int + 8 + v.path.len() as int + 8 + v.scpt.len() as int + 8 + v.shdr.len() as int + 8 + v.font.len() as int + 8 + v.tmln.len() as int)),
{
    lemma_auto_spec_u32_to_from_le_bytes();
    let p8: int = 8 + 8 + v.gen8.len() as int + 8 + v.optn.len() as int + 8 + v.extn.len() as int + 8 + v.sond.len() as int + opt_chunk_bytes(TAG_AGRP, v.agrp).len() as int + 8 + v.sprt.len() as int + 8 + v.bgnd.len() as int + 8 + v.path.len() as int;
    assert(b.subrange(p8, p8 + 8 + v.scpt.len()) =~= chunk_bytes(TAG_SCPT, v.scpt));
    lemma_parse_chunk_region(b, p8, TAG_SCPT, v.scpt);
    let p9: int = 8 + 8 + v.gen8.len() as int + 8 + v.optn.len() as int + 8 + v.extn.len() as int + 8 + v.sond.len() as int + opt_chunk_bytes(TAG_AGRP, v.agrp).len() as int + 8 + v.sprt.len() as int + 8 + v.bgnd.len() as int + 8 + v.path.len() as int + 8 + v.scpt.len() as int;
    assert(b.subrange(p9, p9 + 8 + v.shdr.len()) =~= chunk_bytes(TAG_SHDR, v.shdr));
    lemma_parse_chunk_region(b, p9, TAG_SHDR, v.shdr);
    let p10: int = 8 + 8 + v.gen8.len() as int + 8 + v.optn.len() as int + 8 + v.extn.len() as int + 8 + v.sond.len() as int + opt_chunk_bytes(TAG_AGRP, v.agrp).len() as int + 8 + v.sprt.len() as int + 8 + v.bgnd.len() as int + 8 + v.path.len() as int + 8 + v.scpt.len() as int + 8 + v.shdr.len() as int;
    assert(b.subrange(p10, p10 + 8 + v.font.len()) =~= chunk_bytes(TAG_FONT, v.font));
    lemma_parse_chunk_region(b, p10, TAG_FONT, v.font);
    let p11: int = 8 + 8 + v.gen8.len() as int + 8 + v.optn.len() as int + 8 + v.extn.len() as int + 8 + v.sond.len() as int + opt_chunk_bytes(TAG_AGRP, v.agrp).len() as int + 8 + v.sprt.len() as int + 8 + v.bgnd.len() as int + 8 + v.path.len() as int + 8 + v.scpt.len() as int + 8 + v.shdr.len() as int + 8 + v.font.len() as int;
    assert(b.subrange(p11, p11 + 8 + v.tmln.len()) =~= chunk_bytes(TAG_TMLN, v.tmln));
    lemma_parse_chunk_region(b, p11, TAG_TMLN, v.tmln);
}

/// Establishes, for the bytes a bundle encodes to, that the chunks
/// `OBJT` through `TPAG` parse back at their positions.
#[verifier::rlimit(100)]
#[verifier::spinoff_prover]
proof fn lemma_parse_back_four(v: PseudoIffView, b: Seq<u8>)
    requires
        v.wf(),
        b == form_bytes(v),
    ensures
        parse_chunk_at(b, 8 + 8 + v.gen8.len() as int + 8 + v.optn.len() as int + 8 + v.extn.len() as int + 8 + v.sond.len() as int + opt_chunk_bytes(TAG_AGRP, v.agrp).len() as int + 8 + v.sprt.len() as int + 8 + v.bgnd.len() as int + 8 + v.path.len() as int + 8 + v.scpt.len() as int + 8 + v.shdr.len() as int + 8 + v.font.len() as int + 8 + v.tmln.len() as int, TAG_OBJT) == Some((v.objt, 8 + 8 + v.gen8.len() as int + 8 + v.optn.len() as int + 8 + v.extn.len() as int + 8 + v.sond.len() as int + opt_chunk_bytes(TAG_AGRP, v.agrp).len() as int + 8 + v.sprt.len() as int + 8 + v.bgnd.len() as int + 8 + v.path.len() as int + 8 + v.scpt.len() as int + 8 + v.shdr.len() as int + 8 + v.font.len() as int + 8 + v.tmln.len() as int + 8 + v.objt.len() as int)),
        parse_chunk_at(b, 8 + 8 + v.gen8.len() as int + 8 + v.optn.len() as int + 8 + v.extn.len() as int + 8 + v.sond.len() as int + opt_chunk_bytes(TAG_AGRP, v.agrp).len() as int + 8 + v.sprt.len() as int + 8 + v.bgnd.len() as int + 8 + v.path.len() as int + 8 + v.scpt.len() as int + 8 + v.shdr.len() as int + 8 + v.font.len() as int + 8 + v.tmln.len() as int + 8 + v.objt.len() as int, TAG_ROOM) == Some((v.room, 8 + 8 + v.gen8.len() as int + 8 + v.optn.len() as int + 8 + v.extn.len() as int + 8 + v.sond.len() as int + opt_chunk_bytes(TAG_AGRP, v.agrp).len() as int + 8 + v.sprt.len() as int + 8 + v.bgnd.len() as int + 8 + v.path.len() as int + 8 + v.scpt.len() as int + 8 + v.shdr.len() as int + 8 + v.font.len() as int + 8 + v.tmln.len() as int + 8 + v.objt.len() as int + 8 + v.room.len() as int)),
        parse_chunk_at(b, 8 + 8 + v.gen8.len() as int + 8 + v.optn.len() as int + 8 + v.extn.len() as int + 8 + v.sond.len() as int + opt_chunk_bytes(TAG_AGRP, v.agrp).len() as int + 8 + v.sprt.len() as int + 8 + v.bgnd.len() as int + 8 + v.path.len() as int + 8 + v.scpt.len() as int + 8 + v.shdr.len() as int + 8 + v.font.len() as int + 8 + v.tmln.len() as int + 8 + v.objt.len() as int + 8 + v.room.len() as int, TAG_DAFL) == Some((v.dafl, 8 + 8 + v.gen8.len() as int + 8 + v.optn.len() as int + 8 + v.extn.len() as int + 8 + v.sond.len() as int + opt_chunk_bytes(TAG_AGRP, v.agrp).len() as int + 8 + v.sprt.len() as int + 8 + v.bgnd.len() as int + 8 + v.path.len() as int + 8 + v.scpt.len() as int + 8 + v.shdr.len() as int + 8 + v.font.len() as int + 8 + v.tmln.len() as int + 8 + v.objt.len() as int + 8 + v.room.len() as int + 8 + v.dafl.len() as int)),
        parse_chunk_at(b, 8 + 8 + v.gen8.len() as int + 8 + v.optn.len() as int + 8 + v.extn.len() as int + 8 + v.sond.len() as int + opt_chunk_bytes(TAG_AGRP, v.agrp).len() as int + 8 + v.sprt.len() as int + 8 + v.bgnd.len() as int + 8 + v.path.len() as int + 8 + v.scpt.len() as int + 8 + v.shdr.len() as int + 8 + v.font.len() as int + 8 + v.tmln.len() as int + 8 + v.objt.len() as int + 8 + v.room.len() as int + 8 + v.dafl.len() as int, TAG_TPAG) == Some((v.tpag, 8 + 8 + v.gen8.len() as int + 8 + v.optn.len() as int + 8 + v.extn.len() as int + 8 + v.sond.len() as int + opt_chunk_bytes(TAG_AGRP, v.agrp).len() as int + 8 + v.sprt.len() as int + 8 + v.bgnd.len() as int + 8 + v.path.len() as int + 8 + v.scpt.len() as int + 8 + v.shdr.len() as int + 8 + v.font.len() as int + 8 + v.tmln.len() as int + 8 + v.objt.len() as int + 8 + v.room.len() as int + 8 + v.dafl.len() as int + 8 + v.tpag.len() as int)),
{
    lemma_auto_spec_u32_to_from_le_bytes();
    let p12: int = 8 + 8 + v.gen8.len() as int + 8 + v.optn.len() as int + 8 + v.extn.len() as int + 8 + v.sond.len() as int + opt_chunk_bytes(TAG_AGRP, v.agrp).len() as int + 8 + v.sprt.len() as int + 8 + v.bgnd.len() as int + 8 + v.path.len() as int + 8 + v.scpt.len() as int + 8 + v.shdr.len() as int + 8 + v.font.len() as int + 8 + v.tmln.len() as int;
    assert(b.subrange(p12, p12 + 8 + v.objt.len()) =~= chunk_bytes(TAG_OBJT, v.objt));
    lemma_parse_chunk_region(b, p12, TAG_OBJT, v.objt);
    let p13: int = 8 + 8 + v.gen8.len() as int + 8 + v.optn.len() as int + 8 + v.extn.len() as int + 8 + v.sond.len() as int + opt_chunk_bytes(TAG_AGRP, v.agrp).len() as int + 8 + v.sprt.len() as int + 8 + v.bgnd.len() as int + 8 + v.path.len() as int + 8 + v.scpt.len() as int + 8 + v.shdr.len() as int + 8 + v.font.len() as int + 8 + v.tmln.len() as int + 8 + v.objt.len() as int;
    assert(b.subrange(p13, p13 + 8 + v.room.len()) =~= chunk_bytes(TAG_ROOM, v.room));
    lemma_parse_chunk_region(b, p13, TAG_ROOM, v.room);
    let p14: int = 8 + 8 + v.gen8.len() as int + 8 + v.optn.len() as int + 8 + v.extn.len() as int + 8 + v.sond.len() as int + opt_chunk_bytes(TAG_AGRP, v.agrp).len() as int + 8 + v.sprt.len() as int + 8 + v.bgnd.len() as int + 8 + v.path.len() as int + 8 + v.scpt.len() as int + 8 + v.shdr.len() as int + 8 + v.font.len() as int + 8 + v.tmln.len() as int + 8 + v.objt.len() as int + 8 + v.room.len() as int;
    assert(b.subrange(p14, p14 + 8 + v.dafl.len()) =~= chunk_bytes(TAG_DAFL, v.dafl));
    lemma_parse_chunk_region(b, p14, TAG_DAFL, v.dafl);
    let p15: int = 8 + 8 + v.gen8.len() as int + 8 + v.optn.len() as int + 8 + v.extn.len() as int + 8 + v.sond.len() as int + opt_chunk_bytes(TAG_AGRP, v.agrp).len() as int + 8 + v.sprt.len() as int + 8 + v.bgnd.len() as int + 8 + v.path.len() as int + 8 + v.scpt.len() as int + 8 + v.shdr.len() as int + 8 + v.font.len() as int + 8 + v.tmln.len() as int + 8 + v.objt.len() as int + 8 + v.room.len() as int + 8 + v.dafl.len() as int;
    assert(b.subrange(p15, p15 + 8 + v.tpag.len()) =~= chunk_bytes(TAG_TPAG, v.tpag));
    lemma_parse_chunk_region(b, p15, TAG_TPAG, v.tpag);
}

/// Establishes, for the bytes a bundle encodes to, that the chunks
/// `CODE` through `STRG` parse back at their positions.
#[verifier::rlimit(100)]
#[verifier::spinoff_prover]
proof fn lemma_parse_back_five(v: PseudoIffView, b: Seq<u8>)
    requires
        v.wf(),
        b == form_bytes(v),
    ensures
        parse_chunk_at(b, 8 + 8 + v.gen8.len() as int + 8 + v.optn.len() as int + 8 + v.extn.len() as int + 8 + v.sond.len() as int + opt_chunk_bytes(TAG_AGRP, v.agrp).len() as int + 8 + v.sprt.len() as int + 8 + v.bgnd.len() as int + 8 + v.path.len() as int + 8 + v.scpt.len() as int + 8 + v.shdr.len() as int + 8 + v.font.len() as int + 8 + v.tmln.len() as int + 8 + v.objt.len() as int + 8 + v.room.len() as int + 8 + v.dafl.len() as int + 8 + v.tpag.len() as int, TAG_CODE) == Some((v.code, 8 + 8 + v.gen8.len() as int + 8 + v.optn.len() as int + 8 + v.extn.len() as int + 8 + v.sond.len() as int + opt_chunk_bytes(TAG_AGRP, v.agrp).len() as int + 8 + v.sprt.len() as int + 8 + v.bgnd.len() as int + 8 + v.path.len() as int + 8 + v.scpt.len() as int + 8 + v.shdr.len() as int + 8 + v.font.len() as int + 8 + v.tmln.len() as int + 8 + v.objt.len() as int + 8 + v.room.len() as int + 8 + v.dafl.len() as int + 8 + v.tpag.len() as int + 8 + v.code.len() as int)),
        parse_chunk_at(b, 8 + 8 + v.gen8.len() as int + 8 + v.optn.len() as int + 8 + v.extn.len() as int + 8 + v.sond.len() as int + opt_chunk_bytes(TAG_AGRP, v.agrp).len() as int + 8 + v.sprt.len() as int + 8 + v.bgnd.len() as int + 8 + v.path.len() as int + 8 + v.scpt.len() as int + 8 + v.shdr.len() as int + 8 + v.font.len() as int + 8 + v.tmln.len() as int + 8 + v.objt.len() as int + 8 + v.room.len() as int + 8 + v.dafl.len() as int + 8 + v.tpag.len() as int + 8 + v.code.len() as int, TAG_VARI) == Some((v.vari, 8 + 8 + v.gen8.len() as int + 8 + v.optn.len() as int + 8 + v.extn.len() as int + 8 + v.sond.len() as int + opt_chunk_bytes(TAG_AGRP, v.agrp).len() as int + 8 + v.sprt.len() as int + 8 + v.bgnd.len() as int + 8 + v.path.len() as int + 8 + v.scpt.len() as int + 8 + v.shdr.len() as int + 8 + v.font.len() as int + 8 + v.tmln.len() as int + 8 + v.objt.len() as int + 8 + v.room.len() as int + 8 + v.dafl.len() as int + 8 + v.tpag.len() as int + 8 + v.code.len() as int + 8 + v.vari.len() as int)),
        parse_chunk_at(b, 8 + 8 + v.gen8.len() as int + 8 + v.optn.len() as int + 8 + v.extn.len() as int + 8 + v.sond.len() as int + opt_chunk_bytes(TAG_AGRP, v.agrp).len() as int + 8 + v.sprt.len() as int + 8 + v.bgnd.len() as int + 8 + v.path.len() as int + 8 + v.scpt.len() as int + 8 + v.shdr.len() as int + 8 + v.font.len() as int + 8 + v.tmln.len() as int + 8 + v.objt.len() as int + 8 + v.room.len() as int + 8 + v.dafl.len() as int + 8 + v.tpag.len() as int + 8 + v.code.len() as int + 8 + v.vari.len() as int, TAG_FUNC) == Some((v.func, 8 + 8 + v.gen8.len() as int + 8 + v.optn.len() as int + 8 + v.extn.len() as int + 8 + v.sond.len() as int + opt_chunk_bytes(TAG_AGRP, v.agrp).len() as int + 8 + v.sprt.len() as int + 8 + v.bgnd.len() as int + 8 + v.path.len() as int + 8 + v.scpt.len() as int + 8 + v.shdr.len() as int + 8 + v.font.len() as int + 8 + v.tmln.len() as int + 8 + v.objt.len() as int + 8 + v.room.len() as int + 8 + v.dafl.len() as int + 8 + v.tpag.len() as int + 8 + v.code.len() as int + 8 + v.vari.len() as int + 8 + v.func.len() as int)),
        parse_chunk_at(b, 8 + 8 + v.gen8.len() as int + 8 + v.optn.len() as int + 8 + v.extn.len() as int + 8 + v.sond.len() as int + opt_chunk_bytes(TAG_AGRP, v.agrp).len() as int + 8 + v.sprt.len() as int + 8 + v.bgnd.len() as int + 8 + v.path.len() as int + 8 + v.scpt.len() as int + 8 + v.shdr.len() as int + 8 + v.font.len() as int + 8 + v.tmln.len() as int + 8 + v.objt.len() as int + 8 + v.room.len() as int + 8 + v.dafl.len() as int + 8 + v.tpag.len() as int + 8 + v.code.len() as int + 8 + v.vari.len() as int + 8 + v.func.len() as int, TAG_STRG) == Some((v.strg, 8 + 8 + v.gen8.len() as int + 8 + v.optn.len() as int + 8 + v.extn.len() as int + 8 + v.sond.len() as int + opt_chunk_bytes(TAG_AGRP, v.agrp).len() as int + 8 + v.sprt.len() as int + 8 + v.bgnd.len() as int + 8 + v.path.len() as int + 8 + v.scpt.len() as int + 8 + v.shdr.len() as int + 8 + v.font.len() as int + 8 + v.tmln.len() as int + 8 + v.objt.len() as int + 8 + v.room.len() as int + 8 + v.dafl.len() as int + 8 + v.tpag.len() as int + 8 + v.code.len() as int + 8 + v.vari.len() as int + 8 + v.func.len() as int + 8 + v.strg.len() as int)),
{
    lemma_auto_spec_u32_to_from_le_bytes();
    let p16: int = 8 + 8 + v.gen8.len() as int + 8 + v.optn.len() as int + 8 + v.extn.len() as int + 8 + v.sond.len() as int + opt_chunk_bytes(TAG_AGRP, v.agrp).len() as int + 8 + v.sprt.len() as int + 8 + v.bgnd.len() as int + 8 + v.path.len() as int + 8 + v.scpt.len() as int + 8 + v.shdr.len() as int + 8 + v.font.len() as int + 8 + v.tmln.len() as int + 8 + v.objt.len() as int + 8 + v.room.len() as int + 8 + v.dafl.len() as int + 8 + v.tpag.len() as int;
    assert(b.subrange(p16, p16 + 8 + v.code.len()) =~= chunk_bytes(TAG_CODE, v.code));
    lemma_parse_chunk_region(b, p16, TAG_CODE, v.code);
    let p17: int = 8 + 8 + v.gen8.len() as int + 8 + v.optn.len() as int + 8 + v.extn.len() as int + 8 + v.sond.len() as int + opt_chunk_bytes(TAG_AGRP, v.agrp).len() as int + 8 + v.sprt.len() as int + 8 + v.bgnd.len() as int + 8 + v.path.len() as int + 8 + v.scpt.len() as int + 8 + v.shdr.len() as int + 8 + v.font.len() as int + 8 + v.tmln.len() as int + 8 + v.objt.len() as int + 8 + v.room.len() as int + 8 + v.dafl.len() as int + 8 + v.tpag.len() as int + 8 + v.code.len() as int;
    assert(b.subrange(p17, p17 + 8 + v.vari.len()) =~= chunk_bytes(TAG_VARI, v.vari));
    lemma_parse_chunk_region(b, p17, TAG_VARI, v.vari);
    let p18: int = 8 + 8 + v.gen8.len() as int + 8 + v.optn.len() as int + 8 + v.extn.len() as int + 8 + v.sond.len() as int + opt_chunk_bytes(TAG_AGRP, v.agrp).len() as int + 8 + v.sprt.len() as int + 8 + v.bgnd.len() as int + 8 + v.path.len() as int + 8 + v.scpt.len() as int + 8 + v.shdr.len() as int + 8 + v.font.len() as int + 8 + v.tmln.len() as int + 8 + v.objt.len() as int + 8 + v.room.len() as int + 8 + v.dafl.len() as int + 8 + v.tpag.len() as int + 8 + v.code.len() as int + 8 + v.vari.len() as int;
    assert(b.subrange(p18, p18 + 8 + v.func.len()) =~= chunk_bytes(TAG_FUNC, v.func));
    lemma_parse_chunk_region(b, p18, TAG_FUNC, v.func);
    let p19: int = 8 + 8 + v.gen8.len() as int + 8 + v.optn.len() as int + 8 + v.extn.len() as int + 8 + v.sond.len() as int + opt_chunk_bytes(TAG_AGRP, v.agrp).len() as int + 8 + v.sprt.len() as int + 8 + v.bgnd.len() as int + 8 + v.path.len() as int + 8 + v.scpt.len() as int + 8 + v.shdr.len() as int + 8 + v.font.len() as int + 8 + v.tmln.len() as int + 8 + v.objt.len() as int + 8 + v.room.len() as int + 8 + v.dafl.len() as int + 8 + v.tpag.len() as int + 8 + v.code.len() as int + 8 + v.vari.len() as int + 8 + v.func.len() as int;
    assert(b.subrange(p19, p19 + 8 + v.strg.len()) =~= chunk_bytes(TAG_STRG, v.strg));
    lemma_parse_chunk_region(b, p19, TAG_STRG, v.strg);
}

/// Establishes, for the bytes a bundle encodes to, that the chunks
/// `TXTR` through `GLOB` parse back at their positions.
#[verifier::rlimit(100)]
#[verifier::spinoff_prover]
proof fn lemma_parse_back_six(v: PseudoIffView, b: Seq<u8>)
    requires
        v.wf(),
        b == form_bytes(v),
    ensures
        parse_chunk_at(b, 8 + 8 + v.gen8.len() as int + 8 + v.optn.len() as int + 8 + v.extn.len() as int + 8 + v.sond.len() as int + opt_chunk_bytes(TAG_AGRP, v.agrp).len() as int + 8 + v.sprt.len() as int + 8 + v.bgnd.len() as int + 8 + v.path.len() as int + 8 + v.scpt.len() as int + 8 + v.shdr.len() as int + 8 + v.font.len() as int + 8 + v.tmln.len() as int + 8 + v.objt.len() as int + 8 + v.room.len() as int + 8 + v.dafl.len() as int + 8 + v.tpag.len() as int + 8 + v.code.len() as int + 8 + v.vari.len() as int + 8 + v.func.len() as int + 8 + v.strg.len() as int, TAG_TXTR) == Some((v.txtr, 8 + 8 + v.gen8.len() as int + 8 + v.optn.len() as int + 8 + v.extn.len() as int + 8 + v.sond.len() as int + opt_chunk_bytes(TAG_AGRP, v.agrp).len() as int + 8 + v.sprt.len() as int + 8 + v.bgnd.len() as int + 8 + v.path.len() as int + 8 + v.scpt.len() as int + 8 + v.shdr.len() as int + 8 + v.font.len() as int + 8 + v.tmln.len() as int + 8 + v.objt.len() as int + 8 + v.room.len() as int + 8 + v.dafl.len() as int + 8 + v.tpag.len() as int + 8 + v.code.len() as int + 8 + v.vari.len() as int + 8 + v.func.len() as int + 8 + v.strg.len() as int + 8 + v.txtr.len() as int)),
        parse_chunk_at(b, 8 + 8 + v.gen8.len() as int + 8 + v.optn.len() as int + 8 + v.extn.len() as int + 8 + v.sond.len() as int + opt_chunk_bytes(TAG_AGRP, v.agrp).len() as int + 8 + v.sprt.len() as int + 8 + v.bgnd.len() as int + 8 + v.path.len() as int + 8 + v.scpt.len() as int + 8 + v.shdr.len() as int + 8 + v.font.len() as int + 8 + v.tmln.len() as int + 8 + v.objt.len() as int + 8 + v.room.len() as int + 8 + v.dafl.len() as int + 8 + v.tpag.len() as int + 8 + v.code.len() as int + 8 + v.vari.len() as int + 8 + v.func.len() as int + 8 + v.strg.len() as int + 8 + v.txtr.len() as int, TAG_AUDO) == Some((v.audo, 8 + 8 + v.gen8.len() as int + 8 + v.optn.len() as int + 8 + v.extn.len() as int + 8 + v.sond.len() as int + opt_chunk_bytes(TAG_AGRP, v.agrp).len() as int + 8 + v.sprt.len() as int + 8 + v.bgnd.len() as int + 8 + v.path.len() as int + 8 + v.scpt.len() as int + 8 + v.shdr.len() as int + 8 + v.font.len() as int + 8 + v.tmln.len() as int + 8 + v.objt.len() as int + 8 + v.room.len() as int + 8 + v.dafl.len() as int + 8 + v.tpag.len() as int + 8 + v.code.len() as int + 8 + v.vari.len() as int + 8 + v.func.len() as int + 8 + v.strg.len() as int + 8 + v.txtr.len() as int + 8 + v.audo.len() as int)),
        parse_opt_chunk_at(b, 8 + 8 + v.gen8.len() as int + 8 + v.optn.len() as int + 8 + v.extn.len() as int + 8 + v.sond.len() as int + opt_chunk_bytes(TAG_AGRP, v.agrp).len() as int + 8 + v.sprt.len() as int + 8 + v.bgnd.len() as int + 8 + v.path.len() as int + 8 + v.scpt.len() as int + 8 + v.shdr.len() as int + 8 + v.font.len() as int + 8 + v.tmln.len() as int + 8 + v.objt.len() as int + 8 + v.room.len() as int + 8 + v.dafl.len() as int + 8 + v.tpag.len() as int + 8 + v.code.len() as int + 8 + v.vari.len() as int + 8 + v.func.len() as int + 8 + v.strg.len() as int + 8 + v.txtr.len() as int + 8 + v.audo.len() as int, TAG_LANG) == Some((v.lang, 8 + 8 + v.gen8.len() as int + 8 + v.optn.len() as int + 8 + v.extn.len() as int + 8 + v.sond.len() as int + opt_chunk_bytes(TAG_AGRP, v.agrp).len() as int + 8 + v.sprt.len() as int + 8 + v.bgnd.len() as int + 8 + v.path.len() as int + 8 + v.scpt.len() as int + 8 + v.shdr.len() as int + 8 + v.font.len() as int + 8 + v.tmln.len() as int + 8 + v.objt.len() as int + 8 + v.room.len() as int + 8 + v.dafl.len() as int + 8 + v.tpag.len() as int + 8 + v.code.len() as int + 8 + v.vari.len() as int + 8 + v.func.len() as int + 8 + v.strg.len() as int + 8 + v.txtr.len() as int + 8 + v.audo.len() as int + opt_chunk_bytes(TAG_LANG, v.lang).len() as int)),
        parse_opt_chunk_at(b, 8 + 8 + v.gen8.len() as int + 8 + v.optn.len() as int + 8 + v.extn.len() as int + 8 + v.sond.len() as int + opt_chunk_bytes(TAG_AGRP, v.agrp).len() as int + 8 + v.sprt.len() as int + 8 + v.bgnd.len() as int + 8 + v.path.len() as int + 8 + v.scpt.len() as int + 8 + v.shdr.len() as int + 8 + v.font.len() as int + 8 + v.tmln.len() as int + 8 + v.objt.len() as int + 8 + v.room.len() as int + 8 + v.dafl.len() as int + 8 + v.tpag.len() as int + 8 + v.code.len() as int + 8 + v.vari.len() as int + 8 + v.func.len() as int + 8 + v.strg.len() as int + 8 + v.txtr.len() as int + 8 + v.audo.len() as int + opt_chunk_bytes(TAG_LANG, v.lang).len() as int, TAG_GLOB) == Some((v.glob, 8 + 8 + v.gen8.len() as int + 8 + v.optn.len() as int + 8 + v.extn.len() as int + 8 + v.sond.len() as int + opt_chunk_bytes(TAG_AGRP, v.agrp).len() as int + 8 + v.sprt.len() as int + 8 + v.bgnd.len() as int + 8 + v.path.len() as int + 8 + v.scpt.len() as int + 8 + v.shdr.len() as int + 8 + v.font.len() as int + 8 + v.tmln.len() as int + 8 + v.objt.len() as int + 8 + v.room.len() as int + 8 + v.dafl.len() as int + 8 + v.tpag.len() as int + 8 + v.code.len() as int + 8 + v.vari.len() as int + 8 + v.func.len() as int + 8 + v.strg.len() as int + 8 + v.txtr.len() as int + 8 + v.audo.len() as int + opt_chunk_bytes(TAG_LANG, v.lang).len() as int + opt_chunk_bytes(TAG_GLOB, v.glob).len() as int)),
{
    lemma_auto_spec_u32_to_from_le_bytes();
    let p20: int = 8 + 8 + v.gen8.len() as int + 8 + v.optn.len() as int + 8 + v.extn.len() as int + 8 + v.sond.len() as int + opt_chunk_bytes(TAG_AGRP, v.agrp).len() as int + 8 + v.sprt.len() as int + 8 + v.bgnd.len() as int + 8 + v.path.len() as int + 8 + v.scpt.len() as int + 8 + v.shdr.len() as int + 8 + v.font.len() as int + 8 + v.tmln.len() as int + 8 + v.objt.len() as int + 8 + v.room.len() as int + 8 + v.dafl.len() as int + 8 + v.tpag.len() as int + 8 + v.code.len() as int + 8 + v.vari.len() as int + 8 + v.func.len() as int + 8 + v.strg.len() as int;
    assert(b.subrange(p20, p20 + 8 + v.txtr.len()) =~= chunk_bytes(TAG_TXTR, v.txtr));
    lemma_parse_chunk_region(b, p20, TAG_TXTR, v.txtr);
    let p21: int = 8 + 8 + v.gen8.len() as int + 8 + v.optn.len() as int + 8 + v.extn.len() as int + 8 + v.sond.len() as int + opt_chunk_bytes(TAG_AGRP, v.agrp).len() as int + 8 + v.sprt.len() as int + 8 + v.bgnd.len() as int + 8 + v.path.len() as int + 8 + v.scpt.len() as int + 8 + v.shdr.len() as int + 8 + v.font.len() as int + 8 + v.tmln.len() as int + 8 + v.objt.len() as int + 8 + v.room.len() as int + 8 + v.dafl.len() as int + 8 + v.tpag.len() as int + 8 + v.code.len() as int + 8 + v.vari.len() as int + 8 + v.func.len() as int + 8 + v.strg.len() as int + 8 + v.txtr.len() as int;
    assert(b.subrange(p21, p21 + 8 + v.audo.len()) =~= chunk_bytes(TAG_AUDO, v.audo));
    lemma_parse_chunk_region(b, p21, TAG_AUDO, v.audo);
    let p22: int = 8 + 8 + v.gen8.len() as int + 8 + v.optn.len() as int + 8 + v.extn.len() as int + 8 + v.sond.len() as int + opt_chunk_bytes(TAG_AGRP, v.agrp).len() as int + 8 + v.sprt.len() as int + 8 + v.bgnd.len() as int + 8 + v.path.len() as int + 8 + v.scpt.len() as int + 8 + v.shdr.len() as int + 8 + v.font.len() as int + 8 + v.tmln.len() as int + 8 + v.objt.len() as int + 8 + v.room.len() as int + 8 + v.dafl.len() as int + 8 + v.tpag.len() as int + 8 + v.code.len() as int + 8 + v.vari.len() as int + 8 + v.func.len() as int + 8 + v.strg.len() as int + 8 + v.txtr.len() as int + 8 + v.audo.len() as int;
    match v.lang {
        Some(c) => {
            assert(b.subrange(p22, p22 + 8 + c.len()) =~= chunk_bytes(TAG_LANG, c));
            lemma_parse_chunk_region(b, p22, TAG_LANG, c);
        },
        None => {
            match v.glob {
                Some(c2) => {
                    assert(b.subrange(p22, p22 + 4) =~= spec_u32_to_le_bytes(TAG_GLOB));
                },
                None => {
                    assert(b.len() == 8 + 8 + v.gen8.len() as int + 8 + v.optn.len() as int + 8 + v.extn.len() as int + 8 + v.sond.len() as int + opt_chunk_bytes(TAG_AGRP, v.agrp).len() as int + 8 + v.sprt.len() as int + 8 + v.bgnd.len() as int + 8 + v.path.len() as int + 8 + v.scpt.len() as int + 8 + v.shdr.len() as int + 8 + v.font.len() as int + 8 + v.tmln.len() as int + 8 + v.objt.len() as int + 8 + v.room.len() as int + 8 + v.dafl.len() as int + 8 + v.tpag.len() as int + 8 + v.code.len() as int + 8 + v.vari.len() as int + 8 + v.func.len() as int + 8 + v.strg.len() as int + 8 + v.txtr.len() as int + 8 + v.audo.len() as int + opt_chunk_bytes(TAG_LANG, v.lang).len() as int + opt_chunk_bytes(TAG_GLOB, v.glob).len() as int);
                },
            }
        },
    }
    assert(parse_opt_chunk_at(b, 8 + 8 + v.gen8.len() as int + 8 + v.optn.len() as int + 8 + v.extn.len() as int + 8 + v.sond.len() as int + opt_chunk_bytes(TAG_AGRP, v.agrp).len() as int + 8 + v.sprt.len() as int + 8 + v.bgnd.len() as int + 8 + v.path.len() as int + 8 + v.scpt.len() as int + 8 + v.shdr.len() as int + 8 + v.font.len() as int + 8 + v.tmln.len() as int + 8 + v.objt.len() as int + 8 + v.room.len() as int + 8 + v.dafl.len() as int + 8 + v.tpag.len() as int + 8 + v.code.len() as int + 8 + v.vari.len() as int + 8 + v.func.len() as int + 8 + v.strg.len() as int + 8 + v.txtr.len() as int + 8 + v.audo.len() as int, TAG_LANG) == Some((v.lang, 8 + 8 + v.gen8.len() as int + 8 + v.optn.len() as int + 8 + v.extn.len() as int + 8 + v.sond.len() as int + opt_chunk_bytes(TAG_AGRP, v.agrp).len() as int + 8 + v.sprt.len() as int + 8 + v.bgnd.len() as int + 8 + v.path.len() as int + 8 + v.scpt.len() as int + 8 + v.shdr.len() as int + 8 + v.font.len() as int + 8 + v.tmln.len() as int + 8 + v.objt.len() as int + 8 + v.room.len() as int + 8 + v.dafl.len() as int + 8 + v.tpag.len() as int + 8 + v.code.len() as int + 8 + v.vari.len() as int + 8 + v.func.len() as int + 8 + v.strg.len() as int + 8 + v.txtr.len() as int + 8 + v.audo.len() as int + opt_chunk_bytes(TAG_LANG, v.lang).len() as int)));
    let p23: int = 8 + 8 + v.gen8.len() as int + 8 + v.optn.len() as int + 8 + v.extn.len() as int + 8 + v.sond.len() as int + opt_chunk_bytes(TAG_AGRP, v.agrp).len() as int + 8 + v.sprt.len() as int + 8 + v.bgnd.len() as int + 8 + v.path.len() as int + 8 + v.scpt.len() as int + 8 + v.shdr.len() as int + 8 + v.font.len() as int + 8 + v.tmln.len() as int + 8 + v.objt.len() as int + 8 + v.room.len() as int + 8 + v.dafl.len() as int + 8 + v.tpag.len() as int + 8 + v.code.len() as int + 8 + v.vari.len() as int + 8 + v.func.len() as int + 8 + v.strg.len() as int + 8 + v.txtr.len() as int + 8 + v.audo.len() as int + opt_chunk_bytes(TAG_LANG, v.lang).len() as int;
    match v.glob {
        Some(c) => {
            assert(b.subrange(p23, p23 + 8 + c.len()) =~= chunk_bytes(TAG_GLOB, c));
            lemma_parse_chunk_region(b, p23, TAG_GLOB, c);
        },
        None => {
            assert(b.len() == 8 + 8 + v.gen8.len() as int + 8 + v.optn.len() as int + 8 + v.extn.len() as int + 8 + v.sond.len() as int + opt_chunk_bytes(TAG_AGRP, v.agrp).len() as int + 8 + v.sprt.len() as int + 8 + v.bgnd.len() as int + 8 + v.path.len() as int + 8 + v.scpt.len() as int + 8 + v.shdr.len() as int + 8 + v.font.len() as int + 8 + v.tmln.len() as int + 8 + v.objt.len() as int + 8 + v.room.len() as int + 8 + v.dafl.len() as int + 8 + v.tpag.len() as int + 8 + v.code.len() as int + 8 + v.vari.len() as int + 8 + v.func.len() as int + 8 + v.strg.len() as int + 8 + v.txtr.len() as int + 8 + v.audo.len() as int + opt_chunk_bytes(TAG_LANG, v.lang).len() as int + opt_chunk_bytes(TAG_GLOB, v.glob).len() as int);
        },
    }
    assert(parse_opt_chunk_at(b, 8 + 8 + v.gen8.len() as int + 8 + v.optn.len() as int + 8 + v.extn.len() as int + 8 + v.sond.len() as int + opt_chunk_bytes(TAG_AGRP, v.agrp).len() as int + 8 + v.sprt.len() as int + 8 + v.bgnd.len() as int + 8 + v.path.len() as int + 8 + v.scpt.len() as int + 8 + v.shdr.len() as int + 8 + v.font.len() as int + 8 + v.tmln.len() as int + 8 + v.objt.len() as int + 8 + v.room.len() as int + 8 + v.dafl.len() as int + 8 + v.tpag.len() as int + 8 + v.code.len() as int + 8 + v.vari.len() as int + 8 + v.func.len() as int + 8 + v.strg.len() as int + 8 + v.txtr.len() as int + 8 + v.audo.len() as int + opt_chunk_bytes(TAG_LANG, v.lang).len() as int, TAG_GLOB) == Some((v.glob, 8 + 8 + v.gen8.len() as int + 8 + v.optn.len() as int + 8 + v.extn.len() as int + 8 + v.sond.len() as int + opt_chunk_bytes(TAG_AGRP, v.agrp).len() as int + 8 + v.sprt.len() as int + 8 + v.bgnd.len() as int + 8 + v.path.len() as int + 8 + v.scpt.len() as int + 8 + v.shdr.len() as int + 8 + v.font.len() as int + 8 + v.tmln.len() as int + 8 + v.objt.len() as int + 8 + v.room.len() as int + 8 + v.dafl.len() as int + 8 + v.tpag.len() as int + 8 + v.code.len() as int + 8 + v.vari.len() as int + 8 + v.func.len() as int + 8 + v.strg.len() as int + 8 + v.txtr.len() as int + 8 + v.audo.len() as int + opt_chunk_bytes(TAG_LANG, v.lang).len() as int + opt_chunk_bytes(TAG_GLOB, v.glob).len() as int)));
}

/// The companion direction of the round trip: the bytes a bundle
/// encodes to decode back to exactly that bundle, so splitting and
/// reassembling are mutually inverse and editing one blob disturbs no
/// other chunk.
#[verifier::rlimit(100)]
#[verifier::spinoff_prover]
pub proof fn lemma_form_parse_back(v: PseudoIffView)
    requires
        v.wf(),
    ensures
        parse_form(form_bytes(v), 0) == Some((v, form_bytes(v).len() as int)),
{
    lemma_auto_spec_u32_to_from_le_bytes();
    let b = form_bytes(v);
    assert(b.subrange(0, 4) =~= spec_u32_to_le_bytes(TAG_FORM));
    lemma_parse_back_one(v, b);
    lemma_parse_back_two(v, b);
    lemma_parse_back_three(v, b);
    lemma_parse_back_four(v, b);
    lemma_parse_back_five(v, b);
    lemma_parse_back_six(v, b);
    assert(b.len() == 8 + 8 + v.gen8.len() as int + 8 + v.optn.len() as int + 8 + v.extn.len() as int + 8 + v.sond.len() as int + opt_chunk_bytes(TAG_AGRP, v.agrp).len() as int + 8 + v.sprt.len() as int + 8 + v.bgnd.len() as int + 8 + v.path.len() as int + 8 + v.scpt.len() as int + 8 + v.shdr.len() as int + 8 + v.font.len() as int + 8 + v.tmln.len() as int + 8 + v.objt.len() as int + 8 + v.room.len() as int + 8 + v.dafl.len() as int + 8 + v.tpag.len() as int + 8 + v.code.len() as int + 8 + v.vari.len() as int + 8 + v.func.len() as int + 8 + v.strg.len() as int + 8 + v.txtr.len() as int + 8 + v.audo.len() as int + opt_chunk_bytes(TAG_LANG, v.lang).len() as int + opt_chunk_bytes(TAG_GLOB, v.glob).len() as int);
}

} // verus!
