//! The container codec: reading and writing a whole bundle.
//!
//! Reading walks the fixed chunk order, decodes every modeled chunk,
//! collects the raw cross-reference offsets each one carried, and — once
//! the string table is decoded — resolves them all to string indices.
//! Writing recomputes the entire layout first (every chunk's size, from
//! them the string table's absolute position, from it the recomputed
//! string-offset array and the texture data base), then emits every chunk
//! in order; nothing read from the input survives into the encoding except
//! the records themselves.

use crate::audio::Audio;
use crate::chunk::{
    chunk_bytes, chunk_frame_ok, chunk_size_at, parse_chunk_at, write_chunk, TAG_AGRP, TAG_AUDO,
    TAG_BGND, TAG_CODE, TAG_DAFL, TAG_EXTN, TAG_FONT, TAG_FORM, TAG_FUNC, TAG_GEN8, TAG_OBJT,
    TAG_OPTN, TAG_PATH, TAG_ROOM, TAG_SCPT, TAG_SHDR, TAG_SOND, TAG_SPRT, TAG_STRG, TAG_TMLN,
    TAG_TPAG, TAG_TXTR, TAG_VARI,
};
use crate::code::Code;
use crate::cursor::{Reader, Writer};
use crate::error::{ReadError, WriteError};
use crate::fonts::Fonts;
use crate::functions::Functions;
use crate::meta_data::MetaData;
use crate::options::Options;
use crate::pseudo_iff::{
    opt_bytes_view, opt_chunk_bytes, parse_opt_chunk_at, read_chunk, read_form_chunk,
    read_opt_chunk,
};
use crate::scripts::Scripts;
use crate::sounds::Sounds;
use crate::sprites::Sprites;
use crate::strings::{string_offsets, Strings};
use crate::textures::Txtr;
use crate::variables::Variables;
use crate::words::parse_u32s;
use crate::xref::resolve;
use vstd::bytes::{lemma_auto_spec_u32_to_from_le_bytes, spec_u32_from_le_bytes, spec_u32_to_le_bytes};
use vstd::prelude::*;

verus! {

/// The whole decoded bundle: every modeled record set, and the unmodeled
/// chunks kept as raw blobs.
pub struct GameData {
    pub metadata: MetaData,
    pub options: Options,
    pub extn: Vec<u8>,
    pub sounds: Sounds,
    pub audio_groups: Option<Vec<u8>>,
    pub sprites: Sprites,
    pub backgrounds: Vec<u8>,
    pub paths: Vec<u8>,
    pub scripts: Scripts,
    pub shaders: Vec<u8>,
    pub fonts: Fonts,
    pub timelines: Vec<u8>,
    pub objects: Vec<u8>,
    pub rooms: Vec<u8>,
    pub dafl: Vec<u8>,
    pub tpag: Vec<u8>,
    pub code: Code,
    pub variables: Variables,
    pub functions: Functions,
    pub strings: Strings,
    pub textures: Txtr,
    pub audio: Audio,
}

/// Every cross-reference index of every record lies within the string
/// table, and every opaque record keeps its format-fixed width.
pub open spec fn gd_wf(g: GameData) -> bool {
    let ns = g.strings@.len() as int;
    &&& crate::meta_data::gen8_wf(g.metadata, ns)
    &&& crate::options::optn_names_ok(g.options, ns)
    &&& crate::sounds::sond_wf(g.sounds.sounds@, ns)
    &&& crate::sprites::sprt_wf(g.sprites.sprites@, ns)
    &&& crate::scripts::scpt_wf(g.scripts.scripts@, ns)
    &&& crate::fonts::font_wf(g.fonts.fonts@, ns)
    &&& crate::code::code_wf(g.code.code_chunks@, ns)
    &&& crate::variables::vari_wf(g.variables.variables@, ns)
    &&& crate::functions::func_wf(g.functions.functions@, ns)
    &&& g.audio.audio@.len() == g.audio.offsets@.len()
}

/// The absolute position of the texture data region (the first possible
/// PNG position) for a `TXTR` chunk whose content begins at
/// `base_offset`: past the count, the offset table and the entries.
pub fn texture_data_offset(textures: &Txtr, base_offset: u32) -> (r: u32)
    requires
        base_offset + 4 + 12 * textures.textures@.len() <= u32::MAX,
    ensures
        r == base_offset + 4 + 12 * textures.textures@.len(),
{
    base_offset + 4 + 12 * (textures.textures.len() as u32)
}

/// The absolute content position of the string table when the bundle is
/// encoded with its `FORM` chunk at position 0: past the `FORM` header
/// and every chunk before `STRG`.  Chunk content lengths do not depend on
/// the offsets placed in them, so the whole layout follows from the
/// records alone — this is the single base the cross-reference offset
/// array and every deferred offset are recomputed from.
pub open spec fn gd_strg_cbase(g: GameData) -> int {
    8 + (8 + crate::meta_data::gen8_content_len(g.metadata)) + (8
        + crate::options::optn_content_len()) + (8 + g.extn@.len()) + (8
        + crate::sounds::sond_content_len(g.sounds.sounds@.len() as int)) + (match g.audio_groups {
        Some(d) => 8 + d@.len() as int,
        None => 0,
    }) + (8 + crate::sprites::sprt_content_len(g.sprites.sprites@)) + (8 + g.backgrounds@.len())
        + (8 + g.paths@.len()) + (8 + crate::scripts::scpt_content_len(
        g.scripts.scripts@.len() as int,
    )) + (8 + g.shaders@.len()) + (8 + crate::fonts::font_content_len(g.fonts.fonts@)) + (8 + g.timelines@.len()) + (8 + g.objects@.len()) + (8 + g.rooms@.len()) + (8
        + g.dafl@.len()) + (8 + g.tpag@.len()) + (8 + crate::code::code_content_len(
        g.code.code_chunks@,
    )) + (8 + crate::variables::vari_content_len(g.variables.variables@.len() as int)) + (8
        + crate::functions::func_content_len(g.functions.functions@.len() as int)) + 8
}

/// The recomputed cross-reference offset array: for each string, 4 bytes
/// past the table's own offset for it, at the freshly computed layout.
pub open spec fn gd_soffs(g: GameData) -> Seq<u32> {
    Seq::new(
        g.strings@.len(),
        |i: int| (crate::strings::spec_string_offset(g.strings@, gd_strg_cbase(g), i) + 4) as u32,
    )
}

/// The absolute content position of the `TXTR` chunk.
pub open spec fn gd_txtr_cbase(g: GameData) -> int {
    gd_strg_cbase(g) + crate::strings::strg_content(g.strings@, gd_strg_cbase(g)).len() + 8
}

/// The absolute position of the texture data region: what the icon offset
/// is re-based onto.
pub open spec fn gd_tdo(g: GameData) -> int {
    gd_txtr_cbase(g) + 4 + 12 * g.textures.textures@.len()
}

/// The bytes of the chunks `GEN8` through `PATH`, their content beginning
/// at absolute position `base`.
pub open spec fn gd_content_a(g: GameData, base: int, soffs: Seq<u32>, tdo: int) -> Seq<u8> {
    let c1 = chunk_bytes(TAG_GEN8, crate::meta_data::gen8_content(g.metadata, soffs));
    let c2 = chunk_bytes(TAG_OPTN, crate::options::optn_content(g.options, soffs, tdo));
    let c3 = chunk_bytes(TAG_EXTN, g.extn@);
    let b4 = base + c1.len() + c2.len() + c3.len();
    let c4 = chunk_bytes(TAG_SOND, crate::sounds::sond_content(g.sounds.sounds@, b4 + 8, soffs));
    let c5 = opt_chunk_bytes(TAG_AGRP, opt_bytes_view(g.audio_groups));
    let b6 = b4 + c4.len() + c5.len();
    let c6 = chunk_bytes(
        TAG_SPRT,
        crate::sprites::sprt_content(g.sprites.sprites@, b6 + 8, soffs),
    );
    let c7 = chunk_bytes(TAG_BGND, g.backgrounds@);
    let c8 = chunk_bytes(TAG_PATH, g.paths@);
    c1 + c2 + c3 + c4 + c5 + c6 + c7 + c8
}

/// The bytes of the chunks `SCPT` through `TPAG`.
pub open spec fn gd_content_b(g: GameData, base: int, soffs: Seq<u32>) -> Seq<u8> {
    let c1 = chunk_bytes(
        TAG_SCPT,
        crate::scripts::scpt_content(g.scripts.scripts@, base + 8, soffs),
    );
    let c2 = chunk_bytes(TAG_SHDR, g.shaders@);
    let b3 = base + c1.len() + c2.len();
    let c3 = chunk_bytes(TAG_FONT, crate::fonts::font_content(g.fonts.fonts@, b3 + 8, soffs));
    let c4 = chunk_bytes(TAG_TMLN, g.timelines@);
    let c5 = chunk_bytes(TAG_OBJT, g.objects@);
    let c6 = chunk_bytes(TAG_ROOM, g.rooms@);
    let c7 = chunk_bytes(TAG_DAFL, g.dafl@);
    let c8 = chunk_bytes(TAG_TPAG, g.tpag@);
    c1 + c2 + c3 + c4 + c5 + c6 + c7 + c8
}

/// The bytes of the chunks `CODE` through `AUDO`.
pub open spec fn gd_content_c(g: GameData, base: int, soffs: Seq<u32>, orig: Seq<u8>) -> Seq<u8> {
    let c1 = chunk_bytes(TAG_CODE, crate::code::code_content(g.code.code_chunks@, base + 8, soffs));
    let c2 = chunk_bytes(TAG_VARI, crate::variables::vari_content(g.variables.variables@, soffs));
    let c3 = chunk_bytes(TAG_FUNC, crate::functions::func_content(g.functions.functions@, soffs));
    let b4 = base + c1.len() + c2.len() + c3.len();
    let c4 = chunk_bytes(TAG_STRG, crate::strings::strg_content(g.strings@, b4 + 8));
    let b5 = b4 + c4.len();
    let c5 = chunk_bytes(TAG_TXTR, crate::textures::txtr_content(g.textures.textures@, orig, b5 + 8));
    let b6 = b5 + c5.len();
    let c6 = chunk_bytes(TAG_AUDO, crate::audio::audo_content(g.audio.audio@, g.audio.offsets@, b6 + 8));
    c1 + c2 + c3 + c4 + c5 + c6
}

/// The content of the root `FORM` chunk when the bundle is encoded with
/// the `FORM` header at position 0: every chunk in the fixed order, every
/// absolute offset recomputed from this very layout.
pub open spec fn gd_form_content(g: GameData, orig: Seq<u8>) -> Seq<u8> {
    let a = gd_content_a(g, 8, gd_soffs(g), gd_tdo(g));
    let b = gd_content_b(g, 8 + a.len() as int, gd_soffs(g));
    let c = gd_content_c(g, 8 + a.len() as int + b.len() as int, gd_soffs(g), orig);
    a + b + c
}

/// A whole bundle decodes structurally at `pos`: the `FORM` header (its
/// length ignored), then every chunk in the fixed order, each one
/// decodable where the one before it ends.  Cross-reference and icon
/// resolution come on top of this.
pub open spec fn gd_parse_ok(b: Seq<u8>, pos: int) -> bool {
    &&& chunk_frame_ok(b, pos, TAG_FORM)
    &&& ({
        let p1 = pos + 8;
        &&& crate::meta_data::gen8_parse_ok(b, p1)
        &&& ({
            let p2 = p1 + 8 + chunk_size_at(b, p1);
            &&& crate::options::optn_parse_ok(b, p2)
            &&& ({
                let p3 = p2 + 128;
                &&& parse_chunk_at(b, p3, TAG_EXTN) is Some
                &&& ({
                    let p4 = p3 + 8 + chunk_size_at(b, p3);
                    &&& crate::sounds::sond_parse_ok(b, p4)
                    &&& ({
                        let p5 = p4 + 12 + 40 * (spec_u32_from_le_bytes(
                            b.subrange(p4 + 8, p4 + 12),
                        ) as int);
                        &&& parse_opt_chunk_at(b, p5, TAG_AGRP) is Some
                        &&& ({
                            let p6 = parse_opt_chunk_at(b, p5, TAG_AGRP).unwrap().1;
                            &&& crate::sprites::sprt_parse_ok(b, p6)
                            &&& ({
                                let p7 = p6 + 8 + chunk_size_at(b, p6);
                                &&& parse_chunk_at(b, p7, TAG_BGND) is Some
                                &&& ({
                                    let p8 = p7 + 8 + chunk_size_at(b, p7);
                                    &&& parse_chunk_at(b, p8, TAG_PATH) is Some
                                    &&& gd_parse_ok_mid(b, p8 + 8 + chunk_size_at(b, p8))
                                })
                            })
                        })
                    })
                })
            })
        })
    })
}

/// Continues [`gd_parse_ok`] from the `SCPT` chunk on.
pub open spec fn gd_parse_ok_mid(b: Seq<u8>, p9: int) -> bool {
    &&& crate::scripts::scpt_parse_ok(b, p9)
    &&& ({
        let p10 = p9 + 12 + 12 * (spec_u32_from_le_bytes(b.subrange(p9 + 8, p9 + 12)) as int);
        &&& parse_chunk_at(b, p10, TAG_SHDR) is Some
        &&& ({
            let p11 = p10 + 8 + chunk_size_at(b, p10);
            &&& crate::fonts::font_parse_ok(b, p11)
            &&& ({
                let p12 = p11 + 8 + chunk_size_at(b, p11);
                &&& parse_chunk_at(b, p12, TAG_TMLN) is Some
                &&& ({
                    let p13 = p12 + 8 + chunk_size_at(b, p12);
                    &&& parse_chunk_at(b, p13, TAG_OBJT) is Some
                    &&& ({
                        let p14 = p13 + 8 + chunk_size_at(b, p13);
                        &&& parse_chunk_at(b, p14, TAG_ROOM) is Some
                        &&& ({
                            let p15 = p14 + 8 + chunk_size_at(b, p14);
                            &&& parse_chunk_at(b, p15, TAG_DAFL) is Some
                            &&& ({
                                let p16 = p15 + 8 + chunk_size_at(b, p15);
                                &&& parse_chunk_at(b, p16, TAG_TPAG) is Some
                                &&& gd_parse_ok_rear(b, p16 + 8 + chunk_size_at(b, p16))
                            })
                        })
                    })
                })
            })
        })
    })
}

/// Continues [`gd_parse_ok`] from the `CODE` chunk on.
pub open spec fn gd_parse_ok_rear(b: Seq<u8>, p17: int) -> bool {
    &&& crate::code::code_parse_ok(b, p17)
    &&& ({
        let cnt = spec_u32_from_le_bytes(b.subrange(p17 + 8, p17 + 12)) as int;
        let p18 = crate::code::code_walk_end(b, p17 + 12 + 4 * cnt, cnt as nat);
        &&& crate::variables::vari_parse_ok(b, p18)
        &&& ({
            let p19 = p18 + 8 + chunk_size_at(b, p18);
            &&& crate::functions::func_parse_ok(b, p19)
            &&& ({
                let p20 = p19 + 8 + chunk_size_at(b, p19);
                &&& crate::strings::parse_strg(b, p20) is Some
                &&& ({
                    let p21 = crate::strings::parse_strg(b, p20).unwrap().2;
                    &&& crate::textures::txtr_parse_ok(b, p21)
                    &&& ({
                        let p22 = crate::textures::txtr_fin(b, p21) + crate::cursor::pad_len(
                            crate::textures::txtr_fin(b, p21),
                            16,
                        );
                        crate::audio::audo_parse_ok(b, p22)
                    })
                })
            })
        })
    })
}

/// The chunk positions in a structurally well-formed bundle at `pos`:
/// each chunk begins where the one before it ends, the widths read off
/// the bytes exactly as [`gd_parse_ok`] walks them.
pub open spec fn gd_optn_pos(b: Seq<u8>, pos: int) -> int {
    pos + 16 + chunk_size_at(b, pos + 8)
}

pub open spec fn gd_extn_pos(b: Seq<u8>, pos: int) -> int {
    gd_optn_pos(b, pos) + 128
}

pub open spec fn gd_sond_pos(b: Seq<u8>, pos: int) -> int {
    let p = gd_extn_pos(b, pos);
    p + 8 + chunk_size_at(b, p)
}

pub open spec fn gd_agrp_pos(b: Seq<u8>, pos: int) -> int {
    let p = gd_sond_pos(b, pos);
    p + 12 + 40 * (spec_u32_from_le_bytes(b.subrange(p + 8, p + 12)) as int)
}

pub open spec fn gd_sprt_pos(b: Seq<u8>, pos: int) -> int {
    parse_opt_chunk_at(b, gd_agrp_pos(b, pos), TAG_AGRP).unwrap().1
}

pub open spec fn gd_bgnd_pos(b: Seq<u8>, pos: int) -> int {
    let p = gd_sprt_pos(b, pos);
    p + 8 + chunk_size_at(b, p)
}

pub open spec fn gd_path_pos(b: Seq<u8>, pos: int) -> int {
    let p = gd_bgnd_pos(b, pos);
    p + 8 + chunk_size_at(b, p)
}

pub open spec fn gd_scpt_pos(b: Seq<u8>, pos: int) -> int {
    let p = gd_path_pos(b, pos);
    p + 8 + chunk_size_at(b, p)
}

pub open spec fn gd_shdr_pos(b: Seq<u8>, pos: int) -> int {
    let p = gd_scpt_pos(b, pos);
    p + 12 + 12 * (spec_u32_from_le_bytes(b.subrange(p + 8, p + 12)) as int)
}

pub open spec fn gd_font_pos(b: Seq<u8>, pos: int) -> int {
    let p = gd_shdr_pos(b, pos);
    p + 8 + chunk_size_at(b, p)
}

pub open spec fn gd_tmln_pos(b: Seq<u8>, pos: int) -> int {
    let p = gd_font_pos(b, pos);
    p + 8 + chunk_size_at(b, p)
}

pub open spec fn gd_objt_pos(b: Seq<u8>, pos: int) -> int {
    let p = gd_tmln_pos(b, pos);
    p + 8 + chunk_size_at(b, p)
}

pub open spec fn gd_room_pos(b: Seq<u8>, pos: int) -> int {
    let p = gd_objt_pos(b, pos);
    p + 8 + chunk_size_at(b, p)
}

pub open spec fn gd_dafl_pos(b: Seq<u8>, pos: int) -> int {
    let p = gd_room_pos(b, pos);
    p + 8 + chunk_size_at(b, p)
}

pub open spec fn gd_tpag_pos(b: Seq<u8>, pos: int) -> int {
    let p = gd_dafl_pos(b, pos);
    p + 8 + chunk_size_at(b, p)
}

pub open spec fn gd_code_pos(b: Seq<u8>, pos: int) -> int {
    let p = gd_tpag_pos(b, pos);
    p + 8 + chunk_size_at(b, p)
}

pub open spec fn gd_vari_pos(b: Seq<u8>, pos: int) -> int {
    let p = gd_code_pos(b, pos);
    let cnt = spec_u32_from_le_bytes(b.subrange(p + 8, p + 12)) as int;
    crate::code::code_walk_end(b, p + 12 + 4 * cnt, cnt as nat)
}

pub open spec fn gd_func_pos(b: Seq<u8>, pos: int) -> int {
    let p = gd_vari_pos(b, pos);
    p + 8 + chunk_size_at(b, p)
}

pub open spec fn gd_strg_pos(b: Seq<u8>, pos: int) -> int {
    let p = gd_func_pos(b, pos);
    p + 8 + chunk_size_at(b, p)
}

/// The string table's stored offset array, as decoded from the bundle.
pub open spec fn gd_strg_offsets(b: Seq<u8>, pos: int) -> Seq<u32> {
    crate::strings::parse_strg(b, gd_strg_pos(b, pos)).unwrap().1
}

/// The position of the `TXTR` chunk in a structurally well-formed bundle
/// at `pos`.
pub open spec fn gd_txtr_pos(b: Seq<u8>, pos: int) -> int {
    crate::strings::parse_strg(b, gd_strg_pos(b, pos)).unwrap().2
}

/// The texture data base a decoded bundle's icon offset is re-based onto.
pub open spec fn gd_read_tdo(b: Seq<u8>, pos: int) -> int {
    let pt = gd_txtr_pos(b, pos);
    pt + 12 + 12 * (spec_u32_from_le_bytes(b.subrange(pt + 8, pt + 12)) as int)
}

/// The raw icon offset the bundle's `OPTN` chunk stores.
pub open spec fn gd_icon_raw(b: Seq<u8>, pos: int) -> int {
    let cpos = pos + 16 + chunk_size_at(b, pos + 8) + 8;
    spec_u32_from_le_bytes(b.subrange(cpos + 8, cpos + 12)) as int
}

/// The position of the `AUDO` chunk: the first 16-aligned position at
/// or past the end of the texture data.
pub open spec fn gd_audo_pos(b: Seq<u8>, pos: int) -> int {
    let fin = crate::textures::txtr_fin(b, gd_txtr_pos(b, pos));
    fin + crate::cursor::pad_len(fin, 16)
}

/// What a successful whole-bundle decode yields from the bytes at `pos`:
/// every modeled record tied to the chunk bytes at its position, every
/// raw string reference resolved against the stored offset array, the
/// icon offset re-based on the stored texture data base, and every
/// unmodeled chunk kept verbatim.
pub open spec fn gd_reads_to(b: Seq<u8>, pos: int, g: GameData) -> bool {
    let tbl = gd_strg_offsets(b, pos);
    &&& crate::meta_data::gen8_resolved_ok(b, pos + 8, g.metadata, tbl)
    &&& crate::options::optn_resolved_ok(
        b,
        gd_optn_pos(b, pos),
        g.options,
        tbl,
        gd_read_tdo(b, pos),
    )
    &&& g.extn@ == parse_chunk_at(b, gd_extn_pos(b, pos), TAG_EXTN).unwrap().0
    &&& crate::sounds::sond_resolved_ok(b, gd_sond_pos(b, pos), g.sounds.sounds@, tbl)
    &&& opt_bytes_view(g.audio_groups) == parse_opt_chunk_at(
        b,
        gd_agrp_pos(b, pos),
        TAG_AGRP,
    ).unwrap().0
    &&& crate::sprites::sprt_resolved_ok(b, gd_sprt_pos(b, pos), g.sprites.sprites@, tbl)
    &&& g.backgrounds@ == parse_chunk_at(b, gd_bgnd_pos(b, pos), TAG_BGND).unwrap().0
    &&& g.paths@ == parse_chunk_at(b, gd_path_pos(b, pos), TAG_PATH).unwrap().0
    &&& crate::scripts::scpt_resolved_ok(b, gd_scpt_pos(b, pos), g.scripts.scripts@, tbl)
    &&& g.shaders@ == parse_chunk_at(b, gd_shdr_pos(b, pos), TAG_SHDR).unwrap().0
    &&& crate::fonts::font_resolved_ok(b, gd_font_pos(b, pos), g.fonts.fonts@, tbl)
    &&& g.timelines@ == parse_chunk_at(b, gd_tmln_pos(b, pos), TAG_TMLN).unwrap().0
    &&& g.objects@ == parse_chunk_at(b, gd_objt_pos(b, pos), TAG_OBJT).unwrap().0
    &&& g.rooms@ == parse_chunk_at(b, gd_room_pos(b, pos), TAG_ROOM).unwrap().0
    &&& g.dafl@ == parse_chunk_at(b, gd_dafl_pos(b, pos), TAG_DAFL).unwrap().0
    &&& g.tpag@ == parse_chunk_at(b, gd_tpag_pos(b, pos), TAG_TPAG).unwrap().0
    &&& crate::code::code_resolved_ok(b, gd_code_pos(b, pos), g.code.code_chunks@, tbl)
    &&& crate::variables::vari_resolved_ok(b, gd_vari_pos(b, pos), g.variables.variables@, tbl)
    &&& crate::functions::func_resolved_ok(b, gd_func_pos(b, pos), g.functions.functions@, tbl)
    &&& g.strings@ == crate::strings::parse_strg(b, gd_strg_pos(b, pos)).unwrap().0
    &&& crate::textures::txtr_read_ok(b, gd_txtr_pos(b, pos), g.textures.textures@)
    &&& crate::audio::audo_read_ok(b, gd_audo_pos(b, pos), g.audio)
}

/// Every raw string reference any chunk of the bundle stores has a match
/// in the stored offset array: the condition under which resolution
/// cannot fail.
pub open spec fn gd_refs_resolved(b: Seq<u8>, pos: int) -> bool {
    let tbl = gd_strg_offsets(b, pos);
    &&& crate::meta_data::gen8_refs_ok(b, pos + 8, tbl)
    &&& crate::options::optn_refs_ok(b, gd_optn_pos(b, pos), tbl)
    &&& crate::sounds::sond_refs_ok(b, gd_sond_pos(b, pos), tbl)
    &&& crate::sprites::sprt_refs_ok(b, gd_sprt_pos(b, pos), tbl)
    &&& crate::scripts::scpt_refs_ok(b, gd_scpt_pos(b, pos), tbl)
    &&& crate::fonts::font_refs_ok(b, gd_font_pos(b, pos), tbl)
    &&& crate::code::code_refs_ok(b, gd_code_pos(b, pos), tbl)
    &&& crate::variables::vari_refs_ok(b, gd_vari_pos(b, pos), tbl)
    &&& crate::functions::func_refs_ok(b, gd_func_pos(b, pos), tbl)
}

/// Reads a whole bundle from the reader's current position: the `FORM`
/// header, every chunk in the fixed order, then cross-reference resolution
/// of every raw offset against the decoded string table.  Any failure
/// aborts the whole read; no partially populated bundle is returned.
#[verifier::loop_isolation(false)]
#[verifier::rlimit(100)]
#[verifier::spinoff_prover]
pub fn read(r: &mut Reader) -> (res: Result<GameData, ReadError>)
    requires
        old(r).wf(),
    ensures
        final(r).data == old(r).data,
        final(r).wf(),
        match res {
            Ok(g) => {
                &&& gd_wf(g)
                &&& gd_parse_ok(old(r).data@, old(r).pos as int)
                &&& gd_reads_to(old(r).data@, old(r).pos as int, g)
            },
            Err(e) => {
                let b = old(r).data@;
                let pos = old(r).pos as int;
                match e {
                    ReadError::UnresolvedStringReference { offset } => {
                        &&& forall|j: int|
                            !crate::xref::resolves_to(gd_strg_offsets(b, pos), offset, j)
                        &&& !gd_refs_resolved(b, pos)
                    },
                    ReadError::IconOffsetOutOfRange { offset } => {
                        &&& offset == gd_icon_raw(b, pos)
                        &&& gd_icon_raw(b, pos) < gd_read_tdo(b, pos)
                    },
                    _ => !gd_parse_ok(b, pos) || b.len() + 8 > u32::MAX,
                }
            },
        },
{
    let ghost b0 = r.data@;
    let ghost pos0 = r.pos as int;
    match read_form_chunk(r) {
        Ok(()) => (),
        Err(e) => {
            return Err(e);
        },
    }
    let (mut meta, meta_string_offsets) = match MetaData::read(r) {
        Ok(v) => v,
        Err(e) => {
            return Err(e);
        },
    };
    let ghost p_optn = r.pos as int;
    let (mut opts, opt_offsets) = match Options::read(r) {
        Ok(v) => v,
        Err(e) => {
            return Err(e);
        },
    };
    let ghost p_extn = r.pos as int;
    let extn = match read_chunk(r, TAG_EXTN) {
        Ok(v) => v,
        Err(e) => {
            return Err(e);
        },
    };
    let ghost p_sond = r.pos as int;
    let (mut sounds, sound_string_offsets) = match Sounds::read(r) {
        Ok(v) => v,
        Err(e) => {
            return Err(e);
        },
    };
    let ghost p_agrp = r.pos as int;
    let audio_groups = match read_opt_chunk(r, crate::chunk::TAG_AGRP) {
        Ok(v) => v,
        Err(e) => {
            return Err(e);
        },
    };
    let ghost p_sprt = r.pos as int;
    let (mut sprites, sprite_name_offsets) = match Sprites::read(r) {
        Ok(v) => v,
        Err(e) => {
            return Err(e);
        },
    };
    let ghost p_bgnd = r.pos as int;
    let backgrounds = match read_chunk(r, TAG_BGND) {
        Ok(v) => v,
        Err(e) => {
            return Err(e);
        },
    };
    let ghost p_path = r.pos as int;
    let paths = match read_chunk(r, TAG_PATH) {
        Ok(v) => v,
        Err(e) => {
            return Err(e);
        },
    };
    let ghost p_scpt = r.pos as int;
    let (mut scripts, script_name_offsets) = match Scripts::read(r) {
        Ok(v) => v,
        Err(e) => {
            return Err(e);
        },
    };
    let ghost p_shdr = r.pos as int;
    let shaders = match read_chunk(r, TAG_SHDR) {
        Ok(v) => v,
        Err(e) => {
            return Err(e);
        },
    };
    let ghost p_font = r.pos as int;
    let (mut fonts, font_string_offsets) = match Fonts::read(r) {
        Ok(v) => v,
        Err(e) => {
            return Err(e);
        },
    };
    let ghost p_tmln = r.pos as int;
    let timelines = match read_chunk(r, TAG_TMLN) {
        Ok(v) => v,
        Err(e) => {
            return Err(e);
        },
    };
    let ghost p_objt = r.pos as int;
    let objects = match read_chunk(r, TAG_OBJT) {
        Ok(v) => v,
        Err(e) => {
            return Err(e);
        },
    };
    let ghost p_room = r.pos as int;
    let rooms = match read_chunk(r, TAG_ROOM) {
        Ok(v) => v,
        Err(e) => {
            return Err(e);
        },
    };
    let ghost p_dafl = r.pos as int;
    let dafl = match read_chunk(r, TAG_DAFL) {
        Ok(v) => v,
        Err(e) => {
            return Err(e);
        },
    };
    let ghost p_tpag = r.pos as int;
    let tpag = match read_chunk(r, TAG_TPAG) {
        Ok(v) => v,
        Err(e) => {
            return Err(e);
        },
    };
    let ghost p_code = r.pos as int;
    let (mut code, code_name_offsets) = match Code::read(r) {
        Ok(v) => v,
        Err(e) => {
            return Err(e);
        },
    };
    let ghost p_vari = r.pos as int;
    let (mut variables, var_name_offsets) = match Variables::read(r) {
        Ok(v) => v,
        Err(e) => {
            return Err(e);
        },
    };
    let ghost p_func = r.pos as int;
    let (mut functions, fun_name_offsets) = match Functions::read(r) {
        Ok(v) => v,
        Err(e) => {
            return Err(e);
        },
    };
    let ghost p_strg = r.pos as int;
    let (strings, offsets) = match Strings::read(r) {
        Ok(v) => v,
        Err(e) => {
            return Err(e);
        },
    };
    let ns = strings.strings.len();
    proof {
        assert(strings@.len() == ns);
        assert(crate::meta_data::gen8_parse_ok(b0, pos0 + 8));
        assert(p_optn == gd_optn_pos(b0, pos0));
        assert(p_extn == gd_extn_pos(b0, pos0));
        assert(p_sond == gd_sond_pos(b0, pos0));
        assert(p_agrp == gd_agrp_pos(b0, pos0));
        assert(p_sprt == gd_sprt_pos(b0, pos0));
        assert(p_bgnd == gd_bgnd_pos(b0, pos0));
        assert(p_path == gd_path_pos(b0, pos0));
        assert(p_scpt == gd_scpt_pos(b0, pos0));
        assert(p_shdr == gd_shdr_pos(b0, pos0));
        assert(p_font == gd_font_pos(b0, pos0));
        assert(p_tmln == gd_tmln_pos(b0, pos0));
        assert(p_objt == gd_objt_pos(b0, pos0));
        assert(p_room == gd_room_pos(b0, pos0));
        assert(p_dafl == gd_dafl_pos(b0, pos0));
        assert(p_tpag == gd_tpag_pos(b0, pos0));
        assert(p_code == gd_code_pos(b0, pos0));
        assert(chunk_size_at(b0, p_vari) == 12 * variables.variables@.len());
        assert(chunk_size_at(b0, p_func) == 12 * functions.functions@.len());
        assert(p_vari == gd_vari_pos(b0, pos0));
        assert(p_func == gd_func_pos(b0, pos0));
        assert(p_strg == gd_strg_pos(b0, pos0));
        assert(gd_strg_offsets(b0, pos0) == offsets@);
    }
    meta.game_id_1_index =
    match resolve(&offsets, meta_string_offsets.game_id_1) {
        Ok(i) => i,
        Err(e) => {
            proof {
                assert(meta_string_offsets.game_id_1 == parse_u32s(b0, pos0 + 16, 26)[1]);
                if crate::meta_data::gen8_refs_ok(b0, pos0 + 8, offsets@) {
                    assert(false);
                }
                assert(!gd_refs_resolved(b0, pos0));
            }
            return Err(e);
        },
    };
    meta.default_index =
    match resolve(&offsets, meta_string_offsets.default) {
        Ok(i) => i,
        Err(e) => {
            proof {
                assert(meta_string_offsets.default == parse_u32s(b0, pos0 + 16, 26)[2]);
                if crate::meta_data::gen8_refs_ok(b0, pos0 + 8, offsets@) {
                    assert(false);
                }
                assert(!gd_refs_resolved(b0, pos0));
            }
            return Err(e);
        },
    };
    meta.game_id_2_index =
    match resolve(&offsets, meta_string_offsets.game_id_2) {
        Ok(i) => i,
        Err(e) => {
            proof {
                assert(meta_string_offsets.game_id_2 == parse_u32s(b0, pos0 + 16, 26)[10]);
                if crate::meta_data::gen8_refs_ok(b0, pos0 + 8, offsets@) {
                    assert(false);
                }
                assert(!gd_refs_resolved(b0, pos0));
            }
            return Err(e);
        },
    };
    meta.window_title_index =
    match resolve(&offsets, meta_string_offsets.window_title) {
        Ok(i) => i,
        Err(e) => {
            proof {
                assert(meta_string_offsets.window_title == parse_u32s(b0, pos0 + 16, 26)[25]);
                if crate::meta_data::gen8_refs_ok(b0, pos0 + 8, offsets@) {
                    assert(false);
                }
                assert(!gd_refs_resolved(b0, pos0));
            }
            return Err(e);
        },
    };
    opts.constant1_name_index =
    match resolve(&offsets, opt_offsets.const1_offset) {
        Ok(i) => i,
        Err(e) => {
            proof {
                assert(opt_offsets.const1_offset == parse_u32s(b0, p_optn + 8, 30)[16]);
                if crate::options::optn_refs_ok(b0, p_optn, offsets@) {
                    assert(false);
                }
                assert(!gd_refs_resolved(b0, pos0));
            }
            return Err(e);
        },
    };
    opts.constant2_name_index =
    match resolve(&offsets, opt_offsets.const2_offset) {
        Ok(i) => i,
        Err(e) => {
            proof {
                assert(opt_offsets.const2_offset == parse_u32s(b0, p_optn + 8, 30)[17]);
                if crate::options::optn_refs_ok(b0, p_optn, offsets@) {
                    assert(false);
                }
                assert(!gd_refs_resolved(b0, pos0));
            }
            return Err(e);
        },
    };
    opts.constant3_name_index =
    match resolve(&offsets, opt_offsets.const3_offset) {
        Ok(i) => i,
        Err(e) => {
            proof {
                assert(opt_offsets.const3_offset == parse_u32s(b0, p_optn + 8, 30)[18]);
                if crate::options::optn_refs_ok(b0, p_optn, offsets@) {
                    assert(false);
                }
                assert(!gd_refs_resolved(b0, pos0));
            }
            return Err(e);
        },
    };
    opts.constant4_name_index =
    match resolve(&offsets, opt_offsets.const4_offset) {
        Ok(i) => i,
        Err(e) => {
            proof {
                assert(opt_offsets.const4_offset == parse_u32s(b0, p_optn + 8, 30)[19]);
                if crate::options::optn_refs_ok(b0, p_optn, offsets@) {
                    assert(false);
                }
                assert(!gd_refs_resolved(b0, pos0));
            }
            return Err(e);
        },
    };
    opts.constant5_name_index =
    match resolve(&offsets, opt_offsets.const5_offset) {
        Ok(i) => i,
        Err(e) => {
            proof {
                assert(opt_offsets.const5_offset == parse_u32s(b0, p_optn + 8, 30)[20]);
                if crate::options::optn_refs_ok(b0, p_optn, offsets@) {
                    assert(false);
                }
                assert(!gd_refs_resolved(b0, pos0));
            }
            return Err(e);
        },
    };
    opts.constant6_name_index =
    match resolve(&offsets, opt_offsets.const6_offset) {
        Ok(i) => i,
        Err(e) => {
            proof {
                assert(opt_offsets.const6_offset == parse_u32s(b0, p_optn + 8, 30)[21]);
                if crate::options::optn_refs_ok(b0, p_optn, offsets@) {
                    assert(false);
                }
                assert(!gd_refs_resolved(b0, pos0));
            }
            return Err(e);
        },
    };
    opts.constant7_name_index =
    match resolve(&offsets, opt_offsets.const7_offset) {
        Ok(i) => i,
        Err(e) => {
            proof {
                assert(opt_offsets.const7_offset == parse_u32s(b0, p_optn + 8, 30)[22]);
                if crate::options::optn_refs_ok(b0, p_optn, offsets@) {
                    assert(false);
                }
                assert(!gd_refs_resolved(b0, pos0));
            }
            return Err(e);
        },
    };
    opts.constant8_name_index =
    match resolve(&offsets, opt_offsets.const8_offset) {
        Ok(i) => i,
        Err(e) => {
            proof {
                assert(opt_offsets.const8_offset == parse_u32s(b0, p_optn + 8, 30)[23]);
                if crate::options::optn_refs_ok(b0, p_optn, offsets@) {
                    assert(false);
                }
                assert(!gd_refs_resolved(b0, pos0));
            }
            return Err(e);
        },
    };
    opts.constant9_name_index =
    match resolve(&offsets, opt_offsets.const9_offset) {
        Ok(i) => i,
        Err(e) => {
            proof {
                assert(opt_offsets.const9_offset == parse_u32s(b0, p_optn + 8, 30)[24]);
                if crate::options::optn_refs_ok(b0, p_optn, offsets@) {
                    assert(false);
                }
                assert(!gd_refs_resolved(b0, pos0));
            }
            return Err(e);
        },
    };
    opts.constant10_name_index =
    match resolve(&offsets, opt_offsets.const10_offset) {
        Ok(i) => i,
        Err(e) => {
            proof {
                assert(opt_offsets.const10_offset == parse_u32s(b0, p_optn + 8, 30)[25]);
                if crate::options::optn_refs_ok(b0, p_optn, offsets@) {
                    assert(false);
                }
                assert(!gd_refs_resolved(b0, pos0));
            }
            return Err(e);
        },
    };
    opts.constant11_name_index =
    match resolve(&offsets, opt_offsets.const11_offset) {
        Ok(i) => i,
        Err(e) => {
            proof {
                assert(opt_offsets.const11_offset == parse_u32s(b0, p_optn + 8, 30)[26]);
                if crate::options::optn_refs_ok(b0, p_optn, offsets@) {
                    assert(false);
                }
                assert(!gd_refs_resolved(b0, pos0));
            }
            return Err(e);
        },
    };
    opts.constant12_name_index =
    match resolve(&offsets, opt_offsets.const12_offset) {
        Ok(i) => i,
        Err(e) => {
            proof {
                assert(opt_offsets.const12_offset == parse_u32s(b0, p_optn + 8, 30)[27]);
                if crate::options::optn_refs_ok(b0, p_optn, offsets@) {
                    assert(false);
                }
                assert(!gd_refs_resolved(b0, pos0));
            }
            return Err(e);
        },
    };
    opts.constant13_name_index =
    match resolve(&offsets, opt_offsets.const13_offset) {
        Ok(i) => i,
        Err(e) => {
            proof {
                assert(opt_offsets.const13_offset == parse_u32s(b0, p_optn + 8, 30)[28]);
                if crate::options::optn_refs_ok(b0, p_optn, offsets@) {
                    assert(false);
                }
                assert(!gd_refs_resolved(b0, pos0));
            }
            return Err(e);
        },
    };
    opts.constant14_name_index =
    match resolve(&offsets, opt_offsets.const14_offset) {
        Ok(i) => i,
        Err(e) => {
            proof {
                assert(opt_offsets.const14_offset == parse_u32s(b0, p_optn + 8, 30)[29]);
                if crate::options::optn_refs_ok(b0, p_optn, offsets@) {
                    assert(false);
                }
                assert(!gd_refs_resolved(b0, pos0));
            }
            return Err(e);
        },
    };
    let ghost snd0 = sounds.sounds@;
    let mut i: usize = 0;
    while i < sounds.sounds.len()
        invariant
            offsets@.len() == ns,
            ns == strings@.len(),
            sound_string_offsets@.len() == sounds.sounds@.len(),
            sounds.sounds@.len() == snd0.len(),
            forall|j: int| i <= j < snd0.len() ==> sounds.sounds@[j] == snd0[j],
            forall|j: int|
                0 <= j < i ==> {
                    &&& (#[trigger] sounds.sounds@[j]).name_index < ns
                    &&& sounds.sounds@[j].ext_index < ns
                    &&& sounds.sounds@[j].filename_index < ns
                    &&& sounds.sounds@[j].unk1 == snd0[j].unk1
                    &&& sounds.sounds@[j].unk2 == snd0[j].unk2
                    &&& sounds.sounds@[j].unk3 == snd0[j].unk3
                    &&& sounds.sounds@[j].unk4 == snd0[j].unk4
                    &&& sounds.sounds@[j].unk5 == snd0[j].unk5
                    &&& sounds.sounds@[j].unk6 == snd0[j].unk6
                    &&& crate::xref::resolves_to(
                        offsets@,
                        sound_string_offsets@[j].name_offset,
                        sounds.sounds@[j].name_index as int,
                    )
                    &&& crate::xref::resolves_to(
                        offsets@,
                        sound_string_offsets@[j].ext_offset,
                        sounds.sounds@[j].ext_index as int,
                    )
                    &&& crate::xref::resolves_to(
                        offsets@,
                        sound_string_offsets@[j].filename_offset,
                        sounds.sounds@[j].filename_index as int,
                    )
                },
        decreases sounds.sounds@.len() - i,
    {
        proof {
            let n = snd0.len() as int;
            let cntw = spec_u32_from_le_bytes(b0.subrange(p_sond + 8, p_sond + 12)) as int;
            assert(cntw == n);
            assert(parse_u32s(b0, p_sond + 12 + 4 * cntw + 36 * (i as int), 9) == parse_u32s(
                b0,
                p_sond + 12 + 4 * n + 36 * (i as int),
                9,
            ));
            assert(sound_string_offsets@[i as int].name_offset == parse_u32s(
                b0,
                p_sond + 12 + 4 * n + 36 * (i as int),
                9,
            )[0]);
            assert(sound_string_offsets@[i as int].ext_offset == parse_u32s(
                b0,
                p_sond + 12 + 4 * n + 36 * (i as int),
                9,
            )[2]);
            assert(sound_string_offsets@[i as int].filename_offset == parse_u32s(
                b0,
                p_sond + 12 + 4 * n + 36 * (i as int),
                9,
            )[3]);
        }
        let s = &sound_string_offsets[i];
        let ni = match resolve(&offsets, s.name_offset) {
            Ok(v) => v,
            Err(e) => {
                proof {
                    if crate::sounds::sond_refs_ok(b0, p_sond, offsets@) {
                        assert(false);
                    }
                    assert(!gd_refs_resolved(b0, pos0));
                }
                return Err(e);
            },
        };
        let ei = match resolve(&offsets, s.ext_offset) {
            Ok(v) => v,
            Err(e) => {
                proof {
                    if crate::sounds::sond_refs_ok(b0, p_sond, offsets@) {
                        assert(false);
                    }
                    assert(!gd_refs_resolved(b0, pos0));
                }
                return Err(e);
            },
        };
        let fi = match resolve(&offsets, s.filename_offset) {
            Ok(v) => v,
            Err(e) => {
                proof {
                    if crate::sounds::sond_refs_ok(b0, p_sond, offsets@) {
                        assert(false);
                    }
                    assert(!gd_refs_resolved(b0, pos0));
                }
                return Err(e);
            },
        };
        sounds.sounds[i].name_index = ni;
        sounds.sounds[i].ext_index = ei;
        sounds.sounds[i].filename_index = fi;
        i = i + 1;
    }
    let ghost spr0 = sprites.sprites@;
    let mut i: usize = 0;
    while i < sprites.sprites.len()
        invariant
            offsets@.len() == ns,
            ns == strings@.len(),
            sprite_name_offsets@.len() == sprites.sprites@.len(),
            sprites.sprites@.len() == spr0.len(),
            forall|j: int| i <= j < spr0.len() ==> sprites.sprites@[j] == spr0[j],
            forall|j: int|
                0 <= j < i ==> {
                    &&& (#[trigger] sprites.sprites@[j]).name_index < ns
                    &&& sprites.sprites@[j].width == spr0[j].width
                    &&& sprites.sprites@[j].height == spr0[j].height
                    &&& sprites.sprites@[j].unknown@ == spr0[j].unknown@
                    &&& crate::xref::resolves_to(
                        offsets@,
                        sprite_name_offsets@[j],
                        sprites.sprites@[j].name_index as int,
                    )
                },
        decreases sprites.sprites@.len() - i,
    {
        let ni = match resolve(&offsets, sprite_name_offsets[i]) {
            Ok(v) => v,
            Err(e) => {
                proof {
                    let n = spr0.len() as int;
                    let stbl = parse_u32s(b0, p_sprt + 12, n as nat);
                    assert(sprite_name_offsets@[i as int] == spec_u32_from_le_bytes(
                        b0.subrange(stbl[i as int] as int, stbl[i as int] as int + 4),
                    ));
                    if crate::sprites::sprt_refs_ok(b0, p_sprt, offsets@) {
                        let cntw = spec_u32_from_le_bytes(
                            b0.subrange(p_sprt + 8, p_sprt + 12),
                        ) as int;
                        assert(cntw == n);
                        assert(parse_u32s(b0, p_sprt + 12, cntw as nat) == stbl);
                        assert(false);
                    }
                    assert(!gd_refs_resolved(b0, pos0));
                }
                return Err(e);
            },
        };
        sprites.sprites[i].name_index = ni;
        i = i + 1;
    }
    let ghost scr0 = scripts.scripts@;
    let mut i: usize = 0;
    while i < scripts.scripts.len()
        invariant
            offsets@.len() == ns,
            ns == strings@.len(),
            script_name_offsets@.len() == scripts.scripts@.len(),
            scripts.scripts@.len() == scr0.len(),
            forall|j: int| i <= j < scr0.len() ==> scripts.scripts@[j] == scr0[j],
            forall|j: int|
                0 <= j < i ==> {
                    &&& (#[trigger] scripts.scripts@[j]).name_index < ns
                    &&& scripts.scripts@[j].unknown == scr0[j].unknown
                    &&& crate::xref::resolves_to(
                        offsets@,
                        script_name_offsets@[j],
                        scripts.scripts@[j].name_index as int,
                    )
                },
        decreases scripts.scripts@.len() - i,
    {
        let ni = match resolve(&offsets, script_name_offsets[i]) {
            Ok(v) => v,
            Err(e) => {
                proof {
                    let n = scr0.len() as int;
                    let cntw = spec_u32_from_le_bytes(b0.subrange(p_scpt + 8, p_scpt + 12)) as int;
                    assert(cntw == n);
                    assert(parse_u32s(b0, p_scpt + 12 + 4 * cntw + 8 * (i as int), 2)
                        == parse_u32s(b0, p_scpt + 12 + 4 * n + 8 * (i as int), 2));
                    assert(script_name_offsets@[i as int] == parse_u32s(
                        b0,
                        p_scpt + 12 + 4 * n + 8 * (i as int),
                        2,
                    )[0]);
                    if crate::scripts::scpt_refs_ok(b0, p_scpt, offsets@) {
                        assert(false);
                    }
                    assert(!gd_refs_resolved(b0, pos0));
                }
                return Err(e);
            },
        };
        scripts.scripts[i].name_index = ni;
        i = i + 1;
    }
    let ghost fnt0 = fonts.fonts@;
    let mut i: usize = 0;
    while i < fonts.fonts.len()
        invariant
            offsets@.len() == ns,
            ns == strings@.len(),
            font_string_offsets@.len() == fonts.fonts@.len(),
            fonts.fonts@.len() == fnt0.len(),
            forall|j: int| i <= j < fnt0.len() ==> fonts.fonts@[j] == fnt0[j],
            forall|j: int|
                0 <= j < i ==> {
                    &&& (#[trigger] fonts.fonts@[j]).name_index < ns
                    &&& fonts.fonts@[j].font_name_index < ns
                    &&& fonts.fonts@[j].point_size == fnt0[j].point_size
                    &&& fonts.fonts@[j].data@ == fnt0[j].data@
                    &&& crate::xref::resolves_to(
                        offsets@,
                        font_string_offsets@[j].name,
                        fonts.fonts@[j].name_index as int,
                    )
                    &&& crate::xref::resolves_to(
                        offsets@,
                        font_string_offsets@[j].font_name,
                        fonts.fonts@[j].font_name_index as int,
                    )
                },
        decreases fonts.fonts@.len() - i,
    {
        proof {
            let n = fnt0.len() as int;
            let ftbl = parse_u32s(b0, p_font + 12, n as nat);
            let cntw = spec_u32_from_le_bytes(b0.subrange(p_font + 8, p_font + 12)) as int;
            assert(cntw == n);
            assert(parse_u32s(b0, p_font + 12, cntw as nat) == ftbl);
            assert(font_string_offsets@[i as int].name == spec_u32_from_le_bytes(
                b0.subrange(ftbl[i as int] as int, ftbl[i as int] as int + 4),
            ));
            assert(font_string_offsets@[i as int].font_name == spec_u32_from_le_bytes(
                b0.subrange(ftbl[i as int] as int + 4, ftbl[i as int] as int + 8),
            ));
        }
        let f = &font_string_offsets[i];
        let ni = match resolve(&offsets, f.name) {
            Ok(v) => v,
            Err(e) => {
                proof {
                    if crate::fonts::font_refs_ok(b0, p_font, offsets@) {
                        assert(false);
                    }
                    assert(!gd_refs_resolved(b0, pos0));
                }
                return Err(e);
            },
        };
        let fi = match resolve(&offsets, f.font_name) {
            Ok(v) => v,
            Err(e) => {
                proof {
                    if crate::fonts::font_refs_ok(b0, p_font, offsets@) {
                        assert(false);
                    }
                    assert(!gd_refs_resolved(b0, pos0));
                }
                return Err(e);
            },
        };
        fonts.fonts[i].name_index = ni;
        fonts.fonts[i].font_name_index = fi;
        i = i + 1;
    }
    let ghost cd0 = code.code_chunks@;
    let mut i: usize = 0;
    while i < code.code_chunks.len()
        invariant
            offsets@.len() == ns,
            ns == strings@.len(),
            code_name_offsets@.len() == code.code_chunks@.len(),
            code.code_chunks@.len() == cd0.len(),
            forall|j: int| i <= j < cd0.len() ==> code.code_chunks@[j] == cd0[j],
            forall|j: int|
                0 <= j < i ==> {
                    &&& (#[trigger] code.code_chunks@[j]).name_index < ns
                    &&& code.code_chunks@[j].raw_code@ == cd0[j].raw_code@
                    &&& crate::xref::resolves_to(
                        offsets@,
                        code_name_offsets@[j],
                        code.code_chunks@[j].name_index as int,
                    )
                },
        decreases code.code_chunks@.len() - i,
    {
        let ni = match resolve(&offsets, code_name_offsets[i]) {
            Ok(v) => v,
            Err(e) => {
                proof {
                    if crate::code::code_refs_ok(b0, p_code, offsets@) {
                        let n = cd0.len() as int;
                        let cntw = spec_u32_from_le_bytes(
                            b0.subrange(p_code + 8, p_code + 12),
                        ) as int;
                        assert(cntw == n);
                        let rpos = p_code + 12 + 4 * cntw;
                        assert(b0.subrange(rpos, rpos + crate::code::code_rec_pos(cd0, cntw))
                            == crate::code::code_recs_bytes(cd0, code_name_offsets@));
                        assert(exists|j: int|
                            crate::xref::resolves_to(
                                offsets@,
                                code_name_offsets@[i as int],
                                j,
                            ));
                        assert(false);
                    }
                    assert(!gd_refs_resolved(b0, pos0));
                }
                return Err(e);
            },
        };
        code.code_chunks[i].name_index = ni;
        i = i + 1;
    }
    let ghost var0 = variables.variables@;
    let mut i: usize = 0;
    while i < variables.variables.len()
        invariant
            offsets@.len() == ns,
            ns == strings@.len(),
            var_name_offsets@.len() == variables.variables@.len(),
            variables.variables@.len() == var0.len(),
            forall|j: int| i <= j < var0.len() ==> variables.variables@[j] == var0[j],
            forall|j: int|
                0 <= j < i ==> {
                    &&& (#[trigger] variables.variables@[j]).name_index < ns
                    &&& variables.variables@[j].unknown == var0[j].unknown
                    &&& variables.variables@[j].code_offset == var0[j].code_offset
                    &&& crate::xref::resolves_to(
                        offsets@,
                        var_name_offsets@[j],
                        variables.variables@[j].name_index as int,
                    )
                },
        decreases variables.variables@.len() - i,
    {
        let ni = match resolve(&offsets, var_name_offsets[i]) {
            Ok(v) => v,
            Err(e) => {
                proof {
                    let n = var0.len() as int;
                    assert(chunk_size_at(b0, p_vari) == 12 * n);
                    let cntw = spec_u32_from_le_bytes(b0.subrange(p_vari + 4, p_vari + 8)) as int
                        / 12;
                    assert(cntw == n);
                    assert(var_name_offsets@[i as int] == parse_u32s(
                        b0,
                        p_vari + 8 + 12 * (i as int),
                        3,
                    )[0]);
                    if crate::variables::vari_refs_ok(b0, p_vari, offsets@) {
                        assert(false);
                    }
                    assert(!gd_refs_resolved(b0, pos0));
                }
                return Err(e);
            },
        };
        variables.variables[i].name_index = ni;
        i = i + 1;
    }
    let ghost fun0 = functions.functions@;
    let mut i: usize = 0;
    while i < functions.functions.len()
        invariant
            offsets@.len() == ns,
            ns == strings@.len(),
            fun_name_offsets@.len() == functions.functions@.len(),
            functions.functions@.len() == fun0.len(),
            forall|j: int| i <= j < fun0.len() ==> functions.functions@[j] == fun0[j],
            forall|j: int|
                0 <= j < i ==> {
                    &&& (#[trigger] functions.functions@[j]).name_index < ns
                    &&& functions.functions@[j].unknown == fun0[j].unknown
                    &&& functions.functions@[j].code_offset == fun0[j].code_offset
                    &&& crate::xref::resolves_to(
                        offsets@,
                        fun_name_offsets@[j],
                        functions.functions@[j].name_index as int,
                    )
                },
        decreases functions.functions@.len() - i,
    {
        let ni = match resolve(&offsets, fun_name_offsets[i]) {
            Ok(v) => v,
            Err(e) => {
                proof {
                    let n = fun0.len() as int;
                    assert(chunk_size_at(b0, p_func) == 12 * n);
                    let cntw = spec_u32_from_le_bytes(b0.subrange(p_func + 4, p_func + 8)) as int
                        / 12;
                    assert(cntw == n);
                    assert(fun_name_offsets@[i as int] == parse_u32s(
                        b0,
                        p_func + 8 + 12 * (i as int),
                        3,
                    )[0]);
                    if crate::functions::func_refs_ok(b0, p_func, offsets@) {
                        assert(false);
                    }
                    assert(!gd_refs_resolved(b0, pos0));
                }
                return Err(e);
            },
        };
        functions.functions[i].name_index = ni;
        i = i + 1;
    }
    let textures_base = match r.tell().checked_add(8) {
        Some(p) => p,
        None => {
            proof {
                assert(b0.len() + 8 > u32::MAX);
            }
            return Err(ReadError::UnexpectedEof);
        },
    };
    let textures = match Txtr::read(r) {
        Ok(v) => v,
        Err(e) => {
            return Err(e);
        },
    };
    let n_tex = textures.textures.len();
    if textures_base > u32::MAX as usize || n_tex as u64 > u32::MAX as u64 || (textures_base
        as u64) + 4 + 12 * (n_tex as u64) > u32::MAX as u64 {
        proof {
            assert(b0.len() + 8 > u32::MAX);
        }
        return Err(ReadError::UnexpectedEof);
    }
    let tdo = texture_data_offset(&textures, textures_base as u32);
    proof {
        assert(crate::strings::parse_strg(b0, p_strg).unwrap().2 == textures_base - 8);
        assert(gd_txtr_pos(b0, pos0) == textures_base as int - 8);
        assert(gd_read_tdo(b0, pos0) == tdo);
        assert(gd_icon_raw(b0, pos0) == opt_offsets.icon_offset);
    }
    if opt_offsets.icon_offset < tdo {
        return Err(ReadError::IconOffsetOutOfRange { offset: opt_offsets.icon_offset });
    }
    opts.icon_offset = opt_offsets.icon_offset - tdo;
    let ghost p_audo = r.pos as int;
    let audio = match Audio::read(r) {
        Ok(v) => v,
        Err(e) => {
            return Err(e);
        },
    };
    let result = GameData {
        metadata: meta,
        options: opts,
        extn,
        sounds,
        audio_groups,
        sprites,
        backgrounds,
        paths,
        scripts,
        shaders,
        fonts,
        timelines,
        objects,
        rooms,
        dafl,
        tpag,
        code,
        variables,
        functions,
        strings,
        textures,
        audio,
    };
    proof {
        let cnt17 = spec_u32_from_le_bytes(b0.subrange(p_code + 8, p_code + 12)) as int;
        assert(crate::code::code_walk_end(b0, p_code + 12 + 4 * cnt17, cnt17 as nat) == p_vari);
        assert(crate::variables::vari_parse_ok(b0, p_vari));
        assert(crate::functions::func_parse_ok(b0, p_func));
        assert(crate::strings::parse_strg(b0, p_strg) is Some);
        assert(crate::textures::txtr_parse_ok(b0, textures_base as int - 8));
        assert(p_audo == crate::textures::txtr_fin(b0, textures_base as int - 8)
            + crate::cursor::pad_len(crate::textures::txtr_fin(b0, textures_base as int - 8), 16));
        assert(crate::audio::audo_parse_ok(b0, p_audo));
        assert(gd_parse_ok_rear(b0, p_code));
        assert(gd_parse_ok_mid(b0, p_scpt));
        assert(gd_parse_ok(b0, pos0));
        assert(p_audo == gd_audo_pos(b0, pos0));
        let tbl = gd_strg_offsets(b0, pos0);
        assert(tbl == offsets@);
        assert(crate::meta_data::gen8_resolved_ok(b0, pos0 + 8, meta, tbl)) by {
            assert(meta_string_offsets.game_id_1 == parse_u32s(b0, pos0 + 16, 26)[1]);
            assert(meta_string_offsets.default == parse_u32s(b0, pos0 + 16, 26)[2]);
            assert(meta_string_offsets.game_id_2 == parse_u32s(b0, pos0 + 16, 26)[10]);
            assert(meta_string_offsets.window_title == parse_u32s(b0, pos0 + 16, 26)[25]);
        }
        assert(crate::options::optn_resolved_ok(b0, p_optn, opts, tbl, tdo as int));
        assert(crate::sounds::sond_resolved_ok(b0, p_sond, sounds.sounds@, tbl)) by {
            let n = snd0.len() as int;
            assert forall|i: int| 0 <= i < n implies {
                let rw = parse_u32s(b0, p_sond + 12 + 4 * n + 36 * i, 9);
                &&& crate::xref::resolves_to(
                    tbl,
                    rw[0],
                    (#[trigger] sounds.sounds@[i]).name_index as int,
                )
                &&& sounds.sounds@[i].unk1 == rw[1]
                &&& crate::xref::resolves_to(tbl, rw[2], sounds.sounds@[i].ext_index as int)
                &&& crate::xref::resolves_to(tbl, rw[3], sounds.sounds@[i].filename_index as int)
                &&& sounds.sounds@[i].unk2 == rw[4]
                &&& sounds.sounds@[i].unk3 == rw[5]
                &&& sounds.sounds@[i].unk4 == rw[6]
                &&& sounds.sounds@[i].unk5 == rw[7]
                &&& sounds.sounds@[i].unk6 == rw[8]
            } by {
                assert(sound_string_offsets@[i].name_offset == parse_u32s(
                    b0,
                    p_sond + 12 + 4 * n + 36 * i,
                    9,
                )[0]);
                assert(snd0[i].unk1 == parse_u32s(b0, p_sond + 12 + 4 * n + 36 * i, 9)[1]);
            }
        }
        assert(crate::sprites::sprt_resolved_ok(b0, p_sprt, sprites.sprites@, tbl)) by {
            let n = spr0.len() as int;
            let stbl = parse_u32s(b0, p_sprt + 12, n as nat);
            let end = p_sprt + 8 + chunk_size_at(b0, p_sprt);
            assert forall|i: int| 0 <= i < n implies {
                &&& crate::xref::resolves_to(
                    tbl,
                    spec_u32_from_le_bytes(b0.subrange(stbl[i] as int, stbl[i] as int + 4)),
                    (#[trigger] sprites.sprites@[i]).name_index as int,
                )
                &&& sprites.sprites@[i].width == spec_u32_from_le_bytes(
                    b0.subrange(stbl[i] as int + 4, stbl[i] as int + 8),
                )
                &&& sprites.sprites@[i].height == spec_u32_from_le_bytes(
                    b0.subrange(stbl[i] as int + 8, stbl[i] as int + 12),
                )
                &&& sprites.sprites@[i].unknown@ == b0.subrange(
                    stbl[i] as int + 12,
                    crate::sprites::sprt_rec_end(stbl, i, end),
                )
            } by {
                assert(sprite_name_offsets@[i] == spec_u32_from_le_bytes(
                    b0.subrange(stbl[i] as int, stbl[i] as int + 4),
                ));
                assert(spr0[i].width == spec_u32_from_le_bytes(
                    b0.subrange(stbl[i] as int + 4, stbl[i] as int + 8),
                ));
            }
        }
        assert(crate::scripts::scpt_resolved_ok(b0, p_scpt, scripts.scripts@, tbl)) by {
            let n = scr0.len() as int;
            assert forall|i: int| 0 <= i < n implies {
                let rw = parse_u32s(b0, p_scpt + 12 + 4 * n + 8 * i, 2);
                &&& crate::xref::resolves_to(
                    tbl,
                    rw[0],
                    (#[trigger] scripts.scripts@[i]).name_index as int,
                )
                &&& scripts.scripts@[i].unknown == rw[1]
            } by {
                assert(script_name_offsets@[i] == parse_u32s(
                    b0,
                    p_scpt + 12 + 4 * n + 8 * i,
                    2,
                )[0]);
                assert(scr0[i].unknown == parse_u32s(b0, p_scpt + 12 + 4 * n + 8 * i, 2)[1]);
            }
        }
        assert(crate::fonts::font_resolved_ok(b0, p_font, fonts.fonts@, tbl)) by {
            let n = fnt0.len() as int;
            let ftbl = parse_u32s(b0, p_font + 12, n as nat);
            let end = p_font + 8 + chunk_size_at(b0, p_font);
            assert forall|i: int| 0 <= i < n implies {
                &&& crate::xref::resolves_to(
                    tbl,
                    spec_u32_from_le_bytes(b0.subrange(ftbl[i] as int, ftbl[i] as int + 4)),
                    (#[trigger] fonts.fonts@[i]).name_index as int,
                )
                &&& crate::xref::resolves_to(
                    tbl,
                    spec_u32_from_le_bytes(b0.subrange(ftbl[i] as int + 4, ftbl[i] as int + 8)),
                    fonts.fonts@[i].font_name_index as int,
                )
                &&& fonts.fonts@[i].point_size == spec_u32_from_le_bytes(
                    b0.subrange(ftbl[i] as int + 8, ftbl[i] as int + 12),
                )
                &&& fonts.fonts@[i].data@ == b0.subrange(
                    ftbl[i] as int + 12,
                    crate::fonts::font_rec_end(ftbl, i, end),
                )
            } by {
                assert(font_string_offsets@[i].name == spec_u32_from_le_bytes(
                    b0.subrange(ftbl[i] as int, ftbl[i] as int + 4),
                ));
                assert(fnt0[i].point_size == spec_u32_from_le_bytes(
                    b0.subrange(ftbl[i] as int + 8, ftbl[i] as int + 12),
                ));
            }
        }
        assert(crate::code::code_resolved_ok(b0, p_code, code.code_chunks@, tbl)) by {
            let n = cd0.len() as int;
            let rpos = p_code + 12 + 4 * n;
            crate::code::lemma_code_recs_bytes_same_raw(
                code.code_chunks@,
                cd0,
                code_name_offsets@,
            );
            assert(b0.subrange(rpos, rpos + crate::code::code_rec_pos(code.code_chunks@, n))
                == crate::code::code_recs_bytes(code.code_chunks@, code_name_offsets@));
            assert(forall|i: int|
                0 <= i < n ==> crate::xref::resolves_to(
                    tbl,
                    code_name_offsets@[i],
                    (#[trigger] code.code_chunks@[i]).name_index as int,
                ));
        }
        assert(crate::variables::vari_resolved_ok(b0, p_vari, variables.variables@, tbl)) by {
            let n = var0.len() as int;
            assert forall|i: int| 0 <= i < n implies {
                let rw = parse_u32s(b0, p_vari + 8 + 12 * i, 3);
                &&& crate::xref::resolves_to(
                    tbl,
                    rw[0],
                    (#[trigger] variables.variables@[i]).name_index as int,
                )
                &&& variables.variables@[i].unknown == rw[1]
                &&& variables.variables@[i].code_offset == rw[2]
            } by {
                assert(var_name_offsets@[i] == parse_u32s(b0, p_vari + 8 + 12 * i, 3)[0]);
                assert(var0[i].unknown == parse_u32s(b0, p_vari + 8 + 12 * i, 3)[1]);
            }
        }
        assert(crate::functions::func_resolved_ok(b0, p_func, functions.functions@, tbl)) by {
            let n = fun0.len() as int;
            assert forall|i: int| 0 <= i < n implies {
                let rw = parse_u32s(b0, p_func + 8 + 12 * i, 3);
                &&& crate::xref::resolves_to(
                    tbl,
                    rw[0],
                    (#[trigger] functions.functions@[i]).name_index as int,
                )
                &&& functions.functions@[i].unknown == rw[1]
                &&& functions.functions@[i].code_offset == rw[2]
            } by {
                assert(fun_name_offsets@[i] == parse_u32s(b0, p_func + 8 + 12 * i, 3)[0]);
                assert(fun0[i].unknown == parse_u32s(b0, p_func + 8 + 12 * i, 3)[1]);
            }
        }
        assert(result.strings@ == crate::strings::parse_strg(b0, p_strg).unwrap().0);
        assert(crate::textures::txtr_read_ok(b0, textures_base as int - 8, textures.textures@));
        assert(crate::audio::audo_read_ok(b0, p_audo, audio));
        assert(gd_reads_to(b0, pos0, result));
    }
    Ok(result)
}

/// The recomputed layout overruns the 32-bit fields somewhere: a chunk's
/// content length, one of the layout bases, the re-based icon offset, a
/// malformed audio record set, or the whole `FORM` content.  Exactly the
/// conditions under which encoding fails with `TooLarge`.
pub open spec fn gd_too_large(g: GameData, orig: Seq<u8>) -> bool {
    ||| crate::meta_data::gen8_content_len(g.metadata) > u32::MAX
    ||| g.extn@.len() > u32::MAX
    ||| crate::sounds::sond_content_len(g.sounds.sounds@.len() as int) > u32::MAX
    ||| (g.audio_groups is Some && opt_bytes_view(g.audio_groups).unwrap().len() > u32::MAX)
    ||| crate::sprites::sprt_content_len(g.sprites.sprites@) > u32::MAX
    ||| g.backgrounds@.len() > u32::MAX
    ||| g.paths@.len() > u32::MAX
    ||| crate::scripts::scpt_content_len(g.scripts.scripts@.len() as int) > u32::MAX
    ||| g.shaders@.len() > u32::MAX
    ||| crate::fonts::font_content_len(g.fonts.fonts@) > u32::MAX
    ||| g.timelines@.len() > u32::MAX
    ||| g.objects@.len() > u32::MAX
    ||| g.rooms@.len() > u32::MAX
    ||| g.dafl@.len() > u32::MAX
    ||| g.tpag@.len() > u32::MAX
    ||| crate::code::code_content_len(g.code.code_chunks@) > u32::MAX
    ||| crate::variables::vari_content_len(g.variables.variables@.len() as int) > u32::MAX
    ||| crate::functions::func_content_len(g.functions.functions@.len() as int) > u32::MAX
    ||| gd_strg_cbase(g) > u32::MAX
    ||| !crate::strings::strg_fits(g.strings@, gd_strg_cbase(g))
    ||| gd_tdo(g) > u32::MAX
    ||| gd_tdo(g) + g.options.icon_offset > u32::MAX
    ||| !crate::audio::audo_wf(g.audio.audio@, g.audio.offsets@)
    ||| crate::audio::audo_content_len(g.audio.audio@, g.audio.offsets@) > u32::MAX
    ||| gd_txtr_cbase(g) + crate::textures::txtr_content(
        g.textures.textures@,
        orig,
        gd_txtr_cbase(g),
    ).len() > u32::MAX
    ||| gd_form_content(g, orig).len() + 8 > u32::MAX
}

/// Whether another chunk of content size `sz` still fits the 32-bit
/// offset space at the writer's current position.
fn fits_at(w: &Writer, sz: u32) -> (ok: bool)
    ensures
        ok ==> w.data@.len() + 8 + sz <= u32::MAX,
{
    let t = w.tell();
    t <= (u32::MAX as usize) && (t as u64) + 8 + (sz as u64) <= u32::MAX as u64
}

/// The layout-derived bases every deferred offset is recomputed from:
/// the string table's absolute content position (the single source the
/// whole cross-reference offset array is derived from) and the texture
/// data base the icon offset is re-based onto.
struct Layout {
    strg_content_base: u32,
    texture_data_base: u32,
}

/// A chunk's recomputed content overrunning the 32-bit length field
/// makes the whole layout too large.
proof fn lemma_gd_tl_chunks(g: GameData, orig: Seq<u8>)
    requires
        ({
            ||| crate::meta_data::gen8_content_len(g.metadata) > u32::MAX
            ||| g.extn@.len() > u32::MAX
            ||| crate::sounds::sond_content_len(g.sounds.sounds@.len() as int) > u32::MAX
            ||| (g.audio_groups is Some && opt_bytes_view(g.audio_groups).unwrap().len()
                > u32::MAX)
            ||| crate::sprites::sprt_content_len(g.sprites.sprites@) > u32::MAX
            ||| g.backgrounds@.len() > u32::MAX
            ||| g.paths@.len() > u32::MAX
            ||| crate::scripts::scpt_content_len(g.scripts.scripts@.len() as int) > u32::MAX
            ||| g.shaders@.len() > u32::MAX
            ||| crate::fonts::font_content_len(g.fonts.fonts@) > u32::MAX
            ||| g.timelines@.len() > u32::MAX
            ||| g.objects@.len() > u32::MAX
            ||| g.rooms@.len() > u32::MAX
            ||| g.dafl@.len() > u32::MAX
            ||| g.tpag@.len() > u32::MAX
            ||| crate::code::code_content_len(g.code.code_chunks@) > u32::MAX
            ||| crate::variables::vari_content_len(g.variables.variables@.len() as int)
                > u32::MAX
            ||| crate::functions::func_content_len(g.functions.functions@.len() as int)
                > u32::MAX
        }),
    ensures
        gd_too_large(g, orig),
{
}

/// The string table's base overrunning makes the layout too large.
proof fn lemma_gd_tl_cbase(g: GameData, orig: Seq<u8>)
    requires
        gd_strg_cbase(g) > u32::MAX,
    ensures
        gd_too_large(g, orig),
{
}

/// A string offset not fitting the 32-bit field makes the layout too
/// large.
proof fn lemma_gd_tl_fits(g: GameData, orig: Seq<u8>)
    requires
        !crate::strings::strg_fits(g.strings@, gd_strg_cbase(g)),
    ensures
        gd_too_large(g, orig),
{
}

/// The texture data base overrunning makes the layout too large.
proof fn lemma_gd_tl_tdo(g: GameData, orig: Seq<u8>)
    requires
        gd_tdo(g) > u32::MAX,
    ensures
        gd_too_large(g, orig),
{
}

/// The re-based icon offset overrunning makes the layout too large.
proof fn lemma_gd_tl_icon(g: GameData, orig: Seq<u8>)
    requires
        gd_tdo(g) + g.options.icon_offset > u32::MAX,
    ensures
        gd_too_large(g, orig),
{
}

/// Sums the recomputed sizes of the chunks `GEN8` through `PATH`,
/// starting past the `FORM` header.  Fails when a record set overruns
/// the 32-bit fields.
#[verifier::loop_isolation(false)]
#[verifier::rlimit(100)]
#[verifier::spinoff_prover]
fn layout_presum_front(data: &GameData, orig: &Reader) -> (res: Result<u64, WriteError>)
    ensures
        match res {
            Ok(p) => {
                &&& p == 8 + (8 + crate::meta_data::gen8_content_len(data.metadata)) + (8
                    + crate::options::optn_content_len()) + (8 + data.extn@.len()) + (8
                    + crate::sounds::sond_content_len(data.sounds.sounds@.len() as int)) + (
                match data.audio_groups {
                    Some(d) => 8 + d@.len() as int,
                    None => 0,
                }) + (8 + crate::sprites::sprt_content_len(data.sprites.sprites@)) + (8
                    + data.backgrounds@.len()) + (8 + data.paths@.len())
                &&& 8 <= p <= 0x10_0000_0000u64
                &&& data.shaders@.len() <= u32::MAX
                &&& data.timelines@.len() <= u32::MAX
                &&& data.objects@.len() <= u32::MAX
                &&& data.rooms@.len() <= u32::MAX
                &&& data.dafl@.len() <= u32::MAX
                &&& data.tpag@.len() <= u32::MAX
            },
            Err(e) => e is TooLarge && gd_too_large(*data, orig.data@),
        },
{
    let mut pre: u64 = 8;
    let s_gen8 = match data.metadata.content_size() {
        Ok(v) => v,
        Err(e) => {
            proof {
                lemma_gd_tl_chunks(*data, orig.data@);
            }
            return Err(e);
        },
    };
    pre = pre + 8 + (s_gen8 as u64);
    pre = pre + 8 + (data.options.content_size() as u64);
    if data.extn.len() > u32::MAX as usize {
        proof {
            lemma_gd_tl_chunks(*data, orig.data@);
        }
        return Err(WriteError::TooLarge);
    }
    pre = pre + 8 + (data.extn.len() as u64);
    let s_sond = match data.sounds.content_size() {
        Ok(v) => v,
        Err(e) => {
            proof {
                lemma_gd_tl_chunks(*data, orig.data@);
            }
            return Err(e);
        },
    };
    pre = pre + 8 + (s_sond as u64);
    match &data.audio_groups {
        Some(d) => {
            if d.len() > u32::MAX as usize {
                proof {
            lemma_gd_tl_chunks(*data, orig.data@);
        }
        return Err(WriteError::TooLarge);
            }
            pre = pre + 8 + (d.len() as u64);
        },
        None => {},
    }
    let s_sprt = match data.sprites.content_size() {
        Ok(v) => v,
        Err(e) => {
            proof {
                lemma_gd_tl_chunks(*data, orig.data@);
            }
            return Err(e);
        },
    };
    pre = pre + 8 + (s_sprt as u64);
    if data.backgrounds.len() > u32::MAX as usize || data.paths.len() > u32::MAX as usize
        || data.shaders.len() > u32::MAX as usize || data.timelines.len() > u32::MAX as usize
        || data.objects.len() > u32::MAX as usize || data.rooms.len() > u32::MAX as usize
        || data.dafl.len() > u32::MAX as usize || data.tpag.len() > u32::MAX as usize {
        proof {
            lemma_gd_tl_chunks(*data, orig.data@);
        }
        return Err(WriteError::TooLarge);
    }
    pre = pre + 8 + (data.backgrounds.len() as u64);
    pre = pre + 8 + (data.paths.len() as u64);
    Ok(pre)
}

/// Sums every chunk's recomputed size from the `FORM` header through
/// the `FUNC` chunk: the string table's content position, less its own
/// chunk header.  Fails when a record set overruns the 32-bit fields.
#[verifier::loop_isolation(false)]
#[verifier::rlimit(100)]
#[verifier::spinoff_prover]
fn layout_presum(data: &GameData, orig: &Reader) -> (res: Result<u64, WriteError>)
    ensures
        match res {
            Ok(p) => p + 8 == gd_strg_cbase(*data) && 8 <= p <= 0x20_0000_0000u64,
            Err(e) => e is TooLarge && gd_too_large(*data, orig.data@),
        },
{
    let mut pre: u64 = match layout_presum_front(data, orig) {
        Ok(p) => p,
        Err(e) => {
            return Err(e);
        },
    };
    let s_scpt = match data.scripts.content_size() {
        Ok(v) => v,
        Err(e) => {
            proof {
                lemma_gd_tl_chunks(*data, orig.data@);
            }
            return Err(e);
        },
    };
    pre = pre + 8 + (s_scpt as u64);
    pre = pre + 8 + (data.shaders.len() as u64);
    let s_font = match data.fonts.content_size() {
        Ok(v) => v,
        Err(e) => {
            proof {
                lemma_gd_tl_chunks(*data, orig.data@);
            }
            return Err(e);
        },
    };
    pre = pre + 8 + (s_font as u64);
    pre = pre + 8 + (data.timelines.len() as u64);
    pre = pre + 8 + (data.objects.len() as u64);
    pre = pre + 8 + (data.rooms.len() as u64);
    pre = pre + 8 + (data.dafl.len() as u64);
    pre = pre + 8 + (data.tpag.len() as u64);
    let s_code = match data.code.content_size() {
        Ok(v) => v,
        Err(e) => {
            proof {
                lemma_gd_tl_chunks(*data, orig.data@);
            }
            return Err(e);
        },
    };
    pre = pre + 8 + (s_code as u64);
    let s_vari = match data.variables.content_size() {
        Ok(v) => v,
        Err(e) => {
            proof {
                lemma_gd_tl_chunks(*data, orig.data@);
            }
            return Err(e);
        },
    };
    pre = pre + 8 + (s_vari as u64);
    let s_func = match data.functions.content_size() {
        Ok(v) => v,
        Err(e) => {
            proof {
                lemma_gd_tl_chunks(*data, orig.data@);
            }
            return Err(e);
        },
    };
    pre = pre + 8 + (s_func as u64);
    Ok(pre)
}

/// Computes the layout-derived bases: the chunk sums up to the string
/// table, then up to the texture data region.  Fails when a record set
/// overruns the 32-bit fields.
#[verifier::loop_isolation(false)]
#[verifier::rlimit(100)]
#[verifier::spinoff_prover]
fn compute_layout(data: &GameData, orig: &Reader) -> (res: Result<Layout, WriteError>)
    ensures
        match res {
            Ok(l) => {
                &&& crate::strings::strg_fits(data.strings@, l.strg_content_base as int)
                &&& l.texture_data_base + data.options.icon_offset <= u32::MAX
                &&& l.strg_content_base == gd_strg_cbase(*data)
                &&& l.texture_data_base == gd_tdo(*data)
            },
            Err(e) => e is TooLarge && gd_too_large(*data, orig.data@),
        },
{
    let pre = match layout_presum(data, orig) {
        Ok(p) => p,
        Err(e) => {
            return Err(e);
        },
    };
    if pre + 8 > u32::MAX as u64 {
        proof {
            assert(pre + 8 == gd_strg_cbase(*data));
            lemma_gd_tl_cbase(*data, orig.data@);
        }
        return Err(WriteError::TooLarge);
    }
    let strg_content_base = (pre + 8) as u32;
    let s_strg = match data.strings.content_size(strg_content_base) {
        Ok(v) => v,
        Err(e) => {
            proof {
                lemma_gd_tl_fits(*data, orig.data@);
            }
            return Err(e);
        },
    };
    let txtr_start = pre + 8 + (s_strg as u64);
    let n_tex = data.textures.textures.len();
    if n_tex as u64 > ((u32::MAX as u64) - 4) / 12 {
        proof {
            crate::strings::lemma_strg_content_len(data.strings@, strg_content_base as int);
            assert(gd_tdo(*data) > u32::MAX);
            lemma_gd_tl_tdo(*data, orig.data@);
        }
        return Err(WriteError::TooLarge);
    }
    if txtr_start + 8 + 4 + 12 * (n_tex as u64) > u32::MAX as u64 {
        proof {
            crate::strings::lemma_strg_content_len(data.strings@, strg_content_base as int);
            assert(gd_tdo(*data) > u32::MAX);
            lemma_gd_tl_tdo(*data, orig.data@);
        }
        return Err(WriteError::TooLarge);
    }
    let texture_data_base = (txtr_start + 8 + 4 + 12 * (n_tex as u64)) as u32;
    if (texture_data_base as u64) + (data.options.icon_offset as u64) > u32::MAX as u64 {
        proof {
            crate::strings::lemma_strg_content_len(data.strings@, strg_content_base as int);
            assert(texture_data_base == gd_tdo(*data));
            lemma_gd_tl_icon(*data, orig.data@);
        }
        return Err(WriteError::TooLarge);
    }
    proof {
        assert(strg_content_base == gd_strg_cbase(*data));
        crate::strings::lemma_strg_content_len(data.strings@, strg_content_base as int);
        assert(texture_data_base == gd_tdo(*data));
    }
    Ok(Layout { strg_content_base, texture_data_base })
}

/// Writes the chunks `GEN8` through `PATH`.  A failure may leave some of
/// them already written.
#[verifier::loop_isolation(false)]
#[verifier::rlimit(100)]
#[verifier::spinoff_prover]
fn write_segment_a(data: &GameData, w: &mut Writer, soffs: &Vec<u32>, tdo: u32) -> (res: Result<
    (),
    WriteError,
>)
    requires
        gd_wf(*data),
        tdo + data.options.icon_offset <= u32::MAX,
        soffs@.len() == data.strings@.len(),
    ensures
        match res {
            Ok(()) => final(w).data@ == old(w).data@ + gd_content_a(
                *data,
                old(w).data@.len() as int,
                soffs@,
                tdo as int,
            ),
            Err(e) => e is TooLarge,
        },
{
    proof {
        lemma_auto_spec_u32_to_from_le_bytes();
    }
    let ghost base_seq = w.data@;
    let ghost mut acc: Seq<u8> = Seq::empty();
    proof {
        assert(w.data@ =~= base_seq + acc);
    }
    let sz = match data.metadata.content_size() {
        Ok(v) => v,
        Err(e) => {
            return Err(e);
        },
    };
    if !fits_at(w, sz) {
        return Err(WriteError::TooLarge);
    }
    match data.metadata.write(w, soffs) {
        Ok(()) => (),
        Err(e) => {
            return Err(e);
        },
    }
    proof {
        let c = chunk_bytes(TAG_GEN8, crate::meta_data::gen8_content(data.metadata, soffs@));
        assert(w.data@ =~= base_seq + (acc + c));
        acc = acc + c;
    }
    match data.options.write(w, soffs, tdo) {
        Ok(()) => (),
        Err(e) => {
            return Err(e);
        },
    }
    proof {
        let c = chunk_bytes(TAG_OPTN, crate::options::optn_content(data.options, soffs@, tdo as int));
        assert(w.data@ =~= base_seq + (acc + c));
        acc = acc + c;
    }
    if data.extn.len() > u32::MAX as usize {
        return Err(WriteError::TooLarge);
    }
    write_chunk(w, TAG_EXTN, &data.extn);
    proof {
        let c = chunk_bytes(TAG_EXTN, data.extn@);
        assert(w.data@ =~= base_seq + (acc + c));
        acc = acc + c;
    }
    let sz = match data.sounds.content_size() {
        Ok(v) => v,
        Err(e) => {
            return Err(e);
        },
    };
    if !fits_at(w, sz) {
        return Err(WriteError::TooLarge);
    }
    match data.sounds.write(w, soffs) {
        Ok(()) => (),
        Err(e) => {
            return Err(e);
        },
    }
    proof {
        let c = chunk_bytes(
            TAG_SOND,
            crate::sounds::sond_content(data.sounds.sounds@, base_seq.len() as int + acc.len() as int + 8, soffs@),
        );
        assert(w.data@ =~= base_seq + (acc + c));
        acc = acc + c;
    }
    if let Some(d) = &data.audio_groups {
        if d.len() > u32::MAX as usize {
            return Err(WriteError::TooLarge);
        }
        write_chunk(w, TAG_AGRP, d);
    }
    proof {
        let c = opt_chunk_bytes(TAG_AGRP, opt_bytes_view(data.audio_groups));
        assert(w.data@ =~= base_seq + (acc + c));
        acc = acc + c;
    }
    let sz = match data.sprites.content_size() {
        Ok(v) => v,
        Err(e) => {
            return Err(e);
        },
    };
    if !fits_at(w, sz) {
        return Err(WriteError::TooLarge);
    }
    match data.sprites.write(w, soffs) {
        Ok(()) => (),
        Err(e) => {
            return Err(e);
        },
    }
    proof {
        let c = chunk_bytes(
            TAG_SPRT,
            crate::sprites::sprt_content(data.sprites.sprites@, base_seq.len() as int + acc.len() as int + 8, soffs@),
        );
        assert(w.data@ =~= base_seq + (acc + c));
        acc = acc + c;
    }
    if data.backgrounds.len() > u32::MAX as usize || data.paths.len() > u32::MAX as usize {
        return Err(WriteError::TooLarge);
    }
    write_chunk(w, TAG_BGND, &data.backgrounds);
    proof {
        let c = chunk_bytes(TAG_BGND, data.backgrounds@);
        assert(w.data@ =~= base_seq + (acc + c));
        acc = acc + c;
    }
    write_chunk(w, TAG_PATH, &data.paths);
    proof {
        let c = chunk_bytes(TAG_PATH, data.paths@);
        assert(w.data@ =~= base_seq + (acc + c));
        acc = acc + c;
        assert(acc =~= gd_content_a(*data, base_seq.len() as int, soffs@, tdo as int));
    }
    Ok(())
}

/// Writes the chunks `SCPT` through `TPAG`.
#[verifier::loop_isolation(false)]
#[verifier::rlimit(100)]
#[verifier::spinoff_prover]
fn write_segment_b(data: &GameData, w: &mut Writer, soffs: &Vec<u32>) -> (res: Result<
    (),
    WriteError,
>)
    requires
        gd_wf(*data),
        soffs@.len() == data.strings@.len(),
    ensures
        match res {
            Ok(()) => final(w).data@ == old(w).data@ + gd_content_b(
                *data,
                old(w).data@.len() as int,
                soffs@,
            ),
            Err(e) => e is TooLarge,
        },
{
    proof {
        lemma_auto_spec_u32_to_from_le_bytes();
    }
    let ghost base_seq = w.data@;
    let ghost mut acc: Seq<u8> = Seq::empty();
    proof {
        assert(w.data@ =~= base_seq + acc);
    }
    let sz = match data.scripts.content_size() {
        Ok(v) => v,
        Err(e) => {
            return Err(e);
        },
    };
    if !fits_at(w, sz) {
        return Err(WriteError::TooLarge);
    }
    match data.scripts.write(w, soffs) {
        Ok(()) => (),
        Err(e) => {
            return Err(e);
        },
    }
    proof {
        let c = chunk_bytes(
            TAG_SCPT,
            crate::scripts::scpt_content(data.scripts.scripts@, base_seq.len() as int + acc.len() as int + 8, soffs@),
        );
        assert(w.data@ =~= base_seq + (acc + c));
        acc = acc + c;
    }
    if data.shaders.len() > u32::MAX as usize {
        return Err(WriteError::TooLarge);
    }
    write_chunk(w, TAG_SHDR, &data.shaders);
    proof {
        let c = chunk_bytes(TAG_SHDR, data.shaders@);
        assert(w.data@ =~= base_seq + (acc + c));
        acc = acc + c;
    }
    let sz = match data.fonts.content_size() {
        Ok(v) => v,
        Err(e) => {
            return Err(e);
        },
    };
    if !fits_at(w, sz) {
        return Err(WriteError::TooLarge);
    }
    match data.fonts.write(w, soffs) {
        Ok(()) => (),
        Err(e) => {
            return Err(e);
        },
    }
    proof {
        let c = chunk_bytes(
            TAG_FONT,
            crate::fonts::font_content(
                data.fonts.fonts@,
                base_seq.len() as int + acc.len() as int + 8,
                soffs@,
            ),
        );
        assert(w.data@ =~= base_seq + (acc + c));
        acc = acc + c;
    }
    if data.timelines.len() > u32::MAX as usize || data.objects.len() > u32::MAX as usize
        || data.rooms.len() > u32::MAX as usize || data.dafl.len() > u32::MAX as usize
        || data.tpag.len() > u32::MAX as usize {
        return Err(WriteError::TooLarge);
    }
    write_chunk(w, TAG_TMLN, &data.timelines);
    proof {
        let c = chunk_bytes(TAG_TMLN, data.timelines@);
        assert(w.data@ =~= base_seq + (acc + c));
        acc = acc + c;
    }
    write_chunk(w, TAG_OBJT, &data.objects);
    proof {
        let c = chunk_bytes(TAG_OBJT, data.objects@);
        assert(w.data@ =~= base_seq + (acc + c));
        acc = acc + c;
    }
    write_chunk(w, TAG_ROOM, &data.rooms);
    proof {
        let c = chunk_bytes(TAG_ROOM, data.rooms@);
        assert(w.data@ =~= base_seq + (acc + c));
        acc = acc + c;
    }
    write_chunk(w, TAG_DAFL, &data.dafl);
    proof {
        let c = chunk_bytes(TAG_DAFL, data.dafl@);
        assert(w.data@ =~= base_seq + (acc + c));
        acc = acc + c;
    }
    write_chunk(w, TAG_TPAG, &data.tpag);
    proof {
        let c = chunk_bytes(TAG_TPAG, data.tpag@);
        assert(w.data@ =~= base_seq + (acc + c));
        acc = acc + c;
        assert(acc =~= gd_content_b(*data, base_seq.len() as int, soffs@));
    }
    Ok(())
}

/// Writes the chunks `CODE` through `AUDO`.
#[verifier::loop_isolation(false)]
#[verifier::rlimit(100)]
#[verifier::spinoff_prover]
fn write_segment_c(data: &GameData, w: &mut Writer, soffs: &Vec<u32>, orig: &Reader) -> (res:
    Result<(), WriteError>)
    requires
        gd_wf(*data),
        soffs@.len() == data.strings@.len(),
    ensures
        match res {
            Ok(()) => final(w).data@ == old(w).data@ + gd_content_c(
                *data,
                old(w).data@.len() as int,
                soffs@,
                orig.data@,
            ),
            Err(e) => {
                &&& (e is TooLarge || e is BadTextureRef || e is BadAudioLayout
                    || e is InvalidUtf8)
                &&& (e is InvalidUtf8 ==> exists|i: int|
                    0 <= i < data.strings@.len() && !crate::strings::is_utf8(
                        #[trigger] data.strings@[i],
                    ))
                &&& (e is BadAudioLayout ==> data.audio.audio@.len()
                    != data.audio.offsets@.len())
                &&& (e is BadTextureRef ==> exists|i: int|
                    0 <= i < data.textures.textures@.len() && !crate::textures::tex_source_ok(
                        #[trigger] data.textures.textures@[i],
                        orig.data@,
                    ))
            },
        },
{
    proof {
        lemma_auto_spec_u32_to_from_le_bytes();
    }
    let ghost base_seq = w.data@;
    let ghost mut acc: Seq<u8> = Seq::empty();
    proof {
        assert(w.data@ =~= base_seq + acc);
    }
    let sz = match data.code.content_size() {
        Ok(v) => v,
        Err(e) => {
            return Err(e);
        },
    };
    if !fits_at(w, sz) {
        return Err(WriteError::TooLarge);
    }
    match data.code.write(w, soffs) {
        Ok(()) => (),
        Err(e) => {
            return Err(e);
        },
    }
    proof {
        let c = chunk_bytes(
            TAG_CODE,
            crate::code::code_content(data.code.code_chunks@, base_seq.len() as int + acc.len() as int + 8, soffs@),
        );
        assert(w.data@ =~= base_seq + (acc + c));
        acc = acc + c;
    }
    let sz = match data.variables.content_size() {
        Ok(v) => v,
        Err(e) => {
            return Err(e);
        },
    };
    match data.variables.write(w, soffs) {
        Ok(()) => (),
        Err(e) => {
            return Err(e);
        },
    }
    proof {
        let c = chunk_bytes(
            TAG_VARI,
            crate::variables::vari_content(data.variables.variables@, soffs@),
        );
        assert(w.data@ =~= base_seq + (acc + c));
        acc = acc + c;
    }
    let sz = match data.functions.content_size() {
        Ok(v) => v,
        Err(e) => {
            return Err(e);
        },
    };
    match data.functions.write(w, soffs) {
        Ok(()) => (),
        Err(e) => {
            return Err(e);
        },
    }
    proof {
        let c = chunk_bytes(
            TAG_FUNC,
            crate::functions::func_content(data.functions.functions@, soffs@),
        );
        assert(w.data@ =~= base_seq + (acc + c));
        acc = acc + c;
    }
    if !fits_at(w, 0) {
        return Err(WriteError::TooLarge);
    }
    match data.strings.write(w) {
        Ok(()) => (),
        Err(e) => {
            return Err(e);
        },
    }
    proof {
        let c = chunk_bytes(
            TAG_STRG,
            crate::strings::strg_content(data.strings@, base_seq.len() as int + acc.len() as int + 8),
        );
        assert(w.data@ =~= base_seq + (acc + c));
        acc = acc + c;
    }
    if !fits_at(w, 0) {
        return Err(WriteError::TooLarge);
    }
    match data.textures.write(w, orig) {
        Ok(()) => (),
        Err(e) => {
            return Err(e);
        },
    }
    proof {
        let c = chunk_bytes(
            TAG_TXTR,
            crate::textures::txtr_content(
                data.textures.textures@,
                orig.data@,
                base_seq.len() as int + acc.len() as int + 8,
            ),
        );
        assert(w.data@ =~= base_seq + (acc + c));
        acc = acc + c;
    }
    if !fits_at(w, 0) {
        return Err(WriteError::TooLarge);
    }
    match data.audio.write(w) {
        Ok(()) => (),
        Err(e) => {
            return Err(e);
        },
    }
    proof {
        let c = chunk_bytes(
            TAG_AUDO,
            crate::audio::audo_content(
                data.audio.audio@,
                data.audio.offsets@,
                base_seq.len() as int + acc.len() as int + 8,
            ),
        );
        assert(w.data@ =~= base_seq + (acc + c));
        acc = acc + c;
        assert(acc =~= gd_content_c(*data, base_seq.len() as int, soffs@, orig.data@));
    }
    Ok(())
}

/// Writes a whole bundle: the `FORM` header (its length patched in at the
/// end from the actually emitted children), then every chunk in the fixed
/// order, every absolute offset recomputed from the freshly computed
/// layout.  On success, the output is exactly the canonical serialization
/// of the bundle.  A failed write may leave partial output behind; the
/// caller owns not clobbering the original file.
#[verifier::rlimit(100)]
#[verifier::spinoff_prover]
pub fn write(data: &GameData, w: &mut Writer, orig: &Reader) -> (res: Result<(), WriteError>)
    requires
        gd_wf(*data),
        old(w).data@.len() == 0,
    ensures
        match res {
            Ok(()) => {
                let content = gd_form_content(*data, orig.data@);
                &&& content.len() <= u32::MAX
                &&& final(w).data@ == spec_u32_to_le_bytes(TAG_FORM) + spec_u32_to_le_bytes(
                    content.len() as u32,
                ) + content
            },
            Err(e) => {
                &&& (e is TooLarge || e is BadTextureRef || e is BadAudioLayout
                    || e is InvalidUtf8)
                &&& (e is InvalidUtf8 ==> exists|i: int|
                    0 <= i < data.strings@.len() && !crate::strings::is_utf8(
                        #[trigger] data.strings@[i],
                    ))
                &&& (e is BadAudioLayout ==> data.audio.audio@.len()
                    != data.audio.offsets@.len())
                &&& (e is BadTextureRef ==> exists|i: int|
                    0 <= i < data.textures.textures@.len() && !crate::textures::tex_source_ok(
                        #[trigger] data.textures.textures@[i],
                        orig.data@,
                    ))
            },
        },
{
    proof {
        lemma_auto_spec_u32_to_from_le_bytes();
    }
    let layout = match compute_layout(data, orig) {
        Ok(l) => l,
        Err(e) => {
            return Err(e);
        },
    };
    let string_offs = string_offsets(&data.strings, layout.strg_content_base);
    proof {
        assert forall|i: int| 0 <= i < data.strings@.len() implies #[trigger] gd_soffs(*data)[i]
            == string_offs@[i] by {
            assert(string_offs@[i] == crate::strings::spec_string_offset(
                data.strings@,
                layout.strg_content_base as int,
                i,
            ) + 4);
        }
        assert(string_offs@ =~= gd_soffs(*data));
    }
    w.write_u32(TAG_FORM);
    w.write_u32(0);
    proof {
        assert(w.data@.len() == 8);
    }
    match write_segment_a(data, w, &string_offs, layout.texture_data_base) {
        Ok(()) => (),
        Err(e) => {
            return Err(e);
        },
    }
    let ghost a = gd_content_a(*data, 8, gd_soffs(*data), gd_tdo(*data));
    proof {
        assert(w.data@ == spec_u32_to_le_bytes(TAG_FORM) + spec_u32_to_le_bytes(0u32) + a);
    }
    match write_segment_b(data, w, &string_offs) {
        Ok(()) => (),
        Err(e) => {
            return Err(e);
        },
    }
    let ghost bseg = gd_content_b(*data, 8 + a.len() as int, gd_soffs(*data));
    proof {
        assert(w.data@ == spec_u32_to_le_bytes(TAG_FORM) + spec_u32_to_le_bytes(0u32) + a + bseg);
    }
    match write_segment_c(data, w, &string_offs, orig) {
        Ok(()) => (),
        Err(e) => {
            return Err(e);
        },
    }
    let ghost cseg = gd_content_c(*data, 8 + a.len() as int + bseg.len() as int, gd_soffs(*data), orig.data@);
    proof {
        assert(w.data@ == spec_u32_to_le_bytes(TAG_FORM) + spec_u32_to_le_bytes(0u32) + a + bseg
            + cseg);
        assert(gd_form_content(*data, orig.data@) == a + bseg + cseg);
    }
    let end = w.tell();
    if end < 8 || end - 8 > u32::MAX as usize {
        return Err(WriteError::TooLarge);
    }
    w.patch_u32(4, (end - 8) as u32);
    proof {
        let content = gd_form_content(*data, orig.data@);
        assert(w.data@ =~= spec_u32_to_le_bytes(TAG_FORM) + spec_u32_to_le_bytes(
            content.len() as u32,
        ) + content);
    }
    Ok(())
}

impl GameData {
    /// Decodes a bundle from an in-memory input.
    pub fn from_reader(reader: &mut Reader) -> (res: Result<GameData, ReadError>)
        requires
            old(reader).wf(),
        ensures
            final(reader).data == old(reader).data,
            final(reader).wf(),
            match res {
                Ok(g) => {
                    &&& gd_wf(g)
                    &&& gd_parse_ok(old(reader).data@, old(reader).pos as int)
                    &&& gd_reads_to(old(reader).data@, old(reader).pos as int, g)
                },
                Err(e) => {
                    let b = old(reader).data@;
                    let pos = old(reader).pos as int;
                    match e {
                        ReadError::UnresolvedStringReference { offset } => {
                            &&& forall|j: int|
                                !crate::xref::resolves_to(gd_strg_offsets(b, pos), offset, j)
                            &&& !gd_refs_resolved(b, pos)
                        },
                        ReadError::IconOffsetOutOfRange { offset } => {
                            &&& offset == gd_icon_raw(b, pos)
                            &&& gd_icon_raw(b, pos) < gd_read_tdo(b, pos)
                        },
                        _ => !gd_parse_ok(b, pos) || b.len() + 8 > u32::MAX,
                    }
                },
            },
    {
        read(reader)
    }

    /// Encodes the bundle into the writer, copying any by-reference
    /// texture out of the original input it was decoded from.  On
    /// success, the output is exactly the canonical serialization of the
    /// bundle.
    pub fn write_to_writer(&self, writer: &mut Writer, reader_orig: &Reader) -> (res: Result<
        (),
        WriteError,
    >)
        requires
            gd_wf(*self),
            old(writer).data@.len() == 0,
        ensures
            match res {
                Ok(()) => {
                    let content = gd_form_content(*self, reader_orig.data@);
                    &&& content.len() <= u32::MAX
                    &&& final(writer).data@ == spec_u32_to_le_bytes(TAG_FORM)
                        + spec_u32_to_le_bytes(content.len() as u32) + content
                },
                Err(e) => {
                    &&& (e is TooLarge || e is BadTextureRef || e is BadAudioLayout
                        || e is InvalidUtf8)
                    &&& (e is InvalidUtf8 ==> exists|i: int|
                        0 <= i < self.strings@.len() && !crate::strings::is_utf8(
                            #[trigger] self.strings@[i],
                        ))
                    &&& (e is BadAudioLayout ==> self.audio.audio@.len()
                        != self.audio.offsets@.len())
                    &&& (e is BadTextureRef ==> exists|i: int|
                        0 <= i < self.textures.textures@.len()
                            && !crate::textures::tex_source_ok(
                            #[trigger] self.textures.textures@[i],
                            reader_orig.data@,
                        ))
                },
            },
    {
        write(self, writer, reader_orig)
    }
}

} // verus!
