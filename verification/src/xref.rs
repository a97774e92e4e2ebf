//! Cross-reference resolution.
//!
//! Records do not store strings inline: they store the absolute file offset
//! of a string's bytes, which sits 4 bytes past the entry the string table's
//! own offset array holds for it (the table's entries point at the 4-byte
//! length prefix).  Decoding turns each raw offset into a stable index into
//! the string list; encoding turns the index back into the freshly
//! recomputed offset.

use crate::error::ReadError;
use crate::strings::{lemma_offsets_strictly_increase, spec_string_offset, strg_offset_words};
use vstd::prelude::*;

verus! {

/// Whether raw cross-reference offset `raw` designates entry `i` of the
/// string table's offset array: the reference points 4 bytes past where the
/// table's own entry points.
pub open spec fn resolves_to(offsets: Seq<u32>, raw: u32, i: int) -> bool {
    &&& 0 <= i < offsets.len()
    &&& offsets[i] + 4 == raw
}

/// Maps a raw cross-reference offset to the index of the string it points
/// at, or fails when no entry of the table's offset array matches.  When
/// several entries match, the first one wins.
pub fn resolve(offsets: &Vec<u32>, raw: u32) -> (res: Result<usize, ReadError>)
    ensures
        match res {
            Ok(i) => {
                &&& resolves_to(offsets@, raw, i as int)
                &&& forall|j: int| 0 <= j < i ==> !resolves_to(offsets@, raw, j)
            },
            Err(e) => {
                &&& e == (ReadError::UnresolvedStringReference { offset: raw })
                &&& forall|j: int| !resolves_to(offsets@, raw, j)
            },
        },
{
    let n = offsets.len();
    let mut i: usize = 0;
    while i < n
        invariant
            i <= n,
            n == offsets@.len(),
            forall|j: int| 0 <= j < i ==> !resolves_to(offsets@, raw, j),
        decreases n - i,
    {
        if (offsets[i] as u64) + 4 == raw as u64 {
            return Ok(i);
        }
        i = i + 1;
    }
    Err(ReadError::UnresolvedStringReference { offset: raw })
}

/// Cross-reference correctness: the reference value recomputed for string
/// `i` (4 bytes past the table's recomputed offset for it) resolves back to
/// exactly index `i` against that recomputed offset array — the offsets
/// strictly increase, so no earlier entry can match.
pub proof fn lemma_xref_round_trip(ss: Seq<Seq<u8>>, base: int, i: int)
    requires
        0 <= i < ss.len(),
        crate::strings::strg_fits(ss, base),
    ensures
        resolves_to(strg_offset_words(ss, base), (spec_string_offset(ss, base, i) + 4) as u32, i),
        forall|j: int|
            0 <= j < ss.len() && j != i ==> !#[trigger] resolves_to(
                strg_offset_words(ss, base),
                (spec_string_offset(ss, base, i) + 4) as u32,
                j,
            ),
{
    let ws = strg_offset_words(ss, base);
    crate::strings::lemma_string_offset_formula(ss, base, i + 1);
    crate::strings::lemma_enc_strings_prefix_bound(ss, i + 1);
    crate::strings::lemma_enc_strings_min_len(ss);
    assert forall|k: int| 0 <= k < ss.len() implies #[trigger] ws[k] == spec_string_offset(
        ss,
        base,
        k,
    ) by {
        crate::strings::lemma_string_offset_formula(ss, base, k);
        crate::strings::lemma_enc_strings_prefix_bound(ss, k);
        crate::strings::lemma_enc_strings_min_len(ss);
    }
    assert forall|j: int| 0 <= j < ss.len() && j != i implies ws[j] != ws[i] by {
        if j < i {
            lemma_offsets_strictly_increase(ss, base, j, i);
        } else {
            lemma_offsets_strictly_increase(ss, base, i, j);
        }
    }
}

} // verus!
