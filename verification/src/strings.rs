//! The string table: the `STRG` chunk.
//!
//! Layout: `count:u32`, then `count` absolute offsets (each pointing at the
//! 4-byte length prefix of its string), then `count` strings encoded as
//! `length:u32 + bytes + 0x00`, then zero padding to the next 16-byte
//! boundary.  The offset array is fully recomputed on write from the new
//! layout; nothing read from the input survives into the encoding.
//!
//! Strings are held as raw bytes; decoding checks each one is valid UTF-8
//! and null-terminated.

use crate::chunk::{chunk_bytes, chunk_header_bytes, get_chunk_header, write_chunk_header, TAG_STRG};
use crate::cursor::{pad_len, Reader, Writer};
use crate::error::{ReadError, WriteError};
use crate::words::{
    bytes_of_u32s, lemma_bytes_of_u32s_push, lemma_parse_u32s_agrees, parse_u32s, read_u32s,
};
use vstd::bytes::{
    lemma_auto_spec_u32_to_from_le_bytes, spec_u32_from_le_bytes, spec_u32_to_le_bytes,
};
use vstd::prelude::*;

verus! {

/// Whether the bytes are valid UTF-8.  What exactly that means is delegated
/// to the standard library's validator; the codec only needs that it is a
/// function of the bytes.
pub uninterp spec fn is_utf8(bytes: Seq<u8>) -> bool;

/// Relies on core::str::from_utf8: returns `Ok` exactly when the bytes are
/// valid UTF-8, and an ASCII-only sequence always is (ASCII is a subset of
/// UTF-8).
#[verifier::external_body]
fn utf8_check(bytes: &[u8]) -> (r: bool)
    ensures
        r == is_utf8(bytes@),
        (forall|i: int| 0 <= i < bytes@.len() ==> bytes@[i] < 0x80) ==> r,
{
    core::str::from_utf8(bytes).is_ok()
}

/// Whether the bytes are valid UTF-8; an all-ASCII sequence always is.
pub fn is_valid_utf8(bytes: &[u8]) -> (r: bool)
    ensures
        r == is_utf8(bytes@),
        (forall|i: int| 0 <= i < bytes@.len() ==> bytes@[i] < 0x80) ==> r,
{
    utf8_check(bytes)
}

/// The ordered, mutable string list of a bundle.
pub struct Strings {
    pub strings: Vec<Vec<u8>>,
}

impl View for Strings {
    type V = Seq<Seq<u8>>;

    open spec fn view(&self) -> Seq<Seq<u8>> {
        self.strings@.map_values(|s: Vec<u8>| s@)
    }
}

/// One encoded string: 4-byte length prefix, the bytes, a null terminator.
pub open spec fn enc_string(s: Seq<u8>) -> Seq<u8> {
    spec_u32_to_le_bytes(s.len() as u32) + s + seq![0u8]
}

/// All strings encoded back to back, in order.
pub open spec fn enc_strings(ss: Seq<Seq<u8>>) -> Seq<u8>
    decreases ss.len(),
{
    if ss.len() == 0 {
        Seq::empty()
    } else {
        enc_string(ss[0]) + enc_strings(ss.drop_first())
    }
}

pub proof fn lemma_enc_strings_push(ss: Seq<Seq<u8>>, s: Seq<u8>)
    ensures
        enc_strings(ss.push(s)) == enc_strings(ss) + enc_string(s),
    decreases ss.len(),
{
    if ss.len() == 0 {
        reveal_with_fuel(enc_strings, 2);
        assert(ss.push(s).drop_first() =~= Seq::<Seq<u8>>::empty());
        assert(enc_strings(ss.push(s)) =~= enc_strings(ss) + enc_string(s));
    } else {
        assert(ss.push(s).drop_first() =~= ss.drop_first().push(s));
        lemma_enc_strings_push(ss.drop_first(), s);
        assert(enc_strings(ss.push(s)) =~= enc_strings(ss) + enc_string(s));
    }
}

pub proof fn lemma_enc_strings_append(a: Seq<Seq<u8>>, b: Seq<Seq<u8>>)
    ensures
        enc_strings(a + b) == enc_strings(a) + enc_strings(b),
    decreases b.len(),
{
    if b.len() == 0 {
        assert(a + b =~= a);
        assert(enc_strings(a + b) =~= enc_strings(a) + enc_strings(b));
    } else {
        let b0 = b.drop_last();
        assert(a + b =~= (a + b0).push(b.last()));
        assert(b =~= b0.push(b.last()));
        lemma_enc_strings_append(a, b0);
        lemma_enc_strings_push(a + b0, b.last());
        lemma_enc_strings_push(b0, b.last());
        assert(enc_strings(a + b) =~= enc_strings(a) + enc_strings(b));
    }
}

/// The absolute position of string `i`'s 4-byte length prefix, when the
/// chunk's content begins at absolute position `base`: past the count field
/// and the offset array, then past every earlier encoded string.
pub open spec fn spec_string_offset(ss: Seq<Seq<u8>>, base: int, i: int) -> int
    decreases i,
{
    if i <= 0 {
        base + 4 + 4 * ss.len()
    } else {
        spec_string_offset(ss, base, i - 1) + 5 + ss[i - 1].len()
    }
}

/// The recomputed offset array, as the words the table stores.
pub open spec fn strg_offset_words(ss: Seq<Seq<u8>>, base: int) -> Seq<u32> {
    Seq::new(ss.len(), |i: int| spec_string_offset(ss, base, i) as u32)
}

/// The content length before padding: count, offsets, encoded strings.
pub open spec fn strg_raw_len(ss: Seq<Seq<u8>>) -> int {
    4 + 4 * ss.len() + enc_strings(ss).len() as int
}

/// The `STRG` content for a table whose content begins at absolute position
/// `base`: count, recomputed offsets, encoded strings, zero padding until
/// the absolute end position is 16-byte aligned.
pub open spec fn strg_content(ss: Seq<Seq<u8>>, base: int) -> Seq<u8> {
    spec_u32_to_le_bytes(ss.len() as u32) + bytes_of_u32s(strg_offset_words(ss, base))
        + enc_strings(ss) + crate::cursor::zeros(pad_len(base + strg_raw_len(ss), 16) as nat)
}

/// Whether the table fits the 32-bit size and offset fields when its
/// content begins at absolute position `base`.
pub open spec fn strg_fits(ss: Seq<Seq<u8>>, base: int) -> bool {
    &&& 0 <= base
    &&& base + strg_raw_len(ss) + pad_len(base + strg_raw_len(ss), 16) <= u32::MAX
}

/// Decodes one `length + bytes + 0x00` string at `pos`; the bytes must be
/// valid UTF-8 and the terminator must be zero.
pub open spec fn parse_one_string(b: Seq<u8>, pos: int) -> Option<(Seq<u8>, int)> {
    if pos >= 0 && pos + 4 <= b.len() {
        let n = spec_u32_from_le_bytes(b.subrange(pos, pos + 4)) as int;
        if pos + 5 + n <= b.len() && b[pos + 4 + n] == 0 && is_utf8(b.subrange(pos + 4, pos + 4 + n)) {
            Some((b.subrange(pos + 4, pos + 4 + n), pos + 5 + n))
        } else {
            None
        }
    } else {
        None
    }
}

/// Decodes `n` consecutive strings starting at `pos`.
pub open spec fn parse_strings_at(b: Seq<u8>, pos: int, n: nat) -> Option<(Seq<Seq<u8>>, int)>
    decreases n,
{
    if n == 0 {
        Some((Seq::empty(), pos))
    } else {
        match parse_one_string(b, pos) {
            None => None,
            Some((s, p)) => match parse_strings_at(b, p, (n - 1) as nat) {
                None => None,
                Some((rest, q)) => Some((seq![s] + rest, q)),
            },
        }
    }
}

/// A failed string in the middle fails the whole run.
pub proof fn lemma_parse_strings_fail(b: Seq<u8>, pos: int, i: nat, n: nat, ss: Seq<Seq<u8>>, p: int)
    requires
        parse_strings_at(b, pos, i) == Some((ss, p)),
        parse_one_string(b, p) is None,
        i < n,
    ensures
        parse_strings_at(b, pos, n) is None,
    decreases i,
{
    if i == 0 {
        assert(p == pos);
    } else {
        let (s0, p0) = parse_one_string(b, pos).unwrap();
        let (rest, q0) = parse_strings_at(b, p0, (i - 1) as nat).unwrap();
        lemma_parse_strings_fail(b, p0, (i - 1) as nat, (n - 1) as nat, rest, p);
    }
}

/// Extends a run of parsed strings by one more at its end.
pub proof fn lemma_parse_strings_snoc(b: Seq<u8>, pos: int, n: nat, ss: Seq<Seq<u8>>, p: int)
    requires
        parse_strings_at(b, pos, n) == Some((ss, p)),
        parse_one_string(b, p) is Some,
    ensures
        parse_strings_at(b, pos, n + 1) == Some(
            (
                ss.push(parse_one_string(b, p).unwrap().0),
                parse_one_string(b, p).unwrap().1,
            ),
        ),
    decreases n,
{
    reveal_with_fuel(parse_strings_at, 2);
    let (s, q) = parse_one_string(b, p).unwrap();
    if n == 0 {
        assert(ss =~= Seq::<Seq<u8>>::empty());
        assert(seq![s] + Seq::<Seq<u8>>::empty() =~= ss.push(s));
    } else {
        let (s0, p0) = parse_one_string(b, pos).unwrap();
        let (rest, q0) = parse_strings_at(b, p0, (n - 1) as nat).unwrap();
        assert(ss == seq![s0] + rest && q0 == p);
        lemma_parse_strings_snoc(b, p0, (n - 1) as nat, rest, p);
        assert(seq![s0] + rest.push(s) =~= (seq![s0] + rest).push(s));
    }
}

/// Decodes a whole `STRG` chunk at `pos`: header, count, the stored offset
/// array (returned raw for cross-reference resolution), the strings, and
/// padding up to the next 16-byte boundary.
pub open spec fn parse_strg(b: Seq<u8>, pos: int) -> Option<(Seq<Seq<u8>>, Seq<u32>, int)> {
    if pos >= 0 && pos + 8 <= b.len() && spec_u32_from_le_bytes(b.subrange(pos, pos + 4))
        == TAG_STRG {
        let cpos = pos + 8;
        if cpos + 4 <= b.len() {
            let count = spec_u32_from_le_bytes(b.subrange(cpos, cpos + 4)) as int;
            if cpos + 4 + 4 * count <= b.len() {
                let offs = parse_u32s(b, cpos + 4, count as nat);
                match parse_strings_at(b, cpos + 4 + 4 * count, count as nat) {
                    None => None,
                    Some((ss, p)) => {
                        let end = p + pad_len(p, 16);
                        if end <= b.len() {
                            Some((ss, offs, end))
                        } else {
                            None
                        }
                    },
                }
            } else {
                None
            }
        } else {
            None
        }
    } else {
        None
    }
}

/// Reads one string: 4-byte length, the bytes, the null terminator.
pub fn read_string(r: &mut Reader) -> (res: Result<Vec<u8>, ReadError>)
    requires
        old(r).wf(),
    ensures
        final(r).data == old(r).data,
        final(r).wf(),
        match res {
            Ok(s) => parse_one_string(old(r).data@, old(r).pos as int) == Some(
                (s@, final(r).pos as int),
            ),
            Err(e) => {
                let b = old(r).data@;
                let pos = old(r).pos as int;
                let n = spec_u32_from_le_bytes(b.subrange(pos, pos + 4)) as int;
                &&& parse_one_string(b, pos) is None
                &&& match e {
                    ReadError::UnexpectedEof => pos + 4 > b.len() || pos + 5 + n > b.len(),
                    ReadError::MissingNullTerminator => pos + 5 + n <= b.len() && b[pos + 4 + n]
                        != 0,
                    ReadError::InvalidUtf8 => pos + 5 + n <= b.len() && b[pos + 4 + n] == 0
                        && !is_utf8(b.subrange(pos + 4, pos + 4 + n)),
                    _ => false,
                }
            },
        },
{
    let len = match r.read_u32() {
        Ok(v) => v,
        Err(e) => {
            return Err(e);
        },
    };
    let bytes = match r.read_bytes(len as usize) {
        Ok(b) => b,
        Err(e) => {
            return Err(e);
        },
    };
    let terminator = match r.read_u8() {
        Ok(t) => t,
        Err(e) => {
            return Err(e);
        },
    };
    if terminator != 0 {
        return Err(ReadError::MissingNullTerminator);
    }
    if !utf8_check(bytes.as_slice()) {
        return Err(ReadError::InvalidUtf8);
    }
    Ok(bytes)
}

impl Strings {
    /// Reads the `STRG` chunk: count, the stored offset array (returned
    /// alongside, raw, for cross-reference resolution), the strings, and
    /// the padding to the next 16-byte boundary.
    #[verifier::loop_isolation(false)]
    pub fn read(r: &mut Reader) -> (res: Result<(Strings, Vec<u32>), ReadError>)
        requires
            old(r).wf(),
        ensures
            final(r).data == old(r).data,
            final(r).wf(),
            match res {
                Ok((st, offs)) => {
                    &&& parse_strg(old(r).data@, old(r).pos as int) == Some(
                        (st@, offs@, final(r).pos as int),
                    )
                    &&& st@.len() == offs@.len()
                },
                Err(e) => {
                    &&& parse_strg(old(r).data@, old(r).pos as int) is None
                    &&& (e is UnexpectedEof || e is UnexpectedChunk || e is MissingNullTerminator
                        || e is InvalidUtf8)
                },
            },
    {
        let ghost b = r.data@;
        let ghost start = r.pos as int;
        let h = match get_chunk_header(r, TAG_STRG) {
            Ok(h) => h,
            Err(e) => {
                return Err(e);
            },
        };
        let count = match r.read_u32() {
            Ok(v) => v,
            Err(e) => {
                return Err(e);
            },
        };
        let offsets = match read_u32s(r, count as usize) {
            Ok(v) => v,
            Err(e) => {
                return Err(e);
            },
        };
        proof {
            lemma_parse_u32s_agrees(b, start + 12, count as nat, offsets@);
        }
        let ghost spos = r.pos as int;
        let mut strings: Vec<Vec<u8>> = Vec::new();
        let mut i: u32 = 0;
        while i < count
            invariant
                r.wf(),
                r.data == old(r).data,
                r.data@ == b,
                i <= count,
                strings@.len() == i,
                parse_strings_at(b, spos, i as nat) == Some(
                    (strings@.map_values(|v: Vec<u8>| v@), r.pos as int),
                ),
            decreases count - i,
        {
            let ghost before = r.pos as int;
            let s = match read_string(r) {
                Ok(s) => s,
                Err(e) => {
                    proof {
                        lemma_parse_strings_fail(
                            b,
                            spos,
                            i as nat,
                            count as nat,
                            strings@.map_values(|v: Vec<u8>| v@),
                            before,
                        );
                    }
                    return Err(e);
                },
            };
            proof {
                lemma_parse_strings_snoc(
                    b,
                    spos,
                    i as nat,
                    strings@.map_values(|v: Vec<u8>| v@),
                    before,
                );
                assert(strings@.map_values(|v: Vec<u8>| v@).push(s@) =~= strings@.push(
                    s,
                ).map_values(|v: Vec<u8>| v@));
            }
            strings.push(s);
            i = i + 1;
        }
        match r.align_to(16) {
            Ok(()) => (),
            Err(e) => {
                return Err(e);
            },
        }
        Ok((Strings { strings }, offsets))
    }

    /// The length of the chunk's content when it begins at absolute
    /// position `base`, padding included; refuses a table that would run
    /// past the 32-bit offset space.
    #[verifier::loop_isolation(false)]
    pub fn content_size(&self, base: u32) -> (res: Result<u32, WriteError>)
        ensures
            match res {
                Ok(sz) => {
                    &&& strg_fits(self@, base as int)
                    &&& sz == strg_content(self@, base as int).len()
                    &&& base + sz <= u32::MAX
                },
                Err(e) => e == WriteError::TooLarge && !strg_fits(self@, base as int),
            },
    {
        proof {
            lemma_auto_spec_u32_to_from_le_bytes();
        }
        let n = self.strings.len();
        if n as u64 > (u32::MAX as u64 - 4) / 4 {
            proof {
                crate::words::lemma_bytes_of_u32s_len(strg_offset_words(self@, base as int));
                lemma_enc_strings_min_len(self@);
            }
            return Err(WriteError::TooLarge);
        }
        let mut total: u64 = 4 + 4 * (n as u64);
        let mut i: usize = 0;
        proof {
            assert(self@.take(0) =~= Seq::<Seq<u8>>::empty());
        }
        while i < n
            invariant
                i <= n,
                total == 4 + 4 * n + enc_strings(self@.take(i as int)).len(),
                total <= u32::MAX,
            decreases n - i,
        {
            let s_len = self.strings[i].len();
            if s_len as u64 > u32::MAX as u64 || total + 5 + (s_len as u64) > u32::MAX as u64 {
                proof {
                    lemma_enc_strings_prefix_bound(self@, i as int);
                    lemma_strg_raw_len_parts(self@, i as int);
                }
                return Err(WriteError::TooLarge);
            }
            proof {
                assert(self@.take(i + 1) =~= self@.take(i as int).push(self@[i as int]));
                lemma_enc_strings_push(self@.take(i as int), self@[i as int]);
            }
            total = total + 5 + (s_len as u64);
            i = i + 1;
        }
        proof {
            assert(self@.take(n as int) =~= self@);
        }
        let rem = ((base as u64) + total) % 16;
        let pad = if rem == 0 {
            0u64
        } else {
            16 - rem
        };
        proof {
            assert(pad == pad_len(base + strg_raw_len(self@), 16));
            lemma_strg_content_len(self@, base as int);
        }
        if (base as u64) + total + pad > u32::MAX as u64 {
            return Err(WriteError::TooLarge);
        }
        Ok((total + pad) as u32)
    }
}

/// A recomputed offset is the content base plus the count field, the offset
/// array, and every earlier encoded string.
pub proof fn lemma_string_offset_formula(ss: Seq<Seq<u8>>, base: int, i: int)
    requires
        0 <= i <= ss.len(),
    ensures
        spec_string_offset(ss, base, i) == base + 4 + 4 * ss.len() + enc_strings(ss.take(i)).len(),
    decreases i,
{
    vstd::bytes::lemma_auto_spec_u32_to_from_le_bytes();
    if i == 0 {
        assert(ss.take(0) =~= Seq::<Seq<u8>>::empty());
    } else {
        lemma_string_offset_formula(ss, base, i - 1);
        assert(ss.take(i) =~= ss.take(i - 1).push(ss[i - 1]));
        lemma_enc_strings_push(ss.take(i - 1), ss[i - 1]);
    }
}

/// Every string costs at least its length prefix and terminator: the
/// encoding of a list is never shorter than five bytes per string.
pub proof fn lemma_enc_strings_min_len(ss: Seq<Seq<u8>>)
    ensures
        enc_strings(ss).len() >= 5 * ss.len(),
    decreases ss.len(),
{
    vstd::bytes::lemma_auto_spec_u32_to_from_le_bytes();
    if ss.len() > 0 {
        lemma_enc_strings_min_len(ss.drop_first());
    }
}

/// The encoding of a prefix is no longer than the whole encoding.
pub proof fn lemma_enc_strings_prefix_bound(ss: Seq<Seq<u8>>, i: int)
    requires
        0 <= i <= ss.len(),
    ensures
        enc_strings(ss.take(i)).len() <= enc_strings(ss).len(),
{
    assert(ss =~= ss.take(i) + ss.skip(i));
    lemma_enc_strings_append(ss.take(i), ss.skip(i));
    lemma_enc_strings_min_len(ss.skip(i));
}

/// One string's encoded width within the whole encoding.
pub proof fn lemma_strg_raw_len_parts(ss: Seq<Seq<u8>>, i: int)
    requires
        0 <= i < ss.len(),
    ensures
        enc_strings(ss).len() >= enc_strings(ss.take(i)).len() + 5 + ss[i].len(),
{
    vstd::bytes::lemma_auto_spec_u32_to_from_le_bytes();
    assert(ss =~= ss.take(i + 1) + ss.skip(i + 1));
    lemma_enc_strings_append(ss.take(i + 1), ss.skip(i + 1));
    lemma_enc_strings_min_len(ss.skip(i + 1));
    assert(ss.take(i + 1) =~= ss.take(i).push(ss[i]));
    lemma_enc_strings_push(ss.take(i), ss[i]);
}

/// The length of the encoded `STRG` content.
pub proof fn lemma_strg_content_len(ss: Seq<Seq<u8>>, base: int)
    ensures
        strg_content(ss, base).len() == strg_raw_len(ss) + pad_len(base + strg_raw_len(ss), 16),
{
    vstd::bytes::lemma_auto_spec_u32_to_from_le_bytes();
    crate::words::lemma_bytes_of_u32s_len(strg_offset_words(ss, base));
}

impl Strings {
    /// Writes the whole `STRG` chunk: header with the recomputed length,
    /// count, the recomputed offset array, every string, zero padding to
    /// the next 16-byte boundary.  Nothing is written when the table does
    /// not fit the 32-bit fields.
    #[verifier::loop_isolation(false)]
    #[verifier::rlimit(100)]
    pub fn write(&self, w: &mut Writer) -> (res: Result<(), WriteError>)
        requires
            old(w).data@.len() + 8 <= u32::MAX,
        ensures
            match res {
                Ok(()) => {
                    &&& strg_fits(self@, old(w).data@.len() as int + 8)
                    &&& forall|i: int| 0 <= i < self@.len() ==> is_utf8(#[trigger] self@[i])
                    &&& final(w).data@ == old(w).data@ + chunk_bytes(
                        TAG_STRG,
                        strg_content(self@, old(w).data@.len() as int + 8),
                    )
                },
                Err(e) => {
                    &&& final(w).data@ == old(w).data@
                    &&& (e is InvalidUtf8 <==> exists|i: int|
                        0 <= i < self@.len() && !is_utf8(#[trigger] self@[i]))
                    &&& (e is TooLarge ==> !strg_fits(self@, old(w).data@.len() as int + 8))
                    &&& (e is InvalidUtf8 || e is TooLarge)
                },
            },
    {
        proof {
            lemma_auto_spec_u32_to_from_le_bytes();
        }
        let nv = self.strings.len();
        let mut vi: usize = 0;
        while vi < nv
            invariant
                vi <= nv,
                nv == self@.len(),
                forall|j: int| 0 <= j < vi ==> is_utf8(#[trigger] self@[j]),
            decreases nv - vi,
        {
            if !is_valid_utf8(self.strings[vi].as_slice()) {
                proof {
                    assert(!is_utf8(self@[vi as int]));
                }
                return Err(WriteError::InvalidUtf8);
            }
            vi = vi + 1;
        }
        let pos = w.tell();
        let size = match self.content_size((pos as u32) + 8) {
            Ok(s) => s,
            Err(e) => {
                return Err(e);
            },
        };
        let ghost base = pos + 8;
        let ghost ws = strg_offset_words(self@, base as int);
        let n = self.strings.len();
        proof {
            lemma_enc_strings_min_len(self@);
            lemma_strg_content_len(self@, base as int);
            crate::words::lemma_bytes_of_u32s_len(ws);
        }
        write_chunk_header(w, TAG_STRG, size);
        w.write_u32(n as u32);
        let ghost prefix = old(w).data@ + chunk_header_bytes(TAG_STRG, size) + spec_u32_to_le_bytes(
            (n as u32),
        );
        let mut off: u32 = (pos as u32) + 8 + 4 + 4 * (n as u32);
        let mut i: usize = 0;
        proof {
            assert(ws.take(0) =~= Seq::<u32>::empty());
            assert(w.data@ =~= prefix + bytes_of_u32s(ws.take(0)));
        }
        while i < n
            invariant
                i <= n,
                off == spec_string_offset(self@, base as int, i as int),
                w.data@ == prefix + bytes_of_u32s(ws.take(i as int)),
            decreases n - i,
        {
            proof {
                lemma_string_offset_formula(self@, base as int, i as int);
                lemma_string_offset_formula(self@, base as int, i + 1);
                lemma_enc_strings_prefix_bound(self@, i + 1);
                assert(self@.take(i + 1) =~= self@.take(i as int).push(self@[i as int]));
                lemma_enc_strings_push(self@.take(i as int), self@[i as int]);
                assert(ws.take(i + 1) =~= ws.take(i as int).push(ws[i as int]));
                lemma_bytes_of_u32s_push(ws.take(i as int), ws[i as int]);
            }
            w.write_u32(off);
            off = off + 5 + (self.strings[i].len() as u32);
            i = i + 1;
        }
        proof {
            assert(ws.take(n as int) =~= ws);
            assert(self@.take(0) =~= Seq::<Seq<u8>>::empty());
        }
        let ghost prefix2 = prefix + bytes_of_u32s(ws);
        let mut i: usize = 0;
        proof {
            assert(w.data@ =~= prefix2 + enc_strings(self@.take(0)));
        }
        while i < n
            invariant
                i <= n,
                w.data@ == prefix2 + enc_strings(self@.take(i as int)),
            decreases n - i,
        {
            proof {
                lemma_strg_raw_len_parts(self@, i as int);
            }
            let s = &self.strings[i];
            w.write_u32(s.len() as u32);
            w.write_bytes(s.as_slice());
            w.write_u8(0);
            proof {
                assert(self@.take(i + 1) =~= self@.take(i as int).push(self@[i as int]));
                lemma_enc_strings_push(self@.take(i as int), self@[i as int]);
                assert(w.data@ =~= prefix2 + (enc_strings(self@.take(i as int)) + enc_string(
                    self@[i as int],
                )));
            }
            i = i + 1;
        }
        proof {
            assert(self@.take(n as int) =~= self@);
            assert(w.data@.len() as int == base + strg_raw_len(self@));
        }
        w.pad_to(16);
        proof {
            assert(w.data@ =~= old(w).data@ + chunk_bytes(
                TAG_STRG,
                strg_content(self@, old(w).data@.len() as int + 8),
            ));
        }
        Ok(())
    }
}

/// The cross-reference offset array: the absolute position each record
/// field stores for its string — 4 bytes past the table's own offset, so
/// references point straight at the string's bytes rather than its length
/// prefix.
pub fn string_offsets(strings: &Strings, base_offset: u32) -> (res: Vec<u32>)
    requires
        strg_fits(strings@, base_offset as int),
    ensures
        res@.len() == strings@.len(),
        forall|i: int|
            0 <= i < strings@.len() ==> res@[i] == spec_string_offset(
                strings@,
                base_offset as int,
                i,
            ) + 4,
{
    proof {
        vstd::bytes::lemma_auto_spec_u32_to_from_le_bytes();
        lemma_enc_strings_min_len(strings@);
    }
    let n = strings.strings.len();
    let mut out: Vec<u32> = Vec::new();
    let mut off: u32 = base_offset + 4 + 4 * (n as u32);
    let mut i: usize = 0;
    while i < n
        invariant
            i <= n,
            out@.len() == i,
            off == spec_string_offset(strings@, base_offset as int, i as int),
            strg_fits(strings@, base_offset as int),
            n == strings@.len(),
            forall|j: int|
                0 <= j < i ==> out@[j] == spec_string_offset(strings@, base_offset as int, j) + 4,
        decreases n - i,
    {
        proof {
            lemma_string_offset_formula(strings@, base_offset as int, i as int);
            lemma_string_offset_formula(strings@, base_offset as int, i + 1);
            lemma_enc_strings_prefix_bound(strings@, i + 1);
        }
        out.push(off + 4);
        off = off + 5 + (strings.strings[i].len() as u32);
        i = i + 1;
    }
    out
}

/// Offset invariant: every recomputed table offset points exactly at the
/// 4-byte length prefix of its string, followed by the string's bytes and
/// its null terminator, within the encoded content.
pub proof fn lemma_offsets_point_at_length_prefix(ss: Seq<Seq<u8>>, base: int, i: int)
    requires
        0 <= i < ss.len(),
    ensures
        ({
            let off = spec_string_offset(ss, base, i) - base;
            strg_content(ss, base).subrange(off, off + 5 + ss[i].len()) == enc_string(ss[i])
        }),
{
    vstd::bytes::lemma_auto_spec_u32_to_from_le_bytes();
    crate::words::lemma_bytes_of_u32s_len(strg_offset_words(ss, base));
    lemma_string_offset_formula(ss, base, i);
    assert(ss =~= ss.take(i) + (seq![ss[i]] + ss.skip(i + 1)));
    lemma_enc_strings_append(ss.take(i), seq![ss[i]] + ss.skip(i + 1));
    lemma_enc_strings_append(seq![ss[i]], ss.skip(i + 1));
    assert(enc_strings(seq![ss[i]]) =~= enc_string(ss[i])) by {
        reveal_with_fuel(enc_strings, 2);
        assert(seq![ss[i]].drop_first() =~= Seq::<Seq<u8>>::empty());
    }
    lemma_enc_strings_min_len(ss.take(i));
    lemma_enc_strings_min_len(ss.skip(i + 1));
    let off = spec_string_offset(ss, base, i) - base;
    assert(strg_content(ss, base).subrange(off, off + 5 + ss[i].len()) =~= enc_string(ss[i]));
}

/// Encoded strings parse back to exactly the strings that were encoded.
pub proof fn lemma_parse_strings_of_enc(ss: Seq<Seq<u8>>, b: Seq<u8>, pos: int)
    requires
        0 <= pos,
        pos + enc_strings(ss).len() <= b.len(),
        b.subrange(pos, pos + enc_strings(ss).len()) == enc_strings(ss),
        forall|i: int| 0 <= i < ss.len() ==> is_utf8(#[trigger] ss[i]) && ss[i].len() <= u32::MAX,
    ensures
        parse_strings_at(b, pos, ss.len()) == Some((ss, pos + enc_strings(ss).len())),
    decreases ss.len(),
{
    lemma_auto_spec_u32_to_from_le_bytes();
    if ss.len() == 0 {
        assert(parse_strings_at(b, pos, 0) == Some((Seq::<Seq<u8>>::empty(), pos)));
        assert(ss =~= Seq::<Seq<u8>>::empty());
    } else {
        let s0 = ss[0];
        let rest = ss.drop_first();
        let e = enc_strings(ss);
        lemma_enc_strings_min_len(rest);
        assert(e == enc_string(s0) + enc_strings(rest));
        let sl = s0.len() as int;
        let region = b.subrange(pos, pos + e.len());
        assert(b.subrange(pos, pos + 4) =~= region.subrange(0, 4));
        assert(region.subrange(0, 4) =~= spec_u32_to_le_bytes(s0.len() as u32));
        assert(spec_u32_from_le_bytes(b.subrange(pos, pos + 4)) == s0.len() as u32);
        assert(b.subrange(pos + 4, pos + 4 + sl) =~= region.subrange(4, 4 + sl));
        assert(region.subrange(4, 4 + sl) =~= s0);
        assert(b[pos + 4 + sl] == region[4 + sl]);
        assert(region[4 + sl] == 0);
        assert(parse_one_string(b, pos) == Some((s0, pos + 5 + sl)));
        let p = pos + 5 + sl;
        assert(b.subrange(p, p + enc_strings(rest).len()) =~= region.subrange(
            5 + sl,
            e.len() as int,
        ));
        assert(region.subrange(5 + sl, e.len() as int) =~= enc_strings(rest));
        assert forall|i: int| 0 <= i < rest.len() implies is_utf8(#[trigger] rest[i])
            && rest[i].len() <= u32::MAX by {
            assert(rest[i] == ss[i + 1]);
        }
        lemma_parse_strings_of_enc(rest, b, p);
        assert(seq![s0] + rest =~= ss);
    }
}

/// Round trip for the string table: the encoded chunk decodes to exactly
/// the same string list and the recomputed offset array, wherever it lands
/// in the file.  Replacing a string and re-encoding therefore preserves
/// every string, the replaced one included, at its index.
#[verifier::rlimit(100)]
pub proof fn lemma_strg_round_trip(ss: Seq<Seq<u8>>, prefix: Seq<u8>, suffix: Seq<u8>)
    requires
        strg_fits(ss, prefix.len() as int + 8),
        forall|i: int| 0 <= i < ss.len() ==> is_utf8(#[trigger] ss[i]),
    ensures
        ({
            let base = prefix.len() as int + 8;
            let content = strg_content(ss, base);
            parse_strg(prefix + chunk_bytes(TAG_STRG, content) + suffix, prefix.len() as int)
                == Some((ss, strg_offset_words(ss, base), base + content.len()))
        }),
{
    lemma_auto_spec_u32_to_from_le_bytes();
    let base = prefix.len() as int + 8;
    let content = strg_content(ss, base);
    let b = prefix + chunk_bytes(TAG_STRG, content) + suffix;
    let start = prefix.len() as int;
    let n = ss.len() as int;
    let ws = strg_offset_words(ss, base);
    lemma_strg_content_len(ss, base);
    lemma_enc_strings_min_len(ss);
    crate::words::lemma_bytes_of_u32s_len(ws);
    assert(b.subrange(start, start + 4) =~= spec_u32_to_le_bytes(TAG_STRG));
    assert(b.subrange(base, base + 4) =~= spec_u32_to_le_bytes(ss.len() as u32));
    assert(spec_u32_from_le_bytes(b.subrange(base, base + 4)) as int == n);
    assert(b.subrange(base + 4, base + 4 + 4 * n) =~= bytes_of_u32s(ws));
    lemma_parse_u32s_agrees(b, base + 4, n as nat, ws);
    let spos = base + 4 + 4 * n;
    assert(b.subrange(spos, spos + enc_strings(ss).len()) =~= enc_strings(ss));
    assert forall|i: int| 0 <= i < ss.len() implies is_utf8(#[trigger] ss[i]) && ss[i].len()
        <= u32::MAX by {
        lemma_strg_raw_len_parts(ss, i);
        lemma_enc_strings_min_len(ss.take(i));
    }
    lemma_parse_strings_of_enc(ss, b, spos);
    let p = spos + enc_strings(ss).len();
    assert(p == base + strg_raw_len(ss));
    assert(p + pad_len(p, 16) == base + content.len());
}

/// String offsets strictly increase: each one exceeds the previous by
/// exactly the previous string's encoded width, so the table stays dense
/// however the strings are mutated.
pub proof fn lemma_offsets_strictly_increase(ss: Seq<Seq<u8>>, base: int, i: int, j: int)
    requires
        0 <= i < j < ss.len(),
    ensures
        spec_string_offset(ss, base, i) < spec_string_offset(ss, base, j),
        spec_string_offset(ss, base, i + 1) == spec_string_offset(ss, base, i) + 5 + ss[i].len(),
    decreases j - i,
{
    if j == i + 1 {
    } else {
        lemma_offsets_strictly_increase(ss, base, i + 1, j);
    }
}

} // verus!
