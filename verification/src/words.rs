//! Sequences of little-endian 32-bit words.
//!
//! Nearly every record in the format is a run of `u32` fields, so the codecs
//! describe their byte layout through [`bytes_of_u32s`] and read or write
//! whole runs at a time.

use crate::cursor::{Reader, Writer};
use crate::error::ReadError;
use vstd::bytes::{
    lemma_auto_spec_u32_to_from_le_bytes, spec_u32_from_le_bytes, spec_u32_to_le_bytes,
};
use vstd::prelude::*;

verus! {

/// The bytes of a run of `u32` words, each in little-endian order.
pub open spec fn bytes_of_u32s(s: Seq<u32>) -> Seq<u8>
    decreases s.len(),
{
    if s.len() == 0 {
        Seq::empty()
    } else {
        spec_u32_to_le_bytes(s[0]) + bytes_of_u32s(s.drop_first())
    }
}

pub proof fn lemma_bytes_of_u32s_len(s: Seq<u32>)
    ensures
        bytes_of_u32s(s).len() == 4 * s.len(),
    decreases s.len(),
{
    lemma_auto_spec_u32_to_from_le_bytes();
    if s.len() > 0 {
        lemma_bytes_of_u32s_len(s.drop_first());
    }
}

pub proof fn lemma_bytes_of_u32s_push(s: Seq<u32>, x: u32)
    ensures
        bytes_of_u32s(s.push(x)) == bytes_of_u32s(s) + spec_u32_to_le_bytes(x),
    decreases s.len(),
{
    if s.len() == 0 {
        reveal_with_fuel(bytes_of_u32s, 2);
        assert(s.push(x).drop_first() =~= Seq::<u32>::empty());
        assert(bytes_of_u32s(s.push(x)) =~= bytes_of_u32s(s) + spec_u32_to_le_bytes(x));
    } else {
        assert(s.push(x).drop_first() =~= s.drop_first().push(x));
        lemma_bytes_of_u32s_push(s.drop_first(), x);
        assert(bytes_of_u32s(s.push(x)) =~= bytes_of_u32s(s) + spec_u32_to_le_bytes(x));
    }
}

/// The `n` words decoded from `b` starting at `pos`, each little-endian.
pub open spec fn parse_u32s(b: Seq<u8>, pos: int, n: nat) -> Seq<u32> {
    Seq::new(n, |i: int| spec_u32_from_le_bytes(b.subrange(pos + 4 * i, pos + 4 * i + 4)))
}

pub proof fn lemma_bytes_of_u32s_index(s: Seq<u32>, i: int)
    requires
        0 <= i < s.len(),
    ensures
        bytes_of_u32s(s).subrange(4 * i, 4 * i + 4) == spec_u32_to_le_bytes(s[i]),
    decreases i,
{
    lemma_auto_spec_u32_to_from_le_bytes();
    lemma_bytes_of_u32s_len(s);
    if i == 0 {
        assert(bytes_of_u32s(s).subrange(0, 4) =~= spec_u32_to_le_bytes(s[0]));
    } else {
        let rest = s.drop_first();
        lemma_bytes_of_u32s_len(rest);
        lemma_bytes_of_u32s_index(rest, i - 1);
        assert(bytes_of_u32s(s).subrange(4 * i, 4 * i + 4) =~= bytes_of_u32s(rest).subrange(
            4 * (i - 1),
            4 * (i - 1) + 4,
        ));
    }
}

/// Words whose bytes occupy a region of `b` are exactly what decoding that
/// region yields.
pub proof fn lemma_parse_u32s_agrees(b: Seq<u8>, pos: int, n: nat, ws: Seq<u32>)
    requires
        ws.len() == n,
        0 <= pos,
        pos + 4 * n <= b.len(),
        bytes_of_u32s(ws) == b.subrange(pos, pos + 4 * n),
    ensures
        parse_u32s(b, pos, n) == ws,
{
    lemma_auto_spec_u32_to_from_le_bytes();
    assert forall|i: int| 0 <= i < n implies parse_u32s(b, pos, n)[i] == ws[i] by {
        lemma_bytes_of_u32s_index(ws, i);
        assert(b.subrange(pos + 4 * i, pos + 4 * i + 4) =~= b.subrange(pos, pos + 4 * n).subrange(
            4 * i,
            4 * i + 4,
        ));
    }
    assert(parse_u32s(b, pos, n) =~= ws);
}

/// Reads `n` consecutive little-endian `u32` words.
pub fn read_u32s(r: &mut Reader, n: usize) -> (res: Result<Vec<u32>, ReadError>)
    requires
        old(r).wf(),
    ensures
        final(r).data == old(r).data,
        final(r).wf(),
        match res {
            Ok(v) => {
                &&& v@.len() == n
                &&& old(r).pos + 4 * n <= old(r).data@.len()
                &&& final(r).pos == old(r).pos + 4 * n
                &&& bytes_of_u32s(v@) == old(r).data@.subrange(
                    old(r).pos as int,
                    old(r).pos + 4 * n,
                )
            },
            Err(e) => {
                &&& e == ReadError::UnexpectedEof
                &&& final(r).pos == old(r).pos
                &&& old(r).pos + 4 * n > old(r).data@.len()
            },
        },
{
    if n > (r.remaining()) / 4 {
        return Err(ReadError::UnexpectedEof);
    }
    let ghost start = r.pos as int;
    let mut out: Vec<u32> = Vec::new();
    let mut i: usize = 0;
    while i < n
        invariant
            r.wf(),
            r.data == old(r).data,
            i <= n,
            out@.len() == i,
            0 <= start,
            start + 4 * n <= r.data@.len(),
            r.pos == start + 4 * i,
            bytes_of_u32s(out@) == r.data@.subrange(start, start + 4 * i),
        decreases n - i,
    {
        let v = match r.read_u32() {
            Ok(v) => v,
            Err(e) => {
                return Err(e);
            },
        };
        proof {
            lemma_bytes_of_u32s_push(out@, v);
            assert(r.data@.subrange(start, start + 4 * (i + 1)) =~= r.data@.subrange(
                start,
                start + 4 * i,
            ) + r.data@.subrange(start + 4 * i, start + 4 * i + 4));
        }
        out.push(v);
        i = i + 1;
    }
    Ok(out)
}

/// Appends every word of `vals` in little-endian order.
pub fn write_u32s(w: &mut Writer, vals: &[u32])
    ensures
        final(w).data@ == old(w).data@ + bytes_of_u32s(vals@),
{
    let mut i: usize = 0;
    while i < vals.len()
        invariant
            i <= vals@.len(),
            w.data@ == old(w).data@ + bytes_of_u32s(vals@.take(i as int)),
        decreases vals@.len() - i,
    {
        let v = *vstd::slice::slice_index_get(vals, i);
        w.write_u32(v);
        proof {
            assert(vals@.take(i + 1) =~= vals@.take(i as int).push(vals@[i as int]));
            lemma_bytes_of_u32s_push(vals@.take(i as int), vals@[i as int]);
        }
        i = i + 1;
    }
    proof {
        assert(vals@.take(vals@.len() as int) =~= vals@);
    }
}

} // verus!
