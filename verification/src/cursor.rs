//! In-memory byte streams.
//!
//! The whole bundle is held in memory while it is decoded or encoded, so a
//! reader is a byte buffer with a current position and a writer is a growing
//! byte buffer that also supports patching already-emitted bytes.  Patching
//! is what the deferred-offset write protocol uses: a field whose value is
//! only known once the downstream layout is fixed is first written as a
//! placeholder and corrected afterwards.

use crate::error::ReadError;
use vstd::bytes::{
    lemma_auto_spec_u32_to_from_le_bytes, spec_u32_from_le_bytes, spec_u32_to_le_bytes,
    u32_from_le_bytes, u32_to_le_bytes,
};
use vstd::prelude::*;
use vstd::slice::{slice_subrange, slice_to_vec};

verus! {

/// A sequence of `n` zero bytes.
pub open spec fn zeros(n: nat) -> Seq<u8> {
    Seq::new(n, |i: int| 0u8)
}

/// `s` with the bytes at `pos .. pos + patch.len()` replaced by `patch`.
pub open spec fn splice(s: Seq<u8>, pos: int, patch: Seq<u8>) -> Seq<u8> {
    s.take(pos) + patch + s.skip(pos + patch.len())
}

/// Width of the zero padding that takes a stream of length `len` to the next
/// multiple of `align`.
pub open spec fn pad_len(len: int, align: int) -> int {
    if len % align == 0 {
        0
    } else {
        align - len % align
    }
}

/// A byte buffer being decoded, with the position the next read starts at.
pub struct Reader {
    pub data: Vec<u8>,
    pub pos: usize,
}

impl Reader {
    /// The position never runs past the end of the buffer.
    pub open spec fn wf(self) -> bool {
        self.pos <= self.data@.len()
    }

    pub fn new(data: Vec<u8>) -> (r: Reader)
        ensures
            r.data@ == data@,
            r.pos == 0,
            r.wf(),
    {
        Reader { data, pos: 0 }
    }

    /// The current absolute position in the stream.
    pub fn tell(&self) -> (p: usize)
        ensures
            p == self.pos,
    {
        self.pos
    }

    /// How many bytes are left to read.
    pub fn remaining(&self) -> (n: usize)
        requires
            self.wf(),
        ensures
            n == self.data@.len() - self.pos,
    {
        self.data.len() - self.pos
    }

    /// Moves the position to `pos`, which may be anywhere in the buffer.
    pub fn seek(&mut self, pos: usize) -> (r: Result<(), ReadError>)
        requires
            old(self).wf(),
        ensures
            final(self).data == old(self).data,
            final(self).wf(),
            match r {
                Ok(()) => final(self).pos == pos && pos <= old(self).data@.len(),
                Err(e) => {
                    &&& e == ReadError::UnexpectedEof
                    &&& final(self).pos == old(self).pos
                    &&& pos > old(self).data@.len()
                },
            },
    {
        if pos <= self.data.len() {
            self.pos = pos;
            Ok(())
        } else {
            Err(ReadError::UnexpectedEof)
        }
    }

    /// Moves the position forward by `n` bytes without reading them.
    pub fn skip(&mut self, n: usize) -> (r: Result<(), ReadError>)
        requires
            old(self).wf(),
        ensures
            final(self).data == old(self).data,
            final(self).wf(),
            match r {
                Ok(()) => final(self).pos == old(self).pos + n && old(self).pos + n
                    <= old(self).data@.len(),
                Err(e) => {
                    &&& e == ReadError::UnexpectedEof
                    &&& final(self).pos == old(self).pos
                    &&& old(self).pos + n > old(self).data@.len()
                },
            },
    {
        if n <= self.data.len() - self.pos {
            self.pos = self.pos + n;
            Ok(())
        } else {
            Err(ReadError::UnexpectedEof)
        }
    }

    /// Reads one byte.
    pub fn read_u8(&mut self) -> (r: Result<u8, ReadError>)
        requires
            old(self).wf(),
        ensures
            final(self).data == old(self).data,
            final(self).wf(),
            match r {
                Ok(v) => {
                    &&& final(self).pos == old(self).pos + 1
                    &&& old(self).pos + 1 <= old(self).data@.len()
                    &&& v == old(self).data@[old(self).pos as int]
                },
                Err(e) => {
                    &&& e == ReadError::UnexpectedEof
                    &&& final(self).pos == old(self).pos
                    &&& old(self).pos + 1 > old(self).data@.len()
                },
            },
    {
        if self.pos < self.data.len() {
            let v = self.data[self.pos];
            self.pos = self.pos + 1;
            Ok(v)
        } else {
            Err(ReadError::UnexpectedEof)
        }
    }

    /// Reads a little-endian `u32`.
    pub fn read_u32(&mut self) -> (r: Result<u32, ReadError>)
        requires
            old(self).wf(),
        ensures
            final(self).data == old(self).data,
            final(self).wf(),
            match r {
                Ok(v) => {
                    &&& final(self).pos == old(self).pos + 4
                    &&& old(self).pos + 4 <= old(self).data@.len()
                    &&& v == spec_u32_from_le_bytes(
                        old(self).data@.subrange(old(self).pos as int, old(self).pos + 4),
                    )
                    &&& spec_u32_to_le_bytes(v) == old(self).data@.subrange(
                        old(self).pos as int,
                        old(self).pos + 4,
                    )
                },
                Err(e) => {
                    &&& e == ReadError::UnexpectedEof
                    &&& final(self).pos == old(self).pos
                    &&& old(self).pos + 4 > old(self).data@.len()
                },
            },
    {
        if 4 <= self.data.len() - self.pos {
            let s = slice_subrange(self.data.as_slice(), self.pos, self.pos + 4);
            let v = u32_from_le_bytes(s);
            proof {
                lemma_auto_spec_u32_to_from_le_bytes();
            }
            self.pos = self.pos + 4;
            Ok(v)
        } else {
            Err(ReadError::UnexpectedEof)
        }
    }

    /// Reads `len` raw bytes into a fresh vector.
    pub fn read_bytes(&mut self, len: usize) -> (r: Result<Vec<u8>, ReadError>)
        requires
            old(self).wf(),
        ensures
            final(self).data == old(self).data,
            final(self).wf(),
            match r {
                Ok(v) => {
                    &&& final(self).pos == old(self).pos + len
                    &&& old(self).pos + len <= old(self).data@.len()
                    &&& v@ == old(self).data@.subrange(old(self).pos as int, old(self).pos + len)
                },
                Err(e) => {
                    &&& e == ReadError::UnexpectedEof
                    &&& final(self).pos == old(self).pos
                    &&& old(self).pos + len > old(self).data@.len()
                },
            },
    {
        if len <= self.data.len() - self.pos {
            let s = slice_subrange(self.data.as_slice(), self.pos, self.pos + len);
            let v = slice_to_vec(s);
            self.pos = self.pos + len;
            Ok(v)
        } else {
            Err(ReadError::UnexpectedEof)
        }
    }

    /// Moves the position forward to the next multiple of `align`.
    pub fn align_to(&mut self, align: usize) -> (r: Result<(), ReadError>)
        requires
            old(self).wf(),
            align > 0,
        ensures
            final(self).data == old(self).data,
            final(self).wf(),
            match r {
                Ok(()) => {
                    &&& final(self).pos == old(self).pos + pad_len(old(self).pos as int, align as int)
                    &&& final(self).pos % align == 0
                    &&& final(self).pos <= old(self).data@.len()
                },
                Err(e) => {
                    &&& e == ReadError::UnexpectedEof
                    &&& final(self).pos == old(self).pos
                    &&& old(self).pos + pad_len(old(self).pos as int, align as int) > old(
                        self,
                    ).data@.len()
                },
            },
    {
        let rem = self.pos % align;
        if rem == 0 {
            Ok(())
        } else {
            proof {
                let p = self.pos as int;
                let a = align as int;
                assert((p + (a - p % a)) % a == 0) by (nonlinear_arith)
                    requires
                        a > 0,
                        p >= 0,
                ;
            }
            self.skip(align - rem)
        }
    }
}

/// A byte buffer being encoded.  Bytes are appended at the end; a reserved
/// field can later be patched in place once its value is known.
pub struct Writer {
    pub data: Vec<u8>,
}

impl Writer {
    pub fn new() -> (w: Writer)
        ensures
            w.data@ == Seq::<u8>::empty(),
    {
        Writer { data: Vec::new() }
    }

    /// The current absolute position, which is where the next byte lands.
    pub fn tell(&self) -> (p: usize)
        ensures
            p == self.data@.len(),
    {
        self.data.len()
    }

    /// Appends one byte.
    pub fn write_u8(&mut self, v: u8)
        ensures
            final(self).data@ == old(self).data@.push(v),
    {
        self.data.push(v);
    }

    /// Appends a `u32` in little-endian order.
    pub fn write_u32(&mut self, v: u32)
        ensures
            final(self).data@ == old(self).data@ + spec_u32_to_le_bytes(v),
    {
        let b = u32_to_le_bytes(v);
        self.write_bytes(b.as_slice());
    }

    /// Appends raw bytes.
    pub fn write_bytes(&mut self, b: &[u8])
        ensures
            final(self).data@ == old(self).data@ + b@,
    {
        let mut i: usize = 0;
        while i < b.len()
            invariant
                i <= b@.len(),
                self.data@ == old(self).data@ + b@.take(i as int),
            decreases b@.len() - i,
        {
            let v = *vstd::slice::slice_index_get(b, i);
            self.data.push(v);
            proof {
                assert(old(self).data@ + b@.take(i + 1) =~= (old(self).data@ + b@.take(
                    i as int,
                )).push(b@[i as int]));
            }
            i = i + 1;
        }
        proof {
            assert(b@.take(b@.len() as int) =~= b@);
        }
    }

    /// Appends `n` zero bytes.
    pub fn write_zeros(&mut self, n: usize)
        ensures
            final(self).data@ == old(self).data@ + zeros(n as nat),
    {
        let mut i: usize = 0;
        while i < n
            invariant
                i <= n,
                self.data@ == old(self).data@ + zeros(i as nat),
            decreases n - i,
        {
            self.data.push(0u8);
            proof {
                assert(old(self).data@ + zeros((i + 1) as nat) =~= (old(self).data@ + zeros(
                    i as nat,
                )).push(0u8));
            }
            i = i + 1;
        }
    }

    /// Appends zero bytes until the position is a multiple of `align`.
    pub fn pad_to(&mut self, align: usize)
        requires
            align > 0,
        ensures
            final(self).data@ == old(self).data@ + zeros(
                pad_len(old(self).data@.len() as int, align as int) as nat,
            ),
            final(self).data@.len() as int % align as int == 0,
    {
        let rem = self.data.len() % align;
        if rem == 0 {
            proof {
                assert(self.data@ =~= old(self).data@ + zeros(0));
            }
        } else {
            proof {
                let p = self.data@.len() as int;
                let a = align as int;
                assert((p + (a - p % a)) % a == 0) by (nonlinear_arith)
                    requires
                        a > 0,
                        p >= 0,
                ;
            }
            self.write_zeros(align - rem);
        }
    }

    /// Overwrites the 4 bytes at `pos` with `v` in little-endian order.
    /// This is the deferred-offset patch: the caller reserved the field
    /// earlier and now knows its value.
    pub fn patch_u32(&mut self, pos: usize, v: u32)
        requires
            pos + 4 <= old(self).data@.len(),
        ensures
            final(self).data@ == splice(old(self).data@, pos as int, spec_u32_to_le_bytes(v)),
    {
        proof {
            lemma_auto_spec_u32_to_from_le_bytes();
        }
        let b = u32_to_le_bytes(v);
        let n = self.data.len();
        self.data.set(pos, b[0]);
        self.data.set(pos + 1, b[1]);
        self.data.set(pos + 2, b[2]);
        self.data.set(pos + 3, b[3]);
        proof {
            assert(self.data@ =~= splice(old(self).data@, pos as int, spec_u32_to_le_bytes(v)));
        }
    }

    /// Overwrites the bytes at `pos .. pos + b.len()` with `b`.  Like
    /// [`Writer::patch_u32`], this serves the deferred-offset protocol:
    /// the region was reserved earlier and its bytes are known only now.
    pub fn patch_bytes(&mut self, pos: usize, b: &[u8])
        requires
            pos + b@.len() <= old(self).data@.len(),
        ensures
            final(self).data@ == splice(old(self).data@, pos as int, b@),
    {
        let n = self.data.len();
        let mut i: usize = 0;
        while i < b.len()
            invariant
                i <= b@.len(),
                pos + b@.len() <= old(self).data@.len(),
                n == old(self).data@.len(),
                self.data@.len() == n,
                self.data@ == old(self).data@.take(pos as int) + b@.take(i as int) + old(
                    self,
                ).data@.skip(pos + i),
            decreases b@.len() - i,
        {
            let v = *vstd::slice::slice_index_get(b, i);
            self.data.set(pos + i, v);
            proof {
                assert(self.data@ =~= old(self).data@.take(pos as int) + b@.take(i + 1) + old(
                    self,
                ).data@.skip(pos + i + 1));
            }
            i = i + 1;
        }
        proof {
            assert(b@.take(b@.len() as int) =~= b@);
            assert(self.data@ =~= splice(old(self).data@, pos as int, b@));
        }
    }
}

} // verus!
