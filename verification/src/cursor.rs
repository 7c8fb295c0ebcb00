//! Bounds-checked sequential reader over an in-memory byte buffer.
//!
//! Every read is guarded by an explicit length check in its caller, so no
//! read here can go out of bounds; the contracts say exactly which bytes
//! each operation yields and how far it advances.

use vstd::prelude::*;

verus! {

use vstd::bytes::{spec_u32_from_le_bytes, u32_from_le_bytes};

/// A read position inside an immutable byte buffer.
pub struct Cursor {
    data: Vec<u8>,
    pos: usize,
}

impl Cursor {
    /// The whole buffer being read.
    pub closed spec fn data(self) -> Seq<u8> {
        self.data@
    }

    /// The current read position, always within the buffer.
    pub closed spec fn pos(self) -> nat {
        self.pos as nat
    }

    pub open spec fn wf(self) -> bool {
        self.pos() <= self.data().len()
    }

    pub fn new(data: Vec<u8>) -> (c: Cursor)
        ensures
            c.data() == data@,
            c.pos() == 0,
            c.wf(),
    {
        Cursor { data, pos: 0 }
    }

    /// How many bytes are left to read.
    pub fn remaining(&self) -> (n: usize)
        requires
            self.wf(),
        ensures
            n == self.data().len() - self.pos(),
    {
        self.data.len() - self.pos
    }

    /// Reads the byte `off` places ahead of the current position,
    /// without advancing.
    pub fn peek(&self, off: usize) -> (b: u8)
        requires
            self.wf(),
            self.pos() + off < self.data().len(),
        ensures
            b == self.data()[self.pos() + off],
    {
        let _len = self.data.len();
        self.data[self.pos + off]
    }

    /// Reads a 4-byte little-endian integer at the current position,
    /// without advancing.
    pub fn peek_u32_le(&self) -> (x: u32)
        requires
            self.wf(),
            self.pos() + 4 <= self.data().len(),
        ensures
            x == spec_u32_from_le_bytes(self.data().subrange(
                self.pos() as int,
                (self.pos() + 4) as int,
            )),
    {
        let _len = self.data.len();
        let b0 = self.data[self.pos];
        let b1 = self.data[self.pos + 1];
        let b2 = self.data[self.pos + 2];
        let b3 = self.data[self.pos + 3];
        let bytes: Vec<u8> = vec![b0, b1, b2, b3];
        proof {
            assert(bytes@ =~= self.data().subrange(self.pos() as int, (self.pos() + 4) as int));
        }
        u32_from_le_bytes(bytes.as_slice())
    }

    /// Moves the position `n` bytes forward.
    pub fn advance(&mut self, n: usize)
        requires
            old(self).wf(),
            old(self).pos() + n <= old(self).data().len(),
        ensures
            final(self).data() == old(self).data(),
            final(self).pos() == (old(self).pos() + n) as int,
            final(self).wf(),
    {
        let _len = self.data.len();
        self.pos = self.pos + n;
    }

    /// Reads the next `n` bytes and advances past them.
    pub fn read_bytes(&mut self, n: usize) -> (v: Vec<u8>)
        requires
            old(self).wf(),
            old(self).pos() + n <= old(self).data().len(),
        ensures
            final(self).data() == old(self).data(),
            final(self).pos() == (old(self).pos() + n) as int,
            final(self).wf(),
            v@ == old(self).data().subrange(
                old(self).pos() as int,
                (old(self).pos() + n) as int,
            ),
    {
        let _len = self.data.len();
        let mut v: Vec<u8> = Vec::new();
        let mut i: usize = 0;
        while i < n
            invariant
                self.wf(),
                self.data() == old(self).data(),
                self.pos() == old(self).pos(),
                self.pos() + n <= self.data().len(),
                i <= n,
                v@ == self.data().subrange(self.pos() as int, (self.pos() + i) as int),
            decreases n - i,
        {
            let _len2 = self.data.len();
            v.push(self.data[self.pos + i]);
            i = i + 1;
            proof {
                assert(v@ =~= self.data().subrange(self.pos() as int, (self.pos() + i) as int));
            }
        }
        self.pos = self.pos + n;
        v
    }
}

} // verus!
