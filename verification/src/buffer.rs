//! The arena: an owned byte region, a cursor, and offset/length handles.
//!
//! `allocate` and `alloc_mut` never hand out references into the region;
//! they return a `Chunk` or `ChunkMut` handle naming the granted range,
//! and bytes are read and written through the arena with the handle as a
//! capability. The reservation protocol alone decides which ranges exist,
//! so two granted ranges can never overlap (see the lemmas in `laws`).

use vstd::prelude::*;

use crate::model::cursor_after;
use crate::model::fits;
use crate::model::granted;
use crate::model::lemma_cursor_after_push;
use crate::model::lemma_granted_push;
use crate::model::step;

verus! {

/// A handle to a granted byte range, readable through [`Buffer::get`].
#[derive(Clone, Copy, PartialEq, Eq, Structural, Debug)]
pub struct Chunk {
    pub start: usize,
    pub len: usize,
}

/// A handle to a granted byte range, writable through [`Buffer::set`].
///
/// Each successful `alloc_mut` returns a fresh handle to a range disjoint
/// from every other granted range, so writes through one `ChunkMut` can
/// never be observed through any other handle.
#[derive(Clone, Copy, PartialEq, Eq, Structural, Debug)]
pub struct ChunkMut {
    pub start: usize,
    pub len: usize,
}

/// A fixed-capacity bump allocator over an owned byte region.
pub struct Buffer {
    bytes: Vec<u8>,
    next: usize,
    log: Ghost<Seq<nat>>,
}

impl Chunk {
    /// The range lies inside the allocated part of `b`'s region.
    pub open spec fn wf_for(self, b: Buffer) -> bool {
        self.start + self.len <= b.cursor()
    }
}

impl ChunkMut {
    /// The range lies inside the allocated part of `b`'s region.
    pub open spec fn wf_for(self, b: Buffer) -> bool {
        self.start + self.len <= b.cursor()
    }

    /// A read-only handle to the same range.
    pub fn as_chunk(&self) -> (c: Chunk)
        ensures
            c.start == self.start,
            c.len == self.len,
    {
        Chunk { start: self.start, len: self.len }
    }
}

impl Buffer {
    /// Fixed capacity of the region, in bytes.
    pub closed spec fn capacity(&self) -> nat {
        self.bytes@.len()
    }

    /// Offset of the first unallocated byte.
    pub closed spec fn cursor(&self) -> nat {
        self.next as nat
    }

    /// The bytes of the whole region.
    pub closed spec fn contents(&self) -> Seq<u8> {
        self.bytes@
    }

    /// Every size ever requested, in order, granted or not.
    pub closed spec fn requests(&self) -> Seq<nat> {
        self.log@
    }

    /// The ranges granted over this arena's whole request history, as
    /// `(start, length)` pairs in grant order.
    pub open spec fn grants(&self) -> Seq<(nat, nat)> {
        granted(0, self.capacity(), self.requests())
    }

    /// The cursor never passes the capacity, and always equals the cursor
    /// that the protocol model reaches on the recorded requests.
    pub open spec fn wf(&self) -> bool {
        &&& self.cursor() <= self.capacity()
        &&& self.cursor() == cursor_after(0, self.capacity(), self.requests())
    }

    /// Takes ownership of a byte region and starts the cursor at zero.
    pub fn init_from_bytes(bytes: Vec<u8>) -> (b: Buffer)
        ensures
            b.wf(),
            b.capacity() == bytes@.len(),
            b.cursor() == 0,
            b.contents() == bytes@,
            b.requests() == Seq::<nat>::empty(),
    {
        Buffer { bytes, next: 0, log: Ghost(Seq::empty()) }
    }

    /// Capacity of the region.
    pub fn len(&self) -> (n: usize)
        ensures
            n == self.capacity(),
    {
        self.bytes.len()
    }

    /// Bytes not yet allocated. Advisory only: a later request may still be
    /// rejected, since a request of exactly `remaining()` bytes crosses the
    /// boundary (see `fits`).
    pub fn remaining(&self) -> (n: usize)
        requires
            self.wf(),
        ensures
            n == self.capacity() - self.cursor(),
    {
        self.bytes.len() - self.next
    }

    /// Reservation step: records the request, and on success advances the
    /// cursor and returns the new cursor value; on rejection returns zero.
    /// A successful new cursor is never zero, since a zero-size request is
    /// always rejected.
    fn reserve(&mut self, sz: usize) -> (new: usize)
        requires
            old(self).wf(),
        ensures
            final(self).wf(),
            final(self).capacity() == old(self).capacity(),
            final(self).contents() == old(self).contents(),
            final(self).requests() == old(self).requests().push(sz as nat),
            final(self).cursor() == step(old(self).cursor(), old(self).capacity(), sz as nat),
            new != 0 <==> fits(old(self).cursor(), old(self).capacity(), sz as nat),
            new != 0 ==> new == old(self).cursor() + sz,
    {
        proof {
            lemma_cursor_after_push(0, self.capacity(), self.requests(), sz as nat);
        }
        self.log = Ghost(self.log@.push(sz as nat));
        if sz == 0 {
            return 0;
        }
        let cap: usize = self.bytes.len();
        if sz >= cap - self.next {
            return 0;
        }
        let new: usize = self.next + sz;
        self.next = new;
        new
    }

    /// Allocates `sz` bytes, returning a read handle to the granted range.
    ///
    /// Succeeds exactly when the request fits: the size is non-zero and the
    /// range would end strictly below the capacity. The granted range starts
    /// at the old cursor; a rejected request leaves the cursor unchanged.
    /// On success the grant history gains exactly the new range; on
    /// rejection it is unchanged.
    pub fn allocate(&mut self, sz: usize) -> (r: Option<Chunk>)
        requires
            old(self).wf(),
        ensures
            final(self).wf(),
            final(self).capacity() == old(self).capacity(),
            final(self).contents() == old(self).contents(),
            final(self).requests() == old(self).requests().push(sz as nat),
            final(self).cursor() == step(old(self).cursor(), old(self).capacity(), sz as nat),
            r.is_some() <==> fits(old(self).cursor(), old(self).capacity(), sz as nat),
            r.is_some() ==> r.unwrap().start == old(self).cursor() && r.unwrap().len == sz
                && r.unwrap().wf_for(*final(self)),
            r.is_none() ==> final(self).cursor() == old(self).cursor(),
            final(self).grants() == (if r.is_some() {
                old(self).grants().push((old(self).cursor(), sz as nat))
            } else {
                old(self).grants()
            }),
    {
        proof {
            lemma_granted_push(0, self.capacity(), self.requests(), sz as nat);
        }
        let new: usize = self.reserve(sz);
        if new == 0 {
            None
        } else {
            Some(Chunk { start: new - sz, len: sz })
        }
    }

    /// Allocates `sz` bytes, returning a write handle to the granted range.
    ///
    /// Same protocol as [`Buffer::allocate`]; only the kind of handle differs.
    pub fn alloc_mut(&mut self, sz: usize) -> (r: Option<ChunkMut>)
        requires
            old(self).wf(),
        ensures
            final(self).wf(),
            final(self).capacity() == old(self).capacity(),
            final(self).contents() == old(self).contents(),
            final(self).requests() == old(self).requests().push(sz as nat),
            final(self).cursor() == step(old(self).cursor(), old(self).capacity(), sz as nat),
            r.is_some() <==> fits(old(self).cursor(), old(self).capacity(), sz as nat),
            r.is_some() ==> r.unwrap().start == old(self).cursor() && r.unwrap().len == sz
                && r.unwrap().wf_for(*final(self)),
            r.is_none() ==> final(self).cursor() == old(self).cursor(),
            final(self).grants() == (if r.is_some() {
                old(self).grants().push((old(self).cursor(), sz as nat))
            } else {
                old(self).grants()
            }),
    {
        proof {
            lemma_granted_push(0, self.capacity(), self.requests(), sz as nat);
        }
        let new: usize = self.reserve(sz);
        if new == 0 {
            None
        } else {
            Some(ChunkMut { start: new - sz, len: sz })
        }
    }

    /// Reads the byte at offset `i` of the granted range `c`.
    pub fn get(&self, c: &Chunk, i: usize) -> (r: u8)
        requires
            self.wf(),
            c.wf_for(*self),
            i < c.len,
        ensures
            r == self.contents()[c.start + i],
    {
        self.bytes[c.start + i]
    }

    /// Writes `v` at offset `i` of the granted range `c`: exactly that one
    /// byte of the region changes, and the cursor and request history do not.
    pub fn set(&mut self, c: &ChunkMut, i: usize, v: u8)
        requires
            old(self).wf(),
            c.wf_for(*old(self)),
            i < c.len,
        ensures
            final(self).wf(),
            final(self).capacity() == old(self).capacity(),
            final(self).cursor() == old(self).cursor(),
            final(self).requests() == old(self).requests(),
            final(self).contents() == old(self).contents().update(c.start + i, v),
    {
        self.bytes.set(c.start + i, v);
    }
}

} // verus!
