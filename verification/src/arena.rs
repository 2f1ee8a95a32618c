//! Fixed-capacity bump allocator with nested, LIFO temporary scopes.
//!
//! A `MemoryArena` owns all bytes pushed into it and never frees them
//! individually: it only rewinds, either wholly or to a mark taken by
//! `begin_temporary`. Overflow is a checked error, never a silent
//! corruption. Scopes must be closed in exact reverse order of opening;
//! the contracts of [`TemporaryMemory::end`] enforce that strict LIFO
//! discipline through the arena's open-scope counter.

use vstd::prelude::*;

use crate::Error;

verus! {

/// A bump allocator over a byte buffer of fixed capacity.
pub struct MemoryArena {
    buf: Vec<u8>,
    cap: usize,
    temp_count: usize,
}

/// A mark taken from an arena by `begin_temporary`: it records how many
/// bytes were in use at creation and which scope level it stands at.
pub struct TemporaryMemory {
    used_before: usize,
    level: Ghost<nat>,
}

impl TemporaryMemory {
    /// The arena's `used` at the moment this scope was opened.
    pub closed spec fn mark(&self) -> nat {
        self.used_before as nat
    }

    /// How many scopes were already open when this one was opened.
    pub closed spec fn level(&self) -> nat {
        self.level@
    }

    /// Rewind the arena to this scope's mark without closing the scope.
    /// May be repeated.
    pub fn reset(&self, arena: &mut MemoryArena)
        requires
            old(arena).wf(),
            self.mark() <= old(arena).used(),
        ensures
            final(arena).wf(),
            final(arena).bytes() == old(arena).bytes().subrange(0, self.mark() as int),
            final(arena).capacity() == old(arena).capacity(),
            final(arena).open_scopes() == old(arena).open_scopes(),
    {
        arena.buf.truncate(self.used_before);
    }

    /// Close the scope: rewind once more and give the level back to the
    /// arena. Only the most recently opened scope may be ended, so scopes
    /// close in exact reverse order of opening.
    pub fn end(self, arena: &mut MemoryArena)
        requires
            old(arena).wf(),
            self.mark() <= old(arena).used(),
            old(arena).open_scopes() == self.level() + 1,
        ensures
            final(arena).wf(),
            final(arena).bytes() == old(arena).bytes().subrange(0, self.mark() as int),
            final(arena).capacity() == old(arena).capacity(),
            final(arena).open_scopes() == self.level(),
    {
        arena.buf.truncate(self.used_before);
        arena.temp_count = arena.temp_count - 1;
    }
}

impl MemoryArena {
    /// The bytes currently in use, in allocation order.
    pub closed spec fn bytes(&self) -> Seq<u8> {
        self.buf@
    }

    /// The fixed capacity the arena was created with.
    pub closed spec fn capacity(&self) -> nat {
        self.cap as nat
    }

    /// How many bytes are in use.
    pub open spec fn used(&self) -> nat {
        self.bytes().len()
    }

    /// How many temporary scopes are open.
    pub closed spec fn open_scopes(&self) -> nat {
        self.temp_count as nat
    }

    /// The arena never uses more than its capacity.
    pub open spec fn wf(&self) -> bool {
        self.used() <= self.capacity()
    }

    /// A fresh, empty arena of the given capacity with no open scopes.
    pub fn new(cap: usize) -> (a: MemoryArena)
        ensures
            a.wf(),
            a.capacity() == cap,
            a.bytes() == Seq::<u8>::empty(),
            a.open_scopes() == 0,
    {
        MemoryArena { buf: Vec::new(), cap, temp_count: 0 }
    }

    /// How much room is left.
    pub fn remaining(&self) -> (r: usize)
        requires
            self.wf(),
        ensures
            r == self.capacity() - self.used(),
    {
        self.cap - self.buf.len()
    }

    /// Reserve `n` bytes, zero-filled, and return the offset where they
    /// begin. Fails with `CapacityExceeded` when the room left is short,
    /// leaving the arena unchanged.
    pub fn push_size(&mut self, n: usize) -> (r: Result<usize, Error>)
        requires
            old(self).wf(),
        ensures
            final(self).wf(),
            final(self).capacity() == old(self).capacity(),
            final(self).open_scopes() == old(self).open_scopes(),
            match r {
                Ok(off) => {
                    &&& n <= old(self).capacity() - old(self).used()
                    &&& off == old(self).used()
                    &&& final(self).bytes() == old(self).bytes() + Seq::new(n as nat, |i: int| 0u8)
                },
                Err(e) => {
                    &&& e == Error::CapacityExceeded
                    &&& n > old(self).capacity() - old(self).used()
                    &&& final(self).bytes() == old(self).bytes()
                },
            },
    {
        if n > self.cap - self.buf.len() {
            return Err(Error::CapacityExceeded);
        }
        let off = self.buf.len();
        let mut i: usize = 0;
        while i < n
            invariant
                i <= n,
                self.buf@ == old(self).buf@ + Seq::new(i as nat, |j: int| 0u8),
                self.cap == old(self).cap,
                self.temp_count == old(self).temp_count,
                n <= self.cap - old(self).buf@.len(),
            decreases n - i,
        {
            self.buf.push(0u8);
            i = i + 1;
            proof {
                assert(self.buf@ =~= old(self).buf@ + Seq::new(i as nat, |j: int| 0u8));
            }
        }
        Ok(off)
    }

    /// Append one byte.
    pub fn push_byte(&mut self, b: u8) -> (r: Result<usize, Error>)
        requires
            old(self).wf(),
        ensures
            final(self).wf(),
            final(self).capacity() == old(self).capacity(),
            final(self).open_scopes() == old(self).open_scopes(),
            match r {
                Ok(off) => {
                    &&& 1 <= old(self).capacity() - old(self).used()
                    &&& off == old(self).used()
                    &&& final(self).bytes() == old(self).bytes().push(b)
                },
                Err(e) => {
                    &&& e == Error::CapacityExceeded
                    &&& old(self).used() == old(self).capacity()
                    &&& final(self).bytes() == old(self).bytes()
                },
            },
    {
        if self.buf.len() >= self.cap {
            return Err(Error::CapacityExceeded);
        }
        let off = self.buf.len();
        self.buf.push(b);
        Ok(off)
    }

    /// Append a copy of `src[start..end]`. Fails with `CapacityExceeded`
    /// when the room left is short, leaving the arena unchanged.
    pub fn push_and_copy(&mut self, src: &Vec<u8>, start: usize, end: usize) -> (r: Result<
        usize,
        Error,
    >)
        requires
            old(self).wf(),
            start <= end <= src.len(),
        ensures
            final(self).wf(),
            final(self).capacity() == old(self).capacity(),
            final(self).open_scopes() == old(self).open_scopes(),
            match r {
                Ok(off) => {
                    &&& end - start <= old(self).capacity() - old(self).used()
                    &&& off == old(self).used()
                    &&& final(self).bytes() == old(self).bytes() + src@.subrange(
                        start as int,
                        end as int,
                    )
                },
                Err(e) => {
                    &&& e == Error::CapacityExceeded
                    &&& end - start > old(self).capacity() - old(self).used()
                    &&& final(self).bytes() == old(self).bytes()
                },
            },
    {
        if end - start > self.cap - self.buf.len() {
            return Err(Error::CapacityExceeded);
        }
        let off = self.buf.len();
        let mut i: usize = start;
        while i < end
            invariant
                start <= i <= end,
                end <= src.len(),
                self.buf@ == old(self).buf@ + src@.subrange(start as int, i as int),
                self.cap == old(self).cap,
                self.temp_count == old(self).temp_count,
                end - start <= self.cap - old(self).buf@.len(),
            decreases end - i,
        {
            let b = src[i];
            self.buf.push(b);
            i = i + 1;
            proof {
                assert(self.buf@ =~= old(self).buf@ + src@.subrange(start as int, i as int));
            }
        }
        Ok(off)
    }

    /// Rewind the whole arena: every byte is given back at once.
    pub fn clear(&mut self)
        requires
            old(self).wf(),
        ensures
            final(self).wf(),
            final(self).bytes() == Seq::<u8>::empty(),
            final(self).capacity() == old(self).capacity(),
            final(self).open_scopes() == old(self).open_scopes(),
    {
        self.buf.truncate(0);
        proof {
            assert(self.buf@ =~= Seq::<u8>::empty());
        }
    }

    /// A copy of the bytes in use.
    pub fn to_vec(&self) -> (r: Vec<u8>)
        requires
            self.wf(),
        ensures
            r@ == self.bytes(),
    {
        let mut out: Vec<u8> = Vec::new();
        let mut i: usize = 0;
        while i < self.buf.len()
            invariant
                i <= self.buf.len(),
                out@ == self.buf@.subrange(0, i as int),
            decreases self.buf.len() - i,
        {
            let b = self.buf[i];
            out.push(b);
            i = i + 1;
            proof {
                assert(out@ =~= self.buf@.subrange(0, i as int));
            }
        }
        proof {
            assert(out@ =~= self.buf@);
        }
        out
    }

    /// Open a temporary scope at the current high-water mark.
    pub fn begin_temporary(&mut self) -> (t: TemporaryMemory)
        requires
            old(self).wf(),
            old(self).open_scopes() < usize::MAX,
        ensures
            final(self).wf(),
            final(self).bytes() == old(self).bytes(),
            final(self).capacity() == old(self).capacity(),
            final(self).open_scopes() == old(self).open_scopes() + 1,
            t.mark() == old(self).used(),
            t.level() == old(self).open_scopes(),
    {
        let mark = self.buf.len();
        let ghost lvl = self.temp_count as nat;
        self.temp_count = self.temp_count + 1;
        TemporaryMemory { used_before: mark, level: Ghost(lvl) }
    }
}

} // verus!
