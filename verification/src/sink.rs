//! The output sink: a fixed-capacity arena that hands its contents on
//! whenever a write would not fit.
//!
//! The bytes that have left the buffer are kept, in order, as the stream
//! already passed to the platform's append service; the caller writes the
//! whole stream out once resolution has succeeded, so a failed run leaves
//! no partial file behind. A single chunk larger than the whole buffer can
//! never fit and is a checked `CapacityExceeded`.

use vstd::prelude::*;

use crate::arena::MemoryArena;
use crate::strview::{vbytes, view_ok, Store, StrView};
use crate::Error;

verus! {

/// What one push does to the sink, stated over plain sequences: append to
/// the pending buffer if it fits, otherwise flush first, and refuse a
/// chunk that exceeds the capacity outright.
pub open spec fn sink_push(cap: nat, flushed: Seq<u8>, pending: Seq<u8>, b: Seq<u8>) -> Option<
    (Seq<u8>, Seq<u8>),
> {
    if pending.len() + b.len() <= cap {
        Some((flushed, pending + b))
    } else if b.len() <= cap {
        Some((flushed + pending, b))
    } else {
        None
    }
}

/// An output arena that flushes when full.
pub struct FlushableArena {
    arena: MemoryArena,
    flushed: Vec<u8>,
}

impl FlushableArena {
    /// The buffer's fixed capacity.
    pub closed spec fn cap(&self) -> nat {
        self.arena.capacity()
    }

    /// Bytes still sitting in the buffer.
    pub closed spec fn pending(&self) -> Seq<u8> {
        self.arena.bytes()
    }

    /// Bytes already flushed out of the buffer, in order.
    pub closed spec fn flushed(&self) -> Seq<u8> {
        self.flushed@
    }

    /// The whole output stream so far: flushed bytes then pending ones.
    pub open spec fn out_bytes(&self) -> Seq<u8> {
        self.flushed() + self.pending()
    }

    pub open spec fn wf(&self) -> bool {
        self.pending().len() <= self.cap()
    }

    /// An empty sink of the given capacity.
    pub fn new(cap: usize) -> (s: FlushableArena)
        ensures
            s.wf(),
            s.cap() == cap,
            s.flushed() == Seq::<u8>::empty(),
            s.pending() == Seq::<u8>::empty(),
    {
        FlushableArena { arena: MemoryArena::new(cap), flushed: Vec::new() }
    }

    /// Append the bytes behind `v` to the stream, flushing the buffer
    /// first when the chunk would not fit beside what is pending.
    pub fn push_and_copy(&mut self, store: &Store, v: StrView) -> (r: Result<(), Error>)
        requires
            old(self).wf(),
            view_ok(store.texts(), v),
        ensures
            final(self).wf(),
            final(self).cap() == old(self).cap(),
            match r {
                Ok(()) => {
                    &&& sink_push(
                        old(self).cap(),
                        old(self).flushed(),
                        old(self).pending(),
                        vbytes(store.texts(), v),
                    ) == Some((final(self).flushed(), final(self).pending()))
                    &&& final(self).out_bytes() == old(self).out_bytes() + vbytes(
                        store.texts(),
                        v,
                    )
                },
                Err(e) => {
                    &&& e == Error::CapacityExceeded
                    &&& sink_push(
                        old(self).cap(),
                        old(self).flushed(),
                        old(self).pending(),
                        vbytes(store.texts(), v),
                    ) is None
                },
            },
    {
        let rem = self.arena.remaining();
        if v.len > rem {
            // The chunk does not fit beside the pending bytes: hand those
            // on and start the buffer over.
            let drained = self.arena.to_vec();
            let mut j: usize = 0;
            while j < drained.len()
                invariant
                    j <= drained.len(),
                    self.flushed@ == old(self).flushed@ + drained@.subrange(0, j as int),
                    self.arena == old(self).arena,
                    drained@ == old(self).arena.bytes(),
                decreases drained.len() - j,
            {
                let b = drained[j];
                self.flushed.push(b);
                j = j + 1;
                proof {
                    assert(self.flushed@ =~= old(self).flushed@ + drained@.subrange(0, j as int));
                }
            }
            proof {
                assert(self.flushed@ =~= old(self).flushed@ + old(self).arena.bytes());
            }
            self.arena.clear();
            let src = store.read_out(v);
            match self.arena.push_and_copy(&src, 0, src.len()) {
                Ok(_) => {
                    proof {
                        assert(self.arena.bytes() =~= vbytes(store.texts(), v));
                        assert(self.out_bytes() =~= old(self).out_bytes() + vbytes(
                            store.texts(),
                            v,
                        ));
                    }
                    Ok(())
                },
                Err(e) => Err(e),
            }
        } else {
            let src = store.read_out(v);
            let pushed = self.arena.push_and_copy(&src, 0, src.len());
            proof {
                assert(pushed is Ok);
                assert(self.out_bytes() =~= old(self).out_bytes() + vbytes(store.texts(), v));
            }
            Ok(())
        }
    }

    /// Hand out the whole stream: what was flushed followed by what is
    /// still pending. The final write to disk is the caller's business.
    pub fn take_output(self) -> (r: Vec<u8>)
        requires
            self.wf(),
        ensures
            r@ == self.out_bytes(),
    {
        let mut out = self.flushed;
        let drained = self.arena.to_vec();
        let ghost flushed0 = out@;
        let mut j: usize = 0;
        while j < drained.len()
            invariant
                j <= drained.len(),
                out@ == flushed0 + drained@.subrange(0, j as int),
            decreases drained.len() - j,
        {
            let b = drained[j];
            out.push(b);
            j = j + 1;
            proof {
                assert(out@ =~= flushed0 + drained@.subrange(0, j as int));
            }
        }
        proof {
            assert(out@ =~= flushed0 + drained@);
        }
        out
    }
}

} // verus!
