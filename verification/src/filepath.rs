//! Filepath builder: one reusable buffer that composes `dir/name.ext`
//! paths, terminator included.
//!
//! Construction is strictly sequential and non-reentrant: after
//! [`Filepath::get_string`] the buffer is complete and refuses further
//! entries until [`Filepath::new_path`] starts it over.

use vstd::prelude::*;

use crate::arena::MemoryArena;
use crate::strview::{vbytes, view_ok, Store, StrView};
use crate::Error;

verus! {

/// The path separator the builder writes between entries.
pub const PATH_SEP: u8 = 47;

/// A full component path: `dir`, a separator, `name`, a dot, `ext`, and
/// the terminator that the platform's file services expect.
pub open spec fn path_of(dir: Seq<u8>, name: Seq<u8>, ext: Seq<u8>) -> Seq<u8> {
    dir + seq![PATH_SEP] + name + seq![46u8] + ext + seq![0u8]
}

/// A path of only `dir`, a separator, `name`, and the terminator.
pub open spec fn entry_path_of(dir: Seq<u8>, name: Seq<u8>) -> Seq<u8> {
    dir + seq![PATH_SEP] + name + seq![0u8]
}

/// The single reusable path buffer.
pub struct Filepath {
    arena: MemoryArena,
    complete: bool,
}

impl Filepath {
    /// The bytes composed so far.
    pub closed spec fn bytes(&self) -> Seq<u8> {
        self.arena.bytes()
    }

    /// The buffer's fixed capacity.
    pub closed spec fn capacity(&self) -> nat {
        self.arena.capacity()
    }

    /// Whether the current path is finished and the buffer locked.
    pub closed spec fn is_complete(&self) -> bool {
        self.complete
    }

    pub open spec fn wf(&self) -> bool {
        self.bytes().len() <= self.capacity()
    }

    /// A fresh builder over a buffer of the given capacity.
    pub fn new(cap: usize) -> (f: Filepath)
        ensures
            f.wf(),
            f.capacity() == cap,
            f.bytes() == Seq::<u8>::empty(),
            !f.is_complete(),
    {
        Filepath { arena: MemoryArena::new(cap), complete: false }
    }

    /// Start a new path over: the buffer is reset to hold `base` alone.
    pub fn new_path(&mut self, store: &Store, base: StrView) -> (r: Result<(), Error>)
        requires
            old(self).wf(),
            view_ok(store.texts(), base),
        ensures
            final(self).wf(),
            final(self).capacity() == old(self).capacity(),
            !final(self).is_complete(),
            match r {
                Ok(()) => {
                    &&& base.len <= old(self).capacity()
                    &&& final(self).bytes() == vbytes(store.texts(), base)
                },
                Err(e) => {
                    &&& e == Error::CapacityExceeded
                    &&& base.len > old(self).capacity()
                    &&& final(self).bytes() == Seq::<u8>::empty()
                },
            },
    {
        self.complete = false;
        self.arena.clear();
        let src = store.read_out(base);
        match self.arena.push_and_copy(&src, 0, src.len()) {
            Ok(_) => {
                proof {
                    assert(self.arena.bytes() =~= vbytes(store.texts(), base));
                }
                Ok(())
            },
            Err(e) => Err(e),
        }
    }

    /// Append a separator and one more path entry.
    pub fn add_entry(&mut self, store: &Store, entry: StrView) -> (r: Result<(), Error>)
        requires
            old(self).wf(),
            !old(self).is_complete(),
            view_ok(store.texts(), entry),
        ensures
            final(self).wf(),
            final(self).capacity() == old(self).capacity(),
            !final(self).is_complete(),
            match r {
                Ok(()) => {
                    &&& old(self).bytes().len() + 1 + entry.len <= old(self).capacity()
                    &&& final(self).bytes() == old(self).bytes() + seq![PATH_SEP] + vbytes(
                        store.texts(),
                        entry,
                    )
                },
                Err(e) => {
                    &&& e == Error::CapacityExceeded
                    &&& old(self).bytes().len() + 1 + entry.len > old(self).capacity()
                    &&& final(self).bytes() == old(self).bytes()
                },
            },
    {
        self.push_sep_and_view(store, entry, PATH_SEP)
    }

    /// Append a dot and the file extension.
    pub fn add_ext(&mut self, store: &Store, ext: StrView) -> (r: Result<(), Error>)
        requires
            old(self).wf(),
            !old(self).is_complete(),
            view_ok(store.texts(), ext),
        ensures
            final(self).wf(),
            final(self).capacity() == old(self).capacity(),
            !final(self).is_complete(),
            match r {
                Ok(()) => {
                    &&& old(self).bytes().len() + 1 + ext.len <= old(self).capacity()
                    &&& final(self).bytes() == old(self).bytes() + seq![46u8] + vbytes(
                        store.texts(),
                        ext,
                    )
                },
                Err(e) => {
                    &&& e == Error::CapacityExceeded
                    &&& old(self).bytes().len() + 1 + ext.len > old(self).capacity()
                    &&& final(self).bytes() == old(self).bytes()
                },
            },
    {
        self.push_sep_and_view(store, ext, 46)
    }

    /// Finish the path: append the terminator, lock the buffer until the
    /// next `new_path`, and hand out a copy of the whole path.
    pub fn get_string(&mut self) -> (r: Result<Vec<u8>, Error>)
        requires
            old(self).wf(),
            !old(self).is_complete(),
        ensures
            final(self).wf(),
            final(self).capacity() == old(self).capacity(),
            match r {
                Ok(p) => {
                    &&& old(self).bytes().len() + 1 <= old(self).capacity()
                    &&& final(self).bytes() == old(self).bytes().push(0u8)
                    &&& p@ == final(self).bytes()
                    &&& final(self).is_complete()
                },
                Err(e) => {
                    &&& e == Error::CapacityExceeded
                    &&& old(self).bytes().len() + 1 > old(self).capacity()
                    &&& final(self).bytes() == old(self).bytes()
                    &&& !final(self).is_complete()
                },
            },
    {
        match self.arena.push_byte(0) {
            Ok(_) => {
                self.complete = true;
                Ok(self.arena.to_vec())
            },
            Err(e) => Err(e),
        }
    }

    /// Compose `dir/name.ext` with its terminator in one sweep, starting
    /// the buffer over first. Succeeds exactly when the whole path fits.
    pub fn build_path(&mut self, store: &Store, dir: StrView, name: StrView, ext: StrView) -> (r:
        Result<Vec<u8>, Error>)
        requires
            old(self).wf(),
            view_ok(store.texts(), dir),
            view_ok(store.texts(), name),
            view_ok(store.texts(), ext),
        ensures
            final(self).wf(),
            final(self).capacity() == old(self).capacity(),
            match r {
                Ok(p) => {
                    &&& p@ == path_of(
                        vbytes(store.texts(), dir),
                        vbytes(store.texts(), name),
                        vbytes(store.texts(), ext),
                    )
                    &&& p@.len() <= old(self).capacity()
                },
                Err(e) => {
                    &&& e == Error::CapacityExceeded
                    &&& path_of(
                        vbytes(store.texts(), dir),
                        vbytes(store.texts(), name),
                        vbytes(store.texts(), ext),
                    ).len() > old(self).capacity()
                    &&& !final(self).is_complete()
                },
            },
    {
        let ghost full = path_of(
            vbytes(store.texts(), dir),
            vbytes(store.texts(), name),
            vbytes(store.texts(), ext),
        );
        self.new_path(store, dir)?;
        self.add_entry(store, name)?;
        self.add_ext(store, ext)?;
        let p = self.get_string()?;
        proof {
            assert(p@ =~= full);
        }
        Ok(p)
    }

    /// Compose `dir/name` with its terminator in one sweep, starting the
    /// buffer over first. Succeeds exactly when the whole path fits.
    pub fn build_entry_path(&mut self, store: &Store, dir: StrView, name: StrView) -> (r: Result<
        Vec<u8>,
        Error,
    >)
        requires
            old(self).wf(),
            view_ok(store.texts(), dir),
            view_ok(store.texts(), name),
        ensures
            final(self).wf(),
            final(self).capacity() == old(self).capacity(),
            match r {
                Ok(p) => {
                    &&& p@ == entry_path_of(vbytes(store.texts(), dir), vbytes(store.texts(), name))
                    &&& p@.len() <= old(self).capacity()
                },
                Err(e) => {
                    &&& e == Error::CapacityExceeded
                    &&& entry_path_of(
                        vbytes(store.texts(), dir),
                        vbytes(store.texts(), name),
                    ).len() > old(self).capacity()
                },
            },
    {
        let ghost full = entry_path_of(vbytes(store.texts(), dir), vbytes(store.texts(), name));
        self.new_path(store, dir)?;
        self.add_entry(store, name)?;
        let p = self.get_string()?;
        proof {
            assert(p@ =~= full);
        }
        Ok(p)
    }

    fn push_sep_and_view(&mut self, store: &Store, v: StrView, sep: u8) -> (r: Result<(), Error>)
        requires
            old(self).wf(),
            !old(self).is_complete(),
            view_ok(store.texts(), v),
        ensures
            final(self).wf(),
            final(self).capacity() == old(self).capacity(),
            !final(self).is_complete(),
            match r {
                Ok(()) => {
                    &&& old(self).bytes().len() + 1 + v.len <= old(self).capacity()
                    &&& final(self).bytes() == old(self).bytes() + seq![sep] + vbytes(
                        store.texts(),
                        v,
                    )
                },
                Err(e) => {
                    &&& e == Error::CapacityExceeded
                    &&& old(self).bytes().len() + 1 + v.len > old(self).capacity()
                    &&& final(self).bytes() == old(self).bytes()
                },
            },
    {
        let rem = self.arena.remaining();
        if rem < 1 || rem - 1 < v.len {
            return Err(Error::CapacityExceeded);
        }
        let sep_pushed = self.arena.push_byte(sep);
        proof {
            assert(sep_pushed is Ok);
        }
        let src = store.read_out(v);
        let copied = self.arena.push_and_copy(&src, 0, src.len());
        proof {
            assert(copied is Ok);
            assert(self.arena.bytes() =~= old(self).bytes() + seq![sep] + vbytes(
                store.texts(),
                v,
            ));
        }
        Ok(())
    }
}

} // verus!
