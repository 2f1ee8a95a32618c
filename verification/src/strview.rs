//! Immutable byte-string views over a growing store of buffers.
//!
//! A [`StrView`] is a value — buffer id, offset, length — and never copies
//! the bytes it stands for. The [`Store`] owns every buffer that the
//! resolver ever reads: the entry document, each component file as it is
//! loaded, and each inline body. Buffers are only appended, never changed,
//! so a view taken once stays valid for the whole run.

use vstd::prelude::*;

use crate::grammar::{is_ws, trim_of};
use crate::grammar::{lemma_rtrim_end_unique, lemma_ws_end_unique};

verus! {

/// A zero-copy slice of one of the store's buffers.
#[derive(Clone, Copy)]
pub struct StrView {
    /// Which buffer of the store the bytes live in.
    pub buf: usize,
    /// Offset of the first byte within that buffer.
    pub off: usize,
    /// Number of bytes.
    pub len: usize,
}

/// The view lies within its buffer.
pub open spec fn view_ok(t: Seq<Seq<u8>>, v: StrView) -> bool {
    &&& v.buf < t.len()
    &&& v.off + v.len <= t[v.buf as int].len()
}

/// The bytes a view stands for.
pub open spec fn vbytes(t: Seq<Seq<u8>>, v: StrView) -> Seq<u8> {
    t[v.buf as int].subrange(v.off as int, v.off + v.len)
}

/// `b` holds every buffer of `a`, unchanged, and possibly more: the store
/// only ever grows this way.
pub open spec fn store_leq(a: Seq<Seq<u8>>, b: Seq<Seq<u8>>) -> bool {
    &&& a.len() <= b.len()
    &&& forall|i: int| 0 <= i < a.len() ==> b[i] == a[i]
}

/// Growing the store keeps every old view valid and leaves its bytes
/// untouched.
pub proof fn lemma_store_leq_view(a: Seq<Seq<u8>>, b: Seq<Seq<u8>>, v: StrView)
    requires
        store_leq(a, b),
        view_ok(a, v),
    ensures
        view_ok(b, v),
        vbytes(b, v) == vbytes(a, v),
{
}

pub proof fn lemma_store_leq_trans(a: Seq<Seq<u8>>, b: Seq<Seq<u8>>, c: Seq<Seq<u8>>)
    requires
        store_leq(a, b),
        store_leq(b, c),
    ensures
        store_leq(a, c),
{
}

/// The owner of every buffer that views point into.
pub struct Store {
    bufs: Vec<Vec<u8>>,
}

impl Store {
    /// The buffers held, as byte sequences.
    pub closed spec fn texts(&self) -> Seq<Seq<u8>> {
        Seq::new(self.bufs@.len(), |i: int| self.bufs@[i]@)
    }

    /// An empty store.
    pub fn new() -> (s: Store)
        ensures
            s.texts() == Seq::<Seq<u8>>::empty(),
    {
        let s = Store { bufs: Vec::new() };
        proof {
            assert(s.texts() =~= Seq::<Seq<u8>>::empty());
        }
        s
    }

    /// Take ownership of a whole buffer and hand back the view of all of
    /// it. Existing buffers are untouched, so existing views survive.
    pub fn push_text(&mut self, content: Vec<u8>) -> (v: StrView)
        ensures
            final(self).texts() == old(self).texts().push(content@),
            store_leq(old(self).texts(), final(self).texts()),
            view_ok(final(self).texts(), v),
            vbytes(final(self).texts(), v) == content@,
            v.buf == old(self).texts().len(),
            v.off == 0,
            v.len == content@.len(),
    {
        let ghost cb = content@;
        let v = StrView { buf: self.bufs.len(), off: 0, len: content.len() };
        self.bufs.push(content);
        proof {
            assert(self.texts() =~= old(self).texts().push(cb));
            assert(vbytes(self.texts(), v) =~= cb);
        }
        v
    }

    /// Read one byte through a view.
    pub fn byte_at(&self, v: StrView, i: usize) -> (b: u8)
        requires
            view_ok(self.texts(), v),
            i < v.len,
        ensures
            b == vbytes(self.texts(), v)[i as int],
    {
        let buffer = &self.bufs[v.buf];
        let n = buffer.len();
        proof {
            assert(self.texts()[v.buf as int] == buffer@);
            assert(v.off + v.len <= n);
        }
        buffer[v.off + i]
    }

    /// The sub-view `[start..end)` of `v`: same buffer, no copy.
    pub fn subview(&self, v: StrView, start: usize, end: usize) -> (r: StrView)
        requires
            view_ok(self.texts(), v),
            start <= end <= v.len,
        ensures
            view_ok(self.texts(), r),
            vbytes(self.texts(), r) == vbytes(self.texts(), v).subrange(start as int, end as int),
            r.buf == v.buf,
            r.len == end - start,
    {
        let n = self.bufs[v.buf].len();
        proof {
            assert(self.texts()[v.buf as int] == self.bufs@[v.buf as int]@);
            assert(v.off + v.len <= n);
        }
        let r = StrView { buf: v.buf, off: v.off + start, len: end - start };
        proof {
            assert(vbytes(self.texts(), r) =~= vbytes(self.texts(), v).subrange(
                start as int,
                end as int,
            ));
        }
        r
    }

    /// Copy the bytes behind a view out into an owned vector. This is the
    /// one operation that duplicates bytes, and only when asked.
    pub fn read_out(&self, v: StrView) -> (r: Vec<u8>)
        requires
            view_ok(self.texts(), v),
        ensures
            r@ == vbytes(self.texts(), v),
    {
        let mut out: Vec<u8> = Vec::new();
        let mut i: usize = 0;
        while i < v.len
            invariant
                i <= v.len,
                view_ok(self.texts(), v),
                out@ == vbytes(self.texts(), v).subrange(0, i as int),
            decreases v.len - i,
        {
            let b = self.byte_at(v, i);
            out.push(b);
            i = i + 1;
            proof {
                assert(out@ =~= vbytes(self.texts(), v).subrange(0, i as int));
            }
        }
        proof {
            assert(out@ =~= vbytes(self.texts(), v));
        }
        out
    }

    /// Copy the bytes behind a view into a fresh buffer of the store and
    /// return the view of the copy.
    pub fn copy(&mut self, v: StrView) -> (r: StrView)
        requires
            view_ok(old(self).texts(), v),
        ensures
            final(self).texts() == old(self).texts().push(vbytes(old(self).texts(), v)),
            store_leq(old(self).texts(), final(self).texts()),
            view_ok(final(self).texts(), r),
            vbytes(final(self).texts(), r) == vbytes(old(self).texts(), v),
    {
        let bytes = self.read_out(v);
        self.push_text(bytes)
    }

    /// Byte-exact equality of two views: identical length and identical
    /// bytes, with no implicit truncation anywhere.
    pub fn str_eq(&self, a: StrView, b: StrView) -> (r: bool)
        requires
            view_ok(self.texts(), a),
            view_ok(self.texts(), b),
        ensures
            r == (vbytes(self.texts(), a) == vbytes(self.texts(), b)),
    {
        if a.len != b.len {
            proof {
                assert(vbytes(self.texts(), a).len() != vbytes(self.texts(), b).len());
            }
            return false;
        }
        let mut i: usize = 0;
        while i < a.len
            invariant
                i <= a.len,
                a.len == b.len,
                view_ok(self.texts(), a),
                view_ok(self.texts(), b),
                forall|k: int|
                    0 <= k < i ==> vbytes(self.texts(), a)[k] == vbytes(self.texts(), b)[k],
            decreases a.len - i,
        {
            if self.byte_at(a, i) != self.byte_at(b, i) {
                return false;
            }
            i = i + 1;
        }
        proof {
            assert(vbytes(self.texts(), a) =~= vbytes(self.texts(), b));
        }
        true
    }

    /// A view of `v` with leading and trailing ASCII whitespace stripped;
    /// an all-whitespace input yields a zero-length view. No allocation,
    /// no copy.
    pub fn trim(&self, v: StrView) -> (r: StrView)
        requires
            view_ok(self.texts(), v),
        ensures
            view_ok(self.texts(), r),
            vbytes(self.texts(), r) == trim_of(vbytes(self.texts(), v)),
            r.buf == v.buf,
    {
        let ghost s = vbytes(self.texts(), v);
        let mut a: usize = 0;
        while a < v.len && is_ws_byte(self.byte_at(v, a))
            invariant
                a <= v.len,
                view_ok(self.texts(), v),
                forall|k: int| 0 <= k < a ==> is_ws(vbytes(self.texts(), v)[k]),
            decreases v.len - a,
        {
            a = a + 1;
        }
        proof {
            lemma_ws_end_unique(s, 0, a as int);
        }
        let mut b: usize = v.len;
        while b > 0 && is_ws_byte(self.byte_at(v, b - 1))
            invariant
                b <= v.len,
                view_ok(self.texts(), v),
                forall|k: int| b <= k < v.len ==> is_ws(vbytes(self.texts(), v)[k]),
            decreases b,
        {
            b = b - 1;
        }
        proof {
            lemma_rtrim_end_unique(s, s.len() as int, b as int);
        }
        if b <= a {
            let r = self.subview(v, 0, 0);
            proof {
                assert(vbytes(self.texts(), r) =~= trim_of(s));
            }
            r
        } else {
            let r = self.subview(v, a, b);
            proof {
                assert(vbytes(self.texts(), r) =~= trim_of(s));
            }
            r
        }
    }
}

/// A fresh copy of an owned byte string.
pub fn clone_bytes(v: &Vec<u8>) -> (r: Vec<u8>)
    ensures
        r@ == v@,
{
    let mut out: Vec<u8> = Vec::new();
    let mut i: usize = 0;
    while i < v.len()
        invariant
            i <= v.len(),
            out@ == v@.subrange(0, i as int),
        decreases v.len() - i,
    {
        let b = v[i];
        out.push(b);
        i = i + 1;
        proof {
            assert(out@ =~= v@.subrange(0, i as int));
        }
    }
    proof {
        assert(out@ =~= v@);
    }
    out
}

/// Whether a byte is ASCII whitespace, matching [`is_ws`].
pub fn is_ws_byte(b: u8) -> (r: bool)
    ensures
        r == is_ws(b),
{
    b == 32 || b == 9 || b == 10 || b == 12 || b == 13
}

} // verus!
