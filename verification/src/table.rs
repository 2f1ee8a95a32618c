//! Append-only name/value table over string views.
//!
//! One and the same shape serves as the component cache and as the
//! argument bindings of a tag: a list of pairs, scanned front to back,
//! first match wins, and nothing is ever overwritten.

use vstd::prelude::*;

use crate::strview::{store_leq, vbytes, view_ok, Store, StrView};

verus! {

/// First-match association lookup over plain byte-string pairs, scanning
/// from position `i` on.
pub open spec fn assoc_at(entries: Seq<(Seq<u8>, Seq<u8>)>, name: Seq<u8>, i: int) -> Option<
    Seq<u8>,
>
    decreases entries.len() - i when 0 <= i <= entries.len()
{
    if i >= entries.len() {
        None
    } else if entries[i].0 == name {
        Some(entries[i].1)
    } else {
        assoc_at(entries, name, i + 1)
    }
}

/// First-match association lookup: the value of the first pair whose name
/// is byte-equal to `name`, if any.
pub open spec fn assoc(entries: Seq<(Seq<u8>, Seq<u8>)>, name: Seq<u8>) -> Option<Seq<u8>> {
    assoc_at(entries, name, 0)
}

/// Appending a pair never disturbs an earlier binding: lookup still finds
/// the first match, and the new pair answers only names that were absent.
pub proof fn lemma_assoc_push(
    entries: Seq<(Seq<u8>, Seq<u8>)>,
    p: (Seq<u8>, Seq<u8>),
    name: Seq<u8>,
    i: int,
)
    requires
        0 <= i <= entries.len(),
    ensures
        assoc_at(entries.push(p), name, i) == match assoc_at(entries, name, i) {
            Some(v) => Some(v),
            None => if p.0 == name {
                Some(p.1)
            } else {
                None
            },
        },
    decreases entries.len() - i,
{
    if i < entries.len() {
        if entries[i].0 != name {
            lemma_assoc_push(entries, p, name, i + 1);
        }
    } else {
        assert(entries.push(p)[i] == p);
        assert(assoc_at(entries.push(p), name, i + 1) is None);
    }
}

/// One entry: a name and a value, both views into the store.
#[derive(Clone, Copy)]
pub struct NameValue {
    pub name: StrView,
    pub value: StrView,
}

/// Both views of an entry lie within the store.
pub open spec fn nv_ok(t: Seq<Seq<u8>>, nv: NameValue) -> bool {
    view_ok(t, nv.name) && view_ok(t, nv.value)
}

/// The byte-string pair an entry stands for.
pub open spec fn nv_pair(t: Seq<Seq<u8>>, nv: NameValue) -> (Seq<u8>, Seq<u8>) {
    (vbytes(t, nv.name), vbytes(t, nv.value))
}

/// Every entry of a table lies within the store.
pub open spec fn nva_ok(t: Seq<Seq<u8>>, entries: Seq<NameValue>) -> bool {
    forall|i: int| 0 <= i < entries.len() ==> nv_ok(t, #[trigger] entries[i])
}

/// The byte-string pairs a table stands for, in order.
pub open spec fn nva_model(t: Seq<Seq<u8>>, entries: Seq<NameValue>) -> Seq<(Seq<u8>, Seq<u8>)> {
    Seq::new(entries.len(), |i: int| nv_pair(t, entries[i]))
}

/// Growing the store changes neither a table's validity nor its pairs.
pub proof fn lemma_nva_model_store_leq(a: Seq<Seq<u8>>, b: Seq<Seq<u8>>, entries: Seq<NameValue>)
    requires
        store_leq(a, b),
        nva_ok(a, entries),
    ensures
        nva_ok(b, entries),
        nva_model(b, entries) == nva_model(a, entries),
{
    assert forall|i: int| 0 <= i < entries.len() implies nv_ok(b, #[trigger] entries[i]) by {
        crate::strview::lemma_store_leq_view(a, b, entries[i].name);
        crate::strview::lemma_store_leq_view(a, b, entries[i].value);
    }
    assert forall|i: int| 0 <= i < entries.len() implies nva_model(b, entries)[i] == nva_model(
        a,
        entries,
    )[i] by {
        crate::strview::lemma_store_leq_view(a, b, entries[i].name);
        crate::strview::lemma_store_leq_view(a, b, entries[i].value);
    }
    assert(nva_model(b, entries) =~= nva_model(a, entries));
}

/// Append-only list of name/value entries.
pub struct NameValueArray {
    entries: Vec<NameValue>,
}

impl NameValueArray {
    /// The entries held, in insertion order.
    pub closed spec fn entries_seq(&self) -> Seq<NameValue> {
        self.entries@
    }

    /// The byte-string pairs held, in insertion order.
    pub open spec fn model(&self, t: Seq<Seq<u8>>) -> Seq<(Seq<u8>, Seq<u8>)> {
        nva_model(t, self.entries_seq())
    }

    /// Every entry lies within the store.
    pub open spec fn ok(&self, t: Seq<Seq<u8>>) -> bool {
        nva_ok(t, self.entries_seq())
    }

    /// An empty table.
    pub fn new() -> (a: NameValueArray)
        ensures
            a.entries_seq() == Seq::<NameValue>::empty(),
    {
        NameValueArray { entries: Vec::new() }
    }

    /// How many entries are held.
    pub fn len(&self) -> (n: usize)
        ensures
            n == self.entries_seq().len(),
    {
        self.entries.len()
    }

    /// The entry at an index.
    pub fn index(&self, i: usize) -> (nv: NameValue)
        requires
            i < self.entries_seq().len(),
        ensures
            nv == self.entries_seq()[i as int],
    {
        self.entries[i]
    }

    /// Append an entry. Nothing is ever overwritten: a duplicate name
    /// merely sits behind the first, which keeps winning lookups.
    pub fn push_entry(&mut self, nv: NameValue)
        ensures
            final(self).entries_seq() == old(self).entries_seq().push(nv),
    {
        self.entries.push(nv);
    }

    /// Linear scan for the first entry whose name is byte-equal to `name`.
    pub fn find_by_name(&self, store: &Store, name: StrView) -> (r: Option<NameValue>)
        requires
            self.ok(store.texts()),
            view_ok(store.texts(), name),
        ensures
            match r {
                Some(nv) => {
                    &&& nv_ok(store.texts(), nv)
                    &&& assoc(self.model(store.texts()), vbytes(store.texts(), name)) == Some(
                        vbytes(store.texts(), nv.value),
                    )
                },
                None => assoc(self.model(store.texts()), vbytes(store.texts(), name)) is None,
            },
    {
        let ghost m = self.model(store.texts());
        let ghost nb = vbytes(store.texts(), name);
        let mut i: usize = 0;
        while i < self.entries.len()
            invariant
                i <= self.entries.len(),
                self.ok(store.texts()),
                view_ok(store.texts(), name),
                m == self.model(store.texts()),
                nb == vbytes(store.texts(), name),
                assoc_at(m, nb, 0) == assoc_at(m, nb, i as int),
            decreases self.entries.len() - i,
        {
            let nv = self.entries[i];
            if store.str_eq(nv.name, name) {
                proof {
                    assert(m[i as int] == nv_pair(store.texts(), nv));
                }
                return Some(nv);
            }
            proof {
                assert(m[i as int] == nv_pair(store.texts(), nv));
            }
            i = i + 1;
        }
        None
    }
}

} // verus!
