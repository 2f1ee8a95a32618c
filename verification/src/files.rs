//! The file table: what the input directory holds, as plain values.
//!
//! The resolver never touches the file system. The caller reads the input
//! directory up front and hands its files over as path/content pairs;
//! looking a path up here is the resolver's one and only "read" of a
//! file. Paths carry the terminator that [`crate::filepath::Filepath`]
//! writes, exactly as the platform's read service would receive them.

use vstd::prelude::*;

use crate::table::assoc;

verus! {

struct FileEntry {
    path: Vec<u8>,
    content: Vec<u8>,
}

/// An in-memory table of files: path/content pairs, first match wins.
pub struct FileTable {
    entries: Vec<FileEntry>,
}

impl FileTable {
    /// The path/content pairs held, in insertion order.
    pub closed spec fn model(&self) -> Seq<(Seq<u8>, Seq<u8>)> {
        Seq::new(self.entries@.len(), |i: int| (self.entries@[i].path@, self.entries@[i].content@))
    }

    /// An empty table.
    pub fn new() -> (t: FileTable)
        ensures
            t.model() == Seq::<(Seq<u8>, Seq<u8>)>::empty(),
    {
        let t = FileTable { entries: Vec::new() };
        proof {
            assert(t.model() =~= Seq::<(Seq<u8>, Seq<u8>)>::empty());
        }
        t
    }

    /// Add one file.
    pub fn add(&mut self, path: Vec<u8>, content: Vec<u8>)
        ensures
            final(self).model() == old(self).model().push((path@, content@)),
    {
        let ghost p = path@;
        let ghost c = content@;
        self.entries.push(FileEntry { path, content });
        proof {
            assert(self.model() =~= old(self).model().push((p, c)));
        }
    }

    /// Read the file at `path`: a copy of the content of the first entry
    /// with that exact path, or nothing when the table has none.
    pub fn read(&self, path: &Vec<u8>) -> (r: Option<Vec<u8>>)
        ensures
            match r {
                Some(c) => assoc(self.model(), path@) == Some(c@),
                None => assoc(self.model(), path@) is None,
            },
    {
        let ghost m = self.model();
        let mut i: usize = 0;
        while i < self.entries.len()
            invariant
                i <= self.entries.len(),
                m == self.model(),
                crate::table::assoc_at(m, path@, 0) == crate::table::assoc_at(m, path@, i as int),
            decreases self.entries.len() - i,
        {
            if bytes_eq(&self.entries[i].path, path) {
                let c = crate::strview::clone_bytes(&self.entries[i].content);
                return Some(c);
            }
            i = i + 1;
        }
        None
    }
}

/// Byte-exact equality of two owned byte strings.
fn bytes_eq(a: &Vec<u8>, b: &Vec<u8>) -> (r: bool)
    ensures
        r == (a@ == b@),
{
    if a.len() != b.len() {
        return false;
    }
    let mut i: usize = 0;
    while i < a.len()
        invariant
            i <= a.len(),
            a@.len() == b@.len(),
            forall|k: int| 0 <= k < i ==> a@[k] == b@[k],
        decreases a.len() - i,
    {
        if a[i] != b[i] {
            return false;
        }
        i = i + 1;
    }
    proof {
        assert(a@ =~= b@);
    }
    true
}

} // verus!
