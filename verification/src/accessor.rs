//! Byte-level persistence scoped to one directory, modelled in memory: a
//! flat table from entry names to byte buffers, in insertion order, with no
//! knowledge of buckets, keys or metadata.

use vstd::prelude::*;

verus! {

use crate::alist::al_del;
use crate::alist::al_distinct;
use crate::alist::al_get;
use crate::alist::al_has;
use crate::alist::al_put;
use crate::alist::lemma_al_del_distinct;
use crate::alist::lemma_al_idx_unique;
use crate::alist::lemma_al_put_distinct;
use crate::text::push_char;
use crate::text::str_eq;
use vstd::string::StringExecFns;

/// A directory-scoped store of named byte buffers. Entries keep the position
/// at which they were first written; names are unique.
pub struct Accessor {
    directory: String,
    entries: Vec<(String, Vec<u8>)>,
}

impl View for Accessor {
    type V = Seq<(Seq<char>, Seq<u8>)>;

    closed spec fn view(&self) -> Seq<(Seq<char>, Seq<u8>)> {
        Seq::new(self.entries@.len(), |i: int| (self.entries@[i].0@, self.entries@[i].1@))
    }
}

/// Copy a byte buffer.
fn copy_bytes(v: &Vec<u8>) -> (r: Vec<u8>)
    ensures
        r@ == v@,
{
    let mut out: Vec<u8> = Vec::new();
    let mut i: usize = 0;
    while i < v.len()
        invariant
            i <= v@.len(),
            out@ == v@.take(i as int),
        decreases v@.len() - i,
    {
        out.push(v[i]);
        i = i + 1;
        assert(out@ =~= v@.take(i as int));
    }
    assert(out@ =~= v@);
    out
}

/// The position of the entry named `path` in a table.
fn find_in(entries: &Vec<(String, Vec<u8>)>, path: &str) -> (r: Option<usize>)
    ensures
        r matches Some(i) ==> i < entries@.len() && entries@[i as int].0@ == path@,
        r is None ==> forall|x: int| 0 <= x < entries@.len() ==> entries@[x].0@ != path@,
{
    let mut i: usize = 0;
    while i < entries.len()
        invariant
            i <= entries@.len(),
            forall|x: int| 0 <= x < i ==> entries@[x].0@ != path@,
        decreases entries@.len() - i,
    {
        if str_eq(entries[i].0.as_str(), path) {
            return Some(i);
        }
        i = i + 1;
    }
    None
}

impl Accessor {
    #[verifier::type_invariant]
    spec fn inv(&self) -> bool {
        al_distinct(self@)
    }

    /// The directory the store stands for.
    pub closed spec fn directory(&self) -> Seq<char> {
        self.directory@
    }

    /// An empty store over the given directory.
    pub fn new(directory: &str) -> (r: Accessor)
        ensures
            r@ == Seq::<(Seq<char>, Seq<u8>)>::empty(),
            r.directory() == directory@,
    {
        let r = Accessor { directory: directory.to_owned(), entries: Vec::new() };
        proof {
            assert(r@ =~= Seq::<(Seq<char>, Seq<u8>)>::empty());
        }
        r
    }

    /// The full path of an entry inside the scoped directory.
    pub fn get_path(&self, path: &str) -> (r: String)
        ensures
            r@ == self.directory() + seq!['/'] + path@,
    {
        let mut out = self.directory.clone();
        push_char(&mut out, '/');
        out.append(path);
        assert(out@ =~= self.directory() + seq!['/'] + path@);
        out
    }

    /// The position of the entry named `path`, if one exists.
    fn find(&self, path: &str) -> (r: Option<usize>)
        ensures
            r matches Some(i) ==> i < self@.len() && self@[i as int].0 == path@,
            r is None ==> !al_has(self@, path@),
    {
        let mut i: usize = 0;
        while i < self.entries.len()
            invariant
                i <= self@.len(),
                self@.len() == self.entries@.len(),
                forall|x: int| 0 <= x < i ==> self@[x].0 != path@,
        decreases self@.len() - i,
        {
            if str_eq(self.entries[i].0.as_str(), path) {
                assert(self@[i as int].0 == path@);
                return Some(i);
            }
            assert(self@[i as int].0 != path@);
            i = i + 1;
        }
        None
    }

    /// Whether an entry named `path` exists.
    pub fn is_exists(&self, path: &str) -> (r: bool)
        ensures
            r == al_has(self@, path@),
    {
        match self.find(path) {
            Some(i) => {
                assert(al_has(self@, path@));
                true
            },
            None => false,
        }
    }

    /// Read the bytes of the entry named `path`; nothing when it is absent.
    pub fn read(&self, path: &str) -> (r: Option<Vec<u8>>)
        ensures
            r matches Some(b) ==> al_get(self@, path@) == Some(b@),
            r is None ==> al_get(self@, path@) is None,
    {
        proof {
            use_type_invariant(self);
        }
        match self.find(path) {
            Some(i) => {
                proof {
                    lemma_al_idx_unique(self@, path@, i as int);
                }
                Some(copy_bytes(&self.entries[i].1))
            },
            None => None,
        }
    }

    /// Create or replace the entry named `path` with the given bytes. An
    /// existing entry keeps its position; a fresh one goes to the end.
    pub fn write(&mut self, path: &str, bytes: Vec<u8>)
        ensures
            final(self)@ == al_put(old(self)@, path@, bytes@),
            final(self).directory() == old(self).directory(),
    {
        proof {
            use_type_invariant(&*self);
        }
        let ghost pv = self@;
        let mut entries: Vec<(String, Vec<u8>)> = Vec::new();
        core::mem::swap(&mut entries, &mut self.entries);
        let found = find_in(&entries, path);
        match found {
            Some(i) => {
                proof {
                    lemma_al_idx_unique(pv, path@, i as int);
                    lemma_al_put_distinct(pv, path@, bytes@);
                }
                let pair = entries.remove(i);
                entries.insert(i, (pair.0, bytes));
            },
            None => {
                proof {
                    lemma_al_put_distinct(pv, path@, bytes@);
                }
                entries.push((path.to_owned(), bytes));
            },
        }
        assert(Seq::new(entries@.len(), |i: int| (entries@[i].0@, entries@[i].1@)) =~~= al_put(
            pv,
            path@,
            bytes@,
        ));
        core::mem::swap(&mut entries, &mut self.entries);
    }

    /// Remove the entry named `path`; tell whether one existed.
    pub fn remove(&mut self, path: &str) -> (r: bool)
        ensures
            r == al_has(old(self)@, path@),
            final(self)@ == al_del(old(self)@, path@),
            final(self).directory() == old(self).directory(),
    {
        proof {
            use_type_invariant(&*self);
        }
        let ghost pv = self@;
        let mut entries: Vec<(String, Vec<u8>)> = Vec::new();
        core::mem::swap(&mut entries, &mut self.entries);
        let found = find_in(&entries, path);
        let r = match found {
            Some(i) => {
                proof {
                    assert(pv[i as int].0 == path@);
                    lemma_al_idx_unique(pv, path@, i as int);
                    lemma_al_del_distinct(pv, path@);
                }
                let _ = entries.remove(i);
                true
            },
            None => {
                assert(!al_has(pv, path@));
                false
            },
        };
        assert(Seq::new(entries@.len(), |i: int| (entries@[i].0@, entries@[i].1@)) =~~= al_del(
            pv,
            path@,
        ));
        core::mem::swap(&mut entries, &mut self.entries);
        r
    }

    /// The entry names, in storage order.
    pub fn get_filenames(&self) -> (r: Vec<String>)
        ensures
            r@.len() == self@.len(),
            forall|i: int| 0 <= i < r@.len() ==> r@[i]@ == self@[i].0,
    {
        let mut out: Vec<String> = Vec::new();
        let mut i: usize = 0;
        while i < self.entries.len()
            invariant
                i <= self@.len(),
                self@.len() == self.entries@.len(),
                out@.len() == i,
                forall|x: int| 0 <= x < i ==> out@[x]@ == self@[x].0,
            decreases self@.len() - i,
        {
            out.push(self.entries[i].0.clone());
            i = i + 1;
        }
        out
    }
}

} // verus!
