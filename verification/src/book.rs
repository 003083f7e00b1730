//! Book: the global-definition store.  A book maps names to definitions;
//! it is built before execution starts and read on demand when a global
//! reference is dereferenced.  Inserting under an existing name overwrites
//! in place, so the definition's index stays stable; reference ports
//! address definitions by that index.

use vstd::prelude::*;

verus! {

use crate::net::GNet;

/// A named definition: a prebuilt template net.  By convention the
/// template's variable slot 0 holds the instance's root port; it is
/// consumed when the definition is instantiated.
#[derive(Debug, Clone)]
pub struct Def {
    pub name: String,
    pub arity: usize,
    pub net: GNet,
}

impl Def {
    /// A definition fit for dereferencing: its template net is well
    /// formed, holds no freed slots, and designates a root port.
    pub open spec fn wf_def(self) -> bool {
        &&& self.net.wf()
        &&& self.net.reuse@.len() == 0
        &&& self.net.vars@.len() >= 1
        &&& self.net.vars@[0] is Some
    }
}

/// The definition book: an insertion-ordered store of named definitions.
#[derive(Debug, Clone)]
pub struct Book {
    defs: Vec<(String, Def)>,
}

impl Book {
    /// The stored entries, in insertion order.
    pub closed spec fn entries(&self) -> Seq<(String, Def)> {
        self.defs@
    }

    /// Whether some entry carries this name.
    pub open spec fn contains_name(&self, name: Seq<char>) -> bool {
        exists|i: int| 0 <= i < self.entries().len() && #[trigger] self.entries()[i].0@ == name
    }

    /// No two entries carry the same name.
    pub open spec fn keys_unique(&self) -> bool {
        forall|i: int, j: int|
            0 <= i < j < self.entries().len() ==> #[trigger] self.entries()[i].0@ != #[trigger] self.entries()[j].0@
    }

    /// Every definition in the book is fit for dereferencing.
    pub open spec fn wf(&self) -> bool {
        forall|i: int| 0 <= i < self.entries().len() ==> (#[trigger] self.entries()[i].1).wf_def()
    }

    /// An empty book.
    pub fn new() -> (book: Book)
        ensures
            book.entries().len() == 0,
            book.keys_unique(),
            book.wf(),
    {
        Book { defs: Vec::new() }
    }

    /// Index of the entry carrying this name, if any.
    fn find(&self, name: &String) -> (r: Option<usize>)
        ensures
            match r {
                Some(i) => (i as int) < self.entries().len()
                    && self.entries()[i as int].0@ == name@,
                None => !self.contains_name(name@),
            },
    {
        let n = self.defs.len();
        let mut i: usize = 0;
        while i < n
            invariant
                n == self.defs.len(),
                0 <= i <= n,
                forall|j: int| 0 <= j < i ==> #[trigger] self.defs@[j].0@ != name@,
            decreases n - i,
        {
            if self.defs[i].0 == *name {
                return Some(i);
            }
            i += 1;
        }
        None
    }

    /// Register a definition.  A new name is appended; an existing name is
    /// overwritten in place, so last write wins and indices stay stable.
    pub fn insert(&mut self, name: String, def: Def)
        ensures
            if old(self).contains_name(name@) {
                exists|i: int|
                    0 <= i < old(self).entries().len()
                    && #[trigger] old(self).entries()[i].0@ == name@
                    && final(self).entries() == old(self).entries().update(i, (name, def))
            } else {
                final(self).entries() == old(self).entries().push((name, def))
            },
            old(self).keys_unique() ==> final(self).keys_unique(),
            old(self).wf() && def.wf_def() ==> final(self).wf(),
    {
        let ghost pre = self.entries();
        match self.find(&name) {
            Some(i) => {
                proof {
                    assert(pre[i as int].0@ == name@);
                }
                self.defs[i] = (name, def);
                proof {
                    let post = self.entries();
                    assert forall|k: int| 0 <= k < post.len() implies post[k].0@ == pre[k].0@ by {
                        if k != i as int {
                            assert(post[k] == pre[k]);
                        }
                    }
                }
            }
            None => {
                self.defs.push((name, def));
            }
        }
    }

    /// Look a definition up by name.  Absence is an expected outcome and
    /// is reported as `None`.
    pub fn get(&self, name: &str) -> (r: Option<&Def>)
        ensures
            match r {
                Some(def) => exists|i: int|
                    0 <= i < self.entries().len()
                    && #[trigger] self.entries()[i].0@ == name@
                    && *def == self.entries()[i].1,
                None => !self.contains_name(name@),
            },
    {
        let want: String = name.to_owned();
        match self.find(&want) {
            Some(i) => {
                proof {
                    assert(self.entries()[i as int].0@ == name@);
                }
                Some(&self.defs[i].1)
            }
            None => None,
        }
    }

    /// Read the definition at an index.
    pub fn def_at(&self, idx: usize) -> (def: &Def)
        requires
            (idx as int) < self.entries().len(),
        ensures
            *def == self.entries()[idx as int].1,
    {
        &self.defs[idx].1
    }

    /// The number of definitions held.
    pub fn len(&self) -> (n: usize)
        ensures
            n as int == self.entries().len(),
    {
        self.defs.len()
    }

    /// Whether the book holds no definitions.
    pub fn is_empty(&self) -> (r: bool)
        ensures
            r == (self.entries().len() == 0),
    {
        self.defs.is_empty()
    }
}

impl Default for Book {
    /// The default book is the empty book.
    fn default() -> (book: Book)
        ensures
            book.entries().len() == 0,
            book.keys_unique(),
            book.wf(),
    {
        Book::new()
    }
}

} // verus!
