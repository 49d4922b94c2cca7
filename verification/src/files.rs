//! What the validator knows of the file system: for each path that was
//! looked at, what was found there.

use crate::error::Text;
use crate::sections::{holds_key, key_slot, lemma_lookup_put, lookup, put};
use crate::text::lemma_first_index_is;
use vstd::prelude::*;

verus! {

/// What is found at a path.
#[derive(Debug, Clone, Copy, PartialEq, Eq, Structural)]
pub enum PathKind {
    /// Nothing.
    Missing,
    /// A regular file.
    File,
    /// A directory.
    Directory,
    /// Something that is neither.
    Other,
}

impl View for PathKind {
    type V = PathKind;

    open spec fn view(&self) -> PathKind {
        *self
    }
}

impl DeepView for PathKind {
    type V = PathKind;

    open spec fn deep_view(&self) -> PathKind {
        *self
    }
}

/// What is found at `path` according to `files`: a path that `files` does
/// not list is missing.
pub open spec fn kind_at(files: Map<Text, PathKind>, path: Text) -> PathKind {
    if files.dom().contains(path) {
        files[path]
    } else {
        PathKind::Missing
    }
}

/// The map that the list `entries` stands for: each path with the kind of
/// its first entry.
pub open spec fn table_of(entries: Seq<(Text, PathKind)>) -> Map<Text, PathKind> {
    Map::new(|p: Text| lookup(entries, p) is Some, |p: Text| lookup(entries, p)->Some_0)
}

/// A record of what was found at some paths. No path is listed twice.
#[derive(Debug, Clone, PartialEq, Eq)]
pub struct PathTable {
    pub entries: Vec<(String, PathKind)>,
}

impl View for PathTable {
    type V = Map<Text, PathKind>;

    open spec fn view(&self) -> Map<Text, PathKind> {
        table_of(self.entries.deep_view())
    }
}

impl PathTable {
    /// The record that lists no path: everything is missing.
    pub fn new() -> (out: PathTable)
        ensures
            out@ == Map::<Text, PathKind>::empty(),
    {
        let out = PathTable { entries: Vec::new() };
        assert(out.entries.deep_view() =~= Seq::empty());
        assert(out@ =~= Map::<Text, PathKind>::empty());
        out
    }

    /// The index of the entry for `path`, or the number of entries.
    fn slot(&self, path: &String) -> (k: usize)
        ensures
            k == key_slot(self.entries.deep_view(), path@),
            k <= self.entries@.len(),
    {
        let ghost view = self.entries.deep_view();
        let mut i: usize = 0;
        while i < self.entries.len()
            invariant
                i <= self.entries@.len(),
                view == self.entries.deep_view(),
                forall|j: int| 0 <= j < i ==> !#[trigger] holds_key(view, path@)(j),
            decreases self.entries@.len() - i,
        {
            if self.entries[i].0 == *path {
                proof {
                    lemma_first_index_is(0, view.len() as int, holds_key(view, path@), i as int);
                }
                return i;
            }
            i = i + 1;
        }
        proof {
            lemma_first_index_is(0, view.len() as int, holds_key(view, path@), i as int);
        }
        i
    }

    /// Records that `kind` was found at `path`, in place of what was
    /// recorded for that path before.
    pub fn record(&mut self, path: &str, kind: PathKind)
        ensures
            final(self)@ == old(self)@.insert(path@, kind),
    {
        let owned = path.to_owned();
        let k = self.slot(&owned);
        let ghost before = self.entries.deep_view();
        if k < self.entries.len() {
            self.entries[k] = (owned, kind);
        } else {
            self.entries.push((owned, kind));
        }
        proof {
            let after = self.entries.deep_view();
            assert(after =~= put(before, path@, kind));
            assert forall|p: Text| #[trigger] lookup(after, p) == if p == path@ {
                Some(kind)
            } else {
                lookup(before, p)
            } by {
                lemma_lookup_put(before, path@, kind, p);
            }
            assert(self@ =~= old(self)@.insert(path@, kind));
        }
    }

    /// What was found at `path`; `Missing` for a path that is not listed.
    pub fn kind_of(&self, path: &str) -> (kind: PathKind)
        ensures
            kind == kind_at(self@, path@),
    {
        let owned = path.to_owned();
        let k = self.slot(&owned);
        if k < self.entries.len() {
            self.entries[k].1
        } else {
            PathKind::Missing
        }
    }
}

} // verus!
