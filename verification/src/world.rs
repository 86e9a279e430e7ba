//! What is known of the file system.
//!
//! Resolution reads files whose paths depend on other files. It works on the
//! facts that are known, and notes every path it asked for in vain; once those
//! are looked up, it is run again. An answer reached without asking in vain
//! holds whatever the rest of the file system is like.
use vstd::prelude::*;

use crate::list::lookup;
use crate::order::duplicate_opt;
use crate::sorted::{SortedMap, SortedSet};
use crate::text::{opt_view, owned, views, Str};

verus! {

/// What stands at a path.
pub struct Fact {
    /// The contents of a readable text file.
    pub text: Option<String>,
    pub is_dir: bool,
    pub is_file: bool,
}

#[verifier::ext_equal]
pub struct FactView {
    pub text: Option<Str>,
    pub is_dir: bool,
    pub is_file: bool,
}

impl View for Fact {
    type V = FactView;

    open spec fn view(&self) -> FactView {
        FactView { text: opt_view(self.text), is_dir: self.is_dir, is_file: self.is_file }
    }
}

/// Facts by path.
pub type Facts = Map<Str, FactView>;

/// The text at a path.
pub open spec fn text_at(f: Facts, path: Str) -> Option<Str> {
    match lookup(f, path) {
        Some(x) => x.text,
        None => None,
    }
}

/// Whether a path is a directory.
pub open spec fn dir_at(f: Facts, path: Str) -> bool {
    lookup(f, path) is Some && (lookup(f, path)->0).is_dir
}

/// Whether a path is a regular file.
pub open spec fn file_at(f: Facts, path: Str) -> bool {
    lookup(f, path) is Some && (lookup(f, path)->0).is_file
}

/// Whether facts say all that others say.
pub open spec fn extends(f: Facts, g: Facts) -> bool {
    forall|p: Str| #[trigger] g.dom().contains(p) ==> f.dom().contains(p) && f[p] == g[p]
}

/// The facts that are known, and the paths that were asked for in vain.
pub struct World {
    known: SortedMap<String, Fact>,
    missing: SortedSet<String>,
}

#[verifier::ext_equal]
pub struct WorldView {
    pub known: Facts,
    pub missing: Set<Str>,
}

impl View for World {
    type V = WorldView;

    closed spec fn view(&self) -> WorldView {
        WorldView { known: self.known@, missing: self.missing@ }
    }
}

/// Whether no path was asked for in vain.
pub open spec fn settled(w: WorldView) -> bool {
    forall|p: Str| !#[trigger] w.missing.contains(p)
}

/// Whether a world differs from another only by paths asked for in vain.
pub open spec fn asked(now: WorldView, before: WorldView) -> bool {
    now.known == before.known && before.missing.subset_of(now.missing)
}

/// Whether asking for a path in one world leads to another.
pub open spec fn asks(now: WorldView, before: WorldView, path: Str) -> bool {
    asked(now, before) && (before.known.dom().contains(path) || now.missing.contains(path))
}

impl World {
    /// A world of which nothing is known.
    pub fn new() -> (r: Self)
        ensures
            r@ == (WorldView { known: Map::empty(), missing: Set::empty() }),
    {
        World { known: SortedMap::new(), missing: SortedSet::new() }
    }

    /// Takes note of what stands at a path.
    pub fn learn(&mut self, path: &str, fact: Fact)
        ensures
            final(self)@ == (WorldView {
                known: old(self)@.known.insert(path@, fact@),
                missing: old(self)@.missing.remove(path@),
            }),
    {
        let p = owned(path);
        self.missing.remove(&p);
        self.known.insert(p, fact);
    }

    /// The paths that were asked for in vain.
    pub fn wanted(&self) -> (r: Vec<String>)
        ensures
            views(r@) == crate::sorted::ordered::<String>(self@.missing),
            r@.len() == 0 <==> settled(self@),
    {
        let r = self.missing.to_list();
        proof {
            crate::sorted::lemma_ordered::<String>(self.missing@);
            let q = crate::sorted::ordered::<String>(self.missing@);
            if r@.len() > 0 {
                assert(q.contains(q[0]));
                assert(self@.missing.contains(q[0]));
            }
        }
        r
    }

    fn note(&mut self, path: &str)
        ensures
            asks(final(self)@, old(self)@, path@),
    {
        let p = owned(path);
        if !self.known.contains_key(&p) {
            self.missing.insert(p);
        }
    }

    /// The text at a path.
    pub fn text(&mut self, path: &str) -> (r: Option<String>)
        ensures
            opt_view(r) == text_at(old(self)@.known, path@),
            asks(final(self)@, old(self)@, path@),
    {
        self.note(path);
        match self.known.find(path) {
            Some(f) => duplicate_opt(&f.text),
            None => None,
        }
    }

    /// Whether a path is a directory.
    pub fn is_dir(&mut self, path: &str) -> (r: bool)
        ensures
            r == dir_at(old(self)@.known, path@),
            asks(final(self)@, old(self)@, path@),
    {
        self.note(path);
        match self.known.find(path) {
            Some(f) => f.is_dir,
            None => false,
        }
    }

    /// Whether a path is a regular file.
    pub fn is_file(&mut self, path: &str) -> (r: bool)
        ensures
            r == file_at(old(self)@.known, path@),
            asks(final(self)@, old(self)@, path@),
    {
        self.note(path);
        match self.known.find(path) {
            Some(f) => f.is_file,
            None => false,
        }
    }
}

/// What is known of a path is what was said of it, and nothing is known of others.
pub proof fn law_facts(f: Facts, path: Str, fact: FactView, other: Str)
    ensures
        text_at(f.insert(path, fact), path) == fact.text,
        dir_at(f.insert(path, fact), path) == fact.is_dir,
        file_at(f.insert(path, fact), path) == fact.is_file,
        other != path ==> text_at(f.insert(path, fact), other) == text_at(f, other),
        other != path ==> dir_at(f.insert(path, fact), other) == dir_at(f, other),
        other != path ==> file_at(f.insert(path, fact), other) == file_at(f, other),
        text_at(Map::empty(), path) is None,
        !dir_at(Map::empty(), path),
        !file_at(Map::empty(), path),
{
}

} // verus!
