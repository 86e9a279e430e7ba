//! The staging copy of the options files.
use vstd::prelude::*;

use crate::path::{join_path, joined, options_file, options_path};
use crate::text::{views, Str};

verus! {

/// A file to be written: where, and with what content.
pub type Seed = (Str, Seq<u8>);

/// The staged copies of the options files that exist, in the order of their
/// names.
pub open spec fn seeds_of(
    root: Str,
    names: Seq<Str>,
    contents: Seq<Option<Vec<u8>>>,
) -> Seq<Seed>
    decreases names.len(),
{
    if names.len() == 0 || names.len() > contents.len() {
        Seq::empty()
    } else {
        let before = seeds_of(root, names.drop_last(), contents);
        match contents[names.len() - 1] {
            Some(c) => before.push((options_file(root, names.last()), c@)),
            None => before,
        }
    }
}

/// The views of files to be written.
pub open spec fn seed_views(list: Seq<(String, Vec<u8>)>) -> Seq<Seed> {
    Seq::new(list.len(), |i: int| (list[i].0@, list[i].1@))
}

/// Staging PORT_DBDIR: a private copy of the options files that background
/// re-queries read, so staged edits take effect without touching the real
/// options dir until Apply.
#[derive(Debug)]
pub struct StagingDb {
    root: String,
}

impl View for StagingDb {
    type V = Str;

    closed spec fn view(&self) -> Str {
        self.root@
    }
}

impl StagingDb {
    /// The staging copy under a staging dir.
    pub fn create(staging_dir: &str) -> (r: Self)
        ensures
            r@ == joined(staging_dir@, "db"@),
    {
        StagingDb { root: join_path(staging_dir, "db") }
    }

    pub fn path(&self) -> (r: &str)
        ensures
            r@ == self@,
    {
        self.root.as_str()
    }

    /// What the staging copy starts with: the saved options file of every known
    /// OPTIONS_NAME that has one. `contents` holds what was read for each name,
    /// or None for a file that could not be read.
    pub fn seeds(&self, names: &Vec<String>, contents: &Vec<Option<Vec<u8>>>) -> (r: Vec<
        (String, Vec<u8>),
    >)
        requires
            names@.len() == contents@.len(),
        ensures
            seed_views(r@) == seeds_of(self@, views(names@), contents@),
    {
        let ghost v = views(names@);
        let mut out: Vec<(String, Vec<u8>)> = Vec::new();
        let mut i: usize = 0;
        assert(v.take(0) =~= Seq::<Str>::empty());
        assert(seed_views(out@) =~= seeds_of(self@, v.take(0), contents@));
        while i < names.len()
            invariant
                i <= names@.len() == contents@.len(),
                v == views(names@),
                seed_views(out@) == seeds_of(self@, v.take(i as int), contents@),
            decreases names@.len() - i,
        {
            proof {
                assert(v.take(i + 1).drop_last() =~= v.take(i as int));
                assert(v.take(i + 1).last() == names@[i as int]@);
            }
            match &contents[i] {
                Some(c) => {
                    let path = self.file(names[i].as_str());
                    let copy = c.clone();
                    assert(copy@ =~= c@);
                    let ghost was = seed_views(out@);
                    out.push((path, copy));
                    assert(seed_views(out@) =~= was.push((path@, c@)));
                },
                None => {},
            }
            i = i + 1;
        }
        assert(v.take(v.len() as int) =~= v);
        out
    }

    /// The directory of one staged options file.
    pub fn dir(&self, options_name: &str) -> (r: String)
        ensures
            r@ == joined(self@, options_name@),
    {
        join_path(self.root.as_str(), options_name)
    }

    /// One staged options file.
    pub fn file(&self, options_name: &str) -> (r: String)
        ensures
            r@ == options_file(self@, options_name@),
    {
        options_path(self.root.as_str(), options_name)
    }
}

/// The staging copy starts with the options files that could be read, each under
/// its own name, and with nothing else.
pub proof fn law_seeds(root: Str, names: Seq<Str>, contents: Seq<Option<Vec<u8>>>, s: Seed)
    requires
        names.len() <= contents.len(),
    ensures
        seeds_of(root, names, contents).contains(s) <==> exists|i: int|
            0 <= i < names.len() && s.0 == options_file(root, #[trigger] names[i]) && (contents[i]
                matches Some(c) && s.1 == c@),
    decreases names.len(),
{
    if names.len() > 0 {
        let d = names.drop_last();
        let n = names.len() - 1;
        let before = seeds_of(root, d, contents);
        let all = seeds_of(root, names, contents);
        law_seeds(root, d, contents, s);
        let p = |q: Seq<Str>, i: int|
            s.0 == options_file(root, q[i]) && (contents[i] matches Some(c) && s.1 == c@);
        assert(names[n] == names.last());
        if all.contains(s) {
            let j = choose|j: int| 0 <= j < all.len() && all[j] == s;
            if j < before.len() {
                assert(before[j] == s);
                let i = choose|i: int|
                    0 <= i < d.len() && s.0 == options_file(root, #[trigger] d[i]) && p(d, i);
                assert(names[i] == d[i]);
                assert(p(names, i));
            } else {
                assert(p(names, n));
            }
        }
        if exists|i: int|
            0 <= i < names.len() && s.0 == options_file(root, #[trigger] names[i]) && p(names, i) {
            let i = choose|i: int|
                0 <= i < names.len() && s.0 == options_file(root, #[trigger] names[i]) && p(
                    names,
                    i,
                );
            if i < n {
                assert(d[i] == names[i]);
                assert(before.contains(s));
                let j = choose|j: int| 0 <= j < before.len() && before[j] == s;
                assert(all[j] == s);
            } else {
                assert(all[all.len() - 1] == s);
            }
        }
    }
}

} // verus!
