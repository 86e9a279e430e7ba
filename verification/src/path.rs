//! File system paths as text.
use vstd::prelude::*;

use crate::list::{lemma_filter_none, lemma_filter_one};
use crate::text::{begins_with, ends_in, glue, glue3, owned, pieces, same, split};
use crate::text::{first, lemma_first, lemma_first_is, views, Str};

verus! {

/// A path below another: an absolute one stands for itself, a relative one
/// follows the base after a separator, which a base that is empty or ends in
/// one does not get.
pub open spec fn joined(base: Str, path: Str) -> Str {
    if path.len() > 0 && path[0] == '/' {
        path
    } else if base.len() == 0 || base.last() == '/' {
        base + path
    } else {
        base + "/"@ + path
    }
}

/// A path below another.
pub fn join_path(base: &str, path: &str) -> (r: String)
    ensures
        r@ == joined(base@, path@),
{
    proof {
        reveal_strlit("/");
        assert("/"@ =~= seq!['/']);
        if path@.len() > 0 {
            assert(path@.take(1) =~= seq![path@[0]]);
            assert(seq![path@[0]][0] == path@[0]);
        }
        if base@.len() > 0 {
            assert(base@.skip(base@.len() - 1) =~= seq![base@.last()]);
            assert(seq![base@.last()][0] == base@.last());
        }
    }
    if begins_with(path, "/") {
        owned(path)
    } else if base.is_empty() || ends_in(base, "/") {
        glue(base, path)
    } else {
        glue3(base, "/", path)
    }
}

/// Whether a path is absolute.
pub fn is_absolute(path: &str) -> (r: bool)
    ensures
        r == (path@.len() > 0 && path@[0] == '/'),
{
    proof {
        reveal_strlit("/");
        assert("/"@ =~= seq!['/']);
        if path@.len() > 0 {
            assert(path@.take(1) =~= seq![path@[0]]);
            assert(seq![path@[0]][0] == path@[0]);
        }
    }
    begins_with(path, "/")
}

/// Whether a piece between separators names something.
pub open spec fn names_part(p: Str) -> bool {
    p.len() > 0 && p != "."@
}

/// What identifies a path: whether it is absolute, whether it begins at the
/// current directory, and its named parts. Repeated separators, a separator at
/// the end and `.` inside do not count.
pub open spec fn path_parts(p: Str) -> (bool, bool, Seq<Str>) {
    (
        p.len() > 0 && p[0] == '/',
        pieces(p, '/')[0] == "."@,
        pieces(p, '/').filter(|x: Str| names_part(x)),
    )
}

fn named_parts(path: &str) -> (r: (bool, Vec<String>))
    ensures
        r.0 == path_parts(path@).1,
        views(r.1@) == path_parts(path@).2,
{
    broadcast use {crate::text::views_push, crate::text::views_empty};

    let all = split(path, '/');
    let ghost v = views(all@);
    let ghost p = |x: Str| names_part(x);
    let mut r: Vec<String> = Vec::new();
    proof {
        lemma_filter_none(v, p);
        assert(v[0] == all@[0]@);
    }
    let here = same(all[0].as_str(), ".");
    let mut i: usize = 0;
    while i < all.len()
        invariant
            i <= all@.len(),
            v == views(all@),
            p == (|x: Str| names_part(x)),
            views(r@) == v.take(i as int).filter(p),
        decreases all@.len() - i,
    {
        proof {
            lemma_filter_one(v, i as int, p);
            assert(v[i as int] == all@[i as int]@);
        }
        if !all[i].as_str().is_empty() && !same(all[i].as_str(), ".") {
            r.push(all[i].clone());
        }
        i = i + 1;
    }
    assert(v.take(all@.len() as int) =~= v);
    (here, r)
}

/// Whether two texts are the same path.
pub fn same_path(a: &str, b: &str) -> (r: bool)
    ensures
        r == (path_parts(a@) == path_parts(b@)),
{
    let (ha, pa) = named_parts(a);
    let (hb, pb) = named_parts(b);
    assert(views(pa@).len() == pa@.len() && views(pb@).len() == pb@.len());
    if is_absolute(a) != is_absolute(b) || ha != hb || pa.len() != pb.len() {
        return false;
    }
    let mut i: usize = 0;
    while i < pa.len()
        invariant
            i <= pa@.len(),
            pa@.len() == pb@.len(),
            views(pa@) == path_parts(a@).2,
            views(pb@) == path_parts(b@).2,
            forall|j: int| 0 <= j < i ==> views(pa@)[j] == views(pb@)[j],
        decreases pa@.len() - i,
    {
        assert(views(pa@)[i as int] == pa@[i as int]@);
        assert(views(pb@)[i as int] == pb@[i as int]@);
        if !same(pa[i].as_str(), pb[i].as_str()) {
            return false;
        }
        i = i + 1;
    }
    assert(views(pa@) =~= views(pb@));
    true
}

/// The options file of an OPTIONS_NAME in an options dir.
pub open spec fn options_file(dir: Str, name: Str) -> Str {
    joined(joined(dir, name), "options"@)
}

/// The options file of an OPTIONS_NAME in an options dir.
pub fn options_path(dir: &str, name: &str) -> (r: String)
    ensures
        r@ == options_file(dir@, name@),
{
    let d = join_path(dir, name);
    join_path(d.as_str(), "options")
}

proof fn lemma_pieces_push(p: Str)
    ensures
        pieces(p.push('/'), '/') == pieces(p, '/').push(Seq::empty()),
    decreases p.len(),
{
    let q = p.push('/');
    let n = first(p, '/');
    lemma_first(p, '/');
    assert forall|i: int| 0 <= i < n implies #[trigger] q[i] != '/' by {
        assert(q[i] == p[i]);
    }
    lemma_first_is(q, '/', n);
    assert(q.take(n) =~= p.take(n));
    if n < p.len() {
        assert(q.skip(n + 1) =~= p.skip(n + 1).push('/'));
        lemma_pieces_push(p.skip(n + 1));
        let t = seq![p.take(n)];
        assert(t + pieces(p.skip(n + 1), '/').push(Seq::empty()) =~= (t + pieces(
            p.skip(n + 1),
            '/',
        )).push(Seq::empty()));
    } else {
        assert(q.skip(n + 1) =~= Seq::<char>::empty());
        assert(p.take(n) =~= p);
        lemma_first_is(Seq::empty(), '/', 0);
        assert(pieces(Seq::empty(), '/') =~= seq![Seq::<char>::empty()]);
    }
}

/// A separator at the end of a path does not count, and paths that differ in being
/// absolute are not the same.
pub proof fn law_same_path(p: Str, q: Str)
    ensures
        p.len() > 0 ==> path_parts(p.push('/')) == path_parts(p),
        p.len() > 0 && q.len() > 0 && p[0] == '/' && q[0] != '/' ==> path_parts(p) != path_parts(q),
{
    reveal_strlit(".");
    if p.len() > 0 {
        lemma_pieces_push(p);
        let a = pieces(p, '/');
        let f = |x: Str| names_part(x);
        crate::text::law_pieces(p, '/');
        let all = a.push(Seq::empty());
        assert(all.drop_last() =~= a);
        reveal(Seq::filter);
        assert(all.filter(f) =~= a.filter(f));
        assert(all[0] == a[0]);
    }
}

/// Where the options file of a name is.
pub proof fn law_options_file(dir: Str, name: Str)
    requires
        dir.len() > 0,
        dir.last() != '/',
        name.len() > 0,
        name[0] != '/',
        name.last() != '/',
    ensures
        options_file(dir, name) == dir + "/"@ + name + "/options"@,
{
    reveal_strlit("options");
    reveal_strlit("/options");
    reveal_strlit("/");
    assert(joined(dir, name) == dir + "/"@ + name);
    assert(joined(dir, name).last() == name.last());
    assert(dir + "/"@ + name + "/"@ + "options"@ =~= dir + "/"@ + name + "/options"@);
}

} // verus!
