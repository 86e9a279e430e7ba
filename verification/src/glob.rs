//! Shell-style `*` globs.
use vstd::prelude::*;

use crate::text::{after, after_first, ends, ends_in, first, holds, lemma_first};
use crate::text::{occurs, occurs_first, pieces, same, split, starts, strip_prefix, views, Str};

verus! {

/// Whether a pattern matches a text: `*` matches any text, every other
/// character itself.
pub open spec fn glob(p: Str, t: Str) -> bool
    decreases p.len(),
{
    if p.len() == 0 {
        t.len() == 0
    } else if p[0] == '*' {
        exists|k: int| 0 <= k <= t.len() && glob(p.skip(1), #[trigger] t.skip(k))
    } else {
        t.len() > 0 && t[0] == p[0] && glob(p.skip(1), t.skip(1))
    }
}

/// Whether a text holds parts in order, the last of them at its end.
spec fn in_order(parts: Seq<Str>, t: Str) -> bool
    decreases parts.len(),
{
    if parts.len() == 0 {
        false
    } else if parts.len() == 1 {
        ends(t, parts[0])
    } else {
        exists|i: int| #[trigger]
            occurs(t, parts[0], i) && in_order(parts.skip(1), t.skip(i + parts[0].len()))
    }
}

/// A literal at the start of a pattern stands at the start of the text.
proof fn lemma_literal(a: Str, rest: Str, t: Str)
    requires
        forall|i: int| 0 <= i < a.len() ==> #[trigger] a[i] != '*',
    ensures
        glob(a + rest, t) <==> starts(t, a) && glob(rest, t.skip(a.len() as int)),
    decreases a.len(),
{
    if a.len() == 0 {
        assert(a + rest =~= rest);
        assert(t.take(0) =~= a);
        assert(t.skip(0) =~= t);
    } else {
        let b = a.skip(1);
        assert forall|i: int| 0 <= i < b.len() implies #[trigger] b[i] != '*' by {
            assert(b[i] == a[i + 1]);
        }
        assert((a + rest)[0] == a[0]);
        assert((a + rest).skip(1) =~= b + rest);
        if t.len() > 0 {
            lemma_literal(b, rest, t.skip(1));
            if a.len() <= t.len() {
                assert(t.skip(1).skip(b.len() as int) =~= t.skip(a.len() as int));
            }
            if t[0] == a[0] {
                if starts(t, a) {
                    assert(t.skip(1).take(b.len() as int) =~= t.take(a.len() as int).skip(1));
                }
                if starts(t.skip(1), b) {
                    assert(t.take(a.len() as int) =~= seq![t[0]] + t.skip(1).take(
                        b.len() as int,
                    ));
                    assert(a =~= seq![a[0]] + b);
                }
            } else if starts(t, a) {
                assert(t.take(a.len() as int)[0] == t[0]);
            }
        }
    }
}

/// A literal alone matches itself alone.
proof fn lemma_plain(a: Str, t: Str)
    requires
        forall|i: int| 0 <= i < a.len() ==> #[trigger] a[i] != '*',
    ensures
        glob(a, t) <==> t == a,
{
    lemma_literal(a, Seq::empty(), t);
    assert(a + Seq::<char>::empty() =~= a);
    if starts(t, a) && t.skip(a.len() as int).len() == 0 {
        assert(t =~= t.take(a.len() as int));
    }
    if t == a {
        assert(t.take(a.len() as int) =~= a);
    }
}

/// What follows a `*` matches somewhere exactly where its parts stand in order.
proof fn lemma_star(q: Str, u: Str)
    ensures
        (exists|k: int| 0 <= k <= u.len() && glob(q, #[trigger] u.skip(k))) <==> in_order(
            pieces(q, '*'),
            u,
        ),
    decreases q.len(),
{
    lemma_first(q, '*');
    let m = first(q, '*');
    let parts = pieces(q, '*');
    if m < q.len() {
        let b = q.take(m);
        let r = q.skip(m + 1);
        let star = q.skip(m);
        assert(q =~= b + star);
        assert(parts[0] == b);
        assert(parts.skip(1) =~= pieces(r, '*'));
        assert(star[0] == '*');
        assert(star.skip(1) =~= r);
        assert(parts.len() > 1);
        if exists|k: int| 0 <= k <= u.len() && glob(q, #[trigger] u.skip(k)) {
            let k = choose|k: int| 0 <= k <= u.len() && glob(q, #[trigger] u.skip(k));
            let v = u.skip(k);
            lemma_literal(b, star, v);
            let w = v.skip(b.len() as int);
            lemma_star(r, w);
            assert(w =~= u.skip(k + b.len()));
            assert(u.subrange(k, k + b.len()) =~= v.take(b.len() as int));
            assert(occurs(u, parts[0], k));
        }
        if in_order(parts, u) {
            let i = choose|i: int| #[trigger]
                occurs(u, parts[0], i) && in_order(parts.skip(1), u.skip(i + parts[0].len()));
            let v = u.skip(i);
            let w = u.skip(i + b.len());
            lemma_star(r, w);
            assert(v.skip(b.len() as int) =~= w);
            assert(glob(star, w));
            assert(v.take(b.len() as int) =~= u.subrange(i, i + b.len()));
            lemma_literal(b, star, v);
            assert(glob(q, u.skip(i)));
        }
    } else {
        assert(parts =~= seq![q]);
        if exists|k: int| 0 <= k <= u.len() && glob(q, #[trigger] u.skip(k)) {
            let k = choose|k: int| 0 <= k <= u.len() && glob(q, #[trigger] u.skip(k));
            lemma_plain(q, u.skip(k));
            assert(k == u.len() - q.len());
        }
        if ends(u, q) {
            let k = u.len() - q.len();
            lemma_plain(q, u.skip(k));
            assert(glob(q, u.skip(k)));
        }
    }
}

/// A pattern matches where its first literal begins the text and the parts
/// behind its stars stand in order behind that.
proof fn lemma_glob(p: Str, t: Str)
    ensures
        ({
            let parts = pieces(p, '*');
            glob(p, t) <==> if parts.len() == 1 {
                p == t
            } else {
                starts(t, parts[0]) && in_order(parts.skip(1), t.skip(parts[0].len() as int))
            }
        }),
{
    lemma_first(p, '*');
    let n = first(p, '*');
    let parts = pieces(p, '*');
    if n < p.len() {
        let a = p.take(n);
        let star = p.skip(n);
        let q = p.skip(n + 1);
        assert(p =~= a + star);
        assert(parts.skip(1) =~= pieces(q, '*'));
        assert(parts.len() > 1) by {
            assert(pieces(q, '*').len() > 0);
        }
        lemma_literal(a, star, t);
        assert(star[0] == '*');
        assert(star.skip(1) =~= q);
        lemma_star(q, t.skip(a.len() as int));
    } else {
        lemma_plain(p, t);
    }
}

/// More text in front does no harm to parts in order.
proof fn lemma_in_order_earlier(parts: Seq<Str>, t: Str, j: int)
    requires
        0 <= j <= t.len(),
        in_order(parts, t.skip(j)),
    ensures
        in_order(parts, t),
{
    let u = t.skip(j);
    if parts.len() == 1 {
        let n = parts[0].len();
        assert(t.skip(t.len() - n) =~= u.skip(u.len() - n));
    } else {
        let i = choose|i: int| #[trigger]
            occurs(u, parts[0], i) && in_order(parts.skip(1), u.skip(i + parts[0].len()));
        let n = parts[0].len();
        assert(t.subrange(i + j, i + j + n) =~= u.subrange(i, i + n));
        assert(t.skip(i + j + n) =~= u.skip(i + n));
        assert(occurs(t, parts[0], i + j));
    }
}

/// The first place at which a part stands is as good as any.
proof fn lemma_greedy(parts: Seq<Str>, t: Str)
    requires
        parts.len() > 1,
    ensures
        in_order(parts, t) <==> match after_first(t, parts[0]) {
            Some(rest) => in_order(parts.skip(1), rest),
            None => false,
        },
{
    let p = parts[0];
    if in_order(parts, t) {
        let i = choose|i: int| #[trigger]
            occurs(t, p, i) && in_order(parts.skip(1), t.skip(i + p.len()));
        assert(holds(t, p));
        lemma_some_first(t, p, i);
        let f = choose|f: int| occurs_first(t, p, f);
        assert(f <= i);
        let rest = t.skip(f + p.len());
        assert(rest.skip(i - f) =~= t.skip(i + p.len()));
        lemma_in_order_earlier(parts.skip(1), rest, i - f);
    }
    if let Some(rest) = after_first(t, p) {
        let i = choose|i: int| occurs(t, p, i);
        lemma_some_first(t, p, i);
        let f = choose|f: int| occurs_first(t, p, f);
        if in_order(parts.skip(1), rest) {
            assert(occurs(t, parts[0], f));
        }
    }
}

/// Where a part stands somewhere there is a first place.
proof fn lemma_some_first(t: Str, p: Str, i: int)
    requires
        occurs(t, p, i),
    ensures
        exists|f: int| occurs_first(t, p, f) && f <= i,
        forall|f: int| occurs_first(t, p, f) ==> f <= i,
    decreases i,
{
    if forall|j: int| 0 <= j < i ==> !occurs(t, p, j) {
        assert(occurs_first(t, p, i));
    } else {
        let j = choose|j: int| 0 <= j < i && occurs(t, p, j);
        lemma_some_first(t, p, j);
    }
}

/// Minimal glob: `*` matches any substring (including empty), everything
/// else is literal. A pattern without `*` is an exact match.
pub fn glob_match(pattern: &str, text: &str) -> (r: bool)
    ensures
        r == glob(pattern@, text@),
{
    let parts = split(pattern, '*');
    let ghost v = views(parts@);
    proof {
        lemma_glob(pattern@, text@);
    }
    let n = parts.len();
    if n == 1 {
        return same(pattern, text);
    }
    // First literal anchors the start, last one the end, the rest must occur
    // in order in between (searching left to right can't backtrack wrongly:
    // every literal is separated by an unbounded '*').
    assert(v[0] == parts@[0]@);
    let mut rest = match strip_prefix(text, parts[0].as_str()) {
        Some(r) => r,
        None => {
            return false;
        },
    };
    let mut i: usize = 1;
    while i < n - 1
        invariant
            1 <= i <= n - 1,
            n == parts@.len(),
            v == views(parts@),
            glob(pattern@, text@) <==> in_order(v.skip(i as int), rest@),
        decreases n - i,
    {
        proof {
            let s = v.skip(i as int);
            assert(s[0] == parts@[i as int]@);
            assert(s.skip(1) =~= v.skip(i + 1));
            lemma_greedy(s, rest@);
        }
        match after(rest.as_str(), parts[i].as_str()) {
            Some(r) => {
                rest = r;
            },
            None => {
                return false;
            },
        }
        i = i + 1;
    }
    proof {
        let s = v.skip(i as int);
        assert(s.len() == 1);
        assert(s[0] == parts@[n - 1]@);
    }
    ends_in(rest.as_str(), parts[n - 1].as_str())
}

/// `*` alone matches everything.
pub proof fn law_star_matches_all(t: Str)
    ensures
        glob("*"@, t),
{
    reveal_strlit("*");
    assert("*"@.skip(1) =~= Seq::<char>::empty());
    assert(t.skip(t.len() as int).len() == 0);
    assert(glob("*"@.skip(1), t.skip(t.len() as int)));
}

/// A pattern without `*` matches itself and nothing else.
pub proof fn law_literal_matches_itself(p: Str, t: Str)
    requires
        forall|i: int| 0 <= i < p.len() ==> #[trigger] p[i] != '*',
    ensures
        glob(p, t) <==> t == p,
{
    lemma_plain(p, t);
}

/// A literal on either side of a `*`: a text matches where it begins with the
/// one and ends in the other, the two apart.
pub proof fn law_star_between(a: Str, b: Str, t: Str)
    requires
        forall|i: int| 0 <= i < a.len() ==> #[trigger] a[i] != '*',
        forall|i: int| 0 <= i < b.len() ==> #[trigger] b[i] != '*',
    ensures
        glob(a.push('*') + b, t) <==> a.len() + b.len() <= t.len() && t.take(a.len() as int) == a
            && t.skip(t.len() - b.len()) == b,
    decreases a.len(),
{
    let p = a.push('*') + b;
    if a.len() == 0 {
        assert(p.skip(1) =~= b);
        assert(t.take(0) =~= a);
        if glob(p, t) {
            let k = choose|k: int| 0 <= k <= t.len() && glob(p.skip(1), #[trigger] t.skip(k));
            law_literal_matches_itself(b, t.skip(k));
            assert(t.skip(t.len() - b.len()) =~= b);
        }
        if b.len() <= t.len() && t.skip(t.len() - b.len()) == b {
            law_literal_matches_itself(b, t.skip(t.len() - b.len()));
            assert(glob(p.skip(1), t.skip(t.len() - b.len())));
        }
    } else {
        let r = a.skip(1);
        assert(a[0] != '*');
        assert forall|i: int| 0 <= i < r.len() implies #[trigger] r[i] != '*' by {
            assert(a[i + 1] != '*');
        }
        assert(p[0] == a[0]);
        assert(p.skip(1) =~= r.push('*') + b);
        if t.len() > 0 {
            let u = t.skip(1);
            law_star_between(r, b, u);
            if t[0] == a[0] && r.len() + b.len() <= u.len() && u.take(r.len() as int) == r && u.skip(
                u.len() - b.len(),
            ) == b {
                assert forall|i: int| 0 <= i < a.len() implies t.take(a.len() as int)[i] == a[i] by {
                    if i > 0 {
                        assert(u.take(r.len() as int)[i - 1] == r[i - 1]);
                    }
                }
                assert(t.take(a.len() as int) =~= a);
                assert(t.skip(t.len() - b.len()) =~= b);
            }
            if a.len() + b.len() <= t.len() && t.take(a.len() as int) == a && t.skip(
                t.len() - b.len(),
            ) == b {
                assert(t[0] == t.take(a.len() as int)[0]);
                assert forall|i: int| 0 <= i < r.len() implies u.take(r.len() as int)[i] == r[i] by {
                    assert(t.take(a.len() as int)[i + 1] == a[i + 1]);
                }
                assert(u.take(r.len() as int) =~= r);
                assert(u.skip(u.len() - b.len()) =~= b);
            }
        }
    }
}

} // verus!
