//! Walks along the edges of a graph.
use vstd::prelude::*;

verus! {

/// Whether each element of a sequence has an edge to the next.
pub open spec fn is_walk<A>(edge: spec_fn(A, A) -> bool, p: Seq<A>) -> bool {
    p.len() > 0 && forall|i: int| 0 <= i < p.len() - 1 ==> edge(#[trigger] p[i], p[i + 1])
}

/// Whether a walk leads from `a` to `b`.
pub open spec fn walks<A>(edge: spec_fn(A, A) -> bool, p: Seq<A>, a: A, b: A) -> bool {
    is_walk(edge, p) && p[0] == a && p.last() == b
}

/// Whether some walk leads from `a` to `b`; one of no step leads from `a` to `a`.
pub open spec fn reaches<A>(edge: spec_fn(A, A) -> bool, a: A, b: A) -> bool {
    exists|p: Seq<A>| #[trigger] walks(edge, p, a, b)
}

/// Whether some walk of at least one step leads from `a` to `b`.
pub open spec fn reaches_on<A>(edge: spec_fn(A, A) -> bool, a: A, b: A) -> bool {
    exists|m: A| #[trigger] edge(a, m) && reaches(edge, m, b)
}

/// Whether every edge from a set leads back into it.
pub open spec fn closed_under<A>(edge: spec_fn(A, A) -> bool, s: Set<A>) -> bool {
    forall|a: A, b: A| s.contains(a) && #[trigger] edge(a, b) ==> s.contains(b)
}

/// What can be reached from a set.
pub open spec fn reach_set<A>(edge: spec_fn(A, A) -> bool, s: Set<A>) -> Set<A> {
    Set::new(|b: A| exists|a: A| s.contains(a) && #[trigger] reaches(edge, a, b))
}

pub proof fn lemma_reaches_self<A>(edge: spec_fn(A, A) -> bool, a: A)
    ensures
        reaches(edge, a, a),
{
    assert(walks(edge, seq![a], a, a));
}

pub proof fn lemma_reaches_step<A>(edge: spec_fn(A, A) -> bool, a: A, b: A, c: A)
    requires
        reaches(edge, a, b),
        edge(b, c),
    ensures
        reaches(edge, a, c),
{
    let p = choose|p: Seq<A>| #[trigger] walks(edge, p, a, b);
    let q = p.push(c);
    assert forall|i: int| 0 <= i < q.len() - 1 implies edge(#[trigger] q[i], q[i + 1]) by {
        if i < p.len() - 1 {
            assert(q[i] == p[i] && q[i + 1] == p[i + 1]);
        }
    }
    assert(walks(edge, q, a, c));
}

/// A set that holds `a` and is closed holds what `a` reaches.
pub proof fn lemma_closed_holds<A>(edge: spec_fn(A, A) -> bool, s: Set<A>, a: A, b: A)
    requires
        closed_under(edge, s),
        s.contains(a),
        reaches(edge, a, b),
    ensures
        s.contains(b),
{
    let p = choose|p: Seq<A>| #[trigger] walks(edge, p, a, b);
    lemma_closed_walk(edge, s, p, p.len() - 1);
}

proof fn lemma_closed_walk<A>(edge: spec_fn(A, A) -> bool, s: Set<A>, p: Seq<A>, n: int)
    requires
        closed_under(edge, s),
        is_walk(edge, p),
        s.contains(p[0]),
        0 <= n < p.len(),
    ensures
        s.contains(p[n]),
    decreases n,
{
    if n > 0 {
        lemma_closed_walk(edge, s, p, n - 1);
        assert(edge(p[n - 1], p[n - 1 + 1]));
    }
}

/// A set that holds `s`, is closed, and holds only what `s` reaches, is what `s`
/// reaches.
pub proof fn lemma_reach_set_is<A>(edge: spec_fn(A, A) -> bool, s: Set<A>, r: Set<A>)
    requires
        s.subset_of(r),
        closed_under(edge, r),
        forall|b: A| #[trigger] r.contains(b) ==> reach_set(edge, s).contains(b),
    ensures
        r == reach_set(edge, s),
{
    assert forall|b: A| reach_set(edge, s).contains(b) implies r.contains(b) by {
        let a = choose|a: A| s.contains(a) && #[trigger] reaches(edge, a, b);
        lemma_closed_holds(edge, r, a, b);
    }
    assert(r =~= reach_set(edge, s));
}

/// What a set reaches holds the set and is closed.
pub proof fn lemma_reach_set<A>(edge: spec_fn(A, A) -> bool, s: Set<A>)
    ensures
        s.subset_of(reach_set(edge, s)),
        closed_under(edge, reach_set(edge, s)),
{
    let r = reach_set(edge, s);
    assert forall|a: A| s.contains(a) implies r.contains(a) by {
        lemma_reaches_self(edge, a);
    }
    assert forall|a: A, b: A| r.contains(a) && #[trigger] edge(a, b) implies r.contains(b) by {
        let c = choose|c: A| s.contains(c) && #[trigger] reaches(edge, c, a);
        lemma_reaches_step(edge, c, a, b);
    }
}

} // verus!
