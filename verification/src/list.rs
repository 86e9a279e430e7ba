//! Small facts about sequences that several modules share.
use vstd::prelude::*;

verus! {

/// What a map holds for a key.
pub open spec fn lookup<K, V>(m: Map<K, V>, k: K) -> Option<V> {
    if m.dom().contains(k) {
        Some(m[k])
    } else {
        None
    }
}

/// The first element that satisfies a condition.
pub open spec fn first_where<A>(s: Seq<A>, p: spec_fn(A) -> bool) -> Option<A>
    decreases s.len(),
{
    if s.len() == 0 {
        None
    } else {
        match first_where(s.drop_last(), p) {
            Some(a) => Some(a),
            None => if p(s.last()) {
                Some(s.last())
            } else {
                None
            },
        }
    }
}

/// How many elements satisfy a condition.
pub open spec fn count_where<A>(s: Seq<A>, p: spec_fn(A) -> bool) -> nat
    decreases s.len(),
{
    if s.len() == 0 {
        0
    } else {
        count_where(s.drop_last(), p) + (if p(s.last()) {
            1nat
        } else {
            0nat
        })
    }
}

pub proof fn lemma_first_where<A>(s: Seq<A>, p: spec_fn(A) -> bool)
    ensures
        match first_where(s, p) {
            Some(a) => s.contains(a) && p(a),
            None => forall|i: int| 0 <= i < s.len() ==> !p(#[trigger] s[i]),
        },
    decreases s.len(),
{
    if s.len() > 0 {
        let d = s.drop_last();
        lemma_first_where(d, p);
        match first_where(d, p) {
            Some(a) => {
                let i = choose|i: int| 0 <= i < d.len() && d[i] == a;
                assert(s[i] == a);
            },
            None => {
                if p(s.last()) {
                    assert(s[s.len() - 1] == s.last());
                } else {
                    assert forall|i: int| 0 <= i < s.len() implies !p(#[trigger] s[i]) by {
                        if i < d.len() {
                            assert(d[i] == s[i]);
                        }
                    }
                }
            },
        }
    }
}

/// The first element that satisfies a condition stands at an index before which
/// none does.
pub proof fn lemma_first_where_is<A>(s: Seq<A>, p: spec_fn(A) -> bool, n: int)
    requires
        0 <= n < s.len(),
        forall|i: int| 0 <= i < n ==> !p(#[trigger] s[i]),
        p(s[n]),
    ensures
        first_where(s, p) == Some(s[n]),
    decreases s.len(),
{
    let d = s.drop_last();
    if n < d.len() {
        assert forall|i: int| 0 <= i < n implies !p(#[trigger] d[i]) by {
            assert(d[i] == s[i]);
        }
        lemma_first_where_is(d, p, n);
    } else {
        lemma_first_where(d, p);
        match first_where(d, p) {
            Some(a) => {
                let i = choose|i: int| 0 <= i < d.len() && d[i] == a;
                assert(!p(s[i]));
            },
            None => {},
        }
    }
}

/// Where no element satisfies a condition there is no first that does.
pub proof fn lemma_first_where_none<A>(s: Seq<A>, p: spec_fn(A) -> bool)
    requires
        forall|i: int| 0 <= i < s.len() ==> !p(#[trigger] s[i]),
    ensures
        first_where(s, p) is None,
{
    lemma_first_where(s, p);
    if let Some(a) = first_where(s, p) {
        let i = choose|i: int| 0 <= i < s.len() && s[i] == a;
        assert(!p(s[i]));
    }
}

/// Taking one more element of a sequence.
pub proof fn lemma_take_one<A>(s: Seq<A>, i: int)
    requires
        0 <= i < s.len(),
    ensures
        s.take(i + 1).drop_last() == s.take(i),
        s.take(i + 1).last() == s[i],
        s.take(i + 1).len() == i + 1,
        s.take(i + 1) == s.take(i).push(s[i]),
{
    assert(s.take(i + 1).drop_last() =~= s.take(i));
    assert(s.take(i + 1) =~= s.take(i).push(s[i]));
}

/// Filtering the first elements of a sequence, one at a time.
pub proof fn lemma_filter_one<A>(s: Seq<A>, i: int, p: spec_fn(A) -> bool)
    requires
        0 <= i < s.len(),
    ensures
        s.take(i + 1).filter(p) == if p(s[i]) {
            s.take(i).filter(p).push(s[i])
        } else {
            s.take(i).filter(p)
        },
{
    lemma_take_one(s, i);
    reveal(Seq::filter);
}

pub proof fn lemma_filter_none<A>(s: Seq<A>, p: spec_fn(A) -> bool)
    ensures
        s.take(0).filter(p) == Seq::<A>::empty(),
{
    reveal(Seq::filter);
    assert(s.take(0).filter(p) =~= Seq::<A>::empty());
}

/// What a filtered sequence holds.
pub proof fn lemma_filter_holds<A>(s: Seq<A>, p: spec_fn(A) -> bool)
    ensures
        forall|a: A| #[trigger] s.filter(p).contains(a) <==> s.contains(a) && p(a),
    decreases s.len(),
{
    reveal(Seq::filter);
    if s.len() > 0 {
        let d = s.drop_last();
        lemma_filter_holds(d, p);
        assert forall|a: A| #[trigger] s.filter(p).contains(a) <==> s.contains(a) && p(a) by {
            let f = s.filter(p);
            let g = d.filter(p);
            if f.contains(a) {
                let i = choose|i: int| 0 <= i < f.len() && f[i] == a;
                if i < g.len() {
                    assert(g[i] == a);
                    assert(g.contains(a));
                    let j = choose|j: int| 0 <= j < d.len() && d[j] == a;
                    assert(s[j] == a);
                } else {
                    assert(s[s.len() - 1] == a);
                }
            }
            if s.contains(a) && p(a) {
                let j = choose|j: int| 0 <= j < s.len() && s[j] == a;
                if j < d.len() {
                    assert(d[j] == a);
                    assert(g.contains(a));
                    let i = choose|i: int| 0 <= i < g.len() && g[i] == a;
                    assert(f[i] == a);
                } else {
                    assert(f[f.len() - 1] == a);
                }
            }
        }
    }
}

/// Nothing is counted where no element satisfies the condition, and more than
/// one where two do.
pub proof fn lemma_count<A>(s: Seq<A>, p: spec_fn(A) -> bool)
    ensures
        count_where(s, p) == 0 <==> forall|i: int| 0 <= i < s.len() ==> !p(#[trigger] s[i]),
        count_where(s, p) > 1 <==> exists|i: int, j: int|
            0 <= i < j < s.len() && p(#[trigger] s[i]) && p(#[trigger] s[j]),
    decreases s.len(),
{
    if s.len() > 0 {
        let d = s.drop_last();
        let n = s.len() - 1;
        lemma_count(d, p);
        assert(s[n] == s.last());
        if forall|i: int| 0 <= i < s.len() ==> !p(#[trigger] s[i]) {
            assert forall|i: int| 0 <= i < d.len() implies !p(#[trigger] d[i]) by {
                assert(d[i] == s[i]);
            }
        }
        if count_where(s, p) == 0 {
            assert forall|i: int| 0 <= i < s.len() implies !p(#[trigger] s[i]) by {
                if i < n {
                    assert(d[i] == s[i]);
                }
            }
        }
        if count_where(s, p) > 1 {
            if count_where(d, p) > 1 {
                let (i, j) = choose|i: int, j: int|
                    0 <= i < j < d.len() && p(#[trigger] d[i]) && p(#[trigger] d[j]);
                assert(p(s[i]) && p(s[j]));
            } else {
                let i = choose|i: int| 0 <= i < d.len() && p(#[trigger] d[i]);
                assert(p(s[i]) && p(s[n]));
            }
        }
        if exists|i: int, j: int|
            0 <= i < j < s.len() && p(#[trigger] s[i]) && p(#[trigger] s[j]) {
            let (i, j) = choose|i: int, j: int|
                0 <= i < j < s.len() && p(#[trigger] s[i]) && p(#[trigger] s[j]);
            assert(p(d[i]));
            if j < n {
                assert(p(d[j]));
            }
        }
    }
}

/// A count is how many elements there are of the kind that is counted.
pub proof fn law_count<A>(s: Seq<A>, p: spec_fn(A) -> bool)
    ensures
        count_where(s, p) == s.filter(p).len(),
    decreases s.len(),
{
    reveal(Seq::filter);
    if s.len() > 0 {
        law_count(s.drop_last(), p);
    }
}

} // verus!
