//! Sorting a list by name.
use vstd::prelude::*;

use crate::order::{compare_text, lex, lex_irreflexive, lex_total, lex_transitive, Order};
use crate::text::{views, Str};

verus! {

/// A value with a name to sort by.
pub trait Named: View + Sized {
    spec fn name_of(v: Self::V) -> Str;

    fn name(&self) -> (r: &str)
        ensures
            r@ == Self::name_of(self@),
    ;
}

/// Whether names never decrease along a sequence.
pub open spec fn by_name<T: Named>(s: Seq<T::V>) -> bool {
    forall|i: int, j: int|
        0 <= i < j < s.len() ==> !lex(
            T::name_of(#[trigger] s[j]),
            T::name_of(#[trigger] s[i]),
        )
}

/// The elements of a name.
pub open spec fn named<T: Named>(s: Seq<T::V>, name: Str) -> Seq<T::V> {
    s.filter(|v: T::V| T::name_of(v) == name)
}

/// Whether a sequence is another sorted by name: elements of one name keep the
/// order they had.
pub open spec fn sorts<T: Named>(from: Seq<T::V>, to: Seq<T::V>) -> bool {
    by_name::<T>(to) && forall|name: Str| #[trigger] named::<T>(to, name) == named::<T>(from, name)
}

/// Puts an element behind those whose names are not greater.
fn place<T: Named>(sorted: &mut Vec<T>, x: T)
    requires
        by_name::<T>(views(old(sorted)@)),
    ensures
        sorts::<T>(views(old(sorted)@).push(x@), views(final(sorted)@)),
{
    let ghost s = views(sorted@);
    let mut at: usize = sorted.len();
    let ghost xn = T::name_of(x@);
    while at > 0
        invariant_except_break
            at <= sorted@.len(),
            s == views(sorted@),
            xn == T::name_of(x@),
            by_name::<T>(s),
            forall|j: int| at <= j < s.len() ==> lex(xn, T::name_of(#[trigger] s[j])),
        ensures
            at <= sorted@.len(),
            forall|j: int| at <= j < s.len() ==> lex(xn, T::name_of(#[trigger] s[j])),
            forall|j: int| 0 <= j < at ==> !lex(xn, T::name_of(#[trigger] s[j])),
        decreases at,
    {
        let o = compare_text(x.name(), sorted[at - 1].name());
        assert(s[at - 1] == sorted@[at - 1]@);
        match o {
            Order::Less => {
                at = at - 1;
            },
            _ => {
                proof {
                    let p = T::name_of(s[at - 1]);
                    lex_irreflexive(xn);
                    if lex(xn, p) {
                        if lex(p, xn) {
                            lex_transitive(xn, p, xn);
                        }
                    }
                    assert forall|j: int| 0 <= j < at implies !lex(
                        xn,
                        T::name_of(#[trigger] s[j]),
                    ) by {
                        let q = T::name_of(s[j]);
                        if lex(xn, q) {
                            if j < at - 1 {
                                assert(!lex(p, q));
                                lex_total(p, q);
                                if lex(q, p) {
                                    lex_transitive(xn, q, p);
                                }
                            }
                        }
                    }
                }
                break ;
            },
        }
    }
    sorted.insert(at, x);
    proof {
        let t = views(sorted@);
        let n = at as int;
        assert(t =~= s.insert(n, x@));
        let a = s.take(n);
        let b = s.skip(n);
        assert(t =~= a + seq![x@] + b);
        assert(s =~= a + b);
        assert forall|i: int, j: int| 0 <= i < j < t.len() implies !lex(
            T::name_of(#[trigger] t[j]),
            T::name_of(#[trigger] t[i]),
        ) by {
            let ti = T::name_of(t[i]);
            let tj = T::name_of(t[j]);
            if i < n && j < n {
                assert(t[i] == s[i] && t[j] == s[j]);
            } else if i < n && j == n {
                assert(t[i] == s[i]);
            } else if i < n {
                assert(t[i] == s[i] && t[j] == s[j - 1]);
            } else if i == n {
                assert(t[j] == s[j - 1]);
                lex_irreflexive(xn);
                if lex(tj, xn) {
                    lex_transitive(xn, tj, xn);
                }
            } else {
                assert(t[i] == s[i - 1] && t[j] == s[j - 1]);
            }
        }
        assert forall|name: Str| #[trigger] named::<T>(t, name) == named::<T>(
            s.push(x@),
            name,
        ) by {
            let p = |v: T::V| T::name_of(v) == name;
            Seq::filter_distributes_over_add(a + seq![x@], b, p);
            Seq::filter_distributes_over_add(a, seq![x@], p);
            Seq::filter_distributes_over_add(a, b, p);
            Seq::filter_distributes_over_add(s, seq![x@], p);
            assert(s.push(x@) =~= s + seq![x@]);
            if name == xn {
                crate::list::lemma_filter_holds(b, p);
                assert(b.filter(p).len() == 0) by {
                    if b.filter(p).len() > 0 {
                        let y = b.filter(p)[0];
                        assert(b.filter(p).contains(y));
                        let k = choose|k: int| 0 <= k < b.len() && b[k] == y;
                        assert(s[n + k] == y);
                        lex_irreflexive(xn);
                    }
                }
                assert(b.filter(p) =~= Seq::empty());
                assert(named::<T>(t, name) =~= named::<T>(s.push(x@), name));
            } else {
                crate::list::lemma_filter_holds(seq![x@], p);
                assert(seq![x@].filter(p).len() == 0) by {
                    if seq![x@].filter(p).len() > 0 {
                        let y = seq![x@].filter(p)[0];
                        assert(seq![x@].filter(p).contains(y));
                    }
                }
                assert(seq![x@].filter(p) =~= Seq::empty());
                assert(named::<T>(t, name) =~= named::<T>(s.push(x@), name));
            }
        }
    }
}

/// Sorts a list by name.
pub fn sort_named<T: Named>(list: Vec<T>) -> (r: Vec<T>)
    ensures
        sorts::<T>(views(list@), views(r@)),
{
    let ghost all = views(list@);
    let mut rest = list;
    let mut tail: Vec<T> = Vec::new();
    // Turned around, so that elements can be taken from the end.
    while rest.len() > 0
        invariant
            views(rest@) + views(tail@).reverse() == all,
        decreases rest@.len(),
    {
        let ghost a = views(rest@);
        let ghost b = views(tail@);
        if let Some(x) = rest.pop() {
            tail.push(x);
            proof {
                assert(views(rest@) =~= a.drop_last());
                assert(views(tail@) =~= b.push(a.last()));
                assert(views(rest@) + views(tail@).reverse() =~= a + b.reverse());
            }
        }
    }
    assert(views(tail@).reverse() =~= all);
    let mut r: Vec<T> = Vec::new();
    proof {
        assert(views(r@) =~= Seq::<T::V>::empty());
        assert(all.take(0) =~= Seq::<T::V>::empty());
    }
    while tail.len() > 0
        invariant
            tail@.len() <= all.len(),
            views(tail@).reverse() == all.skip(all.len() - tail@.len()),
            sorts::<T>(all.take(all.len() - tail@.len()), views(r@)),
        decreases tail@.len(),
    {
        let ghost b = views(tail@);
        let ghost n = all.len() - tail@.len();
        let ghost before = views(r@);
        if let Some(x) = tail.pop() {
            proof {
                assert(b.reverse()[0] == b.last());
                assert(all.skip(n)[0] == all[n]);
                assert(x@ == all[n]);
                assert(views(tail@) =~= b.drop_last());
                assert(views(tail@).reverse() =~= b.reverse().skip(1));
                assert(all.skip(n).skip(1) =~= all.skip(n + 1));
            }
            place(&mut r, x);
            proof {
                assert(all.take(n + 1) =~= all.take(n).push(x@));
                assert forall|name: Str| #[trigger] named::<T>(views(r@), name) == named::<T>(
                    all.take(n + 1),
                    name,
                ) by {
                    let p = |v: T::V| T::name_of(v) == name;
                    assert(named::<T>(before, name) == named::<T>(all.take(n), name));
                    assert(named::<T>(views(r@), name) == named::<T>(before.push(x@), name));
                    Seq::filter_distributes_over_add(before, seq![x@], p);
                    Seq::filter_distributes_over_add(all.take(n), seq![x@], p);
                    assert(before.push(x@) =~= before + seq![x@]);
                    assert(all.take(n).push(x@) =~= all.take(n) + seq![x@]);
                }
            }
        }
    }
    assert(all.take(all.len() as int) =~= all);
    r
}

/// A sorted list holds just what the list held before, and names never
/// decrease along it.
pub proof fn law_sorts<T: Named>(from: Seq<T::V>, to: Seq<T::V>, x: T::V, i: int, j: int)
    requires
        sorts::<T>(from, to),
    ensures
        to.contains(x) <==> from.contains(x),
        0 <= i < j < to.len() ==> !lex(T::name_of(to[j]), T::name_of(to[i])),
{
    let p = |v: T::V| T::name_of(v) == T::name_of(x);
    crate::list::lemma_filter_holds(from, p);
    crate::list::lemma_filter_holds(to, p);
    assert(named::<T>(to, T::name_of(x)) == named::<T>(from, T::name_of(x)));
    assert(to.filter(p).contains(x) <==> from.filter(p).contains(x));
}

} // verus!
