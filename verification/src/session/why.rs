//! Why a port is in the closure: the shortest chain from a root to it.
//!
//! The search goes out from all roots at once, one step at a time. Each wave
//! holds a chain to every port that the waves before it did not reach, in the
//! order in which roots and dependency edges name them.
use vstd::prelude::*;

use crate::graph::is_walk;
use crate::list::lemma_take_one;
use crate::model::origin::{KeyView, PortKey};
use crate::model::port::{DepEdge, EdgeView};
use crate::order::{duplicate_list, Duplicate};
use crate::session::base::{Session, SessionView};
use crate::session::reach::{dep_edge, depends, lemma_universe, root_set, universe};
use crate::sorted::SortedSet;
use crate::text::views;

verus! {

pub type Chain = Seq<KeyView>;

/// One wave of the search: the ports reached so far, and the chains to those
/// that were reached last.
#[verifier::ext_equal]
pub struct Wave {
    pub seen: Set<KeyView>,
    pub chains: Seq<Chain>,
}

/// A wave with one more chain, unless its end was reached before.
pub open spec fn with_chain(w: Wave, before: Chain, end: Option<KeyView>) -> Wave {
    match end {
        Some(k) => if w.seen.contains(k) {
            w
        } else {
            Wave { seen: w.seen.insert(k), chains: w.chains.push(before.push(k)) }
        },
        None => w,
    }
}

/// The wave of the roots.
pub open spec fn root_wave(v: SessionView, roots: Seq<KeyView>) -> Wave
    decreases roots.len(),
{
    if roots.len() == 0 {
        Wave { seen: Set::empty(), chains: Seq::empty() }
    } else {
        with_chain(root_wave(v, roots.drop_last()), Seq::empty(), v.resolved(roots.last()))
    }
}

/// A wave with a chain extended along each of some dependency edges.
pub open spec fn along(v: SessionView, w: Wave, chain: Chain, deps: Seq<EdgeView>) -> Wave
    decreases deps.len(),
{
    if deps.len() == 0 {
        w
    } else {
        with_chain(along(v, w, chain, deps.drop_last()), chain, v.resolved(deps.last().target))
    }
}

/// The dependency edges at the end of a chain.
pub open spec fn edges_at(v: SessionView, chain: Chain) -> Seq<EdgeView> {
    if v.ports.dom().contains(chain.last()) {
        v.ports[chain.last()].deps
    } else {
        Seq::empty()
    }
}

/// The wave one step on from chains.
pub open spec fn onward(v: SessionView, seen: Set<KeyView>, chains: Seq<Chain>) -> Wave
    decreases chains.len(),
{
    if chains.len() == 0 {
        Wave { seen, chains: Seq::empty() }
    } else {
        along(
            v,
            onward(v, seen, chains.drop_last()),
            chains.last(),
            edges_at(v, chains.last()),
        )
    }
}

/// The wave after a number of steps.
pub open spec fn wave(v: SessionView, n: nat) -> Wave
    decreases n,
{
    if n == 0 {
        root_wave(v, v.roots)
    } else {
        let w = wave(v, (n - 1) as nat);
        onward(v, w.seen, w.chains)
    }
}

/// Whether the search finds a chain to a port.
pub open spec fn finds(v: SessionView, chain: Chain, target: KeyView) -> bool {
    chain.len() > 0 && chain.last() == target && exists|n: nat| #[trigger]
        wave(v, n).chains.contains(chain)
}

/// The chain that the search finds to a port.
pub open spec fn chain_to(v: SessionView, target: KeyView) -> Option<Chain> {
    match v.resolved(target) {
        Some(t) => if exists|c: Chain| finds(v, c, t) {
            Some(choose|c: Chain| finds(v, c, t))
        } else {
            None
        },
        None => None,
    }
}

/// Whether a chain leads from a root along dependency edges.
pub open spec fn from_root(v: SessionView, w: Chain) -> bool {
    is_walk(dep_edge(v), w) && root_set(v).contains(w[0])
}

/// Whether some chain of at most `n` steps leads from a root to a port.
pub open spec fn within(v: SessionView, k: KeyView, n: int) -> bool {
    exists|w: Chain| #[trigger] from_root(v, w) && w.last() == k && w.len() <= n + 1
}

// ---------------------------------------------------------------------
// What a step does
// ---------------------------------------------------------------------

/// What holds of a wave made from chains of the one before: every new port has
/// exactly one chain, which extends one of them by an edge.
spec fn grown(v: SessionView, seen: Set<KeyView>, chains: Seq<Chain>, w: Wave) -> bool {
    &&& seen.subset_of(w.seen)
    &&& forall|i: int|
        0 <= i < w.chains.len() ==> {
            let c = #[trigger] w.chains[i];
            &&& c.len() > 0
            &&& chains.contains(c.drop_last())
            &&& depends(v, c.drop_last().last(), c.last())
            &&& !seen.contains(c.last())
            &&& w.seen.contains(c.last())
        }
    &&& forall|k: KeyView|
        w.seen.contains(k) && !seen.contains(k) ==> exists|i: int|
            0 <= i < w.chains.len() && (#[trigger] w.chains[i]).last() == k
    &&& forall|i: int, j: int|
        0 <= i < j < w.chains.len() ==> (#[trigger] w.chains[i]).last() != (
        #[trigger] w.chains[j]).last()
}

proof fn lemma_with_chain(
    v: SessionView,
    seen: Set<KeyView>,
    chains: Seq<Chain>,
    w: Wave,
    before: Chain,
    end: Option<KeyView>,
)
    requires
        grown(v, seen, chains, w),
        end is Some ==> chains.contains(before) && depends(v, before.last(), end->0),
    ensures
        grown(v, seen, chains, with_chain(w, before, end)),
        w.seen.subset_of(with_chain(w, before, end).seen),
        end is Some ==> with_chain(w, before, end).seen.contains(end->0),
{
    let x = with_chain(w, before, end);
    if end is Some && !w.seen.contains(end->0) {
        let k = end->0;
        let c = before.push(k);
        assert(c.drop_last() =~= before);
        let n = w.chains.len() as int;
        assert(x.chains[n] == c);
        assert forall|i: int| 0 <= i < x.chains.len() implies ({
            let c = #[trigger] x.chains[i];
            &&& c.len() > 0
            &&& chains.contains(c.drop_last())
            &&& depends(v, c.drop_last().last(), c.last())
            &&& !seen.contains(c.last())
            &&& x.seen.contains(c.last())
        }) by {
            if i < n {
                assert(x.chains[i] == w.chains[i]);
            }
        }
        assert forall|j: KeyView| x.seen.contains(j) && !seen.contains(j) implies exists|i: int|
            0 <= i < x.chains.len() && (#[trigger] x.chains[i]).last() == j by {
            if j == k {
                assert(x.chains[n].last() == k);
            } else {
                let i = choose|i: int|
                    0 <= i < w.chains.len() && (#[trigger] w.chains[i]).last() == j;
                assert(x.chains[i].last() == j);
            }
        }
        assert forall|i: int, j: int| 0 <= i < j < x.chains.len() implies (
        #[trigger] x.chains[i]).last() != (#[trigger] x.chains[j]).last() by {
            assert(x.chains[i] == w.chains[i]);
            assert(w.seen.contains(w.chains[i].last()));
            if j < n {
                assert(x.chains[j] == w.chains[j]);
            }
        }
    }
}

proof fn lemma_along(
    v: SessionView,
    seen: Set<KeyView>,
    chains: Seq<Chain>,
    w: Wave,
    chain: Chain,
    deps: Seq<EdgeView>,
)
    requires
        grown(v, seen, chains, w),
        chains.contains(chain),
        v.ports.dom().contains(chain.last()),
        deps.len() <= v.ports[chain.last()].deps.len(),
        deps == v.ports[chain.last()].deps.take(deps.len() as int),
    ensures
        grown(v, seen, chains, along(v, w, chain, deps)),
        w.seen.subset_of(along(v, w, chain, deps).seen),
        forall|i: int|
            0 <= i < deps.len() && v.resolved((#[trigger] deps[i]).target) is Some ==> along(
                v,
                w,
                chain,
                deps,
            ).seen.contains(v.resolved(deps[i].target)->0),
    decreases deps.len(),
{
    if deps.len() > 0 {
        let d = deps.drop_last();
        let all = v.ports[chain.last()].deps;
        let n = deps.len() - 1;
        assert(d =~= all.take(d.len() as int));
        lemma_along(v, seen, chains, w, chain, d);
        let end = v.resolved(deps.last().target);
        assert(all[n] == deps[n]);
        if end is Some {
            assert(v.resolved(all[n].target) == Some(end->0));
            assert(depends(v, chain.last(), end->0));
        }
        let u = along(v, w, chain, d);
        lemma_with_chain(v, seen, chains, u, chain, end);
        assert forall|i: int|
            0 <= i < deps.len() && v.resolved((#[trigger] deps[i]).target) is Some implies along(
            v,
            w,
            chain,
            deps,
        ).seen.contains(v.resolved(deps[i].target)->0) by {
            if i < n {
                assert(d[i] == deps[i]);
                assert(u.seen.contains(v.resolved(d[i].target)->0));
            }
        }
    }
}

proof fn lemma_onward(v: SessionView, seen: Set<KeyView>, chains: Seq<Chain>, n: int)
    requires
        0 <= n <= chains.len(),
    ensures
        grown(v, seen, chains, onward(v, seen, chains.take(n))),
        forall|i: int, k: KeyView|
            0 <= i < n && depends(v, (#[trigger] chains[i]).last(), k) ==> #[trigger] onward(
                v,
                seen,
                chains.take(n),
            ).seen.contains(k),
    decreases n,
{
    if n > 0 {
        lemma_onward(v, seen, chains, n - 1);
        lemma_take_one(chains, n - 1);
        let before = onward(v, seen, chains.take(n - 1));
        let c = chains[n - 1];
        assert(chains.contains(c));
        let deps = edges_at(v, c);
        let now = onward(v, seen, chains.take(n));
        assert(now == along(v, before, c, deps));
        if v.ports.dom().contains(c.last()) {
            assert(deps =~= v.ports[c.last()].deps.take(deps.len() as int));
            lemma_along(v, seen, chains, before, c, deps);
        }
        assert forall|i: int, k: KeyView|
            0 <= i < n && depends(v, (#[trigger] chains[i]).last(), k) implies #[trigger] now.seen.contains(
        k) by {
            if i < n - 1 {
                assert(before.seen.contains(k));
            } else {
                let j = choose|j: int|
                    0 <= j < deps.len() && v.resolved((#[trigger] deps[j]).target) == Some(k);
                assert(v.resolved(deps[j].target) is Some);
            }
        }
    }
}

proof fn lemma_root_wave(v: SessionView, roots: Seq<KeyView>)
    ensures
        ({
            let w = root_wave(v, roots);
            &&& forall|k: KeyView| #[trigger]
                w.seen.contains(k) <==> exists|i: int|
                    0 <= i < roots.len() && v.resolved(#[trigger] roots[i]) == Some(k)
            &&& forall|i: int|
                0 <= i < w.chains.len() ==> (#[trigger] w.chains[i]).len() == 1 && w.seen.contains(
                    w.chains[i].last(),
                )
            &&& forall|k: KeyView|
                w.seen.contains(k) ==> exists|i: int|
                    0 <= i < w.chains.len() && (#[trigger] w.chains[i]).last() == k
            &&& forall|i: int, j: int|
                0 <= i < j < w.chains.len() ==> (#[trigger] w.chains[i]).last() != (
                #[trigger] w.chains[j]).last()
        }),
    decreases roots.len(),
{
    if roots.len() > 0 {
        let d = roots.drop_last();
        lemma_root_wave(v, d);
        let u = root_wave(v, d);
        let w = root_wave(v, roots);
        let end = v.resolved(roots.last());
        let n = u.chains.len() as int;
        assert forall|k: KeyView| #[trigger] w.seen.contains(k) <==> exists|i: int|
            0 <= i < roots.len() && v.resolved(#[trigger] roots[i]) == Some(k) by {
            if exists|i: int| 0 <= i < roots.len() && v.resolved(#[trigger] roots[i]) == Some(k) {
                let i = choose|i: int|
                    0 <= i < roots.len() && v.resolved(#[trigger] roots[i]) == Some(k);
                if i < d.len() {
                    assert(v.resolved(d[i]) == Some(k));
                    assert(u.seen.contains(k));
                }
            }
            if w.seen.contains(k) {
                if u.seen.contains(k) {
                    let i = choose|i: int|
                        0 <= i < d.len() && v.resolved(#[trigger] d[i]) == Some(k);
                    assert(v.resolved(roots[i]) == Some(k));
                } else {
                    assert(v.resolved(roots[roots.len() - 1]) == Some(k));
                }
            }
        }
        if end is Some && !u.seen.contains(end->0) {
            assert(w.chains[n].last() == end->0);
            assert forall|k: KeyView| w.seen.contains(k) implies exists|i: int|
                0 <= i < w.chains.len() && (#[trigger] w.chains[i]).last() == k by {
                if u.seen.contains(k) {
                    let i = choose|i: int|
                        0 <= i < u.chains.len() && (#[trigger] u.chains[i]).last() == k;
                    assert(w.chains[i].last() == k);
                } else {
                    assert(w.chains[n].last() == k);
                }
            }
            assert forall|i: int, j: int| 0 <= i < j < w.chains.len() implies (
            #[trigger] w.chains[i]).last() != (#[trigger] w.chains[j]).last() by {
                assert(u.seen.contains(u.chains[i].last()));
            }
        }
    }
}

// ---------------------------------------------------------------------
// What the waves reach
// ---------------------------------------------------------------------

/// The ports that the waves before a given one reached.
spec fn reached_before(v: SessionView, n: nat) -> Set<KeyView> {
    if n == 0 {
        Set::empty()
    } else {
        wave(v, (n - 1) as nat).seen
    }
}

/// Each wave reaches exactly the ports that some chain of as many steps leads
/// to, and holds one chain, of exactly as many steps, to each that is new.
proof fn lemma_wave(v: SessionView, n: nat)
    ensures
        forall|k: KeyView| #[trigger] wave(v, n).seen.contains(k) <==> within(v, k, n as int),
        forall|i: int|
            0 <= i < wave(v, n).chains.len() ==> {
                let c = #[trigger] wave(v, n).chains[i];
                &&& c.len() == n + 1
                &&& from_root(v, c)
                &&& !reached_before(v, n).contains(c.last())
            },
        forall|k: KeyView|
            wave(v, n).seen.contains(k) && !reached_before(v, n).contains(k) ==> exists|i: int|
                0 <= i < wave(v, n).chains.len() && (#[trigger] wave(v, n).chains[i]).last() == k,
        forall|i: int, j: int|
            0 <= i < j < wave(v, n).chains.len() ==> (#[trigger] wave(v, n).chains[i]).last() != (
            #[trigger] wave(v, n).chains[j]).last(),
        reached_before(v, n).subset_of(wave(v, n).seen),
    decreases n,
{
    let edge = dep_edge(v);
    let w = wave(v, n);
    if n == 0 {
        lemma_root_wave(v, v.roots);
        assert forall|k: KeyView| #[trigger] w.seen.contains(k) <==> within(v, k, 0) by {
            if w.seen.contains(k) {
                assert(from_root(v, seq![k]));
            }
            if within(v, k, 0) {
                let c = choose|c: Chain| #[trigger]
                    from_root(v, c) && c.last() == k && c.len() <= 1;
                assert(c[0] == k);
            }
        }
        assert forall|i: int| 0 <= i < w.chains.len() implies from_root(
            v,
            #[trigger] w.chains[i],
        ) by {
            let c = w.chains[i];
            assert(c[0] == c.last());
        }
    } else {
        let m = (n - 1) as nat;
        let u = wave(v, m);
        lemma_wave(v, m);
        lemma_onward(v, u.seen, u.chains, u.chains.len() as int);
        assert(u.chains.take(u.chains.len() as int) =~= u.chains);
        // The chains extend those of the wave before.
        assert forall|i: int| 0 <= i < w.chains.len() implies ({
            let c = #[trigger] w.chains[i];
            &&& c.len() == n + 1
            &&& from_root(v, c)
        }) by {
            let c = w.chains[i];
            let d = c.drop_last();
            let j = choose|j: int| 0 <= j < u.chains.len() && u.chains[j] == d;
            assert(from_root(v, u.chains[j]));
            assert forall|x: int| 0 <= x < c.len() - 1 implies edge(
                #[trigger] c[x],
                c[x + 1],
            ) by {
                if x < d.len() - 1 {
                    assert(d[x] == c[x] && d[x + 1] == c[x + 1]);
                } else {
                    assert(c[x] == d.last());
                }
            }
            assert(c[0] == d[0]);
        }
        assert forall|k: KeyView| #[trigger] w.seen.contains(k) <==> within(v, k, n as int) by {
            if w.seen.contains(k) {
                if u.seen.contains(k) {
                    let c = choose|c: Chain| #[trigger]
                        from_root(v, c) && c.last() == k && c.len() <= m + 1;
                    assert(from_root(v, c));
                } else {
                    let i = choose|i: int|
                        0 <= i < w.chains.len() && (#[trigger] w.chains[i]).last() == k;
                    assert(from_root(v, w.chains[i]));
                }
            }
            if within(v, k, n as int) {
                let c = choose|c: Chain| #[trigger]
                    from_root(v, c) && c.last() == k && c.len() <= n + 1;
                if c.len() <= m + 1 {
                    assert(within(v, k, m as int));
                    assert(u.seen.contains(k));
                } else {
                    let d = c.drop_last();
                    let a = d.last();
                    assert forall|x: int| 0 <= x < d.len() - 1 implies edge(
                        #[trigger] d[x],
                        d[x + 1],
                    ) by {
                        assert(d[x] == c[x] && d[x + 1] == c[x + 1]);
                    }
                    assert(from_root(v, d));
                    assert(within(v, a, m as int));
                    assert(edge(c[n - 1], c[n - 1 + 1]));
                    assert(depends(v, a, k));
                    if reached_before(v, m).contains(a) {
                        // Then the port was reached a step earlier.
                        let l = (m - 1) as nat;
                        lemma_wave(v, l);
                        assert(within(v, a, l as int));
                        let e = choose|e: Chain| #[trigger]
                            from_root(v, e) && e.last() == a && e.len() <= l + 1;
                        let f = e.push(k);
                        assert forall|x: int| 0 <= x < f.len() - 1 implies edge(
                            #[trigger] f[x],
                            f[x + 1],
                        ) by {
                            if x < e.len() - 1 {
                                assert(f[x] == e[x] && f[x + 1] == e[x + 1]);
                            }
                        }
                        assert(f[0] == e[0]);
                        assert(from_root(v, f));
                        assert(within(v, k, m as int));
                        assert(u.seen.contains(k));
                    } else {
                        assert(u.seen.contains(a));
                        let i = choose|i: int|
                            0 <= i < u.chains.len() && (#[trigger] u.chains[i]).last() == a;
                        assert(depends(v, u.chains[i].last(), k));
                    }
                }
            }
        }
    }
}

/// Once a wave is empty, so are all that follow.
proof fn lemma_wave_over(v: SessionView, m: nat, n: nat)
    requires
        m <= n,
        wave(v, m).chains.len() == 0,
    ensures
        wave(v, n).chains.len() == 0,
    decreases n,
{
    if m < n {
        lemma_wave_over(v, m, (n - 1) as nat);
        let w = wave(v, (n - 1) as nat);
        assert(w.chains =~= Seq::<Chain>::empty());
    }
}

/// A chain that the search finds leads from a root to the port along dependency
/// edges, and no chain that does is shorter.
pub proof fn law_chain_shortest(v: SessionView, chain: Chain, target: KeyView, other: Chain)
    requires
        finds(v, chain, target),
    ensures
        from_root(v, chain),
        from_root(v, other) && other.last() == target ==> chain.len() <= other.len(),
{
    let n = choose|n: nat| #[trigger] wave(v, n).chains.contains(chain);
    lemma_wave(v, n);
    let i = choose|i: int| 0 <= i < wave(v, n).chains.len() && wave(v, n).chains[i] == chain;
    assert(from_root(v, wave(v, n).chains[i]));
    if from_root(v, other) && other.last() == target && other.len() < chain.len() {
        let m = (n - 1) as nat;
        lemma_wave(v, m);
        assert(within(v, target, m as int));
        assert(reached_before(v, n).contains(target));
    }
}

/// The search finds a chain to every port that some chain leads to.
pub proof fn law_chain_found(v: SessionView, other: Chain)
    requires
        from_root(v, other),
    ensures
        exists|chain: Chain| finds(v, chain, other.last()),
{
    let n = (other.len() - 1) as nat;
    lemma_wave(v, n);
    assert(within(v, other.last(), n as int));
    lemma_found(v, other.last(), n);
}

proof fn lemma_found(v: SessionView, k: KeyView, n: nat)
    requires
        wave(v, n).seen.contains(k),
    ensures
        exists|chain: Chain| finds(v, chain, k),
    decreases n,
{
    lemma_wave(v, n);
    if reached_before(v, n).contains(k) {
        lemma_found(v, k, (n - 1) as nat);
    } else {
        let i = choose|i: int|
            0 <= i < wave(v, n).chains.len() && (#[trigger] wave(v, n).chains[i]).last() == k;
        let c = wave(v, n).chains[i];
        assert(wave(v, n).chains.contains(c));
        assert(finds(v, c, k));
    }
}

/// The search finds at most one chain to a port: which of several shortest
/// chains it is, the order of roots and edges decides.
pub proof fn law_chain_unique(v: SessionView, a: Chain, b: Chain, target: KeyView)
    requires
        finds(v, a, target),
        finds(v, b, target),
    ensures
        a == b,
{
    let n = choose|n: nat| #[trigger] wave(v, n).chains.contains(a);
    let m = choose|m: nat| #[trigger] wave(v, m).chains.contains(b);
    lemma_wave(v, n);
    lemma_wave(v, m);
    let i = choose|i: int| 0 <= i < wave(v, n).chains.len() && wave(v, n).chains[i] == a;
    let j = choose|j: int| 0 <= j < wave(v, m).chains.len() && wave(v, m).chains[j] == b;
    assert(from_root(v, wave(v, n).chains[i]));
    assert(from_root(v, wave(v, m).chains[j]));
    law_chain_shortest(v, a, target, b);
    law_chain_shortest(v, b, target, a);
    assert(n == m);
    assert(i == j);
}

// ---------------------------------------------------------------------
// The search
// ---------------------------------------------------------------------

/// The chains of a list of lists.
pub open spec fn chains_of(s: Seq<Vec<PortKey>>) -> Seq<Chain> {
    s.map_values(|c: Vec<PortKey>| views(c@))
}

/// A wave in the making.
struct Front {
    seen: SortedSet<PortKey>,
    chains: Vec<Vec<PortKey>>,
}

impl Front {
    spec fn wave(self) -> Wave {
        Wave { seen: self.seen@, chains: chains_of(self.chains@) }
    }

    fn add_chain(&mut self, before: &Vec<PortKey>, end: Option<PortKey>)
        ensures
            final(self).wave() == with_chain(
                old(self).wave(),
                views(before@),
                crate::text::opt_view(end),
            ),
    {
        if let Some(k) = end {
            let ghost was = self.wave();
            if self.seen.insert(k.duplicate()) {
                let mut c = duplicate_list(before);
                let ghost b = views(c@);
                c.push(k);
                let ghost cv = c@;
                assert(views(cv) =~= b.push(k@));
                let ghost old_chains = self.chains@;
                self.chains.push(c);
                assert(chains_of(self.chains@) =~= chains_of(old_chains).push(views(cv)));
            } else {
                assert(was.seen.insert(k@) =~= was.seen);
            }
            assert(self.wave() =~= with_chain(was, views(before@), Some(k@)));
        }
    }
}

impl Session {
    fn first_front(&self) -> (r: Front)
        ensures
            r.wave() == root_wave(self@, self@.roots),
    {
        let mut f = Front { seen: SortedSet::new(), chains: Vec::new() };
        let none: Vec<PortKey> = Vec::new();
        let ghost q = self@.roots;
        assert(views(none@) =~= Seq::<KeyView>::empty());
        assert(q.take(0) =~= Seq::<KeyView>::empty());
        assert(f.wave() =~= root_wave(self@, q.take(0)));
        let mut i: usize = 0;
        while i < self.roots.len()
            invariant
                i <= self.roots@.len(),
                q == self@.roots,
                views(none@) == Seq::<KeyView>::empty(),
                f.wave() == root_wave(self@, q.take(i as int)),
            decreases self.roots@.len() - i,
        {
            proof {
                lemma_take_one(q, i as int);
                assert(q[i as int] == self.roots@[i as int]@);
            }
            let end = self.resolve(&self.roots[i]);
            f.add_chain(&none, end);
            i = i + 1;
        }
        assert(q.take(q.len() as int) =~= q);
        f
    }

    fn follow(&self, f: &mut Front, chain: &Vec<PortKey>, deps: &Vec<DepEdge>)
        ensures
            final(f).wave() == along(self@, old(f).wave(), views(chain@), views(deps@)),
    {
        let ghost w = f.wave();
        let ghost q = views(deps@);
        assert(q.take(0) =~= Seq::<EdgeView>::empty());
        let mut i: usize = 0;
        while i < deps.len()
            invariant
                i <= deps@.len(),
                q == views(deps@),
                f.wave() == along(self@, w, views(chain@), q.take(i as int)),
            decreases deps@.len() - i,
        {
            proof {
                lemma_take_one(q, i as int);
                assert(q[i as int] == deps@[i as int]@);
            }
            let end = self.resolve(&deps[i].target);
            f.add_chain(chain, end);
            i = i + 1;
        }
        assert(q.take(q.len() as int) =~= q);
    }

    fn next_front(&self, f: Front) -> (r: Front)
        requires
            forall|i: int| 0 <= i < f.chains@.len() ==> (#[trigger] f.chains@[i])@.len() > 0,
        ensures
            r.wave() == onward(self@, f.wave().seen, f.wave().chains),
    {
        let Front { seen, chains } = f;
        let ghost s0 = seen@;
        let ghost q = chains_of(chains@);
        let mut r = Front { seen, chains: Vec::new() };
        assert(q.take(0) =~= Seq::<Chain>::empty());
        assert(r.wave() =~= onward(self@, s0, q.take(0)));
        let mut i: usize = 0;
        while i < chains.len()
            invariant
                i <= chains@.len(),
                q == chains_of(chains@),
                forall|j: int| 0 <= j < chains@.len() ==> (#[trigger] chains@[j])@.len() > 0,
                r.wave() == onward(self@, s0, q.take(i as int)),
            decreases chains@.len() - i,
        {
            let c = &chains[i];
            proof {
                lemma_take_one(q, i as int);
                assert(q[i as int] == views(c@));
                assert(views(c@).last() == c@[c@.len() - 1]@);
            }
            let end = &c[c.len() - 1];
            if let Some(info) = self.ports.get(end) {
                self.follow(&mut r, c, &info.deps);
            }
            i = i + 1;
        }
        assert(q.take(q.len() as int) =~= q);
        r
    }

    /// Shortest dependency chain from one of the roots to `target`
    /// (inclusive on both ends): a single-element chain when the target is
    /// itself a root, None when it is unknown or unreachable from the roots
    /// (a port kept only by a scan fallback). Breadth-first from all roots at
    /// once, so the first chain found is a shortest one.
    pub fn why_chain(&self, target: &PortKey) -> (r: Option<Vec<PortKey>>)
        ensures
            match (r, self@.resolved(target@)) {
                (Some(c), Some(t)) => finds(self@, views(c@), t) && from_root(self@, views(c@))
                    && views(c@).last() == t && forall|other: Chain| #[trigger]
                    from_root(self@, other) && other.last() == t ==> c@.len() <= other.len(),
                (Some(c), None) => false,
                (None, Some(t)) => forall|other: Chain| #[trigger]
                    from_root(self@, other) ==> other.last() != t,
                (None, None) => true,
            },
    {
        let ghost v = self@;
        let goal = match self.resolve(target) {
            Some(t) => t,
            None => {
                return None;
            },
        };
        let _ = self.ports.len();
        let _ = self.aliases.len();
        let ghost all = universe(v);
        let mut f = self.first_front();
        let ghost mut n: nat = 0;
        proof {
            lemma_universe(v);
            lemma_wave_bound(v, 0);
        }
        loop
            invariant
                v == self@,
                all == universe(v),
                all.finite(),
                v.resolved(target@) == Some(goal@),
                f.wave() == wave(v, n),
                wave(v, n).seen.subset_of(all),
                v.ports.dom().finite(),
                v.aliases.dom().finite(),
                forall|m: nat, c: Chain|
                    m < n && #[trigger] wave(v, m).chains.contains(c) ==> c.last() != goal@,
            decreases all.len() - f.seen@.len(), f.chains@.len(),
        {
            proof {
                lemma_wave(v, n);
            }
            let mut i: usize = 0;
            while i < f.chains.len()
                invariant
                    i <= f.chains@.len(),
                    v == self@,
                    v.resolved(target@) == Some(goal@),
                    f.wave() == wave(v, n),
                    forall|j: int|
                        0 <= j < wave(v, n).chains.len() ==> (#[trigger] wave(
                            v,
                            n,
                        ).chains[j]).len() > 0,
                    forall|j: int|
                        0 <= j < i ==> (#[trigger] wave(v, n).chains[j]).last() != goal@,
                decreases f.chains@.len() - i,
            {
                let c = &f.chains[i];
                proof {
                    assert(wave(v, n).chains[i as int] == views(c@));
                    assert(views(c@).len() > 0);
                    assert(views(c@).last() == c@[c@.len() - 1]@);
                }
                if c[c.len() - 1].equals(&goal) {
                    let r = duplicate_list(c);
                    proof {
                        assert(wave(v, n).chains.contains(views(c@)));
                        assert(finds(v, views(c@), goal@));
                        law_chain_shortest(v, views(c@), goal@, views(c@));
                        assert forall|other: Chain| #[trigger]
                            from_root(v, other) && other.last() == goal@ implies c@.len()
                            <= other.len() by {
                            law_chain_shortest(v, views(c@), goal@, other);
                        }
                    }
                    return Some(r);
                }
                i = i + 1;
            }
            proof {
                assert forall|m: nat, c: Chain|
                    m < n + 1 && #[trigger] wave(v, m).chains.contains(c) implies c.last()
                    != goal@ by {
                    if m == n {
                        let j = choose|j: int|
                            0 <= j < wave(v, n).chains.len() && wave(v, n).chains[j] == c;
                        assert(wave(v, n).chains[j].last() != goal@);
                    }
                }
            }
            if f.chains.len() == 0 {
                proof {
                    assert forall|other: Chain| #[trigger] from_root(v, other) implies other.last()
                        != goal@ by {
                        if other.last() == goal@ {
                            law_chain_found(v, other);
                            let c = choose|c: Chain| finds(v, c, goal@);
                            let m = choose|m: nat| #[trigger] wave(v, m).chains.contains(c);
                            if m > n {
                                lemma_wave_over(v, n, m);
                            }
                        }
                    }
                }
                return None;
            }
            let ghost before = wave(v, n);
            proof {
                assert forall|j: int| 0 <= j < f.chains@.len() implies (
                #[trigger] f.chains@[j])@.len() > 0 by {
                    assert(wave(v, n).chains[j] == views(f.chains@[j]@));
                    assert(wave(v, n).chains[j].len() > 0);
                }
            }
            f = self.next_front(f);
            let _ = f.seen.len();
            proof {
                n = n + 1;
                assert(f.wave() == wave(v, n));
                lemma_wave(v, n);
                lemma_wave_bound(v, n);
                vstd::set_lib::lemma_len_subset(f.seen@, all);
                vstd::set_lib::lemma_len_subset(before.seen, f.seen@);
                if f.chains@.len() > 0 {
                    let k = wave(v, n).chains[0].last();
                    assert(f.seen@.contains(k)) by {
                        let c = wave(v, n).chains[0];
                        assert(from_root(v, c));
                        assert(within(v, k, n as int));
                    }
                    assert(!before.seen.contains(k));
                    if f.seen@.len() == before.seen.len() {
                        vstd::set_lib::lemma_subset_equality(before.seen, f.seen@);
                    }
                }
            }
        }
    }
}

/// What the search returns is the chain to the port.
pub proof fn lemma_chain_to(v: SessionView, target: KeyView, r: Option<Chain>)
    requires
        match (r, v.resolved(target)) {
            (Some(c), Some(t)) => finds(v, c, t),
            (Some(c), None) => false,
            (None, Some(t)) => forall|other: Chain| #[trigger]
                from_root(v, other) ==> other.last() != t,
            (None, None) => true,
        },
    ensures
        r == chain_to(v, target),
{
    if let Some(t) = v.resolved(target) {
        if exists|c: Chain| finds(v, c, t) {
            let c = choose|c: Chain| finds(v, c, t);
            law_chain_shortest(v, c, t, c);
            match r {
                Some(x) => {
                    law_chain_unique(v, x, c, t);
                },
                None => {
                    assert(from_root(v, c));
                },
            }
        }
    }
}

/// A wave reaches only keys that some key stands for.
proof fn lemma_wave_bound(v: SessionView, n: nat)
    requires
        v.ports.dom().finite(),
        v.aliases.dom().finite(),
    ensures
        wave(v, n).seen.subset_of(universe(v)),
{
    lemma_universe(v);
    lemma_wave(v, n);
    assert forall|k: KeyView| wave(v, n).seen.contains(k) implies universe(v).contains(k) by {
        assert(within(v, k, n as int));
        let w = choose|w: Chain| #[trigger]
            from_root(v, w) && w.last() == k && w.len() <= n + 1;
        if w.len() == 1 {
            assert(root_set(v).contains(w[0]));
        } else {
            let e = w.len() - 2;
            assert(dep_edge(v)(w[e], w[e + 1]));
        }
    }
}

} // verus!
