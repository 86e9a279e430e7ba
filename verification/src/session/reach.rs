//! The dependency closure: what the roots reach, and who needs whom.
use vstd::prelude::*;

use crate::graph::{closed_under, lemma_reach_set, lemma_reach_set_is, reach_set};
use crate::list::{lemma_filter_none, lemma_filter_one};
use crate::model::origin::{KeyView, PortKey};
use crate::model::port::{InfoView, PortInfo};
use crate::optionsfile::{SavedOptionsFile, SavedView};
use crate::order::Duplicate;
use crate::query::scanner::ScanResult;
use crate::session::base::{owners_of, states_for, Session, SessionView};
use crate::sorted::{lemma_ordered, lemma_take_set, ordered, SortedMap, SortedSet};
use crate::text::{same, views, Str};

verus! {

/// Whether a port has a dependency edge that leads to another.
pub open spec fn depends(v: SessionView, a: KeyView, b: KeyView) -> bool {
    v.ports.dom().contains(a) && exists|i: int|
        0 <= i < v.ports[a].deps.len() && v.resolved((#[trigger] v.ports[a].deps[i]).target)
            == Some(b)
}

/// The dependency edges of a session.
pub open spec fn dep_edge(v: SessionView) -> spec_fn(KeyView, KeyView) -> bool {
    |a: KeyView, b: KeyView| depends(v, a, b)
}

/// The ports that the roots stand for.
pub open spec fn root_set(v: SessionView) -> Set<KeyView> {
    Set::new(
        |k: KeyView|
            exists|i: int| 0 <= i < v.roots.len() && v.resolved(#[trigger] v.roots[i]) == Some(k),
    )
}

/// What the roots reach along dependency edges.
pub open spec fn live(v: SessionView) -> Set<KeyView> {
    reach_set(dep_edge(v), root_set(v))
}

/// Every key that some key can stand for.
pub open spec fn universe(v: SessionView) -> Set<KeyView> {
    v.ports.dom().union(v.aliases.values())
}

pub proof fn lemma_universe(v: SessionView)
    requires
        v.ports.dom().finite(),
        v.aliases.dom().finite(),
    ensures
        universe(v).finite(),
        forall|k: KeyView|
            (#[trigger] v.resolved(k)) is Some ==> universe(v).contains(v.resolved(k)->0),
{
    vstd::map_lib::lemma_values_finite(v.aliases);
    assert forall|k: KeyView| (#[trigger] v.resolved(k)) is Some implies universe(v).contains(
        v.resolved(k)->0,
    ) by {
        if !v.ports.dom().contains(k) {
            assert(v.aliases.contains_value(v.aliases[k]));
        }
    }
}

/// Whether a key waits on a stack.
spec fn waiting(stack: Seq<PortKey>, k: KeyView) -> bool {
    exists|i: int| 0 <= i < stack.len() && (#[trigger] stack[i])@ == k
}

/// The session after a re-scan was merged and before unreachable ports go.
pub open spec fn joined_scan(
    v: SessionView,
    ports: Map<KeyView, InfoView>,
    aliases: Map<KeyView, KeyView>,
    files: Map<Str, SavedView>,
) -> SessionView {
    let all = v.ports.union_prefer_right(ports);
    SessionView {
        ports: all,
        states: states_for(all, v.states, files),
        aliases: v.aliases.union_prefer_right(aliases),
        owners: owners_of(all),
        ..v
    }
}

/// The session after a re-scan was merged: ports replaced and added, states
/// created for newcomers, and of the ports exactly those that the roots reach.
pub open spec fn merged(
    v: SessionView,
    ports: Map<KeyView, InfoView>,
    aliases: Map<KeyView, KeyView>,
    files: Map<Str, SavedView>,
) -> SessionView {
    let mid = joined_scan(v, ports, aliases, files);
    SessionView { ports: mid.ports.restrict(live(mid)), ..mid }
}

/// Merging never discards a state: what was staged stays staged, whatever
/// becomes of the ports.
pub proof fn law_merge_keeps_states(
    v: SessionView,
    ports: Map<KeyView, InfoView>,
    aliases: Map<KeyView, KeyView>,
    files: Map<Str, SavedView>,
    name: Str,
)
    requires
        v.states.dom().contains(name),
    ensures
        merged(v, ports, aliases, files).states.dom().contains(name),
        merged(v, ports, aliases, files).states[name] == v.states[name],
{
}

/// After a merge every port is one that the roots reach through what was merged,
/// and every scanned port that they reach is there.
pub proof fn law_merge_keeps_reachable(
    v: SessionView,
    ports: Map<KeyView, InfoView>,
    aliases: Map<KeyView, KeyView>,
    files: Map<Str, SavedView>,
    key: KeyView,
)
    ensures
        merged(v, ports, aliases, files).ports.dom().contains(key) <==> (v.ports.dom().contains(
            key,
        ) || ports.dom().contains(key)) && live(joined_scan(v, ports, aliases, files)).contains(
            key,
        ),
        merged(v, ports, aliases, files).ports.dom().contains(key) && ports.dom().contains(key)
            ==> merged(v, ports, aliases, files).ports[key] == ports[key],
{
}

impl Session {
    /// All closure ports that are flavors of the same origin, sorted;
    /// includes `key` itself.
    pub fn siblings(&self, key: &PortKey) -> (r: Vec<PortKey>)
        ensures
            views(r@) == ordered::<PortKey>(self@.ports.dom()).filter(
                |k: KeyView| k.origin == key@.origin,
            ),
    {
        broadcast use {crate::text::views_push, crate::text::views_empty};

        let n = self.ports.len();
        let ghost q = ordered::<PortKey>(self@.ports.dom());
        let ghost p = |k: KeyView| k.origin == key@.origin;
        let mut r: Vec<PortKey> = Vec::new();
        proof {
            lemma_filter_none(q, p);
        }
        let mut i: usize = 0;
        while i < n
            invariant
                i <= n,
                n == q.len(),
                q == ordered::<PortKey>(self@.ports.dom()),
                p == (|k: KeyView| k.origin == key@.origin),
                views(r@) == q.take(i as int).filter(p),
            decreases n - i,
        {
            let k = self.ports.key_at(i);
            proof {
                lemma_filter_one(q, i as int, p);
            }
            if same(k.origin.as_str(), key.origin.as_str()) {
                r.push(k.duplicate());
            }
            i = i + 1;
        }
        assert(q.take(n as int) =~= q);
        r
    }

    /// Whether a port has a dependency edge that leads to another.
    fn needs(&self, info: &PortInfo, target: &PortKey) -> (r: bool)
        ensures
            r == exists|i: int|
                0 <= i < info@.deps.len() && self@.resolved((#[trigger] info@.deps[i]).target)
                    == Some(target@),
    {
        let mut i: usize = 0;
        while i < info.deps.len()
            invariant
                i <= info.deps@.len(),
                forall|j: int|
                    0 <= j < i ==> self@.resolved((#[trigger] info@.deps[j]).target) != Some(
                        target@,
                    ),
            decreases info.deps@.len() - i,
        {
            assert(info@.deps[i as int] == info.deps@[i as int]@);
            if let Some(t) = self.resolve(&info.deps[i].target) {
                if t.equals(target) {
                    return true;
                }
            }
            i = i + 1;
        }
        false
    }

    /// Direct dependents of `target` within the closure: ports with a dep edge
    /// resolving to it, in key order.
    pub fn dependents(&self, target: &PortKey) -> (r: Vec<PortKey>)
        ensures
            views(r@) == match self@.resolved(target@) {
                Some(t) => ordered::<PortKey>(self@.ports.dom()).filter(
                    |k: KeyView| depends(self@, k, t),
                ),
                None => Seq::empty(),
            },
    {
        broadcast use {crate::text::views_push, crate::text::views_empty};

        let mut r: Vec<PortKey> = Vec::new();
        let target = match self.resolve(target) {
            Some(t) => t,
            None => {
                return r;
            },
        };
        let n = self.ports.len();
        let ghost q = ordered::<PortKey>(self@.ports.dom());
        let ghost p = |k: KeyView| depends(self@, k, target@);
        proof {
            lemma_ordered::<PortKey>(self@.ports.dom());
            lemma_filter_none(q, p);
        }
        let mut i: usize = 0;
        while i < n
            invariant
                i <= n,
                n == q.len(),
                q == ordered::<PortKey>(self@.ports.dom()),
                p == (|k: KeyView| depends(self@, k, target@)),
                views(r@) == q.take(i as int).filter(p),
            decreases n - i,
        {
            let k = self.ports.key_at(i);
            let info = self.ports.value_at(i);
            proof {
                lemma_filter_one(q, i as int, p);
            }
            if self.needs(info, &target) {
                r.push(k.duplicate());
            }
            i = i + 1;
        }
        assert(q.take(n as int) =~= q);
        r
    }

    /// The ports that the roots reach.
    fn live_keys(&self) -> (r: SortedSet<PortKey>)
        ensures
            r@ == live(self@),
            r@.finite(),
    {
        let ghost v = self@;
        let ghost edge = dep_edge(v);
        let ghost roots = root_set(v);
        let ghost all = universe(v);
        let _ = self.ports.len();
        let _ = self.aliases.len();
        proof {
            lemma_universe(v);
            lemma_reach_set(edge, roots);
        }
        let mut reachable: SortedSet<PortKey> = SortedSet::new();
        let mut stack: Vec<PortKey> = Vec::new();
        let mut i: usize = 0;
        while i < self.roots.len()
            invariant
                i <= self.roots@.len(),
                v == self@,
                roots == root_set(v),
                forall|j: int|
                    0 <= j < stack@.len() ==> roots.contains((#[trigger] stack@[j])@),
                forall|j: int|
                    0 <= j < i && (v.resolved(#[trigger] v.roots[j])) is Some ==> waiting(
                        stack@,
                        v.resolved(v.roots[j])->0,
                    ),
            decreases self.roots@.len() - i,
        {
            assert(v.roots[i as int] == self.roots@[i as int]@);
            let ghost was = stack@;
            if let Some(k) = self.resolve(&self.roots[i]) {
                stack.push(k);
                proof {
                    assert(stack@[was.len() as int]@ == k@);
                    assert forall|x: KeyView| waiting(was, x) implies waiting(stack@, x) by {
                        let j = choose|j: int| 0 <= j < was.len() && (#[trigger] was[j])@ == x;
                        assert(stack@[j]@ == x);
                    }
                }
            }
            i = i + 1;
        }
        assert forall|k: KeyView| roots.contains(k) implies waiting(stack@, k) by {
            let j = choose|j: int|
                0 <= j < v.roots.len() && v.resolved(#[trigger] v.roots[j]) == Some(k);
            assert(v.resolved(v.roots[j]) is Some);
        }
        assert forall|j: int| 0 <= j < stack@.len() implies live(v).contains(
            (#[trigger] stack@[j])@,
        ) && all.contains(stack@[j]@) by {
            assert(roots.contains(stack@[j]@));
        }
        while stack.len() > 0
            invariant
                v == self@,
                edge == dep_edge(v),
                roots == root_set(v),
                all == universe(v),
                all.finite(),
                forall|k: KeyView|
                    (#[trigger] v.resolved(k)) is Some ==> all.contains(v.resolved(k)->0),
                closed_under(edge, live(v)),
                reachable@.finite(),
                reachable@.subset_of(all),
                reachable@.subset_of(live(v)),
                forall|j: int|
                    0 <= j < stack@.len() ==> live(v).contains((#[trigger] stack@[j])@)
                        && all.contains(stack@[j]@),
                forall|k: KeyView|
                    roots.contains(k) ==> reachable@.contains(k) || waiting(stack@, k),
                forall|a: KeyView, b: KeyView|
                    reachable@.contains(a) && #[trigger] edge(a, b) ==> reachable@.contains(b)
                        || waiting(stack@, b),
            ensures
                stack@.len() == 0,
            decreases all.len() - reachable@.len(), stack@.len(),
        {
            let ghost stack0 = stack@;
            let ghost top = stack0.len() - 1;
            let key = match stack.pop() {
                Some(k) => k,
                None => {
                    break ;
                },
            };
            proof {
                assert(stack0[top] == key);
                assert forall|x: KeyView| waiting(stack0, x) implies x == key@ || waiting(
                    stack@,
                    x,
                ) by {
                    let j = choose|j: int| 0 <= j < stack0.len() && (#[trigger] stack0[j])@ == x;
                    if j < top {
                        assert(stack@[j]@ == x);
                    }
                }
                vstd::set_lib::lemma_len_subset(reachable@, all);
            }
            let ghost before = reachable@;
            let k = key.duplicate();
            if !reachable.insert(k) {
                assert(before.insert(key@) =~= before);
                continue;
            }
            proof {
                vstd::set_lib::lemma_len_subset(reachable@, all);
            }
            if let Some(info) = self.ports.get(&key) {
                let mut i: usize = 0;
                while i < info.deps.len()
                    invariant
                        i <= info.deps@.len(),
                        v == self@,
                        edge == dep_edge(v),
                        roots == root_set(v),
                        all == universe(v),
                        forall|k: KeyView|
                            (#[trigger] v.resolved(k)) is Some ==> all.contains(v.resolved(k)->0),
                        closed_under(edge, live(v)),
                        v.ports.dom().contains(key@),
                        info@ == v.ports[key@],
                        live(v).contains(key@),
                        forall|j: int|
                            0 <= j < stack@.len() ==> live(v).contains((#[trigger] stack@[j])@)
                                && all.contains(stack@[j]@),
                        forall|k: KeyView|
                            roots.contains(k) ==> reachable@.contains(k) || waiting(stack@, k),
                        forall|a: KeyView, b: KeyView|
                            reachable@.contains(a) && a != key@ && #[trigger] edge(a, b)
                                ==> reachable@.contains(b) || waiting(stack@, b),
                        forall|j: int|
                            0 <= j < i && (v.resolved((#[trigger] info@.deps[j]).target)) is Some
                                ==> reachable@.contains(v.resolved(info@.deps[j].target)->0)
                                || waiting(stack@, v.resolved(info@.deps[j].target)->0),
                    decreases info.deps@.len() - i,
                {
                    assert(info@.deps[i as int] == info.deps@[i as int]@);
                    if let Some(target) = self.resolve(&info.deps[i].target) {
                        if !reachable.contains(&target) {
                            let ghost was = stack@;
                            proof {
                                assert(edge(key@, target@));
                            }
                            stack.push(target);
                            proof {
                                assert(stack@[was.len() as int]@ == target@);
                                assert forall|x: KeyView| waiting(was, x) implies waiting(
                                    stack@,
                                    x,
                                ) by {
                                    let j = choose|j: int|
                                        0 <= j < was.len() && (#[trigger] was[j])@ == x;
                                    assert(stack@[j]@ == x);
                                }
                            }
                        }
                    }
                    i = i + 1;
                }
                assert forall|b: KeyView| #[trigger] edge(key@, b) implies reachable@.contains(b)
                    || waiting(stack@, b) by {
                    let j = choose|j: int|
                        0 <= j < info@.deps.len() && v.resolved(
                            (#[trigger] info@.deps[j]).target,
                        ) == Some(b);
                    assert(v.resolved(info@.deps[j].target) is Some);
                }
            }
        }
        proof {
            assert(roots.subset_of(reachable@)) by {
                assert forall|k: KeyView| roots.contains(k) implies reachable@.contains(k) by {
                    assert(!waiting(stack@, k));
                }
            }
            assert(closed_under(edge, reachable@)) by {
                assert forall|a: KeyView, b: KeyView|
                    reachable@.contains(a) && #[trigger] edge(a, b) implies reachable@.contains(
                    b,
                ) by {
                    assert(!waiting(stack@, b));
                }
            }
            lemma_reach_set_is(edge, roots, reachable@);
        }
        reachable
    }

    /// Drops every port that is not in a set.
    fn keep_only(&mut self, keep: &SortedSet<PortKey>)
        ensures
            final(self)@ == (SessionView {
                ports: old(self)@.ports.restrict(keep@),
                ..old(self)@
            }),
    {
        let ghost v = self@;
        let keys = self.ports.key_list();
        let ghost q = ordered::<PortKey>(v.ports.dom());
        proof {
            lemma_ordered::<PortKey>(v.ports.dom());
            assert(v.ports.remove_keys(q.take(0).to_set().difference(keep@)) =~= v.ports);
        }
        let mut i: usize = 0;
        while i < keys.len()
            invariant
                i <= keys@.len(),
                views(keys@) == q,
                self@ == (SessionView {
                    ports: v.ports.remove_keys(q.take(i as int).to_set().difference(keep@)),
                    ..v
                }),
            decreases keys@.len() - i,
        {
            let k = &keys[i];
            proof {
                assert(q[i as int] == k@);
                lemma_take_set(q, i as int);
            }
            if !keep.contains(k) {
                self.ports.remove(k);
            }
            assert(self@.ports =~= v.ports.remove_keys(
                q.take(i + 1).to_set().difference(keep@),
            ));
            i = i + 1;
        }
        assert(q.take(keys@.len() as int) =~= q);
        assert(self@.ports =~= v.ports.restrict(keep@));
    }

    /// Merge a background re-scan into the closure: replace/add ports, create
    /// state for newcomers, then drop ports no longer reachable from the
    /// roots. Returns (added, removed) counts. Option states are never
    /// discarded, so a port that flip-flops out and back keeps its edits.
    pub fn merge(
        &mut self,
        result: &ScanResult,
        files: &SortedMap<String, SavedOptionsFile>,
    ) -> (r: (usize, usize))
        ensures
            final(self)@ == merged(old(self)@, result.ports@, result.aliases@, files@),
            ({
                let mid = joined_scan(old(self)@, result.ports@, result.aliases@, files@);
                &&& r.0 == result.ports@.dom().difference(old(self)@.ports.dom()).intersect(
                    live(mid),
                ).len()
                &&& r.1 == mid.ports.dom().difference(live(mid)).len()
            }),
    {
        let ghost v = self@;
        let ghost mid = joined_scan(v, result.ports@, result.aliases@, files@);
        self.aliases.extend_from(&result.aliases);
        let known = SortedSet::from_list(&self.ports.key_list());
        let scanned = SortedSet::from_list(&result.ports.key_list());
        proof {
            lemma_ordered::<PortKey>(v.ports.dom());
            lemma_ordered::<PortKey>(result.ports@.dom());
        }
        let newcomers = scanned.minus(&known);
        self.ports.extend_from(&result.ports);
        self.rebuild_owners();
        self.ensure_states(files);
        assert(self@ =~= mid);
        // Reachability GC from the roots.
        let reachable = self.live_keys();
        let before = self.ports.len();
        self.keep_only(&reachable);
        let after = self.ports.len();
        proof {
            let all = mid.ports.dom();
            assert(self@.ports.dom() =~= all.intersect(live(mid)));
            vstd::set_lib::lemma_set_difference_len(all, live(mid));
            vstd::set_lib::lemma_len_subset(all.intersect(live(mid)), all);
        }
        let removed: usize = before - after;
        let added = newcomers.common(&reachable).len();
        (added, removed)
    }
}

} // verus!
