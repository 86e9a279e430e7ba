//! IMPLIES: which options an enabled option turns on with it.
use vstd::prelude::*;

use crate::graph::{closed_under, lemma_closed_holds, lemma_reach_set, lemma_reach_set_is};
use crate::graph::{lemma_reaches_self, lemma_reaches_step, reach_set, reaches};
use crate::graph::reaches_on;
use crate::list::{first_where, lemma_first_where_is, lemma_first_where_none};
use crate::model::options::{OptionSet, OptionsView};
use crate::model::port::PortInfo;
use crate::sorted::{lemma_ordered, ordered, SortedSet};
use crate::text::{list_has, opt_view, same, views, Str};

verus! {

/// Whether an option names another among those it implies.
pub open spec fn names(o: OptionsView, a: Str, b: Str) -> bool {
    o.defs.dom().contains(a) && o.defs[a].implies.contains(b)
}

/// Whether enabling an option turns another on: implied options that the port
/// does not have are left out.
pub open spec fn turns_on(o: OptionsView) -> spec_fn(Str, Str) -> bool {
    |a: Str, b: Str| names(o, a, b) && o.complete.contains(b)
}

/// The steps of an IMPLIES chain, whether or not the port has the options.
pub open spec fn implying(o: OptionsView) -> spec_fn(Str, Str) -> bool {
    |a: Str, b: Str| names(o, a, b)
}

/// What is on once a set of options is on: the set and all it implies, directly
/// or through other options.
pub open spec fn closure(o: OptionsView, set: Set<Str>) -> Set<Str> {
    reach_set(turns_on(o), set)
}

/// Whether an option keeps another on.
pub open spec fn holds_on(o: OptionsView, opt: Str) -> spec_fn(Str) -> bool {
    |c: Str| c != opt && reaches_on(implying(o), c, opt)
}

/// The first enabled option, in order, that keeps an option on.
pub open spec fn implier(o: OptionsView, staged: Set<Str>, opt: Str) -> Option<Str> {
    first_where(ordered::<String>(staged), holds_on(o, opt))
}

/// Enabled options stay enabled in the closure, and the closure turns on
/// everything that its own options imply.
pub proof fn law_closure_closed(o: OptionsView, set: Set<Str>)
    ensures
        set.subset_of(closure(o, set)),
        closed_under(turns_on(o), closure(o, set)),
{
    lemma_reach_set(turns_on(o), set);
}

/// The closure is the least such set: nothing is turned on that some closed set
/// around the enabled options leaves off.
pub proof fn law_closure_least(o: OptionsView, set: Set<Str>, other: Set<Str>)
    requires
        set.subset_of(other),
        closed_under(turns_on(o), other),
    ensures
        closure(o, set).subset_of(other),
{
    assert forall|b: Str| closure(o, set).contains(b) implies other.contains(b) by {
        let a = choose|a: Str| set.contains(a) && #[trigger] reaches(turns_on(o), a, b);
        lemma_closed_holds(turns_on(o), other, a, b);
    }
}

/// Closing twice is closing once.
pub proof fn law_closure_idempotent(o: OptionsView, set: Set<Str>)
    ensures
        closure(o, closure(o, set)) == closure(o, set),
{
    let c = closure(o, set);
    law_closure_closed(o, set);
    law_closure_closed(o, c);
    law_closure_least(o, c, c);
    assert(closure(o, c) =~= c);
}

/// Enabling more never turns anything off.
pub proof fn law_closure_monotone(o: OptionsView, a: Set<Str>, b: Set<Str>)
    requires
        a.subset_of(b),
    ensures
        closure(o, a).subset_of(closure(o, b)),
{
    law_closure_closed(o, b);
    law_closure_least(o, a, closure(o, b));
}

/// The closure adds only options that the port has.
pub proof fn law_closure_known(o: OptionsView, set: Set<Str>)
    ensures
        closure(o, set).subset_of(set.union(o.complete.to_set())),
{
    let all = set.union(o.complete.to_set());
    assert(closed_under(turns_on(o), all));
    law_closure_least(o, set, all);
}

/// Transitive IMPLIES closure of an enabled set, restricted to the port's
/// known options (mirrors bsd.options.mk, which force-adds implied options).
pub fn close_implies(info: &PortInfo, enabled: OptionSet) -> (r: OptionSet)
    ensures
        r@ == closure(info@.options, enabled@),
{
    let ghost start = enabled@;
    let mut set = enabled;
    let _ = set.len();
    let ghost o = info@.options;
    let ghost edge = turns_on(o);
    let ghost all = start.union(o.complete.to_set());
    proof {
        lemma_reach_set(edge, start);
    }
    loop
        invariant
            start == enabled@,
            edge == turns_on(o),
            o == info@.options,
            all == start.union(o.complete.to_set()),
            all.finite(),
            start.subset_of(set@),
            set@.subset_of(all),
            forall|b: Str| #[trigger] set@.contains(b) ==> closure(o, start).contains(b),
        decreases all.len() - set@.len(),
    {
        let snap = set.to_list();
        let ghost was = set@;
        let ghost q = ordered::<String>(was);
        let mut added = false;
        let mut i: usize = 0;
        proof {
            lemma_ordered::<String>(was);
        }
        while i < snap.len()
            invariant
                i <= snap@.len(),
                edge == turns_on(o),
                o == info@.options,
                all == start.union(o.complete.to_set()),
                all.finite(),
                was.finite(),
                views(snap@) == q,
                q == ordered::<String>(was),
                q.to_set() == was,
                start.subset_of(was),
                was.subset_of(set@),
                set@.subset_of(all),
                forall|b: Str| #[trigger] set@.contains(b) ==> closure(o, start).contains(b),
                !added ==> set@ == was,
                added ==> set@.len() > was.len(),
                forall|j: int, b: Str|
                    0 <= j < i && #[trigger] edge(q[j], b) ==> set@.contains(b),
            decreases snap@.len() - i,
        {
            let opt = &snap[i];
            assert(q[i as int] == opt@);
            assert(q.to_set().contains(opt@)) by {
                assert(q.contains(q[i as int]));
            }
            match info.options.defs.get(opt) {
                Some(def) => {
                    let ghost imps = views(def.implies@);
                    assert(imps == o.defs[opt@].implies);
                    let mut j: usize = 0;
                    while j < def.implies.len()
                        invariant
                            j <= def.implies@.len(),
                            i < snap@.len(),
                            imps == views(def.implies@),
                            o.defs.dom().contains(opt@),
                            imps == o.defs[opt@].implies,
                            edge == turns_on(o),
                            o == info@.options,
                            all == start.union(o.complete.to_set()),
                            all.finite(),
                            was.finite(),
                            q[i as int] == opt@,
                            was.contains(opt@),
                            start.subset_of(was),
                            was.subset_of(set@),
                            set@.subset_of(all),
                            forall|b: Str| #[trigger]
                                set@.contains(b) ==> closure(o, start).contains(b),
                            !added ==> set@ == was,
                            added ==> set@.len() > was.len(),
                            forall|k: int, b: Str|
                                0 <= k < i && #[trigger] edge(q[k], b) ==> set@.contains(b),
                            forall|k: int|
                                0 <= k < j && o.complete.contains(#[trigger] imps[k])
                                    ==> set@.contains(imps[k]),
                        decreases def.implies@.len() - j,
                    {
                        let imp = &def.implies[j];
                        assert(imps[j as int] == imp@);
                        let ghost before = set@;
                        if list_has(&info.options.complete, imp.as_str()) {
                            proof {
                                assert(edge(opt@, imp@));
                                assert(closure(o, start).contains(opt@));
                                lemma_reach_set(edge, start);
                                assert(closure(o, start).contains(imp@));
                                assert(o.complete.to_set().contains(imp@));
                            }
                            let _ = set.len();
                            let fresh = set.insert(imp.clone());
                            if fresh {
                                proof {
                                    vstd::set_lib::lemma_len_subset(was, before);
                                }
                                added = true;
                            } else {
                                assert(before.insert(imp@) =~= before);
                            }
                        }
                        j = j + 1;
                    }
                    assert forall|b: Str| #[trigger] edge(q[i as int], b) implies set@.contains(
                        b,
                    ) by {
                        let k = choose|k: int| 0 <= k < imps.len() && imps[k] == b;
                        assert(o.complete.contains(imps[k]));
                    }
                },
                None => {},
            }
            i = i + 1;
        }
        if !added {
            proof {
                assert(closed_under(edge, set@)) by {
                    assert forall|a: Str, b: Str| set@.contains(a) && #[trigger] edge(
                        a,
                        b,
                    ) implies set@.contains(b) by {
                        assert(q.contains(a));
                        let j = choose|j: int| 0 <= j < q.len() && q[j] == a;
                        assert(edge(q[j], b));
                    }
                }
                lemma_reach_set_is(edge, start, set@);
            }
            return set;
        }
        let _ = set.len();
        proof {
            vstd::set_lib::lemma_len_subset(set@, all);
        }
    }
}

/// Whether an IMPLIES chain of at least one step leads from one option to
/// another.
fn leads_on(info: &PortInfo, from: &str, opt: &str) -> (r: bool)
    ensures
        r == reaches_on(implying(info@.options), from@, opt@),
{
    let ghost o = info@.options;
    let ghost edge = implying(o);
    let start = crate::text::owned(from);
    // What has been reached, and the part of it whose own steps are still to
    // be followed.
    let mut seen: OptionSet = SortedSet::new();
    let mut stack: Vec<String> = Vec::new();
    stack.push(start);
    assert(pending(stack@, from@)) by {
        assert(stack@[0]@ == from@);
    }
    let _ = info.options.defs.len();
    let ghost keys = ordered::<String>(o.defs.dom());
    let ghost all = gather(o, keys);
    proof {
        lemma_ordered::<String>(o.defs.dom());
        lemma_gather(o, keys);
        assert forall|a: Str, b: Str| #[trigger] edge(a, b) implies all.contains(b) by {
            assert(keys.contains(a));
        }
    }
    while stack.len() > 0
        invariant
            o == info@.options,
            edge == implying(o),
            all.finite(),
            forall|a: Str, b: Str| #[trigger] edge(a, b) ==> all.contains(b),
            seen@.subset_of(all),
            !seen@.contains(opt@),
            seen@.finite(),
            forall|i: int|
                0 <= i < stack@.len() ==> (#[trigger] stack@[i])@ == from@ || seen@.contains(
                    stack@[i]@,
                ),
            forall|a: Str| #[trigger] seen@.contains(a) ==> reaches_on(edge, from@, a),
            forall|a: Str, b: Str|
                (a == from@ || seen@.contains(a)) && #[trigger] edge(a, b) ==> seen@.contains(b)
                    || pending(stack@, a),
        decreases all.len() - seen@.len(), stack@.len(),
    {
        let ghost stack0 = stack@;
        let cur = match stack.pop() {
            Some(c) => c,
            None => crate::text::owned(""),
        };
        let ghost top = stack0.len() - 1;
        proof {
            assert(stack0[top] == cur);
            assert forall|a: Str| pending(stack0, a) implies a == cur@ || pending(stack@, a) by {
                let k = choose|k: int| 0 <= k < stack0.len() && (#[trigger] stack0[k])@ == a;
                if k < top {
                    assert(stack@[k]@ == a);
                }
            }
        }
        let ghost seen0 = seen@;
        if let Some(def) = info.options.defs.get(&cur) {
            let ghost imps = views(def.implies@);
            assert(imps == o.defs[cur@].implies);
            let mut j: usize = 0;
            while j < def.implies.len()
                invariant
                    j <= def.implies@.len(),
                    o == info@.options,
                    edge == implying(o),
                    imps == views(def.implies@),
                    o.defs.dom().contains(cur@),
                    imps == o.defs[cur@].implies,
                    all.finite(),
                    forall|a: Str, b: Str| #[trigger] edge(a, b) ==> all.contains(b),
                    seen@.subset_of(all),
                    seen@.finite(),
                    seen0.finite(),
                    seen0.subset_of(seen@),
                    stack@.len() + 1 == stack0.len() || seen@.len() > seen0.len(),
                    seen@.len() >= seen0.len(),
                    stack0.len() > 0,
                    seen@ == seen0 ==> stack@.len() < stack0.len(),
                    !seen@.contains(opt@),
                    cur@ == from@ || seen@.contains(cur@),
                    forall|i: int|
                        0 <= i < stack@.len() ==> (#[trigger] stack@[i])@ == from@
                            || seen@.contains(stack@[i]@),
                    forall|a: Str| #[trigger] seen@.contains(a) ==> reaches_on(edge, from@, a),
                    forall|a: Str, b: Str|
                        (a == from@ || seen@.contains(a)) && a != cur@ && #[trigger] edge(a, b)
                            ==> seen@.contains(b) || pending(stack@, a),
                    forall|k: int| 0 <= k < j ==> seen@.contains(#[trigger] imps[k]),
                decreases def.implies@.len() - j,
            {
                let imp = &def.implies[j];
                proof {
                    assert(imps[j as int] == imp@);
                    assert(edge(cur@, imp@));
                    lemma_on_step(edge, from@, cur@, imp@);
                }
                if same(imp.as_str(), opt) {
                    return true;
                }
                let ghost before = seen@;
                let ghost stack1 = stack@;
                let _ = seen.len();
                if seen.insert(imp.clone()) {
                    stack.push(imp.clone());
                    proof {
                        assert(stack@[stack1.len() as int]@ == imp@);
                        assert(pending(stack@, imp@));
                        assert forall|a: Str| pending(stack1, a) implies pending(stack@, a) by {
                            let k = choose|k: int|
                                0 <= k < stack1.len() && (#[trigger] stack1[k])@ == a;
                            assert(stack@[k]@ == a);
                        }
                        vstd::set_lib::lemma_len_subset(seen0, before);
                    }
                } else {
                    assert(before.insert(imp@) =~= before);
                }
                j = j + 1;
            }
            assert forall|b: Str| #[trigger] edge(cur@, b) implies seen@.contains(b) by {
                let k = choose|k: int| 0 <= k < imps.len() && imps[k] == b;
                assert(seen@.contains(imps[k]));
            }
        }
        proof {
            vstd::set_lib::lemma_len_subset(seen@, all);
            assert forall|a: Str, b: Str|
                (a == from@ || seen@.contains(a)) && #[trigger] edge(a, b) implies seen@.contains(b)
                || pending(stack@, a) by {
                if a == cur@ {
                    assert(seen@.contains(b));
                }
            }
        }
    }
    proof {
        if reaches_on(edge, from@, opt@) {
            let m = choose|m: Str| #[trigger] edge(from@, m) && reaches(edge, m, opt@);
            assert(!pending(stack@, from@));
            assert(seen@.contains(m));
            assert(closed_under(edge, seen@)) by {
                assert forall|a: Str, b: Str| seen@.contains(a) && #[trigger] edge(
                    a,
                    b,
                ) implies seen@.contains(b) by {
                    assert(!pending(stack@, a));
                }
            }
            lemma_closed_holds(edge, seen@, m, opt@);
        }
    }
    false
}

/// What the options in a sequence name among those they imply.
spec fn gather(o: OptionsView, keys: Seq<Str>) -> Set<Str>
    decreases keys.len(),
{
    if keys.len() == 0 {
        Set::empty()
    } else {
        gather(o, keys.drop_last()).union(o.defs[keys.last()].implies.to_set())
    }
}

proof fn lemma_gather(o: OptionsView, keys: Seq<Str>)
    ensures
        gather(o, keys).finite(),
        forall|a: Str, b: Str|
            keys.contains(a) && #[trigger] o.defs[a].implies.contains(b) ==> gather(
                o,
                keys,
            ).contains(b),
    decreases keys.len(),
{
    if keys.len() > 0 {
        let d = keys.drop_last();
        lemma_gather(o, d);
        assert forall|a: Str, b: Str|
            keys.contains(a) && #[trigger] o.defs[a].implies.contains(b) implies gather(
            o,
            keys,
        ).contains(b) by {
            let i = choose|i: int| 0 <= i < keys.len() && keys[i] == a;
            if i < d.len() {
                assert(d[i] == a);
                assert(d.contains(a));
            } else {
                assert(o.defs[keys.last()].implies.to_set().contains(b));
            }
        }
    }
}

/// Whether an option waits on a stack.
spec fn pending(stack: Seq<String>, a: Str) -> bool {
    exists|i: int| 0 <= i < stack.len() && (#[trigger] stack[i])@ == a
}

proof fn lemma_on_step(edge: spec_fn(Str, Str) -> bool, a: Str, b: Str, c: Str)
    requires
        a == b || reaches_on(edge, a, b),
        edge(b, c),
    ensures
        reaches_on(edge, a, c),
{
    if a == b {
        lemma_reaches_self(edge, c);
    } else {
        let m = choose|m: Str| #[trigger] edge(a, m) && reaches(edge, m, b);
        lemma_reaches_step(edge, m, b, c);
    }
}

/// Find an enabled option (other than `opt`) whose IMPLIES closure contains `opt`.
pub fn implier_of(info: &PortInfo, staged: &OptionSet, opt: &str) -> (r: Option<String>)
    ensures
        opt_view(r) == implier(info@.options, staged@, opt@),
{
    let n = staged.len();
    let ghost o = info@.options;
    let ghost q = ordered::<String>(staged@);
    let ghost p = holds_on(o, opt@);
    let mut i: usize = 0;
    while i < n
        invariant
            i <= n,
            n == q.len(),
            q == ordered::<String>(staged@),
            o == info@.options,
            p == holds_on(o, opt@),
            forall|j: int| 0 <= j < i ==> !p(#[trigger] q[j]),
        decreases n - i,
    {
        let candidate = staged.at(i);
        if !same(candidate.as_str(), opt) && leads_on(info, candidate.as_str(), opt) {
            proof {
                lemma_first_where_is(q, p, i as int);
            }
            return Some(candidate.clone());
        }
        i = i + 1;
    }
    proof {
        lemma_first_where_none(q, p);
    }
    None
}

} // verus!
