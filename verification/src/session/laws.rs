//! What editing and judging come to, in terms of what a port and its options
//! file hold.
use vstd::prelude::*;

use crate::apply::{shares, synced};
use crate::draft::drafted;
use crate::graph::{lemma_closed_holds, lemma_reach_set, reaches, reaches_on, walks};
use crate::list::{lemma_count, lemma_filter_holds, lemma_first_where, lemma_first_where_is};
use crate::list::{first_where, law_count, lemma_first_where_none, lookup};
use crate::model::options::{GroupKind, GroupView, OptionsView};
use crate::model::origin::{KeyView, PortKey};
use crate::model::port::InfoView;
use crate::optionsfile::SavedView;
use crate::session::base::{bare, fresh_state, law_owner, resolve_all, started, SessionView};
use crate::session::base::StateView;
use crate::session::edit::{bulk, defaults_of, edited, exclusive_group_of, flipped, group_of};
use crate::session::edit::{has_member, is_dirty, members_on, restaged, restored, switched_on};
use crate::session::edit::{draft_changes, reloaded, reloaded_state, toggled};
use crate::session::implies::{closure, holds_on, implier, implying, law_closure_closed};
use crate::session::implies::{law_closure_least, turns_on};
use crate::session::layers::{group_settles, is_open, layered, nofile, selected, settled};
use crate::session::layers::undecided;
use crate::session::reach::{dep_edge, depends, joined_scan, live, merged, root_set};
use crate::session::status::{breaches, group_breach, mc_deviates_of, prevents_due};
use crate::session::status::{prevents_text, status_of, violations_of, UiStatus};
use crate::session::why::{finds, law_chain_shortest};
use crate::sorted::{lemma_ordered, ordered};
use crate::text::{decimal, Str};

verus! {

// ---------------------------------------------------------------------
// Toggling
// ---------------------------------------------------------------------

/// Turning an option on leaves every other enabled option on, unless a SINGLE
/// or RADIO group holds both.
pub proof fn law_toggle_keeps_others(o: OptionsView, staged: Set<Str>, opt: Str, x: Str)
    requires
        !staged.contains(opt),
        staged.contains(x),
        forall|i: int|
            0 <= i < o.groups.len() && ((#[trigger] o.groups[i]).kind == GroupKind::Single
                || o.groups[i].kind == GroupKind::Radio) && o.groups[i].members.contains(opt)
                ==> !o.groups[i].members.contains(x),
    ensures
        flipped(o, staged, opt) matches Ok(after) ==> after.contains(x),
{
    let p = has_member(opt, true);
    lemma_first_where(o.groups, p);
    if let Some(g) = exclusive_group_of(o, opt) {
        let i = choose|i: int| 0 <= i < o.groups.len() && o.groups[i] == g;
        assert(!o.groups[i].members.contains(x));
        assert(!g.members.to_set().contains(x));
    }
    law_closure_closed(o, switched_on(o, staged, opt));
}

/// What turning an option on comes to. The other members of the first SINGLE or
/// RADIO group that holds it go off; `gone` is empty where there is no such
/// group. Everything else that was on stays on, whatever an enabled option
/// implies and the port has is on, and nothing else is: any set `other` that
/// has all this has the result.
pub proof fn law_toggle_on(
    o: OptionsView,
    staged: Set<Str>,
    opt: Str,
    gone: Seq<Str>,
    other: Set<Str>,
)
    requires
        !staged.contains(opt),
        (exists|i: int|
            0 <= i < o.groups.len() && ((#[trigger] o.groups[i]).kind == GroupKind::Single
                || o.groups[i].kind == GroupKind::Radio) && o.groups[i].members.contains(opt)
                && gone == o.groups[i].members && forall|j: int|
                0 <= j < i ==> (#[trigger] o.groups[j]).kind == GroupKind::Group
                    || o.groups[j].kind == GroupKind::Multi || !o.groups[j].members.contains(opt))
            || (gone.len() == 0 && forall|i: int|
            0 <= i < o.groups.len() ==> (#[trigger] o.groups[i]).kind == GroupKind::Group
                || o.groups[i].kind == GroupKind::Multi || !o.groups[i].members.contains(opt)),
    ensures
        flipped(o, staged, opt) matches Ok(after) ==> {
            &&& after.contains(opt)
            &&& forall|x: Str| #[trigger]
                staged.contains(x) && !gone.contains(x) ==> after.contains(x)
            &&& forall|a: Str, b: Str|
                after.contains(a) && o.defs.dom().contains(a)
                    && #[trigger] o.defs[a].implies.contains(b) && o.complete.contains(b)
                    ==> after.contains(b)
            &&& other.contains(opt) && (forall|x: Str| #[trigger]
                staged.contains(x) && !gone.contains(x) ==> other.contains(x)) && (forall|
                a: Str,
                b: Str,
            |
                other.contains(a) && o.defs.dom().contains(a)
                    && #[trigger] o.defs[a].implies.contains(b) && o.complete.contains(b)
                    ==> other.contains(b)) ==> after.subset_of(other)
        },
{
    let p = has_member(opt, true);
    if exists|i: int|
        0 <= i < o.groups.len() && ((#[trigger] o.groups[i]).kind == GroupKind::Single
            || o.groups[i].kind == GroupKind::Radio) && o.groups[i].members.contains(opt) && gone
            == o.groups[i].members && forall|j: int|
            0 <= j < i ==> (#[trigger] o.groups[j]).kind == GroupKind::Group || o.groups[j].kind
                == GroupKind::Multi || !o.groups[j].members.contains(opt) {
        let i = choose|i: int|
            0 <= i < o.groups.len() && ((#[trigger] o.groups[i]).kind == GroupKind::Single
                || o.groups[i].kind == GroupKind::Radio) && o.groups[i].members.contains(opt)
                && gone == o.groups[i].members && forall|j: int|
                0 <= j < i ==> (#[trigger] o.groups[j]).kind == GroupKind::Group
                    || o.groups[j].kind == GroupKind::Multi || !o.groups[j].members.contains(opt);
        lemma_first_where_is(o.groups, p, i);
        assert(forall|x: Str| gone.to_set().contains(x) <==> gone.contains(x));
    } else {
        lemma_first_where_none(o.groups, p);
    }
    let base = switched_on(o, staged, opt);
    law_closure_closed(o, base);
    if let Ok(after) = flipped(o, staged, opt) {
        assert forall|a: Str, b: Str|
            after.contains(a) && o.defs.dom().contains(a)
                && #[trigger] o.defs[a].implies.contains(b) && o.complete.contains(
                b,
            ) implies after.contains(b) by {
            assert(turns_on(o)(a, b));
        }
        if other.contains(opt) && (forall|x: Str| #[trigger]
            staged.contains(x) && !gone.contains(x) ==> other.contains(x)) && (forall|
            a: Str,
            b: Str,
        |
            other.contains(a) && o.defs.dom().contains(a)
                && #[trigger] o.defs[a].implies.contains(b) && o.complete.contains(b)
                ==> other.contains(b)) {
            assert forall|a: Str, b: Str| other.contains(a) && #[trigger] turns_on(o)(
                a,
                b,
            ) implies other.contains(b) by {
                assert(o.defs[a].implies.contains(b));
            }
            law_closure_least(o, base, other);
        }
    }
}

/// Turning an option off turns off just that one.
pub proof fn law_toggle_off(o: OptionsView, staged: Set<Str>, opt: Str, x: Str)
    requires
        staged.contains(opt),
    ensures
        flipped(o, staged, opt) matches Ok(after) ==> (after.contains(x) <==> staged.contains(x)
            && x != opt),
{
}

/// An option that a FORCE knob names cannot be toggled, on or off, whichever of
/// the four knobs it is; one that is off and not forced can always be turned on.
pub proof fn law_toggle_forced(o: OptionsView, staged: Set<Str>, opt: Str)
    ensures
        o.force_set.contains(opt) || o.force_unset.contains(opt) || o.port_force_set.contains(opt)
            || o.port_force_unset.contains(opt) ==> flipped(o, staged, opt) is Err,
        !staged.contains(opt) && !o.force_set.contains(opt) && !o.force_unset.contains(opt)
            && !o.port_force_set.contains(opt) && !o.port_force_unset.contains(opt) ==> flipped(
            o,
            staged,
            opt,
        ) is Ok,
{
}

/// An option that an enabled one implies, directly or through others, cannot be
/// turned off.
pub proof fn law_toggle_implied(o: OptionsView, staged: Set<Str>, opt: Str, chain: Seq<Str>)
    requires
        staged.finite(),
        staged.contains(opt),
        chain.len() > 1,
        staged.contains(chain[0]),
        chain[0] != opt,
        chain.last() == opt,
        forall|i: int|
            0 <= i < chain.len() - 1 ==> o.defs.dom().contains(#[trigger] chain[i])
                && o.defs[chain[i]].implies.contains(chain[i + 1]),
    ensures
        flipped(o, staged, opt) is Err,
{
    let q = ordered::<String>(staged);
    lemma_ordered::<String>(staged);
    let edge = implying(o);
    let rest = chain.skip(1);
    assert forall|i: int| 0 <= i < rest.len() - 1 implies edge(#[trigger] rest[i], rest[i + 1]) by {
        assert(rest[i] == chain[i + 1] && rest[i + 1] == chain[i + 1 + 1]);
    }
    assert(o.defs[chain[0]].implies.contains(chain[0int + 1]));
    assert(edge(chain[0], chain[1]));
    assert(walks(edge, rest, chain[1], opt));
    assert(reaches(edge, chain[1], opt));
    let p = holds_on(o, opt);
    assert(reaches_on(edge, chain[0], opt));
    assert(p(chain[0]));
    lemma_first_where(q, p);
    assert(q.contains(chain[0]));
    let i = choose|i: int| 0 <= i < q.len() && q[i] == chain[0];
    assert(p(q[i]));
}

/// The last enabled member of a SINGLE or MULTI group cannot be turned off.
pub proof fn law_toggle_last_member(o: OptionsView, staged: Set<Str>, opt: Str, i: int, n: int)
    requires
        staged.contains(opt),
        0 <= i < o.groups.len(),
        o.groups[i].kind == GroupKind::Single || o.groups[i].kind == GroupKind::Multi,
        forall|j: int| 0 <= j < i ==> !(#[trigger] o.groups[j]).members.contains(opt),
        0 <= n < o.groups[i].members.len(),
        o.groups[i].members[n] == opt,
        forall|m: int|
            0 <= m < o.groups[i].members.len() && m != n ==> !staged.contains(
                #[trigger] o.groups[i].members[m],
            ),
    ensures
        flipped(o, staged, opt) is Err,
{
    let g = o.groups[i];
    let p = |m: Str| staged.contains(m);
    lemma_first_where_is(o.groups, has_member(opt, false), i);
    lemma_count(g.members, p);
    assert(p(g.members[n]));
}

/// Nothing else keeps an option on: turning it off is refused only where a FORCE
/// knob names it, an enabled option implies it, or it is the last enabled member
/// of the first group that holds it, a SINGLE or a MULTI one.
pub proof fn law_toggle_off_refused(o: OptionsView, staged: Set<Str>, opt: Str)
    requires
        staged.finite(),
        staged.contains(opt),
        flipped(o, staged, opt) is Err,
    ensures
        o.force_set.contains(opt) || o.force_unset.contains(opt) || o.port_force_set.contains(opt)
            || o.port_force_unset.contains(opt) || (exists|chain: Seq<Str>|
            #![trigger chain.len()]
            chain.len() > 1 && staged.contains(chain[0]) && chain[0] != opt && chain.last() == opt
                && forall|i: int|
                0 <= i < chain.len() - 1 ==> o.defs.dom().contains(#[trigger] chain[i])
                    && o.defs[chain[i]].implies.contains(chain[i + 1])) || (exists|i: int|
            0 <= i < o.groups.len() && (#[trigger] o.groups[i]).members.contains(opt) && (
            o.groups[i].kind == GroupKind::Single || o.groups[i].kind == GroupKind::Multi)
                && forall|m: int, n: int|
                0 <= m < n < o.groups[i].members.len() ==> !(staged.contains(
                    #[trigger] o.groups[i].members[m],
                ) && staged.contains(#[trigger] o.groups[i].members[n]))),
{
    let q = ordered::<String>(staged);
    lemma_ordered::<String>(staged);
    let p = holds_on(o, opt);
    let edge = implying(o);
    lemma_first_where(q, p);
    if o.forced(opt) is None {
        match implier(o, staged, opt) {
            Some(by) => {
                let m = choose|m: Str| #[trigger] edge(by, m) && reaches(edge, m, opt);
                let w = choose|w: Seq<Str>| #[trigger] walks(edge, w, m, opt);
                let chain = seq![by] + w;
                assert forall|i: int| 0 <= i < chain.len() - 1 implies o.defs.dom().contains(
                    #[trigger] chain[i],
                ) && o.defs[chain[i]].implies.contains(chain[i + 1]) by {
                    if i == 0 {
                        assert(edge(by, m));
                    } else {
                        assert(edge(w[i - 1], w[i - 1 + 1]));
                    }
                }
                assert(staged.contains(chain[0]) && chain.len() > 1 && chain.last() == opt);
            },
            None => {
                lemma_first_where(o.groups, has_member(opt, false));
                let g = group_of(o, opt)->0;
                let i = choose|i: int| 0 <= i < o.groups.len() && o.groups[i] == g;
                let on = |m: Str| staged.contains(m);
                lemma_count(g.members, on);
                assert forall|m: int, n: int| 0 <= m < n < g.members.len() implies !(
                staged.contains(#[trigger] g.members[m]) && staged.contains(
                    #[trigger] g.members[n],
                )) by {
                    if on(g.members[m]) && on(g.members[n]) {
                        assert(false);
                    }
                }
                assert(o.groups[i].members.contains(opt));
            },
        }
    }
}

/// A toggle touches the staged set of one options file and nothing else; one
/// that is refused touches nothing.
pub proof fn law_toggle_touches_one(v: SessionView, key: KeyView, opt: Str, name: Str)
    ensures
        ({
            let (w, r) = toggled(v, key, opt);
            &&& w.ports == v.ports && w.aliases == v.aliases && w.roots == v.roots && w.owners
                == v.owners && w.minimal == v.minimal
            &&& w.states.dom() == v.states.dom()
            &&& !v.ports.dom().contains(key) ==> r is Err
            &&& v.ports.dom().contains(key) && !v.states.dom().contains(
                v.ports[key].options_name,
            ) ==> r is Err
            &&& r is Err ==> w == v
            &&& r is Ok ==> v.ports.dom().contains(key) && v.states.dom().contains(
                v.ports[key].options_name,
            )
            &&& v.states.dom().contains(name) && (r is Err || name != v.ports[key].options_name)
                ==> w.states[name] == v.states[name]
            &&& v.states.dom().contains(name) ==> w.states[name].saved == v.states[name].saved
                && w.states[name].baseline == v.states[name].baseline
            &&& r is Ok && name == v.ports[key].options_name ==> flipped(
                v.ports[key].options,
                v.states[name].staged,
                opt,
            ) == Ok::<Set<Str>, Str>(w.states[name].staged)
        }),
{
    assert(toggled(v, key, opt).0.states.dom() =~= v.states.dom());
}

// ---------------------------------------------------------------------
// Without an options file
// ---------------------------------------------------------------------

/// How the layers below the options file decide an option that the port has. A
/// FORCE knob decides before all others, a per-port one before a global one and
/// an UNSET before a SET of the same scope; then the other knobs likewise; then
/// the default. What is decided as on is on without a file.
pub proof fn law_layers_on(o: OptionsView, opt: Str)
    requires
        o.complete.contains(opt),
        o.port_force_set.contains(opt) && !o.port_force_unset.contains(opt) || (
        !o.port_force_set.contains(opt) && !o.port_force_unset.contains(opt) && (
        o.force_set.contains(opt) && !o.force_unset.contains(opt) || (!o.force_set.contains(opt)
            && !o.force_unset.contains(opt) && (o.port_set.contains(opt) && !o.port_unset.contains(
            opt,
        ) || (!o.port_set.contains(opt) && !o.port_unset.contains(opt) && (o.mc_set.contains(opt)
            && !o.mc_unset.contains(opt) || (!o.mc_set.contains(opt) && !o.mc_unset.contains(opt)
            && o.defaults.contains(opt)))))))),
    ensures
        nofile(o).contains(opt),
{
    law_closure_closed(o, Set::new(|x: Str| layered(o, x)));
}

/// An option that no enabled one implies is off without a file where the port
/// does not have it, where the last knob that names it is an UNSET, and where no
/// knob names it and it is off by default.
pub proof fn law_layers_off(o: OptionsView, opt: Str)
    requires
        forall|a: Str|
            nofile(o).contains(a) && o.defs.dom().contains(a)
                ==> !(#[trigger] o.defs[a]).implies.contains(opt),
        !o.complete.contains(opt) || o.port_force_unset.contains(opt) || (
        !o.port_force_set.contains(opt) && (o.force_unset.contains(opt) || (!o.force_set.contains(
            opt,
        ) && (o.port_unset.contains(opt) || (!o.port_set.contains(opt) && (o.mc_unset.contains(opt)
            || (!o.mc_set.contains(opt) && !o.defaults.contains(opt)))))))),
    ensures
        !nofile(o).contains(opt),
{
    let base = Set::new(|x: Str| layered(o, x));
    law_closure_closed(o, base);
    let less = nofile(o).remove(opt);
    assert forall|a: Str, b: Str| less.contains(a) && #[trigger] turns_on(o)(
        a,
        b,
    ) implies less.contains(b) by {
        assert(nofile(o).contains(a));
        assert(!o.defs[a].implies.contains(opt));
    }
    assert(!base.contains(opt));
    law_closure_least(o, base, less);
}

/// Whatever is on without a file brings along what it implies, as far as the
/// port has it.
pub proof fn law_layers_imply(o: OptionsView, a: Str, b: Str)
    requires
        nofile(o).contains(a),
        o.defs.dom().contains(a),
        o.defs[a].implies.contains(b),
        o.complete.contains(b),
    ensures
        nofile(o).contains(b),
{
    law_closure_closed(o, Set::new(|x: Str| layered(o, x)));
    assert(turns_on(o)(a, b));
}

// ---------------------------------------------------------------------
// Judging
// ---------------------------------------------------------------------

/// Whether a group's constraint is broken, by the members that are on: a SINGLE
/// group needs exactly one, a MULTI group at least one, a RADIO group allows at
/// most one, a plain group anything. Two indices stand for two members.
proof fn lemma_group_breach(g: GroupView, staged: Set<Str>)
    ensures
        group_breach(g, staged) is Some <==> match g.kind {
            GroupKind::Single => (forall|i: int|
                0 <= i < g.members.len() ==> !staged.contains(#[trigger] g.members[i])) || (exists|
                i: int,
                j: int,
            |
                0 <= i < j < g.members.len() && staged.contains(#[trigger] g.members[i])
                    && staged.contains(#[trigger] g.members[j])),
            GroupKind::Multi => forall|i: int|
                0 <= i < g.members.len() ==> !staged.contains(#[trigger] g.members[i]),
            GroupKind::Radio => exists|i: int, j: int|
                0 <= i < j < g.members.len() && staged.contains(#[trigger] g.members[i])
                    && staged.contains(#[trigger] g.members[j]),
            GroupKind::Group => false,
        },
{
    let p = |m: Str| staged.contains(m);
    lemma_count(g.members, p);
    if members_on(g, staged) == 0 {
        assert forall|i: int| 0 <= i < g.members.len() implies !staged.contains(
            #[trigger] g.members[i],
        ) by {
            assert(!p(g.members[i]));
        }
    } else {
        let i = choose|i: int| 0 <= i < g.members.len() && p(#[trigger] g.members[i]);
        assert(staged.contains(g.members[i]));
    }
    if exists|i: int, j: int|
        0 <= i < j < g.members.len() && staged.contains(#[trigger] g.members[i])
            && staged.contains(#[trigger] g.members[j]) {
        let (i, j) = choose|i: int, j: int|
            0 <= i < j < g.members.len() && staged.contains(#[trigger] g.members[i])
                && staged.contains(#[trigger] g.members[j]);
        assert(p(g.members[i]) && p(g.members[j]));
    }
    if members_on(g, staged) > 1 {
        let (i, j) = choose|i: int, j: int|
            0 <= i < j < g.members.len() && p(#[trigger] g.members[i]) && p(
                #[trigger] g.members[j],
            );
        assert(staged.contains(g.members[i]) && staged.contains(g.members[j]));
    }
}

/// A port is in conflict exactly where a group's constraint is broken or two
/// enabled options exclude each other: a SINGLE group that has no member on or
/// more than one, a MULTI group that has none, a RADIO group that has more than
/// one, or an enabled option that PREVENTS an enabled one.
pub proof fn law_conflicts(o: OptionsView, staged: Set<Str>)
    ensures
        breaches(o, staged) == Set::<Str>::empty() <==> {
            &&& forall|a: Str, j: int|
                staged.contains(a) && o.defs.dom().contains(a) && 0 <= j
                    < o.defs[a].prevents.len() ==> !staged.contains(
                    #[trigger] o.defs[a].prevents[j],
                )
            &&& forall|n: int|
                0 <= n < o.groups.len() && ((#[trigger] o.groups[n]).kind == GroupKind::Single
                    || o.groups[n].kind == GroupKind::Multi) ==> exists|i: int|
                    0 <= i < o.groups[n].members.len() && staged.contains(
                        #[trigger] o.groups[n].members[i],
                    )
            &&& forall|n: int|
                0 <= n < o.groups.len() && ((#[trigger] o.groups[n]).kind == GroupKind::Single
                    || o.groups[n].kind == GroupKind::Radio) ==> forall|i: int, j: int|
                    0 <= i < j < o.groups[n].members.len() ==> !(staged.contains(
                        #[trigger] o.groups[n].members[i],
                    ) && staged.contains(#[trigger] o.groups[n].members[j]))
        },
{
    let all = breaches(o, staged);
    let no_pair = forall|a: Str, j: int|
        staged.contains(a) && o.defs.dom().contains(a) && 0 <= j < o.defs[a].prevents.len()
            ==> !staged.contains(#[trigger] o.defs[a].prevents[j]);
    let some_on = forall|n: int|
        0 <= n < o.groups.len() && ((#[trigger] o.groups[n]).kind == GroupKind::Single
            || o.groups[n].kind == GroupKind::Multi) ==> exists|i: int|
            0 <= i < o.groups[n].members.len() && staged.contains(
                #[trigger] o.groups[n].members[i],
            );
    let one_on = forall|n: int|
        0 <= n < o.groups.len() && ((#[trigger] o.groups[n]).kind == GroupKind::Single
            || o.groups[n].kind == GroupKind::Radio) ==> forall|i: int, j: int|
            0 <= i < j < o.groups[n].members.len() ==> !(staged.contains(
                #[trigger] o.groups[n].members[i],
            ) && staged.contains(#[trigger] o.groups[n].members[j]));
    assert forall|n: int|
        0 <= n < o.groups.len() && group_breach(
            #[trigger] o.groups[n],
            staged,
        ) is Some implies all.contains(group_breach(o.groups[n], staged)->0) by {
        let m = group_breach(o.groups[n], staged)->0;
        assert(group_breach(o.groups[n], staged) == Some(m));
    }
    assert forall|n: int| 0 <= n < o.groups.len() implies {
        let g = #[trigger] o.groups[n];
        group_breach(g, staged) is Some <==> match g.kind {
            GroupKind::Single => (forall|i: int|
                0 <= i < g.members.len() ==> !staged.contains(#[trigger] g.members[i])) || (exists|
                i: int,
                j: int,
            |
                0 <= i < j < g.members.len() && staged.contains(#[trigger] g.members[i])
                    && staged.contains(#[trigger] g.members[j])),
            GroupKind::Multi => forall|i: int|
                0 <= i < g.members.len() ==> !staged.contains(#[trigger] g.members[i]),
            GroupKind::Radio => exists|i: int, j: int|
                0 <= i < j < g.members.len() && staged.contains(#[trigger] g.members[i])
                    && staged.contains(#[trigger] g.members[j]),
            GroupKind::Group => false,
        }
    } by {
        lemma_group_breach(o.groups[n], staged);
    }
    if all == Set::<Str>::empty() {
        assert forall|a: Str, j: int|
            staged.contains(a) && o.defs.dom().contains(a) && 0 <= j
                < o.defs[a].prevents.len() implies !staged.contains(
            #[trigger] o.defs[a].prevents[j],
        ) by {
            if staged.contains(o.defs[a].prevents[j]) {
                let m = prevents_text(a, o.defs[a], o.defs[a].prevents[j]);
                assert(prevents_due(o, staged, a, m));
                assert(all.contains(m));
            }
        }
        assert(no_pair && some_on && one_on);
    }
    if no_pair && some_on && one_on {
        assert forall|m: Str| !all.contains(m) by {
            if exists|a: Str| #[trigger] prevents_due(o, staged, a, m) {
                let a = choose|a: Str| #[trigger] prevents_due(o, staged, a, m);
                let j = choose|j: int|
                    0 <= j < o.defs[a].prevents.len() && staged.contains(
                        #[trigger] o.defs[a].prevents[j],
                    ) && m == prevents_text(a, o.defs[a], o.defs[a].prevents[j]);
                assert(!staged.contains(o.defs[a].prevents[j]));
            }
        }
        assert(all =~= Set::<Str>::empty());
    }
}

/// What is said of a broken constraint names the group and, where it is known,
/// how many members are on; what is said of two options that exclude each other
/// names both, the one that is prevented second.
pub proof fn law_conflict_messages(v: SessionView, info: InfoView, n: int, a: Str, j: int)
    requires
        v.states.dom().contains(info.options_name),
        breaches(info.options, v.states[info.options_name].staged).finite(),
    ensures
        ({
            let o = info.options;
            let staged = v.states[info.options_name].staged;
            let said = violations_of(v, info);
            &&& 0 <= n < o.groups.len() && o.groups[n].kind == GroupKind::Single && (forall|i: int|
                0 <= i < o.groups[n].members.len() ==> !staged.contains(
                    #[trigger] o.groups[n].members[i],
                )) ==> said.contains(
                "group "@ + o.groups[n].name + " needs exactly one member enabled ("@ + decimal(0)
                    + " enabled)"@,
            )
            &&& 0 <= n < o.groups.len() && o.groups[n].kind == GroupKind::Multi && (forall|i: int|
                0 <= i < o.groups[n].members.len() ==> !staged.contains(
                    #[trigger] o.groups[n].members[i],
                )) ==> said.contains(
                "group "@ + o.groups[n].name + " needs at least one member enabled"@,
            )
            &&& staged.contains(a) && o.defs.dom().contains(a) && 0 <= j
                < o.defs[a].prevents.len() && staged.contains(o.defs[a].prevents[j])
                ==> said.contains(
                a + " conflicts with "@ + o.defs[a].prevents[j] + ": "@
                    + match o.defs[a].prevents_msg {
                    Some(m) => m,
                    None => "mutually exclusive"@,
                },
            )
        }),
{
    let o = info.options;
    let staged = v.states[info.options_name].staged;
    let all = breaches(o, staged);
    lemma_ordered::<String>(all);
    if 0 <= n < o.groups.len() {
        let g = o.groups[n];
        let p = |m: Str| staged.contains(m);
        lemma_count(g.members, p);
        if forall|i: int| 0 <= i < g.members.len() ==> !staged.contains(#[trigger] g.members[i]) {
            assert(forall|i: int| 0 <= i < g.members.len() ==> !p(#[trigger] g.members[i]));
            assert(members_on(g, staged) == 0);
            if g.kind == GroupKind::Single || g.kind == GroupKind::Multi {
                assert(all.contains(group_breach(o.groups[n], staged)->0));
            }
        }
    }
    if staged.contains(a) && o.defs.dom().contains(a) && 0 <= j < o.defs[a].prevents.len()
        && staged.contains(o.defs[a].prevents[j]) {
        let m = prevents_text(a, o.defs[a], o.defs[a].prevents[j]);
        assert(prevents_due(o, staged, a, m));
        assert(all.contains(m));
    }
}

/// What is said of too many members counts those that are on; and a port has its
/// status for being in conflict exactly where something is said of it.
pub proof fn law_too_many(v: SessionView, info: InfoView, n: int, i: int, j: int)
    requires
        v.states.dom().contains(info.options_name),
        breaches(info.options, v.states[info.options_name].staged).finite(),
    ensures
        ({
            let o = info.options;
            let staged = v.states[info.options_name].staged;
            let said = violations_of(v, info);
            let count = o.groups[n].members.filter(|m: Str| staged.contains(m)).len();
            let two = 0 <= n < o.groups.len() && 0 <= i < j < o.groups[n].members.len()
                && staged.contains(o.groups[n].members[i]) && staged.contains(
                o.groups[n].members[j],
            );
            &&& two && o.groups[n].kind == GroupKind::Single ==> said.contains(
                "group "@ + o.groups[n].name + " needs exactly one member enabled ("@ + decimal(
                    count,
                ) + " enabled)"@,
            )
            &&& two && o.groups[n].kind == GroupKind::Radio ==> said.contains(
                "group "@ + o.groups[n].name + " allows at most one member enabled ("@ + decimal(
                    count,
                ) + " enabled)"@,
            )
            &&& o.complete.len() > 0 ==> (said.len() > 0 <==> status_of(v, info)
                == UiStatus::Conflict)
        }),
{
    let o = info.options;
    let staged = v.states[info.options_name].staged;
    let all = breaches(o, staged);
    lemma_ordered::<String>(all);
    let said = violations_of(v, info);
    if said.len() > 0 {
        assert(said.contains(said[0]));
        assert(all.contains(said[0]));
    } else {
        assert forall|m: Str| !all.contains(m) by {
            if all.contains(m) {
                assert(said.contains(m));
            }
        }
        assert(all =~= Set::<Str>::empty());
    }
    if 0 <= n < o.groups.len() && 0 <= i < j < o.groups[n].members.len() && staged.contains(
        o.groups[n].members[i],
    ) && staged.contains(o.groups[n].members[j]) {
        let g = o.groups[n];
        let p = |m: Str| staged.contains(m);
        lemma_count(g.members, p);
        law_count(g.members, p);
        assert(p(g.members[i]) && p(g.members[j]));
        assert(members_on(g, staged) > 1);
        if g.kind == GroupKind::Single || g.kind == GroupKind::Radio {
            assert(all.contains(group_breach(o.groups[n], staged)->0));
        }
    }
}

/// The status of a port: a port without options is fine; one in conflict is in
/// conflict; then one whose staged options differ from those it started with is
/// edited; then one without an options file is unconfigured; then one whose file
/// was written for another list of options, as the owner of the file has it, is
/// stale; any other is fine.
pub proof fn law_status(v: SessionView, info: InfoView, st: StateView)
    requires
        v.states.dom().contains(info.options_name),
        v.states[info.options_name] == st,
    ensures
        info.options.complete.len() == 0 ==> status_of(v, info) == UiStatus::Okay,
        info.options.complete.len() > 0 ==> {
            let said = breaches(info.options, st.staged) != Set::<Str>::empty();
            let same_list = forall|x: Str| #[trigger]
                v.owner(info).options.complete.contains(x) <==> (
                st.saved->0).complete.contains(x);
            &&& status_of(v, info) == UiStatus::Conflict <==> said
            &&& status_of(v, info) == UiStatus::Edited <==> !said && st.staged != st.baseline
            &&& status_of(v, info) == UiStatus::Unconfigured <==> !said && st.staged
                == st.baseline && st.saved is None
            &&& status_of(v, info) == UiStatus::Stale <==> !said && st.staged == st.baseline
                && st.saved is Some && !same_list
            &&& status_of(v, info) == UiStatus::Okay <==> !said && st.staged == st.baseline
                && st.saved is Some && same_list
        },
{
    if let Some(saved) = st.saved {
        let a = v.owner(info).options.complete;
        let b = saved.complete;
        assert(forall|x: Str| a.to_set().contains(x) <==> a.contains(x));
        assert(forall|x: Str| b.to_set().contains(x) <==> b.contains(x));
        if forall|x: Str| #[trigger] a.contains(x) <==> b.contains(x) {
            assert(a.to_set() =~= b.to_set());
        }
        if a.to_set() == b.to_set() {
            assert forall|x: Str| #[trigger] a.contains(x) <==> b.contains(x) by {
                assert(a.to_set().contains(x) <==> b.to_set().contains(x));
            }
        }
    }
}

// ---------------------------------------------------------------------
// Bulk decisions
// ---------------------------------------------------------------------

/// Whether one of some ports has an option and uses an options file.
pub open spec fn carried(v: SessionView, keys: Seq<KeyView>, opt: Str, name: Str) -> bool {
    exists|i: int|
        0 <= i < keys.len() && v.ports.dom().contains(#[trigger] keys[i])
            && v.ports[keys[i]].options.complete.contains(opt) && v.ports[keys[i]].options_name
            == name
}

/// What a bulk decision comes to. Of the options files only those of the given
/// ports that have the option are touched. Each of them has the option at the
/// wanted value afterwards, or one of its ports is reported with the reason for
/// which a toggle is refused there, and the file is as it was. A file that had
/// the value already is as it was. A port is reported as changed just where the
/// value was another before.
pub proof fn law_bulk(v: SessionView, keys: Seq<KeyView>, opt: Str, on: bool)
    ensures
        ({
            let b = bulk(v, keys, opt, on);
            let w = b.session;
            &&& w.ports == v.ports && w.aliases == v.aliases && w.roots == v.roots && w.owners
                == v.owners && w.minimal == v.minimal
            &&& w.states.dom() == v.states.dom()
            &&& forall|n: Str| #[trigger] b.visited.contains(n) <==> carried(v, keys, opt, n)
            &&& forall|n: Str| #[trigger]
                v.states.dom().contains(n) && (!carried(v, keys, opt, n)
                    || v.states[n].staged.contains(opt) == on) ==> w.states[n] == v.states[n]
            &&& forall|n: Str| #[trigger]
                v.states.dom().contains(n) && carried(v, keys, opt, n) && w.states[n] == v.states[n]
                    && v.states[n].staged.contains(opt) != on ==> exists|j: int|
                    0 <= j < b.skipped.len() && v.ports[(#[trigger] b.skipped[j]).0].options_name
                        == n
            &&& forall|n: Str| #[trigger]
                v.states.dom().contains(n) && w.states[n] != v.states[n] ==> (
                w.states[n].staged.contains(opt) == on && exists|j: int|
                    0 <= j < b.changed.len() && v.ports[#[trigger] b.changed[j]].options_name == n)
            &&& forall|j: int|
                0 <= j < b.changed.len() ==> {
                    let k = #[trigger] b.changed[j];
                    let n = v.ports[k].options_name;
                    &&& keys.contains(k) && v.ports.dom().contains(k) && v.states.dom().contains(n)
                    &&& v.states[n].staged.contains(opt) != on
                    &&& w.states[n].staged.contains(opt) == on
                    &&& toggled(v, k, opt).1 is Ok
                    &&& w.states[n] == toggled(v, k, opt).0.states[n]
                }
            &&& forall|j: int|
                0 <= j < b.skipped.len() ==> {
                    let k = (#[trigger] b.skipped[j]).0;
                    let n = v.ports[k].options_name;
                    &&& keys.contains(k) && v.ports.dom().contains(k) && v.states.dom().contains(n)
                    &&& v.states[n].staged.contains(opt) != on
                    &&& w.states[n] == v.states[n]
                    &&& toggled(v, k, opt).1 == Err::<(), Str>(b.skipped[j].1)
                }
        }),
    decreases keys.len(),
{
    let b = bulk(v, keys, opt, on);
    if keys.len() == 0 {
        assert forall|n: Str| !carried(v, keys, opt, n) by {}
    } else {
        let d = keys.drop_last();
        let k = keys.last();
        law_bulk(v, d, opt, on);
        let a = bulk(v, d, opt, on);
        let x = a.session;
        assert(keys[keys.len() - 1] == k);
        assert forall|n: Str| carried(v, keys, opt, n) <==> carried(v, d, opt, n) || (
        v.ports.dom().contains(k) && v.ports[k].options.complete.contains(opt)
            && v.ports[k].options_name == n) by {
            if carried(v, d, opt, n) {
                let i = choose|i: int|
                    0 <= i < d.len() && v.ports.dom().contains(#[trigger] d[i])
                        && v.ports[d[i]].options.complete.contains(opt)
                        && v.ports[d[i]].options_name == n;
                assert(keys[i] == d[i]);
            }
            if carried(v, keys, opt, n) {
                let i = choose|i: int|
                    0 <= i < keys.len() && v.ports.dom().contains(#[trigger] keys[i])
                        && v.ports[keys[i]].options.complete.contains(opt)
                        && v.ports[keys[i]].options_name == n;
                if i < d.len() {
                    assert(d[i] == keys[i]);
                }
            }
        }
        assert forall|y: KeyView| d.contains(y) implies keys.contains(y) by {
            let i = choose|i: int| 0 <= i < d.len() && d[i] == y;
            assert(keys[i] == y);
        }
        let name = v.ports[k].options_name;
        if v.ports.dom().contains(k) && v.ports[k].options.complete.contains(opt)
            && !a.visited.contains(name) {
            assert(x.ports[k] == v.ports[k]);
            assert(!carried(v, d, opt, name));
            // No port of this file was reported before.
            assert forall|j: int| 0 <= j < a.changed.len() implies v.ports[#[trigger] a.changed[j]].options_name
                != name by {
                lemma_bulk_carried(v, d, opt, on);
                assert(carried(v, d, opt, v.ports[a.changed[j]].options_name));
            }
            assert forall|j: int| 0 <= j < a.skipped.len() implies v.ports[(
            #[trigger] a.skipped[j]).0].options_name != name by {
                lemma_bulk_carried(v, d, opt, on);
                assert(carried(v, d, opt, v.ports[a.skipped[j].0].options_name));
            }
            if v.states.dom().contains(name) {
                let st = v.states[name];
                assert(x.states[name] == st);
                assert(x.state_of(v.ports[k]) == Some(st));
                if st.staged.contains(opt) != on {
                    law_toggle_touches_one(x, k, opt, name);
                    match flipped(v.ports[k].options, st.staged, opt) {
                        Ok(s) => {
                            crate::session::edit::law_toggle_flips(
                                v.ports[k].options,
                                st.staged,
                                opt,
                            );
                            assert(b.changed == a.changed.push(k));
                            assert(b.changed[a.changed.len() as int] == k);
                            assert forall|n: Str| #[trigger]
                                v.states.dom().contains(n) && b.session.states[n]
                                    != v.states[n] implies (b.session.states[n].staged.contains(opt)
                                == on && exists|j: int|
                                0 <= j < b.changed.len() && v.ports[#[trigger] b.changed[j]].options_name
                                    == n) by {
                                if n != name {
                                    assert(x.states[n] != v.states[n]);
                                    let j = choose|j: int|
                                        0 <= j < a.changed.len()
                                            && v.ports[#[trigger] a.changed[j]].options_name == n;
                                    assert(b.changed[j] == a.changed[j]);
                                }
                            }
                            assert(b.session.states.dom() =~= v.states.dom());
                        },
                        Err(e) => {
                            assert(b.skipped == a.skipped.push((k, e)));
                            assert(b.skipped[a.skipped.len() as int] == (k, e));
                            assert(b.session == x);
                            assert forall|n: Str| #[trigger]
                                v.states.dom().contains(n) && carried(v, keys, opt, n)
                                    && b.session.states[n] == v.states[n]
                                    && v.states[n].staged.contains(opt)
                                    != on implies exists|j: int|
                                0 <= j < b.skipped.len() && v.ports[(
                                #[trigger] b.skipped[j]).0].options_name == n by {
                                if n != name {
                                    let j = choose|j: int|
                                        0 <= j < a.skipped.len() && v.ports[(
                                        #[trigger] a.skipped[j]).0].options_name == n;
                                    assert(b.skipped[j] == a.skipped[j]);
                                }
                            }
                        },
                    }
                }
            }
        }
    }
}

/// Every port that a bulk decision reports has the option.
proof fn lemma_bulk_carried(v: SessionView, keys: Seq<KeyView>, opt: Str, on: bool)
    ensures
        ({
            let b = bulk(v, keys, opt, on);
            &&& b.session.ports == v.ports
            &&& forall|j: int|
                0 <= j < b.changed.len() ==> carried(
                    v,
                    keys,
                    opt,
                    v.ports[#[trigger] b.changed[j]].options_name,
                )
            &&& forall|j: int|
                0 <= j < b.skipped.len() ==> carried(
                    v,
                    keys,
                    opt,
                    v.ports[(#[trigger] b.skipped[j]).0].options_name,
                )
        }),
    decreases keys.len(),
{
    if keys.len() > 0 {
        let d = keys.drop_last();
        lemma_bulk_carried(v, d, opt, on);
        let a = bulk(v, d, opt, on);
        let b = bulk(v, keys, opt, on);
        assert(keys[keys.len() - 1] == keys.last());
        assert forall|n: Str| carried(v, d, opt, n) implies carried(v, keys, opt, n) by {
            let i = choose|i: int|
                0 <= i < d.len() && v.ports.dom().contains(#[trigger] d[i])
                    && v.ports[d[i]].options.complete.contains(opt) && v.ports[d[i]].options_name
                    == n;
            assert(keys[i] == d[i]);
        }
        if v.ports.dom().contains(keys.last()) && v.ports[keys.last()].options.complete.contains(
            opt,
        ) {
            assert(carried(v, keys, opt, v.ports[keys.last()].options_name));
        }
        assert forall|j: int| 0 <= j < b.changed.len() implies carried(
            v,
            keys,
            opt,
            v.ports[#[trigger] b.changed[j]].options_name,
        ) by {
            if j < a.changed.len() {
                assert(b.changed[j] == a.changed[j]);
            }
        }
        assert forall|j: int| 0 <= j < b.skipped.len() implies carried(
            v,
            keys,
            opt,
            v.ports[(#[trigger] b.skipped[j]).0].options_name,
        ) by {
            if j < a.skipped.len() {
                assert(b.skipped[j] == a.skipped[j]);
            }
        }
    }
}

// ---------------------------------------------------------------------
// Going back
// ---------------------------------------------------------------------

/// Replacing what is staged touches one options file, and of it just what is
/// staged.
pub proof fn law_restage_touches_one(v: SessionView, key: KeyView, staged: Set<Str>, name: Str)
    ensures
        ({
            let w = restaged(v, key, staged);
            &&& w.ports == v.ports && w.aliases == v.aliases && w.roots == v.roots && w.owners
                == v.owners && w.minimal == v.minimal
            &&& w.states.dom() == v.states.dom()
            &&& v.states.dom().contains(name) ==> w.states[name].saved == v.states[name].saved
                && w.states[name].baseline == v.states[name].baseline
            &&& v.states.dom().contains(name) && v.ports.dom().contains(key)
                && v.ports[key].options_name == name ==> w.states[name].staged == staged
            &&& v.states.dom().contains(name) && !(v.ports.dom().contains(key)
                && v.ports[key].options_name == name) ==> w.states[name] == v.states[name]
        }),
{
    assert(restaged(v, key, staged).states.dom() =~= v.states.dom());
}

/// The defaults of a port: the options it has that are on by default, what they
/// imply as far as the port has it, and nothing else.
pub proof fn law_defaults(o: OptionsView, other: Set<Str>)
    ensures
        forall|x: Str| #[trigger]
            o.defaults.contains(x) && o.complete.contains(x) ==> defaults_of(o).contains(x),
        forall|a: Str, b: Str|
            defaults_of(o).contains(a) && o.defs.dom().contains(a)
                && #[trigger] o.defs[a].implies.contains(b) && o.complete.contains(b)
                ==> defaults_of(o).contains(b),
        (forall|x: Str| #[trigger]
            o.defaults.contains(x) && o.complete.contains(x) ==> other.contains(x)) && (forall|
            a: Str,
            b: Str,
        |
            other.contains(a) && o.defs.dom().contains(a)
                && #[trigger] o.defs[a].implies.contains(b) && o.complete.contains(b)
                ==> other.contains(b)) ==> defaults_of(o).subset_of(other),
{
    let base = o.complete.to_set().intersect(o.defaults);
    assert(forall|x: Str| o.complete.to_set().contains(x) <==> o.complete.contains(x));
    lemma_closed(o, base, other);
}

/// What closing a set under IMPLIES comes to.
proof fn lemma_closed(o: OptionsView, base: Set<Str>, other: Set<Str>)
    ensures
        base.subset_of(closure(o, base)),
        forall|a: Str, b: Str|
            closure(o, base).contains(a) && o.defs.dom().contains(a)
                && #[trigger] o.defs[a].implies.contains(b) && o.complete.contains(b)
                ==> closure(o, base).contains(b),
        base.subset_of(other) && (forall|a: Str, b: Str|
            other.contains(a) && o.defs.dom().contains(a)
                && #[trigger] o.defs[a].implies.contains(b) && o.complete.contains(b)
                ==> other.contains(b)) ==> closure(o, base).subset_of(other),
{
    law_closure_closed(o, base);
    assert forall|a: Str, b: Str|
        closure(o, base).contains(a) && o.defs.dom().contains(a)
            && #[trigger] o.defs[a].implies.contains(b) && o.complete.contains(b) implies closure(
        o,
        base,
    ).contains(b) by {
        assert(turns_on(o)(a, b));
    }
    if base.subset_of(other) && (forall|a: Str, b: Str|
        other.contains(a) && o.defs.dom().contains(a) && #[trigger] o.defs[a].implies.contains(b)
            && o.complete.contains(b) ==> other.contains(b)) {
        assert forall|a: Str, b: Str| other.contains(a) && #[trigger] turns_on(o)(
            a,
            b,
        ) implies other.contains(b) by {
            assert(o.defs[a].implies.contains(b));
        }
        law_closure_least(o, base, other);
    }
}

/// A session is dirty exactly where what is staged for some options file is not
/// what it started with.
pub proof fn law_dirty(v: SessionView)
    ensures
        is_dirty(v) <==> exists|n: Str| #[trigger]
            v.states.dom().contains(n) && v.states[n].staged != v.states[n].baseline,
{
    if is_dirty(v) {
        let n = choose|n: Str| #[trigger] v.states.dom().contains(n) && edited(v.states[n]);
        assert(v.states.dom().contains(n));
    }
}

// ---------------------------------------------------------------------
// Drafts
// ---------------------------------------------------------------------

/// A draft holds what is staged for just those options files that were edited.
pub proof fn law_draft_holds(v: SessionView, n: Str)
    ensures
        drafted(v).dom().contains(n) <==> v.states.dom().contains(n) && v.states[n].staged
            != v.states[n].baseline,
        drafted(v).dom().contains(n) ==> drafted(v)[n] == v.states[n].staged,
{
}

/// Restoring a draft stages, for every options file it names, those of its
/// options that the owner of the file still has. A file that the session does not
/// know or that has no owner left is passed over, and nothing but what is staged
/// changes.
pub proof fn law_draft_restores(w: SessionView, draft: Map<Str, Set<Str>>, n: Str, x: Str)
    requires
        w.states.dom().contains(n),
    ensures
        ({
            let r = restored(w, draft);
            &&& r.ports == w.ports && r.owners == w.owners && r.roots == w.roots && r.aliases
                == w.aliases && r.minimal == w.minimal
            &&& r.states.dom() == w.states.dom()
            &&& r.states[n].saved == w.states[n].saved && r.states[n].baseline
                == w.states[n].baseline
            &&& draft.dom().contains(n) && w.owners.dom().contains(n) && w.ports.dom().contains(
                w.owners[n],
            ) ==> (r.states[n].staged.contains(x) <==> draft[n].contains(x)
                && w.ports[w.owners[n]].options.complete.contains(x))
            &&& !(draft.dom().contains(n) && w.owners.dom().contains(n)
                && w.ports.dom().contains(w.owners[n])) ==> r.states[n] == w.states[n]
        }),
{
    assert(restored(w, draft).states.dom() =~= w.states.dom());
    if w.owners.dom().contains(n) && w.ports.dom().contains(w.owners[n]) {
        let c = w.ports[w.owners[n]].options.complete;
        assert(c.to_set().contains(x) <==> c.contains(x));
    }
}

// ---------------------------------------------------------------------
// What is left to decide
// ---------------------------------------------------------------------

/// An option needs a decision exactly where the port has it, the options file
/// takes no note of it, no make.conf knob names it, and no SINGLE or RADIO group
/// that holds it has a member that make.conf turns on. With `--minimal` none
/// does.
pub proof fn law_undecided(o: OptionsView, saved: Option<SavedView>, opt: Str)
    ensures
        !undecided(o, saved, true).contains(opt),
        undecided(o, saved, false).contains(opt) <==> {
            &&& o.complete.contains(opt)
            &&& saved matches Some(s) ==> !s.complete.contains(opt) && !s.set.contains(opt)
                && !s.unset.contains(opt)
            &&& !o.mc_set.contains(opt) && !o.mc_unset.contains(opt)
            &&& !o.port_set.contains(opt) && !o.port_unset.contains(opt)
            &&& !o.force_set.contains(opt) && !o.force_unset.contains(opt)
            &&& !o.port_force_set.contains(opt) && !o.port_force_unset.contains(opt)
            &&& forall|i: int, j: int|
                0 <= i < o.groups.len() && 0 <= j < o.groups[i].members.len() && (o.groups[i].kind
                    == GroupKind::Single || o.groups[i].kind == GroupKind::Radio)
                    && o.groups[i].members.contains(opt) ==> {
                    let m = #[trigger] o.groups[i].members[j];
                    &&& !o.mc_set.contains(m) && !o.port_set.contains(m)
                    &&& o.port_force_unset.contains(m) || !o.port_force_set.contains(m) && (
                    o.force_unset.contains(m) || !o.force_set.contains(m))
                }
        },
{
    let p = |x: Str| is_open(o, saved, x);
    lemma_filter_holds(o.complete, p);
    if group_settles(o, opt) {
        let i = choose|i: int|
            0 <= i < o.groups.len() && settled(o, #[trigger] o.groups[i])
                && o.groups[i].members.contains(opt);
        let j = choose|j: int|
            0 <= j < o.groups[i].members.len() && selected(o, #[trigger] o.groups[i].members[j]);
        assert(selected(o, o.groups[i].members[j]));
    } else {
        assert forall|i: int, j: int|
            0 <= i < o.groups.len() && 0 <= j < o.groups[i].members.len() && (o.groups[i].kind
                == GroupKind::Single || o.groups[i].kind == GroupKind::Radio)
                && o.groups[i].members.contains(opt) implies !selected(
            o,
            #[trigger] o.groups[i].members[j],
        ) by {
            if selected(o, o.groups[i].members[j]) {
                assert(settled(o, o.groups[i]));
            }
        }
    }
}

/// A staged option deviates from make.conf exactly where a knob other than a
/// FORCE one names it, none of those does, and it is not what would be without
/// an options file.
pub proof fn law_deviates(v: SessionView, info: InfoView, opt: Str)
    ensures
        mc_deviates_of(v, info, opt) <==> {
            let o = info.options;
            &&& v.states.dom().contains(info.options_name)
            &&& o.mc_set.contains(opt) || o.mc_unset.contains(opt) || o.port_set.contains(opt)
                || o.port_unset.contains(opt)
            &&& !o.force_set.contains(opt) && !o.force_unset.contains(opt)
                && !o.port_force_set.contains(opt) && !o.port_force_unset.contains(opt)
            &&& v.states[info.options_name].staged.contains(opt) != nofile(o).contains(opt)
        },
{
}

// ---------------------------------------------------------------------
// How a session starts
// ---------------------------------------------------------------------

/// What an options file starts with: what is saved, and nothing edited. The
/// options that are on are those the owner has that the file records as on, or
/// that make has on where the file takes no note of them, with what they imply,
/// and nothing else.
pub proof fn law_fresh_state(owner: InfoView, files: Map<Str, SavedView>, x: Str, other: Set<Str>)
    ensures
        ({
            let st = fresh_state(owner, files);
            let o = owner.options;
            &&& files.dom().contains(owner.options_name) ==> st.saved == Some(
                files[owner.options_name],
            )
            &&& !files.dom().contains(owner.options_name) ==> st.saved is None
            &&& st.staged == st.baseline
            &&& o.complete.contains(x) && (match st.saved {
                Some(s) => if s.complete.contains(x) || s.set.contains(x) || s.unset.contains(x) {
                    s.set.contains(x)
                } else {
                    o.effective.contains(x)
                },
                None => o.effective.contains(x),
            }) ==> st.staged.contains(x)
            &&& forall|a: Str, b: Str|
                st.staged.contains(a) && o.defs.dom().contains(a)
                    && #[trigger] o.defs[a].implies.contains(b) && o.complete.contains(b)
                    ==> st.staged.contains(b)
            &&& (forall|y: Str| #[trigger]
                o.complete.contains(y) && (match st.saved {
                    Some(s) => if s.complete.contains(y) || s.set.contains(y) || s.unset.contains(
                        y,
                    ) {
                        s.set.contains(y)
                    } else {
                        o.effective.contains(y)
                    },
                    None => o.effective.contains(y),
                }) ==> other.contains(y)) && (forall|a: Str, b: Str|
                other.contains(a) && o.defs.dom().contains(a)
                    && #[trigger] o.defs[a].implies.contains(b) && o.complete.contains(b)
                    ==> other.contains(b)) ==> st.staged.subset_of(other)
        }),
{
    let o = owner.options;
    let base = synced(o, lookup(files, owner.options_name));
    lemma_closed(o, base, other);
    assert forall|y: Str| base.contains(y) implies o.complete.contains(y) by {}
}

/// A session starts with a state for just the options files that some port with
/// options uses, as their owner sees them. Its roots are what was asked for, or
/// every port where something that was asked for is unknown.
pub proof fn law_started(
    ports: Map<KeyView, InfoView>,
    aliases: Map<KeyView, KeyView>,
    requested: Seq<KeyView>,
    files: Map<Str, SavedView>,
    minimal: bool,
    n: Str,
)
    requires
        ports.dom().finite(),
    ensures
        ({
            let v = started(ports, aliases, requested, files, minimal);
            &&& v.ports == ports && v.aliases == aliases && v.minimal == minimal
            &&& v.states.dom().contains(n) <==> exists|k: KeyView| #[trigger]
                ports.dom().contains(k) && ports[k].options.complete.len() > 0
                    && ports[k].options_name == n
            &&& v.owners.dom().contains(n) <==> v.states.dom().contains(n)
            &&& v.states.dom().contains(n) ==> ports.dom().contains(v.owners[n])
                && ports[v.owners[n]].options_name == n && v.states[n] == fresh_state(
                ports[v.owners[n]],
                files,
            )
            &&& (forall|i: int|
                0 <= i < requested.len() ==> ports.dom().contains(#[trigger] requested[i])
                    || aliases.dom().contains(requested[i])) ==> v.roots.len() == requested.len()
                && forall|i: int|
                0 <= i < requested.len() ==> v.roots[i] == if ports.dom().contains(
                    #[trigger] requested[i],
                ) {
                    requested[i]
                } else {
                    aliases[requested[i]]
                }
            &&& (exists|i: int|
                0 <= i < requested.len() && !ports.dom().contains(#[trigger] requested[i])
                    && !aliases.dom().contains(requested[i])) ==> forall|k: KeyView| #[trigger]
                v.roots.contains(k) <==> ports.dom().contains(k)
        }),
{
    let v = started(ports, aliases, requested, files, minimal);
    law_owner(ports, n);
    lemma_ordered::<PortKey>(ports.dom());
    lemma_resolve_all(bare(ports, aliases), requested);
    if exists|k: KeyView| #[trigger]
        ports.dom().contains(k) && ports[k].options.complete.len() > 0 && ports[k].options_name
            == n {
        let k = choose|k: KeyView| #[trigger]
            ports.dom().contains(k) && ports[k].options.complete.len() > 0
                && ports[k].options_name == n;
        assert(shares(ports[k], n));
    }
}

proof fn lemma_resolve_all(v: SessionView, keys: Seq<KeyView>)
    ensures
        resolve_all(v, keys).len() <= keys.len(),
        resolve_all(v, keys).len() == keys.len() <==> forall|i: int|
            0 <= i < keys.len() ==> (v.ports.dom().contains(#[trigger] keys[i])
                || v.aliases.dom().contains(keys[i])),
        resolve_all(v, keys).len() == keys.len() ==> forall|i: int|
            0 <= i < keys.len() ==> resolve_all(v, keys)[i] == if v.ports.dom().contains(
                #[trigger] keys[i],
            ) {
                keys[i]
            } else {
                v.aliases[keys[i]]
            },
    decreases keys.len(),
{
    if keys.len() > 0 {
        let d = keys.drop_last();
        lemma_resolve_all(v, d);
        let r = resolve_all(v, keys);
        assert(keys[keys.len() - 1] == keys.last());
        if forall|i: int|
            0 <= i < keys.len() ==> (v.ports.dom().contains(#[trigger] keys[i])
                || v.aliases.dom().contains(keys[i])) {
            assert forall|i: int| 0 <= i < d.len() implies (v.ports.dom().contains(
                #[trigger] d[i],
            ) || v.aliases.dom().contains(d[i])) by {
                assert(d[i] == keys[i]);
            }
        }
        if r.len() == keys.len() {
            assert forall|i: int| 0 <= i < keys.len() implies (v.ports.dom().contains(
                #[trigger] keys[i],
            ) || v.aliases.dom().contains(keys[i])) && r[i] == if v.ports.dom().contains(keys[i]) {
                keys[i]
            } else {
                v.aliases[keys[i]]
            } by {
                if i < d.len() {
                    assert(d[i] == keys[i]);
                }
            }
        }
    }
}

// ---------------------------------------------------------------------
// The closure
// ---------------------------------------------------------------------

/// The port a key stands for, spelled out.
pub proof fn law_resolved(v: SessionView, k: KeyView)
    ensures
        v.ports.dom().contains(k) ==> v.resolved(k) == Some(k),
        !v.ports.dom().contains(k) && v.aliases.dom().contains(k) ==> v.resolved(k) == Some(
            v.aliases[k],
        ),
        !v.ports.dom().contains(k) && !v.aliases.dom().contains(k) ==> v.resolved(k) is None,
{
}

/// What the roots reach holds the roots and, with every port, what the port
/// depends on; and it holds nothing that some set with these properties does
/// not.
pub proof fn law_live(v: SessionView, other: Set<KeyView>)
    ensures
        forall|i: int|
            0 <= i < v.roots.len() && v.resolved(#[trigger] v.roots[i]) is Some ==> live(
                v,
            ).contains(v.resolved(v.roots[i])->0),
        forall|a: KeyView, i: int|
            live(v).contains(a) && v.ports.dom().contains(a) && 0 <= i < v.ports[a].deps.len()
                && v.resolved((#[trigger] v.ports[a].deps[i]).target) is Some ==> live(v).contains(
                v.resolved(v.ports[a].deps[i].target)->0,
            ),
        (forall|i: int|
            0 <= i < v.roots.len() && v.resolved(#[trigger] v.roots[i]) is Some ==> other.contains(
                v.resolved(v.roots[i])->0,
            )) && (forall|a: KeyView, i: int|
            other.contains(a) && v.ports.dom().contains(a) && 0 <= i < v.ports[a].deps.len()
                && v.resolved((#[trigger] v.ports[a].deps[i]).target) is Some ==> other.contains(
                v.resolved(v.ports[a].deps[i].target)->0,
            )) ==> live(v).subset_of(other),
{
    let edge = dep_edge(v);
    lemma_reach_set(edge, root_set(v));
    assert forall|i: int|
        0 <= i < v.roots.len() && v.resolved(#[trigger] v.roots[i]) is Some implies live(
        v,
    ).contains(v.resolved(v.roots[i])->0) by {
        assert(root_set(v).contains(v.resolved(v.roots[i])->0));
    }
    assert forall|a: KeyView, i: int|
        live(v).contains(a) && v.ports.dom().contains(a) && 0 <= i < v.ports[a].deps.len()
            && v.resolved((#[trigger] v.ports[a].deps[i]).target) is Some implies live(v).contains(
        v.resolved(v.ports[a].deps[i].target)->0,
    ) by {
        assert(edge(a, v.resolved(v.ports[a].deps[i].target)->0));
    }
    if (forall|i: int|
        0 <= i < v.roots.len() && v.resolved(#[trigger] v.roots[i]) is Some ==> other.contains(
            v.resolved(v.roots[i])->0,
        )) && (forall|a: KeyView, i: int|
        other.contains(a) && v.ports.dom().contains(a) && 0 <= i < v.ports[a].deps.len()
            && v.resolved((#[trigger] v.ports[a].deps[i]).target) is Some ==> other.contains(
            v.resolved(v.ports[a].deps[i].target)->0,
        )) {
        assert forall|a: KeyView, b: KeyView| other.contains(a) && #[trigger] edge(
            a,
            b,
        ) implies other.contains(b) by {
            let i = choose|i: int|
                0 <= i < v.ports[a].deps.len() && v.resolved(
                    (#[trigger] v.ports[a].deps[i]).target,
                ) == Some(b);
            assert(v.resolved(v.ports[a].deps[i].target) is Some);
        }
        assert forall|k: KeyView| live(v).contains(k) implies other.contains(k) by {
            let r = choose|r: KeyView| root_set(v).contains(r) && #[trigger] reaches(edge, r, k);
            let i = choose|i: int|
                0 <= i < v.roots.len() && v.resolved(#[trigger] v.roots[i]) == Some(r);
            assert(v.resolved(v.roots[i]) is Some);
            lemma_closed_holds(edge, other, r, k);
        }
    }
}

/// What a merge comes to before unreachable ports go: what was scanned replaces
/// what was there, what was there otherwise stays, and the roots stay.
pub proof fn law_merge_joins(
    v: SessionView,
    ports: Map<KeyView, InfoView>,
    aliases: Map<KeyView, KeyView>,
    files: Map<Str, SavedView>,
    k: KeyView,
    n: Str,
)
    requires
        v.ports.union_prefer_right(ports).dom().finite(),
    ensures
        ({
            let mid = joined_scan(v, ports, aliases, files);
            let w = merged(v, ports, aliases, files);
            &&& mid.roots == v.roots && w.roots == v.roots && w.minimal == v.minimal
            &&& w.aliases == mid.aliases && w.states == mid.states && w.owners == mid.owners
            &&& ports.dom().contains(k) ==> mid.ports.dom().contains(k) && mid.ports[k] == ports[k]
            &&& !ports.dom().contains(k) ==> (mid.ports.dom().contains(k)
                <==> v.ports.dom().contains(k))
            &&& !ports.dom().contains(k) && v.ports.dom().contains(k) ==> mid.ports[k]
                == v.ports[k]
            &&& aliases.dom().contains(k) ==> mid.aliases.dom().contains(k) && mid.aliases[k]
                == aliases[k]
            &&& !aliases.dom().contains(k) ==> (mid.aliases.dom().contains(k)
                <==> v.aliases.dom().contains(k))
            &&& !aliases.dom().contains(k) && v.aliases.dom().contains(k) ==> mid.aliases[k]
                == v.aliases[k]
            &&& w.ports.dom().contains(k) <==> mid.ports.dom().contains(k) && live(mid).contains(k)
            &&& w.ports.dom().contains(k) ==> w.ports[k] == mid.ports[k]
            &&& v.states.dom().contains(n) ==> w.states[n] == v.states[n]
            &&& w.states.dom().contains(n) <==> v.states.dom().contains(n) || exists|j: KeyView|
             #[trigger]
                mid.ports.dom().contains(j) && mid.ports[j].options.complete.len() > 0
                    && mid.ports[j].options_name == n
            &&& w.states.dom().contains(n) && !v.states.dom().contains(n) ==> w.states[n]
                == fresh_state(mid.ports[mid.owners[n]], files)
        }),
{
    let mid = joined_scan(v, ports, aliases, files);
    law_owner(mid.ports, n);
    if exists|j: KeyView| #[trigger]
        mid.ports.dom().contains(j) && mid.ports[j].options.complete.len() > 0
            && mid.ports[j].options_name == n {
        let j = choose|j: KeyView| #[trigger]
            mid.ports.dom().contains(j) && mid.ports[j].options.complete.len() > 0
                && mid.ports[j].options_name == n;
        assert(shares(mid.ports[j], n));
    }
}

/// One port depends on another exactly where an edge of it leads to a key that
/// stands for the other.
pub proof fn law_depends(v: SessionView, a: KeyView, b: KeyView)
    ensures
        depends(v, a, b) <==> v.ports.dom().contains(a) && exists|i: int|
            0 <= i < v.ports[a].deps.len() && {
                let t = (#[trigger] v.ports[a].deps[i]).target;
                if v.ports.dom().contains(t) {
                    t == b
                } else {
                    v.aliases.dom().contains(t) && v.aliases[t] == b
                }
            },
{
    if depends(v, a, b) {
        let i = choose|i: int|
            0 <= i < v.ports[a].deps.len() && v.resolved((#[trigger] v.ports[a].deps[i]).target)
                == Some(b);
        assert(v.resolved(v.ports[a].deps[i].target) == Some(b));
    }
    if v.ports.dom().contains(a) && exists|i: int|
        0 <= i < v.ports[a].deps.len() && {
            let t = (#[trigger] v.ports[a].deps[i]).target;
            if v.ports.dom().contains(t) {
                t == b
            } else {
                v.aliases.dom().contains(t) && v.aliases[t] == b
            }
        } {
        let i = choose|i: int|
            0 <= i < v.ports[a].deps.len() && {
                let t = (#[trigger] v.ports[a].deps[i]).target;
                if v.ports.dom().contains(t) {
                    t == b
                } else {
                    v.aliases.dom().contains(t) && v.aliases[t] == b
                }
            };
        assert(v.resolved(v.ports[a].deps[i].target) == Some(b));
    }
}

/// A chain that explains a port begins at what a root stands for, goes on along
/// dependency edges, and ends at the port.
pub proof fn law_chain_follows_edges(v: SessionView, chain: Seq<KeyView>, target: KeyView)
    requires
        finds(v, chain, target),
    ensures
        chain.len() > 0,
        chain.last() == target,
        exists|i: int| 0 <= i < v.roots.len() && v.resolved(#[trigger] v.roots[i]) == Some(chain[0]),
        forall|n: int|
            0 <= n < chain.len() - 1 ==> v.ports.dom().contains(#[trigger] chain[n]) && exists|
                i: int,
            |
                0 <= i < v.ports[chain[n]].deps.len() && v.resolved(
                    (#[trigger] v.ports[chain[n]].deps[i]).target,
                ) == Some(chain[n + 1]),
{
    law_chain_shortest(v, chain, target, chain);
    assert forall|n: int| 0 <= n < chain.len() - 1 implies v.ports.dom().contains(
        #[trigger] chain[n],
    ) && exists|i: int|
        0 <= i < v.ports[chain[n]].deps.len() && v.resolved(
            (#[trigger] v.ports[chain[n]].deps[i]).target,
        ) == Some(chain[n + 1]) by {
        assert(dep_edge(v)(chain[n], chain[n + 1]));
    }
}

/// Reading the options files anew after an apply keeps what is staged. The state
/// of a file that a single port uses is what that port would start with; one that
/// no port uses stays as it is.
pub proof fn law_reload(v: SessionView, files: Map<Str, SavedView>, n: Str, k: KeyView)
    requires
        v.states.dom().contains(n),
        v.ports.dom().finite(),
        v.ports.dom().contains(k),
        forall|j: KeyView| #[trigger]
            v.ports.dom().contains(j) && v.ports[j].options_name == n ==> j == k,
    ensures
        ({
            let st = reloaded(v, files).states[n];
            &&& st.staged == v.states[n].staged
            &&& v.ports[k].options_name != n ==> st == v.states[n]
            &&& v.ports[k].options_name == n ==> st.saved == fresh_state(
                v.owner(v.ports[k]),
                files,
            ).saved && st.baseline == fresh_state(v.owner(v.ports[k]), files).baseline
        }),
        reloaded(v, files).ports == v.ports,
        reloaded(v, files).states.dom() == v.states.dom(),
{
    let q = ordered::<PortKey>(v.ports.dom());
    lemma_ordered::<PortKey>(v.ports.dom());
    let p = |k: KeyView| v.ports[k].options_name == n;
    lemma_first_where(q, p);
    assert(q.contains(k));
    let i = choose|i: int| 0 <= i < q.len() && q[i] == k;
    assert(p(q[i]) <==> v.ports[k].options_name == n);
    if let Some(j) = first_where(q, p) {
        assert(v.ports.dom().contains(j));
        assert(j == k);
    }
    assert(reloaded(v, files).states[n] == reloaded_state(v, q, files, n));
    assert(reloaded(v, files).states.dom() =~= v.states.dom());
}

/// The port whose view owns a port's options file is the one on record, where that
/// is still a port of the session, and else the port itself.
pub proof fn law_owner_view(v: SessionView, info: InfoView, k: KeyView)
    ensures
        v.owners.dom().contains(info.options_name) && v.owners[info.options_name] == k
            && v.ports.dom().contains(k) ==> v.owner(info) == v.ports[k],
        v.owners.dom().contains(info.options_name) && v.owners[info.options_name] == k
            && !v.ports.dom().contains(k) ==> v.owner(info) == info,
        !v.owners.dom().contains(info.options_name) ==> v.owner(info) == info,
{
}

/// Restoring a draft reports just the options files whose staged options become
/// others.
pub proof fn law_draft_changes(v: SessionView, draft: Map<Str, Set<Str>>, n: Str)
    requires
        v.states.dom().contains(n),
    ensures
        draft_changes(v, draft).contains(n) <==> restored(v, draft).states[n].staged
            != v.states[n].staged,
{
}

} // verus!
