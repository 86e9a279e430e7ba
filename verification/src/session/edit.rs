//! Editing staged options: toggling, bulk decisions, reverting, restoring.
use vstd::prelude::*;

use crate::draft::Draft;
use crate::graph::{closed_under, lemma_reaches_self, reaches, reaches_on, walks};
use crate::list::{count_where, first_where, lemma_first_where, lemma_first_where_is};
use crate::list::{lemma_first_where_none, lemma_take_one, lookup};
use crate::model::options::{GroupKind, GroupView, OptionGroup, OptionSet, OptionsView};
use crate::model::origin::{KeyView, PortKey};
use crate::model::port::{InfoView, PortInfo};
use crate::optionsfile::{SavedOptionsFile, SavedView};
use crate::order::Duplicate;
use crate::query::parse::result_view;
use crate::session::base::{fresh_state, new_state, Session, SessionView, StateView};
use crate::session::implies::{close_implies, closure, holds_on, implier, implier_of, implying};
use crate::session::implies::{law_closure_closed, turns_on};
use crate::sorted::{lemma_ordered, lemma_take_set, ordered, SortedMap, SortedSet};
use crate::text::{glue, list_has, opt_view, owned, views, Str};

verus! {

// ---------------------------------------------------------------------
// Toggling
// ---------------------------------------------------------------------

/// How many members of a group are on.
pub open spec fn members_on(g: GroupView, staged: Set<Str>) -> nat {
    count_where(g.members, |m: Str| staged.contains(m))
}

/// Whether an option belongs to a group; with `exclusive`, to one that allows one
/// member only.
pub open spec fn has_member(opt: Str, exclusive: bool) -> spec_fn(GroupView) -> bool {
    |g: GroupView| (!exclusive || g.kind.exclusive()) && g.members.contains(opt)
}

/// The first group an option belongs to.
pub open spec fn group_of(o: OptionsView, opt: Str) -> Option<GroupView> {
    first_where(o.groups, has_member(opt, false))
}

/// The first group an option belongs to of those that allow one member only.
pub open spec fn exclusive_group_of(o: OptionsView, opt: Str) -> Option<GroupView> {
    first_where(o.groups, has_member(opt, true))
}

/// Why an option cannot be turned off: another implies it, or its group needs
/// it.
pub open spec fn keeps_on(o: OptionsView, staged: Set<Str>, opt: Str) -> Option<Str> {
    match implier(o, staged, opt) {
        Some(by) => Some(opt + " is implied by "@ + by + "; disable "@ + by + " first"@),
        None => match group_of(o, opt) {
            Some(g) => if members_on(g, staged) != 1 {
                None
            } else if g.kind == GroupKind::Single {
                Some(
                    g.name
                        + ": single-choice group needs exactly one option; select another member instead"@,
                )
            } else if g.kind == GroupKind::Multi {
                Some(g.name + ": multi group needs at least one option enabled"@)
            } else {
                None
            },
            None => None,
        },
    }
}

/// The staged set with an option turned on, before implied options: the other
/// members of its exclusive group are off.
pub open spec fn switched_on(o: OptionsView, staged: Set<Str>, opt: Str) -> Set<Str> {
    match exclusive_group_of(o, opt) {
        Some(g) => staged.difference(g.members.to_set()).insert(opt),
        None => staged.insert(opt),
    }
}

/// The staged set with an option flipped, or why it is refused.
pub open spec fn flipped(o: OptionsView, staged: Set<Str>, opt: Str) -> Result<Set<Str>, Str> {
    if o.forced(opt) is Some {
        Err(
            opt
                + " is forced by make.conf (*_FORCE); the options file cannot override it"@,
        )
    } else if staged.contains(opt) {
        match keeps_on(o, staged, opt) {
            Some(why) => Err(why),
            None => Ok(staged.remove(opt)),
        }
    } else {
        Ok(closure(o, switched_on(o, staged, opt)))
    }
}

/// The session after a toggle: unchanged where it is refused.
pub open spec fn toggled(
    v: SessionView,
    key: KeyView,
    opt: Str,
) -> (SessionView, Result<(), Str>) {
    if !v.ports.dom().contains(key) {
        (v, Err("unknown port"@))
    } else {
        let info = v.ports[key];
        match v.state_of(info) {
            None => (v, Err("port has no options"@)),
            Some(st) => match flipped(info.options, st.staged, opt) {
                Ok(staged) => (
                    SessionView {
                        states: v.states.insert(info.options_name, StateView { staged, ..st }),
                        ..v
                    },
                    Ok(()),
                ),
                Err(e) => (v, Err(e)),
            },
        }
    }
}

/// An accepted toggle flips its option.
pub proof fn law_toggle_flips(o: OptionsView, staged: Set<Str>, opt: Str)
    requires
        flipped(o, staged, opt) is Ok,
    ensures
        (flipped(o, staged, opt)->Ok_0).contains(opt) <==> !staged.contains(opt),
{
    law_closure_closed(o, switched_on(o, staged, opt));
}

/// A toggle never leaves an implied option off: a staged set that has all it
/// implies still has afterwards.
pub proof fn law_toggle_keeps_implied(o: OptionsView, staged: Set<Str>, opt: Str)
    requires
        staged.finite(),
        closed_under(turns_on(o), staged),
        flipped(o, staged, opt) is Ok,
    ensures
        closed_under(turns_on(o), flipped(o, staged, opt)->Ok_0),
{
    let s = flipped(o, staged, opt)->Ok_0;
    if staged.contains(opt) {
        let q = ordered::<String>(staged);
        lemma_ordered::<String>(staged);
        let p = holds_on(o, opt);
        lemma_first_where(q, p);
        assert forall|a: Str, b: Str| s.contains(a) && #[trigger] turns_on(o)(
            a,
            b,
        ) implies s.contains(b) by {
            if b == opt {
                assert(implying(o)(a, opt));
                lemma_reaches_self(implying(o), opt);
                assert(reaches_on(implying(o), a, opt));
                assert(q.contains(a));
                let i = choose|i: int| 0 <= i < q.len() && q[i] == a;
                assert(!p(q[i]));
            }
        }
    } else {
        law_closure_closed(o, switched_on(o, staged, opt));
    }
}

/// Turning an option on leaves no other member of its exclusive group on, save
/// one that an enabled option implies.
pub proof fn law_toggle_exclusive(o: OptionsView, staged: Set<Str>, opt: Str, m: Str)
    requires
        !staged.contains(opt),
        flipped(o, staged, opt) is Ok,
        exclusive_group_of(o, opt) is Some,
        (exclusive_group_of(o, opt)->0).members.contains(m),
        m != opt,
        (flipped(o, staged, opt)->Ok_0).contains(m),
    ensures
        exists|a: Str|
            (flipped(o, staged, opt)->Ok_0).contains(a) && #[trigger] turns_on(o)(a, m),
{
    let base = switched_on(o, staged, opt);
    let s = closure(o, base);
    let edge = turns_on(o);
    let a = choose|a: Str| base.contains(a) && #[trigger] reaches(edge, a, m);
    let w = choose|w: Seq<Str>| #[trigger] walks(edge, w, a, m);
    assert((exclusive_group_of(o, opt)->0).members.to_set().contains(m));
    assert(!base.contains(m));
    assert(w.len() > 1);
    let n = w.len() - 2;
    assert(edge(w[n], w[n + 1]));
    let front = w.take(n + 1);
    assert forall|i: int| 0 <= i < front.len() - 1 implies edge(
        #[trigger] front[i],
        front[i + 1],
    ) by {
        assert(front[i] == w[i] && front[i + 1] == w[i + 1]);
    }
    assert(walks(edge, front, a, w[n]));
    assert(reaches(edge, a, w[n]));
    assert(s.contains(w[n]));
}

/// Turning an option off leaves a group that needs a member with one.
pub proof fn law_toggle_keeps_group(o: OptionsView, staged: Set<Str>, opt: Str)
    requires
        staged.contains(opt),
        flipped(o, staged, opt) is Ok,
        group_of(o, opt) is Some,
        (group_of(o, opt)->0).kind == GroupKind::Single || (group_of(o, opt)->0).kind
            == GroupKind::Multi,
        (group_of(o, opt)->0).members.no_duplicates(),
    ensures
        members_on(group_of(o, opt)->0, flipped(o, staged, opt)->Ok_0) >= 1,
{
    let g = group_of(o, opt)->0;
    lemma_first_where(o.groups, has_member(opt, false));
    lemma_count_remove(g.members, staged, opt);
}

/// Taking one option out of a set takes one from the count of the members that
/// are on.
proof fn lemma_count_remove(members: Seq<Str>, staged: Set<Str>, opt: Str)
    requires
        members.no_duplicates(),
        staged.contains(opt),
    ensures
        count_where(members, |m: Str| staged.contains(m)) == count_where(
            members,
            |m: Str| staged.remove(opt).contains(m),
        ) + (if members.contains(opt) {
            1nat
        } else {
            0nat
        }),
    decreases members.len(),
{
    if members.len() > 0 {
        let d = members.drop_last();
        let l = members.last();
        assert(d.no_duplicates());
        lemma_count_remove(d, staged, opt);
        if d.contains(opt) {
            let i = choose|i: int| 0 <= i < d.len() && d[i] == opt;
            assert(members[i] == opt);
            assert(l != opt) by {
                assert(members[members.len() - 1] == l);
            }
        }
        if l == opt {
            assert(members[members.len() - 1] == opt);
        } else if members.contains(opt) {
            let i = choose|i: int| 0 <= i < members.len() && members[i] == opt;
            assert(d[i] == opt);
        }
    }
}

pub(crate) fn count_on(g: &OptionGroup, staged: &OptionSet) -> (n: usize)
    ensures
        n == members_on(g@, staged@),
{
    let ghost p = |m: Str| staged@.contains(m);
    let ghost v = g@.members;
    let mut n: usize = 0;
    let mut i: usize = 0;
    assert(v.take(0) =~= Seq::<Str>::empty());
    while i < g.members.len()
        invariant
            i <= g.members@.len(),
            v == g@.members,
            p == (|m: Str| staged@.contains(m)),
            n == count_where(v.take(i as int), p),
            n <= i,
        decreases g.members@.len() - i,
    {
        proof {
            lemma_take_one(v, i as int);
            assert(v[i as int] == g.members@[i as int]@);
        }
        if staged.contains(&g.members[i]) {
            n = n + 1;
        }
        i = i + 1;
    }
    assert(v.take(g.members@.len() as int) =~= v);
    n
}

/// The index of the first group an option belongs to, of any kind or of those
/// that allow one member only.
fn find_group<'a>(groups: &'a Vec<OptionGroup>, opt: &str, exclusive: bool) -> (r: Option<
    &'a OptionGroup,
>)
    ensures
        ({
            let found = first_where(views(groups@), has_member(opt@, exclusive));
            match r {
                Some(g) => found == Some(g@),
                None => found is None,
            }
        }),
{
    let ghost v = views(groups@);
    let ghost p = has_member(opt@, exclusive);
    let mut i: usize = 0;
    while i < groups.len()
        invariant
            i <= groups@.len(),
            v == views(groups@),
            p == has_member(opt@, exclusive),
            forall|j: int| 0 <= j < i ==> !p(#[trigger] v[j]),
        decreases groups@.len() - i,
    {
        let g = &groups[i];
        assert(v[i as int] == g@);
        if (!exclusive || g.kind.is_exclusive()) && list_has(&g.members, opt) {
            proof {
                lemma_first_where_is(v, p, i as int);
            }
            return Some(g);
        }
        i = i + 1;
    }
    proof {
        lemma_first_where_none(v, p);
    }
    None
}

/// Why an option cannot be turned off.
fn refusal(info: &PortInfo, staged: &OptionSet, opt: &str) -> (r: Option<String>)
    ensures
        opt_view(r) == keeps_on(info@.options, staged@, opt@),
{
    if let Some(by) = implier_of(info, staged, opt) {
        let mut why = owned(opt);
        why.append(" is implied by ");
        why.append(by.as_str());
        why.append("; disable ");
        why.append(by.as_str());
        why.append(" first");
        return Some(why);
    }
    if let Some(g) = find_group(&info.options.groups, opt, false) {
        let on = count_on(g, staged);
        if on == 1 {
            match g.kind {
                GroupKind::Single => {
                    return Some(
                        glue(
                            g.name.as_str(),
                            ": single-choice group needs exactly one option; select another member instead",
                        ),
                    );
                },
                GroupKind::Multi => {
                    return Some(
                        glue(g.name.as_str(), ": multi group needs at least one option enabled"),
                    );
                },
                _ => {},
            }
        }
    }
    None
}

/// The staged set with an option flipped, by the rules of the port, or why it
/// is refused.
pub fn flip(info: &PortInfo, staged: &OptionSet, opt: &str) -> (r: Result<OptionSet, String>)
    ensures
        result_view(r) == flipped(info@.options, staged@, opt@),
{
    if info.options.is_forced(opt) {
        return Err(
            glue(
                opt,
                " is forced by make.conf (*_FORCE); the options file cannot override it",
            ),
        );
    }
    let name = owned(opt);
    let mut set = staged.duplicate();
    if staged.contains(&name) {
        match refusal(info, staged, opt) {
            Some(why) => Err(why),
            None => {
                set.remove(&name);
                Ok(set)
            },
        }
    } else {
        if let Some(g) = find_group(&info.options.groups, opt, true) {
            let others = SortedSet::from_list(&g.members);
            set.drop_all(&others);
        }
        set.insert(name);
        Ok(close_implies(info, set))
    }
}

impl Session {
    /// Replaces the staged set of a state that is there.
    fn stage(&mut self, name: &String, staged: OptionSet)
        requires
            old(self)@.states.dom().contains(name@),
        ensures
            final(self)@ == (SessionView {
                states: old(self)@.states.insert(
                    name@,
                    StateView { staged: staged@, ..old(self)@.states[name@] },
                ),
                ..old(self)@
            }),
    {
        if let Some(mut state) = self.states.remove(name) {
            state.staged = staged;
            self.states.insert(name.clone(), state);
            proof {
                let v = old(self)@.states;
                assert(v.remove(name@).insert(name@, state@) =~= v.insert(name@, state@));
            }
        }
    }

    /// Toggle an option; returns a user-facing error when refused.
    pub fn toggle(&mut self, key: &PortKey, opt: &str) -> (r: Result<(), String>)
        ensures
            (final(self)@, result_view(r)) == toggled(old(self)@, key@, opt@),
    {
        let (name, staged) = match self.ports.get(key) {
            None => {
                return Err(owned("unknown port"));
            },
            Some(info) => match self.states.get(&info.options_name) {
                None => {
                    return Err(owned("port has no options"));
                },
                Some(state) => match flip(info, &state.staged, opt) {
                    Ok(s) => (info.options_name.clone(), s),
                    Err(e) => {
                        return Err(e);
                    },
                },
            },
        };
        self.stage(&name, staged);
        Ok(())
    }
}

// ---------------------------------------------------------------------
// Bulk decisions
// ---------------------------------------------------------------------

/// What a bulk decision has done so far.
#[verifier::ext_equal]
pub struct BulkView {
    pub session: SessionView,
    pub changed: Seq<KeyView>,
    pub skipped: Seq<(KeyView, Str)>,
    /// The options files that were decided.
    pub visited: Set<Str>,
}

/// One more port of a bulk decision: a port that does not have the option is
/// passed over, and so is one whose options file was decided or already has
/// the value.
pub open spec fn bulk_step(b: BulkView, key: KeyView, opt: Str, on: bool) -> BulkView {
    let v = b.session;
    if !v.ports.dom().contains(key) || !v.ports[key].options.complete.contains(opt)
        || b.visited.contains(v.ports[key].options_name) {
        b
    } else {
        let visited = b.visited.insert(v.ports[key].options_name);
        match v.state_of(v.ports[key]) {
            None => BulkView { visited, ..b },
            Some(st) => if st.staged.contains(opt) == on {
                BulkView { visited, ..b }
            } else {
                let (session, r) = toggled(v, key, opt);
                match r {
                    Ok(_) => BulkView { session, changed: b.changed.push(key), visited, ..b },
                    Err(e) => BulkView {
                        session,
                        skipped: b.skipped.push((key, e)),
                        visited,
                        ..b
                    },
                }
            },
        }
    }
}

/// A bulk decision over ports, in order.
pub open spec fn bulk(v: SessionView, keys: Seq<KeyView>, opt: Str, on: bool) -> BulkView
    decreases keys.len(),
{
    if keys.len() == 0 {
        BulkView {
            session: v,
            changed: Seq::empty(),
            skipped: Seq::empty(),
            visited: Set::empty(),
        }
    } else {
        bulk_step(bulk(v, keys.drop_last(), opt, on), keys.last(), opt, on)
    }
}

/// The first pass and a second pass over its result visit the same files, and
/// the second finds every one of them settled.
proof fn lemma_bulk_again(v: SessionView, keys: Seq<KeyView>, more: Seq<KeyView>, opt: Str, on: bool)
    ensures
        ({
            let a = bulk(v, keys + more, opt, on);
            let b = bulk(a.session, keys, opt, on);
            let first = bulk(v, keys, opt, on);
            &&& b.session == a.session
            &&& b.changed.len() == 0
            &&& b.visited == first.visited
            &&& b.skipped == first.skipped
        }),
    decreases keys.len(),
{
    let a = bulk(v, keys + more, opt, on);
    if keys.len() == 0 {
        assert(bulk(a.session, keys, opt, on).changed.len() == 0);
    } else {
        let d = keys.drop_last();
        let k = keys.last();
        let rest = seq![k] + more;
        assert(d + rest =~= keys + more);
        lemma_bulk_again(v, d, rest, opt, on);
        let first = bulk(v, d, opt, on);
        let now = bulk(v, keys, opt, on);
        let second = bulk(a.session, d, opt, on);
        assert(d + seq![k] =~= keys);
        lemma_bulk_ports(v, keys + more, opt, on);
        lemma_bulk_ports(v, d, opt, on);
        lemma_bulk_ports(v, keys, opt, on);
        let info = v.ports[k];
        if v.ports.dom().contains(k) && info.options.complete.contains(opt)
            && !first.visited.contains(info.options_name) {
            let name = info.options_name;
            // The file is decided here for the first time: it has not been
            // touched before, and is not touched again.
            lemma_bulk_untouched(v, d, opt, on, name);
            lemma_bulk_stays(v, keys, more, opt, on, name);
            assert(lookup(a.session.states, name) == lookup(now.session.states, name));
            assert(second.session == a.session);
            match v.state_of(info) {
                None => {},
                Some(st) => {
                    if st.staged.contains(opt) != on {
                        match flipped(info.options, st.staged, opt) {
                            Ok(s) => {
                                law_toggle_flips(info.options, st.staged, opt);
                            },
                            Err(e) => {},
                        }
                    }
                },
            }
        }
    }
}

/// A bulk decision changes nothing but states.
proof fn lemma_bulk_ports(v: SessionView, keys: Seq<KeyView>, opt: Str, on: bool)
    ensures
        bulk(v, keys, opt, on).session == (SessionView {
            states: bulk(v, keys, opt, on).session.states,
            ..v
        }),
    decreases keys.len(),
{
    if keys.len() > 0 {
        lemma_bulk_ports(v, keys.drop_last(), opt, on);
    }
}

/// A state that was not visited is as it was.
proof fn lemma_bulk_untouched(v: SessionView, keys: Seq<KeyView>, opt: Str, on: bool, name: Str)
    requires
        !bulk(v, keys, opt, on).visited.contains(name),
    ensures
        lookup(bulk(v, keys, opt, on).session.states, name) == lookup(v.states, name),
    decreases keys.len(),
{
    if keys.len() > 0 {
        lemma_bulk_ports(v, keys.drop_last(), opt, on);
        lemma_bulk_untouched(v, keys.drop_last(), opt, on, name);
    }
}

/// A state that was visited stays as it is.
proof fn lemma_bulk_stays(
    v: SessionView,
    keys: Seq<KeyView>,
    more: Seq<KeyView>,
    opt: Str,
    on: bool,
    name: Str,
)
    requires
        bulk(v, keys, opt, on).visited.contains(name),
    ensures
        bulk(v, keys + more, opt, on).visited.contains(name),
        lookup(bulk(v, keys + more, opt, on).session.states, name) == lookup(
            bulk(v, keys, opt, on).session.states,
            name,
        ),
    decreases more.len(),
{
    if more.len() == 0 {
        assert(keys + more =~= keys);
    } else {
        let d = more.drop_last();
        lemma_bulk_stays(v, keys, d, opt, on, name);
        assert((keys + more).drop_last() =~= keys + d);
        assert((keys + more).last() == more.last());
        lemma_bulk_ports(v, keys + d, opt, on);
    }
}

/// Deciding the same again changes nothing, and refuses what was refused.
pub proof fn law_bulk_idempotent(v: SessionView, keys: Seq<KeyView>, opt: Str, on: bool)
    ensures
        ({
            let first = bulk(v, keys, opt, on);
            let second = bulk(first.session, keys, opt, on);
            &&& second.session == first.session
            &&& second.changed.len() == 0
            &&& second.skipped == first.skipped
        }),
{
    lemma_bulk_again(v, keys, Seq::empty(), opt, on);
    assert(keys + Seq::<KeyView>::empty() =~= keys);
}

impl Session {
    /// Set `opt` to `on` on every given port that carries it, using the same
    /// rules as toggle (group semantics, FORCED and implied locks).
    /// Returns (changed_ports, skipped) where skipped pairs a port with the
    /// refusal reason. Ports not carrying the option are ignored silently.
    pub fn bulk_set(&mut self, keys: &Vec<PortKey>, opt: &str, on: bool) -> (r: (
        Vec<PortKey>,
        Vec<(PortKey, String)>,
    ))
        ensures
            ({
                let b = bulk(old(self)@, views(keys@), opt@, on);
                &&& final(self)@ == b.session
                &&& views(r.0@) == b.changed
                &&& views(r.1@) == b.skipped
            }),
    {
        broadcast use {crate::text::views_push, crate::text::views_empty};

        let ghost v = self@;
        let ghost q = views(keys@);
        let mut changed: Vec<PortKey> = Vec::new();
        let mut skipped: Vec<(PortKey, String)> = Vec::new();
        // States are shared per OPTIONS_NAME: decide each of them once, so the
        // other flavors of an origin never report a second change.
        let mut visited: SortedSet<String> = SortedSet::new();
        let mut i: usize = 0;
        assert(q.take(0) =~= Seq::<KeyView>::empty());
        while i < keys.len()
            invariant
                i <= keys@.len(),
                q == views(keys@),
                ({
                    let b = bulk(v, q.take(i as int), opt@, on);
                    &&& self@ == b.session
                    &&& views(changed@) == b.changed
                    &&& views(skipped@) == b.skipped
                    &&& visited@ == b.visited
                }),
            decreases keys@.len() - i,
        {
            let key = &keys[i];
            proof {
                lemma_take_one(q, i as int);
                assert(q[i as int] == key@);
            }
            i = i + 1;
            let name = match self.ports.get(key) {
                Some(info) => {
                    if !list_has(&info.options.complete, opt) {
                        continue;
                    }
                    info.options_name.clone()
                },
                None => {
                    continue;
                },
            };
            if visited.contains(&name) {
                continue;
            }
            let known = name.clone();
            visited.insert(known);
            let equal = match self.states.get(&name) {
                Some(state) => state.staged.has(opt) == on,
                None => true,
            };
            if equal {
                continue;
            }
            match self.toggle(key, opt) {
                Ok(_) => {
                    changed.push(key.duplicate());
                },
                Err(reason) => {
                    skipped.push((key.duplicate(), reason));
                },
            }
        }
        assert(q.take(keys@.len() as int) =~= q);
        (changed, skipped)
    }
}

// ---------------------------------------------------------------------
// Going back
// ---------------------------------------------------------------------

/// The session with the staged set of a port's options file replaced; as it is
/// where the port or its state is not known.
pub open spec fn restaged(v: SessionView, key: KeyView, staged: Set<Str>) -> SessionView {
    if v.ports.dom().contains(key) && v.states.dom().contains(v.ports[key].options_name) {
        let name = v.ports[key].options_name;
        SessionView {
            states: v.states.insert(name, StateView { staged, ..v.states[name] }),
            ..v
        }
    } else {
        v
    }
}

/// The options a port has on by default, with what they imply.
pub open spec fn defaults_of(o: OptionsView) -> Set<Str> {
    closure(o, o.complete.to_set().intersect(o.defaults))
}

impl Session {
    pub fn reset_to_defaults(&mut self, key: &PortKey)
        ensures
            final(self)@ == restaged(
                old(self)@,
                key@,
                defaults_of(old(self)@.ports[key@].options),
            ),
    {
        let (name, staged) = match self.ports.get(key) {
            Some(info) => {
                if !self.states.contains_key(&info.options_name) {
                    return;
                }
                let complete = SortedSet::from_list(&info.options.complete);
                let defaults = complete.common(&info.options.defaults);
                (info.options_name.clone(), close_implies(info, defaults))
            },
            None => {
                return;
            },
        };
        self.stage(&name, staged);
    }

    pub fn revert(&mut self, key: &PortKey)
        ensures
            final(self)@ == restaged(
                old(self)@,
                key@,
                old(self)@.states[old(self)@.ports[key@].options_name].baseline,
            ),
    {
        let (name, staged) = match self.ports.get(key) {
            Some(info) => match self.states.get(&info.options_name) {
                Some(state) => (info.options_name.clone(), state.baseline.duplicate()),
                None => {
                    return;
                },
            },
            None => {
                return;
            },
        };
        self.stage(&name, staged);
    }

    /// Stage a set of options for a port's options file.
    pub fn restage(&mut self, key: &PortKey, staged: OptionSet)
        ensures
            final(self)@ == restaged(old(self)@, key@, staged@),
    {
        let name = match self.ports.get(key) {
            Some(info) => {
                if !self.states.contains_key(&info.options_name) {
                    return;
                }
                info.options_name.clone()
            },
            None => {
                return;
            },
        };
        self.stage(&name, staged);
    }

    /// Any staged edit?
    pub fn dirty(&self) -> (r: bool)
        ensures
            r == is_dirty(self@),
    {
        let n = self.states.len();
        let ghost q = ordered::<String>(self@.states.dom());
        proof {
            lemma_ordered::<String>(self@.states.dom());
        }
        let mut i: usize = 0;
        while i < n
            invariant
                i <= n,
                n == q.len(),
                q == ordered::<String>(self@.states.dom()),
                forall|s: Str| self@.states.dom().contains(s) <==> q.contains(s),
                forall|j: int| 0 <= j < i ==> !edited(self@.states[#[trigger] q[j]]),
            decreases n - i,
        {
            let s = self.states.value_at(i);
            if !s.staged.equals(&s.baseline) {
                proof {
                    assert(q.contains(q[i as int]));
                    assert(self@.states.dom().contains(q[i as int]));
                    assert(edited(self@.states[q[i as int]]));
                }
                return true;
            }
            i = i + 1;
        }
        proof {
            assert forall|s: Str| #[trigger] self@.states.dom().contains(s) implies !edited(
                self@.states[s],
            ) by {
                assert(q.contains(s));
                let j = choose|j: int| 0 <= j < q.len() && q[j] == s;
                assert(!edited(self@.states[q[j]]));
            }
        }
        false
    }
}

/// Whether a state has an edit.
pub open spec fn edited(s: StateView) -> bool {
    s.staged != s.baseline
}

/// Whether some state has an edit.
pub open spec fn is_dirty(v: SessionView) -> bool {
    exists|n: Str| #[trigger] v.states.dom().contains(n) && edited(v.states[n])
}

/// Reverting a port undoes every edit of its options file and touches no other:
/// a session whose only edits were there is no longer dirty.
pub proof fn law_revert_clean(v: SessionView, key: KeyView)
    requires
        v.ports.dom().contains(key),
        forall|n: Str| #[trigger]
            v.states.dom().contains(n) && n != v.ports[key].options_name ==> !edited(v.states[n]),
    ensures
        !is_dirty(restaged(v, key, v.states[v.ports[key].options_name].baseline)),
{
}

// ---------------------------------------------------------------------
// Drafts
// ---------------------------------------------------------------------

/// The port whose option list judges a draft's entry.
pub open spec fn draft_owner(v: SessionView, name: Str) -> Option<InfoView> {
    match lookup(v.owners, name) {
        Some(k) => lookup(v.ports, k),
        None => None,
    }
}

/// What a draft's entry stages: the options that the owner still has.
pub open spec fn draft_staged(owner: InfoView, enabled: Set<Str>) -> Set<Str> {
    enabled.intersect(owner.options.complete.to_set())
}

/// Whether an entry of a draft applies: its options file has a state and an
/// owner in the closure.
pub open spec fn draft_applies(v: SessionView, draft: Map<Str, Set<Str>>, n: Str) -> bool {
    draft.dom().contains(n) && v.states.dom().contains(n) && draft_owner(v, n) is Some
}

/// The session with a draft's staged sets in place.
pub open spec fn restored(v: SessionView, draft: Map<Str, Set<Str>>) -> SessionView {
    SessionView {
        states: Map::new(
            |n: Str| v.states.dom().contains(n),
            |n: Str|
                if draft_applies(v, draft, n) {
                    StateView {
                        staged: draft_staged(draft_owner(v, n)->0, draft[n]),
                        ..v.states[n]
                    }
                } else {
                    v.states[n]
                },
        ),
        ..v
    }
}

/// The options files that a draft changes.
pub open spec fn draft_changes(v: SessionView, draft: Map<Str, Set<Str>>) -> Set<Str> {
    Set::new(
        |n: Str|
            draft_applies(v, draft, n) && v.states[n].staged != draft_staged(
                draft_owner(v, n)->0,
                draft[n],
            ),
    )
}

/// Restoring a draft twice is restoring it once: the second time changes
/// nothing.
pub proof fn law_restore_idempotent(v: SessionView, draft: Map<Str, Set<Str>>)
    ensures
        restored(restored(v, draft), draft) == restored(v, draft),
        draft_changes(restored(v, draft), draft) == Set::<Str>::empty(),
{
    let w = restored(v, draft);
    assert(forall|n: Str| draft_owner(w, n) == draft_owner(v, n));
    assert(restored(w, draft).states =~= w.states);
    assert(draft_changes(w, draft) =~= Set::<Str>::empty());
}

impl Session {
    /// Apply a draft's staged sets onto matching states. Entries for unknown
    /// OPTIONS_NAMEs or with options no longer in the owner's option list are
    /// dropped (per-option filtering against the owner's complete list).
    /// Returns how many states changed.
    pub fn restore_draft(&mut self, draft: &Draft) -> (r: usize)
        ensures
            final(self)@ == restored(old(self)@, draft.staged@),
            r == draft_changes(old(self)@, draft.staged@).len(),
    {
        let ghost v = self@;
        let ghost d = draft.staged@;
        let ghost all = draft_changes(v, d);
        let n = draft.staged.len();
        let ghost q = ordered::<String>(d.dom());
        proof {
            lemma_ordered::<String>(d.dom());
            assert(all.intersect(q.take(0).to_set()) =~= Set::<Str>::empty());
            assert(all.intersect(d.dom()) =~= all);
            assert(restored(v, d.restrict(q.take(0).to_set())).states =~= v.states);
        }
        let mut changed: usize = 0;
        let mut i: usize = 0;
        while i < n
            invariant
                i <= n,
                n == q.len(),
                d == draft.staged@,
                d.dom().finite(),
                q == ordered::<String>(d.dom()),
                q.no_duplicates(),
                q.to_set() == d.dom(),
                all == draft_changes(v, d),
                self@ == restored(v, d.restrict(q.take(i as int).to_set())),
                changed == all.intersect(q.take(i as int).to_set()).len(),
                all.intersect(q.take(i as int).to_set()).finite(),
                changed <= i,
            decreases n - i,
        {
            let name = draft.staged.key_at(i);
            let enabled = draft.staged.value_at(i);
            let ghost before = q.take(i as int).to_set();
            let ghost after = q.take(i + 1).to_set();
            let ghost old_view = self@;
            proof {
                lemma_take_set(q, i as int);
                assert(!before.contains(name@)) by {
                    if before.contains(name@) {
                        let j = choose|j: int|
                            0 <= j < q.take(i as int).len() && q.take(i as int)[j] == name@;
                        assert(q[j] == q[i as int]);
                    }
                }
                assert(lookup(old_view.states, name@) == lookup(v.states, name@));
                assert(draft_owner(old_view, name@) == draft_owner(v, name@));
            }
            // Judge against the file OWNER's option list, like the baseline:
            // that is the view apply writes the file from.
            let wanted = match self.owners.get(name) {
                Some(k) => match self.ports.get(k) {
                    Some(owner) => {
                        let known = SortedSet::from_list(&owner.options.complete);
                        Some(enabled.common(&known))
                    },
                    None => None,
                },
                None => None,
            };
            if let Some(filtered) = wanted {
                let differs = match self.states.get(name) {
                    Some(state) => !state.staged.equals(&filtered),
                    None => false,
                };
                if differs {
                    self.stage(name, filtered);
                    changed = changed + 1;
                    proof {
                        assert(all.contains(name@));
                        assert(all.intersect(after) =~= all.intersect(before).insert(name@));
                    }
                } else {
                    assert(all.intersect(after) =~= all.intersect(before));
                }
            } else {
                assert(all.intersect(after) =~= all.intersect(before));
            }
            proof {
                assert(self@.states =~= restored(v, d.restrict(after)).states);
            }
            i = i + 1;
        }
        proof {
            assert(q.take(n as int) =~= q);
            assert(d.restrict(d.dom()) =~= d);
        }
        changed
    }
}

// ---------------------------------------------------------------------
// After an apply
// ---------------------------------------------------------------------

/// The state of an options file with what is saved and the baseline read anew,
/// as the first of the given ports that uses it sees it; as it is where none
/// does. What is staged stays.
pub open spec fn reloaded_state(
    v: SessionView,
    keys: Seq<KeyView>,
    files: Map<Str, SavedView>,
    name: Str,
) -> StateView {
    match first_where(keys, |k: KeyView| v.ports[k].options_name == name) {
        Some(k) => {
            let f = fresh_state(v.owner(v.ports[k]), files);
            StateView { staged: v.states[name].staged, ..f }
        },
        None => v.states[name],
    }
}

/// The session with every options file of its ports read anew.
pub open spec fn reloaded(v: SessionView, files: Map<Str, SavedView>) -> SessionView {
    SessionView {
        states: Map::new(
            |n: Str| v.states.dom().contains(n),
            |n: Str| reloaded_state(v, ordered::<PortKey>(v.ports.dom()), files, n),
        ),
        ..v
    }
}

impl Session {
    /// Reload saved files after an apply so statuses reflect reality.
    pub fn reload_saved(&mut self, files: &SortedMap<String, SavedOptionsFile>)
        ensures
            final(self)@ == reloaded(old(self)@, files@),
    {
        let ghost v = self@;
        let n = self.ports.len();
        let ghost q = ordered::<PortKey>(v.ports.dom());
        let mut done: SortedSet<String> = SortedSet::new();
        proof {
            lemma_ordered::<PortKey>(v.ports.dom());
            assert(q.take(0) =~= Seq::<KeyView>::empty());
        }
        let mut i: usize = 0;
        while i < n
            invariant
                i <= n,
                n == q.len(),
                q == ordered::<PortKey>(v.ports.dom()),
                self@ == (SessionView { states: self@.states, ..v }),
                forall|m: Str| #[trigger]
                    self@.states.dom().contains(m) <==> v.states.dom().contains(m),
                forall|m: Str| #[trigger]
                    v.states.dom().contains(m) ==> self@.states[m] == reloaded_state(
                        v,
                        q.take(i as int),
                        files@,
                        m,
                    ),
                forall|m: Str| #[trigger]
                    v.states.dom().contains(m) ==> (done@.contains(m) <==> first_where(
                        q.take(i as int),
                        |k: KeyView| v.ports[k].options_name == m,
                    ) is Some),
            decreases n - i,
        {
            let info = self.ports.value_at(i);
            let name = info.options_name.clone();
            let ghost was = self@.states;
            proof {
                lemma_take_one(q, i as int);
            }
            if self.states.contains_key(&name) && !done.contains(&name) {
                assert(v.states.dom().contains(name@));
                let owner = self.owner_info(info);
                assert(self@.owner(info@) == v.owner(info@));
                let fresh = new_state(owner, files);
                if let Some(mut state) = self.states.remove(&name) {
                    state.saved = fresh.saved;
                    state.baseline = fresh.baseline;
                    let k = name.clone();
                    self.states.insert(k, state);
                }
                done.insert(name);
            }
            proof {
                assert forall|m: Str| #[trigger] v.states.dom().contains(m) implies self@.states[m]
                    == reloaded_state(v, q.take(i + 1), files@, m) by {
                    assert(was.dom().contains(m));
                }
            }
            i = i + 1;
        }
        proof {
            assert(q.take(n as int) =~= q);
            assert(self@.states =~= reloaded(v, files@).states);
        }
    }
}

} // verus!
