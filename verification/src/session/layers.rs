//! The make.conf layers below the options file, and what they leave open.
use vstd::prelude::*;

use crate::list::{lemma_filter_none, lemma_filter_one};
use crate::model::options::{GroupView, OptionGroup, OptionSet, OptionsView, PortOptions};
use crate::model::port::PortInfo;
use crate::optionsfile::{SavedOptionsFile, SavedView};
use crate::session::implies::{close_implies, closure};
use crate::sorted::{lemma_ordered, lemma_take_set, ordered, SortedSet};
use crate::text::{glue, join, join_with, list_has, views, Str};

verus! {

// ---------------------------------------------------------------------
// Without an options file
// ---------------------------------------------------------------------

/// Whether an option is on from defaults and make.conf alone, before implied
/// options: of the layers that name it the last decides, in the framework's
/// order (defaults, global set and unset, per-port set and unset, then the
/// FORCE knobs the same way).
pub open spec fn layered(o: OptionsView, opt: Str) -> bool {
    o.complete.contains(opt) && match o.forced(opt) {
        Some(on) => on,
        None => if o.port_unset.contains(opt) {
            false
        } else if o.port_set.contains(opt) {
            true
        } else if o.mc_unset.contains(opt) {
            false
        } else if o.mc_set.contains(opt) {
            true
        } else {
            o.defaults.contains(opt)
        },
    }
}

/// The options that are on without an options file.
pub open spec fn nofile(o: OptionsView) -> Set<Str> {
    closure(o, Set::new(|opt: Str| layered(o, opt)))
}

/// Turns on the options of a layer that the port has.
fn layer_on(set: &mut OptionSet, layer: &OptionSet, complete: &OptionSet)
    ensures
        final(set)@ == old(set)@.union(layer@.intersect(complete@)),
{
    let n = layer.len();
    let ghost was = set@;
    let ghost q = ordered::<String>(layer@);
    proof {
        lemma_ordered::<String>(layer@);
        assert(was.union(q.take(0).to_set().intersect(complete@)) =~= was);
    }
    let mut i: usize = 0;
    while i < n
        invariant
            i <= n,
            n == q.len(),
            q == ordered::<String>(layer@),
            set@ == was.union(q.take(i as int).to_set().intersect(complete@)),
        decreases n - i,
    {
        let opt = layer.at(i);
        if complete.contains(opt) {
            set.insert(opt.clone());
        }
        proof {
            lemma_take_set(q, i as int);
            assert(set@ =~= was.union(q.take(i + 1).to_set().intersect(complete@)));
        }
        i = i + 1;
    }
    assert(q.take(n as int) =~= q);
}

/// Effective options as they would be WITHOUT any options file: the
/// bsd.options.mk application order (defaults, make.conf layers, FORCE,
/// IMPLIES closure) minus the options-file layer.
pub fn nofile_effective(info: &PortInfo) -> (r: OptionSet)
    ensures
        r@ == nofile(info@.options),
{
    let o = &info.options;
    let complete = SortedSet::from_list(&o.complete);
    let mut set: OptionSet = SortedSet::new();
    layer_on(&mut set, &o.defaults, &complete);
    // One pass per layer: each scope's UNSET runs before the next scope's SET,
    // which is what lets the per-port knob override the global one.
    layer_on(&mut set, &o.mc_set, &complete);
    set.drop_all(&o.mc_unset);
    layer_on(&mut set, &o.port_set, &complete);
    set.drop_all(&o.port_unset);
    layer_on(&mut set, &o.force_set, &complete);
    set.drop_all(&o.force_unset);
    layer_on(&mut set, &o.port_force_set, &complete);
    set.drop_all(&o.port_force_unset);
    proof {
        let v = info@.options;
        let want = Set::new(|opt: Str| layered(v, opt));
        assert forall|opt: Str| set@.contains(opt) <==> want.contains(opt) by {
            assert(complete@.contains(opt) <==> v.complete.contains(opt));
        }
        assert(set@ =~= want);
    }
    close_implies(info, set)
}

/// A per-port make.conf knob beats the global one for an option the port has,
/// whatever the global layers say, unless a FORCE knob decides the option.
pub proof fn law_port_knob_wins(o: OptionsView, opt: Str)
    requires
        o.complete.contains(opt),
        o.forced(opt) is None,
    ensures
        o.port_set.contains(opt) && !o.port_unset.contains(opt) ==> layered(o, opt),
        o.port_unset.contains(opt) ==> !layered(o, opt),
{
}

// ---------------------------------------------------------------------
// What is left to decide
// ---------------------------------------------------------------------

/// Whether make.conf turns an option on.
pub open spec fn selected(o: OptionsView, opt: Str) -> bool {
    o.mc_set.contains(opt) || o.port_set.contains(opt) || o.forced(opt) == Some(true)
}

/// Whether make.conf names an option at all.
pub open spec fn dictated(o: OptionsView, opt: Str) -> bool {
    selected(o, opt) || o.mc_unset.contains(opt) || o.port_unset.contains(opt) || o.forced(opt)
        == Some(false)
}

/// Whether make.conf selects a member of a group that allows only one.
pub open spec fn settled(o: OptionsView, g: GroupView) -> bool {
    g.kind.exclusive() && exists|i: int|
        0 <= i < g.members.len() && selected(o, #[trigger] g.members[i])
}

/// Whether some group settles an option.
pub open spec fn group_settles(o: OptionsView, opt: Str) -> bool {
    exists|i: int|
        0 <= i < o.groups.len() && settled(o, #[trigger] o.groups[i])
            && o.groups[i].members.contains(opt)
}

/// Whether an option needs a decision: the file does not know it and no
/// make.conf layer decides it, by name or through its group.
pub open spec fn is_open(o: OptionsView, saved: Option<SavedView>, opt: Str) -> bool {
    &&& !(saved is Some && (saved->0).knows(opt))
    &&& !dictated(o, opt)
    &&& !group_settles(o, opt)
}

/// The options that need a decision, in the port's order; none where defaults
/// count as decisions.
pub open spec fn undecided(o: OptionsView, saved: Option<SavedView>, minimal: bool) -> Seq<Str> {
    if minimal {
        Seq::empty()
    } else {
        o.complete.filter(|opt: Str| is_open(o, saved, opt))
    }
}

fn mc_selected(o: &PortOptions, opt: &str) -> (r: bool)
    ensures
        r == selected(o@, opt@),
{
    o.mc_set.has(opt) || o.port_set.has(opt) || match o.forced_value(opt) {
        Some(on) => on,
        None => false,
    }
}

fn mc_decided(o: &PortOptions, opt: &str) -> (r: bool)
    ensures
        r == dictated(o@, opt@),
{
    mc_selected(o, opt) || o.mc_unset.has(opt) || o.port_unset.has(opt) || match o.forced_value(
        opt,
    ) {
        Some(on) => !on,
        None => false,
    }
}

fn group_settled(o: &PortOptions, g: &OptionGroup) -> (r: bool)
    ensures
        r == settled(o@, g@),
{
    if !g.kind.is_exclusive() {
        return false;
    }
    let mut i: usize = 0;
    while i < g.members.len()
        invariant
            i <= g.members@.len(),
            forall|j: int| 0 <= j < i ==> !selected(o@, #[trigger] g@.members[j]),
            g@.kind.exclusive(),
        decreases g.members@.len() - i,
    {
        assert(g@.members[i as int] == g.members@[i as int]@);
        if mc_selected(o, g.members[i].as_str()) {
            return true;
        }
        i = i + 1;
    }
    false
}

fn settled_by_group(o: &PortOptions, opt: &str) -> (r: bool)
    ensures
        r == group_settles(o@, opt@),
{
    let mut i: usize = 0;
    while i < o.groups.len()
        invariant
            i <= o.groups@.len(),
            forall|j: int|
                0 <= j < i ==> !(settled(o@, #[trigger] o@.groups[j])
                    && o@.groups[j].members.contains(opt@)),
        decreases o.groups@.len() - i,
    {
        let g = &o.groups[i];
        assert(o@.groups[i as int] == g@);
        if group_settled(o, g) && list_has(&g.members, opt) {
            return true;
        }
        i = i + 1;
    }
    false
}

/// Options that genuinely need a human decision: not recorded in the saved
/// file (all of them, for an unconfigured port) and not dictated by any
/// make.conf layer (global OPTIONS_SET/UNSET, per-port _SET/_UNSET, *_FORCE).
///
/// Group semantics count as decisions too: when make.conf positively selects
/// a member of a SINGLE (exactly one) or RADIO (at most one) group, the
/// other members of that group are implicitly decided as off.
///
/// With `minimal` the default value is the decision: every option has one, so
/// nothing is ever undecided.
pub fn undecided_options(
    info: &PortInfo,
    saved: Option<&SavedOptionsFile>,
    minimal: bool,
) -> (r: Vec<String>)
    ensures
        views(r@) == undecided(info@.options, saved_view(saved), minimal),
{
    broadcast use {crate::text::views_push, crate::text::views_empty};

    let mut r: Vec<String> = Vec::new();
    if minimal {
        return r;
    }
    let o = &info.options;
    let ghost p = |opt: Str| is_open(o@, saved_view(saved), opt);
    proof {
        lemma_filter_none(o@.complete, p);
    }
    let mut i: usize = 0;
    while i < o.complete.len()
        invariant
            i <= o.complete@.len(),
            p == (|opt: Str| is_open(o@, saved_view(saved), opt)),
            views(r@) == o@.complete.take(i as int).filter(p),
        decreases o.complete@.len() - i,
    {
        let opt = o.complete[i].as_str();
        let known = match saved {
            Some(s) => s.knows(opt),
            None => false,
        };
        proof {
            assert(o@.complete[i as int] == opt@);
            lemma_filter_one(o@.complete, i as int, p);
        }
        if !known && !mc_decided(o, opt) && !settled_by_group(o, opt) {
            r.push(o.complete[i].clone());
        }
        i = i + 1;
    }
    assert(o@.complete.take(o.complete@.len() as int) =~= o@.complete);
    r
}

/// The view of a borrowed options file.
pub open spec fn saved_view(saved: Option<&SavedOptionsFile>) -> Option<SavedView> {
    match saved {
        Some(s) => Some(s@),
        None => None,
    }
}

/// Removed options never need a decision: where the file knows every option
/// the port has, nothing is undecided.
pub proof fn law_known_is_decided(o: OptionsView, saved: SavedView, minimal: bool)
    requires
        forall|i: int| 0 <= i < o.complete.len() ==> saved.knows(#[trigger] o.complete[i]),
    ensures
        undecided(o, Some(saved), minimal).len() == 0,
{
    if !minimal {
        let p = |opt: Str| is_open(o, Some(saved), opt);
        crate::list::lemma_filter_holds(o.complete, p);
        let f = o.complete.filter(p);
        if f.len() > 0 {
            assert(f.contains(f[0]));
            let i = choose|i: int| 0 <= i < o.complete.len() && o.complete[i] == f[0];
            assert(saved.knows(o.complete[i]));
        }
    }
}

// ---------------------------------------------------------------------
// Differences
// ---------------------------------------------------------------------

/// Each text with a sign before it.
pub open spec fn signed(sign: Str, s: Seq<Str>) -> Seq<Str> {
    s.map_values(|o: Str| sign + o)
}

/// What one set has over another as `+` tokens, then what it lacks as `-`
/// tokens, each in option order.
pub open spec fn diff_tokens(before: Set<Str>, after: Set<Str>) -> Seq<Str> {
    signed("+"@, ordered::<String>(after.difference(before))) + signed(
        "-"@,
        ordered::<String>(before.difference(after)),
    )
}

/// Appends the options of a set to a list, each with a sign before it.
fn push_signed(out: &mut Vec<String>, sign: &str, set: &OptionSet)
    ensures
        views(final(out)@) == views(old(out)@) + signed(sign@, ordered::<String>(set@)),
{
    broadcast use crate::text::views_push;

    let n = set.len();
    let ghost was = views(out@);
    let ghost q = ordered::<String>(set@);
    let mut i: usize = 0;
    assert(was + signed(sign@, q.take(0)) =~= was);
    while i < n
        invariant
            i <= n,
            n == q.len(),
            q == ordered::<String>(set@),
            views(out@) == was + signed(sign@, q.take(i as int)),
        decreases n - i,
    {
        let t = glue(sign, set.at(i).as_str());
        let ghost so_far = views(out@);
        out.push(t);
        proof {
            assert(views(out@) == so_far.push(t@));
            assert(signed(sign@, q.take(i + 1)) =~= signed(sign@, q.take(i as int)).push(
                sign@ + q[i as int],
            ));
            assert(views(out@) =~= was + signed(sign@, q.take(i + 1)));
        }
        i = i + 1;
    }
    assert(q.take(n as int) =~= q);
}

/// What changes from one set to another, as tokens.
pub fn set_diff(before: &OptionSet, after: &OptionSet) -> (r: Vec<String>)
    ensures
        views(r@) == diff_tokens(before@, after@),
{
    let mut r: Vec<String> = Vec::new();
    let added = after.minus(before);
    let removed = before.minus(after);
    push_signed(&mut r, "+", &added);
    push_signed(&mut r, "-", &removed);
    assert(views(r@) =~= diff_tokens(before@, after@));
    r
}

/// Format the option changes between two staged snapshots as `+ADDED` /
/// `-REMOVED` tokens (additions first, each group in option order); the empty
/// string when the two sets are identical.
pub fn staged_diff(before: &OptionSet, after: &OptionSet) -> (r: String)
    ensures
        r@ == join(diff_tokens(before@, after@), " "@),
{
    let tokens = set_diff(before, after);
    join_with(&tokens, " ")
}

/// There is something to show exactly where two finite sets differ.
pub proof fn law_diff_empty(before: Set<Str>, after: Set<Str>)
    requires
        before.finite(),
        after.finite(),
    ensures
        diff_tokens(before, after).len() == 0 <==> before == after,
        before == after ==> join(diff_tokens(before, after), " "@).len() == 0,
{
    let a = after.difference(before);
    let b = before.difference(after);
    lemma_ordered::<String>(a);
    lemma_ordered::<String>(b);
    if diff_tokens(before, after).len() == 0 {
        assert(a.len() == 0 && b.len() == 0);
        assert forall|x: Str| before.contains(x) <==> after.contains(x) by {
            if before.contains(x) && !after.contains(x) {
                assert(b.contains(x));
            }
            if after.contains(x) && !before.contains(x) {
                assert(a.contains(x));
            }
        }
        assert(before =~= after);
    } else if before == after {
        assert(a =~= Set::empty());
        assert(b =~= Set::empty());
    }
}

/// Does the port refuse to build as queried (port-level BROKEN or IGNORE)?
/// The two are one condition for attribution: either one blocks the build.
pub fn is_blocked(info: &PortInfo) -> (r: bool)
    ensures
        r == (info@.broken is Some || info@.ignore is Some),
{
    info.broken.is_some() || info.ignore.is_some()
}

/// What changes from one set to another, token by token: `+` before an option
/// that comes, `-` before one that goes, and nothing else.
pub proof fn law_diff_tokens(before: Set<Str>, after: Set<Str>, t: Str)
    requires
        before.finite(),
        after.finite(),
    ensures
        diff_tokens(before, after).contains(t) <==> exists|x: Str|
            (t == "+"@ + x && after.contains(x) && !before.contains(x)) || (t == "-"@ + x
                && #[trigger] before.contains(x) && !after.contains(x)),
{
    let a = after.difference(before);
    let b = before.difference(after);
    lemma_ordered::<String>(a);
    lemma_ordered::<String>(b);
    let p = ordered::<String>(a);
    let q = ordered::<String>(b);
    let d = diff_tokens(before, after);
    if d.contains(t) {
        let i = choose|i: int| 0 <= i < d.len() && d[i] == t;
        if i < p.len() {
            assert(p.contains(p[i]));
            assert(a.contains(p[i]));
            assert(!before.contains(p[i]));
            assert(t == "+"@ + p[i]);
        } else {
            let j = i - p.len();
            assert(q.contains(q[j]));
            assert(b.contains(q[j]));
            assert(t == "-"@ + q[j]);
        }
    }
    if exists|x: Str|
        (t == "+"@ + x && after.contains(x) && !before.contains(x)) || (t == "-"@ + x
            && #[trigger] before.contains(x) && !after.contains(x)) {
        let x = choose|x: Str|
            (t == "+"@ + x && after.contains(x) && !before.contains(x)) || (t == "-"@ + x
                && #[trigger] before.contains(x) && !after.contains(x));
        if t == "+"@ + x && after.contains(x) && !before.contains(x) {
            assert(a.contains(x));
            assert(p.contains(x));
            let i = choose|i: int| 0 <= i < p.len() && p[i] == x;
            assert(d[i] == t);
        } else {
            assert(b.contains(x));
            assert(q.contains(x));
            let i = choose|i: int| 0 <= i < q.len() && q[i] == x;
            assert(d[p.len() + i] == t);
        }
    }
}

} // verus!
