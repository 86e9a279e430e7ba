//! Judging a port: conflicts, staleness, and how it stands against make.conf.
use vstd::prelude::*;

use crate::list::{lemma_filter_none, lemma_filter_one};
use crate::model::options::{DefView, GroupKind, GroupView, OptionGroup, OptionSet, OptionsView};
use crate::model::port::{InfoView, PortInfo};
use crate::session::base::{Session, SessionView};
use crate::session::edit::{count_on, edited, members_on};
use crate::session::implies::{implier, implier_of};
use crate::session::layers::{nofile, nofile_effective, undecided, undecided_options};
use crate::sorted::{lemma_ordered, ordered, SortedSet};
use crate::text::{decimal, glue, glue3, number, opt_view, views, Str};

verus! {

/// UI-level status of a port, most severe first.
#[derive(Clone, Copy, Debug, PartialEq, Eq, PartialOrd, Ord, Structural)]
pub enum UiStatus {
    Conflict,
    Edited,
    Unconfigured,
    Stale,
    /// Staged options contradict the global make.conf OPTIONS_SET/UNSET
    /// policy (only produced when the mc-warn view is active).
    McDeviation,
    Okay,
}

// ---------------------------------------------------------------------
// Conflicts
// ---------------------------------------------------------------------

/// The message on an option that is on together with one it prevents.
pub open spec fn prevents_text(opt: Str, def: DefView, p: Str) -> Str {
    opt + " conflicts with "@ + p + ": "@ + match def.prevents_msg {
        Some(m) => m,
        None => "mutually exclusive"@,
    }
}

/// Whether a message is due because an enabled option prevents another.
pub open spec fn prevents_due(o: OptionsView, staged: Set<Str>, opt: Str, m: Str) -> bool {
    staged.contains(opt) && o.defs.dom().contains(opt) && exists|j: int|
        0 <= j < o.defs[opt].prevents.len() && staged.contains(
            #[trigger] o.defs[opt].prevents[j],
        ) && m == prevents_text(opt, o.defs[opt], o.defs[opt].prevents[j])
}

/// The message on a group whose constraint the staged set breaks.
pub open spec fn group_breach(g: GroupView, staged: Set<Str>) -> Option<Str> {
    let on = members_on(g, staged);
    match g.kind {
        GroupKind::Single => if on != 1 {
            Some(
                "group "@ + g.name + " needs exactly one member enabled ("@ + decimal(on)
                    + " enabled)"@,
            )
        } else {
            None
        },
        GroupKind::Multi => if on == 0 {
            Some("group "@ + g.name + " needs at least one member enabled"@)
        } else {
            None
        },
        GroupKind::Radio => if on > 1 {
            Some(
                "group "@ + g.name + " allows at most one member enabled ("@ + decimal(on)
                    + " enabled)"@,
            )
        } else {
            None
        },
        GroupKind::Group => None,
    }
}

/// Every message on a staged set.
pub open spec fn breaches(o: OptionsView, staged: Set<Str>) -> Set<Str> {
    Set::new(
        |m: Str|
            (exists|opt: Str| #[trigger] prevents_due(o, staged, opt, m)) || (exists|i: int|
                0 <= i < o.groups.len() && group_breach(#[trigger] o.groups[i], staged) == Some(
                    m,
                )),
    )
}

/// The messages on a port, each once, in order; none where it has no state.
pub open spec fn violations_of(v: SessionView, info: InfoView) -> Seq<Str> {
    match v.state_of(info) {
        Some(st) => ordered::<String>(breaches(info.options, st.staged)),
        None => Seq::empty(),
    }
}

fn breach(g: &OptionGroup, staged: &OptionSet) -> (r: Option<String>)
    ensures
        opt_view(r) == group_breach(g@, staged@),
{
    let on = count_on(g, staged);
    let mut m = glue("group ", g.name.as_str());
    match g.kind {
        GroupKind::Single => {
            if on != 1 {
                m.append(" needs exactly one member enabled (");
                let c = number(on as u64);
                m.append(c.as_str());
                m.append(" enabled)");
                return Some(m);
            }
        },
        GroupKind::Multi => {
            if on == 0 {
                m.append(" needs at least one member enabled");
                return Some(m);
            }
        },
        GroupKind::Radio => {
            if on > 1 {
                m.append(" allows at most one member enabled (");
                let c = number(on as u64);
                m.append(c.as_str());
                m.append(" enabled)");
                return Some(m);
            }
        },
        GroupKind::Group => {},
    }
    None
}

/// Whether a message is due for the first enabled options.
spec fn prevents_so_far(o: OptionsView, staged: Set<Str>, opts: Seq<Str>, m: Str) -> bool {
    exists|i: int| 0 <= i < opts.len() && prevents_due(o, staged, #[trigger] opts[i], m)
}

/// Whether a message is due for the first groups.
spec fn groups_so_far(groups: Seq<GroupView>, staged: Set<Str>, m: Str) -> bool {
    exists|i: int|
        0 <= i < groups.len() && group_breach(#[trigger] groups[i], staged) == Some(m)
}

fn prevents_messages(info: &PortInfo, staged: &OptionSet) -> (out: SortedSet<String>)
    ensures
        forall|m: Str| #[trigger]
            out@.contains(m) <==> exists|opt: Str| #[trigger]
                prevents_due(info@.options, staged@, opt, m),
{
    let ghost o = info@.options;
    let mut out: SortedSet<String> = SortedSet::new();
    let n = staged.len();
    let ghost q = ordered::<String>(staged@);
    proof {
        lemma_ordered::<String>(staged@);
    }
    let mut i: usize = 0;
    while i < n
        invariant
            i <= n,
            n == q.len(),
            o == info@.options,
            q == ordered::<String>(staged@),
            forall|m: Str| #[trigger]
                out@.contains(m) <==> prevents_so_far(o, staged@, q.take(i as int), m),
        decreases n - i,
    {
        let opt = staged.at(i);
        let ghost was = out@;
        let ghost before = q.take(i as int);
        let ghost after = q.take(i + 1);
        assert(after[i as int] == opt@);
        if let Some(def) = info.options.defs.get(opt) {
            let ghost ps = def@.prevents;
            let mut j: usize = 0;
            while j < def.prevents.len()
                invariant
                    j <= def.prevents@.len(),
                    o == info@.options,
                    o.defs.dom().contains(opt@),
                    staged@.contains(opt@),
                    def@ == o.defs[opt@],
                    ps == def@.prevents,
                    forall|m: Str| #[trigger]
                        out@.contains(m) <==> was.contains(m) || exists|k: int|
                            0 <= k < j && staged@.contains(#[trigger] ps[k]) && m
                                == prevents_text(opt@, def@, ps[k]),
                decreases def.prevents@.len() - j,
            {
                let p = &def.prevents[j];
                assert(ps[j as int] == p@);
                let ghost old_out = out@;
                if staged.contains(p) {
                    let mut m = glue3(opt.as_str(), " conflicts with ", p.as_str());
                    m.append(": ");
                    match &def.prevents_msg {
                        Some(msg) => m.append(msg.as_str()),
                        None => m.append("mutually exclusive"),
                    }
                    assert(m@ == prevents_text(opt@, def@, p@));
                    out.insert(m);
                }
                proof {
                    assert forall|m: Str| #[trigger]
                        out@.contains(m) <==> was.contains(m) || exists|k: int|
                            0 <= k < j + 1 && staged@.contains(#[trigger] ps[k]) && m
                                == prevents_text(opt@, def@, ps[k]) by {
                        if out@.contains(m) && !old_out.contains(m) {
                            assert(staged@.contains(ps[j as int]));
                        }
                        if exists|k: int|
                            0 <= k < j + 1 && staged@.contains(#[trigger] ps[k]) && m
                                == prevents_text(opt@, def@, ps[k]) {
                            let k = choose|k: int|
                                0 <= k < j + 1 && staged@.contains(#[trigger] ps[k]) && m
                                    == prevents_text(opt@, def@, ps[k]);
                            if k < j {
                                assert(old_out.contains(m));
                            }
                        }
                    }
                }
                j = j + 1;
            }
        }
        proof {
            assert forall|m: Str| #[trigger]
                out@.contains(m) <==> prevents_so_far(o, staged@, after, m) by {
                assert(prevents_due(o, staged@, opt@, m) ==> prevents_due(
                    o,
                    staged@,
                    after[i as int],
                    m,
                ));
                if prevents_so_far(o, staged@, before, m) {
                    let k = choose|k: int|
                        0 <= k < before.len() && prevents_due(o, staged@, #[trigger] before[k], m);
                    assert(prevents_due(o, staged@, after[k], m));
                }
                if prevents_so_far(o, staged@, after, m) {
                    let k = choose|k: int|
                        0 <= k < after.len() && prevents_due(o, staged@, #[trigger] after[k], m);
                    if k < i {
                        assert(prevents_due(o, staged@, before[k], m));
                    }
                }
                assert(was.contains(m) <==> prevents_so_far(o, staged@, before, m));
            }
        }
        i = i + 1;
    }
    proof {
        assert(q.take(n as int) =~= q);
        assert forall|m: Str| #[trigger] out@.contains(m) <==> exists|opt: Str| #[trigger]
            prevents_due(o, staged@, opt, m) by {
            if exists|opt: Str| #[trigger] prevents_due(o, staged@, opt, m) {
                let opt = choose|opt: Str| #[trigger] prevents_due(o, staged@, opt, m);
                assert(q.contains(opt));
                let k = choose|k: int| 0 <= k < q.len() && q[k] == opt;
                assert(prevents_due(o, staged@, q[k], m));
            }
        }
    }
    out
}

/// Every message on a staged set.
fn all_breaches(info: &PortInfo, staged: &OptionSet) -> (out: SortedSet<String>)
    ensures
        out@ == breaches(info@.options, staged@),
{
    let ghost o = info@.options;
    let mut out = prevents_messages(info, staged);
    let ghost first = out@;
    let mut i: usize = 0;
    while i < info.options.groups.len()
        invariant
            i <= info.options.groups@.len(),
            o == info@.options,
            forall|m: Str| #[trigger]
                out@.contains(m) <==> first.contains(m) || groups_so_far(
                    o.groups.take(i as int),
                    staged@,
                    m,
                ),
        decreases info.options.groups@.len() - i,
    {
        let g = &info.options.groups[i];
        let ghost before = o.groups.take(i as int);
        let ghost after = o.groups.take(i + 1);
        let ghost was = out@;
        assert(after[i as int] == g@);
        if let Some(m) = breach(g, staged) {
            out.insert(m);
        }
        proof {
            assert forall|m: Str| #[trigger]
                out@.contains(m) <==> first.contains(m) || groups_so_far(after, staged@, m) by {
                if groups_so_far(before, staged@, m) {
                    let k = choose|k: int|
                        0 <= k < before.len() && group_breach(#[trigger] before[k], staged@)
                            == Some(m);
                    assert(group_breach(after[k], staged@) == Some(m));
                }
                if group_breach(g@, staged@) == Some(m) {
                    assert(group_breach(after[i as int], staged@) == Some(m));
                }
                if groups_so_far(after, staged@, m) {
                    let k = choose|k: int|
                        0 <= k < after.len() && group_breach(#[trigger] after[k], staged@) == Some(
                            m,
                        );
                    if k < i {
                        assert(group_breach(before[k], staged@) == Some(m));
                    }
                }
                assert(was.contains(m) <==> first.contains(m) || groups_so_far(
                    before,
                    staged@,
                    m,
                ));
            }
        }
        i = i + 1;
    }
    proof {
        assert(o.groups.take(o.groups.len() as int) =~= o.groups);
        assert(out@ =~= breaches(o, staged@));
    }
    out
}

// ---------------------------------------------------------------------
// Status
// ---------------------------------------------------------------------

/// The status of a port, the most severe that applies.
pub open spec fn status_of(v: SessionView, info: InfoView) -> UiStatus {
    if info.options.complete.len() == 0 {
        UiStatus::Okay
    } else {
        match v.state_of(info) {
            None => UiStatus::Okay,
            Some(st) => if breaches(info.options, st.staged) != Set::<Str>::empty() {
                UiStatus::Conflict
            } else if edited(st) {
                UiStatus::Edited
            } else {
                match st.saved {
                    None => UiStatus::Unconfigured,
                    Some(saved) => if v.owner(info).options.complete.to_set()
                        == saved.complete.to_set() {
                        UiStatus::Okay
                    } else {
                        UiStatus::Stale
                    },
                }
            },
        }
    }
}

/// Whether make.conf takes a stance on an option and the staged value differs
/// from what defaults and make.conf alone would give.
pub open spec fn deviates(o: OptionsView, staged: Set<Str>, opt: Str) -> bool {
    o.forced(opt) is None && (o.global_mentions(opt) || o.port_mentions(opt)) && staged.contains(
        opt,
    ) != nofile(o).contains(opt)
}

/// Whether an option of a port deviates from make.conf.
pub open spec fn mc_deviates_of(v: SessionView, info: InfoView, opt: Str) -> bool {
    match v.state_of(info) {
        Some(st) => deviates(info.options, st.staged, opt),
        None => false,
    }
}

/// Staged options that agree with defaults and make.conf are no deviation,
/// whatever the layers say.
pub proof fn law_agreement_is_no_deviation(o: OptionsView, opt: Str)
    ensures
        !deviates(o, nofile(o), opt),
{
}

impl Session {
    /// check-config-style validation of the staged set.
    pub fn violations(&self, info: &PortInfo) -> (r: Vec<String>)
        ensures
            views(r@) == violations_of(self@, info@),
    {
        broadcast use crate::text::views_empty;

        match self.state(info) {
            Some(state) => all_breaches(info, &state.staged).to_list(),
            None => Vec::new(),
        }
    }

    pub fn status(&self, info: &PortInfo) -> (r: UiStatus)
        ensures
            r == status_of(self@, info@),
    {
        if !info.options.has_options() {
            return UiStatus::Okay;
        }
        let state = match self.state(info) {
            Some(s) => s,
            None => {
                return UiStatus::Okay;
            },
        };
        let broken = all_breaches(info, &state.staged);
        if !broken.is_empty() {
            return UiStatus::Conflict;
        }
        if !state.staged.equals(&state.baseline) {
            return UiStatus::Edited;
        }
        match &state.saved {
            None => UiStatus::Unconfigured,
            Some(saved) => {
                // Judge staleness against the file OWNER's option list: a
                // non-default flavor excludes options on purpose and must not
                // read the owner-written file as stale.
                let owner = self.owner_info(info);
                let cur = SortedSet::from_list(&owner.options.complete);
                let was = SortedSet::from_list(&saved.complete);
                if cur.equals(&was) {
                    UiStatus::Okay
                } else {
                    UiStatus::Stale
                }
            },
        }
    }

    /// True when the port's Stale/Unconfigured status introduces no real
    /// decision because make.conf (global OPTIONS_SET/UNSET, per-port
    /// _SET/_UNSET or *_FORCE) already dictates the relevant options:
    /// for a stale port, every option added since the file was written
    /// (removed options never need a decision); for an unconfigured port,
    /// every option it has.
    pub fn covered_by_makeconf(&self, info: &PortInfo) -> (r: bool)
        ensures
            r == match self@.state_of(info@) {
                Some(st) => undecided(info@.options, st.saved, self@.minimal).len() == 0,
                None => false,
            },
    {
        match self.state(info) {
            Some(state) => undecided_options(info, state.saved.as_ref(), self.minimal).len() == 0,
            None => false,
        }
    }

    /// Does this option's staged value contradict make.conf policy?
    /// Outcome-based: make.conf must take a stance on the option (any
    /// OPTIONS_SET/UNSET or per-port _SET/_UNSET mention) and the staged
    /// value must differ from what defaults + make.conf alone would yield.
    /// FORCE-decided options are excluded: the file cannot override them.
    pub fn mc_deviates(&self, info: &PortInfo, opt: &str) -> (r: bool)
        ensures
            r == mc_deviates_of(self@, info@, opt@),
    {
        let state = match self.state(info) {
            Some(s) => s,
            None => {
                return false;
            },
        };
        let o = &info.options;
        if o.is_forced(opt) {
            return false;
        }
        let mentioned = o.mc_set.has(opt) || o.mc_unset.has(opt) || o.port_set.has(opt)
            || o.port_unset.has(opt);
        if !mentioned {
            return false;
        }
        let nofile_on = nofile_effective(info).has(opt);
        state.staged.has(opt) != nofile_on
    }

    /// All options of the port that deviate from the global make.conf policy.
    pub fn mc_deviations(&self, info: &PortInfo) -> (r: Vec<String>)
        ensures
            views(r@) == info@.options.complete.filter(
                |opt: Str| mc_deviates_of(self@, info@, opt),
            ),
    {
        broadcast use {crate::text::views_push, crate::text::views_empty};

        let ghost v = info@.options.complete;
        let ghost p = |opt: Str| mc_deviates_of(self@, info@, opt);
        let mut r: Vec<String> = Vec::new();
        let mut i: usize = 0;
        proof {
            lemma_filter_none(v, p);
        }
        while i < info.options.complete.len()
            invariant
                i <= info.options.complete@.len(),
                v == info@.options.complete,
                p == (|opt: Str| mc_deviates_of(self@, info@, opt)),
                views(r@) == v.take(i as int).filter(p),
            decreases info.options.complete@.len() - i,
        {
            let opt = &info.options.complete[i];
            proof {
                assert(v[i as int] == opt@);
                lemma_filter_one(v, i as int, p);
            }
            if self.mc_deviates(info, opt.as_str()) {
                r.push(opt.clone());
            }
            i = i + 1;
        }
        assert(v.take(v.len() as int) =~= v);
        r
    }

    /// Which enabled option (if any) implies `opt`, keeping it locked on.
    pub fn implied_by(&self, info: &PortInfo, opt: &str) -> (r: Option<String>)
        ensures
            opt_view(r) == match self@.state_of(info@) {
                Some(st) => implier(info@.options, st.staged, opt@),
                None => None,
            },
    {
        match self.state(info) {
            Some(state) => implier_of(info, &state.staged, opt),
            None => None,
        }
    }
}

} // verus!
