//! What a session holds, who owns a shared options file, and how a session
//! starts.
use vstd::prelude::*;

use crate::apply::{is_preferred, preferred, shares, sync_enabled_set, synced};
use crate::list::{first_where, lemma_first_where, lemma_take_one, lookup};
use crate::model::options::OptionSet;
use crate::model::origin::{KeyView, PortKey};
use crate::model::port::{InfoView, PortInfo};
use crate::optionsfile::{SavedOptionsFile, SavedView};
use crate::order::{duplicate_opt, Duplicate};
use crate::session::implies::{close_implies, closure};
use crate::sorted::{lemma_ordered, ordered, SortedMap};
use crate::text::{opt_view, views, Str};

verus! {

/// Editable option state for one options file (shared by all flavors of an
/// origin that use the same OPTIONS_NAME).
pub struct OptState {
    pub saved: Option<SavedOptionsFile>,
    /// What `sync` would write with no user edits (saved choices kept,
    /// new options at their effective state).
    pub baseline: OptionSet,
    /// Current user-staged enabled set.
    pub staged: OptionSet,
}

#[verifier::ext_equal]
pub struct StateView {
    pub saved: Option<SavedView>,
    pub baseline: Set<Str>,
    pub staged: Set<Str>,
}

impl View for OptState {
    type V = StateView;

    open spec fn view(&self) -> StateView {
        StateView {
            saved: opt_view(self.saved),
            baseline: self.baseline@,
            staged: self.staged@,
        }
    }
}

impl Duplicate for OptState {
    fn duplicate(&self) -> (r: Self) {
        OptState {
            saved: duplicate_opt(&self.saved),
            baseline: self.baseline.duplicate(),
            staged: self.staged.duplicate(),
        }
    }
}

/// The whole editing session: scanned ports plus staged option state.
pub struct Session {
    /// Canonical key -> port info (from the scan).
    pub ports: SortedMap<PortKey, PortInfo>,
    /// OPTIONS_NAME -> editable state.
    pub states: SortedMap<String, OptState>,
    /// Requested key -> canonical key (dep edges may use either form).
    pub aliases: SortedMap<PortKey, PortKey>,
    /// Canonical roots the closure is anchored on (for reachability GC).
    pub roots: Vec<PortKey>,
    /// OPTIONS_NAME -> the port whose view owns the shared file (the
    /// default flavor). Staleness and obsolete options are judged against
    /// the owner, since apply writes the file from its point of view.
    pub owners: SortedMap<String, PortKey>,
    /// --minimal: bare defaults count as decisions, so nothing is
    /// "undecided" — only deviations and conflicts demand attention.
    pub minimal: bool,
}

#[verifier::ext_equal]
pub struct SessionView {
    pub ports: Map<KeyView, InfoView>,
    pub states: Map<Str, StateView>,
    pub aliases: Map<KeyView, KeyView>,
    pub roots: Seq<KeyView>,
    pub owners: Map<Str, KeyView>,
    pub minimal: bool,
}

impl View for Session {
    type V = SessionView;

    open spec fn view(&self) -> SessionView {
        SessionView {
            ports: self.ports@,
            states: self.states@,
            aliases: self.aliases@,
            roots: views(self.roots@),
            owners: self.owners@,
            minimal: self.minimal,
        }
    }
}

impl SessionView {
    /// The port a key stands for: itself where it is known, else what it is an
    /// alias of.
    pub open spec fn resolved(self, key: KeyView) -> Option<KeyView> {
        if self.ports.dom().contains(key) {
            Some(key)
        } else {
            lookup(self.aliases, key)
        }
    }

    /// The port whose view owns a port's options file: the owner where it is
    /// known and still in the closure, else the port itself.
    pub open spec fn owner(self, info: InfoView) -> InfoView {
        match lookup(self.owners, info.options_name) {
            Some(k) => match lookup(self.ports, k) {
                Some(o) => o,
                None => info,
            },
            None => info,
        }
    }

    /// The editable state of a port's options file.
    pub open spec fn state_of(self, info: InfoView) -> Option<StateView> {
        lookup(self.states, info.options_name)
    }
}

// ---------------------------------------------------------------------
// Owners
// ---------------------------------------------------------------------

/// The port that owns an options file among ports taken in a given order: the
/// first default flavor, or the first port where there is none.
pub open spec fn owner_among(
    ports: Map<KeyView, InfoView>,
    keys: Seq<KeyView>,
    name: Str,
) -> Option<KeyView> {
    match first_where(keys, |k: KeyView| shares(ports[k], name) && preferred(ports[k])) {
        Some(k) => Some(k),
        None => first_where(keys, |k: KeyView| shares(ports[k], name)),
    }
}

/// The port that owns an options file, in key order.
pub open spec fn owner_of(ports: Map<KeyView, InfoView>, name: Str) -> Option<KeyView> {
    owner_among(ports, ordered::<PortKey>(ports.dom()), name)
}

/// The owner of every options file that some port uses.
pub open spec fn owners_of(ports: Map<KeyView, InfoView>) -> Map<Str, KeyView> {
    Map::new(|n: Str| owner_of(ports, n) is Some, |n: Str| owner_of(ports, n)->0)
}

/// The owner of an options file uses it, and is a default flavor wherever one
/// uses it.
pub proof fn law_owner(ports: Map<KeyView, InfoView>, name: Str)
    requires
        ports.dom().finite(),
    ensures
        ({
            let uses = |j: KeyView|
                ports[j].options.complete.len() > 0 && ports[j].options_name == name;
            let plain = |j: KeyView|
                match ports[j].canonical.flavor {
                    None => true,
                    Some(f) => ports[j].flavors.len() > 0 && f == ports[j].flavors[0],
                };
            match owner_of(ports, name) {
                Some(k) => {
                    &&& ports.dom().contains(k)
                    &&& uses(k)
                    &&& plain(k) || forall|j: KeyView| #[trigger]
                        ports.dom().contains(j) && uses(j) ==> !plain(j)
                },
                None => forall|j: KeyView| #[trigger] ports.dom().contains(j) ==> !uses(j),
            }
        }),
{
    let q = ordered::<PortKey>(ports.dom());
    lemma_ordered::<PortKey>(ports.dom());
    let p = |k: KeyView| shares(ports[k], name) && preferred(ports[k]);
    let s = |k: KeyView| shares(ports[k], name);
    lemma_first_where(q, p);
    lemma_first_where(q, s);
    match owner_of(ports, name) {
        Some(k) => {
            assert(q.contains(k));
            if !preferred(ports[k]) {
                assert forall|j: KeyView| #[trigger]
                    ports.dom().contains(j) && shares(ports[j], name) implies !preferred(
                    ports[j],
                ) by {
                    assert(q.contains(j));
                    let i = choose|i: int| 0 <= i < q.len() && q[i] == j;
                    assert(!p(q[i]));
                }
            }
        },
        None => {
            assert forall|j: KeyView| #[trigger] ports.dom().contains(j) implies !shares(
                ports[j],
                name,
            ) by {
                assert(q.contains(j));
                let i = choose|i: int| 0 <= i < q.len() && q[i] == j;
                assert(!s(q[i]));
            }
        },
    }
}

/// How the owner changes when one more port is looked at.
proof fn lemma_owner_step(ports: Map<KeyView, InfoView>, keys: Seq<KeyView>, i: int, name: Str)
    requires
        0 <= i < keys.len(),
    ensures
        owner_among(ports, keys.take(i + 1), name) == if !shares(ports[keys[i]], name) {
            owner_among(ports, keys.take(i), name)
        } else {
            match owner_among(ports, keys.take(i), name) {
                None => Some(keys[i]),
                Some(e) => if !preferred(ports[e]) && preferred(ports[keys[i]]) {
                    Some(keys[i])
                } else {
                    Some(e)
                },
            }
        },
        owner_among(ports, keys.take(i), name) is Some ==> keys.contains(
            owner_among(ports, keys.take(i), name)->0,
        ),
{
    lemma_take_one(keys, i);
    let t = keys.take(i);
    let p = |k: KeyView| shares(ports[k], name) && preferred(ports[k]);
    let s = |k: KeyView| shares(ports[k], name);
    lemma_first_where(t, p);
    lemma_first_where(t, s);
    if let Some(e) = owner_among(ports, t, name) {
        let j = choose|j: int| 0 <= j < t.len() && t[j] == e;
        assert(keys[j] == e);
        if first_where(t, p) is None {
            assert(!p(t[j]));
        }
    }
}

// ---------------------------------------------------------------------
// States
// ---------------------------------------------------------------------

/// The state an options file starts in: what is saved, and what a sync from
/// the owner's view settles on.
pub open spec fn fresh_state(owner: InfoView, files: Map<Str, SavedView>) -> StateView {
    let saved = lookup(files, owner.options_name);
    let baseline = closure(owner.options, synced(owner.options, saved));
    StateView { saved, baseline, staged: baseline }
}

/// The states that are there, and a fresh one for every other options file that
/// some port uses.
pub open spec fn states_for(
    ports: Map<KeyView, InfoView>,
    states: Map<Str, StateView>,
    files: Map<Str, SavedView>,
) -> Map<Str, StateView> {
    Map::new(
        |n: Str| states.dom().contains(n) || owner_of(ports, n) is Some,
        |n: Str|
            if states.dom().contains(n) {
                states[n]
            } else {
                fresh_state(ports[owner_of(ports, n)->0], files)
            },
    )
}

/// The session with a state for the options file of one port.
spec fn ensured(v: SessionView, key: KeyView, files: Map<Str, SavedView>) -> SessionView {
    if v.ports.dom().contains(key) && v.ports[key].options.complete.len() > 0
        && !v.states.dom().contains(v.ports[key].options_name) {
        SessionView {
            states: v.states.insert(
                v.ports[key].options_name,
                fresh_state(v.owner(v.ports[key]), files),
            ),
            ..v
        }
    } else {
        v
    }
}

spec fn ensured_all(v: SessionView, keys: Seq<KeyView>, files: Map<Str, SavedView>) -> SessionView
    decreases keys.len(),
{
    if keys.len() == 0 {
        v
    } else {
        ensured(ensured_all(v, keys.drop_last(), files), keys.last(), files)
    }
}

proof fn lemma_ensured_all(v: SessionView, keys: Seq<KeyView>, files: Map<Str, SavedView>)
    requires
        v.ports.dom().finite(),
        v.owners == owners_of(v.ports),
        forall|i: int| 0 <= i < keys.len() ==> v.ports.dom().contains(#[trigger] keys[i]),
    ensures
        ({
            let w = ensured_all(v, keys, files);
            &&& w == (SessionView { states: w.states, ..v })
            &&& forall|n: Str| #[trigger]
                w.states.dom().contains(n) <==> v.states.dom().contains(n) || exists|i: int|
                    0 <= i < keys.len() && shares(v.ports[#[trigger] keys[i]], n)
            &&& forall|n: Str| #[trigger]
                w.states.dom().contains(n) ==> w.states[n] == states_for(
                    v.ports,
                    v.states,
                    files,
                )[n] && states_for(v.ports, v.states, files).dom().contains(n)
        }),
    decreases keys.len(),
{
    if keys.len() > 0 {
        let d = keys.drop_last();
        assert forall|i: int| 0 <= i < d.len() implies v.ports.dom().contains(#[trigger] d[i]) by {
            assert(d[i] == keys[i]);
        }
        lemma_ensured_all(v, d, files);
        let u = ensured_all(v, d, files);
        let w = ensured_all(v, keys, files);
        let k = keys.last();
        assert(keys[keys.len() - 1] == k);
        let info = v.ports[k];
        let name = info.options_name;
        if shares(info, name) {
            law_owner(v.ports, name);
            assert(v.owners.dom().contains(name));
            assert(u.owner(info) == v.ports[owner_of(v.ports, name)->0]);
        }
        assert forall|n: Str| #[trigger]
            w.states.dom().contains(n) <==> v.states.dom().contains(n) || exists|i: int|
                0 <= i < keys.len() && shares(v.ports[#[trigger] keys[i]], n) by {
            if exists|i: int| 0 <= i < keys.len() && shares(v.ports[#[trigger] keys[i]], n) {
                let i = choose|i: int|
                    0 <= i < keys.len() && shares(v.ports[#[trigger] keys[i]], n);
                if i < d.len() {
                    assert(shares(v.ports[d[i]], n));
                    assert(u.states.dom().contains(n));
                }
            }
            if w.states.dom().contains(n) && !v.states.dom().contains(n) {
                if u.states.dom().contains(n) {
                    let i = choose|i: int| 0 <= i < d.len() && shares(v.ports[#[trigger] d[i]], n);
                    assert(shares(v.ports[keys[i]], n));
                } else {
                    assert(shares(v.ports[keys[keys.len() - 1]], n));
                }
            }
        }
    }
}

impl Session {
    /// A session over scanned ports.
    ///
    /// `files` holds the options files that exist, by name. Where some root
    /// does not resolve (e.g. a MOVED rename), every port becomes a root: no
    /// live port is then ever collected.
    pub fn new(
        ports: SortedMap<PortKey, PortInfo>,
        aliases: SortedMap<PortKey, PortKey>,
        requested_roots: &Vec<PortKey>,
        files: &SortedMap<String, SavedOptionsFile>,
        minimal: bool,
    ) -> (r: Self)
        ensures
            r@ == started(ports@, aliases@, views(requested_roots@), files@, minimal),
    {
        broadcast use crate::text::views_empty;

        let mut session = Session {
            ports,
            states: SortedMap::new(),
            aliases,
            roots: Vec::new(),
            owners: SortedMap::new(),
            minimal,
        };
        let ghost v0 = session@;
        let roots = session.resolve_list(requested_roots);
        if roots.len() != requested_roots.len() {
            session.roots = session.ports.key_list();
        } else {
            session.roots = roots;
        }
        session.rebuild_owners();
        session.ensure_states(files);
        proof {
            assert(forall|k: KeyView| v0.resolved(k) == bare(ports@, aliases@).resolved(k));
            lemma_resolve_same(v0, bare(ports@, aliases@), views(requested_roots@));
            assert(session@ =~= started(
                ports@,
                aliases@,
                views(requested_roots@),
                files@,
                minimal,
            ));
        }
        session
    }

    /// The ports that keys stand for; keys that stand for none are left out.
    pub(crate) fn resolve_list(&self, keys: &Vec<PortKey>) -> (r: Vec<PortKey>)
        ensures
            views(r@) == resolve_all(self@, views(keys@)),
    {
        broadcast use {crate::text::views_push, crate::text::views_empty};

        let mut r: Vec<PortKey> = Vec::new();
        let ghost v = views(keys@);
        let mut i: usize = 0;
        assert(v.take(0) =~= Seq::<KeyView>::empty());
        while i < keys.len()
            invariant
                i <= keys@.len(),
                v == views(keys@),
                views(r@) == resolve_all(self@, v.take(i as int)),
            decreases keys@.len() - i,
        {
            proof {
                lemma_take_one(v, i as int);
                assert(v[i as int] == keys@[i as int]@);
            }
            if let Some(k) = self.resolve(&keys[i]) {
                r.push(k);
            }
            i = i + 1;
        }
        assert(v.take(keys@.len() as int) =~= v);
        r
    }

    /// Recompute the owner (default flavor) of every shared options file.
    pub(crate) fn rebuild_owners(&mut self)
        ensures
            final(self)@ == (SessionView { owners: owners_of(old(self)@.ports), ..old(self)@ }),
            old(self)@.ports.dom().finite(),
    {
        let mut owners: SortedMap<String, PortKey> = SortedMap::new();
        let n = self.ports.len();
        let ghost ports = self.ports@;
        let ghost q = ordered::<PortKey>(ports.dom());
        proof {
            lemma_ordered::<PortKey>(ports.dom());
            assert(q.take(0) =~= Seq::<KeyView>::empty());
        }
        let mut i: usize = 0;
        while i < n
            invariant
                i <= n,
                n == q.len(),
                ports == self.ports@,
                ports.dom().finite(),
                self@ == old(self)@,
                q == ordered::<PortKey>(ports.dom()),
                forall|k: KeyView| #[trigger] ports.dom().contains(k) <==> q.contains(k),
                forall|name: Str| #[trigger]
                    lookup(owners@, name) == owner_among(ports, q.take(i as int), name),
            decreases n - i,
        {
            let key = self.ports.key_at(i);
            let info = self.ports.value_at(i);
            let ghost was = owners@;
            let ghost name = info@.options_name;
            proof {
                assert forall|m: Str| #[trigger]
                    lookup(was, m) == owner_among(ports, q.take(i as int), m) by {}
                lemma_owner_step(ports, q, i as int, name);
                assert(lookup(was, name) == owner_among(ports, q.take(i as int), name));
            }
            if info.options.has_options() {
                let take = match owners.get(&info.options_name) {
                    Some(existing) => {
                        let settled = match self.ports.get(existing) {
                            Some(e) => is_preferred(e),
                            None => false,
                        };
                        !settled && is_preferred(info)
                    },
                    None => true,
                };
                if take {
                    owners.insert(info.options_name.clone(), key.duplicate());
                }
            }
            proof {
                assert forall|m: Str| #[trigger]
                    lookup(owners@, m) == owner_among(ports, q.take(i + 1), m) by {
                    lemma_owner_step(ports, q, i as int, m);
                    assert(lookup(was, m) == owner_among(ports, q.take(i as int), m));
                }
            }
            i = i + 1;
        }
        proof {
            assert(q.take(n as int) =~= q);
            assert forall|m: Str| owners@.dom().contains(m) <==> owners_of(ports).dom().contains(
                m,
            ) by {
                assert(lookup(owners@, m) == owner_of(ports, m));
            }
            assert forall|m: Str| owners@.dom().contains(m) implies owners@[m] == owners_of(
                ports,
            )[m] by {
                assert(lookup(owners@, m) == owner_of(ports, m));
            }
            assert(owners@ =~= owners_of(ports));
        }
        self.owners = owners;
    }

    /// The port whose view owns this port's options file (itself when it is
    /// the owner or no other flavor is known).
    pub fn owner_info<'a>(&'a self, info: &'a PortInfo) -> (r: &'a PortInfo)
        ensures
            r@ == self@.owner(info@),
    {
        match self.owners.get(&info.options_name) {
            Some(k) => match self.ports.get(k) {
                Some(o) => o,
                None => info,
            },
            None => info,
        }
    }

    /// Resolve a (possibly non-canonical) key to the canonical ports-map key.
    pub fn resolve(&self, key: &PortKey) -> (r: Option<PortKey>)
        ensures
            opt_view(r) == self@.resolved(key@),
    {
        if self.ports.contains_key(key) {
            return Some(key.duplicate());
        }
        match self.aliases.get(key) {
            Some(k) => Some(k.duplicate()),
            None => None,
        }
    }

    fn ensure_state(&mut self, key: &PortKey, files: &SortedMap<String, SavedOptionsFile>)
        ensures
            final(self)@ == ensured(old(self)@, key@, files@),
    {
        let (name, state) = match self.ports.get(key) {
            Some(info) => {
                if !info.options.has_options() || self.states.contains_key(&info.options_name) {
                    return;
                }
                // The baseline follows the file OWNER's view (default flavor):
                // that's what apply will write.
                let owner = self.owner_info(info);
                (info.options_name.clone(), new_state(owner, files))
            },
            None => {
                return;
            },
        };
        self.states.insert(name, state);
    }

    /// Creates a state for every options file that has none.
    pub(crate) fn ensure_states(&mut self, files: &SortedMap<String, SavedOptionsFile>)
        requires
            old(self)@.owners == owners_of(old(self)@.ports),
        ensures
            final(self)@ == (SessionView {
                states: states_for(old(self)@.ports, old(self)@.states, files@),
                ..old(self)@
            }),
    {
        let ghost v = self@;
        let keys = self.ports.key_list();
        let _ = self.ports.len();
        let ghost q = ordered::<PortKey>(v.ports.dom());
        let mut i: usize = 0;
        proof {
            lemma_ordered::<PortKey>(v.ports.dom());
            assert(q.take(0) =~= Seq::<KeyView>::empty());
        }
        while i < keys.len()
            invariant
                i <= keys@.len(),
                views(keys@) == q,
                self@ == ensured_all(v, q.take(i as int), files@),
            decreases keys@.len() - i,
        {
            proof {
                lemma_take_one(q, i as int);
                assert(q[i as int] == keys@[i as int]@);
            }
            self.ensure_state(&keys[i], files);
            i = i + 1;
        }
        proof {
            assert(q.take(keys@.len() as int) =~= q);
            assert forall|j: int| 0 <= j < q.len() implies v.ports.dom().contains(
                #[trigger] q[j],
            ) by {
                assert(q.contains(q[j]));
            }
            lemma_ensured_all(v, q, files@);
            let want = states_for(v.ports, v.states, files@);
            assert forall|n: Str| want.dom().contains(n) implies self@.states.dom().contains(n) by {
                if !v.states.dom().contains(n) {
                    law_owner(v.ports, n);
                    let k = owner_of(v.ports, n)->0;
                    assert(q.contains(k));
                    let j = choose|j: int| 0 <= j < q.len() && q[j] == k;
                    assert(shares(v.ports[q[j]], n));
                }
            }
            assert(self@.states =~= want);
        }
    }

    pub fn state(&self, info: &PortInfo) -> (r: Option<&OptState>)
        ensures
            match r {
                Some(s) => self@.state_of(info@) == Some(s@),
                None => self@.state_of(info@) is None,
            },
    {
        self.states.get(&info.options_name)
    }
}

/// The state an options file starts in.
pub fn new_state(owner: &PortInfo, files: &SortedMap<String, SavedOptionsFile>) -> (r: OptState)
    ensures
        r@ == fresh_state(owner@, files@),
{
    let file = files.get(&owner.options_name);
    let enabled = sync_enabled_set(owner, file);
    let baseline = close_implies(owner, enabled);
    let saved = match file {
        Some(s) => Some(s.duplicate()),
        None => None,
    };
    let staged = baseline.duplicate();
    OptState { saved, staged, baseline }
}

/// The ports that keys stand for, in order; keys that stand for none are left
/// out.
pub open spec fn resolve_all(v: SessionView, keys: Seq<KeyView>) -> Seq<KeyView>
    decreases keys.len(),
{
    if keys.len() == 0 {
        Seq::empty()
    } else {
        let before = resolve_all(v, keys.drop_last());
        match v.resolved(keys.last()) {
            Some(k) => before.push(k),
            None => before,
        }
    }
}

proof fn lemma_resolve_same(a: SessionView, b: SessionView, keys: Seq<KeyView>)
    requires
        forall|k: KeyView| a.resolved(k) == #[trigger] b.resolved(k),
    ensures
        resolve_all(a, keys) == resolve_all(b, keys),
    decreases keys.len(),
{
    if keys.len() > 0 {
        lemma_resolve_same(a, b, keys.drop_last());
        assert(a.resolved(keys.last()) == b.resolved(keys.last()));
    }
}

/// A session with nothing but ports and aliases.
pub open spec fn bare(
    ports: Map<KeyView, InfoView>,
    aliases: Map<KeyView, KeyView>,
) -> SessionView {
    SessionView {
        ports,
        states: Map::empty(),
        aliases,
        roots: Seq::empty(),
        owners: Map::empty(),
        minimal: false,
    }
}

/// A session as it starts: the roots that were asked for where all of them
/// resolve, else every port; the owner of each options file; and a fresh state
/// for each.
pub open spec fn started(
    ports: Map<KeyView, InfoView>,
    aliases: Map<KeyView, KeyView>,
    requested: Seq<KeyView>,
    files: Map<Str, SavedView>,
    minimal: bool,
) -> SessionView {
    let roots = resolve_all(bare(ports, aliases), requested);
    SessionView {
        ports,
        states: states_for(ports, Map::empty(), files),
        aliases,
        roots: if roots.len() == requested.len() {
            roots
        } else {
            ordered::<PortKey>(ports.dom())
        },
        owners: owners_of(ports),
        minimal,
    }
}

} // verus!
