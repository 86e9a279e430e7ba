//! Changing options from the interface.
use vstd::prelude::*;

use crate::list::{lemma_take_one, lookup};
use crate::model::options::OptionsView;
use crate::model::origin::{key_text, KeyView, PortKey};
use crate::model::port::PortInfo;
use crate::order::Duplicate;
use crate::session::base::{Session, SessionView, StateView};
use crate::session::edit::{bulk, defaults_of, restaged, toggled, BulkView};
use crate::text::{cut, decimal, glue3, number, opt_view, same, split_once, strip, trim};
use crate::text::{views, Str};
use crate::tui::app::{flashed, selected_of, App, AppView, Change, Staged, StagedView};
use crate::tui::editor::{current_option, option_at};

verus! {

// ---------------------------------------------------------------------
// Keeping track
// ---------------------------------------------------------------------

/// What ports have staged, those with a state, in order.
pub open spec fn staged_by(v: SessionView, keys: Seq<KeyView>) -> Seq<StagedView>
    decreases keys.len(),
{
    if keys.len() == 0 {
        Seq::empty()
    } else {
        let before = staged_by(v, keys.drop_last());
        let k = keys.last();
        match lookup(v.ports, k) {
            Some(info) => match v.state_of(info) {
                Some(st) => before.push(StagedView { key: k, staged: st.staged }),
                None => before,
            },
            None => before,
        }
    }
}

fn staged_now(session: &Session, keys: &Vec<PortKey>) -> (r: Change)
    ensures
        r@ == staged_by(session@, views(keys@)),
{
    let ghost q = views(keys@);
    let mut before: Vec<Staged> = Vec::new();
    let mut i: usize = 0;
    assert(q.take(0) =~= Seq::<KeyView>::empty());
    assert(views(before@) =~= staged_by(session@, q.take(0)));
    while i < keys.len()
        invariant
            i <= keys@.len(),
            q == views(keys@),
            views(before@) == staged_by(session@, q.take(i as int)),
        decreases keys@.len() - i,
    {
        proof {
            lemma_take_one(q, i as int);
            assert(q[i as int] == keys@[i as int]@);
        }
        match session.ports.get(&keys[i]) {
            Some(info) => match session.state(info) {
                Some(st) => {
                    let ghost was = views(before@);
                    let x = Staged { key: keys[i].duplicate(), staged: st.staged.duplicate() };
                    before.push(x);
                    assert(views(before@) =~= was.push(x@));
                },
                None => {},
            },
            None => {},
        }
        i = i + 1;
    }
    assert(q.take(keys@.len() as int) =~= q);
    Change { before }
}

/// Ports put down for a re-query.
pub open spec fn put_down(
    pending: Map<KeyView, u64>,
    keys: Seq<KeyView>,
    now: u64,
) -> Map<KeyView, u64>
    decreases keys.len(),
{
    if keys.len() == 0 {
        pending
    } else {
        put_down(pending, keys.drop_last(), now).insert(keys.last(), now)
    }
}

impl App {
    /// Schedule a port for a debounced background re-query.
    pub fn mark_pending(&mut self, key: &PortKey, now: u64)
        ensures
            final(self)@ == (AppView {
                pending: old(self)@.pending.insert(key@, now),
                ..old(self)@
            }),
    {
        self.pending.insert(key.duplicate(), now);
    }

    fn mark_all(&mut self, keys: &Vec<PortKey>, now: u64)
        ensures
            final(self)@ == (AppView {
                pending: put_down(old(self)@.pending, views(keys@), now),
                ..old(self)@
            }),
    {
        let ghost q = views(keys@);
        let ghost a = self@;
        let mut i: usize = 0;
        assert(q.take(0) =~= Seq::<KeyView>::empty());
        while i < keys.len()
            invariant
                i <= keys@.len(),
                q == views(keys@),
                self@ == (AppView { pending: put_down(a.pending, q.take(i as int), now), ..a }),
            decreases keys@.len() - i,
        {
            proof {
                lemma_take_one(q, i as int);
                assert(q[i as int] == keys@[i as int]@);
            }
            self.mark_pending(&keys[i], now);
            i = i + 1;
        }
        assert(q.take(keys@.len() as int) =~= q);
    }

    fn remember(&mut self, keys: &Vec<PortKey>)
        ensures
            final(self)@ == (AppView {
                undo: old(self)@.undo.push(staged_by(old(self)@.session, views(keys@))),
                ..old(self)@
            }),
    {
        let c = staged_now(&self.session, keys);
        self.undo.push(c);
        assert(self@ =~= (AppView {
            undo: old(self)@.undo.push(staged_by(old(self)@.session, views(keys@))),
            ..old(self)@
        }));
    }
}

// ---------------------------------------------------------------------
// One port
// ---------------------------------------------------------------------

/// What is said when an option is switched on that blocks the build.
pub open spec fn warning_of(o: OptionsView, state: Option<StateView>, opt: Str) -> Option<Str> {
    let turning_on = match state {
        Some(st) => !st.staged.contains(opt),
        None => false,
    };
    if !turning_on || !o.defs.dom().contains(opt) {
        None
    } else {
        let d = o.defs[opt];
        match d.broken {
            Some(m) => Some("warning: "@ + opt + " marks this port BROKEN: "@ + m),
            None => match d.ignore {
                Some(m) => Some("warning: "@ + opt + " marks this port IGNORED: "@ + m),
                None => None,
            },
        }
    }
}

/// With the session changed for one port, which is put down for a re-query.
pub open spec fn changed(a: AppView, session: SessionView, key: KeyView, now: u64) -> AppView {
    AppView {
        session,
        undo: a.undo.push(staged_by(a.session, seq![key])),
        pending: a.pending.insert(key, now),
        ..a
    }
}

/// With the option under the cursor toggled.
pub open spec fn toggled_at(a: AppView, now: u64) -> AppView {
    match (selected_of(a), option_at(a.editor_rows, a.editor_idx)) {
        (Some(key), Some(opt)) => {
            let (session, r) = toggled(a.session, key, opt);
            match r {
                Ok(_) => {
                    let info = a.session.ports[key];
                    AppView {
                        message: match warning_of(info.options, a.session.state_of(info), opt) {
                            Some(w) => Some((w, true)),
                            None => None,
                        },
                        ..changed(a, session, key, now)
                    }
                },
                Err(e) => flashed(a, e, true),
            }
        },
        _ => a,
    }
}

/// With the selected port reset to its defaults.
pub open spec fn reset_at(a: AppView, now: u64) -> AppView {
    match selected_of(a) {
        Some(key) => flashed(
            changed(
                a,
                restaged(a.session, key, defaults_of(a.session.ports[key].options)),
                key,
                now,
            ),
            "reset to port defaults"@,
            false,
        ),
        None => a,
    }
}

/// With the selected port reverted to its saved state.
pub open spec fn reverted_at(a: AppView, now: u64) -> AppView {
    match selected_of(a) {
        Some(key) => flashed(
            changed(
                a,
                restaged(
                    a.session,
                    key,
                    a.session.states[a.session.ports[key].options_name].baseline,
                ),
                key,
                now,
            ),
            "reverted to saved state"@,
            false,
        ),
        None => a,
    }
}

/// Ports with what they had staged put back, in order.
pub open spec fn put_back(v: SessionView, before: Seq<StagedView>) -> SessionView
    decreases before.len(),
{
    if before.len() == 0 {
        v
    } else {
        restaged(put_back(v, before.drop_last()), before.last().key, before.last().staged)
    }
}

/// The ports of a change.
pub open spec fn ports_of(before: Seq<StagedView>) -> Seq<KeyView> {
    before.map_values(|s: StagedView| s.key)
}

/// With the last change undone.
pub open spec fn undone(a: AppView, now: u64) -> AppView {
    if a.undo.len() == 0 {
        flashed(a, "nothing to undo"@, false)
    } else {
        flashed(
            AppView {
                session: put_back(a.session, a.undo.last()),
                pending: put_down(a.pending, ports_of(a.undo.last()), now),
                undo: a.undo.drop_last(),
                ..a
            },
            "undid the last option change"@,
            false,
        )
    }
}

fn warn_text(session: &Session, info: &PortInfo, opt: &str) -> (r: Option<String>)
    ensures
        opt_view(r) == warning_of(info@.options, session@.state_of(info@), opt@),
{
    let turning_on = match session.state(info) {
        Some(st) => !st.staged.has(opt),
        None => false,
    };
    if !turning_on {
        return None;
    }
    match info.options.defs.find(opt) {
        Some(d) => match &d.broken {
            Some(m) => {
                let mut t = glue3("warning: ", opt, " marks this port BROKEN: ");
                t.append(m.as_str());
                Some(t)
            },
            None => match &d.ignore {
                Some(m) => {
                    let mut t = glue3("warning: ", opt, " marks this port IGNORED: ");
                    t.append(m.as_str());
                    Some(t)
                },
                None => None,
            },
        },
        None => None,
    }
}

fn one(key: &PortKey) -> (r: Vec<PortKey>)
    ensures
        views(r@) == seq![key@],
{
    let mut r: Vec<PortKey> = Vec::new();
    r.push(key.duplicate());
    assert(views(r@) =~= seq![key@]);
    r
}

impl App {
    /// Toggle the option under the cursor.
    pub fn toggle_current(&mut self, now: u64)
        ensures
            final(self)@ == toggled_at(old(self)@, now),
    {
        let key = match self.selected_key() {
            Some(k) => k,
            None => {
                return;
            },
        };
        let opt = match current_option(&self.editor_rows, self.editor_idx) {
            Some(o) => o,
            None => {
                return;
            },
        };
        // Warn when enabling an option flagged broken/ignored.
        let warn = match self.session.ports.get(&key) {
            Some(info) => warn_text(&self.session, info, opt.as_str()),
            None => None,
        };
        let before = staged_now(&self.session, &one(&key));
        match self.session.toggle(&key, opt.as_str()) {
            Ok(_) => {
                self.undo.push(before);
                self.mark_pending(&key, now);
                self.message = match warn {
                    Some(w) => Some((w, true)),
                    None => None,
                };
                assert(views(self.undo@) =~= old(self)@.undo.push(before@));
                assert(self@ =~= toggled_at(old(self)@, now));
            },
            Err(e) => {
                self.flash(e.as_str(), true);
                assert(self@ =~= toggled_at(old(self)@, now));
            },
        }
    }

    /// Reset the selected port to its defaults.
    pub fn reset_current(&mut self, now: u64)
        ensures
            final(self)@ == reset_at(old(self)@, now),
    {
        match self.selected_key() {
            Some(key) => {
                self.remember(&one(&key));
                self.session.reset_to_defaults(&key);
                self.mark_pending(&key, now);
                self.flash("reset to port defaults", false);
            },
            None => {},
        }
    }

    /// Revert the selected port to its saved state.
    pub fn revert_current(&mut self, now: u64)
        ensures
            final(self)@ == reverted_at(old(self)@, now),
    {
        match self.selected_key() {
            Some(key) => {
                self.remember(&one(&key));
                self.session.revert(&key);
                self.mark_pending(&key, now);
                self.flash("reverted to saved state", false);
            },
            None => {},
        }
    }

    /// Undo the last option change.
    pub fn undo_last(&mut self, now: u64)
        ensures
            final(self)@ == undone(old(self)@, now),
    {
        let ghost a = self@;
        match self.undo.pop() {
            None => {
                self.flash("nothing to undo", false);
                assert(self@ =~= undone(a, now));
            },
            Some(c) => {
                let ghost b = c@;
                assert(a.undo.last() == b);
                assert(views(self.undo@) =~= a.undo.drop_last());
                let ghost mid = self@;
                assert(mid =~= (AppView { undo: a.undo.drop_last(), ..a }));
                let mut i: usize = 0;
                proof {
                    assert(b.take(0) =~= Seq::<StagedView>::empty());
                    assert(ports_of(b.take(0)) =~= Seq::<KeyView>::empty());
                }
                while i < c.before.len()
                    invariant
                        i <= c.before@.len(),
                        b == views(c.before@),
                        self@ == (AppView {
                            session: put_back(a.session, b.take(i as int)),
                            pending: put_down(a.pending, ports_of(b.take(i as int)), now),
                            ..mid
                        }),
                    decreases c.before@.len() - i,
                {
                    proof {
                        lemma_take_one(b, i as int);
                        assert(b[i as int] == c.before@[i as int]@);
                        let more = ports_of(b.take(i + 1));
                        assert(more.drop_last() =~= ports_of(b.take(i as int)));
                        assert(more.last() == b[i as int].key);
                    }
                    let s = &c.before[i];
                    self.session.restage(&s.key, s.staged.duplicate());
                    self.mark_pending(&s.key, now);
                    i = i + 1;
                }
                assert(b.take(c.before@.len() as int) =~= b);
                self.flash("undid the last option change", false);
                assert(self@ =~= undone(a, now));
            },
        }
    }
}

// ---------------------------------------------------------------------
// Many ports
// ---------------------------------------------------------------------

/// The decision that a text writes: `OPTION=on` or `OPTION=off`.
pub open spec fn decision_of(text: Str) -> Option<(Str, bool)> {
    match cut(text, '=') {
        Some((name, value)) => if trim(name).len() == 0 {
            None
        } else if trim(value) == "on"@ {
            Some((trim(name), true))
        } else if trim(value) == "off"@ {
            Some((trim(name), false))
        } else {
            None
        },
        None => None,
    }
}

/// What is said of a bulk decision.
pub open spec fn bulk_text(b: BulkView, opt: Str, on: bool) -> Str {
    opt + (if on {
        "=on: "@
    } else {
        "=off: "@
    }) + decimal(b.changed.len()) + " port(s) changed, "@ + decimal(b.skipped.len()) + " skipped"@
        + if b.skipped.len() > 0 {
        " ("@ + key_text(b.skipped[0].0) + ": "@ + b.skipped[0].1 + ")"@
    } else {
        Seq::empty()
    }
}

/// With a bulk decision taken for all visible ports.
pub open spec fn bulk_decided(a: AppView, text: Str, now: u64) -> AppView {
    let closed = AppView { bulk: None, ..a };
    match decision_of(text) {
        None => flashed(closed, "bulk wants OPTION=on or OPTION=off"@, true),
        Some((opt, on)) => {
            let b = bulk(a.session, a.visible, opt, on);
            flashed(
                AppView {
                    session: b.session,
                    undo: if b.changed.len() > 0 {
                        a.undo.push(staged_by(a.session, a.visible))
                    } else {
                        a.undo
                    },
                    pending: put_down(a.pending, b.changed, now),
                    ..closed
                },
                bulk_text(b, opt, on),
                b.skipped.len() > 0,
            )
        },
    }
}

fn read_decision(text: &str) -> (r: Option<(String, bool)>)
    ensures
        opt_view(r) == decision_of(text@),
{
    match split_once(text, '=') {
        Some((name, value)) => {
            let name = strip(name.as_str());
            let value = strip(value.as_str());
            if name.as_str().is_empty() {
                None
            } else if same(value.as_str(), "on") {
                Some((name, true))
            } else if same(value.as_str(), "off") {
                Some((name, false))
            } else {
                None
            }
        },
        None => None,
    }
}

impl App {
    /// Take a bulk decision for all visible ports.
    pub fn bulk_commit(&mut self, text: &str, now: u64)
        ensures
            final(self)@ == bulk_decided(old(self)@, text@, now),
    {
        let ghost a = self@;
        self.bulk = None;
        let (opt, on) = match read_decision(text) {
            Some(d) => d,
            None => {
                self.flash("bulk wants OPTION=on or OPTION=off", true);
                return;
            },
        };
        let before = staged_now(&self.session, &self.visible);
        let (changed, skipped) = self.session.bulk_set(&self.visible, opt.as_str(), on);
        let ghost b = bulk(a.session, a.visible, opt@, on);
        if changed.len() > 0 {
            self.undo.push(before);
            assert(views(self.undo@) =~= a.undo.push(before@));
        }
        self.mark_all(&changed, now);
        let n = number(changed.len() as u64);
        let m = number(skipped.len() as u64);
        let mut t = glue3(
            opt.as_str(),
            if on {
                "=on: "
            } else {
                "=off: "
            },
            n.as_str(),
        );
        t.append(" port(s) changed, ");
        t.append(m.as_str());
        t.append(" skipped");
        if skipped.len() > 0 {
            let ghost head = t@;
            assert(views(skipped@)[0] == skipped@[0]@);
            let k = skipped[0].0.to_string();
            t.append(" (");
            t.append(k.as_str());
            t.append(": ");
            t.append(skipped[0].1.as_str());
            t.append(")");
            assert(t@ =~= bulk_text(b, opt@, on));
        } else {
            assert(t@ =~= bulk_text(b, opt@, on));
        }
        self.flash(t.as_str(), skipped.len() > 0);
        assert(self@ =~= bulk_decided(a, text@, now));
    }
}

// ---------------------------------------------------------------------
// Undoing
// ---------------------------------------------------------------------

/// Whether two sessions differ at most in what is staged.
spec fn alike(v: SessionView, w: SessionView) -> bool {
    &&& w == (SessionView { states: w.states, ..v })
    &&& w.states.dom() == v.states.dom()
    &&& forall|n: Str| #[trigger]
        v.states.dom().contains(n) ==> w.states[n] == (StateView {
            staged: w.states[n].staged,
            ..v.states[n]
        })
}

/// Whether some of the given ports uses an options file.
spec fn concerns(v: SessionView, keys: Seq<KeyView>, n: Str) -> bool {
    exists|i: int|
        0 <= i < keys.len() && v.ports.dom().contains(#[trigger] keys[i])
            && v.ports[keys[i]].options_name == n
}

/// What ports had staged, put back into a session that differs at most in what
/// is staged, gives the states of these ports as they were and leaves the
/// others alone.
proof fn lemma_put_back(v: SessionView, w: SessionView, keys: Seq<KeyView>)
    requires
        alike(v, w),
    ensures
        ({
            let r = put_back(w, staged_by(v, keys));
            &&& alike(v, r)
            &&& forall|n: Str| #[trigger]
                v.states.dom().contains(n) ==> r.states[n] == if concerns(v, keys, n) {
                    v.states[n]
                } else {
                    w.states[n]
                }
        }),
    decreases keys.len(),
{
    if keys.len() > 0 {
        let d = keys.drop_last();
        let k = keys.last();
        lemma_put_back(v, w, d);
        let before = put_back(w, staged_by(v, d));
        let r = put_back(w, staged_by(v, keys));
        assert forall|n: Str| #[trigger] v.states.dom().contains(n) implies (concerns(v, keys, n)
            <==> concerns(v, d, n) || (v.ports.dom().contains(k) && v.ports[k].options_name
            == n)) by {
            if concerns(v, d, n) {
                let i = choose|i: int|
                    0 <= i < d.len() && v.ports.dom().contains(#[trigger] d[i])
                        && v.ports[d[i]].options_name == n;
                assert(keys[i] == d[i]);
            }
            if concerns(v, keys, n) {
                let i = choose|i: int|
                    0 <= i < keys.len() && v.ports.dom().contains(#[trigger] keys[i])
                        && v.ports[keys[i]].options_name == n;
                if i < d.len() {
                    assert(d[i] == keys[i]);
                }
            }
            assert(keys[keys.len() - 1] == k);
        }
        if v.ports.dom().contains(k) && v.states.dom().contains(v.ports[k].options_name) {
            let name = v.ports[k].options_name;
            let e = StagedView { key: k, staged: v.states[name].staged };
            let l = staged_by(v, keys);
            assert(l == staged_by(v, d).push(e));
            assert(l.drop_last() =~= staged_by(v, d));
            assert(r == restaged(before, k, e.staged));
            assert(r.states =~= before.states.insert(name, v.states[name]));
            assert(r.states.dom() =~= v.states.dom());
        } else {
            assert(staged_by(v, keys) == staged_by(v, d));
        }
    }
}

/// A bulk decision changes nothing but what is staged, and that only for the
/// given ports.
proof fn lemma_bulk_alike(v: SessionView, keys: Seq<KeyView>, opt: Str, on: bool)
    ensures
        ({
            let w = bulk(v, keys, opt, on).session;
            &&& alike(v, w)
            &&& forall|n: Str| #[trigger]
                v.states.dom().contains(n) && !concerns(v, keys, n) ==> w.states[n]
                    == v.states[n]
        }),
    decreases keys.len(),
{
    if keys.len() > 0 {
        let d = keys.drop_last();
        let k = keys.last();
        lemma_bulk_alike(v, d, opt, on);
        let b = bulk(v, d, opt, on).session;
        let w = bulk(v, keys, opt, on).session;
        assert(keys[keys.len() - 1] == k);
        if w != b {
            let name = v.ports[k].options_name;
            assert(w == toggled(b, k, opt).0);
            let staged = w.states[name].staged;
            assert(w.states =~= b.states.insert(name, StateView { staged, ..b.states[name] }));
            assert(w.states.dom() =~= v.states.dom());
        }
        assert forall|n: Str| #[trigger]
            v.states.dom().contains(n) && !concerns(v, keys, n) implies w.states[n]
            == v.states[n] by {
            if concerns(v, d, n) {
                let i = choose|i: int|
                    0 <= i < d.len() && v.ports.dom().contains(#[trigger] d[i])
                        && v.ports[d[i]].options_name == n;
                assert(keys[i] == d[i]);
            }
        }
    }
}

/// Undoing a bulk decision that was just taken puts every option back as it
/// was.
pub proof fn law_undo_bulk(a: AppView, text: Str, now: u64, later: u64)
    requires
        bulk_decided(a, text, now).undo.len() > a.undo.len(),
    ensures
        undone(bulk_decided(a, text, now), later).session == a.session,
        undone(bulk_decided(a, text, now), later).undo == a.undo,
{
    let (opt, on) = decision_of(text)->0;
    let v = a.session;
    let w = bulk(v, a.visible, opt, on).session;
    lemma_bulk_alike(v, a.visible, opt, on);
    lemma_put_back(v, w, a.visible);
    let b = bulk_decided(a, text, now);
    assert(b.undo.last() == staged_by(v, a.visible));
    assert(b.undo.drop_last() =~= a.undo);
    let r = put_back(w, staged_by(v, a.visible));
    assert(r.states =~= v.states);
}

/// The same for the one port whose staged options were replaced.
proof fn lemma_undo_restaged(v: SessionView, key: KeyView, staged: Set<Str>)
    ensures
        put_back(restaged(v, key, staged), staged_by(v, seq![key])) == v,
{
    let w = restaged(v, key, staged);
    assert(w.states.dom() =~= v.states.dom());
    assert(alike(v, w));
    lemma_put_back(v, w, seq![key]);
    let r = put_back(w, staged_by(v, seq![key]));
    assert forall|n: Str| #[trigger] v.states.dom().contains(n) implies r.states[n]
        == v.states[n] by {
        assert(seq![key][0] == key);
        if v.ports.dom().contains(key) && v.ports[key].options_name == n {
            assert(concerns(v, seq![key], n));
        }
    }
    assert(r.states =~= v.states);
}

/// Undoing a toggle that was just made puts every option back as it was.
pub proof fn law_undo_toggle(a: AppView, now: u64, later: u64)
    requires
        toggled_at(a, now).undo.len() > a.undo.len(),
    ensures
        undone(toggled_at(a, now), later).session == a.session,
        undone(toggled_at(a, now), later).undo == a.undo,
{
    let key = selected_of(a)->0;
    let opt = option_at(a.editor_rows, a.editor_idx)->0;
    let (session, r) = toggled(a.session, key, opt);
    let name = a.session.ports[key].options_name;
    let staged = session.states[name].staged;
    assert(session == restaged(a.session, key, staged));
    lemma_undo_restaged(a.session, key, staged);
    assert(toggled_at(a, now).undo.drop_last() =~= a.undo);
}

/// Undoing a reset that was just made puts every option back as it was.
pub proof fn law_undo_reset(a: AppView, now: u64, later: u64)
    requires
        reset_at(a, now).undo.len() > a.undo.len(),
    ensures
        undone(reset_at(a, now), later).session == a.session,
        undone(reset_at(a, now), later).undo == a.undo,
{
    let key = selected_of(a)->0;
    lemma_undo_restaged(a.session, key, defaults_of(a.session.ports[key].options));
    assert(reset_at(a, now).undo.drop_last() =~= a.undo);
}

/// Undoing a revert that was just made brings the edits back.
pub proof fn law_undo_revert(a: AppView, now: u64, later: u64)
    requires
        reverted_at(a, now).undo.len() > a.undo.len(),
    ensures
        undone(reverted_at(a, now), later).session == a.session,
        undone(reverted_at(a, now), later).undo == a.undo,
{
    let key = selected_of(a)->0;
    lemma_undo_restaged(
        a.session,
        key,
        a.session.states[a.session.ports[key].options_name].baseline,
    );
    assert(reverted_at(a, now).undo.drop_last() =~= a.undo);
}

} // verus!
