//! Background refreshes, seen from the interface.
use vstd::prelude::*;

use crate::list::{lemma_filter_holds, lemma_filter_none, lemma_filter_one, lemma_take_one};
use crate::list::lookup;
use crate::model::origin::{key_text, KeyView, PortKey};
use crate::model::port::{InfoView, PortInfo};
use crate::optionsfile::{render, rendered, SavedOptionsFile, SavedView};
use crate::order::Duplicate;
use crate::query::refresher::{EventView, RefreshEvent};
use crate::query::scanner::{ResultView, ScanResult};
use crate::session::base::SessionView;
use crate::session::layers::{diff_tokens, is_blocked, staged_diff};
use crate::session::reach::{joined_scan, live, merged};
use crate::sorted::{lemma_ordered, ordered, SortedMap};
use crate::text::{decimal, glue, glue3, join, number, opt_view, views, Str};
use crate::tui::app::{flashed, selected_of, with_editor, with_list, App, AppView};

verus! {

/// How long after the last toggle before the port is re-queried, in
/// milliseconds.
pub const REFRESH_DEBOUNCE: u64 = 300;

// ---------------------------------------------------------------------
// Asking
// ---------------------------------------------------------------------

/// A port with the options file that a re-query is to see.
pub struct StagedFile {
    pub key: PortKey,
    pub options_name: String,
    pub content: String,
}

#[verifier::ext_equal]
pub struct FileView {
    pub key: KeyView,
    pub options_name: Str,
    pub content: Str,
}

impl View for StagedFile {
    type V = FileView;

    open spec fn view(&self) -> FileView {
        FileView {
            key: self.key@,
            options_name: self.options_name@,
            content: self.content@,
        }
    }
}

/// Whether a port has waited long enough.
pub open spec fn is_due(pending: Map<KeyView, u64>, now: u64) -> spec_fn(KeyView) -> bool {
    |k: KeyView| now >= pending[k] + REFRESH_DEBOUNCE
}

/// The ports that have waited long enough, in order.
pub open spec fn due_ports(pending: Map<KeyView, u64>, now: u64) -> Seq<KeyView> {
    ordered::<PortKey>(pending.dom()).filter(is_due(pending, now))
}

/// The options files of ports as they are staged; a port that is gone or has no
/// options has none.
pub open spec fn files_of(v: SessionView, keys: Seq<KeyView>) -> Seq<FileView>
    decreases keys.len(),
{
    if keys.len() == 0 {
        Seq::empty()
    } else {
        let before = files_of(v, keys.drop_last());
        let key = keys.last();
        match lookup(v.ports, key) {
            Some(info) => match v.state_of(info) {
                Some(st) => before.push(
                    FileView {
                        key,
                        options_name: info.options_name,
                        content: rendered(info.pkgname, info.options.complete, st.staged),
                    },
                ),
                None => before,
            },
            None => before,
        }
    }
}

/// The ports that are still waiting.
pub open spec fn waiting(pending: Map<KeyView, u64>, keys: Seq<KeyView>) -> Map<KeyView, u64>
    decreases keys.len(),
{
    if keys.len() == 0 {
        pending
    } else {
        waiting(pending, keys.drop_last()).remove(keys.last())
    }
}

proof fn lemma_waiting(pending: Map<KeyView, u64>, keys: Seq<KeyView>, k: KeyView)
    ensures
        waiting(pending, keys).dom().contains(k) <==> pending.dom().contains(k) && !keys.contains(
            k,
        ),
        waiting(pending, keys).dom().contains(k) ==> waiting(pending, keys)[k] == pending[k],
    decreases keys.len(),
{
    if keys.len() > 0 {
        let rest = keys.drop_last();
        lemma_waiting(pending, rest, k);
        if keys.contains(k) {
            let i = choose|i: int| 0 <= i < keys.len() && keys[i] == k;
            if i < rest.len() {
                assert(rest[i] == k);
            }
        }
        if rest.contains(k) {
            let i = choose|i: int| 0 <= i < rest.len() && rest[i] == k;
            assert(keys[i] == k);
        }
        assert(keys[keys.len() - 1] == keys.last());
    }
}

/// Taking the ports that are due takes all of them and no other: a port that
/// has not waited long enough goes on waiting since the same time.
pub proof fn law_due_taken(pending: Map<KeyView, u64>, now: u64, k: KeyView)
    requires
        pending.dom().finite(),
    ensures
        ({
            let left = waiting(pending, due_ports(pending, now));
            &&& left.dom().contains(k) <==> pending.dom().contains(k) && now < pending[k]
                + REFRESH_DEBOUNCE
            &&& left.dom().contains(k) ==> left[k] == pending[k]
        }),
{
    let q = ordered::<PortKey>(pending.dom());
    lemma_ordered::<PortKey>(pending.dom());
    lemma_filter_holds(q, is_due(pending, now));
    lemma_waiting(pending, due_ports(pending, now), k);
    assert(due_ports(pending, now).contains(k) <==> q.contains(k) && is_due(pending, now)(k));
}

fn list_due(pending: &SortedMap<PortKey, u64>, now: u64) -> (r: Vec<PortKey>)
    ensures
        views(r@) == due_ports(pending@, now),
{
    let n = pending.len();
    let ghost q = ordered::<PortKey>(pending@.dom());
    let ghost p = is_due(pending@, now);
    let mut r: Vec<PortKey> = Vec::new();
    let mut i: usize = 0;
    proof {
        lemma_filter_none(q, p);
        assert(views(r@) =~= q.take(0).filter(p));
    }
    while i < n
        invariant
            i <= n,
            n == q.len(),
            q == ordered::<PortKey>(pending@.dom()),
            p == is_due(pending@, now),
            views(r@) == q.take(i as int).filter(p),
        decreases n - i,
    {
        let key = pending.key_at(i);
        let since: u64 = *pending.value_at(i);
        proof {
            lemma_filter_one(q, i as int, p);
        }
        if now >= since && now - since >= REFRESH_DEBOUNCE {
            let ghost was = views(r@);
            r.push(key.duplicate());
            assert(views(r@) =~= was.push(q[i as int]));
        }
        i = i + 1;
    }
    assert(q.take(n as int) =~= q);
    r
}

impl App {
    /// Take the ports that are due: the options file of each is to go to the
    /// staging db, and a re-scan is to start from them.
    pub fn take_due(&mut self, now: u64) -> (r: Vec<StagedFile>)
        ensures
            final(self)@ == (AppView {
                pending: waiting(old(self)@.pending, due_ports(old(self)@.pending, now)),
                ..old(self)@
            }),
            views(r@) == files_of(old(self)@.session, due_ports(old(self)@.pending, now)),
    {
        let ghost a = self@;
        let due = list_due(&self.pending, now);
        let ghost q = views(due@);
        let mut r: Vec<StagedFile> = Vec::new();
        let mut i: usize = 0;
        assert(q.take(0) =~= Seq::<KeyView>::empty());
        assert(views(r@) =~= files_of(a.session, q.take(0)));
        while i < due.len()
            invariant
                i <= due@.len(),
                q == views(due@),
                self@ == (AppView { pending: waiting(a.pending, q.take(i as int)), ..a }),
                views(r@) == files_of(a.session, q.take(i as int)),
            decreases due@.len() - i,
        {
            let key = &due[i];
            proof {
                lemma_take_one(q, i as int);
                assert(q[i as int] == key@);
            }
            self.pending.remove(key);
            match self.session.ports.get(key) {
                Some(info) => match self.session.state(info) {
                    Some(st) => {
                        let x = StagedFile {
                            key: key.duplicate(),
                            options_name: info.options_name.clone(),
                            content: render(
                                info.pkgname.as_str(),
                                &info.options.complete,
                                &st.staged,
                            ),
                        };
                        let ghost was = views(r@);
                        r.push(x);
                        assert(views(r@) =~= was.push(x@));
                    },
                    None => {},
                },
                None => {},
            }
            i = i + 1;
        }
        assert(q.take(due@.len() as int) =~= q);
        r
    }

    /// A staged options file could not be written.
    pub fn staging_failed(&mut self, error: &str)
        ensures
            final(self)@ == flashed(old(self)@, "staging write failed: "@ + error@, true),
    {
        let t = glue("staging write failed: ", error);
        self.flash(t.as_str(), true);
    }

    /// A batch of re-queries is on its way.
    pub fn refresh_sent(&mut self)
        ensures
            final(self)@ == (AppView {
                refreshing: capped(old(self)@.refreshing + 1),
                ..old(self)@
            }),
    {
        if self.refreshing < usize::MAX {
            self.refreshing = self.refreshing + 1;
        }
    }
}

/// A count, held to what a counter can hold.
pub open spec fn capped(n: nat) -> nat {
    if n > usize::MAX {
        usize::MAX as nat
    } else {
        n
    }
}

fn sum(a: usize, b: usize) -> (r: usize)
    ensures
        r == capped(a as nat + b as nat),
{
    if a > usize::MAX - b {
        usize::MAX
    } else {
        a + b
    }
}

// ---------------------------------------------------------------------
// Hearing back
// ---------------------------------------------------------------------

/// Whether a port refuses to build.
pub open spec fn blocked(info: InfoView) -> bool {
    info.broken is Some || info.ignore is Some
}

/// The option changes to blame where a re-query finds a port blocked that was
/// not before.
pub open spec fn blame_for(v: SessionView, key: KeyView, info: InfoView) -> Option<Str> {
    let was = match lookup(v.ports, key) {
        Some(i) => blocked(i),
        None => true,
    };
    match v.state_of(info) {
        Some(st) => if blocked(info) && !was && st.baseline != st.staged {
            Some(join(diff_tokens(st.baseline, st.staged), " "@))
        } else {
            None
        },
        None => None,
    }
}

/// The blames after a scan of ports.
pub open spec fn blamed(
    blame: Map<Str, Str>,
    v: SessionView,
    keys: Seq<KeyView>,
    ports: Map<KeyView, InfoView>,
) -> Map<Str, Str>
    decreases keys.len(),
{
    if keys.len() == 0 {
        blame
    } else {
        let before = blamed(blame, v, keys.drop_last(), ports);
        let info = ports[keys.last()];
        match blame_for(v, keys.last(), info) {
            Some(text) => before.insert(info.options_name, text),
            None => before,
        }
    }
}

/// How many ports a merge adds, and how many it removes.
pub open spec fn merge_counts(
    v: SessionView,
    r: ResultView,
    files: Map<Str, SavedView>,
) -> (nat, nat) {
    let mid = joined_scan(v, r.ports, r.aliases, files);
    (
        r.ports.dom().difference(v.ports.dom()).intersect(live(mid)).len(),
        mid.ports.dom().difference(live(mid)).len(),
    )
}

/// What is said of the errors of a scan.
pub open spec fn error_text(errors: Seq<(KeyView, Str)>) -> Str {
    "refresh: "@ + decimal(errors.len()) + " dep error(s), e.g. "@ + key_text(errors[0].0) + ": "@
        + errors[0].1
}

/// The interface after some events, and how many ports were added and removed
/// if a scan has finished.
#[verifier::ext_equal]
pub struct DrainView {
    pub app: AppView,
    pub merged: Option<(nat, nat)>,
}

/// One more event.
pub open spec fn after_event(d: DrainView, e: EventView, files: Map<Str, SavedView>) -> DrainView {
    let a = d.app;
    match e {
        EventView::Progress { done, discovered } => DrainView {
            app: AppView { refresh_progress: Some((done, discovered)), ..a },
            ..d
        },
        EventView::Done { result, batches } => {
            let (added, removed) = merge_counts(a.session, result, files);
            let (before, gone) = match d.merged {
                Some(m) => m,
                None => (0, 0),
            };
            let next = AppView {
                refreshing: if a.refreshing < batches {
                    0
                } else {
                    (a.refreshing - batches) as nat
                },
                blame: blamed(
                    a.blame,
                    a.session,
                    ordered::<PortKey>(result.ports.dom()),
                    result.ports,
                ),
                session: merged(a.session, result.ports, result.aliases, files),
                ..a
            };
            DrainView {
                app: if result.errors.len() > 0 {
                    flashed(next, error_text(result.errors), true)
                } else {
                    next
                },
                merged: Some((capped(before + added), capped(gone + removed))),
            }
        },
    }
}

/// Events one after the other.
pub open spec fn after_events(
    a: AppView,
    events: Seq<EventView>,
    files: Map<Str, SavedView>,
) -> DrainView
    decreases events.len(),
{
    if events.len() == 0 {
        DrainView { app: a, merged: None }
    } else {
        after_event(after_events(a, events.drop_last(), files), events.last(), files)
    }
}

/// What is said of a finished refresh.
pub open spec fn refreshed_text(added: nat, removed: nat) -> Str {
    "dependencies refreshed: +"@ + decimal(added) + " −"@ + decimal(removed) + " port(s)"@
}

/// The interface once events were heard: the list is rebuilt where a scan has
/// finished.
pub open spec fn drained(d: DrainView) -> AppView {
    let a = if d.app.refreshing == 0 {
        AppView { refresh_progress: None, ..d.app }
    } else {
        d.app
    };
    match d.merged {
        Some((added, removed)) => {
            let b = with_editor(with_list(a, selected_of(a)));
            if added > 0 || removed > 0 {
                flashed(b, refreshed_text(added, removed), false)
            } else {
                b
            }
        },
        None => a,
    }
}

impl App {
    fn blame_ports(&mut self, ports: &SortedMap<PortKey, PortInfo>)
        ensures
            final(self)@ == (AppView {
                blame: blamed(
                    old(self)@.blame,
                    old(self)@.session,
                    ordered::<PortKey>(ports@.dom()),
                    ports@,
                ),
                ..old(self)@
            }),
    {
        let ghost a = self@;
        let n = ports.len();
        let ghost q = ordered::<PortKey>(ports@.dom());
        let mut i: usize = 0;
        assert(q.take(0) =~= Seq::<KeyView>::empty());
        while i < n
            invariant
                i <= n,
                n == q.len(),
                q == ordered::<PortKey>(ports@.dom()),
                self@ == (AppView {
                    blame: blamed(a.blame, a.session, q.take(i as int), ports@),
                    ..a
                }),
            decreases n - i,
        {
            let key = ports.key_at(i);
            let info = ports.value_at(i);
            proof {
                lemma_take_one(q, i as int);
            }
            let was = match self.session.ports.get(key) {
                Some(x) => is_blocked(x),
                None => true,
            };
            let text = if !was && is_blocked(info) {
                match self.session.state(info) {
                    Some(st) => if !st.baseline.equals(&st.staged) {
                        Some(staged_diff(&st.baseline, &st.staged))
                    } else {
                        None
                    },
                    None => None,
                }
            } else {
                None
            };
            assert(opt_view(text) == blame_for(a.session, key@, info@));
            match text {
                Some(t) => {
                    self.blame.insert(info.options_name.clone(), t);
                },
                None => {},
            }
            i = i + 1;
        }
        assert(q.take(n as int) =~= q);
    }

    fn scan_done(
        &mut self,
        result: &ScanResult,
        batches: usize,
        files: &SortedMap<String, SavedOptionsFile>,
    ) -> (r: (usize, usize))
        ensures
            ({
                let d = after_event(
                    DrainView { app: old(self)@, merged: None },
                    EventView::Done { result: result@, batches },
                    files@,
                );
                &&& final(self)@ == d.app
                &&& (r.0 as nat, r.1 as nat) == merge_counts(old(self)@.session, result@, files@)
            }),
    {
        self.blame_ports(&result.ports);
        self.refreshing = if self.refreshing < batches {
            0
        } else {
            self.refreshing - batches
        };
        let counts = self.session.merge(result, files);
        if result.errors.len() > 0 {
            assert(result@.errors[0] == result.errors@[0]@);
            let n = number(result.errors.len() as u64);
            let k = result.errors[0].0.to_string();
            let mut t = glue3("refresh: ", n.as_str(), " dep error(s), e.g. ");
            t.append(k.as_str());
            t.append(": ");
            t.append(result.errors[0].1.as_str());
            self.flash(t.as_str(), true);
        }
        counts
    }

    /// Hear what background scans have to say: `files` holds the options files
    /// of the ports they found.
    pub fn drain_refresh_events(
        &mut self,
        events: &Vec<RefreshEvent>,
        files: &SortedMap<String, SavedOptionsFile>,
    )
        ensures
            final(self)@ == drained(after_events(old(self)@, views(events@), files@)),
    {
        let ghost a = self@;
        let ghost es = views(events@);
        let mut seen: Option<(usize, usize)> = None;
        let mut i: usize = 0;
        assert(es.take(0) =~= Seq::<EventView>::empty());
        while i < events.len()
            invariant
                i <= events@.len(),
                es == views(events@),
                after_events(a, es.take(i as int), files@) == (DrainView {
                    app: self@,
                    merged: match seen {
                        Some((x, y)) => Some((x as nat, y as nat)),
                        None => None,
                    },
                }),
            decreases events@.len() - i,
        {
            proof {
                lemma_take_one(es, i as int);
                assert(es[i as int] == events@[i as int]@);
            }
            match &events[i] {
                RefreshEvent::Progress { done, discovered } => {
                    self.refresh_progress = Some((*done, *discovered));
                },
                RefreshEvent::Done { result, batches } => {
                    let (added, removed) = self.scan_done(result, *batches, files);
                    seen = match seen {
                        Some((x, y)) => Some((sum(x, added), sum(y, removed))),
                        None => Some((added, removed)),
                    };
                },
            }
            i = i + 1;
        }
        assert(es.take(events@.len() as int) =~= es);
        if self.refreshing == 0 {
            self.refresh_progress = None;
        }
        match seen {
            Some((added, removed)) => {
                let keep = self.selected_key();
                self.rebuild_visible(keep);
                self.rebuild_editor();
                if added > 0 || removed > 0 {
                    let x = number(added as u64);
                    let y = number(removed as u64);
                    let mut t = glue3("dependencies refreshed: +", x.as_str(), " −");
                    t.append(y.as_str());
                    t.append(" port(s)");
                    self.flash(t.as_str(), false);
                }
            },
            None => {},
        }
    }

    /// Whether no background refresh is outstanding and nothing is waiting.
    pub fn is_settled(&self) -> (r: bool)
        ensures
            r == (self@.refreshing == 0 && self@.pending == Map::<KeyView, u64>::empty()),
    {
        let n = self.pending.len();
        proof {
            if n == 0 {
                assert(self@.pending =~= Map::<KeyView, u64>::empty());
            } else {
                assert(!self@.pending.dom().is_empty());
            }
        }
        self.refreshing == 0 && n == 0
    }
}

} // verus!
