//! The port list: which ports are shown, and in what order.
use vstd::prelude::*;

use crate::config::{blacklisted, Blacklist, BlacklistView};
use crate::glob::glob;
use crate::list::{lemma_filter_holds, lemma_filter_none, lemma_filter_one, lemma_take_one};
use crate::model::origin::{key_text, KeyView, PortKey};
use crate::model::port::{InfoView, PortInfo};
use crate::order::Duplicate;
use crate::session::base::{Session, SessionView};
use crate::session::layers::undecided;
use crate::session::status::{mc_deviates_of, status_of, UiStatus};
use crate::sorted::ordered;
use crate::text::{has_text, holds, views, Str};

verus! {

// ---------------------------------------------------------------------
// Status
// ---------------------------------------------------------------------

/// The views that can be switched on and off.
#[derive(Clone, Copy, Debug, PartialEq, Eq, Structural)]
pub struct Views {
    /// Show only ports needing attention.
    pub hide_ok: bool,
    /// Ports that make.conf decides count as ok.
    pub mc_relax: bool,
    /// Ports that contradict make.conf are flagged.
    pub warn_mc: bool,
    /// Sort by name alone, not problems first.
    pub by_name: bool,
}

/// Whether make.conf decides what a port leaves open.
pub open spec fn covered(v: SessionView, info: InfoView) -> bool {
    match v.state_of(info) {
        Some(st) => undecided(info.options, st.saved, v.minimal).len() == 0,
        None => false,
    }
}

/// The options of a port that contradict make.conf.
pub open spec fn deviations(v: SessionView, info: InfoView) -> Seq<Str> {
    info.options.complete.filter(|opt: Str| mc_deviates_of(v, info, opt))
}

/// The status a port is shown with: a blacklisted port never needs attention,
/// and the views can silence or flag others.
pub open spec fn effective(v: SessionView, b: BlacklistView, w: Views, info: InfoView) -> UiStatus {
    let raw = status_of(v, info);
    if blacklisted(b, info.canonical.origin) {
        UiStatus::Okay
    } else if w.mc_relax && (raw is Stale || raw is Unconfigured) && covered(v, info) {
        UiStatus::Okay
    } else if w.warn_mc && raw is Okay && deviations(v, info).len() > 0 {
        UiStatus::McDeviation
    } else {
        raw
    }
}

/// The status a port is shown with.
pub fn effective_status(
    session: &Session,
    blacklist: &Blacklist,
    w: Views,
    info: &PortInfo,
) -> (r: UiStatus)
    ensures
        r == effective(session@, blacklist@, w, info@),
{
    if blacklist.matches(info.canonical.origin.as_str()) {
        return UiStatus::Okay;
    }
    let raw = session.status(info);
    match raw {
        UiStatus::Stale => if w.mc_relax && session.covered_by_makeconf(info) {
            UiStatus::Okay
        } else {
            raw
        },
        UiStatus::Unconfigured => if w.mc_relax && session.covered_by_makeconf(info) {
            UiStatus::Okay
        } else {
            raw
        },
        UiStatus::Okay => if w.warn_mc && session.mc_deviations(info).len() > 0 {
            UiStatus::McDeviation
        } else {
            raw
        },
        _ => raw,
    }
}

/// The statuses in the order of their severity.
#[verifier::allow_in_spec]
pub fn status_at(n: usize) -> UiStatus
    returns
        (if n == 0 {
            UiStatus::Conflict
        } else if n == 1 {
            UiStatus::Edited
        } else if n == 2 {
            UiStatus::Unconfigured
        } else if n == 3 {
            UiStatus::Stale
        } else if n == 4 {
            UiStatus::McDeviation
        } else {
            UiStatus::Okay
        }),
{
    if n == 0 {
        UiStatus::Conflict
    } else if n == 1 {
        UiStatus::Edited
    } else if n == 2 {
        UiStatus::Unconfigured
    } else if n == 3 {
        UiStatus::Stale
    } else if n == 4 {
        UiStatus::McDeviation
    } else {
        UiStatus::Okay
    }
}

// ---------------------------------------------------------------------
// Filter
// ---------------------------------------------------------------------

/// A text in lower case.
pub uninterp spec fn lowercase(s: Str) -> Str;

/// `str::to_lowercase`: the lower case of a text follows from its characters
/// alone. What it is for each character is left to the Unicode tables.
#[verifier::external_body]
fn to_lower(s: &str) -> (r: String)
    ensures
        r@ == lowercase(s@),
{
    s.to_lowercase()
}

/// Whether a port is listed under a filter: it has options, and its key or its
/// package name holds the filter's text, whatever the case.
pub open spec fn listed(v: SessionView, filter: Str) -> spec_fn(KeyView) -> bool {
    |k: KeyView|
        v.ports[k].options.complete.len() > 0 && passes(
            lowercase(filter),
            lowercase(key_text(k)),
            lowercase(v.ports[k].pkgname),
        )
}

/// Whether texts pass a filter.
pub open spec fn passes(filter: Str, key: Str, pkgname: Str) -> bool {
    filter.len() == 0 || holds(key, filter) || holds(pkgname, filter)
}

/// The ports that a filter lets through, in key order.
pub open spec fn candidates(v: SessionView, filter: Str) -> Seq<KeyView> {
    ordered::<PortKey>(v.ports.dom()).filter(listed(v, filter))
}

/// Whether a port is shown with a status.
pub open spec fn shown_as(v: SessionView, b: BlacklistView, w: Views, s: UiStatus) -> spec_fn(
    KeyView,
) -> bool {
    |k: KeyView| effective(v, b, w, v.ports[k]) == s
}

/// Whether a port needs attention.
pub open spec fn needs_attention(v: SessionView, b: BlacklistView, w: Views) -> spec_fn(
    KeyView,
) -> bool {
    |k: KeyView| effective(v, b, w, v.ports[k]) != UiStatus::Okay
}

/// Ports by status, the most severe `n` statuses first.
pub open spec fn by_status(
    v: SessionView,
    b: BlacklistView,
    w: Views,
    keys: Seq<KeyView>,
    n: nat,
) -> Seq<KeyView>
    decreases n,
{
    if n == 0 {
        Seq::empty()
    } else {
        by_status(v, b, w, keys, (n - 1) as nat) + keys.filter(
            shown_as(v, b, w, status_at((n - 1) as usize)),
        )
    }
}

/// The ports that are shown: problems first, or by name alone.
pub open spec fn shown(v: SessionView, b: BlacklistView, w: Views, filter: Str) -> Seq<KeyView> {
    let all = candidates(v, filter);
    if w.by_name {
        if w.hide_ok {
            all.filter(needs_attention(v, b, w))
        } else {
            all
        }
    } else {
        by_status(
            v,
            b,
            w,
            all,
            if w.hide_ok {
                5
            } else {
                6
            },
        )
    }
}

/// How severe a status is, the most severe first.
pub open spec fn rank(s: UiStatus) -> nat {
    match s {
        UiStatus::Conflict => 0,
        UiStatus::Edited => 1,
        UiStatus::Unconfigured => 2,
        UiStatus::Stale => 3,
        UiStatus::McDeviation => 4,
        UiStatus::Okay => 5,
    }
}

proof fn lemma_by_status(
    v: SessionView,
    b: BlacklistView,
    w: Views,
    keys: Seq<KeyView>,
    n: nat,
    k: KeyView,
)
    requires
        n <= 6,
    ensures
        by_status(v, b, w, keys, n).contains(k) <==> keys.contains(k) && rank(
            effective(v, b, w, v.ports[k]),
        ) < n,
    decreases n,
{
    if n > 0 {
        let m = (n - 1) as nat;
        lemma_by_status(v, b, w, keys, m, k);
        let p = shown_as(v, b, w, status_at(m as usize));
        lemma_filter_holds(keys, p);
        let x = by_status(v, b, w, keys, m);
        let y = keys.filter(p);
        let all = by_status(v, b, w, keys, n);
        assert(all == x + y);
        if all.contains(k) {
            let i = all.index_of(k);
            if i < x.len() {
                assert(x[i] == k);
            } else {
                assert(y[i - x.len()] == k);
            }
        }
        if x.contains(k) {
            assert(all[x.index_of(k)] == k);
        }
        if y.contains(k) {
            assert(all[x.len() + y.index_of(k)] == k);
        }
    }
}

/// Exactly the ports that have options and pass the filter are shown, less
/// those that need no attention where these are hidden.
pub proof fn law_shown_exact(
    v: SessionView,
    b: BlacklistView,
    w: Views,
    filter: Str,
    k: KeyView,
)
    ensures
        shown(v, b, w, filter).contains(k) <==> candidates(v, filter).contains(k) && (w.hide_ok
            ==> effective(v, b, w, v.ports[k]) != UiStatus::Okay),
{
    let all = candidates(v, filter);
    lemma_filter_holds(all, needs_attention(v, b, w));
    lemma_by_status(v, b, w, all, 5, k);
    lemma_by_status(v, b, w, all, 6, k);
}

/// Problems come first: unless the list is sorted by name, no port is shown
/// below a less severe one.
pub proof fn law_problems_first(
    v: SessionView,
    b: BlacklistView,
    w: Views,
    filter: Str,
    i: int,
    j: int,
)
    requires
        !w.by_name,
        0 <= i <= j < shown(v, b, w, filter).len(),
    ensures
        ({
            let s = shown(v, b, w, filter);
            rank(effective(v, b, w, v.ports[s[i]])) <= rank(effective(v, b, w, v.ports[s[j]]))
        }),
{
    lemma_in_order(
        v,
        b,
        w,
        candidates(v, filter),
        if w.hide_ok {
            5
        } else {
            6
        },
        i,
        j,
    );
}

proof fn lemma_in_order(
    v: SessionView,
    b: BlacklistView,
    w: Views,
    keys: Seq<KeyView>,
    n: nat,
    i: int,
    j: int,
)
    requires
        n <= 6,
        0 <= i <= j < by_status(v, b, w, keys, n).len(),
    ensures
        ({
            let s = by_status(v, b, w, keys, n);
            rank(effective(v, b, w, v.ports[s[i]])) <= rank(effective(v, b, w, v.ports[s[j]]))
        }),
    decreases n,
{
    if n > 0 {
        let m = (n - 1) as nat;
        let s = by_status(v, b, w, keys, n);
        let x = by_status(v, b, w, keys, m);
        let p = shown_as(v, b, w, status_at(m as usize));
        let y = keys.filter(p);
        lemma_filter_holds(keys, p);
        if j < x.len() {
            lemma_in_order(v, b, w, keys, m, i, j);
            assert(s[i] == x[i] && s[j] == x[j]);
        } else {
            assert(s[j] == y[j - x.len()]);
            assert(y.contains(s[j]));
            if i < x.len() {
                assert(x[i] == s[i]);
                lemma_by_status(v, b, w, keys, m, s[i]);
            } else {
                assert(s[i] == y[i - x.len()]);
                assert(y.contains(s[i]));
            }
        }
    }
}

/// Whether texts pass a filter; the filter is in lower case.
pub fn passes_filter(filter: &str, key: &str, pkgname: &str) -> (r: bool)
    ensures
        r == passes(filter@, key@, pkgname@),
{
    filter.is_empty() || has_text(key, filter) || has_text(pkgname, filter)
}

fn list_candidates(session: &Session, filter: &str) -> (r: Vec<PortKey>)
    ensures
        views(r@) == candidates(session@, filter@),
        forall|i: int| 0 <= i < r@.len() ==> session@.ports.dom().contains((#[trigger] r@[i])@),
{
    broadcast use {crate::text::views_push, crate::text::views_empty};

    let lower = to_lower(filter);
    let n = session.ports.len();
    let ghost q = ordered::<PortKey>(session@.ports.dom());
    let ghost p = listed(session@, filter@);
    let mut r: Vec<PortKey> = Vec::new();
    let mut i: usize = 0;
    proof {
        lemma_filter_none(q, p);
    }
    while i < n
        invariant
            i <= n,
            n == q.len(),
            q == ordered::<PortKey>(session@.ports.dom()),
            p == listed(session@, filter@),
            lower@ == lowercase(filter@),
            views(r@) == q.take(i as int).filter(p),
            forall|j: int| 0 <= j < r@.len() ==> session@.ports.dom().contains((#[trigger] r@[j])@),
        decreases n - i,
    {
        let key = session.ports.key_at(i);
        let info = session.ports.value_at(i);
        proof {
            lemma_filter_one(q, i as int, p);
        }
        if info.options.has_options() {
            let text = key.to_string();
            let name = to_lower(text.as_str());
            let pkg = to_lower(info.pkgname.as_str());
            if passes_filter(lower.as_str(), name.as_str(), pkg.as_str()) {
                r.push(key.duplicate());
            }
        }
        i = i + 1;
    }
    assert(q.take(n as int) =~= q);
    r
}

fn push_status(
    keys: &Vec<PortKey>,
    statuses: &Vec<UiStatus>,
    s: UiStatus,
    out: &mut Vec<PortKey>,
    Ghost(p): Ghost<spec_fn(KeyView) -> bool>,
)
    requires
        keys@.len() == statuses@.len(),
        forall|i: int| 0 <= i < keys@.len() ==> p((#[trigger] keys@[i])@) == (statuses@[i] == s),
    ensures
        views(final(out)@) == views(old(out)@) + views(keys@).filter(p),
{
    broadcast use {crate::text::views_push, crate::text::views_empty};

    let ghost start = views(out@);
    let ghost q = views(keys@);
    let mut i: usize = 0;
    proof {
        lemma_filter_none(q, p);
        assert(start + q.take(0).filter(p) =~= start);
    }
    while i < keys.len()
        invariant
            i <= keys@.len(),
            q == views(keys@),
            keys@.len() == statuses@.len(),
            forall|j: int|
                0 <= j < keys@.len() ==> p((#[trigger] keys@[j])@) == (statuses@[j] == s),
            views(out@) == start + q.take(i as int).filter(p),
        decreases keys@.len() - i,
    {
        proof {
            lemma_filter_one(q, i as int, p);
            assert(q[i as int] == keys@[i as int]@);
        }
        if statuses[i] == s {
            let ghost was = views(out@);
            out.push(keys[i].duplicate());
            assert(views(out@) =~= was.push(q[i as int]));
            assert(views(out@) =~= start + q.take(i + 1).filter(p));
        }
        i = i + 1;
    }
    assert(q.take(keys@.len() as int) =~= q);
}

/// The ports to show, and how many the filter lets through.
pub fn visible_ports(session: &Session, blacklist: &Blacklist, w: Views, filter: &str) -> (r: (
    Vec<PortKey>,
    usize,
))
    ensures
        views(r.0@) == shown(session@, blacklist@, w, filter@),
        r.1 == candidates(session@, filter@).len(),
{
    broadcast use {crate::text::views_push, crate::text::views_empty};

    let keys = list_candidates(session, filter);
    let ghost v = session@;
    let ghost b = blacklist@;
    let ghost q = views(keys@);
    let listable = keys.len();
    let mut statuses: Vec<UiStatus> = Vec::new();
    let mut i: usize = 0;
    while i < keys.len()
        invariant
            i <= keys@.len(),
            v == session@,
            b == blacklist@,
            statuses@.len() == i,
            forall|j: int| 0 <= j < keys@.len() ==> v.ports.dom().contains((#[trigger] keys@[j])@),
            forall|j: int|
                0 <= j < i ==> #[trigger] statuses@[j] == effective(v, b, w, v.ports[keys@[j]@]),
        decreases keys@.len() - i,
    {
        let s = match session.ports.get(&keys[i]) {
            Some(info) => effective_status(session, blacklist, w, info),
            None => UiStatus::Okay,
        };
        statuses.push(s);
        i = i + 1;
    }
    let mut out: Vec<PortKey> = Vec::new();
    if w.by_name {
        let ghost p = needs_attention(v, b, w);
        let mut i: usize = 0;
        proof {
            lemma_filter_none(q, p);
        }
        assert(q.take(0) =~= Seq::<KeyView>::empty());
        while i < keys.len()
            invariant
                i <= keys@.len(),
                q == views(keys@),
                p == needs_attention(v, b, w),
                statuses@.len() == keys@.len(),
                forall|j: int|
                    0 <= j < keys@.len() ==> #[trigger] statuses@[j] == effective(
                        v,
                        b,
                        w,
                        v.ports[keys@[j]@],
                    ),
                views(out@) == if w.hide_ok {
                    q.take(i as int).filter(p)
                } else {
                    q.take(i as int)
                },
            decreases keys@.len() - i,
        {
            proof {
                lemma_filter_one(q, i as int, p);
                lemma_take_one(q, i as int);
                assert(q[i as int] == keys@[i as int]@);
            }
            if !w.hide_ok || statuses[i] != UiStatus::Okay {
                let ghost was = views(out@);
                out.push(keys[i].duplicate());
                assert(views(out@) =~= was.push(q[i as int]));
                assert(q.take(i + 1) =~= q.take(i as int).push(q[i as int]));
            }
            i = i + 1;
        }
        assert(q.take(keys@.len() as int) =~= q);
    } else {
        let stop: usize = if w.hide_ok {
            5
        } else {
            6
        };
        let mut n: usize = 0;
        assert(views(out@) =~= by_status(v, b, w, q, 0));
        while n < stop
            invariant
                n <= stop <= 6,
                q == views(keys@),
                statuses@.len() == keys@.len(),
                forall|j: int|
                    0 <= j < keys@.len() ==> #[trigger] statuses@[j] == effective(
                        v,
                        b,
                        w,
                        v.ports[keys@[j]@],
                    ),
                views(out@) == by_status(v, b, w, q, n as nat),
            decreases stop - n,
        {
            let ghost p = shown_as(v, b, w, status_at(n));
            assert forall|j: int| 0 <= j < keys@.len() implies p((#[trigger] keys@[j])@) == (
            statuses@[j] == status_at(n)) by {
                assert(statuses@[j] == effective(v, b, w, v.ports[keys@[j]@]));
            }
            push_status(&keys, &statuses, status_at(n), &mut out, Ghost(p));
            n = n + 1;
        }
    }
    (out, listable)
}

/// Where a key stands in a list.
pub open spec fn place_of(keys: Seq<KeyView>, k: KeyView) -> Option<nat> {
    if keys.contains(k) {
        Some(keys.index_of_first(k)->0 as nat)
    } else {
        None
    }
}

/// Where a key stands in a list.
pub fn position(keys: &Vec<PortKey>, k: &PortKey) -> (r: Option<usize>)
    ensures
        match r {
            Some(i) => place_of(views(keys@), k@) == Some(i as nat) && i < keys@.len(),
            None => place_of(views(keys@), k@) is None,
        },
{
    let ghost q = views(keys@);
    let mut i: usize = 0;
    while i < keys.len()
        invariant
            i <= keys@.len(),
            q == views(keys@),
            forall|j: int| 0 <= j < i ==> #[trigger] q[j] != k@,
        decreases keys@.len() - i,
    {
        assert(q[i as int] == keys@[i as int]@);
        if keys[i].equals(k) {
            proof {
                q.index_of_first_ensures(k@);
                let f = q.index_of_first(k@)->0;
                assert(f == i);
            }
            return Some(i);
        }
        i = i + 1;
    }
    None
}

/// The status a port is shown with. A blacklisted port is fine. Otherwise an
/// edited or conflicting one is shown as such, whatever the views; without views
/// every port is; and the views only silence a port that leaves nothing open, and
/// flag one that is fine but has an option on which it deviates.
pub proof fn law_effective(
    v: SessionView,
    b: BlacklistView,
    w: Views,
    info: InfoView,
    opt: Str,
    i: int,
)
    ensures
        ({
            let raw = status_of(v, info);
            let r = effective(v, b, w, info);
            let matched = 0 <= i < b.patterns.len() && glob(b.patterns[i], info.canonical.origin);
            &&& matched ==> r is Okay
            &&& b.patterns.len() == 0 && (raw is Conflict || raw is Edited) ==> r == raw
            &&& b.patterns.len() == 0 && !w.mc_relax && !w.warn_mc ==> r == raw
            &&& b.patterns.len() == 0 && !w.mc_relax && raw !is Okay ==> r == raw
            &&& b.patterns.len() == 0 && w.mc_relax && (raw is Stale || raw is Unconfigured) ==> match v.state_of(
                info,
            ) {
                Some(st) => if undecided(info.options, st.saved, v.minimal).len() == 0 {
                    r is Okay
                } else {
                    r == raw
                },
                None => r == raw,
            }
            &&& b.patterns.len() == 0 && w.warn_mc && raw is Okay && info.options.complete.contains(
                opt,
            ) && mc_deviates_of(v, info, opt) ==> r is McDeviation
            &&& r is McDeviation ==> w.warn_mc && raw is Okay || raw is McDeviation
        }),
{
    let p = |opt: Str| mc_deviates_of(v, info, opt);
    lemma_filter_holds(info.options.complete, p);
    if info.options.complete.contains(opt) && mc_deviates_of(v, info, opt) {
        assert(deviations(v, info).contains(opt));
    }
}

/// Without a view that hides or filters, exactly the ports with options are shown;
/// a filter lets through those whose key or package name holds its text.
pub proof fn law_candidates(v: SessionView, filter: Str, k: KeyView)
    requires
        v.ports.dom().finite(),
    ensures
        candidates(v, filter).contains(k) <==> v.ports.dom().contains(k)
            && v.ports[k].options.complete.len() > 0 && (lowercase(filter).len() == 0 || holds(
            lowercase(key_text(k)),
            lowercase(filter),
        ) || holds(lowercase(v.ports[k].pkgname), lowercase(filter))),
{
    let all = ordered::<PortKey>(v.ports.dom());
    crate::sorted::lemma_ordered::<PortKey>(v.ports.dom());
    lemma_filter_holds(all, listed(v, filter));
}

} // verus!
