//! Following the dependency closure.
//!
//! A scan is a state that is driven from outside: it says what it needs next
//! (a cache lookup, the result of a query in flight) and is told what came of
//! it.
use vstd::prelude::*;

use crate::list::lookup;
use crate::model::origin::{KeyView, PortKey};
use crate::model::port::{EdgeView, InfoView, PortInfo};
use crate::moved::{moved_of, EntryView, Moved, MovedResult, MovedView};
use crate::order::{duplicate_list, Duplicate};
use crate::sorted::{SortedMap, SortedSet};
use crate::text::{glue, opt_view, views, Str};

verus! {

/// Result of a (full or incremental) closure scan.
pub struct ScanResult {
    /// Ports keyed by canonical key (origin + resolved flavor).
    pub ports: SortedMap<PortKey, PortInfo>,
    /// Requested key -> canonical key (for dedup of default-flavor aliases).
    pub aliases: SortedMap<PortKey, PortKey>,
    /// Ports whose query failed: (requested key, error).
    pub errors: Vec<(PortKey, String)>,
    /// MOVED redirections applied during the scan (informational).
    pub moved_notes: Vec<String>,
    pub from_cache: usize,
    pub queried: usize,
}

#[verifier::ext_equal]
pub struct ResultView {
    pub ports: Map<KeyView, InfoView>,
    pub aliases: Map<KeyView, KeyView>,
    pub errors: Seq<(KeyView, Str)>,
    pub moved_notes: Seq<Str>,
    pub from_cache: nat,
    pub queried: nat,
}

impl View for ScanResult {
    type V = ResultView;

    open spec fn view(&self) -> ResultView {
        ResultView {
            ports: self.ports@,
            aliases: self.aliases@,
            errors: views(self.errors@),
            moved_notes: views(self.moved_notes@),
            from_cache: self.from_cache as nat,
            queried: self.queried as nat,
        }
    }
}

/// The result of a scan that has found nothing yet.
pub open spec fn no_result() -> ResultView {
    ResultView {
        ports: Map::empty(),
        aliases: Map::empty(),
        errors: Seq::empty(),
        moved_notes: Seq::empty(),
        from_cache: 0,
        queried: 0,
    }
}

impl Default for ScanResult {
    fn default() -> (r: Self)
        ensures
            r@ == no_result(),
    {
        let r = ScanResult {
            ports: SortedMap::new(),
            aliases: SortedMap::new(),
            errors: Vec::new(),
            moved_notes: Vec::new(),
            from_cache: 0,
            queried: 0,
        };
        assert(r@ =~= no_result());
        r
    }
}

pub struct ScanProgress {
    pub done: usize,
    pub discovered: usize,
    pub from_cache: usize,
}

/// What came of a query.
pub enum ScanEvent {
    PortDone(PortInfo),
    PortError { key: PortKey, msg: String },
}

/// What a scan needs next.
pub enum Step {
    /// Look the port up in the cache and say what was found.
    Lookup(PortKey),
    /// Wait for a query in flight.
    Wait,
    Finished,
}

/// What a scan needs next.
pub enum StepView {
    Lookup(KeyView),
    Wait,
    Finished,
}

impl View for Step {
    type V = StepView;

    open spec fn view(&self) -> StepView {
        match *self {
            Step::Lookup(k) => StepView::Lookup(k@),
            Step::Wait => StepView::Wait,
            Step::Finished => StepView::Finished,
        }
    }
}

/// Breadth-first scan of the dependency closure of `roots`.
///
/// Every discovered dep target is resolved through MOVED, deduplicated,
/// looked up in the cache, and queried via the runner on a miss. Cached
/// ports still contribute their dep edges to the traversal.
pub struct Scan {
    pending: Vec<PortKey>,
    seen: SortedSet<PortKey>,
    /// The port whose cache lookup is awaited.
    asked: Option<PortKey>,
    in_flight: usize,
    done: usize,
    result: ScanResult,
}

#[verifier::ext_equal]
pub struct ScanView {
    pub pending: Seq<KeyView>,
    pub seen: Set<KeyView>,
    pub asked: Option<KeyView>,
    pub in_flight: nat,
    pub done: nat,
    pub result: ResultView,
}

impl View for Scan {
    type V = ScanView;

    closed spec fn view(&self) -> ScanView {
        ScanView {
            pending: views(self.pending@),
            seen: self.seen@,
            asked: opt_view(self.asked),
            in_flight: self.in_flight as nat,
            done: self.done as nat,
            result: self.result@,
        }
    }
}

/// The key of a port after renames; None where the port was removed.
pub open spec fn renamed(key: KeyView, m: MovedView) -> Option<KeyView> {
    match m {
        MovedView::Unchanged => Some(key),
        MovedView::MovedTo { origin, reason: _ } => Some(KeyView { origin, ..key }),
        MovedView::Removed { reason: _ } => None,
    }
}

/// The result with the remark that a rename or a removal is worth.
pub open spec fn remarked(r: ResultView, key: KeyView, m: MovedView) -> ResultView {
    match m {
        MovedView::Unchanged => r,
        MovedView::MovedTo { origin, reason } => ResultView {
            moved_notes: r.moved_notes.push(
                key.origin + " moved to "@ + origin + " ("@ + reason + ")"@,
            ),
            ..r
        },
        MovedView::Removed { reason } => ResultView {
            errors: r.errors.push((key, "port removed from tree: "@ + reason)),
            ..r
        },
    }
}

/// A scan taken as far as it gets by itself: ports that were removed or seen
/// are passed over, and the first other one is asked for.
pub open spec fn advanced(s: ScanView, moved: Map<Str, EntryView>) -> (ScanView, StepView)
    decreases s.pending.len(),
{
    if s.asked is Some {
        (s, StepView::Lookup(s.asked->0))
    } else if s.pending.len() == 0 {
        (
            s,
            if s.in_flight == 0 {
                StepView::Finished
            } else {
                StepView::Wait
            },
        )
    } else {
        let key = s.pending.last();
        let m = moved_of(moved, key.origin);
        let t = ScanView {
            pending: s.pending.drop_last(),
            result: remarked(s.result, key, m),
            ..s
        };
        match renamed(key, m) {
            Some(k) => if s.seen.contains(k) {
                advanced(t, moved)
            } else {
                (
                    ScanView { seen: s.seen.insert(k), asked: Some(k), ..t },
                    StepView::Lookup(k),
                )
            },
            None => advanced(t, moved),
        }
    }
}

/// Where the dependency edges of a port lead.
pub open spec fn targets(info: InfoView) -> Seq<KeyView> {
    info.deps.map_values(|d: EdgeView| d.target)
}

/// The result with a finished port under its canonical key; one that is there
/// stays.
pub open spec fn registered(r: ResultView, info: InfoView) -> ResultView {
    ResultView {
        aliases: r.aliases.insert(info.key, info.canonical),
        ports: if r.ports.dom().contains(info.canonical) {
            r.ports
        } else {
            r.ports.insert(info.canonical, info)
        },
        ..r
    }
}

/// The scan with what the cache held for the port it asked for; a port that is
/// not cached goes into flight.
pub open spec fn answered(s: ScanView, found: Option<InfoView>) -> ScanView {
    if s.asked is None {
        s
    } else {
        match found {
            Some(info) => ScanView {
                asked: None,
                pending: s.pending + targets(info),
                result: ResultView {
                    from_cache: s.result.from_cache + 1,
                    ..registered(s.result, info)
                },
                ..s
            },
            None => ScanView { asked: None, in_flight: s.in_flight + 1, ..s },
        }
    }
}

/// What came of a query.
pub enum EventView {
    PortDone(InfoView),
    PortError(KeyView, Str),
}

impl View for ScanEvent {
    type V = EventView;

    open spec fn view(&self) -> EventView {
        match *self {
            ScanEvent::PortDone(i) => EventView::PortDone(i@),
            ScanEvent::PortError { key, msg } => EventView::PortError(key@, msg@),
        }
    }
}

/// The scan with what came of a query in flight.
pub open spec fn landed(s: ScanView, e: EventView) -> ScanView {
    if s.in_flight == 0 {
        s
    } else {
        let t = ScanView { in_flight: (s.in_flight - 1) as nat, done: s.done + 1, ..s };
        match e {
            EventView::PortDone(info) => ScanView {
                pending: s.pending + targets(info),
                result: ResultView {
                    queried: s.result.queried + 1,
                    ..registered(s.result, info)
                },
                ..t
            },
            EventView::PortError(key, msg) => ScanView {
                result: ResultView { errors: s.result.errors.push((key, msg)), ..s.result },
                ..t
            },
        }
    }
}

// ---------------------------------------------------------------------
// Nothing is missed
// ---------------------------------------------------------------------

/// Whether a port is reported as an error.
pub open spec fn failed(r: ResultView, k: KeyView) -> bool {
    exists|i: int| 0 <= i < r.errors.len() && (#[trigger] r.errors[i]).0 == k
}

/// Whether a port came to an end: it was found, or it is reported as an error.
pub open spec fn concluded(r: ResultView, k: KeyView) -> bool {
    r.aliases.dom().contains(k) || failed(r, k)
}

/// Whether a port that was named came to an end under the name it has now; one
/// that was removed from the tree is reported as an error.
pub open spec fn resolved(r: ResultView, moved: Map<Str, EntryView>, k: KeyView) -> bool {
    match renamed(k, moved_of(moved, k.origin)) {
        Some(n) => concluded(r, n),
        None => failed(r, k),
    }
}

/// Whether a port that was named is taken care of: it waits, what it is called
/// now was seen, or it was removed from the tree and is reported.
pub open spec fn covered(s: ScanView, moved: Map<Str, EntryView>, k: KeyView) -> bool {
    s.pending.contains(k) || match renamed(k, moved_of(moved, k.origin)) {
        Some(n) => s.seen.contains(n),
        None => failed(s.result, k),
    }
}

/// Whether a port that was seen is accounted for: its query is in flight, its
/// cache lookup is awaited, or it came to an end.
pub open spec fn accounted(s: ScanView, flying: Set<KeyView>, k: KeyView) -> bool {
    flying.contains(k) || s.asked == Some(k) || concluded(s.result, k)
}

/// Whether a scan of `roots` has lost nothing, with the queries of the ports in
/// `flying` under way.
pub open spec fn scan_sound(
    s: ScanView,
    moved: Map<Str, EntryView>,
    roots: Seq<KeyView>,
    flying: Set<KeyView>,
) -> bool {
    &&& flying.finite()
    &&& flying.len() == s.in_flight
    &&& flying.subset_of(s.seen)
    &&& s.asked is Some ==> s.seen.contains(s.asked->0) && !flying.contains(s.asked->0)
    &&& forall|k: KeyView| #[trigger] s.seen.contains(k) ==> accounted(s, flying, k)
    &&& forall|i: int| 0 <= i < roots.len() ==> covered(s, moved, #[trigger] roots[i])
    &&& forall|p: KeyView, i: int|
        s.result.ports.dom().contains(p) && 0 <= i < s.result.ports[p].deps.len() ==> covered(
            s,
            moved,
            (#[trigger] s.result.ports[p].deps[i]).target,
        )
    &&& forall|k: KeyView| #[trigger]
        s.result.aliases.dom().contains(k) ==> s.result.ports.dom().contains(s.result.aliases[k])
}

/// A finished scan gave the whole closure: every root and every dependency of
/// every port found is, under its present name, found itself or reported as an
/// error, one that was removed from the tree is reported, and whatever was
/// asked for by any name leads to a port.
pub proof fn law_scan_complete(
    s: ScanView,
    moved: Map<Str, EntryView>,
    roots: Seq<KeyView>,
    flying: Set<KeyView>,
)
    requires
        scan_sound(s, moved, roots, flying),
        advanced(s, moved).1 is Finished,
    ensures
        ({
            let r = advanced(s, moved).0.result;
            &&& forall|i: int| 0 <= i < roots.len() ==> resolved(r, moved, #[trigger] roots[i])
            &&& forall|p: KeyView, i: int|
                r.ports.dom().contains(p) && 0 <= i < r.ports[p].deps.len() ==> resolved(
                    r,
                    moved,
                    (#[trigger] r.ports[p].deps[i]).target,
                )
            &&& forall|k: KeyView| #[trigger]
                r.aliases.dom().contains(k) ==> r.ports.dom().contains(r.aliases[k])
        }),
{
    law_advance_sound(s, moved, roots, flying);
    lemma_finished(s, moved);
    let t = advanced(s, moved).0;
    assert(flying =~= Set::<KeyView>::empty());
    assert forall|k: KeyView| covered(t, moved, k) implies resolved(t.result, moved, k) by {
        if let Some(n) = renamed(k, moved_of(moved, k.origin)) {
            assert(t.seen.contains(n));
            assert(accounted(t, flying, n));
        }
    }
}

/// A scan that asks no more has nothing waiting, nothing asked for and nothing
/// in flight.
proof fn lemma_finished(s: ScanView, moved: Map<Str, EntryView>)
    requires
        advanced(s, moved).1 is Finished,
    ensures
        advanced(s, moved).0.pending.len() == 0,
        advanced(s, moved).0.asked is None,
        advanced(s, moved).0.in_flight == 0,
    decreases s.pending.len(),
{
    if s.asked is None && s.pending.len() > 0 {
        lemma_finished(popped(s, moved), moved);
    }
}

/// The scan with the port that waits last taken up: it is remarked on where it
/// moved, and nothing else.
spec fn popped(s: ScanView, moved: Map<Str, EntryView>) -> ScanView {
    let key = s.pending.last();
    ScanView {
        pending: s.pending.drop_last(),
        result: remarked(s.result, key, moved_of(moved, key.origin)),
        ..s
    }
}

/// A scan starts with nothing lost: every root waits, and nothing is in flight.
pub proof fn law_start_sound(roots: Seq<KeyView>, moved: Map<Str, EntryView>)
    ensures
        scan_sound(scan_of(roots), moved, roots, Set::empty()),
{
    let s = scan_of(roots);
    assert forall|i: int| 0 <= i < roots.len() implies covered(s, moved, #[trigger] roots[i]) by {
        assert(s.pending.contains(roots[i]));
    }
}

/// Errors that were reported stay reported.
proof fn lemma_errors_stay(r: ResultView, t: ResultView)
    requires
        r.errors.is_prefix_of(t.errors),
    ensures
        forall|k: KeyView| #[trigger] failed(r, k) ==> failed(t, k),
{
    assert forall|k: KeyView| #[trigger] failed(r, k) implies failed(t, k) by {
        let i = choose|i: int| 0 <= i < r.errors.len() && (#[trigger] r.errors[i]).0 == k;
        assert(t.errors[i] == r.errors[i]);
    }
}

/// Going on by itself, a scan loses nothing.
pub proof fn law_advance_sound(
    s: ScanView,
    moved: Map<Str, EntryView>,
    roots: Seq<KeyView>,
    flying: Set<KeyView>,
)
    requires
        scan_sound(s, moved, roots, flying),
    ensures
        scan_sound(advanced(s, moved).0, moved, roots, flying),
    decreases s.pending.len(),
{
    if s.asked is None && s.pending.len() > 0 {
        let key = s.pending.last();
        let m = moved_of(moved, key.origin);
        let t = popped(s, moved);
        let next = match renamed(key, m) {
            Some(k) => if s.seen.contains(k) {
                t
            } else {
                ScanView { seen: s.seen.insert(k), asked: Some(k), ..t }
            },
            None => t,
        };
        lemma_errors_stay(s.result, next.result);
        if m is Removed {
            assert(next.result.errors[s.result.errors.len() as int].0 == key);
        }
        assert forall|k: KeyView| covered(s, moved, k) implies covered(next, moved, k) by {
            if s.pending.contains(k) && k != key {
                let j = choose|j: int| 0 <= j < s.pending.len() && s.pending[j] == k;
                assert(next.pending[j] == k);
            }
        }
        assert forall|k: KeyView| #[trigger] next.seen.contains(k) implies accounted(
            next,
            flying,
            k,
        ) by {
            if s.seen.contains(k) {
                assert(accounted(s, flying, k));
            }
        }
        assert forall|p: KeyView, i: int|
            next.result.ports.dom().contains(p) && 0 <= i
                < next.result.ports[p].deps.len() implies covered(
            next,
            moved,
            (#[trigger] next.result.ports[p].deps[i]).target,
        ) by {
            assert(covered(s, moved, s.result.ports[p].deps[i].target));
        }
        assert(scan_sound(next, moved, roots, flying));
        law_advance_sound(next, moved, roots, flying);
    }
}

/// What the cache held for the port that was asked for, or that it held
/// nothing, loses nothing: on a miss the port is in flight from then on.
pub proof fn law_answer_sound(
    s: ScanView,
    moved: Map<Str, EntryView>,
    roots: Seq<KeyView>,
    flying: Set<KeyView>,
    found: Option<InfoView>,
)
    requires
        scan_sound(s, moved, roots, flying),
        s.asked is Some,
        found is Some ==> (found->0).key == s.asked->0,
    ensures
        scan_sound(
            answered(s, found),
            moved,
            roots,
            if found is None {
                flying.insert(s.asked->0)
            } else {
                flying
            },
        ),
{
    let t = answered(s, found);
    match found {
        Some(info) => {
            lemma_register_sound(s, t, moved, roots, flying, flying, info);
        },
        None => {
            let more = flying.insert(s.asked->0);
            assert forall|k: KeyView| #[trigger] t.seen.contains(k) implies accounted(
                t,
                more,
                k,
            ) by {
                assert(accounted(s, flying, k));
            }
            lemma_same_covered(s, t, moved, roots);
        },
    }
}

/// The port that a query was made for.
pub open spec fn event_key(e: EventView) -> KeyView {
    match e {
        EventView::PortDone(info) => info.key,
        EventView::PortError(key, _) => key,
    }
}

/// What came of a query in flight loses nothing: the port is no longer in
/// flight.
pub proof fn law_landing_sound(
    s: ScanView,
    moved: Map<Str, EntryView>,
    roots: Seq<KeyView>,
    flying: Set<KeyView>,
    e: EventView,
)
    requires
        scan_sound(s, moved, roots, flying),
        flying.contains(event_key(e)),
    ensures
        scan_sound(landed(s, e), moved, roots, flying.remove(event_key(e))),
{
    let less = flying.remove(event_key(e));
    let t = landed(s, e);
    assert(s.in_flight > 0);
    match e {
        EventView::PortDone(info) => {
            lemma_register_sound(s, t, moved, roots, flying, less, info);
        },
        EventView::PortError(key, msg) => {
            lemma_errors_stay(s.result, t.result);
            assert(t.result.errors[s.result.errors.len() as int].0 == key);
            assert forall|k: KeyView| #[trigger] t.seen.contains(k) implies accounted(
                t,
                less,
                k,
            ) by {
                assert(accounted(s, flying, k));
            }
            lemma_same_covered(s, t, moved, roots);
        },
    }
}

/// Whatever was taken care of stays so where nothing is taken from what waits,
/// what was seen and what was reported.
proof fn lemma_same_covered(
    s: ScanView,
    t: ScanView,
    moved: Map<Str, EntryView>,
    roots: Seq<KeyView>,
)
    requires
        s.pending == t.pending,
        s.seen == t.seen,
        s.result.errors.is_prefix_of(t.result.errors),
        s.result.ports == t.result.ports,
        forall|i: int| 0 <= i < roots.len() ==> covered(s, moved, #[trigger] roots[i]),
        forall|p: KeyView, i: int|
            s.result.ports.dom().contains(p) && 0 <= i < s.result.ports[p].deps.len() ==> covered(
                s,
                moved,
                (#[trigger] s.result.ports[p].deps[i]).target,
            ),
    ensures
        forall|i: int| 0 <= i < roots.len() ==> covered(t, moved, #[trigger] roots[i]),
        forall|p: KeyView, i: int|
            t.result.ports.dom().contains(p) && 0 <= i < t.result.ports[p].deps.len() ==> covered(
                t,
                moved,
                (#[trigger] t.result.ports[p].deps[i]).target,
            ),
{
    lemma_errors_stay(s.result, t.result);
}

/// A port that was found loses nothing: its dependencies wait from then on.
proof fn lemma_register_sound(
    s: ScanView,
    t: ScanView,
    moved: Map<Str, EntryView>,
    roots: Seq<KeyView>,
    flying: Set<KeyView>,
    left: Set<KeyView>,
    info: InfoView,
)
    requires
        scan_sound(s, moved, roots, flying),
        t.pending == s.pending + targets(info),
        t.seen == s.seen,
        t.result.ports == registered(s.result, info).ports,
        t.result.aliases == registered(s.result, info).aliases,
        t.result.errors == s.result.errors,
        t.in_flight == left.len(),
        t.asked == s.asked && left == flying.remove(info.key) || t.asked is None && s.asked == Some(
            info.key,
        ) && left == flying,
    ensures
        scan_sound(t, moved, roots, left),
{
    lemma_errors_stay(s.result, t.result);
    assert forall|k: KeyView| covered(s, moved, k) implies covered(t, moved, k) by {
        if s.pending.contains(k) {
            let j = choose|j: int| 0 <= j < s.pending.len() && s.pending[j] == k;
            assert(t.pending[j] == k);
        }
    }
    assert forall|k: KeyView| #[trigger] t.seen.contains(k) implies accounted(t, left, k) by {
        assert(accounted(s, flying, k));
        if k == info.key {
            assert(t.result.aliases.dom().contains(k));
        }
    }
    assert forall|p: KeyView, i: int|
        t.result.ports.dom().contains(p) && 0 <= i
            < t.result.ports[p].deps.len() implies covered(
        t,
        moved,
        (#[trigger] t.result.ports[p].deps[i]).target,
    ) by {
        let k = t.result.ports[p].deps[i].target;
        if s.result.ports.dom().contains(p) {
            assert(covered(s, moved, s.result.ports[p].deps[i].target));
        } else {
            assert(targets(info)[i] == k);
            assert(t.pending[s.pending.len() + i] == k);
        }
    }
}

// ---------------------------------------------------------------------
// The scan
// ---------------------------------------------------------------------

/// A scan of the closure of some ports.
pub open spec fn scan_of(roots: Seq<KeyView>) -> ScanView {
    ScanView {
        pending: roots,
        seen: Set::empty(),
        asked: None,
        in_flight: 0,
        done: 0,
        result: no_result(),
    }
}

/// Store a finished port under its canonical key and return its dep targets
/// for further traversal.
fn register(info: PortInfo, result: &mut ScanResult) -> (r: Vec<PortKey>)
    ensures
        final(result)@ == registered(old(result)@, info@),
        views(r@) == targets(info@),
{
    let mut out: Vec<PortKey> = Vec::new();
    let ghost d = info@.deps;
    let mut i: usize = 0;
    while i < info.deps.len()
        invariant
            i <= info.deps@.len(),
            d == info@.deps,
            views(out@) == d.take(i as int).map_values(|e: EdgeView| e.target),
        decreases info.deps@.len() - i,
    {
        let t = info.deps[i].target.duplicate();
        let ghost was = views(out@);
        out.push(t);
        proof {
            assert(d[i as int] == info.deps@[i as int]@);
            assert(views(out@) =~= was.push(t@));
            assert(d.take(i + 1).map_values(|e: EdgeView| e.target) =~= d.take(
                i as int,
            ).map_values(|e: EdgeView| e.target).push(t@));
        }
        i = i + 1;
    }
    assert(d.take(info.deps@.len() as int) =~= d);
    result.aliases.insert(info.key.duplicate(), info.canonical.duplicate());
    if !result.ports.contains_key(&info.canonical) {
        let k = info.canonical.duplicate();
        result.ports.insert(k, info);
    }
    out
}

impl Scan {
    /// Every port seen is asked for, in flight, done, or came from the cache.
    #[verifier::type_invariant]
    spec fn inv(self) -> bool {
        &&& self.in_flight + self.done + self.result.from_cache + (if self.asked is Some {
            1int
        } else {
            0int
        }) == self.seen@.len()
        &&& self.result.queried <= self.done
    }

    /// A scan of the closure of some ports.
    pub fn new(roots: &Vec<PortKey>) -> (r: Self)
        ensures
            r@ == scan_of(views(roots@)),
    {
        Scan {
            pending: duplicate_list(roots),
            seen: SortedSet::new(),
            asked: None,
            in_flight: 0,
            done: 0,
            result: ScanResult::default(),
        }
    }

    /// Goes on as far as the scan gets by itself, and says what it needs.
    pub fn advance(self, moved: &Moved) -> (r: (Self, Step))
        ensures
            (r.0@, r.1@) == advanced(self@, moved@),
    {
        proof {
            use_type_invariant(&self);
        }
        let Scan { pending, seen, asked, in_flight, done, result } = self;
        if let Some(k) = asked {
            let step = Step::Lookup(k.duplicate());
            return (Scan { pending, seen, asked: Some(k), in_flight, done, result }, step);
        }
        let mut pending = pending;
        let mut seen = seen;
        let mut result = result;
        let ghost goal = advanced(self@, moved@);
        while pending.len() > 0
            invariant
                in_flight + done + result.from_cache == seen@.len(),
                result.queried <= done,
                goal == advanced(self@, moved@),
                advanced(
                    ScanView {
                        pending: views(pending@),
                        seen: seen@,
                        asked: None,
                        in_flight: in_flight as nat,
                        done: done as nat,
                        result: result@,
                    },
                    moved@,
                ) == goal,
            ensures
                pending@.len() == 0,
            decreases pending@.len(),
        {
            let ghost q = views(pending@);
            let ghost before = result@;
            let key = match pending.pop() {
                Some(k) => k,
                None => {
                    break ;
                },
            };
            proof {
                assert(views(pending@) =~= q.drop_last());
                assert(q.last() == key@);
            }
            // Resolve renames/removals before anything else.
            let key = match moved.resolve(key.origin.as_str()) {
                MovedResult::Unchanged => key,
                MovedResult::MovedTo { origin, reason } => {
                    let mut note = key.origin.clone();
                    note.append(" moved to ");
                    note.append(origin.as_str());
                    note.append(" (");
                    note.append(reason.as_str());
                    note.append(")");
                    let ghost was = result@.moved_notes;
                    result.moved_notes.push(note);
                    assert(result@.moved_notes =~= was.push(note@));
                    key.with_origin(origin.as_str())
                },
                MovedResult::Removed { reason } => {
                    let why = glue("port removed from tree: ", reason.as_str());
                    let ghost was = result@.errors;
                    let e = (key, why);
                    result.errors.push(e);
                    assert(result@.errors =~= was.push((e.0@, e.1@)));
                    assert(result@ =~= remarked(before, key@, moved_of(moved@, key@.origin)));
                    continue;
                },
            };
            let _ = seen.len();
            let ghost seen0 = seen@;
            if !seen.insert(key.duplicate()) {
                assert(seen0.insert(key@) =~= seen0);
                continue;
            }
            let step = Step::Lookup(key.duplicate());
            return (Scan { pending, seen, asked: Some(key), in_flight, done, result }, step);
        }
        assert(views(pending@) =~= Seq::<KeyView>::empty());
        let step = if in_flight == 0 {
            Step::Finished
        } else {
            Step::Wait
        };
        (Scan { pending, seen, asked: None, in_flight, done, result }, step)
    }

    /// Takes what the cache held for the port that was asked for. A port that
    /// is not cached comes back: its query is to be submitted.
    pub fn answer(self, found: Option<PortInfo>) -> (r: (Self, Option<PortKey>))
        ensures
            r.0@ == answered(self@, opt_view(found)),
            opt_view(r.1) == if found is None {
                self@.asked
            } else {
                None
            },
    {
        proof {
            use_type_invariant(&self);
        }
        let Scan { pending, seen, asked, in_flight, done, result } = self;
        let key = match asked {
            Some(k) => k,
            None => {
                return (Scan { pending, seen, asked: None, in_flight, done, result }, None);
            },
        };
        let _ = seen.len();
        match found {
            Some(info) => {
                let mut pending = pending;
                let mut result = result;
                let ghost was = result@;
                result.from_cache = result.from_cache + 1;
                let mut more = register(info, &mut result);
                let ghost a = views(pending@);
                let ghost b = views(more@);
                pending.append(&mut more);
                assert(views(pending@) =~= a + b);
                (Scan { pending, seen, asked: None, in_flight, done, result }, None)
            },
            None => (
                Scan { pending, seen, asked: None, in_flight: in_flight + 1, done, result },
                Some(key),
            ),
        }
    }

    /// Takes what came of a query in flight.
    pub fn land(self, event: ScanEvent) -> (r: Self)
        ensures
            r@ == landed(self@, event@),
    {
        proof {
            use_type_invariant(&self);
        }
        let Scan { pending, seen, asked, in_flight, done, result } = self;
        if in_flight == 0 {
            return Scan { pending, seen, asked, in_flight, done, result };
        }
        let _ = seen.len();
        let mut pending = pending;
        let mut result = result;
        match event {
            ScanEvent::PortDone(info) => {
                result.queried = result.queried + 1;
                let mut more = register(info, &mut result);
                let ghost a = views(pending@);
                let ghost b = views(more@);
                pending.append(&mut more);
                assert(views(pending@) =~= a + b);
            },
            ScanEvent::PortError { key, msg } => {
                let ghost was = result@.errors;
                let e = (key, msg);
                result.errors.push(e);
                assert(result@.errors =~= was.push((e.0@, e.1@)));
            },
        }
        Scan { pending, seen, asked, in_flight: in_flight - 1, done: done + 1, result }
    }

    /// How far the scan is.
    pub fn progress(&self) -> (r: ScanProgress)
        ensures
            r.done == self@.done + self@.result.from_cache,
            r.discovered == self@.seen.len(),
            r.from_cache == self@.result.from_cache,
    {
        proof {
            use_type_invariant(self);
        }
        let discovered = self.seen.len();
        ScanProgress {
            done: self.done + self.result.from_cache,
            discovered,
            from_cache: self.result.from_cache,
        }
    }

    /// What the scan found.
    pub fn finish(self) -> (r: ScanResult)
        ensures
            r@ == self@.result,
    {
        let Scan { pending: _, seen: _, asked: _, in_flight: _, done: _, result } = self;
        result
    }
}

// ---------------------------------------------------------------------
// What a scan comes to
// ---------------------------------------------------------------------

/// A finished port stands under its canonical key, and what it was asked for as
/// stands for that key; a port that stands there already stays, and no other
/// changes.
pub proof fn law_registered(r: ResultView, info: InfoView, k: KeyView)
    ensures
        ({
            let s = registered(r, info);
            &&& s.aliases.dom().contains(info.key) && s.aliases[info.key] == info.canonical
            &&& k != info.key ==> lookup(s.aliases, k) == lookup(r.aliases, k)
            &&& s.ports.dom().contains(info.canonical)
            &&& r.ports.dom().contains(k) ==> s.ports.dom().contains(k) && s.ports[k] == r.ports[k]
            &&& !r.ports.dom().contains(info.canonical) ==> s.ports[info.canonical] == info
            &&& k != info.canonical ==> lookup(s.ports, k) == lookup(r.ports, k)
            &&& s.errors == r.errors && s.moved_notes == r.moved_notes
        }),
{
}

/// What a cached port, a port that is not cached, a finished query and a failed one
/// do to a scan: where the edges lead is visited, each is counted once, and a
/// failure is reported under the port it came of.
pub proof fn law_scan_events(s: ScanView, info: InfoView, k: KeyView, msg: Str, i: int)
    requires
        s.asked is Some,
        s.in_flight > 0,
    ensures
        ({
            let hit = answered(s, Some(info));
            let miss = answered(s, None);
            let done = landed(s, EventView::PortDone(info));
            let bad = landed(s, EventView::PortError(k, msg));
            &&& hit.asked is None && miss.asked is None
            &&& hit.result.from_cache == s.result.from_cache + 1
            &&& hit.result.queried == s.result.queried
            &&& hit.in_flight == s.in_flight
            &&& miss.in_flight == s.in_flight + 1 && miss.result == s.result
            &&& done.in_flight == s.in_flight - 1 && done.done == s.done + 1
            &&& done.result.queried == s.result.queried + 1
            &&& done.result.from_cache == s.result.from_cache
            &&& 0 <= i < info.deps.len() ==> hit.pending.contains(info.deps[i].target)
            &&& 0 <= i < info.deps.len() ==> done.pending.contains(info.deps[i].target)
            &&& hit.pending.take(s.pending.len() as int) == s.pending
            &&& bad.result.errors == s.result.errors.push((k, msg))
            &&& bad.result.ports == s.result.ports && bad.pending == s.pending
            &&& bad.in_flight == s.in_flight - 1 && bad.done == s.done + 1
        }),
{
    let hit = answered(s, Some(info));
    let done = landed(s, EventView::PortDone(info));
    assert(hit.pending.take(s.pending.len() as int) =~= s.pending);
    if 0 <= i < info.deps.len() {
        let n = s.pending.len() as int;
        assert(targets(info)[i] == info.deps[i].target);
        assert(hit.pending[n + i] == info.deps[i].target);
        assert(done.pending[n + i] == info.deps[i].target);
    }
}

/// What a scan asks for next. The port that waits last is asked for, under the
/// name it has now, unless that was seen; a rename is noted, and a removal is an
/// error. With nothing waiting a scan ends once nothing is in flight.
pub proof fn law_scan_step(s: ScanView, moved: Map<Str, EntryView>, key: KeyView)
    requires
        s.asked is None,
    ensures
        ({
            let (t, step) = advanced(s, moved);
            let last = s.pending.len() > 0 && s.pending.last() == key;
            let rest = ScanView { pending: s.pending.drop_last(), ..s };
            &&& s.pending.len() == 0 && s.in_flight == 0 ==> step is Finished && t == s
            &&& s.pending.len() == 0 && s.in_flight > 0 ==> step is Wait && t == s
            &&& last && moved_of(moved, key.origin) is Unchanged && !s.seen.contains(key)
                ==> step == StepView::Lookup(key) && t == (ScanView {
                seen: s.seen.insert(key),
                asked: Some(key),
                ..rest
            })
            &&& last && moved_of(moved, key.origin) is Unchanged && s.seen.contains(key)
                ==> advanced(s, moved) == advanced(rest, moved)
            &&& last ==> (moved_of(moved, key.origin) matches MovedView::MovedTo { origin, reason }
                ==> !s.seen.contains(KeyView { origin, ..key }) ==> {
                &&& step == StepView::Lookup(KeyView { origin, ..key })
                &&& t.result.moved_notes == s.result.moved_notes.push(
                    key.origin + " moved to "@ + origin + " ("@ + reason + ")"@,
                )
                &&& t.result.errors == s.result.errors
            })
            &&& last ==> (moved_of(moved, key.origin) matches MovedView::Removed { reason }
                ==> advanced(s, moved) == advanced(
                ScanView {
                    result: ResultView {
                        errors: s.result.errors.push((key, "port removed from tree: "@ + reason)),
                        ..s.result
                    },
                    ..rest
                },
                moved,
            ))
        }),
{
}

} // verus!
