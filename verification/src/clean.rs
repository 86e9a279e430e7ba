//! Collecting options-dir entries that no port needs.
use vstd::prelude::*;

use crate::list::{lemma_filter_none, lemma_filter_one, lemma_take_one};
use crate::model::origin::{is_origin, law_key_parses, valid_origin, KeyView, PortKey};
use crate::model::port::{InfoView, PortInfo};
use crate::moved::{moved_of, EntryView, Moved, MovedResult, MovedView};
use crate::named::{sort_named, sorts, Named};
use crate::path::{join_path, joined};
use crate::query::scanner::ScanResult;
use crate::session::layers::{diff_tokens, law_diff_empty, nofile, nofile_effective, set_diff};
use crate::sorted::{lemma_ordered, ordered, SortedSet};
use crate::text::{cut, glue, glue3, law_cut, opt_view, owned, split_once, views, Str};

verus! {

/// One options-dir entry scheduled for removal.
#[derive(Debug)]
pub struct Removal {
    pub options_name: String,
    pub dir: String,
    pub reason: String,
}

#[verifier::ext_equal]
pub struct RemovalView {
    pub options_name: Str,
    pub dir: Str,
    pub reason: Str,
}

impl View for Removal {
    type V = RemovalView;

    open spec fn view(&self) -> RemovalView {
        RemovalView {
            options_name: self.options_name@,
            dir: self.dir@,
            reason: self.reason@,
        }
    }
}

impl Named for Removal {
    open spec fn name_of(v: RemovalView) -> Str {
        v.options_name
    }

    fn name(&self) -> (r: &str) {
        self.options_name.as_str()
    }
}

/// An options-dir entry that still corresponds to a live port.
#[derive(Debug)]
pub struct LiveEntry {
    pub options_name: String,
    pub dir: String,
    pub key: PortKey,
}

#[verifier::ext_equal]
pub struct LiveView {
    pub options_name: Str,
    pub dir: Str,
    pub key: KeyView,
}

impl View for LiveEntry {
    type V = LiveView;

    open spec fn view(&self) -> LiveView {
        LiveView { options_name: self.options_name@, dir: self.dir@, key: self.key@ }
    }
}

impl Named for LiveEntry {
    open spec fn name_of(v: LiveView) -> Str {
        v.options_name
    }

    fn name(&self) -> (r: &str) {
        self.options_name.as_str()
    }
}

/// The origin that an options name stands for.
pub open spec fn origin_of_name(name: Str) -> Option<Str> {
    match cut(name, '_') {
        Some((cat, port)) => {
            let origin = cat + "/"@ + port;
            if is_origin(origin) {
                Some(origin)
            } else {
                None
            }
        },
        None => None,
    }
}

/// Map an OPTIONS_NAME directory back to a port origin. Categories never
/// contain '_', so the first '_' splits category from port name.
pub fn origin_from_options_name(name: &str) -> (r: Option<String>)
    ensures
        opt_view(r) == origin_of_name(name@),
{
    match split_once(name, '_') {
        Some((cat, port)) => {
            let origin = glue3(cat.as_str(), "/", port.as_str());
            if valid_origin(origin.as_str()) {
                Some(origin)
            } else {
                None
            }
        },
        None => None,
    }
}

/// The Makefile whose presence says that an entry's port is in the tree; None
/// for an entry that stands for no port.
pub fn makefile_of(portsdir: &str, options_name: &str) -> (r: Option<String>)
    ensures
        opt_view(r) == match origin_of_name(options_name@) {
            Some(o) => Some(joined(joined(portsdir@, o), "Makefile"@)),
            None => None,
        },
{
    match origin_from_options_name(options_name) {
        Some(o) => {
            let d = join_path(portsdir, o.as_str());
            Some(join_path(d.as_str(), "Makefile"))
        },
        None => None,
    }
}

/// An options-dir entry that holds an options file, and whether the Makefile of
/// its port exists.
pub struct DirEntry {
    pub options_name: String,
    pub dir: String,
    pub in_tree: bool,
}

#[verifier::ext_equal]
pub struct DirView {
    pub options_name: Str,
    pub dir: Str,
    pub in_tree: bool,
}

impl View for DirEntry {
    type V = DirView;

    open spec fn view(&self) -> DirView {
        DirView { options_name: self.options_name@, dir: self.dir@, in_tree: self.in_tree }
    }
}

/// Why the entry of a port that is not in the tree goes.
pub open spec fn removal_reason(m: MovedView) -> Str {
    match m {
        MovedView::Removed { reason } => if reason.len() > 0 {
            "port removed from tree ("@ + reason + ")"@
        } else {
            "port removed from tree"@
        },
        MovedView::MovedTo { origin, reason: _ } => "port moved to "@ + origin
            + " (its options live under another name)"@,
        MovedView::Unchanged => "port no longer exists in the tree"@,
    }
}

/// What becomes of an entry.
pub enum FateView {
    Warned(Str),
    Live(LiveView),
    Gone(RemovalView),
}

/// What becomes of an entry: one that stands for no port is left alone with a
/// warning, one whose port is in the tree lives, the rest go.
pub open spec fn fate(e: DirView, moved: Map<Str, EntryView>) -> FateView {
    match origin_of_name(e.options_name) {
        None => FateView::Warned(
            e.options_name + ": cannot map back to a port origin, left alone"@,
        ),
        Some(origin) => if e.in_tree {
            FateView::Live(
                LiveView {
                    options_name: e.options_name,
                    dir: e.dir,
                    key: KeyView { origin, flavor: None },
                },
            )
        } else {
            FateView::Gone(
                RemovalView {
                    options_name: e.options_name,
                    dir: e.dir,
                    reason: removal_reason(moved_of(moved, origin)),
                },
            )
        },
    }
}

/// The removals, the live entries and the warnings, in the order of the
/// entries.
pub open spec fn fates(es: Seq<DirView>, moved: Map<Str, EntryView>) -> (
    Seq<RemovalView>,
    Seq<LiveView>,
    Seq<Str>,
)
    decreases es.len(),
{
    if es.len() == 0 {
        (Seq::empty(), Seq::empty(), Seq::empty())
    } else {
        let (gone, live, warnings) = fates(es.drop_last(), moved);
        match fate(es.last(), moved) {
            FateView::Warned(w) => (gone, live, warnings.push(w)),
            FateView::Live(l) => (gone, live.push(l), warnings),
            FateView::Gone(g) => (gone.push(g), live, warnings),
        }
    }
}

/// Cleaning takes only entries whose port is not in the tree.
pub proof fn law_clean_spares_live(es: Seq<DirView>, moved: Map<Str, EntryView>, g: RemovalView)
    requires
        fates(es, moved).0.contains(g),
    ensures
        exists|i: int|
            0 <= i < es.len() && !(#[trigger] es[i]).in_tree && es[i].options_name
                == g.options_name && es[i].dir == g.dir,
    decreases es.len(),
{
    let gone = fates(es, moved).0;
    let j = choose|j: int| 0 <= j < gone.len() && gone[j] == g;
    let d = es.drop_last();
    let before = fates(d, moved).0;
    if j < before.len() {
        assert(before[j] == g);
        law_clean_spares_live(d, moved, g);
        let i = choose|i: int|
            0 <= i < d.len() && !(#[trigger] d[i]).in_tree && d[i].options_name == g.options_name
                && d[i].dir == g.dir;
        assert(es[i] == d[i]);
    } else {
        assert(es[es.len() - 1] == es.last());
    }
}

fn reason_for(m: MovedResult) -> (r: String)
    ensures
        r@ == removal_reason(m@),
{
    match m {
        MovedResult::Removed { reason } => {
            if reason.as_str().is_empty() {
                owned("port removed from tree")
            } else {
                glue3("port removed from tree (", reason.as_str(), ")")
            }
        },
        MovedResult::MovedTo { origin, reason: _ } => glue3(
            "port moved to ",
            origin.as_str(),
            " (its options live under another name)",
        ),
        MovedResult::Unchanged => owned("port no longer exists in the tree"),
    }
}

/// Classify every entry of the options dir: entries whose port vanished from
/// the tree (directly or through MOVED) become removals, the rest are live.
/// Removals and live entries come back sorted by options name.
pub fn classify_entries(entries: &Vec<DirEntry>, moved: &Moved) -> (r: (
    Vec<Removal>,
    Vec<LiveEntry>,
    Vec<String>,
))
    ensures
        ({
            let (gone, live, warnings) = fates(views(entries@), moved@);
            &&& sorts::<Removal>(gone, views(r.0@))
            &&& sorts::<LiveEntry>(live, views(r.1@))
            &&& views(r.2@) == warnings
        }),
{
    broadcast use {crate::text::views_push, crate::text::views_empty};

    let mut removals: Vec<Removal> = Vec::new();
    let mut live: Vec<LiveEntry> = Vec::new();
    let mut warnings: Vec<String> = Vec::new();
    let ghost v = views(entries@);
    let mut i: usize = 0;
    assert(v.take(0) =~= Seq::<DirView>::empty());
    while i < entries.len()
        invariant
            i <= entries@.len(),
            v == views(entries@),
            (views(removals@), views(live@), views(warnings@)) == fates(v.take(i as int), moved@),
        decreases entries@.len() - i,
    {
        let e = &entries[i];
        proof {
            lemma_take_one(v, i as int);
            assert(v[i as int] == e@);
        }
        match origin_from_options_name(e.options_name.as_str()) {
            None => {
                let w = glue(
                    e.options_name.as_str(),
                    ": cannot map back to a port origin, left alone",
                );
                warnings.push(w);
            },
            Some(origin) => {
                if e.in_tree {
                    let l = LiveEntry {
                        options_name: e.options_name.clone(),
                        dir: e.dir.clone(),
                        key: PortKey::new(origin, None),
                    };
                    live.push(l);
                } else {
                    let g = Removal {
                        options_name: e.options_name.clone(),
                        dir: e.dir.clone(),
                        reason: reason_for(moved.resolve(origin.as_str())),
                    };
                    removals.push(g);
                }
            },
        }
        i = i + 1;
    }
    assert(v.take(entries@.len() as int) =~= v);
    (sort_named(removals), sort_named(live), warnings)
}

/// The removal of an entry that no closure needs.
pub open spec fn unneeded(l: LiveView) -> RemovalView {
    RemovalView {
        options_name: l.options_name,
        dir: l.dir,
        reason: "not needed by the given list"@,
    }
}

/// Split live entries against the set of OPTIONS_NAMEs actually reached by a
/// dependency closure: entries nobody in the closure reads become removals.
/// Both halves come back sorted by options name.
pub fn split_unused(live: &Vec<LiveEntry>, used: &SortedSet<String>) -> (r: (
    Vec<LiveEntry>,
    Vec<Removal>,
))
    ensures
        sorts::<LiveEntry>(
            views(live@).filter(|l: LiveView| used@.contains(l.options_name)),
            views(r.0@),
        ),
        sorts::<Removal>(
            views(live@).filter(|l: LiveView| !used@.contains(l.options_name)).map_values(
                |l: LiveView| unneeded(l),
            ),
            views(r.1@),
        ),
{
    broadcast use {crate::text::views_push, crate::text::views_empty};

    let ghost v = views(live@);
    let ghost p = |l: LiveView| used@.contains(l.options_name);
    let ghost n = |l: LiveView| !used@.contains(l.options_name);
    let ghost f = |l: LiveView| unneeded(l);
    let mut kept: Vec<LiveEntry> = Vec::new();
    let mut removals: Vec<Removal> = Vec::new();
    let mut i: usize = 0;
    proof {
        lemma_filter_none(v, p);
        lemma_filter_none(v, n);
        assert(v.take(0).filter(n).map_values(f) =~= Seq::<RemovalView>::empty());
    }
    while i < live.len()
        invariant
            i <= live@.len(),
            v == views(live@),
            p == (|l: LiveView| used@.contains(l.options_name)),
            n == (|l: LiveView| !used@.contains(l.options_name)),
            f == (|l: LiveView| unneeded(l)),
            views(kept@) == v.take(i as int).filter(p),
            views(removals@) == v.take(i as int).filter(n).map_values(f),
        decreases live@.len() - i,
    {
        let l = &live[i];
        proof {
            assert(v[i as int] == l@);
            lemma_filter_one(v, i as int, p);
            lemma_filter_one(v, i as int, n);
        }
        if used.contains(&l.options_name) {
            let k = LiveEntry {
                options_name: l.options_name.clone(),
                dir: l.dir.clone(),
                key: l.key.clone(),
            };
            kept.push(k);
        } else {
            let g = Removal {
                options_name: l.options_name.clone(),
                dir: l.dir.clone(),
                reason: owned("not needed by the given list"),
            };
            let ghost so_far = v.take(i as int).filter(n);
            removals.push(g);
            assert(so_far.push(l@).map_values(f) =~= so_far.map_values(f).push(g@));
        }
        i = i + 1;
    }
    assert(v.take(live@.len() as int) =~= v);
    (sort_named(kept), sort_named(removals))
}

/// The OPTIONS_NAMEs that ports read.
pub open spec fn names_read(ports: Map<KeyView, InfoView>) -> Set<Str> {
    Set::new(
        |n: Str|
            exists|k: KeyView| #[trigger] ports.dom().contains(k) && ports[k].options_name == n,
    )
}

/// The OPTIONS_NAMEs that the ports of a closure read.
pub fn options_names(result: &ScanResult) -> (r: SortedSet<String>)
    ensures
        r@ == names_read(result@.ports),
{
    let n = result.ports.len();
    let ghost ports = result@.ports;
    let ghost q = ordered::<PortKey>(ports.dom());
    proof {
        lemma_ordered::<PortKey>(ports.dom());
    }
    let mut r: SortedSet<String> = SortedSet::new();
    let mut i: usize = 0;
    while i < n
        invariant
            i <= n,
            n == q.len(),
            ports == result@.ports,
            q == ordered::<PortKey>(ports.dom()),
            forall|k: KeyView| ports.dom().contains(k) <==> q.contains(k),
            forall|x: Str| #[trigger]
                r@.contains(x) <==> exists|j: int|
                    0 <= j < i && ports[#[trigger] q[j]].options_name == x,
        decreases n - i,
    {
        let info = result.ports.value_at(i);
        let ghost was = r@;
        r.insert(info.options_name.clone());
        proof {
            let name = ports[q[i as int]].options_name;
            assert forall|x: Str| #[trigger] r@.contains(x) <==> exists|j: int|
                0 <= j < i + 1 && ports[#[trigger] q[j]].options_name == x by {
                if was.contains(x) {
                    let j = choose|j: int|
                        0 <= j < i && ports[#[trigger] q[j]].options_name == x;
                    assert(ports[q[j]].options_name == x);
                }
                if x == name {
                    assert(ports[q[i as int]].options_name == x);
                }
            }
        }
        i = i + 1;
    }
    proof {
        assert forall|x: Str| r@.contains(x) <==> names_read(ports).contains(x) by {
            if r@.contains(x) {
                let j = choose|j: int| 0 <= j < n && ports[#[trigger] q[j]].options_name == x;
                assert(q.contains(q[j]));
                assert(ports.dom().contains(q[j]));
            }
            if names_read(ports).contains(x) {
                let k = choose|k: KeyView| #[trigger]
                    ports.dom().contains(k) && ports[k].options_name == x;
                let j = choose|j: int| 0 <= j < q.len() && q[j] == k;
                assert(ports[q[j]].options_name == x);
            }
        }
        assert(r@ =~= names_read(ports));
    }
    r
}

/// Split live entries against a closure that was scanned. None where some port
/// of the closure failed: with gaps in it, files that are used would look
/// unused.
pub fn split_unreached(live: &Vec<LiveEntry>, result: &ScanResult) -> (r: Option<
    (Vec<LiveEntry>, Vec<Removal>),
>)
    ensures
        r is Some <==> result@.errors.len() == 0,
        r matches Some(p) ==> {
            let used = names_read(result@.ports);
            &&& sorts::<LiveEntry>(
                views(live@).filter(|l: LiveView| used.contains(l.options_name)),
                views(p.0@),
            )
            &&& sorts::<Removal>(
                views(live@).filter(|l: LiveView| !used.contains(l.options_name)).map_values(
                    |l: LiveView| unneeded(l),
                ),
                views(p.1@),
            )
        },
{
    if result.errors.len() > 0 {
        return None;
    }
    let used = options_names(result);
    Some(split_unused(live, &used))
}

/// How the options file changes the outcome versus defaults + make.conf:
/// `+OPT` = the file turns it on, `-OPT` = the file turns it off.
/// Empty means the file is redundant.
pub fn redundancy_diff(info: &PortInfo) -> (r: Vec<String>)
    ensures
        views(r@) == diff_tokens(nofile(info@.options), info@.options.effective),
{
    let without = nofile_effective(info);
    set_diff(&without, &info.options.effective)
}

/// Does the options file change nothing? True when the effective options
/// computed WITH the file (info.options.effective, queried against the real
/// options dir) equal what defaults + make.conf overlays alone would yield.
pub fn file_is_redundant(info: &PortInfo) -> (r: bool)
    ensures
        r == (info@.options.effective == nofile(info@.options)),
{
    let without = nofile_effective(info);
    let _ = without.len();
    let _ = info.options.effective.len();
    proof {
        law_diff_empty(nofile(info@.options), info@.options.effective);
    }
    redundancy_diff(info).len() == 0
}

/// What is known of a port, by the key it was asked for with.
pub open spec fn info_of(
    ports: Map<KeyView, InfoView>,
    aliases: Map<KeyView, KeyView>,
    key: KeyView,
) -> Option<InfoView> {
    let k = if aliases.dom().contains(key) {
        aliases[key]
    } else {
        key
    };
    if ports.dom().contains(k) {
        Some(ports[k])
    } else {
        None
    }
}

/// Whether an entry only repeats what defaults and make.conf dictate anyway. Of
/// a port that is not known nothing is said.
pub open spec fn repeats_defaults(
    ports: Map<KeyView, InfoView>,
    aliases: Map<KeyView, KeyView>,
) -> spec_fn(LiveView) -> bool {
    |l: LiveView|
        match info_of(ports, aliases, l.key) {
            Some(info) => info.options.effective == nofile(info.options),
            None => false,
        }
}

/// The removal of an entry that changes nothing.
pub open spec fn redundant(l: LiveView) -> RemovalView {
    RemovalView {
        options_name: l.options_name,
        dir: l.dir,
        reason: "repeats defaults + make.conf"@,
    }
}

/// What is known of the port of a live entry: `result` is a scan with the
/// entries' ports among its roots.
pub fn entry_info<'a>(entry: &LiveEntry, result: &'a ScanResult) -> (r: Option<&'a PortInfo>)
    ensures
        match r {
            Some(info) => info_of(result@.ports, result@.aliases, entry@.key) == Some(info@),
            None => info_of(result@.ports, result@.aliases, entry@.key) is None,
        },
{
    match result.aliases.get(&entry.key) {
        Some(k) => result.ports.get(k),
        None => result.ports.get(&entry.key),
    }
}

/// Split live entries against what a scan found: entries whose file changes
/// nothing become removals. Both halves come back sorted by options name.
pub fn split_redundant(live: &Vec<LiveEntry>, result: &ScanResult) -> (r: (
    Vec<LiveEntry>,
    Vec<Removal>,
))
    ensures
        ({
            let p = repeats_defaults(result@.ports, result@.aliases);
            &&& sorts::<LiveEntry>(views(live@).filter(|l: LiveView| !p(l)), views(r.0@))
            &&& sorts::<Removal>(
                views(live@).filter(p).map_values(|l: LiveView| redundant(l)),
                views(r.1@),
            )
        }),
{
    broadcast use {crate::text::views_push, crate::text::views_empty};

    let ghost v = views(live@);
    let ghost p = repeats_defaults(result@.ports, result@.aliases);
    let ghost n = |l: LiveView| !p(l);
    let ghost f = |l: LiveView| redundant(l);
    let mut kept: Vec<LiveEntry> = Vec::new();
    let mut removals: Vec<Removal> = Vec::new();
    let mut i: usize = 0;
    proof {
        lemma_filter_none(v, p);
        lemma_filter_none(v, n);
        assert(v.take(0).filter(p).map_values(f) =~= Seq::<RemovalView>::empty());
    }
    while i < live.len()
        invariant
            i <= live@.len(),
            v == views(live@),
            p == repeats_defaults(result@.ports, result@.aliases),
            n == (|l: LiveView| !p(l)),
            f == (|l: LiveView| redundant(l)),
            views(kept@) == v.take(i as int).filter(n),
            views(removals@) == v.take(i as int).filter(p).map_values(f),
        decreases live@.len() - i,
    {
        let l = &live[i];
        proof {
            assert(v[i as int] == l@);
            lemma_filter_one(v, i as int, p);
            lemma_filter_one(v, i as int, n);
        }
        let gone = match entry_info(l, result) {
            Some(info) => file_is_redundant(info),
            None => false,
        };
        assert(gone == p(l@));
        if gone {
            let g = Removal {
                options_name: l.options_name.clone(),
                dir: l.dir.clone(),
                reason: owned("repeats defaults + make.conf"),
            };
            let ghost so_far = v.take(i as int).filter(p);
            removals.push(g);
            assert(so_far.push(l@).map_values(f) =~= so_far.map_values(f).push(g@));
        } else {
            let k = LiveEntry {
                options_name: l.options_name.clone(),
                dir: l.dir.clone(),
                key: l.key.clone(),
            };
            kept.push(k);
        }
        i = i + 1;
    }
    assert(v.take(live@.len() as int) =~= v);
    (sort_named(kept), sort_named(removals))
}

/// What to say after an entry was removed: a sibling `options.local` is never
/// touched and keeps the directory.
pub fn removal_note(removal: &Removal, has_local: bool) -> (r: Option<String>)
    ensures
        opt_view(r) == if has_local {
            Some(removal@.options_name + ": kept options.local (user-managed)"@)
        } else {
            None
        },
{
    if has_local {
        Some(glue(removal.options_name.as_str(), ": kept options.local (user-managed)"))
    } else {
        None
    }
}

/// The port that an options name stands for: what stands before the first `_` is
/// the category, the rest the name.
pub proof fn law_options_name(category: Str, name: Str)
    requires
        category.len() > 0,
        name.len() > 0,
        forall|i: int|
            0 <= i < category.len() ==> 'a' <= #[trigger] category[i] <= 'z' || '0' <= category[i]
                <= '9' || category[i] == '-',
        forall|i: int|
            0 <= i < name.len() ==> 'a' <= #[trigger] name[i] <= 'z' || 'A' <= name[i] <= 'Z'
                || '0' <= name[i] <= '9' || name[i] == '.' || name[i] == '_' || name[i] == '+'
                || name[i] == '-',
    ensures
        origin_of_name(category + "_"@ + name) == Some(category + "/"@ + name),
        origin_of_name(category) is None,
{
    reveal_strlit("_");
    law_cut(category, '_', name);
    assert(category.push('_') + name =~= category + "_"@ + name);
    law_key_parses(category, name, Seq::empty());
}

/// What becomes of each entry of an options dir. One whose name stands for no
/// port is left alone and warned about. One whose port is in the tree lives,
/// under the plain origin. Any other goes, and is said to have been removed with
/// the reason that is known, to have moved, or just not to exist.
pub proof fn law_clean_entries(es: Seq<DirView>, moved: Map<Str, EntryView>, i: int)
    requires
        0 <= i < es.len(),
    ensures
        ({
            let (gone, live, warnings) = fates(es, moved);
            let e = es[i];
            match origin_of_name(e.options_name) {
                None => warnings.contains(
                    e.options_name + ": cannot map back to a port origin, left alone"@,
                ),
                Some(origin) => {
                    let goes = |reason: Str|
                        gone.contains(
                            RemovalView { options_name: e.options_name, dir: e.dir, reason },
                        );
                    &&& e.in_tree ==> live.contains(
                        LiveView {
                            options_name: e.options_name,
                            dir: e.dir,
                            key: KeyView { origin, flavor: None },
                        },
                    )
                    &&& !e.in_tree ==> match moved_of(moved, origin) {
                        MovedView::Unchanged => goes("port no longer exists in the tree"@),
                        MovedView::MovedTo { origin: to, reason: _ } => goes(
                            "port moved to "@ + to + " (its options live under another name)"@,
                        ),
                        MovedView::Removed { reason } => if reason.len() == 0 {
                            goes("port removed from tree"@)
                        } else {
                            goes("port removed from tree ("@ + reason + ")"@)
                        },
                    }
                },
            }
        }),
    decreases es.len(),
{
    let d = es.drop_last();
    let (gone, live, warnings) = fates(es, moved);
    let (gone0, live0, warnings0) = fates(d, moved);
    if i < d.len() {
        law_clean_entries(d, moved, i);
        assert(d[i] == es[i]);
        assert forall|x: RemovalView| gone0.contains(x) implies gone.contains(x) by {
            let j = choose|j: int| 0 <= j < gone0.len() && gone0[j] == x;
            assert(gone[j] == x);
        }
        assert forall|x: LiveView| live0.contains(x) implies live.contains(x) by {
            let j = choose|j: int| 0 <= j < live0.len() && live0[j] == x;
            assert(live[j] == x);
        }
        assert forall|x: Str| warnings0.contains(x) implies warnings.contains(x) by {
            let j = choose|j: int| 0 <= j < warnings0.len() && warnings0[j] == x;
            assert(warnings[j] == x);
        }
    } else {
        assert(es[i] == es.last());
        match fate(es.last(), moved) {
            FateView::Warned(w) => {
                assert(warnings[warnings.len() - 1] == w);
            },
            FateView::Live(l) => {
                assert(live[live.len() - 1] == l);
            },
            FateView::Gone(g) => {
                assert(gone[gone.len() - 1] == g);
            },
        }
    }
}

/// Cleaning says of nothing else that it lives or goes: there are as many entries
/// as there are removals, live entries and warnings.
pub proof fn law_clean_counts(es: Seq<DirView>, moved: Map<Str, EntryView>)
    ensures
        fates(es, moved).0.len() + fates(es, moved).1.len() + fates(es, moved).2.len() == es.len(),
    decreases es.len(),
{
    if es.len() > 0 {
        law_clean_counts(es.drop_last(), moved);
    }
}

/// An options file is redundant exactly where the port is known, under the key it
/// was asked for with or the one that stands for, and what make has on with the
/// file is what defaults and make.conf give without it.
pub proof fn law_redundant(
    ports: Map<KeyView, InfoView>,
    aliases: Map<KeyView, KeyView>,
    l: LiveView,
    k: KeyView,
)
    requires
        aliases.dom().contains(l.key) ==> k == aliases[l.key],
        !aliases.dom().contains(l.key) ==> k == l.key,
    ensures
        ports.dom().contains(k) ==> (repeats_defaults(ports, aliases)(l) <==> forall|x: Str|
            #[trigger] ports[k].options.effective.contains(x) <==> nofile(
                ports[k].options,
            ).contains(x)),
        !ports.dom().contains(k) ==> !repeats_defaults(ports, aliases)(l),
        redundant(l).options_name == l.options_name,
        redundant(l).dir == l.dir,
        unneeded(l).options_name == l.options_name,
        unneeded(l).dir == l.dir,
{
    if ports.dom().contains(k) {
        let a = ports[k].options.effective;
        let b = nofile(ports[k].options);
        if forall|x: Str| #[trigger] a.contains(x) <==> b.contains(x) {
            assert(a =~= b);
        }
        assert(repeats_defaults(ports, aliases)(l) <==> a == b);
    }
}

} // verus!
