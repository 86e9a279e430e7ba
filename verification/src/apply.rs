//! Planning which options files to write, and reporting what came of it.
use vstd::prelude::*;

use crate::list::{first_where, lemma_first_where_is, lemma_take_one, lookup};
use crate::model::options::{OptionSet, OptionsView};
use crate::model::origin::{key_text, KeyView, PortKey};
use crate::model::port::{InfoView, PortInfo};
use crate::optionsfile::{is_word, law_render_parse, render, rendered, saved_of};
use crate::optionsfile::{SavedOptionsFile, SavedView};
use crate::order::{duplicate_list, Duplicate};
use crate::path::{options_file, options_path};
use crate::session::layers::saved_view;
use crate::sorted::{lemma_ordered_is, lemma_take_set, ordered, SortedMap, SortedSet};
use crate::text::{decimal, glue, glue3, join, join_with, number, opt_view, owned};
use crate::text::{same, views, Str};

verus! {

// ---------------------------------------------------------------------
// One write
// ---------------------------------------------------------------------

/// One options file the apply pass wants to write.
pub struct PendingWrite {
    pub key: PortKey,
    pub options_name: String,
    pub path: String,
    pub old: Option<SavedOptionsFile>,
    /// Final enabled set the file will record.
    pub enabled: OptionSet,
    /// Current complete option list (display/diff aid).
    pub complete: Vec<String>,
    pub content: String,
}

#[verifier::ext_equal]
pub struct WriteView {
    pub key: KeyView,
    pub options_name: Str,
    pub path: Str,
    pub old: Option<SavedView>,
    pub enabled: Set<Str>,
    pub complete: Seq<Str>,
    pub content: Str,
}

impl View for PendingWrite {
    type V = WriteView;

    open spec fn view(&self) -> WriteView {
        WriteView {
            key: self.key@,
            options_name: self.options_name@,
            path: self.path@,
            old: opt_view(self.old),
            enabled: self.enabled@,
            complete: views(self.complete@),
            content: self.content@,
        }
    }
}

/// Every option that an options file takes note of.
pub open spec fn known_set(s: SavedView) -> Set<Str> {
    s.complete.to_set().union(s.set).union(s.unset)
}

/// The part of a change summary for a list of options: nothing where there are
/// none.
pub open spec fn part(lead: Str, options: Seq<Str>, sep: Str) -> Seq<Str> {
    if options.len() == 0 {
        Seq::empty()
    } else {
        seq![lead + join(options, sep)]
    }
}

/// Options with the state each is adopted in.
pub open spec fn with_states(options: Seq<Str>, enabled: Set<Str>) -> Seq<Str> {
    options.map_values(
        |o: Str|
            if enabled.contains(o) {
                o + "(on)"@
            } else {
                o + "(off)"@
            },
    )
}

/// What a write changes against the file before it: options turned on and off,
/// options the file did not know, options it knew that are gone.
pub open spec fn change_parts(w: WriteView, old: SavedView) -> Seq<Str> {
    let now = w.complete.to_set();
    let known = known_set(old);
    let turned_on = ordered::<String>(w.enabled.difference(old.set).intersect(known));
    let turned_off = ordered::<String>(old.set.intersect(now).difference(w.enabled));
    let adopted = ordered::<String>(now.difference(known));
    let dropped = ordered::<String>(known.difference(now));
    part("+"@, turned_on, " +"@) + part("-"@, turned_off, " -"@) + part(
        "new: "@,
        with_states(adopted, w.enabled),
        " "@,
    ) + part("dropped: "@, dropped, " "@)
}

/// The one-line summary of a write.
pub open spec fn described(w: WriteView) -> Str {
    match w.old {
        None => "new file ("@ + decimal(w.enabled.len()) + " options)"@,
        Some(old) => {
            let parts = change_parts(w, old);
            if parts.len() == 0 {
                "option list refresh"@
            } else {
                join(parts, " · "@)
            }
        },
    }
}

fn push_part(parts: &mut Vec<String>, lead: &str, options: &Vec<String>, sep: &str)
    ensures
        views(final(parts)@) == views(old(parts)@) + part(lead@, views(options@), sep@),
{
    let ghost was = views(parts@);
    if options.len() > 0 {
        let list = join_with(options, sep);
        let p = glue(lead, list.as_str());
        parts.push(p);
        assert(views(parts@) =~= was + part(lead@, views(options@), sep@));
    } else {
        assert(was + part(lead@, views(options@), sep@) =~= was);
    }
}

fn mark_states(options: &Vec<String>, enabled: &OptionSet) -> (r: Vec<String>)
    ensures
        views(r@) == with_states(views(options@), enabled@),
{
    let mut r: Vec<String> = Vec::new();
    let ghost v = views(options@);
    let mut i: usize = 0;
    while i < options.len()
        invariant
            i <= options@.len(),
            v == views(options@),
            views(r@) == with_states(v.take(i as int), enabled@),
        decreases options@.len() - i,
    {
        let o = options[i].as_str();
        assert(v[i as int] == o@);
        let t = if enabled.has(o) {
            glue(o, "(on)")
        } else {
            glue(o, "(off)")
        };
        let ghost was = views(r@);
        r.push(t);
        proof {
            assert(views(r@) =~= was.push(t@));
            assert(with_states(v.take(i + 1), enabled@) =~= with_states(
                v.take(i as int),
                enabled@,
            ).push(t@));
        }
        i = i + 1;
    }
    assert(v.take(options@.len() as int) =~= v);
    r
}

fn known_options(s: &SavedOptionsFile) -> (r: OptionSet)
    ensures
        r@ == known_set(s@),
{
    let mut r = SortedSet::from_list(&s.complete);
    r.absorb(&s.set);
    r.absorb(&s.unset);
    r
}

impl PendingWrite {
    /// Human-readable one-line change summary.
    pub fn describe(&self) -> (r: String)
        ensures
            r@ == described(self@),
    {
        match &self.old {
            None => {
                let n = self.enabled.len();
                let count = number(n as u64);
                glue3("new file (", count.as_str(), " options)")
            },
            Some(old) => {
                let now = SortedSet::from_list(&self.complete);
                let known = known_options(old);
                let turned_on = self.enabled.minus(&old.set).common(&known).to_list();
                let turned_off = old.set.common(&now).minus(&self.enabled).to_list();
                let adopted = now.minus(&known).to_list();
                let dropped = known.minus(&now).to_list();
                let marked = mark_states(&adopted, &self.enabled);
                let mut parts: Vec<String> = Vec::new();
                push_part(&mut parts, "+", &turned_on, " +");
                push_part(&mut parts, "-", &turned_off, " -");
                push_part(&mut parts, "new: ", &marked, " ");
                push_part(&mut parts, "dropped: ", &dropped, " ");
                assert(views(parts@) =~= change_parts(self@, old@));
                if parts.len() == 0 {
                    owned("option list refresh")
                } else {
                    join_with(&parts, " · ")
                }
            },
        }
    }
}

// ---------------------------------------------------------------------
// Syncing
// ---------------------------------------------------------------------

/// The enabled set a sync settles on: saved choices for options the file knows,
/// the effective state for the rest, and only options the port has.
pub open spec fn synced(o: OptionsView, saved: Option<SavedView>) -> Set<Str> {
    Set::new(
        |opt: Str|
            o.complete.contains(opt) && if saved is Some && (saved->0).knows(opt) {
                (saved->0).set.contains(opt)
            } else {
                o.effective.contains(opt)
            },
    )
}

/// Decide the final enabled set for a port when syncing non-interactively:
/// keep the saved file's choices for options that still exist, take the
/// effective state (defaults + make.conf) for options the file doesn't know,
/// and drop options that no longer exist.
pub fn sync_enabled_set(info: &PortInfo, saved: Option<&SavedOptionsFile>) -> (r: OptionSet)
    ensures
        r@ == synced(info@.options, saved_view(saved)),
{
    let o = &info.options;
    let ghost want = synced(o@, saved_view(saved));
    let mut enabled: OptionSet = SortedSet::new();
    let mut i: usize = 0;
    assert(o@.complete.take(0).to_set().intersect(want) =~= Set::<Str>::empty());
    while i < o.complete.len()
        invariant
            i <= o.complete@.len(),
            want == synced(o@, saved_view(saved)),
            enabled@ == o@.complete.take(i as int).to_set().intersect(want),
        decreases o.complete@.len() - i,
    {
        let opt = o.complete[i].as_str();
        let on = match saved {
            Some(s) => if s.knows(opt) {
                s.set.has(opt)
            } else {
                o.effective.has(opt)
            },
            None => o.effective.has(opt),
        };
        proof {
            assert(o@.complete[i as int] == opt@);
            assert(o@.complete.contains(opt@));
            lemma_take_set(o@.complete, i as int);
        }
        if on {
            enabled.insert(o.complete[i].clone());
        }
        assert(enabled@ =~= o@.complete.take(i + 1).to_set().intersect(want));
        i = i + 1;
    }
    proof {
        assert(o@.complete.take(o.complete@.len() as int) =~= o@.complete);
        assert(enabled@ =~= want) by {
            assert forall|x: Str| want.contains(x) implies enabled@.contains(x) by {
                assert(o@.complete.to_set().contains(x));
            }
        }
    }
    enabled
}

/// Saved choices are kept for every option that still exists, new options are
/// adopted in their effective state, and options the port no longer has are
/// dropped.
pub proof fn law_sync(o: OptionsView, saved: SavedView, opt: Str)
    ensures
        !o.complete.contains(opt) ==> !synced(o, Some(saved)).contains(opt),
        o.complete.contains(opt) && (saved.complete.contains(opt) || saved.set.contains(opt)
            || saved.unset.contains(opt)) ==> (synced(o, Some(saved)).contains(opt)
            <==> saved.set.contains(opt)),
        o.complete.contains(opt) && !saved.complete.contains(opt) && !saved.set.contains(opt)
            && !saved.unset.contains(opt) ==> (synced(o, Some(saved)).contains(opt)
            <==> o.effective.contains(opt)),
        synced(o, None).contains(opt) <==> o.complete.contains(opt) && o.effective.contains(opt),
{
}

// ---------------------------------------------------------------------
// Planning
// ---------------------------------------------------------------------

/// A port with the options it is to have on.
pub struct PortChoice<'a> {
    pub key: &'a PortKey,
    pub info: &'a PortInfo,
    pub enabled: OptionSet,
}

#[verifier::ext_equal]
pub struct ChoiceView {
    pub key: KeyView,
    pub info: InfoView,
    pub enabled: Set<Str>,
}

impl<'a> View for PortChoice<'a> {
    type V = ChoiceView;

    open spec fn view(&self) -> ChoiceView {
        ChoiceView { key: self.key@, info: self.info@, enabled: self.enabled@ }
    }
}

/// Result of planning: the files to write plus non-fatal notes.
pub struct PlannedWrites {
    pub writes: Vec<PendingWrite>,
    pub warnings: Vec<String>,
}

/// Whether a port is the default flavor of its origin, or has no flavor.
pub open spec fn preferred(info: InfoView) -> bool {
    match info.canonical.flavor {
        None => true,
        Some(f) => info.flavors.len() > 0 && info.flavors[0] == f,
    }
}

/// Is this port the default flavor of its origin (or unflavored)?
pub fn is_preferred(info: &PortInfo) -> (r: bool)
    ensures
        r == preferred(info@),
{
    match &info.canonical.flavor {
        None => true,
        Some(f) => {
            if info.flavors.len() > 0 {
                assert(info@.flavors[0] == info.flavors@[0]@);
                same(info.flavors[0].as_str(), f.as_str())
            } else {
                false
            }
        },
    }
}

/// Whether a port shares an options file.
pub open spec fn shares(info: InfoView, name: Str) -> bool {
    info.options.complete.len() > 0 && info.options_name == name
}

/// The port that decides a shared options file: the first default flavor, or
/// the first port where no default flavor is among them.
pub open spec fn chosen(cs: Seq<ChoiceView>, name: Str) -> Option<ChoiceView> {
    match first_where(cs, |c: ChoiceView| shares(c.info, name) && preferred(c.info)) {
        Some(c) => Some(c),
        None => first_where(cs, |c: ChoiceView| shares(c.info, name)),
    }
}

/// The options that two flavors both have and disagree on, in order.
pub open spec fn disputed(a: ChoiceView, b: ChoiceView) -> Seq<Str> {
    ordered::<String>(
        a.enabled.difference(b.enabled).union(b.enabled.difference(a.enabled)).intersect(
            b.info.options.complete.to_set(),
        ).intersect(a.info.options.complete.to_set()),
    )
}

/// The remark on a flavor that disagrees with the one a file is written for.
pub open spec fn dispute_text(other: ChoiceView, by: ChoiceView, name: Str) -> Str {
    key_text(other.key) + ": flavors disagree on shared options file "@ + name + " — using "@
        + key_text(by.key) + " (default flavor); differing shared options: "@ + join(
        disputed(other, by),
        " "@,
    )
}

/// Whether a flavor disagrees with the one a file is written for.
pub open spec fn disputes(other: ChoiceView, by: ChoiceView, name: Str) -> bool {
    shares(other.info, name) && disputed(other, by).len() > 0
}

/// The remarks on a shared options file, in the order of the ports.
pub open spec fn remarks(cs: Seq<ChoiceView>, by: ChoiceView, name: Str) -> Seq<Str> {
    cs.filter(|c: ChoiceView| disputes(c, by, name)).map_values(
        |c: ChoiceView| dispute_text(c, by, name),
    )
}

/// Whether a file already records an option list and an enabled set.
pub open spec fn is_current(saved: SavedView, complete: Seq<Str>, enabled: Set<Str>) -> bool {
    saved.complete.to_set() == complete.to_set() && saved.set == enabled
}

/// The write of a port's options file.
pub open spec fn write_of(
    c: ChoiceView,
    name: Str,
    dir: Str,
    files: Map<Str, SavedView>,
) -> WriteView {
    WriteView {
        key: c.key,
        options_name: name,
        path: options_file(dir, name),
        old: lookup(files, name),
        enabled: c.enabled,
        complete: c.info.options.complete,
        content: rendered(c.info.pkgname, c.info.options.complete, c.enabled),
    }
}

/// The names of the options files that ports use.
pub open spec fn used_names(cs: Seq<ChoiceView>) -> Set<Str> {
    Set::new(|n: Str| exists|i: int| 0 <= i < cs.len() && shares((#[trigger] cs[i]).info, n))
}

/// The writes and the remarks for a sequence of options files: a file that is
/// current is not written.
pub open spec fn plan_over(
    names: Seq<Str>,
    cs: Seq<ChoiceView>,
    dir: Str,
    files: Map<Str, SavedView>,
) -> (Seq<WriteView>, Seq<Str>)
    decreases names.len(),
{
    if names.len() == 0 {
        (Seq::empty(), Seq::empty())
    } else {
        let (writes, warnings) = plan_over(names.drop_last(), cs, dir, files);
        let name = names.last();
        let c = chosen(cs, name)->0;
        let warned = warnings + remarks(cs, c, name);
        match lookup(files, name) {
            Some(old) => if is_current(old, c.info.options.complete, c.enabled) {
                (writes, warned)
            } else {
                (writes.push(write_of(c, name, dir, files)), warned)
            },
            None => (writes.push(write_of(c, name, dir, files)), warned),
        }
    }
}

/// The plan for ports and their choices, in the order of the options names.
pub open spec fn plan(
    cs: Seq<ChoiceView>,
    dir: Str,
    files: Map<Str, SavedView>,
) -> (Seq<WriteView>, Seq<Str>) {
    plan_over(ordered::<String>(used_names(cs)), cs, dir, files)
}

pub(crate) fn names_of(ports: &Vec<PortChoice>) -> (r: SortedSet<String>)
    ensures
        r@ == used_names(views(ports@)),
{
    let ghost cs = views(ports@);
    let mut r: SortedSet<String> = SortedSet::new();
    let mut i: usize = 0;
    assert(used_names(cs.take(0)) =~= Set::<Str>::empty());
    while i < ports.len()
        invariant
            i <= ports@.len(),
            cs == views(ports@),
            r@ == used_names(cs.take(i as int)),
        decreases ports@.len() - i,
    {
        let c = &ports[i];
        assert(cs[i as int] == c@);
        if c.info.options.has_options() {
            r.insert(c.info.options_name.clone());
        }
        proof {
            let a = cs.take(i as int);
            let b = cs.take(i + 1);
            assert forall|n: Str| r@.contains(n) <==> used_names(b).contains(n) by {
                if used_names(a).contains(n) {
                    let j = choose|j: int| 0 <= j < a.len() && shares((#[trigger] a[j]).info, n);
                    assert(shares(b[j].info, n));
                }
                if shares(c@.info, n) {
                    assert(shares(b[i as int].info, n));
                }
                if used_names(b).contains(n) {
                    let j = choose|j: int| 0 <= j < b.len() && shares((#[trigger] b[j]).info, n);
                    if j < i {
                        assert(shares(a[j].info, n));
                    }
                }
            }
            assert(r@ =~= used_names(b));
        }
        i = i + 1;
    }
    assert(cs.take(ports@.len() as int) =~= cs);
    r
}

/// The index of the port that decides a shared options file.
pub(crate) fn choose_owner(ports: &Vec<PortChoice>, name: &str) -> (n: usize)
    requires
        used_names(views(ports@)).contains(name@),
    ensures
        n < ports@.len(),
        chosen(views(ports@), name@) == Some(ports@[n as int]@),
{
    let ghost cs = views(ports@);
    let ghost p = |c: ChoiceView| shares(c.info, name@) && preferred(c.info);
    let ghost q = |c: ChoiceView| shares(c.info, name@);
    let mut fallback: Option<usize> = None;
    let mut i: usize = 0;
    while i < ports.len()
        invariant
            i <= ports@.len(),
            cs == views(ports@),
            p == (|c: ChoiceView| shares(c.info, name@) && preferred(c.info)),
            q == (|c: ChoiceView| shares(c.info, name@)),
            forall|j: int| 0 <= j < i ==> !p(#[trigger] cs[j]),
            match fallback {
                Some(f) => f < i && q(cs[f as int]) && forall|j: int|
                    0 <= j < f ==> !q(#[trigger] cs[j]),
                None => forall|j: int| 0 <= j < i ==> !q(#[trigger] cs[j]),
            },
        decreases ports@.len() - i,
    {
        let c = &ports[i];
        assert(cs[i as int] == c@);
        if c.info.options.has_options() && same(c.info.options_name.as_str(), name) {
            if is_preferred(c.info) {
                proof {
                    lemma_first_where_is(cs, p, i as int);
                }
                return i;
            }
            if fallback.is_none() {
                fallback = Some(i);
            }
        }
        i = i + 1;
    }
    proof {
        crate::list::lemma_first_where_none(cs, p);
        let j = choose|j: int| 0 <= j < cs.len() && shares((#[trigger] cs[j]).info, name@);
        assert(q(cs[j]));
    }
    match fallback {
        Some(f) => {
            proof {
                lemma_first_where_is(cs, q, f as int);
            }
            f
        },
        None => 0,
    }
}

fn dispute(other: &PortChoice, by: &PortChoice) -> (r: Vec<String>)
    ensures
        views(r@) == disputed(other@, by@),
{
    let mine = SortedSet::from_list(&other.info.options.complete);
    let theirs = SortedSet::from_list(&by.info.options.complete);
    let mut differ = other.enabled.minus(&by.enabled);
    differ.absorb(&by.enabled.minus(&other.enabled));
    differ.common(&theirs).common(&mine).to_list()
}

fn remark(other: &PortChoice, by: &PortChoice, name: &str, options: &Vec<String>) -> (r: String)
    requires
        views(options@) == disputed(other@, by@),
    ensures
        r@ == dispute_text(other@, by@, name@),
{
    let mut r = other.key.to_string();
    r.append(": flavors disagree on shared options file ");
    r.append(name);
    r.append(" — using ");
    let k = by.key.to_string();
    r.append(k.as_str());
    r.append(" (default flavor); differing shared options: ");
    let list = join_with(options, " ");
    r.append(list.as_str());
    r
}

fn push_remarks(warnings: &mut Vec<String>, ports: &Vec<PortChoice>, by: usize, name: &str)
    requires
        by < ports@.len(),
    ensures
        views(final(warnings)@) == views(old(warnings)@) + remarks(
            views(ports@),
            ports@[by as int]@,
            name@,
        ),
{
    let ghost was = views(warnings@);
    let ghost cs = views(ports@);
    let ghost c = ports@[by as int]@;
    let ghost p = |o: ChoiceView| disputes(o, c, name@);
    let ghost f = |o: ChoiceView| dispute_text(o, c, name@);
    proof {
        crate::list::lemma_filter_none(cs, p);
        assert(was + cs.take(0).filter(p).map_values(f) =~= was);
    }
    let mut i: usize = 0;
    while i < ports.len()
        invariant
            i <= ports@.len(),
            by < ports@.len(),
            cs == views(ports@),
            c == ports@[by as int]@,
            p == (|o: ChoiceView| disputes(o, c, name@)),
            f == (|o: ChoiceView| dispute_text(o, c, name@)),
            views(warnings@) == was + cs.take(i as int).filter(p).map_values(f),
        decreases ports@.len() - i,
    {
        let other = &ports[i];
        proof {
            assert(cs[i as int] == other@);
            crate::list::lemma_filter_one(cs, i as int, p);
        }
        if other.info.options.has_options() && same(other.info.options_name.as_str(), name) {
            let options = dispute(other, &ports[by]);
            if options.len() > 0 {
                let t = remark(other, &ports[by], name, &options);
                let ghost so_far = views(warnings@);
                let ghost kept = cs.take(i as int).filter(p);
                warnings.push(t);
                proof {
                    assert(views(warnings@) =~= so_far.push(t@));
                    assert(kept.push(other@).map_values(f) =~= kept.map_values(f).push(t@));
                    assert(views(warnings@) =~= was + kept.push(other@).map_values(f));
                }
            }
        }
        i = i + 1;
    }
    assert(cs.take(ports@.len() as int) =~= cs);
}

/// Build the list of files that actually need (re)writing.
///
/// `files` holds the options files that exist in `options_dir`, by name.
///
/// A file is skipped when it is semantically identical: same complete option
/// list and same enabled set (pkgname-only changes don't force a rewrite,
/// matching `make config-conditional` behavior).
///
/// Flavors of one origin share a single options file, and their computed
/// option sets may legitimately differ (a flavor can change defaults or
/// exclude options — e.g. devel/git@lite). The file is written from the
/// default flavor's point of view, exactly like `make config` on the plain
/// origin would; divergent non-default flavors are reported as warnings.
pub fn plan_writes(
    ports: &Vec<PortChoice>,
    options_dir: &str,
    files: &SortedMap<String, SavedOptionsFile>,
) -> (r: PlannedWrites)
    ensures
        (views(r.writes@), views(r.warnings@)) == plan(views(ports@), options_dir@, files@),
{
    broadcast use {crate::text::views_push, crate::text::views_empty};

    let names = names_of(ports);
    let n = names.len();
    let ghost cs = views(ports@);
    let ghost q = ordered::<String>(used_names(cs));
    let mut writes: Vec<PendingWrite> = Vec::new();
    let mut warnings: Vec<String> = Vec::new();
    let mut i: usize = 0;
    assert(q.take(0) =~= Seq::<Str>::empty());
    while i < n
        invariant
            i <= n,
            n == q.len(),
            cs == views(ports@),
            names@ == used_names(cs),
            q == ordered::<String>(used_names(cs)),
            (views(writes@), views(warnings@)) == plan_over(
                q.take(i as int),
                cs,
                options_dir@,
                files@,
            ),
        decreases n - i,
    {
        let name = names.at(i);
        proof {
            lemma_take_one(q, i as int);
        }
        let at = choose_owner(ports, name.as_str());
        let c = &ports[at];
        push_remarks(&mut warnings, ports, at, name.as_str());
        let old = files.get(name);
        let current = match old {
            Some(s) => {
                let was = SortedSet::from_list(&s.complete);
                let now = SortedSet::from_list(&c.info.options.complete);
                was.equals(&now) && s.set.equals(&c.enabled)
            },
            None => false,
        };
        if !current {
            let kept = match old {
                Some(s) => Some(s.duplicate()),
                None => None,
            };
            let content = render(
                c.info.pkgname.as_str(),
                &c.info.options.complete,
                &c.enabled,
            );
            let w = PendingWrite {
                key: c.key.duplicate(),
                options_name: name.clone(),
                path: options_path(options_dir, name.as_str()),
                old: kept,
                enabled: c.enabled.duplicate(),
                complete: duplicate_list(&c.info.options.complete),
                content,
            };
            assert(w@ =~= write_of(c@, name@, options_dir@, files@));
            writes.push(w);
        }
        i = i + 1;
    }
    assert(q.take(n as int) =~= q);
    PlannedWrites { writes, warnings }
}

/// A file that has just been written is not written again: what it records is
/// current for the choice it was rendered from.
pub proof fn law_written_is_current(pkgname: Str, complete: Seq<Str>, enabled: Set<Str>)
    requires
        is_word(pkgname),
        forall|i: int| 0 <= i < complete.len() ==> is_word(#[trigger] complete[i]),
        enabled.subset_of(complete.to_set()),
    ensures
        is_current(saved_of(rendered(pkgname, complete, enabled)), complete, enabled),
{
    law_render_parse(pkgname, complete, enabled);
    assert(complete.to_set().intersect(enabled) =~= enabled);
}

/// Syncing twice is syncing once: the file a sync writes makes the next sync
/// settle on the same options.
pub proof fn law_sync_stable(pkgname: Str, o: OptionsView, saved: Option<SavedView>)
    requires
        is_word(pkgname),
        forall|i: int| 0 <= i < o.complete.len() ==> is_word(#[trigger] o.complete[i]),
    ensures
        synced(o, Some(saved_of(rendered(pkgname, o.complete, synced(o, saved))))) == synced(
            o,
            saved,
        ),
{
    let e = synced(o, saved);
    law_render_parse(pkgname, o.complete, e);
    let s = saved_of(rendered(pkgname, o.complete, e));
    let again = synced(o, Some(s));
    assert forall|opt: Str| again.contains(opt) <==> e.contains(opt) by {
        assert(o.complete.to_set().contains(opt) <==> o.complete.contains(opt));
    }
    assert(again =~= e);
}

// ---------------------------------------------------------------------
// Outcomes
// ---------------------------------------------------------------------

pub struct ApplySummary {
    pub written: usize,
    pub failed: Vec<(PortKey, String)>,
}

/// The keys of the writes that failed, each with what went wrong.
pub open spec fn failures(
    writes: Seq<WriteView>,
    outcomes: Seq<Result<(), String>>,
) -> Seq<(KeyView, Str)>
    decreases outcomes.len(),
{
    if outcomes.len() == 0 {
        Seq::empty()
    } else {
        let before = failures(writes, outcomes.drop_last());
        match outcomes.last() {
            Ok(_) => before,
            Err(e) => before.push((writes[outcomes.len() - 1].key, e@)),
        }
    }
}

/// What came of the writes, one outcome each.
pub fn apply(writes: &Vec<PendingWrite>, outcomes: &Vec<Result<(), String>>) -> (r: ApplySummary)
    requires
        writes@.len() == outcomes@.len(),
    ensures
        views(r.failed@) == failures(views(writes@), outcomes@),
        r.written + r.failed@.len() == writes@.len(),
{
    let mut summary = ApplySummary { written: 0, failed: Vec::new() };
    let ghost ws = views(writes@);
    let mut i: usize = 0;
    assert(outcomes@.take(0) =~= Seq::empty());
    assert(views(summary.failed@) =~= failures(ws, outcomes@.take(0)));
    while i < outcomes.len()
        invariant
            i <= outcomes@.len(),
            writes@.len() == outcomes@.len(),
            ws == views(writes@),
            views(summary.failed@) == failures(ws, outcomes@.take(i as int)),
            summary.written + summary.failed@.len() == i,
        decreases outcomes@.len() - i,
    {
        proof {
            lemma_take_one(outcomes@, i as int);
            assert(ws[i as int] == writes@[i as int]@);
        }
        match &outcomes[i] {
            Ok(_) => {
                summary.written = summary.written + 1;
            },
            Err(e) => {
                let f = (writes[i].key.duplicate(), e.clone());
                let ghost was = views(summary.failed@);
                summary.failed.push(f);
                assert(views(summary.failed@) =~= was.push((ws[i as int].key, e@)));
            },
        }
        i = i + 1;
    }
    assert(outcomes@.take(outcomes@.len() as int) =~= outcomes@);
    summary
}

/// Just the writes that failed are reported, each with its port and what went
/// wrong, in the order of the writes.
pub proof fn law_failures(
    writes: Seq<WriteView>,
    outcomes: Seq<Result<(), String>>,
    k: KeyView,
    e: Str,
)
    ensures
        failures(writes, outcomes).contains((k, e)) <==> exists|i: int|
            0 <= i < outcomes.len() && (#[trigger] outcomes[i] matches Err(t) && t@ == e)
                && writes[i].key == k,
        failures(writes, outcomes).len() == 0 <==> forall|i: int|
            0 <= i < outcomes.len() ==> #[trigger] outcomes[i] is Ok,
    decreases outcomes.len(),
{
    if outcomes.len() > 0 {
        let d = outcomes.drop_last();
        let n = outcomes.len() - 1;
        let before = failures(writes, d);
        let all = failures(writes, outcomes);
        law_failures(writes, d, k, e);
        assert(outcomes[n] == outcomes.last());
        assert forall|i: int| 0 <= i < n implies #[trigger] outcomes[i] == d[i] by {}
        if all.contains((k, e)) {
            let j = choose|j: int| 0 <= j < all.len() && all[j] == (k, e);
            if j < before.len() {
                assert(before[j] == (k, e));
                let i = choose|i: int|
                    0 <= i < d.len() && (#[trigger] d[i] matches Err(t) && t@ == e)
                        && writes[i].key == k;
                assert(outcomes[i] == d[i]);
            } else {
                assert(outcomes[n] is Err);
            }
        }
        if exists|i: int|
            0 <= i < outcomes.len() && (#[trigger] outcomes[i] matches Err(t) && t@ == e)
                && writes[i].key == k {
            let i = choose|i: int|
                0 <= i < outcomes.len() && (#[trigger] outcomes[i] matches Err(t) && t@ == e)
                    && writes[i].key == k;
            if i < n {
                assert(d[i] == outcomes[i]);
                let j = choose|j: int| 0 <= j < before.len() && before[j] == (k, e);
                assert(all[j] == (k, e));
            } else {
                assert(all[all.len() - 1] == (k, e));
            }
        }
        if all.len() == 0 {
            assert forall|i: int| 0 <= i < outcomes.len() implies #[trigger] outcomes[i] is Ok by {
                if i < n {
                    assert(d[i] is Ok);
                }
            }
        }
        if forall|i: int| 0 <= i < outcomes.len() ==> #[trigger] outcomes[i] is Ok {
            assert(outcomes[n] is Ok);
            assert forall|i: int| 0 <= i < d.len() implies #[trigger] d[i] is Ok by {
                assert(outcomes[i] is Ok);
            }
        }
    }
}

proof fn lemma_sole(s: Set<Str>, x: Str)
    requires
        forall|y: Str| #[trigger] s.contains(y) <==> y == x,
    ensures
        ordered::<String>(s) == seq![x],
{
    lemma_ordered_is::<String>(seq![x]);
    assert(seq![x][0] == x);
    assert(seq![x].to_set() =~= s);
}

proof fn lemma_no_option(s: Set<Str>)
    requires
        forall|y: Str| !#[trigger] s.contains(y),
    ensures
        ordered::<String>(s) == Seq::<Str>::empty(),
{
    lemma_ordered_is::<String>(Seq::empty());
    assert(Seq::<Str>::empty().to_set() =~= s);
}

/// What a change summary names: `a` was known and is turned on, `b` is still there
/// and is turned off, `c` was not known and comes in its state, `d` was known and
/// is gone. A file that did not exist is a new one.
pub proof fn law_described(w: WriteView, old: SavedView, a: Str, b: Str, c: Str, d: Str)
    requires
        w.old == Some(old),
        forall|y: Str|
            #![trigger w.enabled.contains(y)]
            (y == a <==> w.enabled.contains(y) && !old.set.contains(y) && (old.complete.contains(y)
                || old.unset.contains(y))),
        forall|y: Str|
            #![trigger old.set.contains(y)]
            (y == b <==> old.set.contains(y) && w.complete.contains(y) && !w.enabled.contains(y)),
        forall|y: Str|
            #![trigger w.complete.contains(y)]
            (y == c <==> w.complete.contains(y) && !old.complete.contains(y) && !old.set.contains(y)
                && !old.unset.contains(y)),
        forall|y: Str|
            #![trigger w.complete.contains(y)]
            (y == d <==> !w.complete.contains(y) && (old.complete.contains(y) || old.set.contains(y)
                || old.unset.contains(y))),
    ensures
        described(w) == "+"@ + a + " · "@ + ("-"@ + b) + " · "@ + ("new: "@ + (c
            + if w.enabled.contains(c) {
            "(on)"@
        } else {
            "(off)"@
        })) + " · "@ + ("dropped: "@ + d),
{
    let now = w.complete.to_set();
    let known = known_set(old);
    lemma_sole(w.enabled.difference(old.set).intersect(known), a);
    lemma_sole(old.set.intersect(now).difference(w.enabled), b);
    lemma_sole(now.difference(known), c);
    let gone = known.difference(now);
    assert forall|y: Str| #[trigger] gone.contains(y) <==> y == d by {
        assert(w.complete.contains(y) <==> now.contains(y));
    }
    lemma_sole(gone, d);
    let cs = if w.enabled.contains(c) {
        c + "(on)"@
    } else {
        c + "(off)"@
    };
    assert(with_states(seq![c], w.enabled) =~= seq![cs]);
    let parts = change_parts(w, old);
    assert(parts =~= seq!["+"@ + a, "-"@ + b, "new: "@ + cs, "dropped: "@ + d]);
    let sep = " · "@;
    assert(parts.drop_last() =~= seq!["+"@ + a, "-"@ + b, "new: "@ + cs]);
    assert(parts.drop_last().drop_last() =~= seq!["+"@ + a, "-"@ + b]);
    assert(parts.drop_last().drop_last().drop_last() =~= seq!["+"@ + a]);
    reveal_with_fuel(join, 4);
}

/// A write that changes no option says so, and one of a file that did not exist
/// counts what it turns on.
pub proof fn law_described_plain(w: WriteView, old: SavedView)
    ensures
        w.old is None ==> described(w) == "new file ("@ + decimal(w.enabled.len()) + " options)"@,
        w.old == Some(old) && (forall|y: Str|
            #![trigger w.complete.contains(y)]
            w.complete.contains(y) <==> (old.complete.contains(y) || old.set.contains(y)
                || old.unset.contains(y))) && (forall|y: Str|
            #![trigger w.enabled.contains(y)]
            w.complete.contains(y) ==> (w.enabled.contains(y) <==> old.set.contains(y)))
            ==> described(w) == "option list refresh"@,
{
    if w.old == Some(old) && (forall|y: Str|
        #![trigger w.complete.contains(y)]
        w.complete.contains(y) <==> (old.complete.contains(y) || old.set.contains(y)
            || old.unset.contains(y))) && (forall|y: Str|
        #![trigger w.enabled.contains(y)]
        w.complete.contains(y) ==> (w.enabled.contains(y) <==> old.set.contains(y))) {
        let now = w.complete.to_set();
        let known = known_set(old);
        let on = w.enabled.difference(old.set).intersect(known);
        assert forall|y: Str| !#[trigger] on.contains(y) by {
            assert(w.complete.contains(y) || !known.contains(y));
        }
        let off = old.set.intersect(now).difference(w.enabled);
        assert forall|y: Str| !#[trigger] off.contains(y) by {
            assert(w.complete.contains(y) || !now.contains(y));
            assert(w.enabled.contains(y) || !w.enabled.contains(y));
        }
        assert forall|y: Str| !#[trigger] now.difference(known).contains(y) by {
            assert(w.complete.contains(y) || !now.contains(y));
        }
        assert forall|y: Str| !#[trigger] known.difference(now).contains(y) by {
            assert(w.complete.contains(y) || !now.contains(y));
        }
        lemma_no_option(on);
        lemma_no_option(off);
        lemma_no_option(now.difference(known));
        lemma_no_option(known.difference(now));
        assert(with_states(Seq::empty(), w.enabled) =~= Seq::<Str>::empty());
        assert(change_parts(w, old) =~= Seq::<Str>::empty());
    }
}

} // verus!
