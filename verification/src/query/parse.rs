//! Reading the dump that the wrapper makefile prints.
use vstd::prelude::*;

use crate::model::options::{blank_def, blank_options, DefView, DepsView, GroupKind, GroupView};
use crate::model::options::{OptionDef, OptionDeps, OptionGroup, OptionSet, OptionsView};
use crate::model::options::PortOptions;
use crate::model::origin::{key_of, key_text, KeyView, PortKey};
use crate::model::port::{DepEdge, EdgeView, InfoView, PortInfo};
use crate::order::Duplicate;
use crate::sorted::SortedSet;
use crate::text::{after, after_first, cut, glue, is_blank, join, join_with, lines, owned, pieces};
use crate::text::{same, split, split_lines, split_once, split_words, strip, trim, views, words};
use crate::text::{opt_view, Str};

verus! {

// ---------------------------------------------------------------------
// Dependencies
// ---------------------------------------------------------------------

/// The first field from an index on that names a port.
pub open spec fn first_key(fields: Seq<Str>, from: int) -> Option<KeyView>
    decreases fields.len() - from,
{
    if 0 <= from < fields.len() {
        match key_of(fields[from]) {
            Some(k) => Some(k),
            None => first_key(fields, from + 1),
        }
    } else {
        None
    }
}

/// The edge of a `spec:origin[@flavor][:target]` entry: the first field after
/// the spec that names a port is where it leads.
pub open spec fn edge_of(entry: Str) -> Option<EdgeView> {
    let fields = pieces(entry, ':');
    match first_key(fields, 1) {
        Some(target) => Some(EdgeView { target, raw: fields[0] }),
        None => None,
    }
}

/// Whether an edge leads to a port.
pub open spec fn leads_to(edges: Seq<EdgeView>, target: KeyView) -> bool {
    exists|i: int| 0 <= i < edges.len() && (#[trigger] edges[i]).target == target
}

/// The edges and the warnings that entries give: the first edge to a port
/// stays, later ones are dropped, and an entry without an edge is warned about.
pub open spec fn edges_of(entries: Seq<Str>) -> (Seq<EdgeView>, Seq<Str>)
    decreases entries.len(),
{
    if entries.len() == 0 {
        (Seq::empty(), Seq::empty())
    } else {
        let (edges, warnings) = edges_of(entries.drop_last());
        match edge_of(entries.last()) {
            Some(e) => if leads_to(edges, e.target) {
                (edges, warnings)
            } else {
                (edges.push(e), warnings)
            },
            None => (edges, warnings.push("unparsable dependency entry: "@ + entries.last())),
        }
    }
}

/// No two edges of a port lead to the same target.
pub proof fn law_edges_distinct(entries: Seq<Str>)
    ensures
        forall|i: int, j: int|
            0 <= i < j < edges_of(entries).0.len() ==> (#[trigger] edges_of(entries).0[i]).target
                != (#[trigger] edges_of(entries).0[j]).target,
    decreases entries.len(),
{
    if entries.len() > 0 {
        law_edges_distinct(entries.drop_last());
    }
}

/// Every entry either leads somewhere that some edge leads to, or is warned
/// about: nothing a port depends on is lost in silence.
pub proof fn law_edges_complete(entries: Seq<Str>, i: int)
    requires
        0 <= i < entries.len(),
    ensures
        match edge_of(entries[i]) {
            Some(e) => leads_to(edges_of(entries).0, e.target),
            None => edges_of(entries).1.contains("unparsable dependency entry: "@ + entries[i]),
        },
    decreases entries.len(),
{
    let d = entries.drop_last();
    let (edges, warnings) = edges_of(d);
    let (all, warned) = edges_of(entries);
    if i < d.len() {
        law_edges_complete(d, i);
        match edge_of(entries[i]) {
            Some(e) => {
                let j = choose|j: int| 0 <= j < edges.len() && (#[trigger] edges[j]).target
                    == e.target;
                assert(all[j].target == e.target);
            },
            None => {
                let w = "unparsable dependency entry: "@ + entries[i];
                let j = choose|j: int| 0 <= j < warnings.len() && warnings[j] == w;
                assert(warned[j] == w);
            },
        }
    } else {
        match edge_of(entries.last()) {
            Some(e) => {
                if !leads_to(edges, e.target) {
                    assert(all[all.len() - 1].target == e.target);
                }
            },
            None => {
                assert(warned[warned.len() - 1] == "unparsable dependency entry: "@
                    + entries.last());
            },
        }
    }
}

fn find_key(fields: &Vec<String>, from: usize) -> (r: Option<PortKey>)
    ensures
        opt_view(r) == first_key(views(fields@), from as int),
    decreases fields@.len() - from,
{
    if from < fields.len() {
        assert(views(fields@)[from as int] == fields@[from as int]@);
        match PortKey::parse(fields[from].as_str()) {
            Some(k) => Some(k),
            None => find_key(fields, from + 1),
        }
    } else {
        None
    }
}

/// Parse `_UNIFIED_DEPENDS`: whitespace-separated `spec:origin[@flavor][:target]`.
pub fn parse_depends(value: &str) -> (r: (Vec<DepEdge>, Vec<String>))
    ensures
        (views(r.0@), views(r.1@)) == edges_of(words(value@)),
{
    broadcast use {crate::text::views_push, crate::text::views_empty};

    let entries = split_words(value);
    let ghost v = views(entries@);
    let mut edges: Vec<DepEdge> = Vec::new();
    let mut warnings: Vec<String> = Vec::new();
    let mut seen: SortedSet<PortKey> = SortedSet::new();
    let mut i: usize = 0;
    assert(v.take(0) =~= Seq::<Str>::empty());
    while i < entries.len()
        invariant
            i <= entries@.len(),
            v == views(entries@),
            (views(edges@), views(warnings@)) == edges_of(v.take(i as int)),
            forall|k: KeyView| seen@.contains(k) <==> leads_to(views(edges@), k),
        decreases entries@.len() - i,
    {
        let entry = entries[i].as_str();
        let fields = split(entry, ':');
        let target = find_key(&fields, 1);
        proof {
            assert(v.take(i + 1).drop_last() =~= v.take(i as int));
            assert(v.take(i + 1).last() == entry@);
            assert(views(fields@)[0] == fields@[0]@);
        }
        match target {
            Some(t) => {
                let k = t.duplicate();
                if seen.insert(k) {
                    let e = DepEdge { target: t, raw: fields[0].clone() };
                    let ghost was = views(edges@);
                    edges.push(e);
                    proof {
                        let now = views(edges@);
                        assert(now == was.push(e@));
                        assert forall|k: KeyView| seen@.contains(k) <==> leads_to(now, k) by {
                            if leads_to(was, k) {
                                let j = choose|j: int| 0 <= j < was.len() && (
                                #[trigger] was[j]).target == k;
                                assert(now[j].target == k);
                            }
                            if k == t@ {
                                assert(now[now.len() - 1].target == k);
                            }
                            if leads_to(now, k) {
                                let j = choose|j: int| 0 <= j < now.len() && (
                                #[trigger] now[j]).target == k;
                                if j < was.len() {
                                    assert(was[j].target == k);
                                }
                            }
                        }
                    }
                }
            },
            None => {
                let w = glue("unparsable dependency entry: ", entry);
                warnings.push(w);
            },
        }
        i = i + 1;
    }
    assert(v.take(entries@.len() as int) =~= v);
    (edges, warnings)
}

// ---------------------------------------------------------------------
// The dump
// ---------------------------------------------------------------------

/// The words of a sequence without those that stood before.
pub open spec fn dedup(ws: Seq<Str>) -> Seq<Str>
    decreases ws.len(),
{
    if ws.len() == 0 {
        Seq::empty()
    } else {
        let d = dedup(ws.drop_last());
        if ws.drop_last().contains(ws.last()) {
            d
        } else {
            d.push(ws.last())
        }
    }
}

fn dedup_words(ws: &Vec<String>) -> (r: Vec<String>)
    ensures
        views(r@) == dedup(views(ws@)),
{
    broadcast use {crate::text::views_push, crate::text::views_empty};

    let ghost v = views(ws@);
    let mut r: Vec<String> = Vec::new();
    let mut seen: OptionSet = SortedSet::new();
    let mut i: usize = 0;
    assert(v.take(0) =~= Seq::<Str>::empty());
    assert(v.take(0).to_set() =~= Set::<Str>::empty());
    while i < ws.len()
        invariant
            i <= ws@.len(),
            v == views(ws@),
            views(r@) == dedup(v.take(i as int)),
            seen@ == v.take(i as int).to_set(),
        decreases ws@.len() - i,
    {
        let w = ws[i].clone();
        proof {
            assert(v.take(i + 1).drop_last() =~= v.take(i as int));
            assert(v.take(i + 1).last() == w@);
            crate::sorted::lemma_take_set(v, i as int);
            assert(v.take(i as int).to_set().contains(w@) == v.take(i as int).contains(w@));
        }
        if seen.insert(w) {
            r.push(ws[i].clone());
        }
        i = i + 1;
    }
    assert(v.take(ws@.len() as int) =~= v);
    r
}

fn word_set(s: &str) -> (r: OptionSet)
    ensures
        r@ == words(s@).to_set(),
{
    let ws = split_words(s);
    SortedSet::from_list(&ws)
}

/// What has been read of a dump so far.
struct Dump {
    pkgname: String,
    flavors: Vec<String>,
    flavor: String,
    options_name: String,
    options: PortOptions,
    deps: Vec<DepEdge>,
    warnings: Vec<String>,
    broken: String,
    ignore: String,
    deprecated: String,
    pkg_help: String,
    default_versions: Vec<String>,
    seen: bool,
}

#[verifier::ext_equal]
pub struct DumpView {
    pub pkgname: Str,
    pub flavors: Seq<Str>,
    pub flavor: Str,
    pub options_name: Str,
    pub options: OptionsView,
    pub deps: Seq<EdgeView>,
    pub warnings: Seq<Str>,
    pub broken: Str,
    pub ignore: Str,
    pub deprecated: Str,
    pub pkg_help: Str,
    pub default_versions: Seq<Str>,
    /// Whether any line was one of the wrapper's.
    pub seen: bool,
}

impl View for Dump {
    type V = DumpView;

    closed spec fn view(&self) -> DumpView {
        DumpView {
            pkgname: self.pkgname@,
            flavors: views(self.flavors@),
            flavor: self.flavor@,
            options_name: self.options_name@,
            options: self.options@,
            deps: views(self.deps@),
            warnings: views(self.warnings@),
            broken: self.broken@,
            ignore: self.ignore@,
            deprecated: self.deprecated@,
            pkg_help: self.pkg_help@,
            default_versions: views(self.default_versions@),
            seen: self.seen,
        }
    }
}

/// A dump of which nothing has been read.
pub open spec fn blank_dump() -> DumpView {
    DumpView {
        pkgname: Seq::empty(),
        flavors: Seq::empty(),
        flavor: Seq::empty(),
        options_name: Seq::empty(),
        options: blank_options(),
        deps: Seq::empty(),
        warnings: Seq::empty(),
        broken: Seq::empty(),
        ignore: Seq::empty(),
        deprecated: Seq::empty(),
        pkg_help: Seq::empty(),
        default_versions: Seq::empty(),
        seen: false,
    }
}

/// The kind of group a tag introduces.
pub open spec fn group_tag(tag: Str) -> Option<GroupKind> {
    if tag == "GROUP"@ {
        Some(GroupKind::Group)
    } else if tag == "SINGLE"@ {
        Some(GroupKind::Single)
    } else if tag == "RADIO"@ {
        Some(GroupKind::Radio)
    } else if tag == "MULTI"@ {
        Some(GroupKind::Multi)
    } else {
        None
    }
}

/// The index of the first group of a name, or how many groups there are.
pub open spec fn group_index(groups: Seq<GroupView>, name: Str) -> int
    decreases groups.len(),
{
    if groups.len() == 0 || groups[0].name == name {
        0
    } else {
        1 + group_index(groups.skip(1), name)
    }
}

/// Whether a tag describes one option (or, for a description, one group).
pub open spec fn is_def_tag(tag: Str) -> bool {
    tag == "DESC"@ || tag == "IMPLIES"@ || tag == "PREVENTS"@ || tag == "PREVENTS_MSG"@ || tag
        == "OPT_BROKEN"@ || tag == "OPT_IGNORE"@ || tag == "OPT_DEP"@
}

/// What a dependency entry is called: the port it leads to, or the entry itself
/// where it names none.
pub open spec fn entry_name(entry: Str) -> Str {
    match edge_of(entry) {
        Some(e) => key_text(e.target),
        None => entry,
    }
}

/// The ports that dependency entries lead to, each once.
pub open spec fn entry_names(entries: Seq<Str>) -> Seq<Str> {
    dedup(entries.map_values(|w: Str| entry_name(w)))
}

/// The index of the first dependencies of a class, or how many classes there
/// are.
pub open spec fn class_index(deps: Seq<DepsView>, class: Str) -> int
    decreases deps.len(),
{
    if deps.len() == 0 || deps[0].class == class {
        0
    } else {
        1 + class_index(deps.skip(1), class)
    }
}

/// Dependencies by class with those of one class: they replace what was there
/// of the class, and a new class comes last.
pub open spec fn with_class(deps: Seq<DepsView>, class: Str, origins: Seq<Str>) -> Seq<DepsView> {
    let n = class_index(deps, class);
    let d = DepsView { class, origins };
    if n < deps.len() {
        deps.update(n, d)
    } else {
        deps.push(d)
    }
}

/// An option's metadata with what it adds in one class: USES words, or
/// dependencies where there are any.
pub open spec fn def_adding(def: DefView, class: Str, list: Str) -> DefView {
    if class == "uses"@ {
        DefView { uses: words(list), ..def }
    } else if words(list).len() == 0 {
        def
    } else {
        DefView { deps: with_class(def.deps, class, entry_names(words(list))), ..def }
    }
}

/// An option's metadata with what one tag says of it.
pub open spec fn def_with(def: DefView, tag: Str, v: Str) -> DefView {
    if tag == "DESC"@ {
        DefView { desc: v, ..def }
    } else if tag == "IMPLIES"@ {
        DefView { implies: words(v), ..def }
    } else if tag == "PREVENTS"@ {
        DefView { prevents: words(v), ..def }
    } else if tag == "PREVENTS_MSG"@ {
        DefView { prevents_msg: Some(v), ..def }
    } else if tag == "OPT_BROKEN"@ {
        DefView { broken: Some(v), ..def }
    } else if tag == "OPT_DEP"@ {
        match cut(v, '|') {
            Some((class, list)) => def_adding(def, trim(class), list),
            None => def,
        }
    } else {
        DefView { ignore: Some(v), ..def }
    }
}

/// The options with what a tag says of the option or group `name`: a
/// description lands on the first group of that name, anything else on the
/// metadata of the option.
pub open spec fn options_with(o: OptionsView, tag: Str, name: Str, v: Str) -> OptionsView {
    let g = group_index(o.groups, name);
    if tag == "DESC"@ && g < o.groups.len() {
        OptionsView { groups: o.groups.update(g, GroupView { desc: v, ..o.groups[g] }), ..o }
    } else {
        let def = if o.defs.dom().contains(name) {
            o.defs[name]
        } else {
            blank_def()
        };
        OptionsView { defs: o.defs.insert(name, def_with(def, tag, v)), ..o }
    }
}

/// The two halves of a text at its first `|`; all of it and nothing where it
/// has none.
pub open spec fn halves(s: Str) -> (Str, Str) {
    match cut(s, '|') {
        Some(p) => p,
        None => (s, Seq::empty()),
    }
}

/// The options with what a tag gives as a set of options.
pub open spec fn options_layer(o: OptionsView, tag: Str, value: Str) -> Option<OptionsView> {
    let set = words(value).to_set();
    if tag == "COMPLETE"@ {
        Some(OptionsView { complete: dedup(words(value)), ..o })
    } else if tag == "DEFAULT"@ {
        Some(OptionsView { defaults: set, ..o })
    } else if tag == "PORT_OPTIONS"@ {
        Some(OptionsView { effective: set, ..o })
    } else if tag == "MC_SET"@ {
        Some(OptionsView { mc_set: set, ..o })
    } else if tag == "MC_UNSET"@ {
        Some(OptionsView { mc_unset: set, ..o })
    } else if tag == "PORT_SET"@ {
        Some(OptionsView { port_set: set, ..o })
    } else if tag == "PORT_UNSET"@ {
        Some(OptionsView { port_unset: set, ..o })
    } else if tag == "FORCE_SET"@ {
        Some(OptionsView { force_set: set, ..o })
    } else if tag == "FORCE_UNSET"@ {
        Some(OptionsView { force_unset: set, ..o })
    } else if tag == "PORT_FORCE_SET"@ {
        Some(OptionsView { port_force_set: set, ..o })
    } else if tag == "PORT_FORCE_UNSET"@ {
        Some(OptionsView { port_force_unset: set, ..o })
    } else {
        None
    }
}

/// The dump with what one tag says. Tags other than these are skipped.
pub open spec fn dump_field(d: DumpView, tag: Str, value: Str) -> DumpView {
    if let Some(options) = options_layer(d.options, tag, value) {
        DumpView { options, ..d }
    } else if let Some(kind) = group_tag(tag) {
        let (name, members) = halves(value);
        let group = GroupView {
            kind,
            name: trim(name),
            desc: Seq::empty(),
            members: words(members),
        };
        DumpView {
            options: OptionsView { groups: d.options.groups.push(group), ..d.options },
            ..d
        }
    } else if is_def_tag(tag) {
        match cut(value, '|') {
            Some((name, v)) => DumpView {
                options: options_with(d.options, tag, trim(name), trim(v)),
                ..d
            },
            None => d,
        }
    } else if tag == "PKGNAME"@ {
        DumpView { pkgname: trim(value), ..d }
    } else if tag == "FLAVORS"@ {
        DumpView { flavors: words(value), ..d }
    } else if tag == "FLAVOR"@ {
        DumpView { flavor: trim(value), ..d }
    } else if tag == "OPTIONS_NAME"@ {
        DumpView { options_name: trim(value), ..d }
    } else if tag == "DEPENDS"@ {
        let (deps, warnings) = edges_of(words(value));
        DumpView { deps, warnings, ..d }
    } else if tag == "DEFAULT_VERSIONS"@ {
        DumpView { default_versions: words(value), ..d }
    } else if tag == "BROKEN"@ {
        DumpView { broken: trim(value), ..d }
    } else if tag == "IGNORE"@ {
        DumpView { ignore: trim(value), ..d }
    } else if tag == "DEPRECATED"@ {
        DumpView { deprecated: trim(value), ..d }
    } else if tag == "PKG_HELP"@ {
        DumpView { pkg_help: trim(value), ..d }
    } else {
        d
    }
}

/// The dump with one more line: what follows the first `OPTIQUE|` of a line is
/// a tag and its value.
pub open spec fn dump_step(d: DumpView, line: Str) -> DumpView {
    match after_first(line, "OPTIQUE|"@) {
        Some(rest) => {
            let (tag, value) = halves(rest);
            dump_field(DumpView { seen: true, ..d }, tag, value)
        },
        None => d,
    }
}

/// What a sequence of lines dumps, read from the first to the last.
pub open spec fn dump_lines(ls: Seq<Str>) -> DumpView
    decreases ls.len(),
{
    if ls.len() == 0 {
        blank_dump()
    } else {
        dump_step(dump_lines(ls.drop_last()), ls.last())
    }
}

/// The last `n` lines of a text with `sep` between each two.
pub open spec fn last_of(text: Str, n: nat, sep: Str) -> Str {
    let ls = lines(text);
    join(
        ls.skip(if n < ls.len() {
            ls.len() - n
        } else {
            0
        }),
        sep,
    )
}

/// The text unless it is blank.
pub open spec fn non_blank(s: Str) -> Option<Str> {
    if trim(s).len() == 0 {
        None
    } else {
        Some(s)
    }
}

/// The port that a finished dump describes.
pub open spec fn dumped(requested: KeyView, d: DumpView) -> InfoView {
    InfoView {
        key: requested,
        canonical: KeyView {
            origin: requested.origin,
            flavor: if d.flavors.len() == 0 || d.flavor.len() == 0 {
                None
            } else {
                Some(d.flavor)
            },
        },
        pkgname: d.pkgname,
        flavors: d.flavors,
        options_name: d.options_name,
        options: d.options,
        deps: d.deps,
        broken: non_blank(d.broken),
        ignore: non_blank(d.ignore),
        deprecated: non_blank(d.deprecated),
        pkg_help: non_blank(d.pkg_help),
        default_versions: d.default_versions,
        warnings: d.warnings,
    }
}

/// What reading a dump gives: an error for a text without a line of the
/// wrapper's and for one without a package name, else the port.
pub open spec fn dump_result(requested: KeyView, text: Str) -> Result<InfoView, Str> {
    let d = dump_lines(lines(text));
    if !d.seen {
        Err("no OPTIQUE output found (make failed?):\n"@ + last_of(text, 6, "\n"@))
    } else if d.pkgname.len() == 0 {
        Err("wrapper dump incomplete (no PKGNAME):\n"@ + last_of(text, 6, "\n"@))
    } else {
        Ok(dumped(requested, d))
    }
}

/// The last lines of a text, joined.
pub fn last_lines_with(text: &str, n: usize, sep: &str) -> (r: String)
    ensures
        r@ == last_of(text@, n as nat, sep@),
{
    broadcast use {crate::text::views_push, crate::text::views_empty};

    let ls = split_lines(text);
    let from: usize = if n < ls.len() {
        ls.len() - n
    } else {
        0
    };
    let mut kept: Vec<String> = Vec::new();
    let mut i: usize = from;
    while i < ls.len()
        invariant
            from <= i <= ls@.len(),
            views(kept@) == views(ls@).subrange(from as int, i as int),
        decreases ls@.len() - i,
    {
        let l = ls[i].clone();
        assert(l@ == views(ls@)[i as int]);
        let ghost was = views(kept@);
        kept.push(l);
        assert(views(kept@) == was.push(l@));
        i = i + 1;
        assert(views(kept@) =~= views(ls@).subrange(from as int, i as int));
    }
    assert(views(ls@).subrange(from as int, ls@.len() as int) =~= views(ls@).skip(from as int));
    join_with(&kept, sep)
}

fn tail(text: &str, n: usize) -> (r: String)
    ensures
        r@ == last_of(text@, n as nat, "\n"@),
{
    last_lines_with(text, n, "\n")
}

fn non_empty(s: String) -> (r: Option<String>)
    ensures
        opt_view(r) == non_blank(s@),
{
    if is_blank(s.as_str()) {
        None
    } else {
        Some(s)
    }
}

fn in_halves(s: &str) -> (r: (String, String))
    ensures
        (r.0@, r.1@) == halves(s@),
{
    match split_once(s, '|') {
        Some(p) => p,
        None => {
            let e = String::new();
            assert(e@ =~= Seq::<char>::empty());
            (owned(s), e)
        },
    }
}

fn kind_of(tag: &str) -> (r: Option<GroupKind>)
    ensures
        r == group_tag(tag@),
{
    if same(tag, "GROUP") {
        Some(GroupKind::Group)
    } else if same(tag, "SINGLE") {
        Some(GroupKind::Single)
    } else if same(tag, "RADIO") {
        Some(GroupKind::Radio)
    } else if same(tag, "MULTI") {
        Some(GroupKind::Multi)
    } else {
        None
    }
}

proof fn lemma_group_index(groups: Seq<GroupView>, name: Str, n: int)
    requires
        0 <= n <= groups.len(),
        forall|i: int| 0 <= i < n ==> (#[trigger] groups[i]).name != name,
        n < groups.len() ==> groups[n].name == name,
    ensures
        group_index(groups, name) == n,
    decreases groups.len(),
{
    if n > 0 {
        assert(groups[0].name != name);
        lemma_group_index(groups.skip(1), name, n - 1);
    }
}

fn find_group(groups: &Vec<OptionGroup>, name: &str) -> (n: usize)
    ensures
        n == group_index(views(groups@), name@),
        n <= groups@.len(),
{
    let mut i: usize = 0;
    while i < groups.len()
        invariant
            i <= groups@.len(),
            forall|j: int| 0 <= j < i ==> (#[trigger] views(groups@)[j]).name != name@,
        decreases groups@.len() - i,
    {
        if same(groups[i].name.as_str(), name) {
            proof {
                assert(views(groups@)[i as int].name == name@);
                lemma_group_index(views(groups@), name@, i as int);
            }
            return i;
        }
        assert(views(groups@)[i as int].name != name@);
        i = i + 1;
    }
    proof {
        lemma_group_index(views(groups@), name@, i as int);
    }
    i
}

proof fn lemma_class_index(deps: Seq<DepsView>, class: Str, n: int)
    requires
        0 <= n <= deps.len(),
        forall|i: int| 0 <= i < n ==> (#[trigger] deps[i]).class != class,
        n < deps.len() ==> deps[n].class == class,
    ensures
        class_index(deps, class) == n,
    decreases deps.len(),
{
    if n > 0 {
        assert(deps[0].class != class);
        lemma_class_index(deps.skip(1), class, n - 1);
    }
}

fn find_class(deps: &Vec<OptionDeps>, class: &str) -> (n: usize)
    ensures
        n == class_index(views(deps@), class@),
        n <= deps@.len(),
{
    let mut i: usize = 0;
    while i < deps.len()
        invariant
            i <= deps@.len(),
            forall|j: int| 0 <= j < i ==> (#[trigger] views(deps@)[j]).class != class@,
        decreases deps@.len() - i,
    {
        if same(deps[i].class.as_str(), class) {
            proof {
                assert(views(deps@)[i as int].class == class@);
                lemma_class_index(views(deps@), class@, i as int);
            }
            return i;
        }
        assert(views(deps@)[i as int].class != class@);
        i = i + 1;
    }
    proof {
        lemma_class_index(views(deps@), class@, i as int);
    }
    i
}

fn name_entries(entries: &Vec<String>) -> (r: Vec<String>)
    ensures
        views(r@) == entry_names(views(entries@)),
{
    broadcast use {crate::text::views_push, crate::text::views_empty};

    let ghost v = views(entries@);
    let ghost f = |w: Str| entry_name(w);
    let mut names: Vec<String> = Vec::new();
    let mut i: usize = 0;
    assert(views(names@) =~= v.take(0).map_values(f));
    while i < entries.len()
        invariant
            i <= entries@.len(),
            v == views(entries@),
            f == (|w: Str| entry_name(w)),
            views(names@) == v.take(i as int).map_values(f),
        decreases entries@.len() - i,
    {
        let entry = entries[i].as_str();
        let fields = split(entry, ':');
        let name = match find_key(&fields, 1) {
            Some(k) => k.to_string(),
            None => owned(entry),
        };
        proof {
            assert(v[i as int] == entry@);
            assert(name@ == f(entry@));
            assert(v.take(i + 1).map_values(f) =~= v.take(i as int).map_values(f).push(name@));
        }
        names.push(name);
        i = i + 1;
    }
    assert(v.take(entries@.len() as int) =~= v);
    dedup_words(&names)
}

fn add_to_def(def: &mut OptionDef, class: &str, list: &str)
    ensures
        final(def)@ == def_adding(old(def)@, class@, list@),
{
    broadcast use crate::text::views_push;

    let entries = split_words(list);
    if same(class, "uses") {
        def.uses = entries;
        return;
    }
    if entries.len() == 0 {
        return;
    }
    let ghost was = def@.deps;
    let d = OptionDeps { class: owned(class), origins: name_entries(&entries) };
    let n = find_class(&def.deps, class);
    if n < def.deps.len() {
        def.deps.set(n, d);
        assert(def@.deps =~= was.update(n as int, d@));
    } else {
        def.deps.push(d);
    }
}

fn set_def(def: &mut OptionDef, tag: &str, v: &str)
    ensures
        final(def)@ == def_with(old(def)@, tag@, v@),
{
    if same(tag, "DESC") {
        def.desc = owned(v);
    } else if same(tag, "IMPLIES") {
        def.implies = split_words(v);
    } else if same(tag, "PREVENTS") {
        def.prevents = split_words(v);
    } else if same(tag, "PREVENTS_MSG") {
        def.prevents_msg = Some(owned(v));
    } else if same(tag, "OPT_BROKEN") {
        def.broken = Some(owned(v));
    } else if same(tag, "OPT_DEP") {
        if let Some((class, list)) = split_once(v, '|') {
            let class = strip(class.as_str());
            add_to_def(def, class.as_str(), list.as_str());
        }
    } else {
        def.ignore = Some(owned(v));
    }
}

fn set_option(o: &mut PortOptions, tag: &str, name: &str, v: &str)
    ensures
        final(o)@ == options_with(old(o)@, tag@, name@, v@),
{
    if same(tag, "DESC") {
        let g = find_group(&o.groups, name);
        if g < o.groups.len() {
            let ghost was = o@;
            let mut group = o.groups[g].duplicate();
            group.desc = owned(v);
            o.groups.set(g, group);
            assert(o@.groups =~= was.groups.update(
                g as int,
                GroupView { desc: v@, ..was.groups[g as int] },
            ));
            return;
        }
    }
    let key = owned(name);
    let mut def = match o.defs.remove(&key) {
        Some(d) => d,
        None => OptionDef::default(),
    };
    set_def(&mut def, tag, v);
    let ghost was = old(o)@.defs;
    o.defs.insert(key, def);
    assert(o@.defs =~= options_with(old(o)@, tag@, name@, v@).defs);
}

fn set_layer(o: &mut PortOptions, tag: &str, value: &str) -> (r: bool)
    ensures
        match options_layer(old(o)@, tag@, value@) {
            Some(n) => r && final(o)@ == n,
            None => !r && final(o)@ == old(o)@,
        },
{
    if same(tag, "COMPLETE") {
        let ws = split_words(value);
        o.complete = dedup_words(&ws);
    } else if same(tag, "DEFAULT") {
        o.defaults = word_set(value);
    } else if same(tag, "PORT_OPTIONS") {
        o.effective = word_set(value);
    } else if same(tag, "MC_SET") {
        o.mc_set = word_set(value);
    } else if same(tag, "MC_UNSET") {
        o.mc_unset = word_set(value);
    } else if same(tag, "PORT_SET") {
        o.port_set = word_set(value);
    } else if same(tag, "PORT_UNSET") {
        o.port_unset = word_set(value);
    } else if same(tag, "FORCE_SET") {
        o.force_set = word_set(value);
    } else if same(tag, "FORCE_UNSET") {
        o.force_unset = word_set(value);
    } else if same(tag, "PORT_FORCE_SET") {
        o.port_force_set = word_set(value);
    } else if same(tag, "PORT_FORCE_UNSET") {
        o.port_force_unset = word_set(value);
    } else {
        return false;
    }
    true
}

fn def_tag(tag: &str) -> (r: bool)
    ensures
        r == is_def_tag(tag@),
{
    same(tag, "DESC") || same(tag, "IMPLIES") || same(tag, "PREVENTS") || same(tag, "PREVENTS_MSG")
        || same(tag, "OPT_BROKEN") || same(tag, "OPT_IGNORE") || same(tag, "OPT_DEP")
}

impl Dump {
    fn new() -> (r: Self)
        ensures
            r@ == blank_dump(),
    {
        broadcast use crate::text::views_empty;

        let r = Dump {
            pkgname: String::new(),
            flavors: Vec::new(),
            flavor: String::new(),
            options_name: String::new(),
            options: PortOptions::default(),
            deps: Vec::new(),
            warnings: Vec::new(),
            broken: String::new(),
            ignore: String::new(),
            deprecated: String::new(),
            pkg_help: String::new(),
            default_versions: Vec::new(),
            seen: false,
        };
        assert(r@ =~= blank_dump());
        r
    }

    fn field(&mut self, tag: &str, value: &str)
        ensures
            final(self)@ == dump_field(old(self)@, tag@, value@),
    {
        broadcast use {crate::text::views_push, crate::text::views_empty};

        if set_layer(&mut self.options, tag, value) {
            return;
        }
        if let Some(kind) = kind_of(tag) {
            let (name, members) = in_halves(value);
            let group = OptionGroup {
                kind,
                name: strip(name.as_str()),
                desc: String::new(),
                members: split_words(members.as_str()),
            };
            assert(group@.desc =~= Seq::<char>::empty());
            self.options.groups.push(group);
            return;
        }
        if def_tag(tag) {
            if let Some((name, v)) = split_once(value, '|') {
                let name = strip(name.as_str());
                let v = strip(v.as_str());
                set_option(&mut self.options, tag, name.as_str(), v.as_str());
            }
            return;
        }
        if same(tag, "PKGNAME") {
            self.pkgname = strip(value);
        } else if same(tag, "FLAVORS") {
            self.flavors = split_words(value);
        } else if same(tag, "FLAVOR") {
            self.flavor = strip(value);
        } else if same(tag, "OPTIONS_NAME") {
            self.options_name = strip(value);
        } else if same(tag, "DEPENDS") {
            let (deps, warnings) = parse_depends(value);
            self.deps = deps;
            self.warnings = warnings;
        } else if same(tag, "DEFAULT_VERSIONS") {
            self.default_versions = split_words(value);
        } else if same(tag, "BROKEN") {
            self.broken = strip(value);
        } else if same(tag, "IGNORE") {
            self.ignore = strip(value);
        } else if same(tag, "DEPRECATED") {
            self.deprecated = strip(value);
        } else if same(tag, "PKG_HELP") {
            self.pkg_help = strip(value);
        }
    }

    fn line(&mut self, line: &str)
        ensures
            final(self)@ == dump_step(old(self)@, line@),
    {
        if let Some(rest) = after(line, "OPTIQUE|") {
            self.seen = true;
            let (tag, value) = in_halves(rest.as_str());
            self.field(tag.as_str(), value.as_str());
        }
    }
}

/// The view of a result with a message.
pub open spec fn result_view<T: View>(r: Result<T, String>) -> Result<T::V, Str> {
    match r {
        Ok(x) => Ok(x@),
        Err(e) => Err(e@),
    }
}

/// Parse the combined stdout+stderr of a wrapper invocation into a PortInfo.
/// `requested` is the key the query was made for.
pub fn parse_dump(requested: &PortKey, text: &str) -> (r: Result<PortInfo, String>)
    ensures
        result_view(r) == dump_result(requested@, text@),
{
    let ls = split_lines(text);
    let ghost v = views(ls@);
    let mut d = Dump::new();
    let mut i: usize = 0;
    assert(v.take(0) =~= Seq::<Str>::empty());
    while i < ls.len()
        invariant
            i <= ls@.len(),
            v == views(ls@),
            d@ == dump_lines(v.take(i as int)),
        decreases ls@.len() - i,
    {
        proof {
            assert(v.take(i + 1).drop_last() =~= v.take(i as int));
            assert(v.take(i + 1).last() == ls@[i as int]@);
        }
        d.line(ls[i].as_str());
        i = i + 1;
    }
    assert(v.take(ls@.len() as int) =~= v);
    if !d.seen {
        let t = tail(text, 6);
        return Err(glue("no OPTIQUE output found (make failed?):\n", t.as_str()));
    }
    if d.pkgname.as_str().is_empty() {
        let t = tail(text, 6);
        return Err(glue("wrapper dump incomplete (no PKGNAME):\n", t.as_str()));
    }
    let flavor = if d.flavors.len() == 0 || d.flavor.as_str().is_empty() {
        None
    } else {
        Some(d.flavor.clone())
    };
    let info = PortInfo {
        key: requested.duplicate(),
        canonical: PortKey::new(requested.origin.clone(), flavor),
        pkgname: d.pkgname,
        flavors: d.flavors,
        options_name: d.options_name,
        options: d.options,
        deps: d.deps,
        broken: non_empty(d.broken),
        ignore: non_empty(d.ignore),
        deprecated: non_empty(d.deprecated),
        pkg_help: non_empty(d.pkg_help),
        default_versions: d.default_versions,
        warnings: d.warnings,
    };
    assert(info@ =~= dumped(requested@, dump_lines(v)));
    Ok(info)
}

} // verus!
