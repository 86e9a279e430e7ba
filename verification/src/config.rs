//! Resolving the execution environment: the ports tree, the options dir, the
//! layered make.conf and the blacklist.
use vstd::prelude::*;

use crate::cache::{hash_text, text_hash};
use crate::glob::{glob, glob_match};
use crate::list::{first_where, lemma_filter_none, lemma_filter_one, lemma_first_where_is};
use crate::list::{lemma_first_where_none, lemma_take_one};
use crate::path::{join_path, joined, path_parts, same_path};
use crate::text::{cut, ends, ends_in, first, first_from, from_chars, glue3, law_cut, law_trim};
use crate::text::{lemma_first, lemma_first_is, space};
use crate::text::{lines, opt_view, owned, same, split_lines, split_once, starts, strip};
use crate::text::{strip_prefix, strip_suffix, to_chars, trim, views, Str};
use crate::world::{asked, dir_at, extends, file_at, settled, text_at, Facts, World};

verus! {

/// Where poudriere keeps its configuration.
pub open spec fn poudriere_d() -> Str {
    "/usr/local/etc/poudriere.d"@
}

/// Where synth keeps its configuration.
pub open spec fn synth_d() -> Str {
    "/usr/local/etc/synth"@
}

// ---------------------------------------------------------------------
// Layer names
// ---------------------------------------------------------------------

/// The text of an optional flag.
pub open spec fn flag(o: Option<&str>) -> Option<Str> {
    match o {
        Some(s) => Some(s@),
        None => None,
    }
}

/// Two words with a dash between them.
pub open spec fn dashed(a: Str, b: Str) -> Str {
    a + "-"@ + b
}

/// A list of one name where a condition holds, else of none.
pub open spec fn only_if(c: bool, name: Str) -> Seq<Str> {
    if c {
        seq![name]
    } else {
        Seq::empty()
    }
}

/// The layer names of a configuration file, least specific first.
pub open spec fn layer_names(jail: Option<Str>, tree: Str, set: Option<Str>, file: Str) -> Seq<
    Str,
> {
    let j = jail->0;
    let s = set->0;
    seq![file] + only_if(set is Some, dashed(s, file)) + seq![dashed(tree, file)] + only_if(
        jail is Some,
        dashed(j, file),
    ) + only_if(set is Some, dashed(tree, dashed(s, file))) + only_if(
        jail is Some,
        dashed(j, dashed(tree, file)),
    ) + only_if(jail is Some && set is Some, dashed(j, dashed(s, file))) + only_if(
        jail is Some && set is Some,
        dashed(j, dashed(tree, dashed(s, file))),
    )
}

/// The names of an options dir, most specific first.
pub open spec fn candidate_names(jail: Option<Str>, tree: Str, set: Option<Str>) -> Seq<Str> {
    let j = jail->0;
    let s = set->0;
    let o = "options"@;
    only_if(jail is Some && set is Some, dashed(j, dashed(tree, dashed(s, o)))) + only_if(
        jail is Some && set is Some,
        dashed(j, dashed(s, o)),
    ) + only_if(jail is Some, dashed(j, dashed(tree, o))) + only_if(
        set is Some,
        dashed(tree, dashed(s, o)),
    ) + only_if(set is Some, dashed(s, o)) + seq![dashed(tree, o)] + only_if(
        jail is Some,
        dashed(j, o),
    ) + seq![o]
}

fn dash(a: &str, b: &str) -> (r: String)
    ensures
        r@ == dashed(a@, b@),
{
    glue3(a, "-", b)
}

fn layers(jail: Option<&str>, tree: &str, set: Option<&str>, file: &str) -> (r: Vec<String>)
    ensures
        views(r@) == layer_names(flag(jail), tree@, flag(set), file@),
{
    let mut v: Vec<String> = Vec::new();
    v.push(owned(file));
    if let Some(s) = set {
        v.push(dash(s, file));
    }
    v.push(dash(tree, file));
    if let Some(j) = jail {
        v.push(dash(j, file));
    }
    if let Some(s) = set {
        let sf = dash(s, file);
        v.push(dash(tree, sf.as_str()));
    }
    if let Some(j) = jail {
        let tf = dash(tree, file);
        v.push(dash(j, tf.as_str()));
        if let Some(s) = set {
            let sf = dash(s, file);
            v.push(dash(j, sf.as_str()));
            let tsf = dash(tree, sf.as_str());
            v.push(dash(j, tsf.as_str()));
        }
    }
    assert(views(v@) =~= layer_names(flag(jail), tree@, flag(set), file@));
    v
}

/// blacklist layer names in poudriere(8) read order; every existing file
/// contributes:
///
///   blacklist, <set>-blacklist, <tree>-blacklist, <jail>-blacklist,
///   <tree>-<set>-blacklist, <jail>-<tree>-blacklist, <jail>-<set>-blacklist,
///   <jail>-<tree>-<set>-blacklist
pub fn blacklist_layers(jail: Option<&str>, tree: &str, set: Option<&str>) -> (r: Vec<String>)
    ensures
        views(r@) == layer_names(flag(jail), tree@, flag(set), "blacklist"@),
{
    layers(jail, tree, set, "blacklist")
}

/// make.conf layer names in poudriere(8) inclusion order (least to most
/// specific); every existing file is concatenated:
///
///   make.conf, <set>-make.conf, <tree>-make.conf, <jail>-make.conf,
///   <tree>-<set>-make.conf, <jail>-<tree>-make.conf, <jail>-<set>-make.conf,
///   <jail>-<tree>-<set>-make.conf
pub fn make_conf_layers(jail: Option<&str>, tree: &str, set: Option<&str>) -> (r: Vec<String>)
    ensures
        views(r@) == layer_names(flag(jail), tree@, flag(set), "make.conf"@),
{
    layers(jail, tree, set, "make.conf")
}

/// Candidate options dir names, most specific first, exactly as poudriere(8)
/// probes them before null-mounting one over the jail's /var/db/ports:
///
///   <jail>-<tree>-<set>-options, <jail>-<set>-options, <jail>-<tree>-options,
///   <tree>-<set>-options, <set>-options, <tree>-options, <jail>-options,
///   options
pub fn options_dir_candidates(jail: Option<&str>, tree: &str, set: Option<&str>) -> (r: Vec<
    String,
>)
    ensures
        views(r@) == candidate_names(flag(jail), tree@, flag(set)),
{
    let mut v: Vec<String> = Vec::new();
    let to = dash(tree, "options");
    if let Some(j) = jail {
        if let Some(s) = set {
            let so = dash(s, "options");
            let tso = dash(tree, so.as_str());
            v.push(dash(j, tso.as_str()));
            v.push(dash(j, so.as_str()));
        }
        v.push(dash(j, to.as_str()));
    }
    if let Some(s) = set {
        let so = dash(s, "options");
        v.push(dash(tree, so.as_str()));
        v.push(so);
    }
    v.push(to);
    if let Some(j) = jail {
        v.push(dash(j, "options"));
    }
    v.push(owned("options"));
    assert(views(v@) =~= candidate_names(flag(jail), tree@, flag(set)));
    v
}

/// Names below a directory.
pub open spec fn below(dir: Str, names: Seq<Str>) -> Seq<Str> {
    names.map_values(|n: Str| joined(dir, n))
}

fn paths_below(dir: &str, names: &Vec<String>) -> (r: Vec<String>)
    ensures
        views(r@) == below(dir@, views(names@)),
{
    let mut r: Vec<String> = Vec::new();
    let ghost v = views(names@);
    let mut i: usize = 0;
    while i < names.len()
        invariant
            i <= names@.len(),
            v == views(names@),
            views(r@) == below(dir@, v.take(i as int)),
        decreases names@.len() - i,
    {
        let p = join_path(dir, names[i].as_str());
        let ghost was = views(r@);
        r.push(p);
        proof {
            assert(v[i as int] == names@[i as int]@);
            assert(views(r@) =~= was.push(p@));
            assert(below(dir@, v.take(i + 1)) =~= below(dir@, v.take(i as int)).push(p@));
        }
        i = i + 1;
    }
    assert(v.take(names@.len() as int) =~= v);
    r
}

// ---------------------------------------------------------------------
// The blacklist
// ---------------------------------------------------------------------

/// Compiled blacklist: patterns from every existing poudriere(8)
/// blacklist layer for this jail/tree/set.
#[derive(Debug)]
pub struct Blacklist {
    patterns: Vec<String>,
    pub sources: Vec<String>,
}

#[verifier::ext_equal]
pub struct BlacklistView {
    pub patterns: Seq<Str>,
    pub sources: Seq<Str>,
}

impl View for Blacklist {
    type V = BlacklistView;

    closed spec fn view(&self) -> BlacklistView {
        BlacklistView { patterns: views(self.patterns@), sources: views(self.sources@) }
    }
}

/// A blacklist without patterns.
pub open spec fn no_blacklist() -> BlacklistView {
    BlacklistView { patterns: Seq::empty(), sources: Seq::empty() }
}

/// The entry of a blacklist line: what stands before a `#`, without white space
/// around it.
pub open spec fn blacklist_entry(line: Str) -> Str {
    trim(
        match cut(line, '#') {
            Some((before, _)) => before,
            None => line,
        },
    )
}

/// The patterns of blacklist lines.
pub open spec fn patterns_in(ls: Seq<Str>) -> Seq<Str>
    decreases ls.len(),
{
    if ls.len() == 0 {
        Seq::empty()
    } else {
        let before = patterns_in(ls.drop_last());
        let entry = blacklist_entry(ls.last());
        if entry.len() == 0 {
            before
        } else {
            before.push(entry)
        }
    }
}

/// What the readable files among some hold together, in order.
pub open spec fn blacklist_from(f: Facts, paths: Seq<Str>) -> BlacklistView
    decreases paths.len(),
{
    if paths.len() == 0 {
        no_blacklist()
    } else {
        let before = blacklist_from(f, paths.drop_last());
        match text_at(f, paths.last()) {
            Some(text) => BlacklistView {
                patterns: before.patterns + patterns_in(lines(text)),
                sources: before.sources.push(paths.last()),
            },
            None => before,
        }
    }
}

/// The blacklist of a jail, tree and set.
pub open spec fn blacklist_of(
    f: Facts,
    dir: Str,
    jail: Option<Str>,
    tree: Str,
    set: Option<Str>,
) -> BlacklistView {
    blacklist_from(f, below(dir, layer_names(jail, tree, set, "blacklist"@)))
}

/// Whether some pattern matches an origin.
pub open spec fn blacklisted(b: BlacklistView, origin: Str) -> bool {
    exists|i: int| 0 <= i < b.patterns.len() && glob(#[trigger] b.patterns[i], origin)
}

fn push_patterns(patterns: &mut Vec<String>, text: &str)
    ensures
        views(final(patterns)@) == views(old(patterns)@) + patterns_in(lines(text@)),
{
    let ls = split_lines(text);
    let ghost v = views(ls@);
    let ghost was = views(patterns@);
    let mut i: usize = 0;
    assert(v.take(0) =~= Seq::<Str>::empty());
    assert(was + patterns_in(v.take(0)) =~= was);
    while i < ls.len()
        invariant
            i <= ls@.len(),
            v == views(ls@),
            views(patterns@) == was + patterns_in(v.take(i as int)),
        decreases ls@.len() - i,
    {
        proof {
            lemma_take_one(v, i as int);
            assert(v[i as int] == ls@[i as int]@);
        }
        let entry = match split_once(ls[i].as_str(), '#') {
            Some((before, _)) => strip(before.as_str()),
            None => strip(ls[i].as_str()),
        };
        if !entry.as_str().is_empty() {
            let ghost so_far = views(patterns@);
            patterns.push(entry);
            assert(views(patterns@) =~= so_far.push(entry@));
            assert(views(patterns@) =~= was + patterns_in(v.take(i + 1)));
        }
        i = i + 1;
    }
    assert(v.take(ls@.len() as int) =~= v);
}

impl Blacklist {
    /// A blacklist without patterns.
    pub fn none() -> (r: Self)
        ensures
            r@ == no_blacklist(),
    {
        let r = Blacklist { patterns: Vec::new(), sources: Vec::new() };
        assert(r@ =~= no_blacklist());
        r
    }

    /// Read every existing layer, in poudriere(8) order. Unlike the options
    /// dir (first match wins) all files contribute entries.
    pub fn load(
        world: &mut World,
        poudriere_d: &str,
        jail: Option<&str>,
        tree: &str,
        set: Option<&str>,
    ) -> (r: Self)
        ensures
            asked(final(world)@, old(world)@),
            r@ == blacklist_of(old(world)@.known, poudriere_d@, flag(jail), tree@, flag(set)),
            settled(final(world)@) ==> forall|f: Facts| #[trigger]
                extends(f, old(world)@.known) ==> blacklist_of(
                    f,
                    poudriere_d@,
                    flag(jail),
                    tree@,
                    flag(set),
                ) == r@,
    {
        let names = blacklist_layers(jail, tree, set);
        let paths = paths_below(poudriere_d, &names);
        let ghost v = views(paths@);
        let ghost known = world@.known;
        let mut bl = Blacklist::none();
        let mut i: usize = 0;
        assert(v.take(0) =~= Seq::<Str>::empty());
        while i < paths.len()
            invariant
                i <= paths@.len(),
                v == views(paths@),
                known == old(world)@.known,
                asked(world@, old(world)@),
                bl@ == blacklist_from(known, v.take(i as int)),
                settled(world@) ==> forall|f: Facts| #[trigger]
                    extends(f, known) ==> blacklist_from(f, v.take(i as int)) == bl@,
            decreases paths@.len() - i,
        {
            let path = paths[i].as_str();
            proof {
                lemma_take_one(v, i as int);
                assert(v[i as int] == path@);
            }
            let ghost was = bl@;
            let ghost before = world@;
            if let Some(text) = world.text(path) {
                push_patterns(&mut bl.patterns, text.as_str());
                bl.sources.push(paths[i].clone());
                assert(bl@.sources =~= was.sources.push(path@));
            }
            proof {
                assert(bl@ =~= blacklist_from(known, v.take(i + 1)));
                if settled(world@) {
                    assert(settled(before));
                    assert forall|f: Facts| #[trigger] extends(f, known) implies blacklist_from(
                        f,
                        v.take(i + 1),
                    ) == bl@ by {
                        assert(blacklist_from(f, v.take(i as int)) == was);
                        assert(text_at(f, path@) == text_at(known, path@));
                    }
                }
            }
            i = i + 1;
        }
        assert(v.take(paths@.len() as int) =~= v);
        bl
    }

    /// Is this port origin blacklisted? Entries are exact origins or
    /// shell-style `*` globs, as poudriere(8) allows.
    pub fn matches(&self, origin: &str) -> (r: bool)
        ensures
            r == blacklisted(self@, origin@),
    {
        let mut i: usize = 0;
        while i < self.patterns.len()
            invariant
                i <= self.patterns@.len(),
                forall|j: int| 0 <= j < i ==> !glob(#[trigger] self@.patterns[j], origin@),
            decreases self.patterns@.len() - i,
        {
            assert(self@.patterns[i as int] == self.patterns@[i as int]@);
            if glob_match(self.patterns[i].as_str(), origin) {
                return true;
            }
            i = i + 1;
        }
        false
    }

    pub fn is_empty(&self) -> (r: bool)
        ensures
            r == (self@.patterns.len() == 0),
    {
        self.patterns.len() == 0
    }
}

// ---------------------------------------------------------------------
// synth.ini
// ---------------------------------------------------------------------

/// A line of synth.ini without its comment and without white space around it.
pub open spec fn ini_line(line: Str) -> Str {
    let a = first(line, ';');
    let b = first(line, '#');
    trim(
        line.take(
            if a < b {
                a
            } else {
                b
            },
        ),
    )
}

/// The section that a line opens.
pub open spec fn ini_section(t: Str) -> Option<Str> {
    if starts(t, "["@) && ends(t.skip("["@.len() as int), "]"@) {
        let inner = t.skip("["@.len() as int);
        Some(trim(inner.take(inner.len() - "]"@.len())))
    } else {
        None
    }
}

/// The value that a line gives a key; an empty one counts as unset.
pub open spec fn ini_value(t: Str, key: Str) -> Option<Str> {
    match cut(t, '=') {
        Some((k, v)) => if trim(k) == key && trim(v).len() > 0 {
            Some(trim(v))
        } else {
            None
        },
        None => None,
    }
}

/// What was found of a key so far.
#[verifier::ext_equal]
pub struct IniView {
    pub section: Str,
    pub in_profile: Option<Str>,
    pub in_global: Option<Str>,
}

/// The section of synth.ini whose settings apply to every profile.
pub open spec fn global_section() -> Str {
    "Global Configuration"@
}

/// One more line: the first value in a section stays.
pub open spec fn ini_step(s: IniView, line: Str, profile: Str, key: Str) -> IniView {
    let t = ini_line(line);
    match ini_section(t) {
        Some(section) => IniView { section, ..s },
        None => match ini_value(t, key) {
            Some(v) => if s.section == profile {
                IniView {
                    in_profile: if s.in_profile is Some {
                        s.in_profile
                    } else {
                        Some(v)
                    },
                    ..s
                }
            } else if s.section == global_section() {
                IniView {
                    in_global: if s.in_global is Some {
                        s.in_global
                    } else {
                        Some(v)
                    },
                    ..s
                }
            } else {
                s
            },
            None => s,
        },
    }
}

/// What lines say of a key.
pub open spec fn ini_lines(ls: Seq<Str>, profile: Str, key: Str) -> IniView
    decreases ls.len(),
{
    if ls.len() == 0 {
        IniView { section: Seq::empty(), in_profile: None, in_global: None }
    } else {
        ini_step(ini_lines(ls.drop_last(), profile, key), ls.last(), profile, key)
    }
}

/// The value of a key for a profile: that of its section, else the global one.
pub open spec fn ini_lookup(text: Str, profile: Str, key: Str) -> Option<Str> {
    let s = ini_lines(lines(text), profile, key);
    if s.in_profile is Some {
        s.in_profile
    } else {
        s.in_global
    }
}

/// Whether some line opens a section of a name.
pub open spec fn ini_has_section(text: Str, name: Str) -> bool {
    exists|i: int|
        0 <= i < lines(text).len() && ini_section(ini_line(#[trigger] lines(text)[i])) == Some(
            name,
        )
}

fn clean_line(line: &str) -> (r: String)
    ensures
        r@ == ini_line(line@),
{
    let cs = to_chars(line);
    proof {
        assert(cs@.skip(0) =~= cs@);
    }
    let a = first_from(&cs, ';', 0);
    let b = first_from(&cs, '#', 0);
    let n = if a < b {
        a
    } else {
        b
    };
    let t = from_chars(&cs, 0, n);
    assert(t@ =~= line@.take(n as int));
    strip(t.as_str())
}

fn section_name(t: &str) -> (r: Option<String>)
    ensures
        opt_view(r) == ini_section(t@),
{
    match strip_prefix(t, "[") {
        Some(rest) => match strip_suffix(rest.as_str(), "]") {
            Some(name) => Some(strip(name.as_str())),
            None => None,
        },
        None => None,
    }
}

/// Does synth.ini contain a `[name]` section header?
pub fn synth_ini_has_section(text: &str, name: &str) -> (r: bool)
    ensures
        r == ini_has_section(text@, name@),
{
    let ls = split_lines(text);
    let mut i: usize = 0;
    while i < ls.len()
        invariant
            i <= ls@.len(),
            views(ls@) == lines(text@),
            forall|j: int|
                0 <= j < i ==> ini_section(ini_line(#[trigger] lines(text@)[j])) != Some(name@),
        decreases ls@.len() - i,
    {
        assert(lines(text@)[i as int] == ls@[i as int]@);
        let t = clean_line(ls[i].as_str());
        if let Some(s) = section_name(t.as_str()) {
            if same(s.as_str(), name) {
                return true;
            }
        }
        i = i + 1;
    }
    false
}

/// Minimal INI reader for synth.ini: the value of `key` in section
/// `[profile]`, falling back to the `[Global Configuration]` section. Keys are
/// case-sensitive, `;` and `#` start a comment, and whitespace around both
/// sides of `=` is stripped. First occurrence in a section wins; an empty
/// value counts as unset.
pub fn synth_ini_lookup(text: &str, profile: &str, key: &str) -> (r: Option<String>)
    ensures
        opt_view(r) == ini_lookup(text@, profile@, key@),
{
    let ls = split_lines(text);
    let ghost v = views(ls@);
    let mut section = String::new();
    let mut in_profile: Option<String> = None;
    let mut in_global: Option<String> = None;
    let mut i: usize = 0;
    proof {
        assert(v.take(0) =~= Seq::<Str>::empty());
        assert(section@ =~= Seq::<char>::empty());
    }
    while i < ls.len()
        invariant
            i <= ls@.len(),
            v == views(ls@),
            (IniView {
                section: section@,
                in_profile: opt_view(in_profile),
                in_global: opt_view(in_global),
            }) == ini_lines(v.take(i as int), profile@, key@),
        decreases ls@.len() - i,
    {
        proof {
            lemma_take_one(v, i as int);
            assert(v[i as int] == ls@[i as int]@);
        }
        let t = clean_line(ls[i].as_str());
        i = i + 1;
        if let Some(name) = section_name(t.as_str()) {
            section = name;
            continue;
        }
        if let Some((k, val)) = split_once(t.as_str(), '=') {
            let k = strip(k.as_str());
            let val = strip(val.as_str());
            if same(k.as_str(), key) && !val.as_str().is_empty() {
                if same(section.as_str(), profile) {
                    if in_profile.is_none() {
                        in_profile = Some(val);
                    }
                } else if same(section.as_str(), "Global Configuration") {
                    if in_global.is_none() {
                        in_global = Some(val);
                    }
                }
            }
        }
    }
    assert(v.take(ls@.len() as int) =~= v);
    if in_profile.is_some() {
        in_profile
    } else {
        in_global
    }
}

// ---------------------------------------------------------------------
// make.conf
// ---------------------------------------------------------------------

/// The texts of the readable files among some, one after the other, each below
/// a line that names it and ended by a line feed.
pub open spec fn conf_text(f: Facts, paths: Seq<Str>) -> Str
    decreases paths.len(),
{
    if paths.len() == 0 {
        Seq::empty()
    } else {
        let before = conf_text(f, paths.drop_last());
        match text_at(f, paths.last()) {
            Some(text) => before + "# --- "@ + paths.last() + " ---\n"@ + text + if ends(
                text,
                "\n"@,
            ) {
                Seq::empty()
            } else {
                "\n"@
            },
            None => before,
        }
    }
}

/// The readable files among some.
pub open spec fn readable(f: Facts, paths: Seq<Str>) -> Seq<Str> {
    paths.filter(|p: Str| text_at(f, p) is Some)
}

/// A layered make.conf.
#[derive(Debug)]
pub struct LayeredConf {
    /// The text to stage; staged only where some layer exists.
    pub text: String,
    /// Where the text is staged.
    pub path: Option<String>,
    /// Hash of the text (empty layering hashes too).
    pub hash: String,
    /// The layers that exist, in inclusion order.
    pub sources: Vec<String>,
}

#[verifier::ext_equal]
pub struct ConfView {
    pub text: Str,
    pub path: Option<Str>,
    pub hash: Str,
    pub sources: Seq<Str>,
}

impl View for LayeredConf {
    type V = ConfView;

    open spec fn view(&self) -> ConfView {
        ConfView {
            text: self.text@,
            path: opt_view(self.path),
            hash: self.hash@,
            sources: views(self.sources@),
        }
    }
}

/// The layered make.conf of some candidates.
pub open spec fn conf_of(f: Facts, paths: Seq<Str>, staging: Str) -> ConfView {
    let text = conf_text(f, paths);
    ConfView {
        text,
        path: if readable(f, paths).len() == 0 {
            None
        } else {
            Some(joined(staging, "make.conf"@))
        },
        hash: text_hash(text),
        sources: readable(f, paths),
    }
}

proof fn lemma_conf_same(f: Facts, g: Facts, paths: Seq<Str>)
    requires
        forall|i: int|
            0 <= i < paths.len() ==> text_at(f, #[trigger] paths[i]) == text_at(g, paths[i]),
    ensures
        conf_text(f, paths) == conf_text(g, paths),
        readable(f, paths) == readable(g, paths),
    decreases paths.len(),
{
    reveal(Seq::filter);
    if paths.len() > 0 {
        let d = paths.drop_last();
        assert forall|i: int| 0 <= i < d.len() implies text_at(f, #[trigger] d[i]) == text_at(
            g,
            d[i],
        ) by {
            assert(d[i] == paths[i]);
        }
        lemma_conf_same(f, g, d);
        assert(text_at(f, paths[paths.len() - 1]) == text_at(g, paths[paths.len() - 1]));
    } else {
        assert(readable(f, paths) =~= readable(g, paths));
    }
}

/// Concatenate every existing candidate, in order, into one staged
/// `make.conf`. The hash covers the combined text (so an empty layering hashes
/// too); nothing is staged when no candidate exists.
pub fn concat_make_conf(world: &mut World, candidates: &Vec<String>, staging_dir: &str) -> (r:
    LayeredConf)
    ensures
        asked(final(world)@, old(world)@),
        r@ == conf_of(old(world)@.known, views(candidates@), staging_dir@),
        settled(final(world)@) ==> forall|f: Facts| #[trigger]
            extends(f, old(world)@.known) ==> conf_of(f, views(candidates@), staging_dir@) == r@,
{
    broadcast use {crate::text::views_push, crate::text::views_empty};

    let ghost v = views(candidates@);
    let ghost known = world@.known;
    let ghost p = |x: Str| text_at(known, x) is Some;
    let mut combined = String::new();
    let mut sources: Vec<String> = Vec::new();
    let mut i: usize = 0;
    proof {
        lemma_filter_none(v, p);
        assert(v.take(0) =~= Seq::<Str>::empty());
        assert(combined@ =~= Seq::<char>::empty());
    }
    while i < candidates.len()
        invariant
            i <= candidates@.len(),
            v == views(candidates@),
            known == old(world)@.known,
            p == (|x: Str| text_at(known, x) is Some),
            asked(world@, old(world)@),
            combined@ == conf_text(known, v.take(i as int)),
            views(sources@) == v.take(i as int).filter(p),
            settled(world@) ==> forall|j: int|
                0 <= j < i ==> known.dom().contains(#[trigger] v[j]),
        decreases candidates@.len() - i,
    {
        let path = candidates[i].as_str();
        let ghost before = world@;
        proof {
            lemma_take_one(v, i as int);
            lemma_filter_one(v, i as int, p);
            assert(v[i as int] == path@);
        }
        if let Some(text) = world.text(path) {
            let ghost was = combined@;
            combined.append("# --- ");
            combined.append(path);
            combined.append(" ---\n");
            combined.append(text.as_str());
            if !ends_in(text.as_str(), "\n") {
                combined.append("\n");
            } else {
                assert(combined@ + Seq::<char>::empty() =~= combined@);
            }
            sources.push(candidates[i].clone());
        }
        proof {
            if settled(world@) {
                assert(settled(before));
            }
        }
        i = i + 1;
    }
    proof {
        assert(v.take(candidates@.len() as int) =~= v);
        if settled(world@) {
            assert forall|f: Facts| #[trigger] extends(f, known) implies conf_of(
                f,
                v,
                staging_dir@,
            ) == conf_of(known, v, staging_dir@) by {
                assert forall|j: int| 0 <= j < v.len() implies text_at(f, #[trigger] v[j])
                    == text_at(known, v[j]) by {
                    assert(known.dom().contains(v[j]));
                }
                lemma_conf_same(f, known, v);
            }
        }
    }
    let hash = hash_text(combined.as_str());
    let path = if sources.len() == 0 {
        None
    } else {
        Some(join_path(staging_dir, "make.conf"))
    };
    LayeredConf { text: combined, path, hash, sources }
}

/// The paths of the make.conf layers.
pub fn layer_make_conf(
    world: &mut World,
    poudriere_d: &str,
    jail: Option<&str>,
    tree: &str,
    set: Option<&str>,
    staging_dir: &str,
) -> (r: LayeredConf)
    ensures
        asked(final(world)@, old(world)@),
        r@ == conf_of(
            old(world)@.known,
            below(poudriere_d@, layer_names(flag(jail), tree@, flag(set), "make.conf"@)),
            staging_dir@,
        ),
        settled(final(world)@) ==> forall|f: Facts| #[trigger]
            extends(f, old(world)@.known) ==> conf_of(
                f,
                below(poudriere_d@, layer_names(flag(jail), tree@, flag(set), "make.conf"@)),
                staging_dir@,
            ) == r@,
{
    let names = make_conf_layers(jail, tree, set);
    let paths = paths_below(poudriere_d, &names);
    concat_make_conf(world, &paths, staging_dir)
}

// ---------------------------------------------------------------------
// Directories
// ---------------------------------------------------------------------

/// A directory is a usable ports tree when it carries the ports framework.
pub open spec fn tree_at(f: Facts, dir: Str) -> bool {
    file_at(f, joined(dir, "Mk/bsd.port.mk"@))
}

fn is_ports_tree(world: &mut World, dir: &str) -> (r: bool)
    ensures
        asked(final(world)@, old(world)@),
        r == tree_at(old(world)@.known, dir@),
        settled(final(world)@) ==> forall|f: Facts| #[trigger]
            extends(f, old(world)@.known) ==> tree_at(f, dir@) == r,
{
    let p = join_path(dir, "Mk/bsd.port.mk");
    world.is_file(p.as_str())
}

/// The ports tree of a poudriere tree name: where its `mnt` file points, which
/// must be a ports tree; without one, /usr/ports.
pub open spec fn portsdir_of(f: Facts, dir: Str, tree: Str) -> Result<Str, Str> {
    match text_at(f, joined(joined(joined(dir, "ports"@), tree), "mnt"@)) {
        Some(text) => if tree_at(f, trim(text)) {
            Ok(trim(text))
        } else {
            Err(
                "poudriere tree '"@ + tree + "' points to "@ + trim(text)
                    + " which is not a ports tree"@,
            )
        },
        None => if tree_at(f, "/usr/ports"@) {
            Ok("/usr/ports"@)
        } else {
            Err(
                "no poudriere tree '"@ + tree
                    + "' and no /usr/ports; pass -p or mount a ports tree"@,
            )
        },
    }
}

/// The view of a result with two texts.
pub open spec fn text_result(r: Result<String, String>) -> Result<Str, Str> {
    match r {
        Ok(x) => Ok(x@),
        Err(e) => Err(e@),
    }
}

pub fn resolve_portsdir(world: &mut World, poudriere_d: &str, tree: &str) -> (r: Result<
    String,
    String,
>)
    ensures
        asked(final(world)@, old(world)@),
        text_result(r) == portsdir_of(old(world)@.known, poudriere_d@, tree@),
        settled(final(world)@) ==> forall|f: Facts| #[trigger]
            extends(f, old(world)@.known) ==> portsdir_of(f, poudriere_d@, tree@) == text_result(r),
{
    let a = join_path(poudriere_d, "ports");
    let b = join_path(a.as_str(), tree);
    let mnt = join_path(b.as_str(), "mnt");
    if let Some(text) = world.text(mnt.as_str()) {
        let p = strip(text.as_str());
        if is_ports_tree(world, p.as_str()) {
            return Ok(p);
        }
        let mut e = glue3("poudriere tree '", tree, "' points to ");
        e.append(p.as_str());
        e.append(" which is not a ports tree");
        return Err(e);
    }
    if is_ports_tree(world, "/usr/ports") {
        Ok(owned("/usr/ports"))
    } else {
        Err(
            glue3(
                "no poudriere tree '",
                tree,
                "' and no /usr/ports; pass -p or mount a ports tree",
            ),
        )
    }
}

/// A word and a dash, or nothing.
pub open spec fn dash_part(o: Option<Str>) -> Str {
    match o {
        Some(s) => s + "-"@,
        None => Seq::empty(),
    }
}

/// The options dir that `poudriere options` would create for some flags.
pub open spec fn created_name(jail: Option<Str>, tree: Option<Str>, set: Option<Str>) -> Str {
    dash_part(jail) + dash_part(tree) + dash_part(set) + "options"@
}

/// The options dir of a jail, tree and set, and whether it is yet to be
/// created: the first candidate that exists, else the one that `poudriere
/// options` would create.
pub open spec fn options_dir_of(
    f: Facts,
    dir: Str,
    jail: Option<Str>,
    tree: Str,
    tree_explicit: bool,
    set: Option<Str>,
) -> (Str, bool) {
    match first_where(below(dir, candidate_names(jail, tree, set)), |p: Str| dir_at(f, p)) {
        Some(p) => (p, false),
        None => (
            joined(
                dir,
                created_name(
                    jail,
                    if tree_explicit {
                        Some(tree)
                    } else {
                        None
                    },
                    set,
                ),
            ),
            true,
        ),
    }
}

/// First existing candidate wins (that's the dir the build will actually
/// see). When none exists, fall back to the name `poudriere options` would
/// create for these flags: [<jail>-][<tree>-][<set>-]options, the tree part
/// only when -p was explicit.
pub fn resolve_options_dir(
    world: &mut World,
    poudriere_d: &str,
    jail: Option<&str>,
    tree: &str,
    tree_explicit: bool,
    set: Option<&str>,
) -> (r: (String, bool))
    ensures
        asked(final(world)@, old(world)@),
        (r.0@, r.1) == options_dir_of(
            old(world)@.known,
            poudriere_d@,
            flag(jail),
            tree@,
            tree_explicit,
            flag(set),
        ),
        settled(final(world)@) ==> forall|f: Facts| #[trigger]
            extends(f, old(world)@.known) ==> options_dir_of(
                f,
                poudriere_d@,
                flag(jail),
                tree@,
                tree_explicit,
                flag(set),
            ) == (r.0@, r.1),
{
    let names = options_dir_candidates(jail, tree, set);
    let paths = paths_below(poudriere_d, &names);
    let ghost v = views(paths@);
    let ghost known = world@.known;
    let mut i: usize = 0;
    while i < paths.len()
        invariant
            i <= paths@.len(),
            v == views(paths@),
            v == below(poudriere_d@, candidate_names(flag(jail), tree@, flag(set))),
            known == old(world)@.known,
            asked(world@, old(world)@),
            forall|j: int| 0 <= j < i ==> !dir_at(known, #[trigger] v[j]),
            settled(world@) ==> forall|j: int|
                0 <= j < i ==> known.dom().contains(#[trigger] v[j]),
        decreases paths@.len() - i,
    {
        let path = paths[i].as_str();
        let ghost before = world@;
        assert(v[i as int] == path@);
        if world.is_dir(path) {
            proof {
                lemma_first_where_is(v, |p: Str| dir_at(known, p), i as int);
                if settled(world@) {
                    assert(settled(before));
                    assert forall|f: Facts| #[trigger] extends(f, known) implies first_where(
                        v,
                        |p: Str| dir_at(f, p),
                    ) == Some(path@) by {
                        assert forall|j: int| 0 <= j < i implies !dir_at(f, #[trigger] v[j]) by {
                            assert(known.dom().contains(v[j]));
                        }
                        lemma_first_where_is(v, |p: Str| dir_at(f, p), i as int);
                    }
                }
            }
            return (paths[i].clone(), false);
        }
        proof {
            if settled(world@) {
                assert(settled(before));
            }
        }
        i = i + 1;
    }
    proof {
        lemma_first_where_none(v, |p: Str| dir_at(known, p));
        if settled(world@) {
            assert forall|f: Facts| #[trigger] extends(f, known) implies first_where(
                v,
                |p: Str| dir_at(f, p),
            ) is None by {
                assert forall|j: int| 0 <= j < v.len() implies !dir_at(f, #[trigger] v[j]) by {
                    assert(known.dom().contains(v[j]));
                }
                lemma_first_where_none(v, |p: Str| dir_at(f, p));
            }
        }
    }
    let mut name = String::new();
    if let Some(j) = jail {
        name.append(j);
        name.append("-");
    }
    if tree_explicit {
        name.append(tree);
        name.append("-");
    }
    if let Some(s) = set {
        name.append(s);
        name.append("-");
    }
    name.append("options");
    assert(name@ =~= created_name(
        flag(jail),
        if tree_explicit {
            Some(tree@)
        } else {
            None
        },
        flag(set),
    ));
    (join_path(poudriere_d, name.as_str()), true)
}

// ---------------------------------------------------------------------
// Settings
// ---------------------------------------------------------------------

/// Resolved execution environment: where the ports tree lives, which options
/// dir is the read/write target, and the layered make.conf to query with.
#[derive(Debug)]
pub struct Settings {
    pub portsdir: String,
    /// The real options dir writes will target (PORT_DBDIR equivalent).
    pub options_dir: String,
    /// True when `options_dir` doesn't exist yet (created on apply).
    pub options_dir_is_new: bool,
    /// Layered make.conf, if any applies, and what to stage there.
    pub make_conf: LayeredConf,
    /// Ports poudriere(8) would refuse to build for this jail/tree/set.
    pub blacklist: Blacklist,
    /// Remarks about the resolution itself (e.g. a flag that does not apply
    /// to the selected backend), printed by the startup banner.
    pub notes: Vec<String>,
}

#[verifier::ext_equal]
pub struct SettingsView {
    pub portsdir: Str,
    pub options_dir: Str,
    pub options_dir_is_new: bool,
    pub make_conf: ConfView,
    pub blacklist: BlacklistView,
    pub notes: Seq<Str>,
}

impl View for Settings {
    type V = SettingsView;

    open spec fn view(&self) -> SettingsView {
        SettingsView {
            portsdir: self.portsdir@,
            options_dir: self.options_dir@,
            options_dir_is_new: self.options_dir_is_new,
            make_conf: self.make_conf@,
            blacklist: self.blacklist@,
            notes: views(self.notes@),
        }
    }
}

/// The view of resolved settings.
pub open spec fn settings_result(r: Result<Settings, String>) -> Result<SettingsView, Str> {
    match r {
        Ok(x) => Ok(x@),
        Err(e) => Err(e@),
    }
}

/// The profile that synth itself has selected.
pub open spec fn selected_profile(ini: Str) -> Str {
    match ini_lookup(ini, global_section(), "profile_selected"@) {
        Some(p) => p,
        None => "LiveSystem"@,
    }
}

/// The remark that an options dir is the live one.
pub open spec fn live_dir_note() -> Str {
    "options dir is the live /var/db/ports: minimal/redundant cleanups also affect plain `make config` workflows"@
}

/// The contents of synth.ini; nothing where it cannot be read.
pub open spec fn synth_ini(f: Facts, dir: Str) -> Str {
    match text_at(f, joined(dir, "synth.ini"@)) {
        Some(t) => t,
        None => Seq::empty(),
    }
}

/// The ports tree of a synth profile.
pub open spec fn synth_portsdir(f: Facts, ini: Str, profile: Str) -> Result<Str, Str> {
    match ini_lookup(ini, profile, "Directory_portsdir"@) {
        Some(dir) => if tree_at(f, dir) {
            Ok(dir)
        } else {
            Err(
                "synth profile '"@ + profile + "' points Directory_portsdir at "@ + dir
                    + " which is not a ports tree"@,
            )
        },
        None => if tree_at(f, "/usr/ports"@) {
            Ok("/usr/ports"@)
        } else {
            Err(
                "synth profile '"@ + profile
                    + "' sets no Directory_portsdir and /usr/ports is not a ports tree"@,
            )
        },
    }
}

/// The options dir of a synth profile: the one asked for, else the setting,
/// else /var/db/ports.
pub open spec fn synth_options_dir(ini: Str, profile: Str, asked_dir: Option<Str>) -> Str {
    match asked_dir {
        Some(d) => d,
        None => match ini_lookup(ini, profile, "Directory_options"@) {
            Some(d) => d,
            None => "/var/db/ports"@,
        },
    }
}

/// The profile that a name stands for: an empty one is synth's own selection.
pub open spec fn synth_profile(ini: Str, profile: Str) -> Str {
    if profile.len() == 0 {
        selected_profile(ini)
    } else {
        profile
    }
}

/// The remarks on a synth resolution.
pub open spec fn synth_notes(
    ini: Str,
    asked_profile: Str,
    tree_explicit: bool,
    options_dir: Str,
) -> Seq<Str> {
    let profile = synth_profile(ini, asked_profile);
    only_if(
        asked_profile.len() == 0,
        "synth profile "@ + profile + " (synth.ini profile_selected)"@,
    ) + only_if(
        tree_explicit,
        "-p is a poudriere tree name; synth uses Directory_portsdir"@,
    ) + only_if(
        ini.len() > 0 && !ini_has_section(ini, profile),
        "profile '"@ + profile + "' has no section in synth.ini; using built-in defaults"@,
    ) + only_if(path_parts(options_dir) == path_parts("/var/db/ports"@), live_dir_note())
}

/// The environment of a synth profile.
pub open spec fn synth_settings(
    f: Facts,
    dir: Str,
    asked_profile: Str,
    tree_explicit: bool,
    asked_dir: Option<Str>,
    staging: Str,
) -> Result<SettingsView, Str> {
    let ini = synth_ini(f, dir);
    let profile = synth_profile(ini, asked_profile);
    match synth_portsdir(f, ini, profile) {
        Err(e) => Err(e),
        Ok(portsdir) => {
            let options_dir = synth_options_dir(ini, profile, asked_dir);
            Ok(
                SettingsView {
                    portsdir,
                    options_dir,
                    options_dir_is_new: !dir_at(f, options_dir),
                    make_conf: conf_of(
                        f,
                        seq![joined(dir, dashed(profile, "make.conf"@))],
                        staging,
                    ),
                    blacklist: no_blacklist(),
                    notes: synth_notes(ini, asked_profile, tree_explicit, options_dir),
                },
            )
        },
    }
}

fn synth_tree(world: &mut World, ini: &str, profile: &str) -> (r: Result<String, String>)
    ensures
        asked(final(world)@, old(world)@),
        text_result(r) == synth_portsdir(old(world)@.known, ini@, profile@),
        settled(final(world)@) ==> forall|f: Facts| #[trigger]
            extends(f, old(world)@.known) ==> synth_portsdir(f, ini@, profile@) == text_result(r),
{
    match synth_ini_lookup(ini, profile, "Directory_portsdir") {
        Some(dir) => {
            if is_ports_tree(world, dir.as_str()) {
                Ok(dir)
            } else {
                let mut e = glue3(
                    "synth profile '",
                    profile,
                    "' points Directory_portsdir at ",
                );
                e.append(dir.as_str());
                e.append(" which is not a ports tree");
                Err(e)
            }
        },
        None => {
            if is_ports_tree(world, "/usr/ports") {
                Ok(owned("/usr/ports"))
            } else {
                Err(
                    glue3(
                        "synth profile '",
                        profile,
                        "' sets no Directory_portsdir and /usr/ports is not a ports tree",
                    ),
                )
            }
        },
    }
}

fn synth_remarks(
    ini: &str,
    asked_profile: &str,
    profile: &str,
    tree_explicit: bool,
    options_dir: &str,
) -> (r: Vec<String>)
    requires
        profile@ == synth_profile(ini@, asked_profile@),
    ensures
        views(r@) == synth_notes(ini@, asked_profile@, tree_explicit, options_dir@),
{
    let mut notes: Vec<String> = Vec::new();
    if asked_profile.is_empty() {
        notes.push(glue3("synth profile ", profile, " (synth.ini profile_selected)"));
    }
    if tree_explicit {
        notes.push(owned("-p is a poudriere tree name; synth uses Directory_portsdir"));
    }
    // A named profile that synth.ini doesn't know silently gets built-in
    // defaults — say so, it is usually a typo.
    if !ini.is_empty() && !synth_ini_has_section(ini, profile) {
        notes.push(
            glue3(
                "profile '",
                profile,
                "' has no section in synth.ini; using built-in defaults",
            ),
        );
    }
    if same_path(options_dir, "/var/db/ports") {
        notes.push(
            owned(
                "options dir is the live /var/db/ports: minimal/redundant cleanups also affect plain `make config` workflows",
            ),
        );
    }
    assert(views(notes@) =~= synth_notes(ini@, asked_profile@, tree_explicit, options_dir@));
    notes
}

/// synth(1) layout: one `synth.ini` describing every profile, the profile's
/// own `<profile>-make.conf` (no layering), and no blacklist at all. The
/// options dir is a documented synth setting (`Directory_options`), so unlike
/// poudriere there is nothing to probe for. A bare -s (empty profile) follows
/// synth's own selection.
pub fn resolve_synth(
    world: &mut World,
    synth_dir: &str,
    profile: &str,
    tree_explicit: bool,
    options_dir_flag: Option<&str>,
    staging_dir: &str,
) -> (r: Result<Settings, String>)
    ensures
        asked(final(world)@, old(world)@),
        settings_result(r) == synth_settings(
            old(world)@.known,
            synth_dir@,
            profile@,
            tree_explicit,
            flag(options_dir_flag),
            staging_dir@,
        ),
        settled(final(world)@) ==> forall|f: Facts| #[trigger]
            extends(f, old(world)@.known) ==> synth_settings(
                f,
                synth_dir@,
                profile@,
                tree_explicit,
                flag(options_dir_flag),
                staging_dir@,
            ) == settings_result(r),
{
    let ghost known = world@.known;
    let ini_path = join_path(synth_dir, "synth.ini");
    let ini = match world.text(ini_path.as_str()) {
        Some(t) => t,
        None => {
            let e = String::new();
            assert(e@ =~= Seq::<char>::empty());
            e
        },
    };
    assert(ini@ == synth_ini(known, synth_dir@));
    let ghost after_ini = world@;
    let name = if profile.is_empty() {
        match synth_ini_lookup(ini.as_str(), "Global Configuration", "profile_selected") {
            Some(p) => p,
            None => owned("LiveSystem"),
        }
    } else {
        owned(profile)
    };
    let portsdir = match synth_tree(world, ini.as_str(), name.as_str()) {
        Ok(p) => p,
        Err(e) => {
            return Err(e);
        },
    };
    let options_dir = match options_dir_flag {
        Some(d) => owned(d),
        None => match synth_ini_lookup(ini.as_str(), name.as_str(), "Directory_options") {
            Some(d) => d,
            None => owned("/var/db/ports"),
        },
    };
    let notes = synth_remarks(
        ini.as_str(),
        profile,
        name.as_str(),
        tree_explicit,
        options_dir.as_str(),
    );
    let exists_already = world.is_dir(options_dir.as_str());
    let conf_name = dash(name.as_str(), "make.conf");
    let mut candidates: Vec<String> = Vec::new();
    candidates.push(join_path(synth_dir, conf_name.as_str()));
    assert(views(candidates@) =~= seq![joined(synth_dir@, dashed(name@, "make.conf"@))]);
    let make_conf = concat_make_conf(world, &candidates, staging_dir);
    let s = Settings {
        portsdir,
        options_dir,
        options_dir_is_new: !exists_already,
        make_conf,
        blacklist: Blacklist::none(),
        notes,
    };
    proof {
        if settled(world@) {
            assert(settled(after_ini));
            assert forall|f: Facts| #[trigger] extends(f, known) implies synth_settings(
                f,
                synth_dir@,
                profile@,
                tree_explicit,
                flag(options_dir_flag),
                staging_dir@,
            ) == Ok::<SettingsView, Str>(s@) by {
                assert(synth_ini(f, synth_dir@) == ini@);
            }
        }
    }
    Ok(s)
}

/// The options dir that flags and what exists decide, and whether it is yet to
/// be created; an error where a jail or set is given without a poudriere
/// configuration.
pub open spec fn target_dir(
    f: Facts,
    jail: Option<Str>,
    tree: Option<Str>,
    set: Option<Str>,
    asked_dir: Option<Str>,
) -> Result<(Str, bool), Str> {
    match asked_dir {
        Some(d) => Ok((d, !dir_at(f, d))),
        None => if dir_at(f, poudriere_d()) {
            Ok(
                options_dir_of(
                    f,
                    poudriere_d(),
                    jail,
                    tree_or_default(tree),
                    tree is Some,
                    set,
                ),
            )
        } else if jail is Some || set is Some {
            Err("-j/-z given but "@ + poudriere_d() + " does not exist"@)
        } else {
            Ok(("/var/db/ports"@, !dir_at(f, "/var/db/ports"@)))
        },
    }
}

/// The tree name to look things up by.
pub open spec fn tree_or_default(tree: Option<Str>) -> Str {
    match tree {
        Some(t) => t,
        None => "default"@,
    }
}

/// The environment that flags and what exists decide.
pub open spec fn settings_of(
    f: Facts,
    tree: Option<Str>,
    jail: Option<Str>,
    set: Option<Str>,
    synth: Option<Str>,
    asked_dir: Option<Str>,
    staging: Str,
) -> Result<SettingsView, Str> {
    match synth {
        Some(profile) => synth_settings(
            f,
            synth_d(),
            profile,
            tree is Some,
            asked_dir,
            staging,
        ),
        None => {
            let name = tree_or_default(tree);
            match portsdir_of(f, poudriere_d(), name) {
                Err(e) => Err(e),
                Ok(portsdir) => match target_dir(f, jail, tree, set, asked_dir) {
                    Err(e) => Err(e),
                    Ok((options_dir, is_new)) => Ok(
                        SettingsView {
                            portsdir,
                            options_dir,
                            options_dir_is_new: is_new,
                            make_conf: conf_of(
                                f,
                                below(
                                    poudriere_d(),
                                    layer_names(jail, name, set, "make.conf"@),
                                ),
                                staging,
                            ),
                            blacklist: blacklist_of(f, poudriere_d(), jail, name, set),
                            notes: Seq::empty(),
                        },
                    ),
                },
            }
        },
    }
}

fn resolve_target(
    world: &mut World,
    jail: Option<&str>,
    tree: Option<&str>,
    set: Option<&str>,
    options_dir_flag: Option<&str>,
) -> (r: Result<(String, bool), String>)
    ensures
        asked(final(world)@, old(world)@),
        target_result(r) == target_dir(
            old(world)@.known,
            flag(jail),
            flag(tree),
            flag(set),
            flag(options_dir_flag),
        ),
        settled(final(world)@) ==> forall|f: Facts| #[trigger]
            extends(f, old(world)@.known) ==> target_dir(
                f,
                flag(jail),
                flag(tree),
                flag(set),
                flag(options_dir_flag),
            ) == target_result(r),
{
    if let Some(d) = options_dir_flag {
        let there = world.is_dir(d);
        return Ok((owned(d), !there));
    }
    if world.is_dir("/usr/local/etc/poudriere.d") {
        let name = match tree {
            Some(t) => t,
            None => "default",
        };
        return Ok(
            resolve_options_dir(
                world,
                "/usr/local/etc/poudriere.d",
                jail,
                name,
                tree.is_some(),
                set,
            ),
        );
    }
    if jail.is_some() || set.is_some() {
        return Err(
            glue3("-j/-z given but ", "/usr/local/etc/poudriere.d", " does not exist"),
        );
    }
    let there = world.is_dir("/var/db/ports");
    Ok((owned("/var/db/ports"), !there))
}

/// The view of a resolved options dir.
pub open spec fn target_result(r: Result<(String, bool), String>) -> Result<(Str, bool), Str> {
    match r {
        Ok((d, n)) => Ok((d@, n)),
        Err(e) => Err(e@),
    }
}

/// `tree` is None when -p wasn't given ("default" is used for lookups, but —
/// like `poudriere options` — the tree name is then left out of a
/// newly-created options dir name).
///
/// `synth` selects the synth(1) layout instead of the poudriere one; it is
/// mutually exclusive with `jail`/`set` (the command line rejects the
/// combination).
pub fn resolve(
    world: &mut World,
    tree: Option<&str>,
    jail: Option<&str>,
    set: Option<&str>,
    synth: Option<&str>,
    options_dir_flag: Option<&str>,
    staging_dir: &str,
) -> (r: Result<Settings, String>)
    ensures
        asked(final(world)@, old(world)@),
        settings_result(r) == settings_of(
            old(world)@.known,
            flag(tree),
            flag(jail),
            flag(set),
            flag(synth),
            flag(options_dir_flag),
            staging_dir@,
        ),
        settled(final(world)@) ==> forall|f: Facts| #[trigger]
            extends(f, old(world)@.known) ==> settings_of(
                f,
                flag(tree),
                flag(jail),
                flag(set),
                flag(synth),
                flag(options_dir_flag),
                staging_dir@,
            ) == settings_result(r),
{
    if let Some(profile) = synth {
        return resolve_synth(
            world,
            "/usr/local/etc/synth",
            profile,
            tree.is_some(),
            options_dir_flag,
            staging_dir,
        );
    }
    let poudriere = "/usr/local/etc/poudriere.d";
    let tree_name = match tree {
        Some(t) => t,
        None => "default",
    };
    let portsdir = match resolve_portsdir(world, poudriere, tree_name) {
        Ok(p) => p,
        Err(e) => {
            return Err(e);
        },
    };
    let (options_dir, options_dir_is_new) = match resolve_target(
        world,
        jail,
        tree,
        set,
        options_dir_flag,
    ) {
        Ok(t) => t,
        Err(e) => {
            return Err(e);
        },
    };
    let make_conf = layer_make_conf(world, poudriere, jail, tree_name, set, staging_dir);
    let blacklist = Blacklist::load(world, poudriere, jail, tree_name, set);
    let s = Settings {
        portsdir,
        options_dir,
        options_dir_is_new,
        make_conf,
        blacklist,
        notes: Vec::new(),
    };
    assert(s@.notes =~= Seq::<Str>::empty());
    Ok(s)
}

// ---------------------------------------------------------------------
// What a resolution comes to
// ---------------------------------------------------------------------

/// The names of a layered file, for each way to give a jail and a set.
pub proof fn law_layer_names(j: Str, tree: Str, s: Str, file: Str)
    ensures
        layer_names(None, tree, None, file) == seq![file, tree + "-"@ + file],
        layer_names(None, tree, Some(s), file) == seq![
            file,
            s + "-"@ + file,
            tree + "-"@ + file,
            tree + "-"@ + (s + "-"@ + file),
        ],
        layer_names(Some(j), tree, None, file) == seq![
            file,
            tree + "-"@ + file,
            j + "-"@ + file,
            j + "-"@ + (tree + "-"@ + file),
        ],
        layer_names(Some(j), tree, Some(s), file) == seq![
            file,
            s + "-"@ + file,
            tree + "-"@ + file,
            j + "-"@ + file,
            tree + "-"@ + (s + "-"@ + file),
            j + "-"@ + (tree + "-"@ + file),
            j + "-"@ + (s + "-"@ + file),
            j + "-"@ + (tree + "-"@ + (s + "-"@ + file)),
        ],
{
}

/// The names of an options dir, for each way to give a jail and a set: the more
/// specific before the less specific.
pub proof fn law_candidate_names(j: Str, tree: Str, s: Str)
    ensures
        candidate_names(None, tree, None) == seq![tree + "-"@ + "options"@, "options"@],
        candidate_names(None, tree, Some(s)) == seq![
            tree + "-"@ + (s + "-"@ + "options"@),
            s + "-"@ + "options"@,
            tree + "-"@ + "options"@,
            "options"@,
        ],
        candidate_names(Some(j), tree, None) == seq![
            j + "-"@ + (tree + "-"@ + "options"@),
            tree + "-"@ + "options"@,
            j + "-"@ + "options"@,
            "options"@,
        ],
        candidate_names(Some(j), tree, Some(s)) == seq![
            j + "-"@ + (tree + "-"@ + (s + "-"@ + "options"@)),
            j + "-"@ + (s + "-"@ + "options"@),
            j + "-"@ + (tree + "-"@ + "options"@),
            tree + "-"@ + (s + "-"@ + "options"@),
            s + "-"@ + "options"@,
            tree + "-"@ + "options"@,
            j + "-"@ + "options"@,
            "options"@,
        ],
{
}

/// The first candidate that exists is the options dir, whichever come after it.
pub proof fn law_options_dir_found(
    f: Facts,
    dir: Str,
    jail: Option<Str>,
    tree: Str,
    tree_explicit: bool,
    set: Option<Str>,
    i: int,
)
    requires
        0 <= i < candidate_names(jail, tree, set).len(),
        dir_at(f, joined(dir, candidate_names(jail, tree, set)[i])),
        forall|k: int|
            0 <= k < i ==> !dir_at(f, joined(dir, #[trigger] candidate_names(jail, tree, set)[k])),
    ensures
        options_dir_of(f, dir, jail, tree, tree_explicit, set) == (
            joined(dir, candidate_names(jail, tree, set)[i]),
            false,
        ),
{
    let names = candidate_names(jail, tree, set);
    let ps = below(dir, names);
    let p = |p: Str| dir_at(f, p);
    assert forall|k: int| 0 <= k < i implies !p(#[trigger] ps[k]) by {
        assert(ps[k] == joined(dir, names[k]));
    }
    assert(ps[i] == joined(dir, names[i]));
    lemma_first_where_is(ps, p, i);
}

/// An options dir is said to be yet to be created exactly where it does not
/// exist, and its name is then made of what was given, in the order jail, tree,
/// set.
pub proof fn law_options_dir_new(
    f: Facts,
    dir: Str,
    jail: Option<Str>,
    tree: Str,
    tree_explicit: bool,
    set: Option<Str>,
)
    ensures
        ({
            let (d, is_new) = options_dir_of(f, dir, jail, tree, tree_explicit, set);
            &&& is_new <==> !dir_at(f, d)
            &&& is_new && jail is Some && tree_explicit && set is Some ==> d == joined(
                dir,
                jail->0 + "-"@ + tree + "-"@ + set->0 + "-options"@,
            )
            &&& is_new && jail is Some && !tree_explicit && set is None ==> d == joined(
                dir,
                jail->0 + "-options"@,
            )
            &&& is_new && jail is None && !tree_explicit && set is Some ==> d == joined(
                dir,
                set->0 + "-options"@,
            )
            &&& is_new && jail is None && !tree_explicit && set is None ==> d == joined(
                dir,
                "options"@,
            )
        }),
{
    reveal_strlit("-");
    reveal_strlit("options");
    reveal_strlit("-options");
    let names = candidate_names(jail, tree, set);
    let ps = below(dir, names);
    let p = |p: Str| dir_at(f, p);
    crate::list::lemma_first_where(ps, p);
    let given = if tree_explicit {
        Some(tree)
    } else {
        None
    };
    let made = created_name(jail, given, set);
    let j = jail->0;
    let s = set->0;
    let o = "options"@;
    law_candidate_names(j, tree, s);
    let n: int = if jail is Some && set is Some {
        if tree_explicit {
            0
        } else {
            1
        }
    } else if jail is Some {
        if tree_explicit {
            0
        } else {
            2
        }
    } else if set is Some {
        if tree_explicit {
            0
        } else {
            1
        }
    } else if tree_explicit {
        0
    } else {
        1
    };
    assert(made =~= names[n]);
    assert(ps[n] == joined(dir, made));
    if jail is Some && tree_explicit && set is Some {
        assert(made =~= j + "-"@ + tree + "-"@ + s + "-options"@);
    }
    if jail is Some && !tree_explicit && set is None {
        assert(made =~= j + "-options"@);
    }
    if jail is None && !tree_explicit && set is Some {
        assert(made =~= s + "-options"@);
    }
    if jail is None && !tree_explicit && set is None {
        assert(made =~= o);
    }
}

/// A layered file grows by one layer at a time: a readable one is added at the
/// end, below a line that names it and ended by a line feed, and another adds
/// nothing.
pub proof fn law_conf_layer(f: Facts, paths: Seq<Str>, p: Str, staging: Str)
    ensures
        ({
            let before = conf_of(f, paths, staging);
            let after = conf_of(f, paths.push(p), staging);
            match text_at(f, p) {
                None => after.text == before.text && after.sources == before.sources,
                Some(t) => {
                    &&& after.sources == before.sources.push(p)
                    &&& after.path == Some(joined(staging, "make.conf"@))
                    &&& t.len() > 0 && t.last() == '\n' ==> after.text == before.text + "# --- "@
                        + p + " ---\n"@ + t
                    &&& t.len() > 0 && t.last() != '\n' ==> after.text == before.text + "# --- "@
                        + p + " ---\n"@ + t + "\n"@
                },
            }
        }),
        conf_of(f, Seq::empty(), staging).text == Seq::<char>::empty(),
        conf_of(f, Seq::empty(), staging).path is None,
        conf_of(f, paths, staging).hash == text_hash(conf_of(f, paths, staging).text),
{
    reveal_strlit("\n");
    let q = |p: Str| text_at(f, p) is Some;
    let all = paths.push(p);
    assert(all.drop_last() =~= paths);
    reveal(Seq::filter);
    assert(all.filter(q) == if q(p) {
        paths.filter(q).push(p)
    } else {
        paths.filter(q)
    });
    assert(Seq::<Str>::empty().filter(q) =~= Seq::<Str>::empty());
    if let Some(t) = text_at(f, p) {
        if t.len() > 0 {
            assert(t.skip(t.len() - 1) =~= seq![t.last()]);
            assert("\n"@ =~= seq!['\n']);
            if t.last() != '\n' {
                assert(t.skip(t.len() - 1)[0] != "\n"@[0]);
            } else {
                let nothing = Seq::<char>::empty();
                let before = conf_text(f, paths);
                assert(before + "# --- "@ + p + " ---\n"@ + t + nothing =~= before + "# --- "@ + p
                    + " ---\n"@ + t);
            }
        }
    }
}

/// Every readable layer of a blacklist counts: what one more layer names is
/// blacklisted too, and nothing is taken back.
pub proof fn law_blacklist_layers(f: Facts, paths: Seq<Str>, p: Str, origin: Str)
    ensures
        ({
            let before = blacklist_from(f, paths);
            let after = blacklist_from(f, paths.push(p));
            match text_at(f, p) {
                None => after == before,
                Some(t) => {
                    &&& after.sources == before.sources.push(p)
                    &&& blacklisted(after, origin) <==> blacklisted(before, origin) || exists|i: int|
                        0 <= i < patterns_in(lines(t)).len() && glob(
                            #[trigger] patterns_in(lines(t))[i],
                            origin,
                        )
                },
            }
        }),
        !blacklisted(blacklist_from(f, Seq::empty()), origin),
{
    let all = paths.push(p);
    assert(all.drop_last() =~= paths);
    let before = blacklist_from(f, paths);
    let after = blacklist_from(f, all);
    if let Some(t) = text_at(f, p) {
        let more = patterns_in(lines(t));
        let n = before.patterns.len();
        if blacklisted(before, origin) {
            let i = choose|i: int|
                0 <= i < before.patterns.len() && glob(#[trigger] before.patterns[i], origin);
            assert(glob(after.patterns[i], origin));
        }
        if exists|i: int| 0 <= i < more.len() && glob(#[trigger] more[i], origin) {
            let i = choose|i: int| 0 <= i < more.len() && glob(#[trigger] more[i], origin);
            assert(glob(after.patterns[n + i], origin));
        }
        if blacklisted(after, origin) {
            let i = choose|i: int|
                0 <= i < after.patterns.len() && glob(#[trigger] after.patterns[i], origin);
            if i < n {
                assert(glob(before.patterns[i], origin));
            } else {
                assert(glob(more[i - n], origin));
            }
        }
    }
}

/// A line of a blacklist adds what stands before a `#`, without the white space
/// around it, and nothing where that is empty.
pub proof fn law_blacklist_line(ls: Seq<Str>, entry: Str, after: Str, comment: Str)
    requires
        forall|i: int| 0 <= i < entry.len() ==> #[trigger] entry[i] != '#' && !space(entry[i]),
        forall|i: int| 0 <= i < after.len() ==> space(#[trigger] after[i]),
    ensures
        entry.len() > 0 ==> patterns_in(ls.push(entry + after)) == patterns_in(ls).push(entry),
        entry.len() > 0 ==> patterns_in(ls.push((entry + after).push('#') + comment))
            == patterns_in(ls).push(entry),
        patterns_in(ls.push(after)) == patterns_in(ls),
        patterns_in(ls.push(after.push('#') + comment)) == patterns_in(ls),
{
    let none = Seq::<char>::empty();
    assert forall|i: int| 0 <= i < (entry + after).len() implies #[trigger] (entry + after)[i]
        != '#' by {
        if i < entry.len() {
            assert(entry[i] != '#');
        } else {
            assert(space(after[i - entry.len()]));
        }
    }
    assert forall|i: int| 0 <= i < after.len() implies #[trigger] after[i] != '#' by {
        assert(space(after[i]));
    }
    law_cut(entry + after, '#', comment);
    law_cut(after, '#', comment);
    if entry.len() > 0 {
        assert(!space(entry[0]) && !space(entry[entry.len() - 1]));
    }
    law_trim(none, entry, after);
    law_trim(none, none, after);
    assert(none + entry + after =~= entry + after);
    assert(none + none + after =~= after);
    assert(ls.push(entry + after).drop_last() =~= ls);
    assert(ls.push((entry + after).push('#') + comment).drop_last() =~= ls);
    assert(ls.push(after).drop_last() =~= ls);
    assert(ls.push(after.push('#') + comment).drop_last() =~= ls);
}

/// A comment of synth.ini begins at the first `;` or `#`, and white space around
/// what is left of a line does not count.
pub proof fn law_ini_comment(s: Str, c: char, rest: Str)
    requires
        forall|i: int| 0 <= i < s.len() ==> #[trigger] s[i] != ';' && s[i] != '#',
        c == ';' || c == '#',
    ensures
        ini_line(s.push(c) + rest) == trim(s),
        ini_line(s) == trim(s),
{
    let l = s.push(c) + rest;
    let n = s.len() as int;
    lemma_first(l, ';');
    lemma_first(l, '#');
    lemma_first_is(s, ';', n);
    lemma_first_is(s, '#', n);
    assert(l[n] == c);
    assert forall|i: int| 0 <= i < n implies #[trigger] l[i] != ';' && l[i] != '#' by {
        assert(l[i] == s[i]);
    }
    if c == ';' {
        lemma_first_is(l, ';', n);
        if first(l, '#') < n {
            assert(l[first(l, '#')] != '#');
        }
    } else {
        lemma_first_is(l, '#', n);
        if first(l, ';') < n {
            assert(l[first(l, ';')] != ';');
        }
    }
    assert(l.take(n) =~= s);
    assert(s.take(n) =~= s);
}

/// A name in square brackets opens a section, and changes nothing that was found
/// before.
pub proof fn law_ini_header(ls: Seq<Str>, line: Str, name: Str, profile: Str, key: Str)
    requires
        ini_line(line) == "["@ + name + "]"@,
        trim(name) == name,
    ensures
        ini_lines(ls.push(line), profile, key) == (IniView {
            section: name,
            ..ini_lines(ls, profile, key)
        }),
{
    reveal_strlit("[");
    reveal_strlit("]");
    let t = "["@ + name + "]"@;
    assert(ls.push(line).drop_last() =~= ls);
    assert(t.take(1) =~= "["@);
    let inner = t.skip(1);
    assert(inner =~= name + "]"@);
    assert(inner.skip(inner.len() - 1) =~= "]"@);
    assert(inner.take(inner.len() - 1) =~= name);
}

/// A value counts in the section it stands in: there the first that a key is
/// given stays, in other sections than the profile's and the global one none
/// counts, and neither does an empty one.
pub proof fn law_ini_value(ls: Seq<Str>, line: Str, k: Str, v: Str, profile: Str, key: Str)
    requires
        ini_line(line) == k.push('=') + v,
        forall|i: int| 0 <= i < k.len() ==> #[trigger] k[i] != '=',
        k.len() > 0,
        k[0] != '[',
    ensures
        ({
            let before = ini_lines(ls, profile, key);
            let after = ini_lines(ls.push(line), profile, key);
            let counts = trim(k) == key && trim(v).len() > 0;
            &&& after.section == before.section
            &&& before.in_profile is Some ==> after.in_profile == before.in_profile
            &&& before.in_global is Some ==> after.in_global == before.in_global
            &&& counts && before.section == profile && before.in_profile is None
                ==> after.in_profile == Some(trim(v))
            &&& counts && before.section == "Global Configuration"@ && profile
                != "Global Configuration"@ && before.in_global is None ==> after.in_global == Some(
                trim(v),
            )
            &&& !counts || before.section != profile ==> after.in_profile == before.in_profile
            &&& !counts || before.section != "Global Configuration"@ ==> after.in_global
                == before.in_global
        }),
{
    reveal_strlit("[");
    assert(ls.push(line).drop_last() =~= ls);
    let t = k.push('=') + v;
    law_cut(k, '=', v);
    if starts(t, "["@) {
        assert(t.take(1)[0] == t[0]);
        assert(t[0] == k[0]);
    }
}

/// The value for a profile is the one of its own section, and the global one
/// only where its section has none.
pub proof fn law_ini_lookup(text: Str, profile: Str, key: Str)
    ensures
        ({
            let s = ini_lines(lines(text), profile, key);
            &&& s.in_profile is Some ==> ini_lookup(text, profile, key) == s.in_profile
            &&& s.in_profile is None ==> ini_lookup(text, profile, key) == s.in_global
        }),
        ini_lines(Seq::empty(), profile, key) == (IniView {
            section: Seq::empty(),
            in_profile: None,
            in_global: None,
        }),
{
}

/// Whatever the backend, the ports tree of resolved settings carries the ports
/// framework, an options dir that was asked for is the one, and a dir is said to
/// be new exactly where it does not exist.
pub proof fn law_settings(
    f: Facts,
    tree: Option<Str>,
    jail: Option<Str>,
    set: Option<Str>,
    synth: Option<Str>,
    asked_dir: Option<Str>,
    staging: Str,
)
    ensures
        settings_of(f, tree, jail, set, synth, asked_dir, staging) matches Ok(s) ==> {
            &&& file_at(f, joined(s.portsdir, "Mk/bsd.port.mk"@))
            &&& asked_dir is Some ==> s.options_dir == asked_dir->0
            &&& s.options_dir_is_new <==> !dir_at(f, s.options_dir)
            &&& synth is Some ==> s.blacklist.patterns.len() == 0
            &&& synth is None ==> s.notes.len() == 0
        },
        synth is None && asked_dir is None && !dir_at(f, "/usr/local/etc/poudriere.d"@) && (jail
            is Some || set is Some) ==> settings_of(f, tree, jail, set, synth, asked_dir, staging)
            is Err,
        synth is None && asked_dir is None && !dir_at(f, "/usr/local/etc/poudriere.d"@) && jail
            is None && set is None ==> (settings_of(f, tree, jail, set, synth, asked_dir, staging)
            matches Ok(s) ==> s.options_dir == "/var/db/ports"@),
{
    if synth is None && asked_dir is None {
        law_options_dir_new(f, poudriere_d(), jail, tree_or_default(tree), tree is Some, set);
    }
}

/// The ports tree of a poudriere tree name is what its `mnt` file names, and
/// /usr/ports only where there is no such file; either has to be a ports tree.
pub proof fn law_portsdir(f: Facts, dir: Str, tree: Str)
    ensures
        ({
            let r = portsdir_of(f, dir, tree);
            let is_tree = |d: Str| file_at(f, joined(d, "Mk/bsd.port.mk"@));
            match text_at(f, joined(joined(joined(dir, "ports"@), tree), "mnt"@)) {
                Some(t) => if is_tree(trim(t)) {
                    r == Ok::<Str, Str>(trim(t))
                } else {
                    r is Err
                },
                None => if is_tree("/usr/ports"@) {
                    r == Ok::<Str, Str>("/usr/ports"@)
                } else {
                    r is Err
                },
            }
        }),
{
}

/// What a synth profile resolves to: the setting of the profile for each
/// directory, or the system's own where there is none; its own make.conf and no
/// other layer; and without a name the profile that synth has selected.
pub proof fn law_synth(
    f: Facts,
    dir: Str,
    asked_profile: Str,
    tree_explicit: bool,
    asked_dir: Option<Str>,
    staging: Str,
    ini: Str,
)
    requires
        text_at(f, joined(dir, "synth.ini"@)) == Some(ini),
    ensures
        synth_settings(f, dir, asked_profile, tree_explicit, asked_dir, staging) matches Ok(s) ==> {
            let chosen = if asked_profile.len() > 0 {
                asked_profile
            } else {
                match ini_lookup(ini, "Global Configuration"@, "profile_selected"@) {
                    Some(p) => p,
                    None => "LiveSystem"@,
                }
            };
            &&& s.portsdir == match ini_lookup(ini, chosen, "Directory_portsdir"@) {
                Some(d) => d,
                None => "/usr/ports"@,
            }
            &&& asked_dir is None ==> s.options_dir == match ini_lookup(
                ini,
                chosen,
                "Directory_options"@,
            ) {
                Some(d) => d,
                None => "/var/db/ports"@,
            }
            &&& s.make_conf == conf_of(f, seq![joined(dir, chosen + "-"@ + "make.conf"@)], staging)
        },
{
}

/// Under poudriere every layer of the jail, the tree and the set counts, for
/// make.conf and for the blacklist alike; a tree that is not named is the default
/// one, which a new options dir is not named after.
pub proof fn law_poudriere(
    f: Facts,
    tree: Option<Str>,
    jail: Option<Str>,
    set: Option<Str>,
    asked_dir: Option<Str>,
    staging: Str,
)
    ensures
        settings_of(f, tree, jail, set, None, asked_dir, staging) matches Ok(s) ==> {
            let dir = "/usr/local/etc/poudriere.d"@;
            let name = if tree is Some {
                tree->0
            } else {
                "default"@
            };
            &&& s.make_conf == conf_of(
                f,
                below(dir, layer_names(jail, name, set, "make.conf"@)),
                staging,
            )
            &&& s.blacklist == blacklist_from(
                f,
                below(dir, layer_names(jail, name, set, "blacklist"@)),
            )
            &&& portsdir_of(f, dir, name) == Ok::<Str, Str>(s.portsdir)
            &&& asked_dir is None && dir_at(f, dir) ==> (s.options_dir, s.options_dir_is_new)
                == options_dir_of(f, dir, jail, name, tree is Some, set)
        },
{
}

/// What is remarked of a synth resolution: which profile was selected where none
/// was named, a tree name that does not apply, a profile without a section, and an
/// options dir that is the live one; and nothing else.
pub proof fn law_synth_notes(ini: Str, asked_profile: Str, tree_explicit: bool, dir: Str)
    ensures
        ({
            let notes = synth_notes(ini, asked_profile, tree_explicit, dir);
            let bare = asked_profile.len() == 0;
            let lost = ini.len() > 0 && !ini_has_section(ini, synth_profile(ini, asked_profile));
            let live = path_parts(dir) == path_parts("/var/db/ports"@);
            &&& notes.len() == (if bare {
                1int
            } else {
                0
            }) + (if tree_explicit {
                1int
            } else {
                0
            }) + (if lost {
                1int
            } else {
                0
            }) + (if live {
                1int
            } else {
                0
            })
            &&& bare ==> notes[0] == "synth profile "@ + synth_profile(ini, asked_profile)
                + " (synth.ini profile_selected)"@
            &&& !bare && tree_explicit ==> notes[0]
                == "-p is a poudriere tree name; synth uses Directory_portsdir"@
            &&& live ==> notes.last() == live_dir_note()
        }),
        ini_has_section(ini, asked_profile) <==> exists|i: int|
            0 <= i < lines(ini).len() && ini_section(ini_line(#[trigger] lines(ini)[i])) == Some(
                asked_profile,
            ),
{
}

} // verus!
