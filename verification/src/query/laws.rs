//! What a dump says of a port, line by line.
//!
//! Each law takes a dump that describes a port and adds a line to it.
use vstd::prelude::*;

use crate::model::options::{blank_def, blank_options, DefView, DepsView, GroupKind, GroupView};
use crate::model::options::OptionsView;
use crate::model::origin::{key_of, key_text, KeyView};
use crate::model::port::{EdgeView, InfoView};
use crate::query::parse::{blank_dump, class_index, dedup, dump_field, dump_lines, dump_result};
use crate::query::parse::{dump_step, edge_of, edges_of, entry_name, entry_names, first_key};
use crate::query::parse::{group_index, halves, DumpView};
use crate::text::{after_first, cut, holds, lemma_blank, lemma_first_is, lemma_lead};
use crate::text::{lemma_lines_push, lemma_tail_end, line_ended, lines, occurs, occurs_first};
use crate::text::{pieces, tail_end, trim, trim_start, words, Str};

verus! {

/// Whether a line says something: the first `OPTIQUE|` in it is followed by a
/// tag, a `|` and a value.
pub open spec fn says(line: Str, n: int, tag: Str, value: Str) -> bool {
    &&& 0 <= n && n + 8 <= line.len()
    &&& line.subrange(n, n + 8) == "OPTIQUE|"@
    &&& forall|m: int| 0 <= m < n ==> #[trigger] line.subrange(m, m + 8) != "OPTIQUE|"@
    &&& forall|i: int| 0 <= i < tag.len() ==> #[trigger] tag[i] != '|'
    &&& line.skip(n + 8) == tag + "|"@ + value
    &&& forall|i: int| 0 <= i < line.len() ==> #[trigger] line[i] != '\n'
    &&& line.last() != '\r'
}

proof fn lemma_line_says(d: DumpView, line: Str, n: int, tag: Str, value: Str)
    requires
        says(line, n, tag, value),
    ensures
        dump_step(d, line) == dump_field(DumpView { seen: true, ..d }, tag, value),
{
    reveal_strlit("OPTIQUE|");
    reveal_strlit("|");
    let p = "OPTIQUE|"@;
    assert(occurs(line, p, n));
    assert(holds(line, p));
    assert forall|j: int| 0 <= j < n implies !occurs(line, p, j) by {
        assert(line.subrange(j, j + 8) != p);
    }
    assert(occurs_first(line, p, n));
    let i = choose|i: int| occurs_first(line, p, i);
    if i < n {
        assert(!occurs(line, p, i));
    } else if n < i {
        assert(!occurs(line, p, n));
    }
    let rest = line.skip(n + 8);
    assert(after_first(line, p) == Some(rest));
    assert forall|j: int| 0 <= j < tag.len() implies #[trigger] rest[j] != '|' by {
        assert(rest[j] == tag[j]);
    }
    lemma_first_is(rest, '|', tag.len() as int);
    assert(rest.take(tag.len() as int) =~= tag);
    assert(rest.skip(tag.len() as int + 1) =~= value);
    assert(halves(rest) == (tag, value));
}

/// What one more line does to what was read.
proof fn lemma_dump_line(text: Str, line: Str, n: int, tag: Str, value: Str)
    requires
        line_ended(text),
        says(line, n, tag, value),
    ensures
        dump_lines(lines(text + line + "\n"@)) == dump_field(
            DumpView { seen: true, ..dump_lines(lines(text)) },
            tag,
            value,
        ),
{
    lemma_lines_push(text, line);
    let ls = lines(text).push(line);
    assert(ls.drop_last() =~= lines(text));
    lemma_line_says(dump_lines(lines(text)), line, n, tag, value);
}

/// A `name|rest` value falls apart at its first `|`.
proof fn lemma_halves(name: Str, rest: Str)
    requires
        forall|i: int| 0 <= i < name.len() ==> #[trigger] name[i] != '|',
    ensures
        cut(name + "|"@ + rest, '|') == Some((name, rest)),
{
    reveal_strlit("|");
    let s = name + "|"@ + rest;
    assert forall|i: int| 0 <= i < name.len() implies #[trigger] s[i] != '|' by {
        assert(s[i] == name[i]);
    }
    lemma_first_is(s, '|', name.len() as int);
    assert(s.take(name.len() as int) =~= name);
    assert(s.skip(name.len() as int + 1) =~= rest);
}

/// The tags by what tells them apart.
proof fn lemma_tags()
    ensures
        "GROUP"@.len() == 5,
        "GROUP"@[0] == 'G',
        "GROUP"@[1] == 'R',
        "GROUP"@[2] == 'O',
        "GROUP"@[4] == 'P',
        "SINGLE"@.len() == 6,
        "SINGLE"@[0] == 'S',
        "SINGLE"@[1] == 'I',
        "SINGLE"@[2] == 'N',
        "SINGLE"@[4] == 'L',
        "RADIO"@.len() == 5,
        "RADIO"@[0] == 'R',
        "RADIO"@[1] == 'A',
        "RADIO"@[2] == 'D',
        "RADIO"@[4] == 'O',
        "MULTI"@.len() == 5,
        "MULTI"@[0] == 'M',
        "MULTI"@[1] == 'U',
        "MULTI"@[2] == 'L',
        "MULTI"@[4] == 'I',
        "COMPLETE"@.len() == 8,
        "COMPLETE"@[0] == 'C',
        "COMPLETE"@[1] == 'O',
        "COMPLETE"@[2] == 'M',
        "COMPLETE"@[4] == 'L',
        "DEFAULT"@.len() == 7,
        "DEFAULT"@[0] == 'D',
        "DEFAULT"@[1] == 'E',
        "DEFAULT"@[2] == 'F',
        "DEFAULT"@[4] == 'U',
        "PORT_OPTIONS"@.len() == 12,
        "PORT_OPTIONS"@[0] == 'P',
        "PORT_OPTIONS"@[1] == 'O',
        "PORT_OPTIONS"@[2] == 'R',
        "PORT_OPTIONS"@[4] == '_',
        "MC_SET"@.len() == 6,
        "MC_SET"@[0] == 'M',
        "MC_SET"@[1] == 'C',
        "MC_SET"@[2] == '_',
        "MC_SET"@[4] == 'E',
        "MC_UNSET"@.len() == 8,
        "MC_UNSET"@[0] == 'M',
        "MC_UNSET"@[1] == 'C',
        "MC_UNSET"@[2] == '_',
        "MC_UNSET"@[4] == 'N',
        "PORT_SET"@.len() == 8,
        "PORT_SET"@[0] == 'P',
        "PORT_SET"@[1] == 'O',
        "PORT_SET"@[2] == 'R',
        "PORT_SET"@[4] == '_',
        "PORT_UNSET"@.len() == 10,
        "PORT_UNSET"@[0] == 'P',
        "PORT_UNSET"@[1] == 'O',
        "PORT_UNSET"@[2] == 'R',
        "PORT_UNSET"@[4] == '_',
        "FORCE_SET"@.len() == 9,
        "FORCE_SET"@[0] == 'F',
        "FORCE_SET"@[1] == 'O',
        "FORCE_SET"@[2] == 'R',
        "FORCE_SET"@[4] == 'E',
        "FORCE_UNSET"@.len() == 11,
        "FORCE_UNSET"@[0] == 'F',
        "FORCE_UNSET"@[1] == 'O',
        "FORCE_UNSET"@[2] == 'R',
        "FORCE_UNSET"@[4] == 'E',
        "PORT_FORCE_SET"@.len() == 14,
        "PORT_FORCE_SET"@[0] == 'P',
        "PORT_FORCE_SET"@[1] == 'O',
        "PORT_FORCE_SET"@[2] == 'R',
        "PORT_FORCE_SET"@[4] == '_',
        "PORT_FORCE_UNSET"@.len() == 16,
        "PORT_FORCE_UNSET"@[0] == 'P',
        "PORT_FORCE_UNSET"@[1] == 'O',
        "PORT_FORCE_UNSET"@[2] == 'R',
        "PORT_FORCE_UNSET"@[4] == '_',
        "DESC"@.len() == 4,
        "DESC"@[0] == 'D',
        "DESC"@[1] == 'E',
        "DESC"@[2] == 'S',
        "IMPLIES"@.len() == 7,
        "IMPLIES"@[0] == 'I',
        "IMPLIES"@[1] == 'M',
        "IMPLIES"@[2] == 'P',
        "IMPLIES"@[4] == 'I',
        "PREVENTS"@.len() == 8,
        "PREVENTS"@[0] == 'P',
        "PREVENTS"@[1] == 'R',
        "PREVENTS"@[2] == 'E',
        "PREVENTS"@[4] == 'E',
        "PREVENTS_MSG"@.len() == 12,
        "PREVENTS_MSG"@[0] == 'P',
        "PREVENTS_MSG"@[1] == 'R',
        "PREVENTS_MSG"@[2] == 'E',
        "PREVENTS_MSG"@[4] == 'E',
        "OPT_BROKEN"@.len() == 10,
        "OPT_BROKEN"@[0] == 'O',
        "OPT_BROKEN"@[1] == 'P',
        "OPT_BROKEN"@[2] == 'T',
        "OPT_BROKEN"@[4] == 'B',
        "OPT_IGNORE"@.len() == 10,
        "OPT_IGNORE"@[0] == 'O',
        "OPT_IGNORE"@[1] == 'P',
        "OPT_IGNORE"@[2] == 'T',
        "OPT_IGNORE"@[4] == 'I',
        "OPT_DEP"@.len() == 7,
        "OPT_DEP"@[0] == 'O',
        "OPT_DEP"@[1] == 'P',
        "OPT_DEP"@[2] == 'T',
        "OPT_DEP"@[4] == 'D',
        "PKGNAME"@.len() == 7,
        "PKGNAME"@[0] == 'P',
        "PKGNAME"@[1] == 'K',
        "PKGNAME"@[2] == 'G',
        "PKGNAME"@[4] == 'A',
        "FLAVORS"@.len() == 7,
        "FLAVORS"@[0] == 'F',
        "FLAVORS"@[1] == 'L',
        "FLAVORS"@[2] == 'A',
        "FLAVORS"@[4] == 'O',
        "FLAVOR"@.len() == 6,
        "FLAVOR"@[0] == 'F',
        "FLAVOR"@[1] == 'L',
        "FLAVOR"@[2] == 'A',
        "FLAVOR"@[4] == 'O',
        "OPTIONS_NAME"@.len() == 12,
        "OPTIONS_NAME"@[0] == 'O',
        "OPTIONS_NAME"@[1] == 'P',
        "OPTIONS_NAME"@[2] == 'T',
        "OPTIONS_NAME"@[4] == 'O',
        "DEPENDS"@.len() == 7,
        "DEPENDS"@[0] == 'D',
        "DEPENDS"@[1] == 'E',
        "DEPENDS"@[2] == 'P',
        "DEPENDS"@[4] == 'N',
        "DEFAULT_VERSIONS"@.len() == 16,
        "DEFAULT_VERSIONS"@[0] == 'D',
        "DEFAULT_VERSIONS"@[1] == 'E',
        "DEFAULT_VERSIONS"@[2] == 'F',
        "DEFAULT_VERSIONS"@[4] == 'U',
        "BROKEN"@.len() == 6,
        "BROKEN"@[0] == 'B',
        "BROKEN"@[1] == 'R',
        "BROKEN"@[2] == 'O',
        "BROKEN"@[4] == 'E',
        "IGNORE"@.len() == 6,
        "IGNORE"@[0] == 'I',
        "IGNORE"@[1] == 'G',
        "IGNORE"@[2] == 'N',
        "IGNORE"@[4] == 'R',
        "DEPRECATED"@.len() == 10,
        "DEPRECATED"@[0] == 'D',
        "DEPRECATED"@[1] == 'E',
        "DEPRECATED"@[2] == 'P',
        "DEPRECATED"@[4] == 'E',
        "PKG_HELP"@.len() == 8,
        "PKG_HELP"@[0] == 'P',
        "PKG_HELP"@[1] == 'K',
        "PKG_HELP"@[2] == 'G',
        "PKG_HELP"@[4] == 'H',
{
    reveal_strlit("GROUP");
    reveal_strlit("SINGLE");
    reveal_strlit("RADIO");
    reveal_strlit("MULTI");
    reveal_strlit("COMPLETE");
    reveal_strlit("DEFAULT");
    reveal_strlit("PORT_OPTIONS");
    reveal_strlit("MC_SET");
    reveal_strlit("MC_UNSET");
    reveal_strlit("PORT_SET");
    reveal_strlit("PORT_UNSET");
    reveal_strlit("FORCE_SET");
    reveal_strlit("FORCE_UNSET");
    reveal_strlit("PORT_FORCE_SET");
    reveal_strlit("PORT_FORCE_UNSET");
    reveal_strlit("DESC");
    reveal_strlit("IMPLIES");
    reveal_strlit("PREVENTS");
    reveal_strlit("PREVENTS_MSG");
    reveal_strlit("OPT_BROKEN");
    reveal_strlit("OPT_IGNORE");
    reveal_strlit("OPT_DEP");
    reveal_strlit("PKGNAME");
    reveal_strlit("FLAVORS");
    reveal_strlit("FLAVOR");
    reveal_strlit("OPTIONS_NAME");
    reveal_strlit("DEPENDS");
    reveal_strlit("DEFAULT_VERSIONS");
    reveal_strlit("BROKEN");
    reveal_strlit("IGNORE");
    reveal_strlit("DEPRECATED");
    reveal_strlit("PKG_HELP");
}

/// A `GROUP`, `SINGLE`, `RADIO` or `MULTI` line adds a group of that kind, with
/// the name and the members it gives, behind the groups that are there.
pub proof fn law_dump_group(
    requested: KeyView,
    text: Str,
    a: InfoView,
    line: Str,
    n: int,
    tag: Str,
    name: Str,
    members: Str,
)
    requires
        line_ended(text),
        dump_result(requested, text) == Ok::<InfoView, Str>(a),
        says(line, n, tag, name + "|"@ + members),
        forall|i: int| 0 <= i < name.len() ==> #[trigger] name[i] != '|',
    ensures
        ({
            let r = dump_result(requested, text + line + "\n"@);
            let with = |kind: GroupKind|
                InfoView {
                    options: OptionsView {
                        groups: a.options.groups.push(
                            GroupView {
                                kind,
                                name: trim(name),
                                desc: Seq::empty(),
                                members: words(members),
                            },
                        ),
                        ..a.options
                    },
                    ..a
                };
            &&& tag == "GROUP"@ ==> r == Ok::<InfoView, Str>(with(GroupKind::Group))
            &&& tag == "SINGLE"@ ==> r == Ok::<InfoView, Str>(with(GroupKind::Single))
            &&& tag == "RADIO"@ ==> r == Ok::<InfoView, Str>(with(GroupKind::Radio))
            &&& tag == "MULTI"@ ==> r == Ok::<InfoView, Str>(with(GroupKind::Multi))
        }),
{
    lemma_dump_line(text, line, n, tag, name + "|"@ + members);
    lemma_halves(name, members);
    lemma_tags();
}

/// The lines that give sets of options each fill their own layer, with just the
/// words of the line: the defaults, what make has on, and the make.conf knobs,
/// global and per port, plain and FORCE, on and off.
pub proof fn law_dump_layers(
    requested: KeyView,
    text: Str,
    a: InfoView,
    line: Str,
    n: int,
    tag: Str,
    value: Str,
)
    requires
        line_ended(text),
        dump_result(requested, text) == Ok::<InfoView, Str>(a),
        says(line, n, tag, value),
    ensures
        ({
            let r = dump_result(requested, text + line + "\n"@);
            let o = a.options;
            let given = Set::new(|x: Str| words(value).contains(x));
            let with = |options: OptionsView| Ok::<InfoView, Str>(InfoView { options, ..a });
            &&& tag == "DEFAULT"@ ==> r == with(OptionsView { defaults: given, ..o })
            &&& tag == "PORT_OPTIONS"@ ==> r == with(OptionsView { effective: given, ..o })
            &&& tag == "MC_SET"@ ==> r == with(OptionsView { mc_set: given, ..o })
            &&& tag == "MC_UNSET"@ ==> r == with(OptionsView { mc_unset: given, ..o })
            &&& tag == "PORT_SET"@ ==> r == with(OptionsView { port_set: given, ..o })
            &&& tag == "PORT_UNSET"@ ==> r == with(OptionsView { port_unset: given, ..o })
            &&& tag == "FORCE_SET"@ ==> r == with(OptionsView { force_set: given, ..o })
            &&& tag == "FORCE_UNSET"@ ==> r == with(OptionsView { force_unset: given, ..o })
            &&& tag == "PORT_FORCE_SET"@ ==> r == with(OptionsView { port_force_set: given, ..o })
            &&& tag == "PORT_FORCE_UNSET"@ ==> r == with(
                OptionsView { port_force_unset: given, ..o },
            )
        }),
{
    lemma_dump_line(text, line, n, tag, value);
    let given = Set::new(|x: Str| words(value).contains(x));
    assert(words(value).to_set() =~= given);
    lemma_tags();
}

/// Words with repetitions dropped: the same words, each once, in the order in
/// which they first come.
pub proof fn law_dedup(ws: Seq<Str>)
    ensures
        dedup(ws).no_duplicates(),
        forall|x: Str| #[trigger] dedup(ws).contains(x) <==> ws.contains(x),
    decreases ws.len(),
{
    if ws.len() > 0 {
        let d = ws.drop_last();
        law_dedup(d);
        let e = dedup(d);
        let f = dedup(ws);
        assert(ws[ws.len() - 1] == ws.last());
        assert(forall|x: Str| d.contains(x) ==> ws.contains(x)) by {
            assert forall|x: Str| d.contains(x) implies ws.contains(x) by {
                let i = choose|i: int| 0 <= i < d.len() && d[i] == x;
                assert(ws[i] == x);
            }
        }
        assert forall|x: Str| #[trigger] f.contains(x) <==> ws.contains(x) by {
            if f.contains(x) {
                let i = choose|i: int| 0 <= i < f.len() && f[i] == x;
                if i < e.len() {
                    assert(e[i] == x);
                    assert(e.contains(x));
                }
            }
            if ws.contains(x) {
                let i = choose|i: int| 0 <= i < ws.len() && ws[i] == x;
                if i < d.len() {
                    assert(d[i] == x);
                    assert(d.contains(x));
                    assert(e.contains(x));
                    let j = choose|j: int| 0 <= j < e.len() && e[j] == x;
                    assert(f[j] == x);
                } else if d.contains(x) {
                    assert(e.contains(x));
                    let j = choose|j: int| 0 <= j < e.len() && e[j] == x;
                    assert(f[j] == x);
                } else {
                    assert(f[f.len() - 1] == x);
                }
            }
        }
        assert(f.no_duplicates()) by {
            if !d.contains(ws.last()) {
                assert(!e.contains(ws.last()));
            }
        }
    }
}

/// Of two words that stay, the one that stays first comes before every place of
/// the other.
pub proof fn law_dedup_order(ws: Seq<Str>, i: int, j: int, m: int) -> (l: int)
    requires
        0 <= i < j < dedup(ws).len(),
        0 <= m < ws.len(),
        ws[m] == dedup(ws)[j],
    ensures
        0 <= l < m,
        ws[l] == dedup(ws)[i],
    decreases ws.len(),
{
    let d = ws.drop_last();
    let e = dedup(d);
    law_dedup(d);
    if m < d.len() {
        if j < e.len() {
            law_dedup_order(d, i, j, m)
        } else {
            assert(d[m] == ws.last());
            assert(d.contains(ws.last()));
            0
        }
    } else {
        assert(e.contains(e[i]));
        assert(d.contains(e[i]));
        choose|l: int| 0 <= l < d.len() && d[l] == e[i]
    }
}

/// The lines on the port itself. A `COMPLETE` line gives the options it has, in
/// order and without repetitions; the rest give the field they name, without
/// white space around it, or none where it is blank.
pub proof fn law_dump_port(
    requested: KeyView,
    text: Str,
    a: InfoView,
    line: Str,
    n: int,
    tag: Str,
    value: Str,
)
    requires
        line_ended(text),
        dump_result(requested, text) == Ok::<InfoView, Str>(a),
        says(line, n, tag, value),
    ensures
        ({
            let r = dump_result(requested, text + line + "\n"@);
            let kept = if trim(value).len() == 0 {
                None
            } else {
                Some(trim(value))
            };
            let with = |i: InfoView| Ok::<InfoView, Str>(i);
            &&& tag == "COMPLETE"@ ==> r == with(
                InfoView {
                    options: OptionsView { complete: dedup(words(value)), ..a.options },
                    ..a
                },
            )
            &&& tag == "PKGNAME"@ && trim(value).len() > 0 ==> r == with(
                InfoView { pkgname: trim(value), ..a },
            )
            &&& tag == "PKGNAME"@ && trim(value).len() == 0 ==> r is Err
            &&& tag == "OPTIONS_NAME"@ ==> r == with(InfoView { options_name: trim(value), ..a })
            &&& tag == "BROKEN"@ ==> r == with(InfoView { broken: kept, ..a })
            &&& tag == "IGNORE"@ ==> r == with(InfoView { ignore: kept, ..a })
            &&& tag == "DEPRECATED"@ ==> r == with(InfoView { deprecated: kept, ..a })
            &&& tag == "PKG_HELP"@ ==> r == with(InfoView { pkg_help: kept, ..a })
            &&& tag == "DEFAULT_VERSIONS"@ ==> r == with(
                InfoView { default_versions: words(value), ..a },
            )
            &&& tag == "DEPENDS"@ ==> r == with(
                InfoView {
                    deps: edges_of(words(value)).0,
                    warnings: edges_of(words(value)).1,
                    ..a
                },
            )
            &&& tag == "FLAVOR"@ ==> r == with(
                InfoView {
                    canonical: KeyView {
                        origin: requested.origin,
                        flavor: if a.flavors.len() == 0 {
                            None
                        } else {
                            kept
                        },
                    },
                    ..a
                },
            )
            &&& tag == "FLAVORS"@ ==> r is Ok && (r->Ok_0).flavors == words(value) && (
            r->Ok_0).canonical.origin == requested.origin && (words(value).len() == 0 ==> (
            r->Ok_0).canonical.flavor is None) && (words(value).len() > 0 && a.canonical.flavor is Some
                ==> (r->Ok_0).canonical.flavor == a.canonical.flavor) && r->Ok_0 == (InfoView {
                flavors: (r->Ok_0).flavors,
                canonical: (r->Ok_0).canonical,
                ..a
            })
        }),
{
    lemma_dump_line(text, line, n, tag, value);
    lemma_trim_twice(value);
    lemma_tags();
}

/// What is trimmed has nothing left to trim away.
proof fn lemma_trim_twice(s: Str)
    ensures
        trim(trim(s)).len() == 0 <==> trim(s).len() == 0,
{
    lemma_blank(s);
    lemma_blank(trim(s));
    let t = trim_start(s);
    lemma_lead(s);
    lemma_tail_end(t);
    if trim(s).len() > 0 {
        assert(trim(s)[trim(s).len() - 1] == t[tail_end(t) - 1]);
    }
}

/// The lines on one option: a description goes to the group of that name where
/// there is one, and else, like all others, to the option. What was known of the
/// option otherwise stays.
pub proof fn law_dump_option(
    requested: KeyView,
    text: Str,
    a: InfoView,
    line: Str,
    n: int,
    tag: Str,
    name: Str,
    value: Str,
    g: int,
)
    requires
        line_ended(text),
        dump_result(requested, text) == Ok::<InfoView, Str>(a),
        says(line, n, tag, name + "|"@ + value),
        forall|i: int| 0 <= i < name.len() ==> #[trigger] name[i] != '|',
    ensures
        ({
            let r = dump_result(requested, text + line + "\n"@);
            let o = a.options;
            let key = trim(name);
            let def = if o.defs.dom().contains(key) {
                o.defs[key]
            } else {
                blank_def()
            };
            let with = |d: DefView|
                Ok::<InfoView, Str>(
                    InfoView { options: OptionsView { defs: o.defs.insert(key, d), ..o }, ..a },
                );
            &&& tag == "DESC"@ && (forall|i: int|
                0 <= i < o.groups.len() ==> (#[trigger] o.groups[i]).name != key) ==> r == with(
                DefView { desc: trim(value), ..def },
            )
            &&& tag == "DESC"@ && 0 <= g < o.groups.len() && o.groups[g].name == key && (forall|
                i: int,
            |
                0 <= i < g ==> (#[trigger] o.groups[i]).name != key) ==> r == Ok::<InfoView, Str>(
                InfoView {
                    options: OptionsView {
                        groups: o.groups.update(
                            g,
                            GroupView { desc: trim(value), ..o.groups[g] },
                        ),
                        ..o
                    },
                    ..a
                },
            )
            &&& tag == "IMPLIES"@ ==> r == with(DefView { implies: words(trim(value)), ..def })
            &&& tag == "PREVENTS"@ ==> r == with(DefView { prevents: words(trim(value)), ..def })
            &&& tag == "PREVENTS_MSG"@ ==> r == with(
                DefView { prevents_msg: Some(trim(value)), ..def },
            )
            &&& tag == "OPT_BROKEN"@ ==> r == with(DefView { broken: Some(trim(value)), ..def })
            &&& tag == "OPT_IGNORE"@ ==> r == with(DefView { ignore: Some(trim(value)), ..def })
        }),
{
    lemma_dump_line(text, line, n, tag, name + "|"@ + value);
    lemma_halves(name, value);
    lemma_group_at(a.options.groups, trim(name));
    lemma_tags();
}

proof fn lemma_group_at(groups: Seq<GroupView>, name: Str)
    ensures
        0 <= group_index(groups, name) <= groups.len(),
        forall|i: int|
            0 <= i < group_index(groups, name) ==> (#[trigger] groups[i]).name != name,
        group_index(groups, name) < groups.len() ==> groups[group_index(groups, name)].name
            == name,
    decreases groups.len(),
{
    if groups.len() > 0 && groups[0].name != name {
        let rest = groups.skip(1);
        lemma_group_at(rest, name);
        assert forall|i: int| 0 <= i < group_index(groups, name) implies (
        #[trigger] groups[i]).name != name by {
            if i > 0 {
                assert(rest[i - 1] == groups[i]);
            }
        }
    }
}

/// An `OPT_DEP` line says what an option adds in one class: USES words, or the
/// ports that its entries lead to, each once, an entry that leads to none under
/// its own text. They replace what was known of the class and leave the other
/// classes as they were.
pub proof fn law_dump_adds(
    requested: KeyView,
    text: Str,
    a: InfoView,
    line: Str,
    n: int,
    name: Str,
    class: Str,
    list: Str,
)
    requires
        line_ended(text),
        dump_result(requested, text) == Ok::<InfoView, Str>(a),
        says(line, n, "OPT_DEP"@, name + "|"@ + class + "|"@ + list),
        forall|i: int| 0 <= i < name.len() ==> #[trigger] name[i] != '|',
        forall|i: int| 0 <= i < class.len() ==> #[trigger] class[i] != '|',
        trim(class) == class,
        trim(class + "|"@ + list) == class + "|"@ + list,
    ensures
        ({
            let r = dump_result(requested, text + line + "\n"@);
            let key = trim(name);
            let before = if a.options.defs.dom().contains(key) {
                a.options.defs[key]
            } else {
                blank_def()
            };
            &&& r is Ok
            &&& (r->Ok_0).options.defs.dom() == a.options.defs.dom().insert(key)
            &&& {
                let after = (r->Ok_0).options.defs[key];
                &&& after == (DefView { deps: after.deps, uses: after.uses, ..before })
                &&& class == "uses"@ ==> after.uses == words(list) && after.deps == before.deps
                &&& class != "uses"@ ==> after.uses == before.uses
                &&& class != "uses"@ && words(list).len() == 0 ==> after.deps == before.deps
                &&& class != "uses"@ && words(list).len() > 0 ==> (exists|i: int|
                    0 <= i < after.deps.len() && (#[trigger] after.deps[i]).class == class
                        && after.deps[i].origins == entry_names(words(list)) && (forall|j: int|
                        0 <= j < i ==> (#[trigger] after.deps[j]).class != class)
                        && after.deps.len() == before.deps.len() + (if i < before.deps.len() {
                        0int
                    } else {
                        1int
                    }) && (forall|j: int|
                        0 <= j < before.deps.len() && j != i ==> #[trigger] after.deps[j]
                            == before.deps[j]))
            }
        }),
{
    let value = class + "|"@ + list;
    reveal_strlit("|");
    assert(name + "|"@ + class + "|"@ + list =~= name + "|"@ + value);
    lemma_dump_line(text, line, n, "OPT_DEP"@, name + "|"@ + value);
    lemma_halves(name, value);
    lemma_halves(class, list);
    lemma_tags();
    let key = trim(name);
    let before = if a.options.defs.dom().contains(key) {
        a.options.defs[key]
    } else {
        blank_def()
    };
    lemma_class_at(before.deps, class);
    let r = dump_result(requested, text + line + "\n"@);
    let after = (r->Ok_0).options.defs[key];
    assert((r->Ok_0).options.defs.dom() =~= a.options.defs.dom().insert(key));
    let i = class_index(before.deps, class);
    if class != "uses"@ && words(list).len() > 0 {
        assert(after.deps[i].class == class);
    }
}

proof fn lemma_class_at(deps: Seq<DepsView>, class: Str)
    ensures
        0 <= class_index(deps, class) <= deps.len(),
        forall|i: int| 0 <= i < class_index(deps, class) ==> (#[trigger] deps[i]).class != class,
        class_index(deps, class) < deps.len() ==> deps[class_index(deps, class)].class == class,
    decreases deps.len(),
{
    if deps.len() > 0 && deps[0].class != class {
        let rest = deps.skip(1);
        lemma_class_at(rest, class);
        assert forall|i: int| 0 <= i < class_index(deps, class) implies (
        #[trigger] deps[i]).class != class by {
            if i > 0 {
                assert(rest[i - 1] == deps[i]);
            }
        }
    }
}

/// A line that does not hold `OPTIQUE|` says nothing.
pub proof fn law_dump_noise(requested: KeyView, text: Str, a: InfoView, line: Str)
    requires
        line_ended(text),
        dump_result(requested, text) == Ok::<InfoView, Str>(a),
        forall|i: int| 0 <= i < line.len() ==> #[trigger] line[i] != '\n',
        line.len() > 0 ==> line.last() != '\r',
        forall|m: int|
            0 <= m && m + 8 <= line.len() ==> #[trigger] line.subrange(m, m + 8) != "OPTIQUE|"@,
    ensures
        dump_result(requested, text + line + "\n"@) == Ok::<InfoView, Str>(a),
{
    reveal_strlit("OPTIQUE|");
    lemma_lines_push(text, line);
    let ls = lines(text).push(line);
    assert(ls.drop_last() =~= lines(text));
    assert forall|i: int| !occurs(line, "OPTIQUE|"@, i) by {
        if occurs(line, "OPTIQUE|"@, i) {
            assert(line.subrange(i, i + 8) == "OPTIQUE|"@);
        }
    }
}

/// A dump begins with the package: nothing else is known of a port of which only
/// the package was dumped. Without a line of the wrapper's there is no port.
pub proof fn law_dump_starts(requested: KeyView, line: Str, n: int, value: Str)
    requires
        says(line, n, "PKGNAME"@, value),
        trim(value).len() > 0,
    ensures
        dump_result(requested, Seq::empty()) is Err,
        dump_result(requested, line + "\n"@) == Ok::<InfoView, Str>(
            InfoView {
                key: requested,
                canonical: KeyView { origin: requested.origin, flavor: None },
                pkgname: trim(value),
                flavors: Seq::empty(),
                options_name: Seq::empty(),
                options: blank_options(),
                deps: Seq::empty(),
                broken: None,
                ignore: None,
                deprecated: None,
                pkg_help: None,
                default_versions: Seq::empty(),
                warnings: Seq::empty(),
            },
        ),
{
    let none = Seq::<char>::empty();
    assert(lines(none) =~= Seq::<Str>::empty());
    assert(dump_lines(lines(none)) == blank_dump());
    lemma_dump_line(none, line, n, "PKGNAME"@, value);
    assert(none + line + "\n"@ =~= line + "\n"@);
    lemma_blank(none);
    lemma_tags();
}

/// A dependency entry leads to the first port that one of its fields behind the
/// first names, and keeps its first field; one without such a field leads
/// nowhere.
pub proof fn law_edge(entry: Str, fields: Seq<Str>, n: int)
    requires
        fields == pieces(entry, ':'),
        1 <= n <= fields.len(),
        forall|i: int| 1 <= i < n ==> key_of(#[trigger] fields[i]) is None,
        n < fields.len() ==> key_of(fields[n]) is Some,
    ensures
        n < fields.len() ==> edge_of(entry) == Some(
            EdgeView { target: key_of(fields[n])->0, raw: fields[0] },
        ),
        n == fields.len() ==> edge_of(entry) is None,
        n < fields.len() ==> entry_name(entry) == key_text(
            key_of(fields[n])->0,
        ),
        n == fields.len() ==> entry_name(entry) == entry,
{
    lemma_first_key(fields, 1, n);
}

proof fn lemma_first_key(fields: Seq<Str>, from: int, n: int)
    requires
        0 <= from <= n <= fields.len(),
        forall|i: int| from <= i < n ==> key_of(#[trigger] fields[i]) is None,
        n < fields.len() ==> key_of(fields[n]) is Some,
    ensures
        first_key(fields, from) == if n < fields.len() {
            key_of(fields[n])
        } else {
            None
        },
    decreases n - from,
{
    if from < n {
        lemma_first_key(fields, from + 1, n);
    }
}

/// The ports that dependency entries lead to: each is named once, by its key where
/// the entry has one and else as it stands, and nothing else is named.
pub proof fn law_entry_names(entries: Seq<Str>, x: Str)
    ensures
        entry_names(entries).no_duplicates(),
        entry_names(entries).contains(x) <==> exists|i: int|
            0 <= i < entries.len() && x == match edge_of(#[trigger] entries[i]) {
                Some(e) => key_text(e.target),
                None => entries[i],
            },
{
    let ws = entries.map_values(|w: Str| entry_name(w));
    law_dedup(ws);
    let r = entry_names(entries);
    assert(r.contains(x) <==> ws.contains(x));
    if ws.contains(x) {
        let i = choose|i: int| 0 <= i < ws.len() && ws[i] == x;
        assert(ws[i] == entry_name(entries[i]));
    }
    if exists|i: int|
        0 <= i < entries.len() && x == match edge_of(#[trigger] entries[i]) {
            Some(e) => key_text(e.target),
            None => entries[i],
        } {
        let i = choose|i: int|
            0 <= i < entries.len() && x == match edge_of(#[trigger] entries[i]) {
                Some(e) => key_text(e.target),
                None => entries[i],
            };
        assert(ws[i] == x);
    }
}

} // verus!
