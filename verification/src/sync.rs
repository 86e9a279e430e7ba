//! Refreshing options files without being asked.
use vstd::prelude::*;

use crate::apply::{chosen, dispute_text, disputed, disputes, is_current, law_sync_stable};
use crate::apply::{law_written_is_current, plan, plan_over, preferred, remarks, shares};
use crate::apply::{sync_enabled_set, synced, used_names, write_of, ChoiceView, PlannedWrites};
use crate::apply::{PortChoice, WriteView};
use crate::clean::{Removal, RemovalView};
use crate::list::{first_where, lemma_filter_holds, lemma_first_where, lemma_first_where_is};
use crate::list::{lemma_first_where_none, lookup};
use crate::minimal::{leftover_files, optionless, plan_choices, plan_kept, removal_of};
use crate::minimal::{removals_of, repeats, superfluous, worth_writing, PlanView};
use crate::model::origin::{key_text, KeyView, PortKey};
use crate::model::port::{InfoView, PortInfo};
use crate::optionsfile::{is_word, law_render_parse, rendered, saved_of, SavedOptionsFile};
use crate::optionsfile::SavedView;
use crate::order::lex;
use crate::path::joined;
use crate::session::layers::nofile;
use crate::sorted::{increasing, lemma_ordered, lemma_ordered_is, ordered, SortedMap};
use crate::text::{join, views, Str};

verus! {

/// What a port is to have on after a sync.
pub open spec fn sync_choice(
    ports: Map<KeyView, InfoView>,
    files: Map<Str, SavedView>,
    k: KeyView,
) -> ChoiceView {
    ChoiceView {
        key: k,
        info: ports[k],
        enabled: synced(ports[k].options, lookup(files, ports[k].options_name)),
    }
}

/// What all ports are to have on after a sync, in order.
pub open spec fn sync_choices_of(
    ports: Map<KeyView, InfoView>,
    files: Map<Str, SavedView>,
) -> Seq<ChoiceView> {
    ordered::<PortKey>(ports.dom()).map_values(|k: KeyView| sync_choice(ports, files, k))
}

/// What a sync does: files are refreshed for the ports that have options, and
/// those left over from ports that no longer have any are removed.
pub open spec fn sync_plan(
    ports: Map<KeyView, InfoView>,
    dir: Str,
    files: Map<Str, SavedView>,
    minimal: bool,
) -> PlanView {
    let p = plan_kept(sync_choices_of(ports, files), dir, files, minimal);
    PlanView {
        removals: p.removals + removals_of(
            dir,
            ordered::<String>(files.dom()).filter(optionless(ports)),
            "port has no options"@,
        ),
        ..p
    }
}

fn sync_choices<'a>(
    ports: &'a SortedMap<PortKey, PortInfo>,
    files: &SortedMap<String, SavedOptionsFile>,
) -> (r: Vec<PortChoice<'a>>)
    ensures
        views(r@) == sync_choices_of(ports@, files@),
{
    let n = ports.len();
    let ghost q = ordered::<PortKey>(ports@.dom());
    let ghost f = |k: KeyView| sync_choice(ports@, files@, k);
    let mut r: Vec<PortChoice<'a>> = Vec::new();
    let mut i: usize = 0;
    assert(views(r@) =~= q.take(0).map_values(f));
    while i < n
        invariant
            i <= n,
            n == q.len(),
            q == ordered::<PortKey>(ports@.dom()),
            f == (|k: KeyView| sync_choice(ports@, files@, k)),
            views(r@) == q.take(i as int).map_values(f),
        decreases n - i,
    {
        let key = ports.key_at(i);
        let info = ports.value_at(i);
        let enabled = sync_enabled_set(info, files.get(&info.options_name));
        let c = PortChoice { key, info, enabled };
        let ghost was = views(r@);
        r.push(c);
        proof {
            assert(c@ == f(q[i as int]));
            assert(views(r@) =~= was.push(c@));
            assert(views(r@) =~= q.take(i + 1).map_values(f));
        }
        i = i + 1;
    }
    assert(q.take(n as int) =~= q);
    r
}

/// What a sync does: `files` holds the options files that exist.
pub fn plan_sync(
    ports: &SortedMap<PortKey, PortInfo>,
    options_dir: &str,
    files: &SortedMap<String, SavedOptionsFile>,
    minimal: bool,
) -> (r: (PlannedWrites, Vec<Removal>))
    ensures
        (PlanView {
            writes: views(r.0.writes@),
            warnings: views(r.0.warnings@),
            removals: views(r.1@),
        }) == sync_plan(ports@, options_dir@, files@, minimal),
{
    let choices = sync_choices(ports, files);
    let (planned, removals) = plan_choices(&choices, options_dir, files, minimal);
    let mut removals = removals;
    let mut left = leftover_files(ports, options_dir, files);
    let ghost a = views(removals@);
    let ghost b = views(left@);
    removals.append(&mut left);
    assert(views(removals@) =~= a + b);
    (planned, removals)
}

// ---------------------------------------------------------------------
// A second sync
// ---------------------------------------------------------------------

/// Whether some write is to an options file.
pub open spec fn writes_to(ws: Seq<WriteView>, name: Str) -> bool {
    exists|i: int| 0 <= i < ws.len() && (#[trigger] ws[i]).options_name == name
}

/// The write to an options file.
pub open spec fn write_to(ws: Seq<WriteView>, name: Str) -> WriteView {
    ws[choose|i: int| 0 <= i < ws.len() && (#[trigger] ws[i]).options_name == name]
}

/// Whether some removal is of an options file.
pub open spec fn removes(rs: Seq<RemovalView>, name: Str) -> bool {
    exists|i: int| 0 <= i < rs.len() && (#[trigger] rs[i]).options_name == name
}

/// The options files after a plan was carried out.
pub open spec fn files_after(files: Map<Str, SavedView>, p: PlanView) -> Map<Str, SavedView> {
    Map::new(
        |n: Str| writes_to(p.writes, n) || (files.dom().contains(n) && !removes(p.removals, n)),
        |n: Str|
            if writes_to(p.writes, n) {
                saved_of(write_to(p.writes, n).content)
            } else {
                files[n]
            },
    )
}

/// Whether a port is still the same port: its package, its flavors and its
/// option list are as they were. What make computes from the options file may
/// have changed with the file.
pub open spec fn same_port(a: InfoView, b: InfoView) -> bool {
    &&& a.pkgname == b.pkgname
    &&& a.canonical == b.canonical
    &&& a.flavors == b.flavors
    &&& a.options_name == b.options_name
    &&& a.options.complete == b.options.complete
}

/// Whether a port's package and options are single words.
pub open spec fn in_words(info: InfoView) -> bool {
    &&& is_word(info.pkgname)
    &&& forall|i: int|
        0 <= i < info.options.complete.len() ==> is_word(#[trigger] info.options.complete[i])
}

/// Whether a file says just what a choice does.
spec fn settled_for(c: ChoiceView, saved: Option<SavedView>) -> bool {
    saved matches Some(s) && is_current(s, c.info.options.complete, c.enabled)
}

/// The writes of a plan are those of the choices that their files do not
/// already record.
proof fn lemma_plan_over(
    names: Seq<Str>,
    cs: Seq<ChoiceView>,
    dir: Str,
    files: Map<Str, SavedView>,
)
    ensures
        ({
            let ws = plan_over(names, cs, dir, files).0;
            &&& forall|i: int|
                0 <= i < ws.len() ==> names.contains((#[trigger] ws[i]).options_name)
                    && ws[i] == write_of(
                    chosen(cs, ws[i].options_name)->0,
                    ws[i].options_name,
                    dir,
                    files,
                )
            &&& forall|n: Str| #[trigger]
                names.contains(n) ==> (writes_to(ws, n) <==> !settled_for(
                    chosen(cs, n)->0,
                    lookup(files, n),
                ))
        }),
    decreases names.len(),
{
    if names.len() > 0 {
        let rest = names.drop_last();
        lemma_plan_over(rest, cs, dir, files);
        let before = plan_over(rest, cs, dir, files).0;
        let ws = plan_over(names, cs, dir, files).0;
        let last = names.last();
        let c = chosen(cs, last)->0;
        let stays = settled_for(c, lookup(files, last));
        assert(ws == if stays {
            before
        } else {
            before.push(write_of(c, last, dir, files))
        });
        assert forall|i: int| 0 <= i < ws.len() implies names.contains(
            (#[trigger] ws[i]).options_name,
        ) && ws[i] == write_of(
            chosen(cs, ws[i].options_name)->0,
            ws[i].options_name,
            dir,
            files,
        ) by {
            if i < before.len() {
                assert(ws[i] == before[i]);
                let n = before[i].options_name;
                let j = choose|j: int| 0 <= j < rest.len() && rest[j] == n;
                assert(names[j] == n);
            } else {
                assert(names[names.len() - 1] == last);
            }
        }
        assert forall|n: Str| #[trigger] names.contains(n) implies (writes_to(ws, n)
            <==> !settled_for(chosen(cs, n)->0, lookup(files, n))) by {
            if n == last {
                if !stays {
                    assert(ws[before.len() as int].options_name == n);
                } else if writes_to(ws, n) {
                    let i = choose|i: int|
                        0 <= i < ws.len() && (#[trigger] ws[i]).options_name == n;
                    assert(rest.contains(before[i].options_name));
                    assert(writes_to(before, n));
                }
            } else {
                let j = choose|j: int| 0 <= j < names.len() && names[j] == n;
                assert(rest[j] == n);
                assert(rest.contains(n));
                if writes_to(before, n) {
                    let i = choose|i: int|
                        0 <= i < before.len() && (#[trigger] before[i]).options_name == n;
                    assert(ws[i].options_name == n);
                }
                if writes_to(ws, n) {
                    let i = choose|i: int|
                        0 <= i < ws.len() && (#[trigger] ws[i]).options_name == n;
                    assert(i < before.len());
                    assert(before[i].options_name == n);
                }
            }
        }
    }
}

/// The first that satisfies a condition among the images of keys stands for the
/// same key under two maps whose images agree on the condition.
proof fn lemma_first_pair(
    q: Seq<KeyView>,
    f: spec_fn(KeyView) -> ChoiceView,
    g: spec_fn(KeyView) -> ChoiceView,
    p: spec_fn(ChoiceView) -> bool,
)
    requires
        forall|i: int| 0 <= i < q.len() ==> p(f(#[trigger] q[i])) == p(g(q[i])),
    ensures
        match first_where(q.map_values(f), p) {
            Some(c) => exists|i: int|
                0 <= i < q.len() && c == f(#[trigger] q[i]) && first_where(q.map_values(g), p)
                    == Some(g(q[i])) && p(c),
            None => first_where(q.map_values(g), p) is None,
        },
    decreases q.len(),
{
    if q.len() > 0 {
        let d = q.drop_last();
        assert forall|i: int| 0 <= i < d.len() implies p(f(#[trigger] d[i])) == p(g(d[i])) by {
            assert(d[i] == q[i]);
        }
        lemma_first_pair(d, f, g, p);
        assert(q.map_values(f).drop_last() =~= d.map_values(f));
        assert(q.map_values(g).drop_last() =~= d.map_values(g));
        assert(q.map_values(f).last() == f(q.last()));
        assert(q.map_values(g).last() == g(q.last()));
        assert(q[q.len() - 1] == q.last());
        match first_where(d.map_values(f), p) {
            Some(c) => {
                let i = choose|i: int|
                    0 <= i < d.len() && c == f(#[trigger] d[i]) && first_where(
                        d.map_values(g),
                        p,
                    ) == Some(g(d[i])) && p(c);
                assert(q[i] == d[i]);
            },
            None => {},
        }
    }
}

/// The port that decides an options file is the same whatever the files hold.
proof fn lemma_same_decider(
    ports: Map<KeyView, InfoView>,
    later: Map<KeyView, InfoView>,
    files: Map<Str, SavedView>,
    now: Map<Str, SavedView>,
    name: Str,
) -> (k: KeyView)
    requires
        ports.dom().finite(),
        ports.dom() == later.dom(),
        forall|k: KeyView| #[trigger] ports.dom().contains(k) ==> same_port(ports[k], later[k]),
        used_names(sync_choices_of(ports, files)).contains(name),
    ensures
        ports.dom().contains(k),
        shares(ports[k], name),
        chosen(sync_choices_of(ports, files), name) == Some(sync_choice(ports, files, k)),
        chosen(sync_choices_of(later, now), name) == Some(sync_choice(later, now, k)),
{
    let q = ordered::<PortKey>(ports.dom());
    lemma_ordered::<PortKey>(ports.dom());
    let f = |k: KeyView| sync_choice(ports, files, k);
    let g = |k: KeyView| sync_choice(later, now, k);
    let first = |c: ChoiceView| shares(c.info, name) && preferred(c.info);
    let any = |c: ChoiceView| shares(c.info, name);
    assert forall|i: int| 0 <= i < q.len() implies first(f(#[trigger] q[i])) == first(g(q[i]))
        && any(f(q[i])) == any(g(q[i])) by {
        assert(q.contains(q[i]));
        assert(ports.dom().contains(q[i]));
    }
    lemma_first_pair(q, f, g, first);
    lemma_first_pair(q, f, g, any);
    let cs = sync_choices_of(ports, files);
    let j = choose|j: int| 0 <= j < cs.len() && shares((#[trigger] cs[j]).info, name);
    lemma_first_where(cs, any);
    assert(any(cs[j]));
    let p = if first_where(cs, first) is Some {
        first
    } else {
        any
    };
    let c = first_where(cs, p)->0;
    let i = choose|i: int|
        0 <= i < q.len() && c == f(#[trigger] q[i]) && first_where(q.map_values(g), p) == Some(
            g(q[i]),
        ) && p(c);
    assert(q.contains(q[i]));
    q[i]
}

/// What a choice keeps where a file already records it: the file knows every
/// option, so what make computes no longer matters.
proof fn lemma_current_stays(a: InfoView, b: InfoView, saved: SavedView)
    requires
        same_port(a, b),
        is_current(saved, a.options.complete, synced(a.options, Some(saved))),
    ensures
        synced(b.options, Some(saved)) == synced(a.options, Some(saved)),
        is_current(saved, b.options.complete, synced(b.options, Some(saved))),
{
    let x = synced(a.options, Some(saved));
    let y = synced(b.options, Some(saved));
    assert forall|o: Str| x.contains(o) <==> y.contains(o) by {
        if a.options.complete.contains(o) {
            assert(a.options.complete.to_set().contains(o));
            assert(saved.complete.to_set().contains(o));
            assert(saved.complete.contains(o));
            assert(saved.knows(o));
        }
    }
    assert(x =~= y);
}

/// Whether an options file is done without: with `--minimal` one that would
/// repeat what is decided anyway.
spec fn done_without(cs: Seq<ChoiceView>, minimal: bool, name: Str) -> bool {
    minimal && repeats(cs, name)
}

/// What a plan writes and removes, by options file.
proof fn lemma_plan_kept(
    cs: Seq<ChoiceView>,
    dir: Str,
    files: Map<Str, SavedView>,
    minimal: bool,
)
    requires
        used_names(cs).finite(),
    ensures
        ({
            let p = plan_kept(cs, dir, files, minimal);
            &&& forall|i: int|
                0 <= i < p.writes.len() ==> used_names(cs).contains(
                    (#[trigger] p.writes[i]).options_name,
                ) && p.writes[i] == write_of(
                    chosen(cs, p.writes[i].options_name)->0,
                    p.writes[i].options_name,
                    dir,
                    files,
                )
            &&& forall|n: Str| #[trigger]
                used_names(cs).contains(n) ==> (writes_to(p.writes, n) <==> !settled_for(
                    chosen(cs, n)->0,
                    lookup(files, n),
                ) && !done_without(cs, minimal, n))
            &&& forall|n: Str| #[trigger]
                removes(p.removals, n) <==> done_without(cs, minimal, n) && files.dom().contains(n)
        }),
{
    let p = plan_kept(cs, dir, files, minimal);
    let names = ordered::<String>(used_names(cs));
    lemma_ordered::<String>(used_names(cs));
    lemma_plan_over(names, cs, dir, files);
    let all = plan_over(names, cs, dir, files).0;
    assert forall|i: int| 0 <= i < all.len() implies used_names(cs).contains(
        (#[trigger] all[i]).options_name,
    ) by {
        assert(names.contains(all[i].options_name));
    }
    assert forall|n: Str| #[trigger] used_names(cs).contains(n) implies names.contains(n) by {}
    if minimal {
        let q = worth_writing(cs);
        lemma_filter_holds(all, q);
        assert forall|i: int| 0 <= i < p.writes.len() implies used_names(cs).contains(
            (#[trigger] p.writes[i]).options_name,
        ) && p.writes[i] == write_of(
            chosen(cs, p.writes[i].options_name)->0,
            p.writes[i].options_name,
            dir,
            files,
        ) by {
            assert(p.writes.contains(p.writes[i]));
            let j = choose|j: int| 0 <= j < all.len() && all[j] == p.writes[i];
            assert(names.contains(all[j].options_name));
        }
        assert forall|n: Str| #[trigger] used_names(cs).contains(n) implies (writes_to(p.writes, n)
            <==> !settled_for(chosen(cs, n)->0, lookup(files, n)) && !repeats(cs, n)) by {
            assert(names.contains(n));
            if writes_to(p.writes, n) {
                let i = choose|i: int|
                    0 <= i < p.writes.len() && (#[trigger] p.writes[i]).options_name == n;
                assert(p.writes.contains(p.writes[i]));
                assert(q(p.writes[i]));
                let j = choose|j: int| 0 <= j < all.len() && all[j] == p.writes[i];
                assert(all[j].options_name == n);
                assert(writes_to(all, n));
            }
            if writes_to(all, n) && !repeats(cs, n) {
                let j = choose|j: int| 0 <= j < all.len() && (#[trigger] all[j]).options_name == n;
                assert(all.contains(all[j]) && q(all[j]));
                assert(p.writes.contains(all[j]));
                let i = choose|i: int| 0 <= i < p.writes.len() && p.writes[i] == all[j];
                assert(p.writes[i].options_name == n);
            }
        }
        let r = superfluous(cs, files);
        lemma_filter_holds(names, r);
        let gone = names.filter(r);
        let why = "repeats defaults + make.conf"@;
        assert forall|n: Str| #[trigger] removes(p.removals, n) <==> repeats(cs, n)
            && files.dom().contains(n) by {
            if removes(p.removals, n) {
                let i = choose|i: int|
                    0 <= i < p.removals.len() && (#[trigger] p.removals[i]).options_name == n;
                assert(p.removals[i] == removal_of(dir, gone[i], why));
                assert(gone.contains(gone[i]));
                assert(r(n));
            }
            if repeats(cs, n) && files.dom().contains(n) {
                assert(used_names(cs).contains(n));
                assert(names.contains(n) && r(n));
                assert(gone.contains(n));
                let i = choose|i: int| 0 <= i < gone.len() && gone[i] == n;
                assert(p.removals[i] == removal_of(dir, n, why));
                assert(p.removals[i].options_name == n);
            }
        }
    }
}

/// Whether make computes for every port that decides an options file, where
/// that file does not exist, just what defaults and make.conf give.
pub open spec fn follows_layers(
    ports: Map<KeyView, InfoView>,
    files: Map<Str, SavedView>,
) -> bool {
    let cs = sync_choices_of(ports, files);
    forall|n: Str| #[trigger]
        used_names(cs).contains(n) && !files.dom().contains(n) ==> synced(
            chosen(cs, n)->0.info.options,
            None,
        ) == nofile(chosen(cs, n)->0.info.options)
}

/// Two syncs are one: once the first was carried out, a second over the same
/// ports has nothing to write and nothing to remove, whatever make computes
/// from the new files. Package names and options are single words. With
/// `--minimal` defaults and make.conf are as they were too, and where no file
/// is left make goes by them: one that computes another set without the file
/// than they give would have the file written again.
pub proof fn law_sync_settles(
    ports: Map<KeyView, InfoView>,
    later: Map<KeyView, InfoView>,
    dir: Str,
    files: Map<Str, SavedView>,
    minimal: bool,
)
    requires
        ports.dom().finite(),
        files.dom().finite(),
        ports.dom() == later.dom(),
        forall|k: KeyView| #[trigger]
            ports.dom().contains(k) ==> same_port(ports[k], later[k]) && in_words(ports[k]),
        minimal ==> forall|k: KeyView| #[trigger]
            ports.dom().contains(k) ==> nofile(ports[k].options) == nofile(later[k].options),
        minimal ==> follows_layers(
            later,
            files_after(files, sync_plan(ports, dir, files, minimal)),
        ),
    ensures
        ({
            let now = files_after(files, sync_plan(ports, dir, files, minimal));
            let again = sync_plan(later, dir, now, minimal);
            again.writes.len() == 0 && again.removals.len() == 0
        }),
{
    let first = sync_plan(ports, dir, files, minimal);
    let now = files_after(files, first);
    let again = sync_plan(later, dir, now, minimal);
    let cs = sync_choices_of(ports, files);
    let ds = sync_choices_of(later, now);
    let kept = plan_kept(ds, dir, now, minimal);
    lemma_used_finite(ports, files);
    lemma_used_finite(later, now);
    lemma_same_names(ports, later, files, now);
    lemma_plan_kept(ds, dir, now, minimal);
    assert forall|n: Str| #[trigger] used_names(cs).contains(n) implies !writes_to(kept.writes, n)
        && !removes(kept.removals, n) by {
        lemma_name_settles(ports, later, dir, files, minimal, n);
    }
    if kept.writes.len() > 0 {
        let n = kept.writes[0].options_name;
        assert(used_names(ds).contains(n));
        assert(writes_to(kept.writes, n));
    }
    if kept.removals.len() > 0 {
        let n = kept.removals[0].options_name;
        assert(removes(kept.removals, n));
        assert(used_names(ds).contains(n));
    }
    lemma_nothing_left(ports, later, dir, files, minimal);
}

/// One options file has nothing more to be done to it after a sync.
proof fn lemma_name_settles(
    ports: Map<KeyView, InfoView>,
    later: Map<KeyView, InfoView>,
    dir: Str,
    files: Map<Str, SavedView>,
    minimal: bool,
    n: Str,
)
    requires
        ports.dom().finite(),
        ports.dom() == later.dom(),
        forall|k: KeyView| #[trigger]
            ports.dom().contains(k) ==> same_port(ports[k], later[k]) && in_words(ports[k]),
        minimal ==> forall|k: KeyView| #[trigger]
            ports.dom().contains(k) ==> nofile(ports[k].options) == nofile(later[k].options),
        minimal ==> follows_layers(
            later,
            files_after(files, sync_plan(ports, dir, files, minimal)),
        ),
        used_names(sync_choices_of(ports, files)).contains(n),
    ensures
        ({
            let now = files_after(files, sync_plan(ports, dir, files, minimal));
            let kept = plan_kept(sync_choices_of(later, now), dir, now, minimal);
            !writes_to(kept.writes, n) && !removes(kept.removals, n)
        }),
{
    let first = sync_plan(ports, dir, files, minimal);
    let now = files_after(files, first);
    let cs = sync_choices_of(ports, files);
    let ds = sync_choices_of(later, now);
    lemma_used_finite(ports, files);
    lemma_used_finite(later, now);
    lemma_same_names(ports, later, files, now);
    lemma_plan_kept(cs, dir, files, minimal);
    lemma_plan_kept(ds, dir, now, minimal);
    let k = lemma_same_decider(ports, later, files, now, n);
    lemma_removals(ports, dir, files, minimal, k, n);
    let c = sync_choice(ports, files, k);
    let d = sync_choice(later, now, k);
    assert(used_names(ds).contains(n));
    if done_without(cs, minimal, n) {
        assert(!now.dom().contains(n));
        assert(lookup(now, n) is None);
        assert(d.enabled == nofile(d.info.options));
        assert(repeats(ds, n));
    } else if writes_to(first.writes, n) {
        let i = choose|i: int|
            0 <= i < first.writes.len() && (#[trigger] first.writes[i]).options_name == n;
        assert(write_to(first.writes, n) == first.writes[i]);
        assert(first.writes[i] == write_of(c, n, dir, files));
        assert(now.dom().contains(n));
        let s = saved_of(rendered(c.info.pkgname, c.info.options.complete, c.enabled));
        assert(now[n] == s);
        assert(c.enabled.subset_of(c.info.options.complete.to_set())) by {
            assert forall|o: Str| c.enabled.contains(o) implies c.info.options.complete.to_set(
            ).contains(o) by {
                assert(c.info.options.complete.contains(o));
            }
        }
        law_written_is_current(c.info.pkgname, c.info.options.complete, c.enabled);
        law_sync_stable(c.info.pkgname, c.info.options, lookup(files, n));
        lemma_current_stays(c.info, d.info, s);
        assert(d.enabled == c.enabled);
        assert(settled_for(d, lookup(now, n)));
    } else {
        assert(settled_for(c, lookup(files, n)));
        assert(files.dom().contains(n));
        assert(now.dom().contains(n));
        assert(now[n] == files[n]);
        lemma_current_stays(c.info, d.info, files[n]);
        assert(d.enabled == c.enabled);
    }
}

/// A plan is carried out once: with its writes made and its removals done, the
/// same choices leave nothing to write and nothing to remove. Package names and
/// options are single words, and only options that a port has are chosen.
pub proof fn law_plan_settles(
    cs: Seq<ChoiceView>,
    dir: Str,
    files: Map<Str, SavedView>,
    minimal: bool,
)
    requires
        used_names(cs).finite(),
        forall|i: int|
            0 <= i < cs.len() ==> in_words((#[trigger] cs[i]).info) && cs[i].enabled.subset_of(
                cs[i].info.options.complete.to_set(),
            ),
    ensures
        ({
            let now = files_after(files, plan_kept(cs, dir, files, minimal));
            let again = plan_kept(cs, dir, now, minimal);
            again.writes.len() == 0 && again.removals.len() == 0
        }),
{
    let first = plan_kept(cs, dir, files, minimal);
    let now = files_after(files, first);
    let again = plan_kept(cs, dir, now, minimal);
    lemma_plan_kept(cs, dir, files, minimal);
    lemma_plan_kept(cs, dir, now, minimal);
    if again.removals.len() > 0 {
        let n = again.removals[0].options_name;
        assert(removes(again.removals, n));
        assert(used_names(cs).contains(n));
        assert(done_without(cs, minimal, n) && now.dom().contains(n));
        assert(!writes_to(first.writes, n));
        assert(removes(first.removals, n));
        assert(false);
    }
    if again.writes.len() > 0 {
        let n = again.writes[0].options_name;
        assert(used_names(cs).contains(n));
        assert(writes_to(again.writes, n));
        let p = |c: ChoiceView| shares(c.info, n) && preferred(c.info);
        let q = |c: ChoiceView| shares(c.info, n);
        lemma_first_where(cs, p);
        lemma_first_where(cs, q);
        let j = choose|j: int| 0 <= j < cs.len() && shares((#[trigger] cs[j]).info, n);
        assert(q(cs[j]));
        let c = chosen(cs, n)->0;
        assert(cs.contains(c));
        let i = choose|i: int| 0 <= i < cs.len() && cs[i] == c;
        assert(in_words(cs[i].info));
        if writes_to(first.writes, n) {
            let m = choose|m: int|
                0 <= m < first.writes.len() && (#[trigger] first.writes[m]).options_name == n;
            assert(write_to(first.writes, n) == first.writes[m]);
            assert(first.writes[m] == write_of(c, n, dir, files));
            law_written_is_current(c.info.pkgname, c.info.options.complete, c.enabled);
            assert(settled_for(c, lookup(now, n)));
        } else {
            assert(settled_for(c, lookup(files, n)));
            assert(!removes(first.removals, n));
            assert(now.dom().contains(n) && now[n] == files[n]);
        }
        assert(false);
    }
}

proof fn lemma_used_finite(ports: Map<KeyView, InfoView>, files: Map<Str, SavedView>)
    requires
        ports.dom().finite(),
    ensures
        used_names(sync_choices_of(ports, files)).finite(),
{
    let cs = sync_choices_of(ports, files);
    let all = cs.map_values(|c: ChoiceView| c.info.options_name).to_set();
    assert forall|n: Str| used_names(cs).contains(n) implies all.contains(n) by {
        let i = choose|i: int| 0 <= i < cs.len() && shares((#[trigger] cs[i]).info, n);
        assert(cs.map_values(|c: ChoiceView| c.info.options_name)[i] == n);
    }
    vstd::seq_lib::seq_to_set_is_finite(cs.map_values(|c: ChoiceView| c.info.options_name));
    vstd::set_lib::lemma_set_subset_finite(all, used_names(cs));
}

/// The same options files are in use whatever they hold.
proof fn lemma_same_names(
    ports: Map<KeyView, InfoView>,
    later: Map<KeyView, InfoView>,
    files: Map<Str, SavedView>,
    now: Map<Str, SavedView>,
)
    requires
        ports.dom().finite(),
        ports.dom() == later.dom(),
        forall|k: KeyView| #[trigger] ports.dom().contains(k) ==> same_port(ports[k], later[k]),
    ensures
        used_names(sync_choices_of(ports, files)) == used_names(sync_choices_of(later, now)),
{
    let cs = sync_choices_of(ports, files);
    let ds = sync_choices_of(later, now);
    let q = ordered::<PortKey>(ports.dom());
    lemma_ordered::<PortKey>(ports.dom());
    assert forall|n: Str| used_names(cs).contains(n) <==> used_names(ds).contains(n) by {
        if used_names(cs).contains(n) {
            let i = choose|i: int| 0 <= i < cs.len() && shares((#[trigger] cs[i]).info, n);
            assert(q.contains(q[i]));
            assert(ports.dom().contains(q[i]));
            assert(shares(ds[i].info, n));
        }
        if used_names(ds).contains(n) {
            let i = choose|i: int| 0 <= i < ds.len() && shares((#[trigger] ds[i]).info, n);
            assert(q.contains(q[i]));
            assert(ports.dom().contains(q[i]));
            assert(shares(cs[i].info, n));
        }
    }
    assert(used_names(cs) =~= used_names(ds));
}

/// Of the files of ports that have options a sync removes just those that are
/// done without.
proof fn lemma_removals(
    ports: Map<KeyView, InfoView>,
    dir: Str,
    files: Map<Str, SavedView>,
    minimal: bool,
    k: KeyView,
    name: Str,
)
    requires
        ports.dom().contains(k),
        shares(ports[k], name),
    ensures
        removes(sync_plan(ports, dir, files, minimal).removals, name) <==> removes(
            plan_kept(sync_choices_of(ports, files), dir, files, minimal).removals,
            name,
        ),
{
    let rs = sync_plan(ports, dir, files, minimal).removals;
    let kept = plan_kept(sync_choices_of(ports, files), dir, files, minimal).removals;
    let p = optionless(ports);
    let q = ordered::<String>(files.dom());
    let left = q.filter(p);
    if removes(kept, name) {
        let i = choose|i: int| 0 <= i < kept.len() && (#[trigger] kept[i]).options_name == name;
        assert(rs[i].options_name == name);
    }
    if removes(rs, name) {
        let i = choose|i: int| 0 <= i < rs.len() && (#[trigger] rs[i]).options_name == name;
        if i < kept.len() {
            assert(kept[i].options_name == name);
        } else {
            let j = i - kept.len();
            assert(rs[i] == removal_of(dir, left[j], "port has no options"@));
            lemma_filter_holds(q, p);
            assert(left.contains(left[j]));
            assert(p(name));
        }
    }
}

/// No file is left over once those left over were removed.
proof fn lemma_nothing_left(
    ports: Map<KeyView, InfoView>,
    later: Map<KeyView, InfoView>,
    dir: Str,
    files: Map<Str, SavedView>,
    minimal: bool,
)
    requires
        ports.dom().finite(),
        files.dom().finite(),
        ports.dom() == later.dom(),
        forall|k: KeyView| #[trigger] ports.dom().contains(k) ==> same_port(ports[k], later[k]),
    ensures
        ({
            let now = files_after(files, sync_plan(ports, dir, files, minimal));
            ordered::<String>(now.dom()).filter(optionless(later)).len() == 0
        }),
{
    let first = sync_plan(ports, dir, files, minimal);
    let now = files_after(files, first);
    let cs = sync_choices_of(ports, files);
    let kept = plan_kept(cs, dir, files, minimal);
    let p = optionless(ports);
    let q = ordered::<String>(files.dom());
    lemma_used_finite(ports, files);
    lemma_plan_kept(cs, dir, files, minimal);
    lemma_ordered::<String>(files.dom());
    lemma_filter_holds(q, p);
    assert(optionless(later) =~= p) by {
        assert forall|n: Str| #[trigger] optionless(later)(n) == p(n) by {
            if p(n) {
                let k = choose|k: KeyView| #[trigger]
                    ports.dom().contains(k) && ports[k].options_name == n;
                assert(later.dom().contains(k) && later[k].options_name == n);
            }
            if optionless(later)(n) {
                let k = choose|k: KeyView| #[trigger]
                    later.dom().contains(k) && later[k].options_name == n;
                assert(ports.dom().contains(k) && ports[k].options_name == n);
            }
        }
    }
    assert forall|n: Str| now.dom().contains(n) implies !p(n) by {
        if writes_to(first.writes, n) {
            let i = choose|i: int|
                0 <= i < first.writes.len() && (#[trigger] first.writes[i]).options_name == n;
            assert(used_names(cs).contains(n));
            let j = choose|j: int| 0 <= j < cs.len() && shares((#[trigger] cs[j]).info, n);
            let ks = ordered::<PortKey>(ports.dom());
            lemma_ordered::<PortKey>(ports.dom());
            assert(ks.contains(ks[j]));
            assert(ports.dom().contains(ks[j]));
        } else if p(n) {
            let left = q.filter(p);
            assert(q.contains(n));
            assert(left.contains(n));
            let i = choose|i: int| 0 <= i < left.len() && left[i] == n;
            let rs = first.removals;
            assert(rs[kept.removals.len() + i] == removal_of(dir, n, "port has no options"@));
            assert(removes(rs, n));
        }
    }
    let again = ordered::<String>(now.dom()).filter(optionless(later));
    lemma_now_finite(files, first);
    lemma_ordered::<String>(now.dom());
    lemma_filter_holds(ordered::<String>(now.dom()), optionless(later));
    if again.len() > 0 {
        assert(again.contains(again[0]));
        assert(now.dom().contains(again[0]));
    }
}

proof fn lemma_now_finite(files: Map<Str, SavedView>, p: PlanView)
    requires
        files.dom().finite(),
    ensures
        files_after(files, p).dom().finite(),
{
    let ws = p.writes.map_values(|w: WriteView| w.options_name);
    let all = ws.to_set().union(files.dom());
    vstd::seq_lib::seq_to_set_is_finite(ws);
    let now = files_after(files, p).dom();
    assert forall|n: Str| now.contains(n) implies all.contains(n) by {
        if writes_to(p.writes, n) {
            let i = choose|i: int|
                0 <= i < p.writes.len() && (#[trigger] p.writes[i]).options_name == n;
            assert(ws[i] == n);
        }
    }
    vstd::set_lib::lemma_set_subset_finite(all, now);
}

// ---------------------------------------------------------------------
// What a plan comes to
// ---------------------------------------------------------------------

/// Whether the choice at an index decides an options file: its port has options
/// and uses the file, and it is the first default flavor (or port without
/// flavors) that does, or the first port where no default flavor does.
pub open spec fn decides(cs: Seq<ChoiceView>, d: int, name: Str) -> bool {
    &&& 0 <= d < cs.len()
    &&& cs[d].info.options.complete.len() > 0 && cs[d].info.options_name == name
    &&& {
        let plain = |c: ChoiceView|
            c.info.canonical.flavor is None || (c.info.flavors.len() > 0 && c.info.canonical.flavor
                == Some(c.info.flavors[0]));
        let uses = |c: ChoiceView|
            c.info.options.complete.len() > 0 && c.info.options_name == name;
        ||| plain(cs[d]) && forall|j: int|
            0 <= j < d && uses(#[trigger] cs[j]) ==> !plain(cs[j])
        ||| (forall|j: int| 0 <= j < cs.len() && uses(#[trigger] cs[j]) ==> !plain(cs[j]))
            && forall|j: int| 0 <= j < d ==> !uses(#[trigger] cs[j])
    }
}

proof fn lemma_decides(cs: Seq<ChoiceView>, d: int, name: Str)
    requires
        decides(cs, d, name),
    ensures
        chosen(cs, name) == Some(cs[d]),
        used_names(cs).contains(name),
{
    let first = |c: ChoiceView| shares(c.info, name) && preferred(c.info);
    let any = |c: ChoiceView| shares(c.info, name);
    assert(shares(cs[d].info, name));
    if preferred(cs[d].info) {
        assert forall|j: int| 0 <= j < d implies !first(#[trigger] cs[j]) by {}
        lemma_first_where_is(cs, first, d);
    } else {
        assert forall|j: int| 0 <= j < cs.len() implies !first(#[trigger] cs[j]) by {}
        lemma_first_where_none(cs, first);
        assert forall|j: int| 0 <= j < d implies !any(#[trigger] cs[j]) by {}
        lemma_first_where_is(cs, any, d);
    }
}

/// Every options file that a port with options uses is decided by some choice.
pub proof fn law_decided(cs: Seq<ChoiceView>, i: int) -> (d: int)
    requires
        0 <= i < cs.len(),
        cs[i].info.options.complete.len() > 0,
    ensures
        decides(cs, d, cs[i].info.options_name),
{
    let name = cs[i].info.options_name;
    let uses = |c: ChoiceView| c.info.options.complete.len() > 0 && c.info.options_name == name;
    let plain = |c: ChoiceView|
        c.info.canonical.flavor is None || (c.info.flavors.len() > 0 && c.info.canonical.flavor
            == Some(c.info.flavors[0]));
    if exists|j: int| 0 <= j < cs.len() && uses(#[trigger] cs[j]) && plain(cs[j]) {
        let j = choose|j: int| 0 <= j < cs.len() && uses(#[trigger] cs[j]) && plain(cs[j]);
        lemma_least(cs, |c: ChoiceView| uses(c) && plain(c), j)
    } else {
        assert(uses(cs[i]));
        lemma_least(cs, uses, i)
    }
}

proof fn lemma_least(cs: Seq<ChoiceView>, p: spec_fn(ChoiceView) -> bool, i: int) -> (d: int)
    requires
        0 <= i < cs.len(),
        p(cs[i]),
    ensures
        0 <= d <= i,
        p(cs[d]),
        forall|j: int| 0 <= j < d ==> !p(#[trigger] cs[j]),
    decreases i,
{
    if exists|j: int| 0 <= j < i && p(#[trigger] cs[j]) {
        let j = choose|j: int| 0 <= j < i && p(#[trigger] cs[j]);
        lemma_least(cs, p, j)
    } else {
        i
    }
}

proof fn lemma_names_finite(cs: Seq<ChoiceView>)
    ensures
        used_names(cs).finite(),
{
    let all = cs.map_values(|c: ChoiceView| c.info.options_name).to_set();
    assert forall|n: Str| used_names(cs).contains(n) implies all.contains(n) by {
        let i = choose|i: int| 0 <= i < cs.len() && shares((#[trigger] cs[i]).info, n);
        assert(cs.map_values(|c: ChoiceView| c.info.options_name)[i] == n);
    }
    vstd::seq_lib::seq_to_set_is_finite(cs.map_values(|c: ChoiceView| c.info.options_name));
    vstd::set_lib::lemma_set_subset_finite(all, used_names(cs));
}

/// An options file in use is left alone exactly where it exists and records the
/// options that the deciding port has and, of them, the chosen ones as on: no
/// more and no fewer. With `--minimal` one that would repeat what defaults and
/// make.conf give is not written either, and is removed where it exists.
pub proof fn law_plan_writes(
    cs: Seq<ChoiceView>,
    dir: Str,
    files: Map<Str, SavedView>,
    minimal: bool,
    name: Str,
    d: int,
)
    requires
        decides(cs, d, name),
    ensures
        ({
            let p = plan_kept(cs, dir, files, minimal);
            let current = files.dom().contains(name) && files[name].set == cs[d].enabled && forall|
                x: Str,
            | #[trigger]
                files[name].complete.contains(x) <==> cs[d].info.options.complete.contains(x);
            let repeated = cs[d].enabled == nofile(cs[d].info.options);
            &&& !minimal ==> (writes_to(p.writes, name) <==> !current)
            &&& !minimal ==> p.removals.len() == 0
            &&& minimal ==> (writes_to(p.writes, name) <==> !current && !repeated)
            &&& minimal ==> (removes(p.removals, name) <==> repeated && files.dom().contains(name))
        }),
{
    lemma_decides(cs, d, name);
    lemma_names_finite(cs);
    lemma_plan_kept(cs, dir, files, minimal);
    if files.dom().contains(name) {
        let a = files[name].complete;
        let b = cs[d].info.options.complete;
        assert(forall|x: Str| a.to_set().contains(x) <==> a.contains(x));
        assert(forall|x: Str| b.to_set().contains(x) <==> b.contains(x));
        if forall|x: Str| #[trigger] a.contains(x) <==> b.contains(x) {
            assert(a.to_set() =~= b.to_set());
        }
        if a.to_set() == b.to_set() {
            assert forall|x: Str| #[trigger] a.contains(x) <==> b.contains(x) by {
                assert(a.to_set().contains(x) <==> b.to_set().contains(x));
            }
        }
    }
}

/// What a write is: to a file that some port with options uses, for the port
/// that decides it, with its options and those chosen, and against the file
/// that was there. The files come in the order of their names, each once.
pub proof fn law_plan_write_is(
    cs: Seq<ChoiceView>,
    dir: Str,
    files: Map<Str, SavedView>,
    minimal: bool,
    i: int,
    j: int,
)
    requires
        0 <= i < plan_kept(cs, dir, files, minimal).writes.len(),
    ensures
        ({
            let ws = plan_kept(cs, dir, files, minimal).writes;
            let w = ws[i];
            &&& exists|d: int| #[trigger]
                decides(cs, d, w.options_name) && w.key == cs[d].key && w.enabled
                    == cs[d].enabled && w.complete == cs[d].info.options.complete && w.content
                    == rendered(cs[d].info.pkgname, w.complete, w.enabled)
            &&& w.path == joined(joined(dir, w.options_name), "options"@)
            &&& files.dom().contains(w.options_name) ==> w.old == Some(files[w.options_name])
            &&& !files.dom().contains(w.options_name) ==> w.old is None
            &&& i < j < ws.len() ==> lex(w.options_name, ws[j].options_name)
        }),
{
    let ws = plan_kept(cs, dir, files, minimal).writes;
    let n = ws[i].options_name;
    lemma_names_finite(cs);
    lemma_plan_kept(cs, dir, files, minimal);
    assert(used_names(cs).contains(n));
    let k = choose|k: int| 0 <= k < cs.len() && shares((#[trigger] cs[k]).info, n);
    let d = law_decided(cs, k);
    lemma_decides(cs, d, n);
    assert(ws[i] == write_of(cs[d], n, dir, files));
    let names = ordered::<String>(used_names(cs));
    lemma_ordered::<String>(used_names(cs));
    lemma_plan_order(names, cs, dir, files);
    let all = plan_over(names, cs, dir, files).0;
    if i < j < ws.len() {
        if minimal {
            lemma_filter_order(all, worth_writing(cs));
            assert(lex(ws[i].options_name, ws[j].options_name));
        } else {
            assert(lex(all[i].options_name, all[j].options_name));
        }
    }
}

proof fn lemma_plan_order(
    names: Seq<Str>,
    cs: Seq<ChoiceView>,
    dir: Str,
    files: Map<Str, SavedView>,
)
    requires
        increasing::<String>(names),
    ensures
        ({
            let ws = plan_over(names, cs, dir, files).0;
            forall|i: int, j: int|
                0 <= i < j < ws.len() ==> lex(
                    (#[trigger] ws[i]).options_name,
                    (#[trigger] ws[j]).options_name,
                )
        }),
    decreases names.len(),
{
    if names.len() > 0 {
        let rest = names.drop_last();
        assert forall|i: int, j: int| 0 <= i < j < rest.len() implies lex(
            #[trigger] rest[i],
            #[trigger] rest[j],
        ) by {
            assert(lex(names[i], names[j]));
        }
        lemma_plan_order(rest, cs, dir, files);
        lemma_plan_over(rest, cs, dir, files);
        let before = plan_over(rest, cs, dir, files).0;
        let ws = plan_over(names, cs, dir, files).0;
        assert forall|i: int, j: int| 0 <= i < j < ws.len() implies lex(
            (#[trigger] ws[i]).options_name,
            (#[trigger] ws[j]).options_name,
        ) by {
            assert(ws[i] == before[i]);
            if j < before.len() {
                assert(ws[j] == before[j]);
            } else {
                assert(rest.contains(before[i].options_name));
                let k = choose|k: int| 0 <= k < rest.len() && rest[k] == before[i].options_name;
                assert(lex(names[k], names[names.len() - 1]));
            }
        }
    }
}

/// Filtering writes keeps their order.
proof fn lemma_filter_order(ws: Seq<WriteView>, p: spec_fn(WriteView) -> bool)
    requires
        forall|i: int, j: int|
            0 <= i < j < ws.len() ==> lex(
                (#[trigger] ws[i]).options_name,
                (#[trigger] ws[j]).options_name,
            ),
    ensures
        forall|i: int, j: int|
            0 <= i < j < ws.filter(p).len() ==> lex(
                (#[trigger] ws.filter(p)[i]).options_name,
                (#[trigger] ws.filter(p)[j]).options_name,
            ),
    decreases ws.len(),
{
    reveal(Seq::filter);
    if ws.len() > 0 {
        let d = ws.drop_last();
        lemma_filter_order(d, p);
        lemma_filter_holds(d, p);
        let f = ws.filter(p);
        let g = d.filter(p);
        assert forall|i: int, j: int| 0 <= i < j < f.len() implies lex(
            (#[trigger] f[i]).options_name,
            (#[trigger] f[j]).options_name,
        ) by {
            assert(f[i] == g[i]);
            if j < g.len() {
                assert(f[j] == g[j]);
            } else {
                assert(g.contains(g[i]));
                let k = choose|k: int| 0 <= k < d.len() && d[k] == g[i];
                assert(lex(ws[k].options_name, ws[ws.len() - 1].options_name));
            }
        }
    }
}

/// Once a plan was carried out, every options file in use records the options
/// of the port that decides it, the chosen ones as on and the others as not; with
/// `--minimal` it does, or the file is not there and what would be recorded is
/// what defaults and make.conf give. Package names and options are single words,
/// and only options that a port has are chosen.
pub proof fn law_plan_carried_out(
    cs: Seq<ChoiceView>,
    dir: Str,
    files: Map<Str, SavedView>,
    minimal: bool,
    name: Str,
    d: int,
)
    requires
        decides(cs, d, name),
        is_word(cs[d].info.pkgname),
        forall|i: int|
            0 <= i < cs[d].info.options.complete.len() ==> is_word(
                #[trigger] cs[d].info.options.complete[i],
            ),
        forall|x: Str| #[trigger]
            cs[d].enabled.contains(x) ==> cs[d].info.options.complete.contains(x),
    ensures
        ({
            let now = files_after(files, plan_kept(cs, dir, files, minimal));
            if minimal && cs[d].enabled == nofile(cs[d].info.options) {
                !now.dom().contains(name)
            } else {
                &&& now.dom().contains(name)
                &&& now[name].set == cs[d].enabled
                &&& forall|x: Str| #[trigger]
                    now[name].complete.contains(x) <==> cs[d].info.options.complete.contains(x)
            }
        }),
{
    let p = plan_kept(cs, dir, files, minimal);
    let now = files_after(files, p);
    let c = cs[d];
    law_plan_writes(cs, dir, files, minimal, name, d);
    lemma_decides(cs, d, name);
    lemma_names_finite(cs);
    lemma_plan_kept(cs, dir, files, minimal);
    if writes_to(p.writes, name) {
        let i = choose|i: int|
            0 <= i < p.writes.len() && (#[trigger] p.writes[i]).options_name == name;
        let w = write_to(p.writes, name);
        assert(w == write_of(c, name, dir, files));
        law_render_parse(c.info.pkgname, c.info.options.complete, c.enabled);
        let all = c.info.options.complete;
        assert(forall|x: Str| all.to_set().contains(x) <==> all.contains(x));
        assert(all.to_set().intersect(c.enabled) =~= c.enabled);
    } else if !(minimal && c.enabled == nofile(c.info.options)) {
        assert(!removes(p.removals, name)) by {
            if !minimal && removes(p.removals, name) {
                assert(p.removals.len() > 0);
            }
        }
        assert(now.dom().contains(name) && now[name] == files[name]);
    }
}

/// A file that no port with options uses is neither written nor removed by a
/// plan.
pub proof fn law_plan_spares(
    cs: Seq<ChoiceView>,
    dir: Str,
    files: Map<Str, SavedView>,
    minimal: bool,
    name: Str,
)
    requires
        forall|i: int|
            0 <= i < cs.len() && (#[trigger] cs[i]).info.options_name == name
                ==> cs[i].info.options.complete.len() == 0,
    ensures
        !writes_to(plan_kept(cs, dir, files, minimal).writes, name),
        !removes(plan_kept(cs, dir, files, minimal).removals, name),
{
    let p = plan_kept(cs, dir, files, minimal);
    lemma_names_finite(cs);
    lemma_plan_kept(cs, dir, files, minimal);
    assert(!used_names(cs).contains(name));
    if writes_to(p.writes, name) {
        let i = choose|i: int|
            0 <= i < p.writes.len() && (#[trigger] p.writes[i]).options_name == name;
        assert(used_names(cs).contains(p.writes[i].options_name));
    }
}

/// A flavor that uses a file and disagrees with the port that decides it on an
/// option both have is remarked on, with the options they disagree on; where no
/// flavor does there is no remark.
pub proof fn law_plan_warns(
    cs: Seq<ChoiceView>,
    dir: Str,
    files: Map<Str, SavedView>,
    name: Str,
    d: int,
    j: int,
    differ: Seq<Str>,
)
    requires
        decides(cs, d, name),
        0 <= j < cs.len(),
        cs[j].info.options.complete.len() > 0,
        cs[j].info.options_name == name,
        increasing::<String>(differ),
        forall|x: Str| #[trigger]
            differ.contains(x) <==> cs[d].info.options.complete.contains(x)
                && cs[j].info.options.complete.contains(x) && cs[d].enabled.contains(x)
                != cs[j].enabled.contains(x),
    ensures
        differ.len() > 0 ==> plan(cs, dir, files).1.contains(
            key_text(cs[j].key) + ": flavors disagree on shared options file "@ + name
                + " — using "@ + key_text(cs[d].key)
                + " (default flavor); differing shared options: "@ + join(differ, " "@),
        ),
{
    lemma_decides(cs, d, name);
    lemma_names_finite(cs);
    lemma_ordered::<String>(used_names(cs));
    lemma_differ(cs[j], cs[d], differ);
    let by = cs[d];
    let p = |c: ChoiceView| disputes(c, by, name);
    let f = |c: ChoiceView| dispute_text(c, by, name);
    if differ.len() > 0 {
        lemma_filter_holds(cs, p);
        assert(p(cs[j]));
        assert(cs.contains(cs[j]));
        let kept = cs.filter(p);
        assert(kept.contains(cs[j]));
        let k = choose|k: int| 0 <= k < kept.len() && kept[k] == cs[j];
        let rs = remarks(cs, by, name);
        assert(rs[k] == dispute_text(cs[j], by, name));
        assert(rs.contains(dispute_text(cs[j], by, name)));
        lemma_warned(ordered::<String>(used_names(cs)), cs, dir, files, name, rs[k]);
    }
}

proof fn lemma_differ(other: ChoiceView, by: ChoiceView, differ: Seq<Str>)
    requires
        increasing::<String>(differ),
        forall|x: Str| #[trigger]
            differ.contains(x) <==> by.info.options.complete.contains(x)
                && other.info.options.complete.contains(x) && by.enabled.contains(x)
                != other.enabled.contains(x),
    ensures
        disputed(other, by) == differ,
{
    let s = other.enabled.difference(by.enabled).union(
        by.enabled.difference(other.enabled),
    ).intersect(by.info.options.complete.to_set()).intersect(
        other.info.options.complete.to_set(),
    );
    assert forall|x: Str| differ.to_set().contains(x) <==> s.contains(x) by {
        assert(differ.to_set().contains(x) <==> differ.contains(x));
        assert(by.info.options.complete.to_set().contains(x)
            <==> by.info.options.complete.contains(x));
        assert(other.info.options.complete.to_set().contains(x)
            <==> other.info.options.complete.contains(x));
    }
    assert(differ.to_set() =~= s);
    lemma_ordered_is::<String>(differ);
}

proof fn lemma_warned(
    names: Seq<Str>,
    cs: Seq<ChoiceView>,
    dir: Str,
    files: Map<Str, SavedView>,
    name: Str,
    m: Str,
)
    requires
        names.contains(name),
        remarks(cs, chosen(cs, name)->0, name).contains(m),
    ensures
        plan_over(names, cs, dir, files).1.contains(m),
    decreases names.len(),
{
    let rest = names.drop_last();
    let before = plan_over(rest, cs, dir, files).1;
    let last = names.last();
    let more = remarks(cs, chosen(cs, last)->0, last);
    let all = plan_over(names, cs, dir, files).1;
    assert(all == before + more);
    if name == last {
        let k = choose|k: int| 0 <= k < more.len() && more[k] == m;
        assert(all[before.len() + k] == m);
    } else {
        let i = choose|i: int| 0 <= i < names.len() && names[i] == name;
        assert(rest[i] == name);
        lemma_warned(rest, cs, dir, files, name, m);
        let k = choose|k: int| 0 <= k < before.len() && before[k] == m;
        assert(all[k] == m);
    }
}

/// Nothing is remarked on where no two ports that share a file disagree on an
/// option both have.
pub proof fn law_plan_quiet(cs: Seq<ChoiceView>, dir: Str, files: Map<Str, SavedView>)
    requires
        forall|i: int, j: int, x: Str|
            0 <= i < cs.len() && 0 <= j < cs.len() && (#[trigger] cs[i]).info.options_name == (
            #[trigger] cs[j]).info.options_name && #[trigger] cs[i].info.options.complete.contains(
                x,
            ) && cs[j].info.options.complete.contains(x) ==> cs[i].enabled.contains(x)
                == cs[j].enabled.contains(x),
    ensures
        plan(cs, dir, files).1.len() == 0,
{
    let names = ordered::<String>(used_names(cs));
    lemma_names_finite(cs);
    lemma_ordered::<String>(used_names(cs));
    assert forall|n: int| 0 <= n < names.len() implies remarks(
        cs,
        chosen(cs, #[trigger] names[n])->0,
        names[n],
    ).len() == 0 by {
        let name = names[n];
        assert(names.contains(name));
        assert(used_names(cs).contains(name));
        let k = choose|k: int| 0 <= k < cs.len() && shares((#[trigger] cs[k]).info, name);
        let d = law_decided(cs, k);
        lemma_decides(cs, d, name);
        let by = cs[d];
        let p = |c: ChoiceView| disputes(c, by, name);
        lemma_filter_holds(cs, p);
        let kept = cs.filter(p);
        if kept.len() > 0 {
            assert(kept.contains(kept[0]));
            let j = choose|j: int| 0 <= j < cs.len() && cs[j] == kept[0];
            assert(p(cs[j]));
            let empty = Seq::<Str>::empty();
            assert forall|x: Str| #[trigger] empty.contains(x)
                <==> by.info.options.complete.contains(x) && cs[j].info.options.complete.contains(x)
                && by.enabled.contains(x) != cs[j].enabled.contains(x) by {
                if cs[d].info.options.complete.contains(x) && cs[j].info.options.complete.contains(
                    x,
                ) {
                    assert(cs[d].enabled.contains(x) == cs[j].enabled.contains(x));
                }
            }
            lemma_differ(cs[j], by, empty);
            assert(false);
        }
    }
    lemma_no_remarks(names, cs, dir, files);
}

proof fn lemma_no_remarks(
    names: Seq<Str>,
    cs: Seq<ChoiceView>,
    dir: Str,
    files: Map<Str, SavedView>,
)
    requires
        forall|n: int|
            0 <= n < names.len() ==> remarks(
                cs,
                chosen(cs, #[trigger] names[n])->0,
                names[n],
            ).len() == 0,
    ensures
        plan_over(names, cs, dir, files).1.len() == 0,
    decreases names.len(),
{
    if names.len() > 0 {
        let rest = names.drop_last();
        assert forall|n: int| 0 <= n < rest.len() implies remarks(
            cs,
            chosen(cs, #[trigger] rest[n])->0,
            rest[n],
        ).len() == 0 by {
            assert(rest[n] == names[n]);
        }
        lemma_no_remarks(rest, cs, dir, files);
        assert(names[names.len() - 1] == names.last());
    }
}

/// A sync chooses for every port the options it has that its file records as on,
/// or that make has on where the file takes no note of them. It removes the file
/// of a port without options, and with `--minimal` also those that a plan
/// removes.
pub proof fn law_sync_plan(
    ports: Map<KeyView, InfoView>,
    dir: Str,
    files: Map<Str, SavedView>,
    minimal: bool,
    k: KeyView,
    x: Str,
    name: Str,
)
    requires
        ports.dom().finite(),
        files.dom().finite(),
    ensures
        ({
            let cs = sync_choices_of(ports, files);
            let p = sync_plan(ports, dir, files, minimal);
            let q = plan_kept(cs, dir, files, minimal);
            &&& p.writes == q.writes
            &&& ports.dom().contains(k) <==> exists|i: int|
                0 <= i < cs.len() && (#[trigger] cs[i]).key == k
            &&& forall|i: int|
                0 <= i < cs.len() && (#[trigger] cs[i]).key == k ==> cs[i].info == ports[k] && (
                cs[i].enabled.contains(x) <==> ports[k].options.complete.contains(x) && {
                    let f = ports[k].options_name;
                    if files.dom().contains(f) && (files[f].complete.contains(x)
                        || files[f].set.contains(x) || files[f].unset.contains(x)) {
                        files[f].set.contains(x)
                    } else {
                        ports[k].options.effective.contains(x)
                    }
                })
            &&& removes(p.removals, name) <==> removes(q.removals, name) || (files.dom().contains(
                name,
            ) && (exists|j: KeyView| #[trigger]
                ports.dom().contains(j) && ports[j].options_name == name) && forall|j: KeyView|
             #[trigger]
                ports.dom().contains(j) && ports[j].options_name == name
                    ==> ports[j].options.complete.len() == 0)
        }),
{
    let cs = sync_choices_of(ports, files);
    let p = sync_plan(ports, dir, files, minimal);
    let q = plan_kept(cs, dir, files, minimal);
    let keys = ordered::<PortKey>(ports.dom());
    lemma_ordered::<PortKey>(ports.dom());
    lemma_ordered::<String>(files.dom());
    if ports.dom().contains(k) {
        assert(keys.contains(k));
        let i = choose|i: int| 0 <= i < keys.len() && keys[i] == k;
        assert(cs[i].key == k);
    }
    assert forall|i: int| 0 <= i < cs.len() implies ports.dom().contains(
        (#[trigger] cs[i]).key,
    ) by {
        assert(keys.contains(keys[i]));
    }
    let names = ordered::<String>(files.dom());
    let o = optionless(ports);
    lemma_filter_holds(names, o);
    let left = names.filter(o);
    let why = "port has no options"@;
    let more = removals_of(dir, left, why);
    assert(p.removals == q.removals + more);
    if removes(p.removals, name) {
        let i = choose|i: int|
            0 <= i < p.removals.len() && (#[trigger] p.removals[i]).options_name == name;
        if i < q.removals.len() {
            assert(q.removals[i].options_name == name);
        } else {
            let m = i - q.removals.len();
            assert(more[m] == removal_of(dir, left[m], why));
            assert(left.contains(left[m]));
            assert(o(name));
        }
    }
    if removes(q.removals, name) {
        let i = choose|i: int|
            0 <= i < q.removals.len() && (#[trigger] q.removals[i]).options_name == name;
        assert(p.removals[i].options_name == name);
    }
    if files.dom().contains(name) && o(name) {
        assert(left.contains(name));
        let m = choose|m: int| 0 <= m < left.len() && left[m] == name;
        assert(p.removals[q.removals.len() + m].options_name == name);
    }
}

} // verus!
