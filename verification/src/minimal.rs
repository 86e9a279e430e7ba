//! Options files that need not exist.
use vstd::prelude::*;

use crate::apply::{choose_owner, chosen, names_of, plan, plan_writes, used_names, ChoiceView};
use crate::apply::{PendingWrite, PlannedWrites, PortChoice, WriteView};
use crate::clean::{Removal, RemovalView};
use crate::list::{lemma_filter_none, lemma_filter_one};
use crate::model::origin::{KeyView, PortKey};
use crate::model::port::{InfoView, PortInfo};
use crate::optionsfile::{SavedOptionsFile, SavedView};
use crate::path::{join_path, joined};
use crate::session::layers::{nofile, nofile_effective};
use crate::sorted::{lemma_ordered, ordered, SortedMap, SortedSet};
use crate::text::{owned, same, views, Str};

verus! {

/// The removal of an options file.
pub open spec fn removal_of(dir: Str, name: Str, reason: Str) -> RemovalView {
    RemovalView { options_name: name, dir: joined(dir, name), reason }
}

fn new_removal(dir: &str, name: &str, reason: &str) -> (r: Removal)
    ensures
        r@ == removal_of(dir@, name@, reason@),
{
    Removal { options_name: owned(name), dir: join_path(dir, name), reason: owned(reason) }
}

// ---------------------------------------------------------------------
// Files that repeat what is decided anyway
// ---------------------------------------------------------------------

/// Whether an options file would record just what defaults and make.conf give
/// without it.
pub open spec fn repeats(cs: Seq<ChoiceView>, name: Str) -> bool {
    used_names(cs).contains(name) && chosen(cs, name)->0.enabled == nofile(
        chosen(cs, name)->0.info.options,
    )
}

/// Whether a write records something that is not decided anyway.
pub open spec fn worth_writing(cs: Seq<ChoiceView>) -> spec_fn(WriteView) -> bool {
    |w: WriteView| !repeats(cs, w.options_name)
}

/// Whether a file exists that records nothing of its own.
pub open spec fn superfluous(cs: Seq<ChoiceView>, files: Map<Str, SavedView>) -> spec_fn(
    Str,
) -> bool {
    |n: Str| repeats(cs, n) && files.dom().contains(n)
}

/// The removals of some options files.
pub open spec fn removals_of(dir: Str, names: Seq<Str>, reason: Str) -> Seq<RemovalView> {
    names.map_values(|n: Str| removal_of(dir, n, reason))
}

fn is_repeat(ports: &Vec<PortChoice>, names: &SortedSet<String>, name: &String) -> (r: bool)
    requires
        names@ == used_names(views(ports@)),
    ensures
        r == repeats(views(ports@), name@),
{
    if !names.contains(name) {
        return false;
    }
    let at = choose_owner(ports, name.as_str());
    let without = nofile_effective(ports[at].info);
    ports[at].enabled.equals(&without)
}

/// With `--minimal` only files that change the outcome are kept: of the planned
/// writes those that repeat defaults and make.conf are dropped, and such files
/// as exist already are removed.
pub fn drop_redundant(
    planned: PlannedWrites,
    ports: &Vec<PortChoice>,
    options_dir: &str,
    files: &SortedMap<String, SavedOptionsFile>,
) -> (r: (PlannedWrites, Vec<Removal>))
    ensures
        ({
            let cs = views(ports@);
            &&& views(r.0.writes@) == views(planned.writes@).filter(worth_writing(cs))
            &&& views(r.0.warnings@) == views(planned.warnings@)
            &&& views(r.1@) == removals_of(
                options_dir@,
                ordered::<String>(used_names(cs)).filter(superfluous(cs, files@)),
                "repeats defaults + make.conf"@,
            )
        }),
{
    let ghost cs = views(ports@);
    let names = names_of(ports);
    let mut writes: Vec<PendingWrite> = Vec::new();
    let ghost ws = views(planned.writes@);
    let ghost p = worth_writing(cs);
    let PlannedWrites { writes: all, warnings } = planned;
    let mut rest: Vec<PendingWrite> = all;
    let mut back: Vec<PendingWrite> = Vec::new();
    while rest.len() > 0
        invariant
            ws == views(rest@) + views(back@).reverse(),
        decreases rest@.len(),
    {
        let ghost a = views(rest@);
        let ghost b = views(back@);
        match rest.pop() {
            Some(w) => {
                back.push(w);
                proof {
                    assert(views(rest@) =~= a.drop_last());
                    assert(views(back@) =~= b.push(a.last()));
                    assert(ws =~= views(rest@) + views(back@).reverse());
                }
            },
            None => {},
        }
    }
    let ghost n = ws.len();
    proof {
        lemma_filter_none(ws, p);
        assert(ws =~= views(back@).reverse());
        assert(views(writes@) =~= ws.take(0).filter(p));
    }
    while back.len() > 0
        invariant
            cs == views(ports@),
            names@ == used_names(cs),
            p == worth_writing(cs),
            n == ws.len(),
            back@.len() <= n,
            views(back@).reverse() == ws.skip(n - back@.len()),
            views(writes@) == ws.take(n - back@.len()).filter(p),
        decreases back@.len(),
    {
        let ghost i = n - back@.len();
        let ghost b = views(back@);
        match back.pop() {
            Some(w) => {
                proof {
                    assert(views(back@) =~= b.drop_last());
                    assert(b.reverse()[0] == w@);
                    assert(ws.skip(i)[0] == ws[i]);
                    assert(views(back@).reverse() =~= b.reverse().skip(1));
                    assert(ws.skip(i).skip(1) =~= ws.skip(i + 1));
                    lemma_filter_one(ws, i, p);
                }
                if !is_repeat(ports, &names, &w.options_name) {
                    let ghost was = views(writes@);
                    writes.push(w);
                    assert(views(writes@) =~= was.push(ws[i]));
                }
            },
            None => {},
        }
    }
    assert(ws.take(n as int) =~= ws);
    let ghost q = ordered::<String>(used_names(cs));
    let ghost s = superfluous(cs, files@);
    let count = names.len();
    let mut removals: Vec<Removal> = Vec::new();
    let mut i: usize = 0;
    proof {
        lemma_filter_none(q, s);
        assert(views(removals@) =~= removals_of(
            options_dir@,
            q.take(0).filter(s),
            "repeats defaults + make.conf"@,
        ));
    }
    while i < count
        invariant
            i <= count,
            count == q.len(),
            cs == views(ports@),
            names@ == used_names(cs),
            q == ordered::<String>(used_names(cs)),
            s == superfluous(cs, files@),
            views(removals@) == removals_of(
                options_dir@,
                q.take(i as int).filter(s),
                "repeats defaults + make.conf"@,
            ),
        decreases count - i,
    {
        let name = names.at(i);
        proof {
            lemma_filter_one(q, i as int, s);
        }
        if files.contains_key(name) && is_repeat(ports, &names, name) {
            let ghost was = views(removals@);
            let x = new_removal(options_dir, name.as_str(), "repeats defaults + make.conf");
            removals.push(x);
            assert(views(removals@) =~= was.push(x@));
            assert(views(removals@) =~= removals_of(
                options_dir@,
                q.take(i + 1).filter(s),
                "repeats defaults + make.conf"@,
            ));
        }
        i = i + 1;
    }
    assert(q.take(count as int) =~= q);
    (PlannedWrites { writes, warnings }, removals)
}

/// What is to be done to the options dir.
#[verifier::ext_equal]
pub struct PlanView {
    pub writes: Seq<WriteView>,
    pub warnings: Seq<Str>,
    pub removals: Seq<RemovalView>,
}

/// What is to be done for some choices: with `--minimal` only files that change
/// the outcome are written or kept.
pub open spec fn plan_kept(
    cs: Seq<ChoiceView>,
    dir: Str,
    files: Map<Str, SavedView>,
    minimal: bool,
) -> PlanView {
    let (writes, warnings) = plan(cs, dir, files);
    if minimal {
        PlanView {
            writes: writes.filter(worth_writing(cs)),
            warnings,
            removals: removals_of(
                dir,
                ordered::<String>(used_names(cs)).filter(superfluous(cs, files)),
                "repeats defaults + make.conf"@,
            ),
        }
    } else {
        PlanView { writes, warnings, removals: Seq::empty() }
    }
}

/// What is to be done for some choices: `files` holds the options files that
/// exist.
pub fn plan_choices(
    ports: &Vec<PortChoice>,
    options_dir: &str,
    files: &SortedMap<String, SavedOptionsFile>,
    minimal: bool,
) -> (r: (PlannedWrites, Vec<Removal>))
    ensures
        (PlanView {
            writes: views(r.0.writes@),
            warnings: views(r.0.warnings@),
            removals: views(r.1@),
        }) == plan_kept(views(ports@), options_dir@, files@, minimal),
{
    let planned = plan_writes(ports, options_dir, files);
    if minimal {
        drop_redundant(planned, ports, options_dir, files)
    } else {
        let none: Vec<Removal> = Vec::new();
        assert(views(none@) =~= Seq::<RemovalView>::empty());
        (planned, none)
    }
}

// ---------------------------------------------------------------------
// Files of ports without options
// ---------------------------------------------------------------------

/// Whether ports use an options file and none of them has an option.
pub open spec fn optionless(ports: Map<KeyView, InfoView>) -> spec_fn(Str) -> bool {
    |n: Str|
        (exists|k: KeyView| #[trigger] ports.dom().contains(k) && ports[k].options_name == n) && (
        forall|k: KeyView| #[trigger]
            ports.dom().contains(k) && ports[k].options_name == n
                ==> ports[k].options.complete.len() == 0)
}

fn is_optionless(ports: &SortedMap<PortKey, PortInfo>, name: &str) -> (r: bool)
    ensures
        r == optionless(ports@)(name@),
{
    let n = ports.len();
    let ghost q = ordered::<PortKey>(ports@.dom());
    proof {
        lemma_ordered::<PortKey>(ports@.dom());
    }
    let mut used = false;
    let mut i: usize = 0;
    while i < n
        invariant
            i <= n,
            n == q.len(),
            q == ordered::<PortKey>(ports@.dom()),
            forall|k: KeyView| ports@.dom().contains(k) <==> q.contains(k),
            used == (exists|j: int| 0 <= j < i && ports@[#[trigger] q[j]].options_name == name@),
            forall|j: int|
                0 <= j < i && ports@[#[trigger] q[j]].options_name == name@
                    ==> ports@[q[j]].options.complete.len() == 0,
        decreases n - i,
    {
        let info = ports.value_at(i);
        if same(info.options_name.as_str(), name) {
            if info.options.has_options() {
                proof {
                    assert(q.contains(q[i as int]));
                    assert(ports@.dom().contains(q[i as int]));
                }
                return false;
            }
            used = true;
        }
        i = i + 1;
    }
    proof {
        if used {
            let j = choose|j: int| 0 <= j < n && ports@[#[trigger] q[j]].options_name == name@;
            assert(q.contains(q[j]));
            assert(ports@.dom().contains(q[j]));
        }
        assert forall|k: KeyView| #[trigger]
            ports@.dom().contains(k) && ports@[k].options_name == name@ implies used
            && ports@[k].options.complete.len() == 0 by {
            assert(q.contains(k));
            let j = choose|j: int| 0 <= j < q.len() && q[j] == k;
            assert(ports@[q[j]].options_name == name@);
        }
    }
    used
}

/// The options files left over from ports that no longer have options, in
/// order: `files` holds those that exist.
pub fn leftover_files(
    ports: &SortedMap<PortKey, PortInfo>,
    options_dir: &str,
    files: &SortedMap<String, SavedOptionsFile>,
) -> (r: Vec<Removal>)
    ensures
        views(r@) == removals_of(
            options_dir@,
            ordered::<String>(files@.dom()).filter(optionless(ports@)),
            "port has no options"@,
        ),
{
    let ghost q = ordered::<String>(files@.dom());
    let ghost p = optionless(ports@);
    let n = files.len();
    let mut r: Vec<Removal> = Vec::new();
    let mut i: usize = 0;
    proof {
        lemma_filter_none(q, p);
        assert(views(r@) =~= removals_of(
            options_dir@,
            q.take(0).filter(p),
            "port has no options"@,
        ));
    }
    while i < n
        invariant
            i <= n,
            n == q.len(),
            q == ordered::<String>(files@.dom()),
            p == optionless(ports@),
            views(r@) == removals_of(
                options_dir@,
                q.take(i as int).filter(p),
                "port has no options"@,
            ),
        decreases n - i,
    {
        let name = files.key_at(i);
        proof {
            lemma_filter_one(q, i as int, p);
        }
        if is_optionless(ports, name.as_str()) {
            let ghost was = views(r@);
            let x = new_removal(options_dir, name.as_str(), "port has no options");
            r.push(x);
            assert(views(r@) =~= was.push(x@));
            assert(views(r@) =~= removals_of(
                options_dir@,
                q.take(i + 1).filter(p),
                "port has no options"@,
            ));
        }
        i = i + 1;
    }
    assert(q.take(n as int) =~= q);
    r
}

} // verus!
