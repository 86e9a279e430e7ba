//! What the non-interactive commands print.
use vstd::prelude::*;

use crate::apply::{described, ApplySummary, PendingWrite};
use crate::config::{Settings, SettingsView};
use crate::list::{lemma_filter_none, lemma_filter_one, lookup};
use crate::model::origin::{key_text, KeyView, PortKey};
use crate::model::port::{InfoView, PortInfo};
use crate::named::{sort_named, sorts, Named};
use crate::optionsfile::{SavedOptionsFile, SavedView};
use crate::session::layers::{saved_view, undecided, undecided_options};
use crate::sorted::{ordered, SortedMap};
use crate::text::{decimal, glue, glue3, join, join_with, list_has, number, owned, to_chars};
use crate::text::{views, Str};

verus! {

// ---------------------------------------------------------------------
// Columns
// ---------------------------------------------------------------------

/// A number of blanks.
pub open spec fn blanks(n: nat) -> Str {
    Seq::new(n, |i: int| ' ')
}

/// A text filled up with blanks to a number of characters.
pub open spec fn padded(s: Str, n: nat) -> Str {
    if s.len() < n {
        s + blanks((n - s.len()) as nat)
    } else {
        s
    }
}

/// A number of blanks.
pub fn spaces(n: usize) -> (r: String)
    ensures
        r@ == blanks(n as nat),
{
    let mut r = String::new();
    let mut i: usize = 0;
    assert(r@ =~= blanks(0));
    while i < n
        invariant
            i <= n,
            r@ == blanks(i as nat),
        decreases n - i,
    {
        r.push(' ');
        i = i + 1;
        assert(r@ =~= blanks(i as nat));
    }
    r
}

/// A text filled up with blanks to a number of characters.
pub fn pad(s: &str, n: usize) -> (r: String)
    ensures
        r@ == padded(s@, n as nat),
{
    let len = to_chars(s).len();
    let mut r = owned(s);
    if len < n {
        let b = spaces(n - len);
        r.append(b.as_str());
    }
    r
}

// ---------------------------------------------------------------------
// scan
// ---------------------------------------------------------------------

/// How a port stands against its options file.
#[derive(Debug, PartialEq, Eq)]
pub enum PortStatus {
    Unconfigured,
    /// The option list changed since the file was written.
    Stale { added: Vec<String>, removed: Vec<String> },
    Okay,
}

#[verifier::ext_equal]
pub enum PortStatusView {
    Unconfigured,
    Stale { added: Seq<Str>, removed: Seq<Str> },
    Okay,
}

impl View for PortStatus {
    type V = PortStatusView;

    open spec fn view(&self) -> PortStatusView {
        match *self {
            PortStatus::Unconfigured => PortStatusView::Unconfigured,
            PortStatus::Stale { added, removed } => PortStatusView::Stale {
                added: views(added@),
                removed: views(removed@),
            },
            PortStatus::Okay => PortStatusView::Okay,
        }
    }
}

/// The elements of a list that another does not hold, in order.
pub open spec fn not_in(a: Seq<Str>, b: Seq<Str>) -> Seq<Str> {
    a.filter(|x: Str| !b.contains(x))
}

/// How a port stands against its options file.
pub open spec fn file_status(info: InfoView, saved: Option<SavedView>) -> PortStatusView {
    match saved {
        None => PortStatusView::Unconfigured,
        Some(s) => {
            let added = not_in(info.options.complete, s.complete);
            let removed = not_in(s.complete, info.options.complete);
            if added.len() == 0 && removed.len() == 0 {
                PortStatusView::Okay
            } else {
                PortStatusView::Stale { added, removed }
            }
        },
    }
}

fn missing_from(a: &Vec<String>, b: &Vec<String>) -> (r: Vec<String>)
    ensures
        views(r@) == not_in(views(a@), views(b@)),
{
    broadcast use {crate::text::views_push, crate::text::views_empty};

    let ghost v = views(a@);
    let ghost p = |x: Str| !views(b@).contains(x);
    let mut r: Vec<String> = Vec::new();
    let mut i: usize = 0;
    proof {
        lemma_filter_none(v, p);
    }
    while i < a.len()
        invariant
            i <= a@.len(),
            v == views(a@),
            p == (|x: Str| !views(b@).contains(x)),
            views(r@) == v.take(i as int).filter(p),
        decreases a@.len() - i,
    {
        proof {
            lemma_filter_one(v, i as int, p);
            assert(v[i as int] == a@[i as int]@);
        }
        if !list_has(b, a[i].as_str()) {
            r.push(a[i].clone());
        }
        i = i + 1;
    }
    assert(v.take(a@.len() as int) =~= v);
    r
}

/// How a port stands against its options file.
pub fn port_status(info: &PortInfo, saved: Option<&SavedOptionsFile>) -> (r: PortStatus)
    ensures
        r@ == file_status(info@, saved_view(saved)),
{
    match saved {
        None => PortStatus::Unconfigured,
        Some(s) => {
            let added = missing_from(&info.options.complete, &s.complete);
            let removed = missing_from(&s.complete, &info.options.complete);
            if added.len() == 0 && removed.len() == 0 {
                PortStatus::Okay
            } else {
                PortStatus::Stale { added, removed }
            }
        },
    }
}

/// One port of a scan report.
pub struct Row {
    pub key: String,
    pub pkgname: String,
    pub status: PortStatus,
    /// The options that nothing decides.
    pub open: Vec<String>,
}

#[verifier::ext_equal]
pub struct RowView {
    pub key: Str,
    pub pkgname: Str,
    pub status: PortStatusView,
    pub open: Seq<Str>,
}

impl View for Row {
    type V = RowView;

    open spec fn view(&self) -> RowView {
        RowView {
            key: self.key@,
            pkgname: self.pkgname@,
            status: self.status@,
            open: views(self.open@),
        }
    }
}

impl Named for Row {
    open spec fn name_of(v: RowView) -> Str {
        v.key
    }

    fn name(&self) -> (r: &str) {
        self.key.as_str()
    }
}

/// The row of a port.
pub open spec fn row_of(
    key: KeyView,
    info: InfoView,
    files: Map<Str, SavedView>,
    minimal: bool,
) -> RowView {
    let saved = lookup(files, info.options_name);
    RowView {
        key: key_text(key),
        pkgname: info.pkgname,
        status: file_status(info, saved),
        open: undecided(info.options, saved, minimal),
    }
}

/// Options as a list after a sign, or nothing.
pub open spec fn detail(sign: Str, options: Seq<Str>) -> Str {
    if options.len() == 0 {
        Seq::empty()
    } else {
        " "@ + sign + join(options, " "@ + sign)
    }
}

/// What is said of the options that nothing decides.
pub open spec fn open_text(open: Seq<Str>) -> Str {
    if open.len() == 0 {
        " [mc-covered ≈]"@
    } else {
        " undecided: "@ + join(open, " "@)
    }
}

/// The columns of a row.
pub open spec fn columns(marker: Str, row: RowView) -> Str {
    marker + padded(row.key, 40) + " "@ + padded(row.pkgname, 32)
}

/// The line of a row: a marker, the port, the package, and how it stands.
pub open spec fn row_text(row: RowView) -> Str {
    match row.status {
        PortStatusView::Unconfigured => columns("?  "@, row) + " UNCONFIGURED"@ + open_text(
            row.open,
        ),
        PortStatusView::Stale { added, removed } => columns("!  "@, row) + " STALE"@ + detail(
            "+"@,
            added,
        ) + detail("-"@, removed) + open_text(row.open),
        PortStatusView::Okay => columns("   "@, row) + " ok"@,
    }
}

fn push_columns(out: &mut String, row: &Row)
    ensures
        final(out)@ == columns(old(out)@, row@),
{
    let k = pad(row.key.as_str(), 40);
    out.append(k.as_str());
    out.append(" ");
    let p = pad(row.pkgname.as_str(), 32);
    out.append(p.as_str());
}

fn push_detail(out: &mut String, sign: &str, options: &Vec<String>)
    ensures
        final(out)@ == old(out)@ + detail(sign@, views(options@)),
{
    if options.len() > 0 {
        let sep = glue(" ", sign);
        out.append(sep.as_str());
        let list = join_with(options, sep.as_str());
        out.append(list.as_str());
        assert(out@ =~= old(out)@ + detail(sign@, views(options@)));
    } else {
        assert(out@ =~= old(out)@ + detail(sign@, views(options@)));
    }
}

fn push_open(out: &mut String, open: &Vec<String>)
    ensures
        final(out)@ == old(out)@ + open_text(views(open@)),
{
    if open.len() == 0 {
        out.append(" [mc-covered ≈]");
    } else {
        out.append(" undecided: ");
        let list = join_with(open, " ");
        out.append(list.as_str());
        assert(out@ =~= old(out)@ + open_text(views(open@)));
    }
}

/// The line of a row.
pub fn row_line(row: &Row) -> (r: String)
    ensures
        r@ == row_text(row@),
{
    match &row.status {
        PortStatus::Unconfigured => {
            let mut out = owned("?  ");
            push_columns(&mut out, row);
            out.append(" UNCONFIGURED");
            push_open(&mut out, &row.open);
            out
        },
        PortStatus::Stale { added, removed } => {
            let mut out = owned("!  ");
            push_columns(&mut out, row);
            out.append(" STALE");
            push_detail(&mut out, "+", added);
            push_detail(&mut out, "-", removed);
            push_open(&mut out, &row.open);
            out
        },
        PortStatus::Okay => {
            let mut out = owned("   ");
            push_columns(&mut out, row);
            out.append(" ok");
            out
        },
    }
}

/// A scan report: the rows that need attention, the rows that do not, and how
/// many ports have no options.
pub struct ScanReport {
    pub flagged: Vec<Row>,
    pub fine: Vec<Row>,
    /// How many ports have options.
    pub total: usize,
    pub unconfigured: usize,
    pub stale: usize,
    pub hidden: usize,
}

/// The rows of ports in order, those that need attention and those that do not.
pub open spec fn rows_of(
    keys: Seq<KeyView>,
    ports: Map<KeyView, InfoView>,
    files: Map<Str, SavedView>,
    minimal: bool,
    fine: bool,
) -> Seq<RowView>
    decreases keys.len(),
{
    if keys.len() == 0 {
        Seq::empty()
    } else {
        let before = rows_of(keys.drop_last(), ports, files, minimal, fine);
        let info = ports[keys.last()];
        let row = row_of(keys.last(), info, files, minimal);
        if info.options.complete.len() > 0 && (row.status is Okay) == fine {
            before.push(row)
        } else {
            before
        }
    }
}

/// How many of some ports have no options.
pub open spec fn optionless(keys: Seq<KeyView>, ports: Map<KeyView, InfoView>) -> nat {
    crate::list::count_where(keys, |k: KeyView| ports[k].options.complete.len() == 0)
}

/// How many of some rows have no options file.
pub open spec fn unconfigured_in(rows: Seq<RowView>) -> nat {
    crate::list::count_where(rows, |r: RowView| r.status is Unconfigured)
}

fn new_row(
    key: &PortKey,
    info: &PortInfo,
    files: &SortedMap<String, SavedOptionsFile>,
    minimal: bool,
) -> (r: Row)
    ensures
        r@ == row_of(key@, info@, files@, minimal),
{
    let saved = files.get(&info.options_name);
    Row {
        key: key.to_string(),
        pkgname: info.pkgname.clone(),
        status: port_status(info, saved),
        open: undecided_options(info, saved, minimal),
    }
}

/// The scan report of a closure: rows that need attention first, each part in
/// key order.
pub fn scan_report(
    ports: &SortedMap<PortKey, PortInfo>,
    files: &SortedMap<String, SavedOptionsFile>,
    minimal: bool,
) -> (r: ScanReport)
    ensures
        ({
            let q = ordered::<PortKey>(ports@.dom());
            &&& sorts::<Row>(rows_of(q, ports@, files@, minimal, false), views(r.flagged@))
            &&& sorts::<Row>(rows_of(q, ports@, files@, minimal, true), views(r.fine@))
            &&& r.hidden == optionless(q, ports@)
            &&& r.total + r.hidden == q.len()
            &&& r.unconfigured == unconfigured_in(rows_of(q, ports@, files@, minimal, false))
            &&& r.stale + r.unconfigured == rows_of(q, ports@, files@, minimal, false).len()
        }),
{
    broadcast use {crate::text::views_push, crate::text::views_empty};

    let n = ports.len();
    let ghost q = ordered::<PortKey>(ports@.dom());
    let ghost none = |k: KeyView| ports@[k].options.complete.len() == 0;
    let ghost bare = |r: RowView| r.status is Unconfigured;
    let mut flagged: Vec<Row> = Vec::new();
    let mut fine: Vec<Row> = Vec::new();
    let mut hidden: usize = 0;
    let mut unconfigured: usize = 0;
    let mut stale: usize = 0;
    let mut i: usize = 0;
    assert(q.take(0) =~= Seq::<KeyView>::empty());
    while i < n
        invariant
            i <= n,
            n == q.len(),
            q == ordered::<PortKey>(ports@.dom()),
            none == (|k: KeyView| ports@[k].options.complete.len() == 0),
            bare == (|r: RowView| r.status is Unconfigured),
            views(flagged@) == rows_of(q.take(i as int), ports@, files@, minimal, false),
            views(fine@) == rows_of(q.take(i as int), ports@, files@, minimal, true),
            hidden == crate::list::count_where(q.take(i as int), none),
            unconfigured == crate::list::count_where(views(flagged@), bare),
            stale + unconfigured == flagged@.len(),
            hidden <= i,
            flagged@.len() <= i,
        decreases n - i,
    {
        let key = ports.key_at(i);
        let info = ports.value_at(i);
        proof {
            crate::list::lemma_take_one(q, i as int);
        }
        if info.options.has_options() {
            let row = new_row(key, info, files, minimal);
            let ghost was = views(flagged@);
            match &row.status {
                PortStatus::Okay => {
                    fine.push(row);
                },
                PortStatus::Unconfigured => {
                    unconfigured = unconfigured + 1;
                    flagged.push(row);
                    assert(views(flagged@).drop_last() =~= was);
                },
                PortStatus::Stale { added: _, removed: _ } => {
                    stale = stale + 1;
                    flagged.push(row);
                    assert(views(flagged@).drop_last() =~= was);
                },
            }
        } else {
            hidden = hidden + 1;
        }
        i = i + 1;
    }
    assert(q.take(n as int) =~= q);
    ScanReport {
        flagged: sort_named(flagged),
        fine: sort_named(fine),
        total: n - hidden,
        unconfigured,
        stale,
        hidden,
    }
}

/// What a scan ends with, but for the time it took.
pub open spec fn summary_text(r: ScanReport, queried: nat, cached: nat) -> Str {
    decimal(r.total as nat) + " ports with options ("@ + decimal(
        r.unconfigured as nat,
    ) + " unconfigured, "@ + decimal(r.stale as nat) + " stale) · "@ + decimal(r.hidden as nat)
        + " without options · "@ + decimal(queried) + " queried, "@ + decimal(cached) + " cached"@
}

impl ScanReport {
    /// What a scan ends with, but for the time it took.
    pub fn summary(&self, queried: usize, cached: usize) -> (r: String)
        ensures
            r@ == summary_text(*self, queried as nat, cached as nat),
    {
        let n = number(self.total as u64);
        let u = number(self.unconfigured as u64);
        let s = number(self.stale as u64);
        let h = number(self.hidden as u64);
        let q = number(queried as u64);
        let c = number(cached as u64);
        let mut t = glue3(n.as_str(), " ports with options (", u.as_str());
        t.append(" unconfigured, ");
        t.append(s.as_str());
        t.append(" stale) · ");
        t.append(h.as_str());
        t.append(" without options · ");
        t.append(q.as_str());
        t.append(" queried, ");
        t.append(c.as_str());
        t.append(" cached");
        t
    }
}

/// Options with their state, `+` for on and `-` for off.
pub open spec fn signed_options(complete: Seq<Str>, on: Set<Str>) -> Seq<Str> {
    complete.map_values(
        |o: Str|
            (if on.contains(o) {
                "+"@
            } else {
                "-"@
            }) + o,
    )
}

/// The full option state of a port, in framework order.
pub fn state_line(complete: &Vec<String>, on: &crate::model::options::OptionSet) -> (r: String)
    ensures
        r@ == join(signed_options(views(complete@), on@), " "@),
{
    let ghost v = views(complete@);
    let mut list: Vec<String> = Vec::new();
    let mut i: usize = 0;
    assert(views(list@) =~= signed_options(v.take(0), on@));
    while i < complete.len()
        invariant
            i <= complete@.len(),
            v == views(complete@),
            views(list@) == signed_options(v.take(i as int), on@),
        decreases complete@.len() - i,
    {
        let o = complete[i].as_str();
        let t = if on.has(o) {
            glue("+", o)
        } else {
            glue("-", o)
        };
        let ghost was = views(list@);
        list.push(t);
        proof {
            assert(v[i as int] == o@);
            assert(views(list@) =~= was.push(t@));
            assert(views(list@) =~= signed_options(v.take(i + 1), on@));
        }
        i = i + 1;
    }
    assert(v.take(v.len() as int) =~= v);
    join_with(&list, " ")
}

// ---------------------------------------------------------------------
// sync and the banner
// ---------------------------------------------------------------------

/// The line of a file that a sync writes.
pub fn write_line(w: &PendingWrite) -> (r: String)
    ensures
        r@ == key_text(w@.key) + "  "@ + described(w@),
{
    let k = w.key.to_string();
    let d = w.describe();
    glue3(k.as_str(), "  ", d.as_str())
}

/// What a dry run ends with.
pub fn dry_run_line(files: usize, dir: &str) -> (r: String)
    ensures
        r@ == "dry run: "@ + decimal(files as nat) + " file(s) would be written to "@ + dir@,
{
    let n = number(files as u64);
    let mut r = glue3("dry run: ", n.as_str(), " file(s) would be written to ");
    r.append(dir);
    r
}

/// What a sync ends with.
pub open spec fn written_text(written: nat, failed: nat, dir: Str) -> Str {
    decimal(written) + " file(s) written to "@ + dir + if failed == 0 {
        Seq::empty()
    } else {
        ", "@ + decimal(failed) + " failed"@
    }
}

/// What a sync ends with.
pub fn written_line(summary: &ApplySummary, dir: &str) -> (r: String)
    ensures
        r@ == written_text(summary.written as nat, summary.failed@.len(), dir@),
{
    let n = number(summary.written as u64);
    let mut r = glue3(n.as_str(), " file(s) written to ", dir);
    if summary.failed.len() > 0 {
        let f = number(summary.failed.len() as u64);
        let t = glue3(", ", f.as_str(), " failed");
        r.append(t.as_str());
    } else {
        assert(r@ + Seq::<char>::empty() =~= r@);
    }
    r
}

/// The lines that name the make.conf layers.
pub open spec fn source_lines(sources: Seq<Str>) -> Seq<Str> {
    if sources.len() == 0 {
        seq!["  make.conf:   (none)"@]
    } else {
        Seq::new(
            sources.len(),
            |i: int|
                (if i == 0 {
                    "  make.conf:   "@
                } else {
                    "               "@
                }) + sources[i],
        )
    }
}

/// The lines of the startup banner.
pub open spec fn banner_text(s: SettingsView, jobs: nat) -> Seq<Str> {
    seq![
        "optique: ports tree "@ + s.portsdir + " · "@ + decimal(jobs) + " jobs"@,
        "  options dir: "@ + s.options_dir + if s.options_dir_is_new {
            " (new, created on apply)"@
        } else {
            Seq::empty()
        },
    ] + source_lines(s.make_conf.sources) + s.notes.map_values(|n: Str| "  note:        "@ + n)
}

/// The lines of the startup banner.
pub fn banner(s: &Settings, jobs: usize) -> (r: Vec<String>)
    ensures
        views(r@) == banner_text(s@, jobs as nat),
{
    let mut r: Vec<String> = Vec::new();
    let mut first = glue3("optique: ports tree ", s.portsdir.as_str(), " · ");
    let n = number(jobs as u64);
    first.append(n.as_str());
    first.append(" jobs");
    r.push(first);
    let mut second = glue("  options dir: ", s.options_dir.as_str());
    if s.options_dir_is_new {
        second.append(" (new, created on apply)");
    } else {
        assert(second@ + Seq::<char>::empty() =~= second@);
    }
    r.push(second);
    let ghost head = views(r@);
    let ghost sources = s@.make_conf.sources;
    if s.make_conf.sources.len() == 0 {
        r.push(owned("  make.conf:   (none)"));
        assert(views(r@) =~= head + source_lines(sources));
    } else {
        let mut i: usize = 0;
        assert(head + source_lines(sources).take(0) =~= head);
        while i < s.make_conf.sources.len()
            invariant
                i <= s.make_conf.sources@.len(),
                sources == views(s.make_conf.sources@),
                sources.len() > 0,
                views(r@) == head + source_lines(sources).take(i as int),
            decreases s.make_conf.sources@.len() - i,
        {
            let p = s.make_conf.sources[i].as_str();
            assert(sources[i as int] == p@);
            let l = if i == 0 {
                glue("  make.conf:   ", p)
            } else {
                glue("               ", p)
            };
            let ghost was = views(r@);
            r.push(l);
            proof {
                assert(views(r@) =~= was.push(l@));
                assert(views(r@) =~= head + source_lines(sources).take(i + 1));
            }
            i = i + 1;
        }
        assert(source_lines(sources).take(sources.len() as int) =~= source_lines(sources));
    }
    let ghost so_far = views(r@);
    let ghost notes = s@.notes;
    let ghost f = |n: Str| "  note:        "@ + n;
    let mut i: usize = 0;
    assert(so_far + notes.take(0).map_values(f) =~= so_far);
    while i < s.notes.len()
        invariant
            i <= s.notes@.len(),
            notes == views(s.notes@),
            f == (|n: Str| "  note:        "@ + n),
            views(r@) == so_far + notes.take(i as int).map_values(f),
        decreases s.notes@.len() - i,
    {
        assert(notes[i as int] == s.notes@[i as int]@);
        let l = glue("  note:        ", s.notes[i].as_str());
        let ghost was = views(r@);
        r.push(l);
        proof {
            assert(views(r@) =~= was.push(l@));
            assert(notes.take(i + 1).map_values(f) =~= notes.take(i as int).map_values(f).push(
                l@,
            ));
            assert(views(r@) =~= so_far + notes.take(i + 1).map_values(f));
        }
        i = i + 1;
    }
    assert(notes.take(notes.len() as int) =~= notes);
    assert(views(r@) =~= banner_text(s@, jobs as nat));
    r
}

// ---------------------------------------------------------------------
// What a report says
// ---------------------------------------------------------------------

/// How a port stands: without a file it is unconfigured; with one it is fine
/// exactly where both know the same options, and else the report names those that
/// only the port knows and those that only the file knows.
pub proof fn law_file_status(info: InfoView, saved: SavedView, x: Str)
    ensures
        file_status(info, None) is Unconfigured,
        file_status(info, Some(saved)) is Okay <==> info.options.complete.to_set()
            == saved.complete.to_set(),
        file_status(info, Some(saved)) !is Unconfigured,
        file_status(info, Some(saved)) matches PortStatusView::Stale { added, removed } ==> {
            &&& added.contains(x) <==> info.options.complete.contains(x)
                && !saved.complete.contains(x)
            &&& removed.contains(x) <==> saved.complete.contains(x)
                && !info.options.complete.contains(x)
        },
{
    let a = info.options.complete;
    let b = saved.complete;
    let p = |x: Str| !b.contains(x);
    let q = |x: Str| !a.contains(x);
    crate::list::lemma_filter_holds(a, p);
    crate::list::lemma_filter_holds(b, q);
    let added = not_in(a, b);
    let removed = not_in(b, a);
    if added.len() == 0 && removed.len() == 0 {
        assert forall|y: Str| a.to_set().contains(y) <==> b.to_set().contains(y) by {
            if a.contains(y) && !b.contains(y) {
                assert(a.filter(p).contains(y));
            }
            if b.contains(y) && !a.contains(y) {
                assert(b.filter(q).contains(y));
            }
        }
        assert(a.to_set() =~= b.to_set());
    } else if a.to_set() == b.to_set() {
        if added.len() > 0 {
            assert(added.contains(added[0]));
            assert(a.to_set().contains(added[0]));
            assert(b.to_set().contains(added[0]));
        } else {
            assert(removed.contains(removed[0]));
            assert(b.to_set().contains(removed[0]));
            assert(a.to_set().contains(removed[0]));
        }
    }
}

/// A port with options has its row in just one part of a report, among those that
/// need attention unless its file is fine; one without options has none.
pub proof fn law_rows(
    keys: Seq<KeyView>,
    ports: Map<KeyView, InfoView>,
    files: Map<Str, SavedView>,
    minimal: bool,
    fine: bool,
    row: RowView,
)
    ensures
        rows_of(keys, ports, files, minimal, fine).contains(row) <==> exists|i: int|
            0 <= i < keys.len() && ports[#[trigger] keys[i]].options.complete.len() > 0 && row
                == row_of(keys[i], ports[keys[i]], files, minimal) && (row.status is Okay <==> fine),
    decreases keys.len(),
{
    if keys.len() > 0 {
        let d = keys.drop_last();
        let before = rows_of(d, ports, files, minimal, fine);
        let all = rows_of(keys, ports, files, minimal, fine);
        law_rows(d, ports, files, minimal, fine, row);
        let n = keys.len() - 1;
        assert(keys[n] == keys.last());
        if all.contains(row) {
            let j = choose|j: int| 0 <= j < all.len() && all[j] == row;
            if j < before.len() {
                assert(before[j] == row);
                let i = choose|i: int|
                    0 <= i < d.len() && ports[#[trigger] d[i]].options.complete.len() > 0 && row
                        == row_of(d[i], ports[d[i]], files, minimal) && (row.status is Okay
                        <==> fine);
                assert(keys[i] == d[i]);
            }
        }
        if exists|i: int|
            0 <= i < keys.len() && ports[#[trigger] keys[i]].options.complete.len() > 0 && row
                == row_of(keys[i], ports[keys[i]], files, minimal) && (row.status is Okay
                <==> fine) {
            let i = choose|i: int|
                0 <= i < keys.len() && ports[#[trigger] keys[i]].options.complete.len() > 0 && row
                    == row_of(keys[i], ports[keys[i]], files, minimal) && (row.status is Okay
                    <==> fine);
            if i < n {
                assert(d[i] == keys[i]);
                let j = choose|j: int| 0 <= j < before.len() && before[j] == row;
                assert(all[j] == row);
            } else {
                assert(all[all.len() - 1] == row);
            }
        }
    }
}

/// A row says of the port what its options file, and only that file, says.
pub proof fn law_row(key: KeyView, info: InfoView, files: Map<Str, SavedView>, minimal: bool)
    ensures
        ({
            let row = row_of(key, info, files, minimal);
            &&& row.key == key_text(key)
            &&& row.pkgname == info.pkgname
            &&& files.dom().contains(info.options_name) ==> row.status == file_status(
                info,
                Some(files[info.options_name]),
            ) && row.open == undecided(info.options, Some(files[info.options_name]), minimal)
            &&& !files.dom().contains(info.options_name) ==> row.status is Unconfigured && row.open
                == undecided(info.options, None, minimal)
        }),
{
}

/// A column is as wide as it is asked to be, begins with its text and is filled
/// with blanks; a text that is wider is left whole.
pub proof fn law_padded(s: Str, n: nat, i: int)
    ensures
        padded(s, n).len() == if s.len() < n {
            n
        } else {
            s.len()
        },
        padded(s, n).take(s.len() as int) == s,
        s.len() <= i < n ==> padded(s, n)[i] == ' ',
{
    assert(padded(s, n).take(s.len() as int) =~= s);
}

/// What a row begins with tells how the port stands, and its port follows.
pub proof fn law_row_marker(row: RowView)
    ensures
        ({
            let t = row_text(row);
            &&& row.status is Unconfigured ==> t.take(3) == "?  "@
            &&& row.status is Stale ==> t.take(3) == "!  "@
            &&& row.status is Okay ==> t.take(3) == "   "@
            &&& t.skip(3).take(row.key.len() as int) == row.key
        }),
{
    reveal_strlit("?  ");
    reveal_strlit("!  ");
    reveal_strlit("   ");
    let t = row_text(row);
    law_padded(row.key, 40, 0);
    let k = padded(row.key, 40);
    let n = row.key.len() as int;
    assert(forall|i: int| 0 <= i < n ==> #[trigger] k[i] == row.key[i]) by {
        assert forall|i: int| 0 <= i < n implies #[trigger] k[i] == row.key[i] by {
            assert(k.take(n)[i] == k[i]);
        }
    }
    assert(t.skip(3).take(n) =~= row.key);
    match row.status {
        PortStatusView::Unconfigured => {
            assert(t.take(3) =~= "?  "@);
        },
        PortStatusView::Stale { added, removed } => {
            assert(t.take(3) =~= "!  "@);
        },
        PortStatusView::Okay => {
            assert(t.take(3) =~= "   "@);
        },
    }
}

/// Each option stands in the state line in its place, with `+` where it is on and
/// `-` where it is off.
pub proof fn law_state_line(complete: Seq<Str>, on: Set<Str>, i: int)
    requires
        0 <= i < complete.len(),
    ensures
        signed_options(complete, on).len() == complete.len(),
        on.contains(complete[i]) ==> signed_options(complete, on)[i] == "+"@ + complete[i],
        !on.contains(complete[i]) ==> signed_options(complete, on)[i] == "-"@ + complete[i],
{
}

/// The banner names the tree and the options dir, one line for each make.conf
/// layer in order, and one for each remark.
pub proof fn law_banner(s: SettingsView, jobs: nat, i: int)
    requires
        s.make_conf.sources.len() > 0,
    ensures
        ({
            let b = banner_text(s, jobs);
            let n = s.make_conf.sources.len();
            &&& b.len() == 2 + n + s.notes.len()
            &&& b[0] == "optique: ports tree "@ + s.portsdir + " · "@ + decimal(jobs) + " jobs"@
            &&& s.options_dir_is_new ==> b[1] == "  options dir: "@ + s.options_dir
                + " (new, created on apply)"@
            &&& !s.options_dir_is_new ==> b[1] == "  options dir: "@ + s.options_dir
            &&& b[2] == "  make.conf:   "@ + s.make_conf.sources[0]
            &&& 0 < i < n ==> b[2 + i] == "               "@ + s.make_conf.sources[i]
            &&& 0 <= i < s.notes.len() ==> b[2 + n + i] == "  note:        "@ + s.notes[i]
        }),
{
    let none = Seq::<char>::empty();
    assert("  options dir: "@ + s.options_dir + none =~= "  options dir: "@ + s.options_dir);
}

/// What a sync ends with says how many files failed only where some did.
pub proof fn law_written_line(written: nat, failed: nat, dir: Str)
    ensures
        written_text(written, 0, dir) == decimal(written) + " file(s) written to "@ + dir,
        failed > 0 ==> written_text(written, failed, dir) == decimal(written)
            + " file(s) written to "@ + dir + (", "@ + decimal(failed) + " failed"@),
{
    let none = Seq::<char>::empty();
    let t = decimal(written) + " file(s) written to "@ + dir;
    assert(t + none =~= t);
}

/// What a row says behind its columns: that a port is unconfigured, stale with the
/// options that came and went, or fine, and what of it nothing decides.
pub proof fn law_row_says(row: RowView, a: Str, b: Str, c: Str)
    ensures
        detail("+"@, Seq::empty()) == Seq::<char>::empty(),
        detail("+"@, seq![a]) == " "@ + "+"@ + a,
        detail("+"@, seq![a, b]) == " "@ + "+"@ + (a + (" "@ + "+"@) + b),
        detail("-"@, seq![a]) == " "@ + "-"@ + a,
        open_text(seq![c]) == " undecided: "@ + c,
        open_text(seq![a, c]) == " undecided: "@ + (a + " "@ + c),
        open_text(Seq::empty()) == " [mc-covered ≈]"@,
        row.status == (PortStatusView::Stale { added: seq![a], removed: seq![b] }) && row.open
            == seq![c] ==> row_text(row) == "!  "@ + padded(row.key, 40) + " "@ + padded(
            row.pkgname,
            32,
        ) + " STALE"@ + (" "@ + "+"@ + a) + (" "@ + "-"@ + b) + (" undecided: "@ + c),
        row.status is Unconfigured && row.open == seq![c] ==> row_text(row) == "?  "@ + padded(
            row.key,
            40,
        ) + " "@ + padded(row.pkgname, 32) + " UNCONFIGURED"@ + (" undecided: "@ + c),
        row.status is Okay ==> row_text(row) == "   "@ + padded(row.key, 40) + " "@ + padded(
            row.pkgname,
            32,
        ) + " ok"@,
{
    reveal_with_fuel(join, 3);
    assert(seq![a, b].drop_last() =~= seq![a]);
    assert(seq![a, c].drop_last() =~= seq![a]);
}

} // verus!
