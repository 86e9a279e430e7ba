//! The apply overlay.
use vstd::prelude::*;

use crate::apply::{apply, failures, ChoiceView, PlannedWrites, PortChoice};
use crate::apply::{described, WriteView};
use crate::clean::{Removal, RemovalView};
use crate::list::{lemma_filter_none, lemma_filter_one, lemma_take_one};
use crate::minimal::{plan_choices, plan_kept, PlanView};
use crate::model::origin::{key_text, KeyView, PortKey};
use crate::optionsfile::{SavedOptionsFile, SavedView};
use crate::order::Duplicate;
use crate::report::{pad, padded};
use crate::session::base::{Session, SessionView};
use crate::session::edit::reloaded;
use crate::session::status::{status_of, UiStatus};
use crate::sorted::{ordered, SortedMap};
use crate::text::{decimal, glue, glue3, join, join_with, lines, number};
use crate::text::{split_lines, views, Str};
use crate::tui::app::{flashed, App, AppView, ApplyModal, ModalView};
use crate::tui::style::{empty_line, fg, ink, line, line_of, plain, Color, Line, LineView};

verus! {

// ---------------------------------------------------------------------
// The plan
// ---------------------------------------------------------------------

/// What ports have staged, as choices, in order.
pub open spec fn choices_of(v: SessionView, keys: Seq<KeyView>) -> Seq<ChoiceView>
    decreases keys.len(),
{
    if keys.len() == 0 {
        Seq::empty()
    } else {
        let before = choices_of(v, keys.drop_last());
        let info = v.ports[keys.last()];
        match v.state_of(info) {
            Some(st) => before.push(
                ChoiceView { key: keys.last(), info, enabled: st.staged },
            ),
            None => before,
        }
    }
}

/// The choices of a whole session.
pub open spec fn all_choices(v: SessionView) -> Seq<ChoiceView> {
    choices_of(v, ordered::<PortKey>(v.ports.dom()))
}

/// What an apply would do.
pub open spec fn plan_of(v: SessionView, dir: Str, files: Map<Str, SavedView>) -> PlanView {
    plan_kept(all_choices(v), dir, files, v.minimal)
}

fn session_choices<'a>(session: &'a Session) -> (r: Vec<PortChoice<'a>>)
    ensures
        views(r@) == all_choices(session@),
{
    let n = session.ports.len();
    let ghost v = session@;
    let ghost q = ordered::<PortKey>(v.ports.dom());
    let mut r: Vec<PortChoice<'a>> = Vec::new();
    let mut i: usize = 0;
    assert(q.take(0) =~= Seq::<KeyView>::empty());
    assert(views(r@) =~= choices_of(v, q.take(0)));
    while i < n
        invariant
            i <= n,
            n == q.len(),
            v == session@,
            q == ordered::<PortKey>(v.ports.dom()),
            views(r@) == choices_of(v, q.take(i as int)),
        decreases n - i,
    {
        let key = session.ports.key_at(i);
        let info = session.ports.value_at(i);
        proof {
            lemma_take_one(q, i as int);
        }
        match session.state(info) {
            Some(st) => {
                let c = PortChoice { key, info, enabled: st.staged.duplicate() };
                let ghost was = views(r@);
                r.push(c);
                assert(views(r@) =~= was.push(c@));
            },
            None => {},
        }
        i = i + 1;
    }
    assert(q.take(n as int) =~= q);
    r
}

/// What an apply of a session would do: `files` holds the options files that
/// exist.
pub fn plan_session(
    session: &Session,
    options_dir: &str,
    files: &SortedMap<String, SavedOptionsFile>,
) -> (r: (PlannedWrites, Vec<Removal>))
    ensures
        (PlanView {
            writes: views(r.0.writes@),
            warnings: views(r.0.warnings@),
            removals: views(r.1@),
        }) == plan_of(session@, options_dir@, files@),
{
    let choices = session_choices(session);
    plan_choices(&choices, options_dir, files, session.minimal)
}

// ---------------------------------------------------------------------
// Opening and closing
// ---------------------------------------------------------------------

/// Whether a port's staged options conflict.
pub open spec fn conflicting(v: SessionView) -> spec_fn(KeyView) -> bool {
    |k: KeyView| v.ports.dom().contains(k) && status_of(v, v.ports[k]) == UiStatus::Conflict
}

/// With the apply overlay open, or a message where there is nothing to do.
pub open spec fn with_plan(a: AppView, files: Map<Str, SavedView>) -> AppView {
    let p = plan_of(a.session, a.options_dir, files);
    if p.writes.len() == 0 && p.removals.len() == 0 {
        flashed(a, "nothing to write — everything is up to date"@, false)
    } else {
        AppView {
            modal: Some(
                ModalView {
                    writes: p.writes,
                    removals: p.removals,
                    warnings: p.warnings,
                    scroll: 0,
                    conflicted: a.visible.filter(conflicting(a.session)),
                    done: None,
                },
            ),
            ..a
        }
    }
}

/// The lines on failed writes.
pub open spec fn failed_text(failed: Seq<(KeyView, Str)>) -> Str
    decreases failed.len(),
{
    if failed.len() == 0 {
        Seq::empty()
    } else {
        failed_text(failed.drop_last()) + "\nFAILED "@ + key_text(failed.last().0) + ": "@
            + failed.last().1
    }
}

/// The lines on removals: one each, in order.
pub open spec fn removed_text(removals: Seq<RemovalView>, outcomes: Seq<Result<(), String>>) -> Str
    decreases outcomes.len(),
{
    if outcomes.len() == 0 {
        Seq::empty()
    } else {
        let r = removals[outcomes.len() - 1];
        removed_text(removals, outcomes.drop_last()) + match outcomes.last() {
            Ok(_) => "\nremoved "@ + r.options_name,
            Err(e) => "\nFAILED rm "@ + r.options_name + ": "@ + e@,
        }
    }
}

/// What is said of an apply that was carried out.
pub open spec fn done_text(
    m: ModalView,
    dir: Str,
    written: Seq<Result<(), String>>,
    removed: Seq<Result<(), String>>,
) -> Str {
    let failed = failures(m.writes, written);
    decimal((m.writes.len() - failed.len()) as nat) + " file(s) written to "@ + dir + failed_text(
        failed,
    ) + removed_text(m.removals, removed)
}

/// With an apply carried out and the options files read anew.
pub open spec fn applied(
    a: AppView,
    written: Seq<Result<(), String>>,
    removed: Seq<Result<(), String>>,
    files: Map<Str, SavedView>,
) -> AppView {
    match a.modal {
        Some(m) => AppView {
            modal: Some(
                ModalView { done: Some(done_text(m, a.options_dir, written, removed)), ..m },
            ),
            session: reloaded(a.session, files),
            ..a
        },
        None => a,
    }
}

fn removal_lines(removals: &Vec<Removal>, outcomes: &Vec<Result<(), String>>) -> (r: String)
    requires
        removals@.len() == outcomes@.len(),
    ensures
        r@ == removed_text(views(removals@), outcomes@),
{
    let ghost rs = views(removals@);
    let mut r = String::new();
    let mut i: usize = 0;
    assert(outcomes@.take(0) =~= Seq::<Result<(), String>>::empty());
    assert(r@ =~= removed_text(rs, outcomes@.take(0)));
    while i < outcomes.len()
        invariant
            i <= outcomes@.len(),
            removals@.len() == outcomes@.len(),
            rs == views(removals@),
            r@ == removed_text(rs, outcomes@.take(i as int)),
        decreases outcomes@.len() - i,
    {
        proof {
            lemma_take_one(outcomes@, i as int);
            assert(rs[i as int] == removals@[i as int]@);
        }
        let ghost was = r@;
        let l = match &outcomes[i] {
            Ok(_) => glue("\nremoved ", removals[i].options_name.as_str()),
            Err(e) => {
                let mut l = glue3("\nFAILED rm ", removals[i].options_name.as_str(), ": ");
                l.append(e.as_str());
                l
            },
        };
        r.append(l.as_str());
        i = i + 1;
    }
    assert(outcomes@.take(outcomes@.len() as int) =~= outcomes@);
    r
}

fn failed_lines(failed: &Vec<(PortKey, String)>) -> (r: String)
    ensures
        r@ == failed_text(views(failed@)),
{
    let ghost f = views(failed@);
    let mut r = String::new();
    let mut i: usize = 0;
    assert(f.take(0) =~= Seq::<(KeyView, Str)>::empty());
    assert(r@ =~= failed_text(f.take(0)));
    while i < failed.len()
        invariant
            i <= failed@.len(),
            f == views(failed@),
            r@ == failed_text(f.take(i as int)),
        decreases failed@.len() - i,
    {
        proof {
            lemma_take_one(f, i as int);
            assert(f[i as int] == failed@[i as int]@);
        }
        let k = failed[i].0.to_string();
        r.append("\nFAILED ");
        r.append(k.as_str());
        r.append(": ");
        r.append(failed[i].1.as_str());
        i = i + 1;
    }
    assert(f.take(failed@.len() as int) =~= f);
    r
}

impl App {
    fn list_conflicted(&self) -> (r: Vec<PortKey>)
        ensures
            views(r@) == self@.visible.filter(conflicting(self@.session)),
    {
        let ghost q = self@.visible;
        let ghost p = conflicting(self@.session);
        let mut r: Vec<PortKey> = Vec::new();
        let mut i: usize = 0;
        proof {
            lemma_filter_none(q, p);
            assert(views(r@) =~= q.take(0).filter(p));
        }
        while i < self.visible.len()
            invariant
                i <= self.visible@.len(),
                q == self@.visible,
                p == conflicting(self@.session),
                views(r@) == q.take(i as int).filter(p),
            decreases self.visible@.len() - i,
        {
            proof {
                lemma_filter_one(q, i as int, p);
                assert(q[i as int] == self.visible@[i as int]@);
            }
            let bad = match self.session.ports.get(&self.visible[i]) {
                Some(info) => self.session.status(info) == UiStatus::Conflict,
                None => false,
            };
            if bad {
                let ghost was = views(r@);
                r.push(self.visible[i].duplicate());
                assert(views(r@) =~= was.push(q[i as int]));
            }
            i = i + 1;
        }
        assert(q.take(q.len() as int) =~= q);
        r
    }

    /// Preview an apply: `files` holds the options files that exist.
    pub fn open_apply_modal(&mut self, files: &SortedMap<String, SavedOptionsFile>)
        ensures
            final(self)@ == with_plan(old(self)@, files@),
    {
        let conflicted = self.list_conflicted();
        let (planned, removals) = plan_session(&self.session, self.options_dir.as_str(), files);
        if planned.writes.len() == 0 && removals.len() == 0 {
            self.flash("nothing to write — everything is up to date", false);
        } else {
            self.modal = Some(
                ApplyModal {
                    writes: planned.writes,
                    removals,
                    warnings: planned.warnings,
                    scroll: 0,
                    conflicted,
                    done: None,
                },
            );
        }
        assert(self@ =~= with_plan(old(self)@, files@));
    }

    /// The writes and the removals of the open overlay were carried out, one
    /// outcome each; `files` holds the options files that exist now.
    pub fn finish_apply(
        &mut self,
        written: &Vec<Result<(), String>>,
        removed: &Vec<Result<(), String>>,
        files: &SortedMap<String, SavedOptionsFile>,
    )
        requires
            old(self)@.modal matches Some(m) ==> m.writes.len() == written@.len()
                && m.removals.len() == removed@.len(),
        ensures
            final(self)@ == applied(old(self)@, written@, removed@, files@),
    {
        let ghost a = self@;
        match self.modal.take() {
            Some(m) => {
                let mut m = m;
                let ghost mv = m@;
                let summary = apply(&m.writes, written);
                let n = number(summary.written as u64);
                let mut text = glue3(n.as_str(), " file(s) written to ", self.options_dir.as_str());
                let f = failed_lines(&summary.failed);
                text.append(f.as_str());
                let r = removal_lines(&m.removals, removed);
                text.append(r.as_str());
                assert(text@ =~= done_text(mv, a.options_dir, written@, removed@));
                m.done = Some(text);
                self.modal = Some(m);
                self.session.reload_saved(files);
                assert(self@ =~= applied(a, written@, removed@, files@));
            },
            None => {
                assert(self@ =~= a);
            },
        }
    }
}

// ---------------------------------------------------------------------
// Lines
// ---------------------------------------------------------------------

/// Lines of plain text.
pub open spec fn plain_lines(ls: Seq<Str>) -> Seq<LineView> {
    ls.map_values(|l: Str| line_of(l, plain()))
}

/// Notes on a plan.
pub open spec fn note_lines(warnings: Seq<Str>) -> Seq<LineView> {
    warnings.map_values(|w: Str| line_of("note: "@ + w, fg(Color::Magenta)))
}

/// The texts of the first keys of a list.
pub open spec fn key_texts(keys: Seq<KeyView>, n: int) -> Seq<Str> {
    keys.take(n).map_values(|k: KeyView| key_text(k))
}

/// How many conflicting ports are named.
pub open spec fn named_conflicts(n: nat) -> int {
    if n < 5 {
        n as int
    } else {
        5
    }
}

/// The line on conflicting ports, if there are any.
pub open spec fn conflict_lines(conflicted: Seq<KeyView>) -> Seq<LineView> {
    if conflicted.len() == 0 {
        Seq::empty()
    } else {
        seq![
            line_of(
                "⚠ "@ + decimal(conflicted.len()) + " port(s) still have conflicting options: "@
                    + join(key_texts(conflicted, named_conflicts(conflicted.len())), ", "@),
                fg(Color::Red).bold(),
            ),
        ]
    }
}

/// The line that says what an apply would do.
pub open spec fn plan_line(m: ModalView, dir: Str) -> LineView {
    line_of(
        decimal(m.writes.len()) + " options file(s) will be written to "@ + dir + (
        if m.removals.len() == 0 {
            Seq::empty()
        } else {
            ", "@ + decimal(m.removals.len()) + " removed (--minimal)"@
        }) + ":"@,
        plain(),
    )
}

/// A removal of a plan.
pub open spec fn removal_line(r: RemovalView) -> LineView {
    seq![
        ink("rm "@ + padded(r.options_name, 37), fg(Color::Yellow)),
        ink(r.reason, fg(Color::DarkGray)),
    ]
}

/// A write of a plan.
pub open spec fn planned_line(w: WriteView) -> LineView {
    seq![
        ink(padded(key_text(w.key), 40), fg(Color::White)),
        ink(described(w), fg(Color::DarkGray)),
    ]
}

/// The writes of a plan from where it is scrolled to.
pub open spec fn scrolled(ws: Seq<WriteView>, scroll: nat) -> Seq<WriteView> {
    if scroll < ws.len() {
        ws.skip(scroll as int)
    } else {
        Seq::empty()
    }
}

/// The lines of the apply overlay.
pub open spec fn modal_lines(m: ModalView, dir: Str) -> Seq<LineView> {
    match m.done {
        Some(text) => plain_lines(lines(text)).push(
            line_of("press any key to close"@, fg(Color::DarkGray)),
        ),
        None => note_lines(m.warnings) + conflict_lines(m.conflicted) + seq![
            plan_line(m, dir),
            LineView::empty(),
        ] + m.removals.map_values(|r: RemovalView| removal_line(r)) + scrolled(
            m.writes,
            m.scroll,
        ).map_values(|w: WriteView| planned_line(w)),
    }
}

fn text_lines(ls: &Vec<String>) -> (r: Vec<Line>)
    ensures
        views(r@) == plain_lines(views(ls@)),
{
    let ghost v = views(ls@);
    let mut r: Vec<Line> = Vec::new();
    let mut i: usize = 0;
    assert(views(r@) =~= plain_lines(v.take(0)));
    while i < ls.len()
        invariant
            i <= ls@.len(),
            v == views(ls@),
            views(r@) == plain_lines(v.take(i as int)),
        decreases ls@.len() - i,
    {
        let ghost was = views(r@);
        let l = line(ls[i].as_str(), plain());
        r.push(l);
        proof {
            assert(v[i as int] == ls@[i as int]@);
            assert(views(r@) =~= was.push(l@));
            assert(views(r@) =~= plain_lines(v.take(i + 1)));
        }
        i = i + 1;
    }
    assert(v.take(v.len() as int) =~= v);
    r
}

fn push_notes(warnings: &Vec<String>, out: &mut Vec<Line>)
    ensures
        views(final(out)@) == views(old(out)@) + note_lines(views(warnings@)),
{
    let ghost start = views(out@);
    let ghost v = views(warnings@);
    let mut i: usize = 0;
    assert(start + note_lines(v.take(0)) =~= start);
    while i < warnings.len()
        invariant
            i <= warnings@.len(),
            v == views(warnings@),
            views(out@) == start + note_lines(v.take(i as int)),
        decreases warnings@.len() - i,
    {
        let ghost was = views(out@);
        let t = glue("note: ", warnings[i].as_str());
        let l = line(t.as_str(), fg(Color::Magenta));
        out.push(l);
        proof {
            assert(v[i as int] == warnings@[i as int]@);
            assert(views(out@) =~= was.push(l@));
            assert(views(out@) =~= start + note_lines(v.take(i + 1)));
        }
        i = i + 1;
    }
    assert(v.take(v.len() as int) =~= v);
}

fn first_keys(keys: &Vec<PortKey>, n: usize) -> (r: Vec<String>)
    requires
        n <= keys@.len(),
    ensures
        views(r@) == key_texts(views(keys@), n as int),
{
    let ghost v = views(keys@);
    let mut r: Vec<String> = Vec::new();
    let mut i: usize = 0;
    assert(views(r@) =~= key_texts(v, 0));
    while i < n
        invariant
            i <= n <= keys@.len(),
            v == views(keys@),
            views(r@) == key_texts(v, i as int),
        decreases n - i,
    {
        let ghost was = views(r@);
        let t = keys[i].to_string();
        r.push(t);
        proof {
            assert(v[i as int] == keys@[i as int]@);
            assert(views(r@) =~= was.push(t@));
            assert(views(r@) =~= key_texts(v, i + 1));
        }
        i = i + 1;
    }
    r
}

fn push_conflicts(conflicted: &Vec<PortKey>, out: &mut Vec<Line>)
    ensures
        views(final(out)@) == views(old(out)@) + conflict_lines(views(conflicted@)),
{
    let ghost start = views(out@);
    if conflicted.len() > 0 {
        let n = number(conflicted.len() as u64);
        let count: usize = if conflicted.len() < 5 {
            conflicted.len()
        } else {
            5
        };
        let names = first_keys(conflicted, count);
        let list = join_with(&names, ", ");
        let mut t = glue3("⚠ ", n.as_str(), " port(s) still have conflicting options: ");
        t.append(list.as_str());
        let l = line(t.as_str(), fg(Color::Red).bold());
        out.push(l);
        assert(views(out@) =~= start + conflict_lines(views(conflicted@)));
    } else {
        assert(views(out@) =~= start + conflict_lines(views(conflicted@)));
    }
}

fn push_removals(removals: &Vec<Removal>, out: &mut Vec<Line>)
    ensures
        views(final(out)@) == views(old(out)@) + views(removals@).map_values(
            |r: RemovalView| removal_line(r),
        ),
{
    let ghost start = views(out@);
    let ghost v = views(removals@);
    let ghost f = |r: RemovalView| removal_line(r);
    let mut i: usize = 0;
    assert(start + v.take(0).map_values(f) =~= start);
    while i < removals.len()
        invariant
            i <= removals@.len(),
            v == views(removals@),
            f == (|r: RemovalView| removal_line(r)),
            views(out@) == start + v.take(i as int).map_values(f),
        decreases removals@.len() - i,
    {
        let ghost was = views(out@);
        let r = &removals[i];
        let p = pad(r.options_name.as_str(), 37);
        let t = glue("rm ", p.as_str());
        let mut l = line(t.as_str(), fg(Color::Yellow));
        l.add_text(r.reason.as_str(), fg(Color::DarkGray));
        out.push(l);
        proof {
            assert(v[i as int] == removals@[i as int]@);
            assert(l@ == removal_line(r@));
            assert(views(out@) =~= was.push(l@));
            assert(views(out@) =~= start + v.take(i + 1).map_values(f));
        }
        i = i + 1;
    }
    assert(v.take(v.len() as int) =~= v);
}

impl ApplyModal {
    fn push_writes(&self, out: &mut Vec<Line>)
        ensures
            views(final(out)@) == views(old(out)@) + scrolled(
                self@.writes,
                self@.scroll,
            ).map_values(|w: WriteView| planned_line(w)),
    {
        let ghost start = views(out@);
        let ghost v = scrolled(self@.writes, self@.scroll);
        let ghost f = |w: WriteView| planned_line(w);
        let mut i: usize = self.scroll;
        if i >= self.writes.len() {
            assert(start + v.map_values(f) =~= start);
            return;
        }
        let ghost from = i;
        assert(start + v.take(0).map_values(f) =~= start);
        while i < self.writes.len()
            invariant
                from <= i <= self.writes@.len(),
                from == self.scroll,
                v == self@.writes.skip(from as int),
                f == (|w: WriteView| planned_line(w)),
                views(out@) == start + v.take(i - from).map_values(f),
            decreases self.writes@.len() - i,
        {
            let ghost was = views(out@);
            let w = &self.writes[i];
            let k = w.key.to_string();
            let p = pad(k.as_str(), 40);
            let d = w.describe();
            let mut l = line(p.as_str(), fg(Color::White));
            l.add_text(d.as_str(), fg(Color::DarkGray));
            out.push(l);
            proof {
                assert(v[i - from] == self.writes@[i as int]@);
                assert(l@ == planned_line(w@));
                assert(views(out@) =~= was.push(l@));
                assert(views(out@) =~= start + v.take(i - from + 1).map_values(f));
            }
            i = i + 1;
        }
        assert(v.take(v.len() as int) =~= v);
    }

    /// The lines of the overlay.
    pub fn overlay_lines(&self, options_dir: &str) -> (r: Vec<Line>)
        ensures
            views(r@) == modal_lines(self@, options_dir@),
    {
        match &self.done {
            Some(text) => {
                let ls = split_lines(text.as_str());
                let mut r = text_lines(&ls);
                let ghost was = views(r@);
                let l = line("press any key to close", fg(Color::DarkGray));
                r.push(l);
                assert(views(r@) =~= was.push(l@));
                r
            },
            None => {
                let mut r: Vec<Line> = Vec::new();
                push_notes(&self.warnings, &mut r);
                push_conflicts(&self.conflicted, &mut r);
                assert(views(r@) =~= note_lines(self@.warnings) + conflict_lines(self@.conflicted));
                let n = number(self.writes.len() as u64);
                let mut t = glue3(n.as_str(), " options file(s) will be written to ", options_dir);
                if self.removals.len() > 0 {
                    let m = number(self.removals.len() as u64);
                    let gone = glue3(", ", m.as_str(), " removed (--minimal)");
                    t.append(gone.as_str());
                } else {
                    assert(t@ + Seq::<char>::empty() =~= t@);
                }
                t.append(":");
                let ghost was = views(r@);
                let l = line(t.as_str(), plain());
                assert(l@ == plan_line(self@, options_dir@));
                r.push(l);
                r.push(empty_line());
                assert(views(r@) =~= was + seq![plan_line(self@, options_dir@), LineView::empty()]);
                push_removals(&self.removals, &mut r);
                self.push_writes(&mut r);
                r
            },
        }
    }

    /// The title of the overlay.
    pub fn overlay_title(&self) -> (r: &'static str)
        ensures
            r@ == if self@.done is Some {
                " apply — done "@
            } else {
                " apply? y/n (j/k scroll) "@
            },
    {
        if self.done.is_some() {
            " apply — done "
        } else {
            " apply? y/n (j/k scroll) "
        }
    }
}

/// What the preview shows: a line for each note, one on conflicts where there are
/// any, what is to be done, and a line for each removal and for each write from
/// where it is scrolled to.
pub proof fn law_preview_lines(m: ModalView, dir: Str, i: int)
    requires
        m.done is None,
        m.scroll < m.writes.len(),
    ensures
        ({
            let ls = modal_lines(m, dir);
            let c: int = if m.conflicted.len() > 0 {
                1
            } else {
                0
            };
            let n = m.warnings.len() + c;
            &&& ls.len() == n + 2 + m.removals.len() + (m.writes.len() - m.scroll)
            &&& 0 <= i < m.warnings.len() ==> ls[i][0].text == "note: "@ + m.warnings[i]
            &&& 0 <= i < m.removals.len() ==> ls[n + 2 + i][1].text == m.removals[i].reason
            &&& 0 <= i < m.writes.len() - m.scroll ==> ls[n + 2 + m.removals.len()
                + i][1].text == described(m.writes[m.scroll + i])
            &&& 0 <= i < m.writes.len() - m.scroll ==> ls[n + 2 + m.removals.len()
                + i][0].text == padded(key_text(m.writes[m.scroll + i].key), 40)
        }),
{
}

/// What is said of an apply: one line more for each write that failed and for each
/// removal, in order.
pub proof fn law_apply_lines(
    failed: Seq<(KeyView, Str)>,
    k: KeyView,
    e: Str,
    removals: Seq<RemovalView>,
    outcomes: Seq<Result<(), String>>,
    o: Result<(), String>,
)
    ensures
        failed_text(failed.push((k, e))) == failed_text(failed) + "\nFAILED "@ + key_text(k)
            + ": "@ + e,
        failed_text(Seq::empty()) == Seq::<char>::empty(),
        removed_text(removals, outcomes.push(o)) == removed_text(removals, outcomes) + match o {
            Ok(_) => "\nremoved "@ + removals[outcomes.len() as int].options_name,
            Err(t) => "\nFAILED rm "@ + removals[outcomes.len() as int].options_name + ": "@ + t@,
        },
        removed_text(removals, Seq::empty()) == Seq::<char>::empty(),
{
    assert(failed.push((k, e)).drop_last() =~= failed);
    assert(outcomes.push(o).drop_last() =~= outcomes);
}

} // verus!
