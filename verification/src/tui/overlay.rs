//! The overlays on one port or one option.
use vstd::prelude::*;
use vstd::utf8::encode_utf8;

use crate::list::{lemma_take_one, lookup};
use crate::model::options::{DefView, DepsView, GroupView, OptionDef, Provenance};
use crate::model::origin::{key_text, KeyView, PortKey};
use crate::model::port::{InfoView, PortInfo};
use crate::order::Duplicate;
use crate::report::{blanks, pad, padded, spaces};
use crate::session::base::{Session, SessionView, StateView};
use crate::session::edit::{group_of, has_member};
use crate::session::implies::implier;
use crate::session::reach::depends;
use crate::session::why::{chain_to, lemma_chain_to};
use crate::sorted::ordered;
use crate::text::{decimal, glue, glue3, join, join_with, lines, list_has, number, opt_view};
use crate::text::{split_lines, views, Str};
use crate::tui::app::{at_index, flashed, list_view, selected_of, App, AppView, NotesView};
use crate::tui::app::{PortNotes, Why, WhyView};
use crate::tui::editor::{current_option, option_at};
use crate::tui::lines::lemma_lines_sum;
use crate::tui::list::{place_of, position};
use crate::tui::style::{empty_line, fg, ink, line, line_of, plain, Color, Line, LineView, Style};
use crate::tui::wrap::{help_line, help_lines_of};

verus! {

// ---------------------------------------------------------------------
// Why
// ---------------------------------------------------------------------

/// Cap on the dependents listed before collapsing the rest into "+ N more".
pub const WHY_MAX_DEPENDENTS: usize = 15;

/// Why a port is in the closure.
pub open spec fn why_of(v: SessionView, key: KeyView) -> WhyView {
    WhyView {
        key,
        chain: chain_to(v, key),
        dependents: match v.resolved(key) {
            Some(t) => ordered::<PortKey>(v.ports.dom()).filter(|k: KeyView| depends(v, k, t)),
            None => Seq::empty(),
        },
        selected: 0,
    }
}

/// The chain of a port, none where there is no chain.
pub open spec fn chain_keys(w: WhyView) -> Seq<KeyView> {
    match w.chain {
        Some(c) => c,
        None => Seq::empty(),
    }
}

/// How many dependents are listed.
pub open spec fn listed_dependents(w: WhyView) -> nat {
    if w.dependents.len() < WHY_MAX_DEPENDENTS {
        w.dependents.len()
    } else {
        WHY_MAX_DEPENDENTS as nat
    }
}

/// The ports that can be selected: the chain, then the listed dependents.
pub open spec fn why_entries(w: WhyView) -> Seq<KeyView> {
    chain_keys(w) + w.dependents.take(listed_dependents(w) as int)
}

/// The selected port.
pub open spec fn why_selected(w: WhyView) -> Option<KeyView> {
    if w.selected < why_entries(w).len() {
        Some(why_entries(w)[w.selected as int])
    } else {
        None
    }
}

/// With the explanation of the selected port open.
pub open spec fn with_why(a: AppView, key: Option<KeyView>) -> AppView {
    match key {
        Some(k) => AppView { why: Some(why_of(a.session, k)), ..a },
        None => a,
    }
}

/// With the selection in an explanation moved; it stays within the entries.
pub open spec fn why_moved(w: WhyView, down: bool) -> WhyView {
    if down {
        if w.selected + 1 < why_entries(w).len() && w.selected < usize::MAX {
            WhyView { selected: w.selected + 1, ..w }
        } else {
            w
        }
    } else if w.selected > 0 {
        WhyView { selected: (w.selected - 1) as nat, ..w }
    } else {
        w
    }
}

/// With a port selected in the list, where it is listed.
pub open spec fn jumped(a: AppView, key: KeyView) -> AppView {
    match place_of(a.visible, key) {
        Some(i) => at_index(a, i),
        None => flashed(a, key_text(key) + " is not in the list"@, true),
    }
}

impl Why {
    fn chain_len(&self) -> (r: usize)
        ensures
            r == chain_keys(self@).len(),
    {
        match &self.chain {
            Some(c) => c.len(),
            None => 0,
        }
    }

    fn listed(&self) -> (r: usize)
        ensures
            r == listed_dependents(self@),
            r <= self.dependents@.len(),
    {
        if self.dependents.len() < WHY_MAX_DEPENDENTS {
            self.dependents.len()
        } else {
            WHY_MAX_DEPENDENTS
        }
    }

    /// The selected port.
    pub fn selected_port(&self) -> (r: Option<PortKey>)
        ensures
            opt_view(r) == why_selected(self@),
    {
        let n = self.chain_len();
        let i = self.selected;
        if i < n {
            match &self.chain {
                Some(c) => {
                    assert(chain_keys(self@)[i as int] == c@[i as int]@);
                    Some(c[i].duplicate())
                },
                None => None,
            }
        } else if i - n < self.listed() {
            assert(self@.dependents[i - n] == self.dependents@[i - n]@);
            Some(self.dependents[i - n].duplicate())
        } else {
            None
        }
    }

    /// Move the selection.
    pub fn move_selection(&mut self, down: bool)
        ensures
            final(self)@ == why_moved(old(self)@, down),
    {
        if down {
            let n = self.chain_len();
            let m = self.listed();
            let i = self.selected;
            let more = if i < n {
                i + 1 < n || m > 0
            } else {
                i - n < m && i - n + 1 < m
            };
            if more && i < usize::MAX {
                self.selected = i + 1;
            }
        } else if self.selected > 0 {
            self.selected = self.selected - 1;
        }
    }
}

fn explain(session: &Session, key: &PortKey) -> (r: Why)
    ensures
        r@ == why_of(session@, key@),
{
    let chain = session.why_chain(key);
    proof {
        lemma_chain_to(session@, key@, list_view(chain));
    }
    let dependents = session.dependents(key);
    let r = Why { key: key.duplicate(), chain, dependents, selected: 0 };
    assert(r@ =~= why_of(session@, key@));
    r
}

impl App {
    /// Explain why the selected port is here.
    pub fn open_why(&mut self)
        ensures
            final(self)@ == with_why(old(self)@, selected_of(old(self)@)),
    {
        match self.selected_key() {
            Some(key) => {
                self.why = Some(explain(&self.session, &key));
            },
            None => {},
        }
    }

    /// Explain why the port selected in an explanation is here.
    pub fn explain_port(&mut self, key: &PortKey)
        ensures
            final(self)@ == with_why(old(self)@, Some(key@)),
    {
        self.why = Some(explain(&self.session, key));
    }

    /// Select a port in the list.
    pub fn jump_to(&mut self, key: &PortKey)
        ensures
            final(self)@ == jumped(old(self)@, key@),
    {
        match position(&self.visible, key) {
            Some(i) => {
                self.select_index(i);
            },
            None => {
                let k = key.to_string();
                let t = glue(k.as_str(), " is not in the list");
                self.flash(t.as_str(), true);
            },
        }
    }
}

/// The longest key of a chain, in bytes.
pub open spec fn key_width(keys: Seq<KeyView>) -> nat
    decreases keys.len(),
{
    if keys.len() == 0 {
        0
    } else {
        let before = key_width(keys.drop_last());
        let n = encode_utf8(key_text(keys.last())).len();
        if before < n {
            n
        } else {
            before
        }
    }
}

/// The style of a chain's port: the last stands out, the selected is reversed.
pub open spec fn chain_style(last: bool, chosen: bool) -> Style {
    let s = if last {
        fg(Color::LightBlue).bold()
    } else {
        plain()
    };
    if chosen {
        s.reversed()
    } else {
        s
    }
}

/// The line of a chain's port.
pub open spec fn chain_line(keys: Seq<KeyView>, i: int, selected: nat) -> LineView {
    let name = ink(
        padded(key_text(keys[i]), key_width(keys)),
        chain_style(i + 1 == keys.len(), i == selected),
    );
    if i == 0 {
        seq![name, ink("  (root)"@, fg(Color::DarkGray))]
    } else {
        seq![ink(blanks(i as nat) + "└─ "@, plain()), name]
    }
}

/// The lines of a chain.
pub open spec fn chain_lines(keys: Seq<KeyView>, n: nat, selected: nat) -> Seq<LineView>
    decreases n,
{
    if n == 0 {
        Seq::empty()
    } else {
        chain_lines(keys, (n - 1) as nat, selected).push(chain_line(keys, n - 1, selected))
    }
}

/// The lines of the listed dependents.
pub open spec fn dependent_lines(w: WhyView, n: nat) -> Seq<LineView>
    decreases n,
{
    if n == 0 {
        Seq::empty()
    } else {
        let i = n - 1;
        dependent_lines(w, i as nat).push(
            line_of(
                "  "@ + key_text(w.dependents[i]),
                if chain_keys(w).len() + i == w.selected {
                    plain().reversed()
                } else {
                    plain()
                },
            ),
        )
    }
}

/// The line after the listed dependents.
pub open spec fn rest_lines(n: nat) -> Seq<LineView> {
    if n > WHY_MAX_DEPENDENTS {
        seq![
            line_of(
                "  + "@ + decimal((n - WHY_MAX_DEPENDENTS) as nat) + " more"@,
                fg(Color::DarkGray),
            ),
        ]
    } else if n == 0 {
        seq![line_of("  none in this closure"@, fg(Color::DarkGray))]
    } else {
        Seq::empty()
    }
}

/// The lines of an explanation.
pub open spec fn why_lines(w: WhyView) -> Seq<LineView> {
    (match w.chain {
        Some(c) => chain_lines(c, c.len(), w.selected),
        None => seq![
            line_of(
                "not reachable from the request roots (kept by fallback)"@,
                fg(Color::Yellow),
            ),
        ],
    }) + seq![
        LineView::empty(),
        line_of(
            "direct dependents ("@ + decimal(w.dependents.len()) + "):"@,
            fg(Color::Magenta).bold(),
        ),
    ] + dependent_lines(w, listed_dependents(w)) + rest_lines(w.dependents.len()) + seq![
        LineView::empty(),
        line_of(
            "↑/↓ move · Enter jump to port · r why of selection · other key closes"@,
            fg(Color::DarkGray),
        ),
    ]
}

fn longest_key(keys: &Vec<PortKey>) -> (r: usize)
    ensures
        r == key_width(views(keys@)),
{
    let ghost q = views(keys@);
    let mut r: usize = 0;
    let mut i: usize = 0;
    assert(q.take(0) =~= Seq::<KeyView>::empty());
    while i < keys.len()
        invariant
            i <= keys@.len(),
            q == views(keys@),
            r == key_width(q.take(i as int)),
        decreases keys@.len() - i,
    {
        proof {
            lemma_take_one(q, i as int);
            assert(q[i as int] == keys@[i as int]@);
        }
        let t = keys[i].to_string();
        let n = t.as_str().as_bytes().len();
        if r < n {
            r = n;
        }
        i = i + 1;
    }
    assert(q.take(keys@.len() as int) =~= q);
    r
}

fn push_chain(keys: &Vec<PortKey>, selected: usize, out: &mut Vec<Line>)
    ensures
        views(final(out)@) == views(old(out)@) + chain_lines(
            views(keys@),
            keys@.len(),
            selected as nat,
        ),
{
    let ghost start = views(out@);
    let ghost q = views(keys@);
    let width = longest_key(keys);
    let mut i: usize = 0;
    assert(start + chain_lines(q, 0, selected as nat) =~= start);
    while i < keys.len()
        invariant
            i <= keys@.len(),
            q == views(keys@),
            width == key_width(q),
            views(out@) == start + chain_lines(q, i as nat, selected as nat),
        decreases keys@.len() - i,
    {
        assert(q[i as int] == keys@[i as int]@);
        let mut style = if i + 1 == keys.len() {
            fg(Color::LightBlue).bold()
        } else {
            plain()
        };
        if i == selected {
            style = style.reversed();
        }
        let t = keys[i].to_string();
        let name = pad(t.as_str(), width);
        let mut l = empty_line();
        if i > 0 {
            let b = spaces(i);
            let branch = glue(b.as_str(), "└─ ");
            l.add_text(branch.as_str(), plain());
        }
        l.add_text(name.as_str(), style);
        if i == 0 {
            l.add_text("  (root)", fg(Color::DarkGray));
        }
        assert(l@ =~= chain_line(q, i as int, selected as nat));
        let ghost was = views(out@);
        out.push(l);
        assert(views(out@) =~= was.push(l@));
        i = i + 1;
        assert(views(out@) =~= start + chain_lines(q, i as nat, selected as nat));
    }
}

impl Why {
    fn push_dependents(&self, out: &mut Vec<Line>)
        ensures
            views(final(out)@) == views(old(out)@) + dependent_lines(
                self@,
                listed_dependents(self@),
            ),
    {
        let ghost start = views(out@);
        let ghost w = self@;
        let n = self.listed();
        let first = self.chain_len();
        let mut i: usize = 0;
        assert(start + dependent_lines(w, 0) =~= start);
        while i < n
            invariant
                i <= n <= self.dependents@.len(),
                w == self@,
                first == chain_keys(w).len(),
                views(out@) == start + dependent_lines(w, i as nat),
            decreases n - i,
        {
            assert(w.dependents[i as int] == self.dependents@[i as int]@);
            let k = self.dependents[i].to_string();
            let t = glue("  ", k.as_str());
            let chosen = self.selected >= first && self.selected - first == i;
            let style = if chosen {
                plain().reversed()
            } else {
                plain()
            };
            let l = line(t.as_str(), style);
            let ghost was = views(out@);
            out.push(l);
            assert(views(out@) =~= was.push(l@));
            i = i + 1;
            assert(views(out@) =~= start + dependent_lines(w, i as nat));
        }
    }

    /// The lines of the overlay.
    pub fn overlay_lines(&self) -> (r: Vec<Line>)
        ensures
            views(r@) == why_lines(self@),
    {
        let mut r: Vec<Line> = Vec::new();
        match &self.chain {
            Some(c) => {
                push_chain(c, self.selected, &mut r);
                assert(views(r@) =~= chain_lines(
                    views(c@),
                    c@.len(),
                    self.selected as nat,
                ));
            },
            None => {
                let l = line(
                    "not reachable from the request roots (kept by fallback)",
                    fg(Color::Yellow),
                );
                r.push(l);
                assert(views(r@) =~= seq![l@]);
            },
        }
        let ghost top = views(r@);
        r.push(empty_line());
        let n = number(self.dependents.len() as u64);
        let t = glue3("direct dependents (", n.as_str(), "):");
        let head = line(t.as_str(), fg(Color::Magenta).bold());
        r.push(head);
        assert(views(r@) =~= top + seq![LineView::empty(), head@]);
        self.push_dependents(&mut r);
        let ghost mid = views(r@);
        if self.dependents.len() > WHY_MAX_DEPENDENTS {
            let m = number((self.dependents.len() - WHY_MAX_DEPENDENTS) as u64);
            let t = glue3("  + ", m.as_str(), " more");
            r.push(line(t.as_str(), fg(Color::DarkGray)));
        } else if self.dependents.len() == 0 {
            r.push(line("  none in this closure", fg(Color::DarkGray)));
        }
        assert(views(r@) =~= mid + rest_lines(self@.dependents.len()));
        let ghost low = views(r@);
        r.push(empty_line());
        let foot = line(
            "↑/↓ move · Enter jump to port · r why of selection · other key closes",
            fg(Color::DarkGray),
        );
        r.push(foot);
        assert(views(r@) =~= low + seq![LineView::empty(), foot@]);
        r
    }

    /// The title of the overlay.
    pub fn overlay_title(&self) -> (r: String)
        ensures
            r@ == " why "@ + key_text(self@.key) + "? "@,
    {
        let k = self.key.to_string();
        glue3(" why ", k.as_str(), "? ")
    }
}

// ---------------------------------------------------------------------
// Port notes
// ---------------------------------------------------------------------

/// The lines of port notes in a popup of a width.
pub open spec fn notes_lines(src: Seq<Str>, width: nat) -> Seq<Str>
    decreases src.len(),
{
    if src.len() == 0 {
        Seq::empty()
    } else {
        notes_lines(src.drop_last(), width) + help_lines_of(src.last(), width)
    }
}

/// The notes of the selected port, as read.
pub open spec fn with_notes(a: AppView, text: Str) -> AppView {
    match selected_of(a) {
        Some(key) => AppView {
            port_help: Some(NotesView { key, lines: lines(text), scroll: 0 }),
            ..a
        },
        None => a,
    }
}

impl PortNotes {
    /// The lines of the popup at a width.
    pub fn overlay_lines(&self, width: usize) -> (r: Vec<String>)
        ensures
            views(r@) == notes_lines(self@.lines, width as nat),
    {
        let ghost v = self@.lines;
        let mut r: Vec<String> = Vec::new();
        let mut i: usize = 0;
        assert(v.take(0) =~= Seq::<Str>::empty());
        assert(views(r@) =~= notes_lines(v.take(0), width as nat));
        while i < self.lines.len()
            invariant
                i <= self.lines@.len(),
                v == self@.lines,
                views(r@) == notes_lines(v.take(i as int), width as nat),
            decreases self.lines@.len() - i,
        {
            proof {
                lemma_take_one(v, i as int);
                assert(v[i as int] == self.lines@[i as int]@);
            }
            let mut more = help_line(self.lines[i].as_str(), width);
            let ghost a = views(r@);
            let ghost b = views(more@);
            r.append(&mut more);
            assert(views(r@) =~= a + b);
            i = i + 1;
        }
        assert(v.take(v.len() as int) =~= v);
        r
    }

    /// The title of the popup.
    pub fn overlay_title(&self) -> (r: String)
        ensures
            r@ == " pkg-help — "@ + key_text(self@.key) + " "@,
    {
        let k = self.key.to_string();
        glue3(" pkg-help — ", k.as_str(), " ")
    }
}

impl App {
    /// Show the notes of the selected port.
    pub fn show_notes(&mut self, text: &str)
        ensures
            final(self)@ == with_notes(old(self)@, text@),
    {
        match self.selected_key() {
            Some(key) => {
                self.port_help = Some(PortNotes { key, lines: split_lines(text), scroll: 0 });
            },
            None => {},
        }
    }
}

// ---------------------------------------------------------------------
// Option details
// ---------------------------------------------------------------------

/// On or off.
pub open spec fn value_text(on: bool) -> Str {
    if on {
        "on"@
    } else {
        "off"@
    }
}

pub fn on_off(on: bool) -> (r: &'static str)
    ensures
        r@ == value_text(on),
{
    if on {
        "on"
    } else {
        "off"
    }
}

/// Human-readable source of an option's current value.
pub open spec fn source_text(p: Provenance) -> Str {
    match p {
        Provenance::Default => "port default"@,
        Provenance::MakeConfGlobal => "make.conf (mc)"@,
        Provenance::MakeConfPort => "make.conf (mc:port)"@,
        Provenance::File => "options file"@,
        Provenance::Forced => "make.conf *_FORCE (locked)"@,
    }
}

/// Human-readable source of an option's current value.
pub fn provenance_label(p: Provenance) -> (r: &'static str)
    ensures
        r@ == source_text(p),
{
    match p {
        Provenance::Default => "port default",
        Provenance::MakeConfGlobal => "make.conf (mc)",
        Provenance::MakeConfPort => "make.conf (mc:port)",
        Provenance::File => "options file",
        Provenance::Forced => "make.conf *_FORCE (locked)",
    }
}

/// Whether an option of a port is staged as on.
pub open spec fn staged_on(v: SessionView, info: InfoView, opt: Str) -> bool {
    match v.state_of(info) {
        Some(st) => st.staged.contains(opt),
        None => false,
    }
}

pub fn is_staged_on(session: &Session, info: &PortInfo, opt: &str) -> (r: bool)
    ensures
        r == staged_on(session@, info@, opt@),
{
    match session.state(info) {
        Some(st) => st.staged.has(opt),
        None => false,
    }
}

/// The option's value as recorded in the saved options file, if it mentions it
/// at all.
pub open spec fn saved_value(v: SessionView, info: InfoView, opt: Str) -> Option<bool> {
    match v.state_of(info) {
        Some(st) => match st.saved {
            Some(s) => if s.set.contains(opt) {
                Some(true)
            } else if s.unset.contains(opt) {
                Some(false)
            } else {
                None
            },
            None => None,
        },
        None => None,
    }
}

/// The option's value as recorded in the saved options file, if it mentions it
/// at all.
pub fn file_state(session: &Session, info: &PortInfo, opt: &str) -> (r: Option<bool>)
    ensures
        r == saved_value(session@, info@, opt@),
{
    match session.state(info) {
        Some(st) => match &st.saved {
            Some(s) => if s.set.has(opt) {
                Some(true)
            } else if s.unset.has(opt) {
                Some(false)
            } else {
                None
            },
            None => None,
        },
        None => None,
    }
}

/// What decides an option's value.
pub open spec fn source_of(v: SessionView, info: InfoView, opt: Str) -> Provenance {
    info.options.decided_by(opt, saved_value(v, info, opt) is Some)
}

/// A dim label and what it says.
pub open spec fn labelled(label: Str, text: Str) -> LineView {
    seq![ink(label, fg(Color::DarkGray)), ink(text, plain())]
}

/// The lines of an option's description, if it has one.
pub open spec fn desc_lines(def: Option<DefView>) -> Seq<LineView> {
    match def {
        Some(d) => if d.desc.len() > 0 {
            seq![line_of(d.desc, plain()), LineView::empty()]
        } else {
            Seq::empty()
        },
        None => Seq::empty(),
    }
}

/// The line on an option's value.
pub open spec fn value_line(v: SessionView, info: InfoView, opt: Str) -> LineView {
    seq![
        ink("value: "@, fg(Color::DarkGray)),
        ink(value_text(staged_on(v, info, opt)), plain().bold()),
        ink(
            " · default: "@ + value_text(info.options.defaults.contains(opt)) + " · source: "@
                + source_text(source_of(v, info, opt)),
            fg(Color::DarkGray),
        ),
    ]
}

/// The line on an option's group, if it has one.
pub open spec fn group_lines(g: Option<GroupView>) -> Seq<LineView> {
    match g {
        Some(g) => seq![
            seq![
                ink("group: "@, fg(Color::DarkGray)),
                ink(g.name, plain()),
                ink(" ("@ + g.kind.text() + ")"@, fg(Color::DarkGray)),
            ],
        ],
        None => Seq::empty(),
    }
}

/// The line on what implies an option, if anything does.
pub open spec fn implied_lines(by: Option<Str>) -> Seq<LineView> {
    match by {
        Some(b) => seq![
            seq![ink("implied by: "@, fg(Color::DarkGray)), ink(b, fg(Color::Cyan))],
        ],
        None => Seq::empty(),
    }
}

/// The line on a list of options, if there are any.
pub open spec fn list_lines(label: Str, opts: Seq<Str>) -> Seq<LineView> {
    if opts.len() > 0 {
        seq![labelled(label, join(opts, " "@))]
    } else {
        Seq::empty()
    }
}

/// The line on what an option prevents.
pub open spec fn prevents_lines(d: DefView) -> Seq<LineView> {
    if d.prevents.len() > 0 {
        let l = labelled("prevents: "@, join(d.prevents, " "@));
        seq![
            match d.prevents_msg {
                Some(m) => l.push(ink(" ("@ + m + ")"@, fg(Color::DarkGray))),
                None => l,
            },
        ]
    } else {
        Seq::empty()
    }
}

/// The line on what an option does to the port, if it does anything.
pub open spec fn blocked_lines(what: Str, msg: Option<Str>) -> Seq<LineView> {
    match msg {
        Some(m) => seq![line_of("⚠ "@ + what + " when enabled: "@ + m, fg(Color::Red).bold())],
        None => Seq::empty(),
    }
}

/// The lines on dependencies.
pub open spec fn deps_lines(deps: Seq<DepsView>) -> Seq<LineView> {
    deps.map_values(|d: DepsView| labelled(d.class + " deps: "@, join(d.origins, " "@)))
}

/// The lines on what an option adds.
pub open spec fn adds_lines(d: DefView) -> Seq<LineView> {
    if d.deps.len() > 0 || d.uses.len() > 0 {
        seq![LineView::empty(), line_of("adds when enabled"@, fg(Color::Magenta).bold())]
            + deps_lines(d.deps) + list_lines("uses: "@, d.uses)
    } else {
        Seq::empty()
    }
}

/// The lines on an option's metadata.
pub open spec fn def_lines(def: Option<DefView>) -> Seq<LineView> {
    match def {
        Some(d) => list_lines("implies: "@, d.implies) + prevents_lines(d) + blocked_lines(
            "BROKEN"@,
            d.broken,
        ) + blocked_lines("IGNORE"@, d.ignore) + adds_lines(d),
        None => Seq::empty(),
    }
}

/// Everything the framework says about one option.
pub open spec fn option_text(v: SessionView, info: InfoView, opt: Str) -> Seq<LineView> {
    let def = lookup(info.options.defs, opt);
    desc_lines(def) + seq![value_line(v, info, opt)] + group_lines(group_of(info.options, opt))
        + implied_lines(
        match v.state_of(info) {
            Some(st) => implier(info.options, st.staged, opt),
            None => None,
        },
    ) + def_lines(def) + seq![
        LineView::empty(),
        line_of("press any key to close"@, fg(Color::DarkGray)),
    ]
}

fn labelled_line(label: &str, text: &str) -> (r: Line)
    ensures
        r@ == labelled(label@, text@),
{
    let mut l = line(label, fg(Color::DarkGray));
    l.add_text(text, plain());
    l
}

fn push_list(label: &str, opts: &Vec<String>, out: &mut Vec<Line>)
    ensures
        views(final(out)@) == views(old(out)@) + list_lines(label@, views(opts@)),
{
    let ghost was = views(out@);
    if opts.len() > 0 {
        let list = join_with(opts, " ");
        out.push(labelled_line(label, list.as_str()));
    }
    assert(views(out@) =~= was + list_lines(label@, views(opts@)));
}

fn push_blocked(what: &str, msg: &Option<String>, out: &mut Vec<Line>)
    ensures
        views(final(out)@) == views(old(out)@) + blocked_lines(what@, opt_view(*msg)),
{
    let ghost was = views(out@);
    match msg {
        Some(m) => {
            let mut t = glue3("⚠ ", what, " when enabled: ");
            t.append(m.as_str());
            out.push(line(t.as_str(), fg(Color::Red).bold()));
        },
        None => {},
    }
    assert(views(out@) =~= was + blocked_lines(what@, opt_view(*msg)));
}

fn push_adds(d: &OptionDef, out: &mut Vec<Line>)
    ensures
        views(final(out)@) == views(old(out)@) + adds_lines(d@),
{
    let ghost was = views(out@);
    if d.deps.len() == 0 && d.uses.len() == 0 {
        assert(views(out@) =~= was + adds_lines(d@));
        return;
    }
    out.push(empty_line());
    out.push(line("adds when enabled", fg(Color::Magenta).bold()));
    let ghost top = views(out@);
    assert(top =~= was + seq![
        LineView::empty(),
        line_of("adds when enabled"@, fg(Color::Magenta).bold()),
    ]);
    let ghost v = d@.deps;
    let mut i: usize = 0;
    assert(top + deps_lines(v.take(0)) =~= top);
    while i < d.deps.len()
        invariant
            i <= d.deps@.len(),
            v == d@.deps,
            views(out@) == top + deps_lines(v.take(i as int)),
        decreases d.deps@.len() - i,
    {
        let x = &d.deps[i];
        let label = glue(x.class.as_str(), " deps: ");
        let list = join_with(&x.origins, " ");
        let l = labelled_line(label.as_str(), list.as_str());
        let ghost before = views(out@);
        out.push(l);
        proof {
            assert(v[i as int] == d.deps@[i as int]@);
            assert(views(out@) =~= before.push(l@));
            assert(views(out@) =~= top + deps_lines(v.take(i + 1)));
        }
        i = i + 1;
    }
    assert(v.take(v.len() as int) =~= v);
    push_list("uses: ", &d.uses, out);
    assert(views(out@) =~= was + adds_lines(d@));
}

fn push_prevents(d: &OptionDef, out: &mut Vec<Line>)
    ensures
        views(final(out)@) == views(old(out)@) + prevents_lines(d@),
{
    let ghost was = views(out@);
    if d.prevents.len() > 0 {
        let list = join_with(&d.prevents, " ");
        let mut l = labelled_line("prevents: ", list.as_str());
        match &d.prevents_msg {
            Some(m) => {
                let t = glue3(" (", m.as_str(), ")");
                l.add_text(t.as_str(), fg(Color::DarkGray));
            },
            None => {},
        }
        out.push(l);
    }
    assert(views(out@) =~= was + prevents_lines(d@));
}

fn push_group(info: &PortInfo, opt: &str, out: &mut Vec<Line>)
    ensures
        views(final(out)@) == views(old(out)@) + group_lines(group_of(info@.options, opt@)),
{
    let ghost was = views(out@);
    let ghost gs = info@.options.groups;
    let ghost p = has_member(opt@, false);
    let mut i: usize = 0;
    while i < info.options.groups.len()
        invariant
            i <= info.options.groups@.len(),
            was == views(old(out)@),
            gs == info@.options.groups,
            p == has_member(opt@, false),
            views(out@) == was,
            forall|j: int| 0 <= j < i ==> !p(#[trigger] gs[j]),
        decreases info.options.groups@.len() - i,
    {
        let g = &info.options.groups[i];
        assert(gs[i as int] == g@);
        if list_has(&g.members, opt) {
            proof {
                crate::list::lemma_first_where_is(gs, p, i as int);
            }
            let mut l = line("group: ", fg(Color::DarkGray));
            l.add_text(g.name.as_str(), plain());
            let t = glue3(" (", g.kind.label(), ")");
            l.add_text(t.as_str(), fg(Color::DarkGray));
            assert(l@ == seq![
                ink("group: "@, fg(Color::DarkGray)),
                ink(g@.name, plain()),
                ink(" ("@ + g@.kind.text() + ")"@, fg(Color::DarkGray)),
            ]);
            out.push(l);
            assert(views(out@) =~= was.push(l@));
            assert(views(out@) =~= was + group_lines(group_of(info@.options, opt@)));
            return;
        }
        i = i + 1;
    }
    proof {
        crate::list::lemma_first_where_none(gs, p);
    }
    assert(views(out@) =~= was + group_lines(group_of(info@.options, opt@)));
}

fn push_desc(def: Option<&OptionDef>, out: &mut Vec<Line>)
    ensures
        views(final(out)@) == views(old(out)@) + desc_lines(def_view(def)),
{
    let ghost was = views(out@);
    match def {
        Some(d) => {
            if !d.desc.as_str().is_empty() {
                out.push(line(d.desc.as_str(), plain()));
                out.push(empty_line());
            }
        },
        None => {},
    }
    assert(views(out@) =~= was + desc_lines(def_view(def)));
}

/// The view of an option's metadata, if it has any.
spec fn def_view(def: Option<&OptionDef>) -> Option<DefView> {
    match def {
        Some(d) => Some(d@),
        None => None,
    }
}

fn value_of(session: &Session, info: &PortInfo, opt: &str) -> (l: Line)
    ensures
        l@ == value_line(session@, info@, opt@),
{
    let mut l = line("value: ", fg(Color::DarkGray));
    l.add_text(on_off(is_staged_on(session, info, opt)), plain().bold());
    let p = info.options.provenance(opt, file_state(session, info, opt));
    let mut t = glue3(" · default: ", on_off(info.options.defaults.has(opt)), " · source: ");
    t.append(provenance_label(p));
    l.add_text(t.as_str(), fg(Color::DarkGray));
    l
}

fn push_implied(by: &Option<String>, out: &mut Vec<Line>)
    ensures
        views(final(out)@) == views(old(out)@) + implied_lines(opt_view(*by)),
{
    let ghost was = views(out@);
    match by {
        Some(b) => {
            let mut l = line("implied by: ", fg(Color::DarkGray));
            l.add_text(b.as_str(), fg(Color::Cyan));
            assert(l@ == seq![
                ink("implied by: "@, fg(Color::DarkGray)),
                ink(b@, fg(Color::Cyan)),
            ]);
            out.push(l);
            assert(views(out@) =~= was.push(l@));
        },
        None => {},
    }
    assert(views(out@) =~= was + implied_lines(opt_view(*by)));
}

fn push_def(def: Option<&OptionDef>, out: &mut Vec<Line>)
    ensures
        views(final(out)@) == views(old(out)@) + def_lines(def_view(def)),
{
    let ghost was = views(out@);
    match def {
        Some(d) => {
            push_list("implies: ", &d.implies, out);
            push_prevents(d, out);
            push_blocked("BROKEN", &d.broken, out);
            push_blocked("IGNORE", &d.ignore, out);
            push_adds(d, out);
        },
        None => {},
    }
    assert(views(out@) =~= was + def_lines(def_view(def)));
}

/// Everything the framework says about one option, including the dependencies
/// enabling it pulls in.
pub fn option_info(session: &Session, info: &PortInfo, opt: &str) -> (r: Vec<Line>)
    ensures
        views(r@) == option_text(session@, info@, opt@),
{
    let def = info.options.defs.find(opt);
    assert(def_view(def) == lookup(info@.options.defs, opt@));
    let mut r: Vec<Line> = Vec::new();
    push_desc(def, &mut r);
    assert(views(r@) =~= desc_lines(def_view(def)));
    let ghost was = views(r@);
    r.push(value_of(session, info, opt));
    assert(views(r@) =~= was + seq![value_line(session@, info@, opt@)]);
    push_group(info, opt, &mut r);
    let by = session.implied_by(info, opt);
    push_implied(&by, &mut r);
    push_def(def, &mut r);
    let ghost was = views(r@);
    r.push(empty_line());
    r.push(line("press any key to close", fg(Color::DarkGray)));
    assert(views(r@) =~= was + seq![
        LineView::empty(),
        line_of("press any key to close"@, fg(Color::DarkGray)),
    ]);
    r
}

/// With the details of the option under the cursor open.
pub open spec fn with_option(a: AppView) -> AppView {
    match (selected_of(a), option_at(a.editor_rows, a.editor_idx)) {
        (Some(key), Some(opt)) => AppView { opt_info: Some((key, opt)), ..a },
        _ => a,
    }
}

impl App {
    /// Show the details of the option under the cursor.
    pub fn open_option(&mut self)
        ensures
            final(self)@ == with_option(old(self)@),
    {
        match self.selected_key() {
            Some(key) => match current_option(&self.editor_rows, self.editor_idx) {
                Some(opt) => {
                    self.opt_info = Some((key, opt));
                },
                None => {},
            },
            None => {},
        }
    }
}

// ---------------------------------------------------------------------
// Prompts
// ---------------------------------------------------------------------

/// The lines of the quit prompt, with so many makes running.
pub open spec fn quit_text(active: nat) -> Seq<LineView> {
    let ask = line_of(
        "Unsaved staged changes — [s]ave draft & quit · [d]iscard & quit · [Esc] stay"@,
        plain(),
    );
    if active > 0 {
        seq![
            ask,
            line_of(
                decimal(active) + " background make process(es) running — stopped on quit"@,
                fg(Color::DarkGray),
            ),
        ]
    } else {
        seq![ask]
    }
}

/// The lines of the quit prompt, with so many makes running.
pub fn quit_lines(active: usize) -> (r: Vec<Line>)
    ensures
        views(r@) == quit_text(active as nat),
{
    let mut r: Vec<Line> = Vec::new();
    r.push(
        line(
            "Unsaved staged changes — [s]ave draft & quit · [d]iscard & quit · [Esc] stay",
            plain(),
        ),
    );
    if active > 0 {
        let n = number(active as u64);
        let t = glue(n.as_str(), " background make process(es) running — stopped on quit");
        r.push(line(t.as_str(), fg(Color::DarkGray)));
    }
    assert(views(r@) =~= quit_text(active as nat));
    r
}

/// The line of the bulk prompt.
pub fn bulk_line(input: &str) -> (r: String)
    ensures
        r@ == " "@ + input@ + "▏"@,
{
    glue3(" ", input, "▏")
}

/// Where the bulk prompt stands on a screen: a row and a height.
pub fn bulk_rows(top: u16, height: u16) -> (r: (u16, u16))
    requires
        top + height <= u16::MAX,
    ensures
        r.1 == if height < 3 {
            height
        } else {
            3
        },
        r.0 == top + (height - r.1) / 2,
{
    let h: u16 = if height < 3 {
        height
    } else {
        3
    };
    (top + (height - h) / 2, h)
}

// ---------------------------------------------------------------------
// What the details say
// ---------------------------------------------------------------------

/// The details of an option: its description, its value beside its default and its
/// source, its group, what implies it, and what it implies, prevents, breaks and
/// adds.
pub proof fn law_option_text(
    v: SessionView,
    info: InfoView,
    opt: Str,
    st: StateView,
    d: DefView,
    t: Str,
    g: GroupView,
    i: int,
)
    requires
        v.states.dom().contains(info.options_name),
        v.states[info.options_name] == st,
        info.options.defs.dom().contains(opt),
        info.options.defs[opt] == d,
    ensures
        ({
            let ls = option_text(v, info, opt);
            let word = |on: bool|
                if on {
                    "on"@
                } else {
                    "off"@
                };
            let dim = fg(Color::DarkGray);
            &&& d.desc.len() > 0 ==> ls[0] == line_of(d.desc, plain())
            &&& ls.contains(
                seq![
                    ink("value: "@, dim),
                    ink(word(st.staged.contains(opt)), plain().bold()),
                    ink(
                        " · default: "@ + word(info.options.defaults.contains(opt))
                            + " · source: "@ + source_text(source_of(v, info, opt)),
                        dim,
                    ),
                ],
            )
            &&& group_of(info.options, opt) == Some(g) ==> ls.contains(
                seq![
                    ink("group: "@, dim),
                    ink(g.name, plain()),
                    ink(" ("@ + g.kind.text() + ")"@, dim),
                ],
            )
            &&& implier(info.options, st.staged, opt) == Some(t) ==> ls.contains(
                seq![ink("implied by: "@, dim), ink(t, fg(Color::Cyan))],
            )
            &&& d.implies.len() > 0 ==> ls.contains(labelled("implies: "@, join(d.implies, " "@)))
            &&& d.prevents.len() > 0 && d.prevents_msg is None ==> ls.contains(
                labelled("prevents: "@, join(d.prevents, " "@)),
            )
            &&& d.broken == Some(t) ==> ls.contains(
                line_of("⚠ "@ + "BROKEN"@ + " when enabled: "@ + t, fg(Color::Red).bold()),
            )
            &&& d.ignore == Some(t) ==> ls.contains(
                line_of("⚠ "@ + "IGNORE"@ + " when enabled: "@ + t, fg(Color::Red).bold()),
            )
            &&& 0 <= i < d.deps.len() ==> ls.contains(
                labelled(d.deps[i].class + " deps: "@, join(d.deps[i].origins, " "@)),
            )
            &&& d.uses.len() > 0 ==> ls.contains(labelled("uses: "@, join(d.uses, " "@)))
        }),
{
    let p1 = desc_lines(Some(d));
    let p2 = seq![value_line(v, info, opt)];
    let p3 = group_lines(group_of(info.options, opt));
    let p4 = implied_lines(implier(info.options, st.staged, opt));
    let q1 = list_lines("implies: "@, d.implies);
    let q2 = prevents_lines(d);
    let q3 = blocked_lines("BROKEN"@, d.broken);
    let q4 = blocked_lines("IGNORE"@, d.ignore);
    let a1 = seq![LineView::empty(), line_of("adds when enabled"@, fg(Color::Magenta).bold())];
    let a2 = deps_lines(d.deps);
    let a3 = list_lines("uses: "@, d.uses);
    let q5 = adds_lines(d);
    let p5 = def_lines(Some(d));
    let p6 = seq![LineView::empty(), line_of("press any key to close"@, fg(Color::DarkGray))];
    let ls = option_text(v, info, opt);
    assert(ls == p1 + p2 + p3 + p4 + p5 + p6);
    assert(p5 == q1 + q2 + q3 + q4 + q5);
    assert forall|l: LineView|
        p1.contains(l) || p2.contains(l) || p3.contains(l) || p4.contains(l)
            || p5.contains(l) implies #[trigger] ls.contains(l) by {
        lemma_lines_sum(p1, p2, l);
        lemma_lines_sum(p1 + p2, p3, l);
        lemma_lines_sum(p1 + p2 + p3, p4, l);
        lemma_lines_sum(p1 + p2 + p3 + p4, p5, l);
        lemma_lines_sum(p1 + p2 + p3 + p4 + p5, p6, l);
    }
    assert forall|l: LineView|
        q1.contains(l) || q2.contains(l) || q3.contains(l) || q4.contains(l)
            || q5.contains(l) implies #[trigger] p5.contains(l) by {
        lemma_lines_sum(q1, q2, l);
        lemma_lines_sum(q1 + q2, q3, l);
        lemma_lines_sum(q1 + q2 + q3, q4, l);
        lemma_lines_sum(q1 + q2 + q3 + q4, q5, l);
    }
    assert forall|l: LineView|
        (d.deps.len() > 0 || d.uses.len() > 0) && (a2.contains(l)
            || a3.contains(l)) implies #[trigger] q5.contains(l) by {
        lemma_lines_sum(a1, a2, l);
        lemma_lines_sum(a1 + a2, a3, l);
    }
    assert(p2.contains(p2[0]));
    if p3.len() > 0 {
        assert(p3.contains(p3[0]));
    }
    if p4.len() > 0 {
        assert(p4.contains(p4[0]));
    }
    if q1.len() > 0 {
        assert(q1.contains(q1[0]));
        assert(p5.contains(q1[0]));
    }
    if q2.len() > 0 {
        assert(q2.contains(q2[0]));
        assert(p5.contains(q2[0]));
    }
    if q3.len() > 0 {
        assert(q3.contains(q3[0]));
        assert(p5.contains(q3[0]));
    }
    if q4.len() > 0 {
        assert(q4.contains(q4[0]));
        assert(p5.contains(q4[0]));
    }
    if 0 <= i < d.deps.len() {
        assert(a2[i] == labelled(d.deps[i].class + " deps: "@, join(d.deps[i].origins, " "@)));
        assert(a2.contains(a2[i]));
        assert(q5.contains(a2[i]));
        assert(p5.contains(a2[i]));
    }
    if d.uses.len() > 0 {
        assert(a3[0] == labelled("uses: "@, join(d.uses, " "@)));
        assert(a3.contains(a3[0]));
        assert(q5.contains(a3[0]));
        assert(p5.contains(a3[0]));
    }
}

/// An explanation lists what depends on a port directly: exactly the ports with an
/// edge that leads to it.
pub proof fn law_why_dependents(v: SessionView, key: KeyView, k: KeyView)
    requires
        v.ports.dom().finite(),
        v.ports.dom().contains(key),
    ensures
        why_of(v, key).dependents.contains(k) <==> v.ports.dom().contains(k) && exists|i: int|
            0 <= i < v.ports[k].deps.len() && v.resolved((#[trigger] v.ports[k].deps[i]).target)
                == Some(key),
        why_of(v, key).key == key,
        why_of(v, key).selected == 0,
        why_of(v, key).chain == chain_to(v, key),
{
    let q = ordered::<PortKey>(v.ports.dom());
    crate::sorted::lemma_ordered::<PortKey>(v.ports.dom());
    crate::list::lemma_filter_holds(q, |k: KeyView| depends(v, k, key));
}

/// A chain is shown from the root down, the root marked as such; what is left out
/// of the dependents is counted.
pub proof fn law_why_lines(w: WhyView, c: Seq<KeyView>, i: int)
    requires
        w.chain == Some(c),
    ensures
        ({
            let ls = why_lines(w);
            let n = c.len() as int;
            &&& n > 0 ==> ls[0][0].text == padded(key_text(c[0]), key_width(c)) && ls[0][1].text
                == "  (root)"@
            &&& 0 < i < n ==> ls[i][0].text == blanks(i as nat) + "└─ "@ && ls[i][1].text == padded(
                key_text(c[i]),
                key_width(c),
            )
            &&& ls[n + 1][0].text == "direct dependents ("@ + decimal(w.dependents.len()) + "):"@
            &&& 0 <= i < w.dependents.len() && i < 15 ==> ls[n + 2 + i][0].text == "  "@ + key_text(
                w.dependents[i],
            )
            &&& w.dependents.len() == 0 ==> ls[n + 2][0].text == "  none in this closure"@
            &&& w.dependents.len() > 15 ==> ls[n + 17][0].text == "  + "@ + decimal(
                (w.dependents.len() - 15) as nat,
            ) + " more"@
        }),
{
    lemma_chain_lines(c, c.len(), w.selected, i);
    lemma_chain_lines(c, c.len(), w.selected, 0);
    lemma_dependent_lines(w, listed_dependents(w), i);
}

proof fn lemma_chain_lines(c: Seq<KeyView>, n: nat, selected: nat, i: int)
    ensures
        chain_lines(c, n, selected).len() == n,
        0 <= i < n ==> chain_lines(c, n, selected)[i] == chain_line(c, i, selected),
    decreases n,
{
    if n > 0 {
        lemma_chain_lines(c, (n - 1) as nat, selected, i);
    }
}

proof fn lemma_dependent_lines(w: WhyView, n: nat, i: int)
    ensures
        dependent_lines(w, n).len() == n,
        0 <= i < n ==> dependent_lines(w, n)[i][0].text == "  "@ + key_text(w.dependents[i]),
    decreases n,
{
    if n > 0 {
        lemma_dependent_lines(w, (n - 1) as nat, i);
    }
}

} // verus!
