//! The panes: port list, options editor, status bar.
use vstd::prelude::*;
use vstd::utf8::encode_utf8;

use crate::config::blacklisted;
use crate::list::{lemma_take_one, lookup};
use crate::model::options::{DefView, GroupKind, OptionsView, PortOptions, Provenance};
use crate::model::origin::{key_text, KeyView, PortKey};
use crate::model::port::{InfoView, PortInfo};
use crate::report::{pad, padded};
use crate::session::base::{Session, SessionView, StateView};
use crate::session::implies::implier;
use crate::session::status::{mc_deviates_of, status_of, violations_of, UiStatus};
use crate::text::{decimal, glue, glue3, join, join_with, list_has, number, opt_view, owned};
use crate::text::{same, to_chars, views, Str};
use crate::tui::app::{App, AppView, Focus};
use crate::tui::editor::{option_at, EditorRow, EditorRowView};
use crate::tui::list::{effective, effective_status};
use crate::tui::overlay::{file_state, is_staged_on, on_off, source_of, staged_on};
use crate::tui::overlay::value_text;
use crate::tui::refresh::{blocked, capped};
use crate::tui::style::{empty_line, fg, fg_bg, ink, line, line_of, plain, Color, Line, LineView};
use crate::tui::style::Style;
use crate::tui::wrap::{mark_if_clipped, marked, wrap_text, wrapped};

verus! {

// ---------------------------------------------------------------------
// Port list
// ---------------------------------------------------------------------

/// The marker of a status.
pub open spec fn marker_of(s: UiStatus) -> (Str, Color) {
    match s {
        UiStatus::Conflict => ("✗"@, Color::Red),
        UiStatus::Edited => ("*"@, Color::Cyan),
        UiStatus::Unconfigured => ("?"@, Color::Yellow),
        UiStatus::Stale => ("!"@, Color::LightRed),
        UiStatus::McDeviation => ("≠"@, Color::Magenta),
        UiStatus::Okay => ("✓"@, Color::DarkGray),
    }
}

/// The marker of a status.
pub fn status_marker(s: UiStatus) -> (r: (&'static str, Color))
    ensures
        (r.0@, r.1) == marker_of(s),
{
    match s {
        UiStatus::Conflict => ("✗", Color::Red),
        UiStatus::Edited => ("*", Color::Cyan),
        UiStatus::Unconfigured => ("?", Color::Yellow),
        UiStatus::Stale => ("!", Color::LightRed),
        UiStatus::McDeviation => ("≠", Color::Magenta),
        UiStatus::Okay => ("✓", Color::DarkGray),
    }
}

/// The line of a port in the list. A port that a view silences keeps a hint
/// marker; a blacklisted one is silenced for its own reason. The name carries
/// the severity.
pub open spec fn port_row(a: AppView, key: KeyView, info: InfoView) -> LineView {
    let raw = status_of(a.session, info);
    let status = effective(a.session, a.blacklist, a.views, info);
    let black = blacklisted(a.blacklist, info.canonical.origin);
    let (marker, color) = if status == UiStatus::Okay && raw != UiStatus::Okay && !black {
        ("≈"@, Color::DarkGray)
    } else {
        marker_of(status)
    };
    let name_style = if black {
        fg(Color::DarkGray)
    } else if blocked(info) {
        fg(Color::Red).bold()
    } else if status == UiStatus::Conflict {
        fg(Color::Red)
    } else {
        plain()
    };
    let base = seq![ink(marker + " "@, fg(color)), ink(key_text(key), name_style)];
    let with_black = if black {
        base.push(ink(" ⊘"@, fg(Color::DarkGray)))
    } else {
        base
    };
    if blocked(info) {
        with_black.push(ink(" ⚠"@, fg(Color::Red)))
    } else {
        with_black
    }
}

/// The title of the list.
pub open spec fn list_title_text(a: AppView) -> Str {
    " Ports ("@ + (if a.views.hide_ok {
        decimal(a.visible.len()) + "/"@ + decimal(a.listable)
    } else {
        decimal(a.visible.len())
    }) + ")"@ + (if a.views.hide_ok {
        " — needs attention"@
    } else {
        Seq::empty()
    }) + (if a.filter.len() > 0 || a.focus == Focus::Filter {
        " — filter: "@ + a.filter + "▏"@
    } else {
        Seq::empty()
    }) + " "@
}

/// The colour of a pane's border.
#[verifier::allow_in_spec]
pub fn border(focused: bool) -> Style
    returns
        (if focused {
            fg(Color::LightBlue)
        } else {
            fg(Color::DarkGray)
        }),
{
    if focused {
        fg(Color::LightBlue)
    } else {
        fg(Color::DarkGray)
    }
}

impl App {
    /// The line of a port in the list.
    pub fn port_line(&self, key: &PortKey, info: &PortInfo) -> (r: Line)
        ensures
            r@ == port_row(self@, key@, info@),
    {
        let raw = self.session.status(info);
        let status = effective_status(&self.session, &self.blacklist, self.views, info);
        let black = self.blacklist.matches(info.canonical.origin.as_str());
        let (marker, color) = if status == UiStatus::Okay && raw != UiStatus::Okay && !black {
            ("≈", Color::DarkGray)
        } else {
            status_marker(status)
        };
        let stuck = info.broken.is_some() || info.ignore.is_some();
        let name_style = if black {
            fg(Color::DarkGray)
        } else if stuck {
            fg(Color::Red).bold()
        } else if status == UiStatus::Conflict {
            fg(Color::Red)
        } else {
            plain()
        };
        let m = glue(marker, " ");
        let k = key.to_string();
        let mut l = line(m.as_str(), fg(color));
        l.add_text(k.as_str(), name_style);
        if black {
            l.add_text(" ⊘", fg(Color::DarkGray));
        }
        if stuck {
            l.add_text(" ⚠", fg(Color::Red));
        }
        l
    }

    /// The title of the list.
    pub fn list_title(&self) -> (r: String)
        ensures
            r@ == list_title_text(self@),
    {
        let n = number(self.visible.len() as u64);
        let mut t = glue(" Ports (", n.as_str());
        if self.views.hide_ok {
            let m = number(self.listable as u64);
            t.append("/");
            t.append(m.as_str());
        }
        t.append(")");
        if self.views.hide_ok {
            t.append(" — needs attention");
        }
        let ghost head = t@;
        if !self.filter.as_str().is_empty() || self.focus == Focus::Filter {
            t.append(" — filter: ");
            t.append(self.filter.as_str());
            t.append("▏");
        }
        t.append(" ");
        assert(t@ =~= list_title_text(self@));
        t
    }
}

// ---------------------------------------------------------------------
// Banner
// ---------------------------------------------------------------------

/// A flavor with the marks of the owner of the options file and of the current
/// one.
pub open spec fn marked_flavor(f: Str, owner: Option<Str>, current: Option<Str>) -> Str {
    f + (if owner == Some(f) {
        "*"@
    } else {
        Seq::empty()
    }) + (if current == Some(f) {
        "‹"@
    } else {
        Seq::empty()
    })
}

/// The flavors of a port: none where it has none.
pub open spec fn flavors_text(v: SessionView, info: InfoView) -> Option<Str> {
    if info.flavors.len() == 0 {
        None
    } else {
        Some(
            join(
                info.flavors.map_values(
                    |f: Str|
                        marked_flavor(f, v.owner(info).canonical.flavor, info.canonical.flavor),
                ),
                " "@,
            ),
        )
    }
}

fn is_flavor(flavor: &Option<String>, f: &str) -> (r: bool)
    ensures
        r == (opt_view(*flavor) == Some(f@)),
{
    match flavor {
        Some(x) => same(x.as_str(), f),
        None => false,
    }
}

/// The flavors of this port, marking the current one (`‹`) and the one whose
/// view owns the shared options file (`*`). None when the port is unflavored.
pub fn flavor_summary(session: &Session, info: &PortInfo) -> (r: Option<String>)
    ensures
        opt_view(r) == flavors_text(session@, info@),
{
    if info.flavors.len() == 0 {
        return None;
    }
    let owner = session.owner_info(info);
    let ghost v = info@.flavors;
    let ghost g = |f: Str| marked_flavor(f, owner@.canonical.flavor, info@.canonical.flavor);
    let mut list: Vec<String> = Vec::new();
    let mut i: usize = 0;
    assert(views(list@) =~= v.take(0).map_values(g));
    while i < info.flavors.len()
        invariant
            i <= info.flavors@.len(),
            v == info@.flavors,
            g == (|f: Str| marked_flavor(f, owner@.canonical.flavor, info@.canonical.flavor)),
            views(list@) == v.take(i as int).map_values(g),
        decreases info.flavors@.len() - i,
    {
        let f = info.flavors[i].as_str();
        let mut t = owned(f);
        if is_flavor(&owner.canonical.flavor, f) {
            t.append("*");
        }
        if is_flavor(&info.canonical.flavor, f) {
            t.append("‹");
        }
        let ghost was = views(list@);
        list.push(t);
        proof {
            assert(v[i as int] == f@);
            assert(t@ =~= g(f@));
            assert(views(list@) =~= was.push(t@));
            assert(views(list@) =~= v.take(i + 1).map_values(g));
        }
        i = i + 1;
    }
    assert(v.take(v.len() as int) =~= v);
    Some(join_with(&list, " "))
}

/// The port that owns a port's options file, where that is another port.
pub open spec fn foreign(v: SessionView, info: InfoView) -> Option<KeyView> {
    if v.owner(info).canonical != info.canonical {
        Some(v.owner(info).canonical)
    } else {
        None
    }
}

/// The port owning this one's options file, when that is a *different* port —
/// i.e. the options are edited through another flavor's view.
pub fn foreign_owner<'a>(session: &'a Session, info: &'a PortInfo) -> (r: Option<&'a PortKey>)
    ensures
        match r {
            Some(k) => foreign(session@, info@) == Some(k@),
            None => foreign(session@, info@) is None,
        },
{
    let owner = session.owner_info(info);
    if owner.canonical.equals(&info.canonical) {
        None
    } else {
        Some(&owner.canonical)
    }
}

/// The option changes blamed for a port's state, where it is blocked.
pub open spec fn blamed_for(a: AppView, info: InfoView) -> Option<Str> {
    if blocked(info) {
        lookup(a.blame, info.options_name)
    } else {
        None
    }
}

/// A line with a text after a label, if there is one.
pub open spec fn said(label: Str, text: Option<Str>, style: Style) -> Seq<LineView> {
    match text {
        Some(t) => seq![line_of(label + t, style)],
        None => Seq::empty(),
    }
}

/// The line on the owner of the options file, if it is another port.
pub open spec fn owner_lines(key: Option<KeyView>) -> Seq<LineView> {
    match key {
        Some(k) => seq![
            line_of(
                "options file owned by "@ + key_text(k) + " (default flavor view)"@,
                fg(Color::DarkGray),
            ),
        ],
        None => Seq::empty(),
    }
}

/// The lines above the options of a port.
pub open spec fn banner_of(a: AppView, info: InfoView) -> Seq<LineView> {
    said("BROKEN: "@, info.broken, fg(Color::Red).bold()) + said(
        "IGNORE: "@,
        info.ignore,
        fg(Color::Red).bold(),
    ) + said("likely cause: "@, blamed_for(a, info), fg(Color::DarkGray).dim()) + said(
        "DEPRECATED: "@,
        info.deprecated,
        fg(Color::Magenta),
    ) + owner_lines(foreign(a.session, info)) + violations_of(a.session, info).map_values(
        |v: Str| line_of("CONFLICT: "@ + v, fg(Color::Red).bold()),
    )
}

fn push_said(label: &str, text: Option<&String>, style: Style, out: &mut Vec<Line>)
    ensures
        views(final(out)@) == views(old(out)@) + said(
            label@,
            match text {
                Some(t) => Some(t@),
                None => None,
            },
            style,
        ),
{
    let ghost was = views(out@);
    match text {
        Some(t) => {
            let x = glue(label, t.as_str());
            out.push(line(x.as_str(), style));
            assert(views(out@) =~= was + said(label@, Some(t@), style));
        },
        None => {
            assert(views(out@) =~= was + said(label@, None, style));
        },
    }
}

impl App {
    fn blame_of(&self, info: &PortInfo) -> (r: Option<&String>)
        ensures
            blamed_for(self@, info@) == match r {
                Some(t) => Some(t@),
                None => None,
            },
    {
        if info.broken.is_some() || info.ignore.is_some() {
            self.blame.get(&info.options_name)
        } else {
            None
        }
    }

    /// The lines above the options of a port.
    pub fn banner_lines(&self, info: &PortInfo) -> (r: Vec<Line>)
        ensures
            views(r@) == banner_of(self@, info@),
    {
        let red = fg(Color::Red).bold();
        let mut r: Vec<Line> = Vec::new();
        assert(views(r@) =~= Seq::<LineView>::empty());
        push_said("BROKEN: ", info.broken.as_ref(), red, &mut r);
        assert(views(r@) =~= said("BROKEN: "@, info@.broken, red));
        push_said("IGNORE: ", info.ignore.as_ref(), red, &mut r);
        push_said("likely cause: ", self.blame_of(info), fg(Color::DarkGray).dim(), &mut r);
        push_said("DEPRECATED: ", info.deprecated.as_ref(), fg(Color::Magenta), &mut r);
        let ghost was = views(r@);
        match foreign_owner(&self.session, info) {
            Some(k) => {
                let name = k.to_string();
                let t = glue3("options file owned by ", name.as_str(), " (default flavor view)");
                r.push(line(t.as_str(), fg(Color::DarkGray)));
            },
            None => {},
        }
        assert(views(r@) =~= was + owner_lines(foreign(self@.session, info@)));
        let ghost start = views(r@);
        let found = self.session.violations(info);
        let ghost v = violations_of(self@.session, info@);
        let ghost g = |v: Str| line_of("CONFLICT: "@ + v, fg(Color::Red).bold());
        let mut i: usize = 0;
        assert(start + v.take(0).map_values(g) =~= start);
        while i < found.len()
            invariant
                i <= found@.len(),
                v == views(found@),
                red == fg(Color::Red).bold(),
                g == (|v: Str| line_of("CONFLICT: "@ + v, fg(Color::Red).bold())),
                views(r@) == start + v.take(i as int).map_values(g),
            decreases found@.len() - i,
        {
            let t = glue("CONFLICT: ", found[i].as_str());
            let l = line(t.as_str(), red);
            let ghost before = views(r@);
            r.push(l);
            proof {
                assert(v[i as int] == found@[i as int]@);
                assert(l@ == g(v[i as int]));
                assert(views(r@) =~= before.push(l@));
                assert(views(r@) =~= start + v.take(i + 1).map_values(g));
            }
            i = i + 1;
        }
        assert(v.take(v.len() as int) =~= v);
        r
    }
}

// ---------------------------------------------------------------------
// Option rows
// ---------------------------------------------------------------------

/// Room a row's trailing description needs to be worth printing: below this
/// the pane would cut it to a word fragment, and the detail panel under the
/// rows carries it in full anyway.
pub const DESC_MIN_WIDTH: usize = 16;

/// Whether a group of which one member can be on holds an option.
pub open spec fn in_choice_group(o: OptionsView, opt: Str) -> bool {
    exists|i: int|
        0 <= i < o.groups.len() && (#[trigger] o.groups[i]).kind.exclusive()
            && o.groups[i].members.contains(opt)
}

/// The box of an option: round where one of a group can be on.
pub open spec fn box_text(choice: bool, on: bool) -> Str {
    if choice {
        if on {
            "(o)"@
        } else {
            "( )"@
        }
    } else if on {
        "[x]"@
    } else {
        "[ ]"@
    }
}

/// Whether an option is unknown to the saved file.
pub open spec fn is_new(state: Option<StateView>, opt: Str) -> bool {
    match state {
        Some(st) => match st.saved {
            Some(s) => !s.knows(opt),
            None => false,
        },
        None => false,
    }
}

/// The style of an option's name: magenta where it contradicts make.conf,
/// yellow where it deviates from the port's default.
pub open spec fn name_style(v: SessionView, info: InfoView, opt: Str, selected: bool) -> Style {
    let s = if mc_deviates_of(v, info, opt) {
        fg(Color::Magenta)
    } else if staged_on(v, info, opt) != info.options.defaults.contains(opt) {
        fg(Color::Yellow)
    } else {
        plain()
    };
    if selected {
        s.reversed()
    } else {
        s
    }
}

/// The make.conf column: the value that layer dictates, in its own colour, and
/// blank where nothing but the port default or the file decides.
pub open spec fn layer_column(v: SessionView, info: InfoView, opt: Str) -> (Str, Style) {
    let o = info.options;
    match source_of(v, info, opt) {
        Provenance::Forced => (
            value_text(
                match o.forced(opt) {
                    Some(b) => b,
                    None => false,
                },
            ),
            fg(Color::Red).bold(),
        ),
        Provenance::MakeConfPort => (value_text(o.port_set.contains(opt)), fg(Color::LightGreen)),
        Provenance::MakeConfGlobal => (value_text(o.mc_set.contains(opt)), fg(Color::Green)),
        _ => (Seq::empty(), plain()),
    }
}

/// How many characters a line holds.
pub open spec fn line_chars(l: LineView) -> nat
    decreases l.len(),
{
    if l.len() == 0 {
        0
    } else {
        line_chars(l.drop_last()) + l.last().text.len()
    }
}

/// The columns of a row that are always there.
pub open spec fn fixed_columns(
    v: SessionView,
    info: InfoView,
    opt: Str,
    selected: bool,
    name_width: nat,
) -> LineView {
    let (text, style) = layer_column(v, info, opt);
    seq![
        ink(
            if is_new(v.state_of(info), opt) {
                "N"@
            } else {
                " "@
            },
            fg(Color::Yellow).bold(),
        ),
        ink(
            " "@ + box_text(in_choice_group(info.options, opt), staged_on(v, info, opt)) + " "@
                + padded(opt, name_width),
            name_style(v, info, opt, selected),
        ),
        ink(
            " "@ + padded(value_text(info.options.defaults.contains(opt)), 3),
            fg(Color::DarkGray),
        ),
        ink(" "@ + padded(text, 3), style),
    ]
}

/// A row with what implies its option, where it is on.
pub open spec fn with_implier(l: LineView, by: Option<Str>, on: bool) -> LineView {
    match by {
        Some(b) => if on {
            l.push(ink(" implied by "@ + b, fg(Color::Cyan)))
        } else {
            l
        },
        None => l,
    }
}

/// A row with what its option does to the port.
pub open spec fn with_flags(l: LineView, d: DefView) -> LineView {
    let b = if d.broken is Some {
        l.push(ink(" ⚠broken"@, fg(Color::Red)))
    } else {
        l
    };
    if d.ignore is Some {
        b.push(ink(" ⚠ignored"@, fg(Color::Red)))
    } else {
        b
    }
}

/// A row with its description, where there is room for enough of it.
pub open spec fn with_desc(l: LineView, d: DefView, avail: nat) -> LineView {
    if d.desc.len() > 0 && line_chars(l) + 2 + DESC_MIN_WIDTH <= avail {
        l.push(ink("  "@ + d.desc, fg(Color::DarkGray)))
    } else {
        l
    }
}

/// One option row, laid out for a pane `avail` columns wide.
pub open spec fn option_row(
    v: SessionView,
    info: InfoView,
    opt: Str,
    selected: bool,
    name_width: nat,
    avail: nat,
) -> LineView {
    let base = with_implier(
        fixed_columns(v, info, opt, selected, name_width),
        match v.state_of(info) {
            Some(st) => implier(info.options, st.staged, opt),
            None => None,
        },
        staged_on(v, info, opt),
    );
    match lookup(info.options.defs, opt) {
        Some(d) => with_desc(with_flags(base, d), d, avail),
        None => base,
    }
}

fn has_choice_group(o: &PortOptions, opt: &str) -> (r: bool)
    ensures
        r == in_choice_group(o@, opt@),
{
    let mut i: usize = 0;
    while i < o.groups.len()
        invariant
            i <= o.groups@.len(),
            forall|j: int|
                0 <= j < i ==> !((#[trigger] o@.groups[j]).kind.exclusive()
                    && o@.groups[j].members.contains(opt@)),
        decreases o.groups@.len() - i,
    {
        assert(o@.groups[i as int] == o.groups@[i as int]@);
        if o.groups[i].kind.is_exclusive() && list_has(&o.groups[i].members, opt) {
            return true;
        }
        i = i + 1;
    }
    false
}

fn checkbox(choice: bool, on: bool) -> (r: &'static str)
    ensures
        r@ == box_text(choice, on),
{
    if choice {
        if on {
            "(o)"
        } else {
            "( )"
        }
    } else if on {
        "[x]"
    } else {
        "[ ]"
    }
}

fn is_unknown(session: &Session, info: &PortInfo, opt: &str) -> (r: bool)
    ensures
        r == is_new(session@.state_of(info@), opt@),
{
    match session.state(info) {
        Some(st) => match &st.saved {
            Some(s) => !s.knows(opt),
            None => false,
        },
        None => false,
    }
}

fn layer_value(session: &Session, info: &PortInfo, opt: &str) -> (r: (&'static str, Style))
    ensures
        (r.0@, r.1) == layer_column(session@, info@, opt@),
{
    let o = &info.options;
    match o.provenance(opt, file_state(session, info, opt)) {
        Provenance::Forced => {
            let on = match o.forced_value(opt) {
                Some(b) => b,
                None => false,
            };
            (on_off(on), fg(Color::Red).bold())
        },
        Provenance::MakeConfPort => (on_off(o.port_set.has(opt)), fg(Color::LightGreen)),
        Provenance::MakeConfGlobal => (on_off(o.mc_set.has(opt)), fg(Color::Green)),
        _ => {
            proof {
                reveal_strlit("");
                assert(""@ =~= Seq::<char>::empty());
            }
            ("", plain())
        },
    }
}

fn fixed_part(
    session: &Session,
    info: &PortInfo,
    opt: &str,
    selected: bool,
    name_width: usize,
) -> (l: Line)
    ensures
        l@ == fixed_columns(session@, info@, opt@, selected, name_width as nat),
{
    let on = is_staged_on(session, info, opt);
    let is_default = info.options.defaults.has(opt);
    let mut l = line(
        if is_unknown(session, info, opt) {
            "N"
        } else {
            " "
        },
        fg(Color::Yellow).bold(),
    );
    let mut style = if session.mc_deviates(info, opt) {
        fg(Color::Magenta)
    } else if on != is_default {
        fg(Color::Yellow)
    } else {
        plain()
    };
    if selected {
        style = style.reversed();
    }
    let mut base = glue3(" ", checkbox(has_choice_group(&info.options, opt), on), " ");
    let name = pad(opt, name_width);
    base.append(name.as_str());
    l.add_text(base.as_str(), style);
    let d = pad(on_off(is_default), 3);
    let d = glue(" ", d.as_str());
    l.add_text(d.as_str(), fg(Color::DarkGray));
    let (text, style) = layer_value(session, info, opt);
    let p = pad(text, 3);
    let p = glue(" ", p.as_str());
    l.add_text(p.as_str(), style);
    l
}

proof fn lemma_part_chars(l: LineView, n: int)
    requires
        0 <= n <= l.len(),
    ensures
        line_chars(l.take(n)) <= line_chars(l),
    decreases l.len() - n,
{
    if n < l.len() {
        lemma_take_one(l, n);
        lemma_part_chars(l, n + 1);
    } else {
        assert(l.take(n) =~= l);
    }
}

/// Whether a line leaves so many columns free in a pane.
fn leaves(l: &Line, room: usize, avail: usize) -> (r: bool)
    ensures
        r == (line_chars(l@) + room <= avail),
{
    if avail < room {
        return false;
    }
    let ghost v = l@;
    let mut left: usize = avail - room;
    let mut i: usize = 0;
    assert(v.take(0) =~= LineView::empty());
    while i < l.spans.len()
        invariant
            i <= l.spans@.len(),
            v == l@,
            left + room + line_chars(v.take(i as int)) == avail,
        decreases l.spans@.len() - i,
    {
        proof {
            lemma_take_one(v, i as int);
            lemma_part_chars(v, i + 1);
            assert(v[i as int] == l.spans@[i as int]@);
        }
        let n = to_chars(l.spans[i].text.as_str()).len();
        if n > left {
            return false;
        }
        left = left - n;
        i = i + 1;
    }
    assert(v.take(v.len() as int) =~= v);
    true
}

/// One option row, laid out for a pane `avail` columns wide.
pub fn option_line(
    session: &Session,
    info: &PortInfo,
    opt: &str,
    selected: bool,
    name_width: usize,
    avail: usize,
) -> (r: Line)
    ensures
        r@ == option_row(session@, info@, opt@, selected, name_width as nat, avail as nat),
{
    let mut l = fixed_part(session, info, opt, selected, name_width);
    let on = is_staged_on(session, info, opt);
    match session.implied_by(info, opt) {
        Some(by) => {
            if on {
                let t = glue(" implied by ", by.as_str());
                l.add_text(t.as_str(), fg(Color::Cyan));
            }
        },
        None => {},
    }
    match info.options.defs.find(opt) {
        Some(d) => {
            if d.broken.is_some() {
                l.add_text(" ⚠broken", fg(Color::Red));
            }
            if d.ignore.is_some() {
                l.add_text(" ⚠ignored", fg(Color::Red));
            }
            if !d.desc.as_str().is_empty() && leaves(&l, 2 + DESC_MIN_WIDTH, avail) {
                let t = glue("  ", d.desc.as_str());
                l.add_text(t.as_str(), fg(Color::DarkGray));
            }
        },
        None => {},
    }
    l
}

// ---------------------------------------------------------------------
// Editor
// ---------------------------------------------------------------------

/// The longest option name of some rows, in bytes: none where there is no
/// option.
pub open spec fn longest_name(rows: Seq<EditorRowView>) -> Option<nat>
    decreases rows.len(),
{
    if rows.len() == 0 {
        None
    } else {
        let before = longest_name(rows.drop_last());
        match rows.last() {
            EditorRowView::Option(o) => {
                let n = encode_utf8(o).len();
                match before {
                    Some(m) => if m < n {
                        Some(n)
                    } else {
                        Some(m)
                    },
                    None => Some(n),
                }
            },
            _ => before,
        }
    }
}

/// The width of the name column: the longest option of the port, within bounds.
pub open spec fn column_width(rows: Seq<EditorRowView>) -> nat {
    match longest_name(rows) {
        Some(n) => if n < 12 {
            12
        } else if n > 28 {
            28
        } else {
            n
        },
        None => 12,
    }
}

/// A text behind a header, if there is one.
pub open spec fn header_text(name: Str, label: Str, desc: Str) -> Str {
    "── "@ + name + " — "@ + label + if desc.len() > 0 {
        ": "@ + desc
    } else {
        Seq::empty()
    }
}

/// A box with a name behind it.
pub open spec fn boxed(on: bool, opt: Str) -> Str {
    "["@ + (if on {
        "x"@
    } else {
        " "@
    }) + "] "@ + opt
}

/// Whether the saved file has an option on.
pub open spec fn was_on(state: Option<StateView>, opt: Str) -> bool {
    match state {
        Some(st) => match st.saved {
            Some(s) => s.set.contains(opt),
            None => false,
        },
        None => false,
    }
}

/// The line of an editor row.
pub open spec fn row_line(
    v: SessionView,
    info: InfoView,
    row: EditorRowView,
    selected: bool,
    name_width: nat,
    avail: nat,
) -> LineView {
    match row {
        EditorRowView::GroupHeader(i) => if i < info.options.groups.len() {
            let g = info.options.groups[i as int];
            line_of(header_text(g.name, g.kind.text(), g.desc), fg(Color::Magenta).bold())
        } else {
            LineView::empty()
        },
        EditorRowView::Option(opt) => option_row(v, info, opt, selected, name_width, avail),
        EditorRowView::ExcludedHeader => line_of(
            "── not in this flavor (managed via the default flavor)"@,
            fg(Color::DarkGray).bold(),
        ),
        EditorRowView::Excluded(opt) => line_of(
            "  "@ + boxed(staged_on(v, info, opt), opt),
            fg(Color::DarkGray),
        ),
        EditorRowView::ObsoleteHeader => line_of(
            "── obsolete (no longer exist; dropped on apply)"@,
            fg(Color::DarkGray).bold(),
        ),
        EditorRowView::Obsolete(opt) => seq![
            ink("  "@, plain()),
            ink(boxed(was_on(v.state_of(info), opt), opt), fg(Color::DarkGray).crossed_out()),
        ],
    }
}

/// The lines of the first rows of the editor.
pub open spec fn rows_lines(a: AppView, info: InfoView, avail: nat, n: nat) -> Seq<LineView>
    decreases n,
{
    if n == 0 {
        Seq::empty()
    } else {
        let i = n - 1;
        rows_lines(a, info, avail, i as nat).push(
            row_line(
                a.session,
                info,
                a.editor_rows[i],
                a.focus == Focus::Editor && i == a.editor_idx,
                column_width(a.editor_rows),
                avail,
            ),
        )
    }
}

/// The lines of the editor.
pub open spec fn editor_text(a: AppView, info: InfoView, avail: nat) -> Seq<LineView> {
    banner_of(a, info) + rows_lines(a, info, avail, a.editor_rows.len())
}

fn name_column(rows: &Vec<EditorRow>) -> (r: usize)
    ensures
        r == column_width(views(rows@)),
{
    let ghost v = views(rows@);
    let mut most: Option<usize> = None;
    let mut i: usize = 0;
    assert(v.take(0) =~= Seq::<EditorRowView>::empty());
    while i < rows.len()
        invariant
            i <= rows@.len(),
            v == views(rows@),
            longest_name(v.take(i as int)) == match most {
                Some(n) => Some(n as nat),
                None => None,
            },
        decreases rows@.len() - i,
    {
        proof {
            lemma_take_one(v, i as int);
            assert(v[i as int] == rows@[i as int]@);
        }
        match &rows[i] {
            EditorRow::Option(o) => {
                let n = o.as_str().as_bytes().len();
                most = match most {
                    Some(m) => if m < n {
                        Some(n)
                    } else {
                        Some(m)
                    },
                    None => Some(n),
                };
            },
            _ => {},
        }
        i = i + 1;
    }
    assert(v.take(v.len() as int) =~= v);
    match most {
        Some(n) => if n < 12 {
            12
        } else if n > 28 {
            28
        } else {
            n
        },
        None => 12,
    }
}

fn box_line(on: bool, opt: &str) -> (r: String)
    ensures
        r@ == boxed(on, opt@),
{
    let mut t = glue3(
        "[",
        if on {
            "x"
        } else {
            " "
        },
        "] ",
    );
    t.append(opt);
    t
}

fn editor_line(
    session: &Session,
    info: &PortInfo,
    row: &EditorRow,
    selected: bool,
    name_width: usize,
    avail: usize,
) -> (r: Line)
    ensures
        r@ == row_line(session@, info@, row@, selected, name_width as nat, avail as nat),
{
    match row {
        EditorRow::GroupHeader(i) => {
            if *i < info.options.groups.len() {
                let g = &info.options.groups[*i];
                assert(info@.options.groups[*i as int] == g@);
                let mut t = glue3("── ", g.name.as_str(), " — ");
                t.append(g.kind.label());
                if !g.desc.as_str().is_empty() {
                    let d = glue(": ", g.desc.as_str());
                    t.append(d.as_str());
                } else {
                    assert(t@ + Seq::<char>::empty() =~= t@);
                }
                line(t.as_str(), fg(Color::Magenta).bold())
            } else {
                empty_line()
            }
        },
        EditorRow::Option(opt) => option_line(
            session,
            info,
            opt.as_str(),
            selected,
            name_width,
            avail,
        ),
        EditorRow::ExcludedHeader => line(
            "── not in this flavor (managed via the default flavor)",
            fg(Color::DarkGray).bold(),
        ),
        EditorRow::Excluded(opt) => {
            let b = box_line(is_staged_on(session, info, opt.as_str()), opt.as_str());
            let t = glue("  ", b.as_str());
            line(t.as_str(), fg(Color::DarkGray))
        },
        EditorRow::ObsoleteHeader => line(
            "── obsolete (no longer exist; dropped on apply)",
            fg(Color::DarkGray).bold(),
        ),
        EditorRow::Obsolete(opt) => {
            let on = match session.state(info) {
                Some(st) => match &st.saved {
                    Some(s) => s.set.has(opt.as_str()),
                    None => false,
                },
                None => false,
            };
            let b = box_line(on, opt.as_str());
            let mut l = line("  ", plain());
            l.add_text(b.as_str(), fg(Color::DarkGray).crossed_out());
            l
        },
    }
}

/// The title of the editor.
pub open spec fn editor_title_text(v: SessionView, key: KeyView, info: InfoView) -> Str {
    " "@ + key_text(key) + " — "@ + info.pkgname + match flavors_text(v, info) {
        Some(f) => " · flavors: "@ + f + " "@,
        None => " "@,
    }
}

/// The line of the editor that the cursor stands on.
pub open spec fn cursor_line(a: AppView, info: InfoView) -> nat {
    let n = (if a.editor_idx + 1 < a.editor_rows.len() {
        a.editor_idx + 1
    } else {
        a.editor_rows.len()
    }) + banner_of(a, info).len();
    if n > 0 {
        (n - 1) as nat
    } else {
        0
    }
}

/// How far the editor is scrolled for the cursor to be in view, in a box with a
/// height for its text.
pub open spec fn scroll_for(at: nat, height: nat) -> nat {
    let last = if height > 0 {
        (height - 1) as nat
    } else {
        0
    };
    if at > last {
        (at - last) as nat
    } else {
        0
    }
}

/// The cursor is in view: scrolled as far as it is, the line it stands on is one
/// of those the box shows.
pub proof fn law_cursor_in_view(at: nat, height: nat)
    requires
        height > 0,
    ensures
        scroll_for(at, height) <= at < scroll_for(at, height) + height,
{
}

impl App {
    /// The lines of the editor for the selected port, in a pane with `avail`
    /// columns for its text.
    pub fn editor_lines(&self, info: &PortInfo, avail: usize) -> (r: Vec<Line>)
        ensures
            views(r@) == editor_text(self@, info@, avail as nat),
    {
        let ghost a = self@;
        let mut r = self.banner_lines(info);
        let ghost start = views(r@);
        let width = name_column(&self.editor_rows);
        let mut i: usize = 0;
        assert(start + rows_lines(a, info@, avail as nat, 0) =~= start);
        while i < self.editor_rows.len()
            invariant
                i <= self.editor_rows@.len(),
                a == self@,
                width == column_width(a.editor_rows),
                views(r@) == start + rows_lines(a, info@, avail as nat, i as nat),
            decreases self.editor_rows@.len() - i,
        {
            assert(a.editor_rows[i as int] == self.editor_rows@[i as int]@);
            let selected = self.focus == Focus::Editor && i == self.editor_idx;
            let l = editor_line(
                &self.session,
                info,
                &self.editor_rows[i],
                selected,
                width,
                avail,
            );
            let ghost was = views(r@);
            r.push(l);
            assert(views(r@) =~= was.push(l@));
            i = i + 1;
            assert(views(r@) =~= start + rows_lines(a, info@, avail as nat, i as nat));
        }
        r
    }

    /// The title of the editor.
    pub fn editor_title(&self, key: &PortKey, info: &PortInfo) -> (r: String)
        ensures
            r@ == editor_title_text(self@.session, key@, info@),
    {
        let k = key.to_string();
        let mut t = glue3(" ", k.as_str(), " — ");
        t.append(info.pkgname.as_str());
        let tail = match flavor_summary(&self.session, info) {
            Some(f) => glue3(" · flavors: ", f.as_str(), " "),
            None => owned(" "),
        };
        t.append(tail.as_str());
        t
    }

    /// How far the editor is scrolled in a box of a height, borders included.
    pub fn editor_scroll(&self, info: &PortInfo, height: u16) -> (r: usize)
        ensures
            r == capped(
                scroll_for(
                    cursor_line(self@, info@),
                    if height < 2 {
                        0
                    } else {
                        (height - 2) as nat
                    },
                ),
            ),
    {
        let inner: usize = if height < 2 {
            0
        } else {
            height as usize - 2
        };
        let last: usize = if inner > 0 {
            inner - 1
        } else {
            0
        };
        let rows = self.editor_rows.len();
        let upto: usize = if self.editor_idx < rows && self.editor_idx + 1 < rows {
            self.editor_idx + 1
        } else {
            rows
        };
        let banner = self.banner_lines(info).len();
        if upto == 0 && banner == 0 {
            return 0;
        }
        // The line is `upto + banner - 1`; the sum itself may not fit.
        let (big, small) = if upto > 0 {
            (banner, upto - 1)
        } else {
            (0usize, banner - 1)
        };
        if big >= last {
            let over = big - last;
            if over > usize::MAX - small {
                usize::MAX
            } else {
                over + small
            }
        } else {
            let short = last - big;
            if small > short {
                small - short
            } else {
                0
            }
        }
    }
}

// ---------------------------------------------------------------------
// Detail panel
// ---------------------------------------------------------------------

/// How many rows the option rows must keep for the panel to be worth it
/// (borders included) — below that the pane stays whole.
pub const DETAIL_MIN_ROWS: u16 = 5;

/// A rectangle of the screen.
#[derive(Clone, Copy, Debug, PartialEq, Eq, Structural)]
pub struct Area {
    pub x: u16,
    pub y: u16,
    pub width: u16,
    pub height: u16,
}

/// Content lines the detail panel may grow to: a third of the pane, never
/// less than three. Past that it clips, marked with an ellipsis.
pub open spec fn most_lines(height: nat) -> nat {
    if height / 3 < 3 {
        3
    } else {
        height / 3
    }
}

/// How high the panel is for so many lines, borders included.
pub open spec fn panel_height(lines: nat, height: nat) -> nat {
    2 + if lines < 1 {
        1
    } else if lines > most_lines(height) {
        most_lines(height)
    } else {
        lines
    }
}

/// The editor pane split into option rows and detail panel: the two boxes share
/// the border line between them, and the panel is dropped where the pane is too
/// short.
pub open spec fn split_area(lines: Option<nat>, area: Area) -> (Area, Option<Area>) {
    match lines {
        Some(n) => {
            let h = panel_height(n, area.height as nat);
            if area.height < h + DETAIL_MIN_ROWS {
                (area, None)
            } else {
                (
                    Area { height: (area.height - h + 1) as u16, ..area },
                    Some(
                        Area {
                            y: (area.y + area.height - h) as u16,
                            height: h as u16,
                            ..area
                        },
                    ),
                )
            }
        },
        None => (area, None),
    }
}

/// The two boxes cover the pane, sharing one line.
pub proof fn law_split_covers(lines: nat, area: Area)
    requires
        area.y + area.height <= u16::MAX,
    ensures
        ({
            let (rows, panel) = split_area(Some(lines), area);
            &&& rows.y == area.y
            &&& panel matches Some(p) ==> rows.y + rows.height - 1 == p.y && p.y + p.height
                == area.y + area.height && rows.height >= DETAIL_MIN_ROWS
            &&& panel is None ==> rows == area
        }),
{
}

/// The option under the cursor and its description, wrapped to a width; an
/// option that is described nowhere says so.
pub open spec fn detail_of(a: AppView, info: InfoView, width: nat) -> Option<(Str, Seq<LineView>)> {
    match option_at(a.editor_rows, a.editor_idx) {
        Some(opt) => {
            let desc = match lookup(info.options.defs, opt) {
                Some(d) => d.desc,
                None => Seq::empty(),
            };
            Some(
                (
                    opt,
                    if desc.len() == 0 {
                        seq![line_of("  (no description)"@, fg(Color::DarkGray))]
                    } else {
                        wrapped("  "@ + desc, width, 2).map_values(
                            |t: Str| line_of(t, fg(Color::Gray)),
                        )
                    },
                ),
            )
        },
        None => None,
    }
}

fn gray_lines(ls: &Vec<String>) -> (r: Vec<Line>)
    ensures
        views(r@) == views(ls@).map_values(|t: Str| line_of(t, fg(Color::Gray))),
{
    let ghost v = views(ls@);
    let ghost g = |t: Str| line_of(t, fg(Color::Gray));
    let mut r: Vec<Line> = Vec::new();
    let mut i: usize = 0;
    assert(views(r@) =~= v.take(0).map_values(g));
    while i < ls.len()
        invariant
            i <= ls@.len(),
            v == views(ls@),
            g == (|t: Str| line_of(t, fg(Color::Gray))),
            views(r@) == v.take(i as int).map_values(g),
        decreases ls@.len() - i,
    {
        let l = line(ls[i].as_str(), fg(Color::Gray));
        let ghost was = views(r@);
        r.push(l);
        proof {
            assert(v[i as int] == ls@[i as int]@);
            assert(l@ == g(v[i as int]));
            assert(views(r@) =~= was.push(l@));
            assert(views(r@) =~= v.take(i + 1).map_values(g));
        }
        i = i + 1;
    }
    assert(v.take(v.len() as int) =~= v);
    r
}

/// The view of a detail.
pub open spec fn detail_view(d: Option<(String, Vec<Line>)>) -> Option<(Str, Seq<LineView>)> {
    match d {
        Some((t, ls)) => Some((t@, views(ls@))),
        None => None,
    }
}

impl App {
    /// The option under the cursor and the description the ports framework
    /// gives it, wrapped to `width`. None when the cursor sits on a header or a
    /// non-selectable row.
    pub fn option_detail(&self, info: &PortInfo, width: u16) -> (r: Option<(String, Vec<Line>)>)
        ensures
            detail_view(r) == detail_of(self@, info@, width as nat),
    {
        let opt = match crate::tui::editor::current_option(&self.editor_rows, self.editor_idx) {
            Some(o) => o,
            None => {
                return None;
            },
        };
        let lines = match info.options.defs.find(opt.as_str()) {
            Some(d) => if d.desc.as_str().is_empty() {
                one_line("  (no description)", fg(Color::DarkGray))
            } else {
                let t = glue("  ", d.desc.as_str());
                let ls = wrap_text(t.as_str(), width as usize, 2);
                gray_lines(&ls)
            },
            None => one_line("  (no description)", fg(Color::DarkGray)),
        };
        Some((opt, lines))
    }

    /// Split the editor pane into (option rows, detail panel).
    pub fn split_detail(&self, info: &PortInfo, area: Area) -> (r: (Area, Option<Area>))
        requires
            area.y + area.height <= u16::MAX,
        ensures
            r == split_area(
                match detail_of(
                    self@,
                    info@,
                    if area.width < 2 {
                        0
                    } else {
                        (area.width - 2) as nat
                    },
                ) {
                    Some((_, ls)) => Some(ls.len()),
                    None => None,
                },
                area,
            ),
    {
        let inner: u16 = if area.width < 2 {
            0
        } else {
            area.width - 2
        };
        let n = match self.option_detail(info, inner) {
            Some((_, ls)) => ls.len(),
            None => {
                return (area, None);
            },
        };
        let third: u16 = area.height / 3;
        let most: u16 = if third < 3 {
            3
        } else {
            third
        };
        let shown: u16 = if n < 1 {
            1
        } else if n > most as usize {
            most
        } else {
            n as u16
        };
        let h: u16 = shown + 2;
        if area.height < h || area.height - h < DETAIL_MIN_ROWS {
            return (area, None);
        }
        let rows = Area { height: area.height - h + 1, ..area };
        let panel = Area { y: area.y + (area.height - h), height: h, ..area };
        (rows, Some(panel))
    }

    /// The detail panel in its area: its title and its lines, a cut of which is
    /// marked.
    pub fn detail_panel(&self, info: &PortInfo, area: Area) -> (r: Option<(String, Vec<Line>)>)
        ensures
            ({
                let width = if area.width < 2 {
                    0
                } else {
                    (area.width - 2) as nat
                };
                let cap = if area.height < 2 {
                    0
                } else {
                    (area.height - 2) as nat
                };
                detail_view(r) == match detail_of(self@, info@, width) {
                    Some((opt, ls)) => Some((" "@ + opt + " "@, marked(ls, cap, width))),
                    None => None,
                }
            }),
    {
        let width: u16 = if area.width < 2 {
            0
        } else {
            area.width - 2
        };
        let cap: u16 = if area.height < 2 {
            0
        } else {
            area.height - 2
        };
        match self.option_detail(info, width) {
            Some((opt, lines)) => {
                let mut lines = lines;
                mark_if_clipped(&mut lines, cap as usize, width as usize);
                Some((glue3(" ", opt.as_str(), " "), lines))
            },
            None => None,
        }
    }
}

fn one_line(text: &str, style: Style) -> (r: Vec<Line>)
    ensures
        views(r@) == seq![line_of(text@, style)],
{
    let mut r: Vec<Line> = Vec::new();
    r.push(line(text, style));
    assert(views(r@) =~= seq![line_of(text@, style)]);
    r
}

// ---------------------------------------------------------------------
// Status bar
// ---------------------------------------------------------------------

/// How many of some ports are shown with a status.
pub open spec fn count_shown(a: AppView, n: nat, s: UiStatus) -> nat
    decreases n,
{
    if n == 0 {
        0
    } else {
        let i = n - 1;
        count_shown(a, i as nat, s) + match lookup(a.session.ports, a.visible[i]) {
            Some(info) => if effective(a.session, a.blacklist, a.views, info) == s {
                1
            } else {
                0
            },
            None => 0nat,
        }
    }
}

/// How many visible ports are shown with a status, in words.
pub open spec fn count_text(a: AppView, s: UiStatus) -> Str {
    decimal(count_shown(a, a.visible.len(), s))
}

/// The counts of the status bar.
pub open spec fn counts_text(a: AppView) -> Str {
    " "@ + count_text(a, UiStatus::Conflict) + "✗ "@ + count_text(a, UiStatus::Edited) + "* "@
        + count_text(a, UiStatus::Unconfigured) + "? "@ + count_text(a, UiStatus::Stale) + "!"@ + (
    if a.views.warn_mc {
        " "@ + count_text(a, UiStatus::McDeviation) + "≠"@
    } else {
        Seq::empty()
    }) + " "@ + count_text(a, UiStatus::Okay) + "✓ (+"@ + decimal(a.hidden) + " optionless) "@
}

/// The word on a refresh.
pub open spec fn progress_text(p: Option<(usize, usize)>) -> Str {
    match p {
        Some((d, t)) => " ⟳ refreshing deps "@ + decimal(d as nat) + "/"@ + decimal(t as nat)
            + " "@,
        None => " ⟳ refreshing deps… "@,
    }
}

/// The line of the status bar: a message where there is one.
pub open spec fn status_text(a: AppView) -> LineView {
    match a.message {
        Some((msg, err)) => line_of(
            " "@ + msg + " "@,
            fg_bg(
                Color::Black,
                if err {
                    Color::LightRed
                } else {
                    Color::LightGreen
                },
            ),
        ),
        None => {
            let counts = seq![ink(counts_text(a), fg(Color::White))];
            let busy = if a.refreshing > 0 {
                counts.push(
                    ink(progress_text(a.refresh_progress), fg_bg(Color::Black, Color::Yellow)),
                )
            } else {
                counts
            };
            busy.push(
                ink(
                    " Space:toggle n/p:problems t:attention m:mc-ok w:mc-warn /:filter a:apply ?:help q:quit"@,
                    fg(Color::DarkGray),
                ),
            )
        },
    }
}

impl App {
    fn count_of(&self, s: UiStatus) -> (r: String)
        ensures
            r@ == count_text(self@, s),
    {
        let ghost a = self@;
        let mut n: usize = 0;
        let mut i: usize = 0;
        while i < self.visible.len()
            invariant
                i <= self.visible@.len(),
                n <= i,
                a == self@,
                n == count_shown(a, i as nat, s),
            decreases self.visible@.len() - i,
        {
            assert(a.visible[i as int] == self.visible@[i as int]@);
            match self.session.ports.get(&self.visible[i]) {
                Some(info) => {
                    if effective_status(&self.session, &self.blacklist, self.views, info) == s {
                        n = n + 1;
                    }
                },
                None => {},
            }
            i = i + 1;
        }
        number(n as u64)
    }

    fn counts(&self) -> (r: String)
        ensures
            r@ == counts_text(self@),
    {
        let c = self.count_of(UiStatus::Conflict);
        let e = self.count_of(UiStatus::Edited);
        let u = self.count_of(UiStatus::Unconfigured);
        let s = self.count_of(UiStatus::Stale);
        let k = self.count_of(UiStatus::Okay);
        let h = number(self.hidden as u64);
        let mut t = glue3(" ", c.as_str(), "✗ ");
        t.append(e.as_str());
        t.append("* ");
        t.append(u.as_str());
        t.append("? ");
        t.append(s.as_str());
        t.append("!");
        if self.views.warn_mc {
            let d = self.count_of(UiStatus::McDeviation);
            let x = glue3(" ", d.as_str(), "≠");
            t.append(x.as_str());
        } else {
            assert(t@ + Seq::<char>::empty() =~= t@);
        }
        t.append(" ");
        t.append(k.as_str());
        t.append("✓ (+");
        t.append(h.as_str());
        t.append(" optionless) ");
        t
    }

    /// The line of the status bar.
    pub fn status_line(&self) -> (r: Line)
        ensures
            r@ == status_text(self@),
    {
        match &self.message {
            Some((msg, err)) => {
                let t = glue3(" ", msg.as_str(), " ");
                let back = if *err {
                    Color::LightRed
                } else {
                    Color::LightGreen
                };
                line(t.as_str(), fg_bg(Color::Black, back))
            },
            None => {
                let c = self.counts();
                let mut l = line(c.as_str(), fg(Color::White));
                if self.refreshing > 0 {
                    let p = match self.refresh_progress {
                        Some((d, t)) => {
                            let a = number(d as u64);
                            let b = number(t as u64);
                            let mut x = glue3(" ⟳ refreshing deps ", a.as_str(), "/");
                            x.append(b.as_str());
                            x.append(" ");
                            x
                        },
                        None => owned(" ⟳ refreshing deps… "),
                    };
                    l.add_text(p.as_str(), fg_bg(Color::Black, Color::Yellow));
                }
                l.add_text(
                    " Space:toggle n/p:problems t:attention m:mc-ok w:mc-warn /:filter a:apply ?:help q:quit",
                    fg(Color::DarkGray),
                );
                l
            },
        }
    }
}

// ---------------------------------------------------------------------
// What the panes say
// ---------------------------------------------------------------------

/// A port's row begins with the marker of the status it is shown with, unless a
/// view silences it, and then comes its key; a warning ends it exactly where the
/// port is broken or ignored.
pub proof fn law_port_row(a: AppView, key: KeyView, info: InfoView)
    requires
        a.blacklist.patterns.len() == 0,
    ensures
        ({
            let row = port_row(a, key, info);
            let raw = status_of(a.session, info);
            let status = effective(a.session, a.blacklist, a.views, info);
            &&& row[1].text == key_text(key)
            &&& status == raw ==> row[0].text == marker_of(raw).0 + " "@
            &&& status == UiStatus::Okay && raw != UiStatus::Okay ==> row[0].text == "≈"@ + " "@
            &&& row.len() == 3 <==> info.broken is Some || info.ignore is Some
            &&& row.len() == 3 ==> row[2].text == " ⚠"@
            &&& row.len() == 2 || row.len() == 3
        }),
{
}

/// The box of an option: round exactly where a SINGLE or RADIO group holds it, and
/// filled exactly where it is on; an option is new where there is a file that does
/// not know it.
pub proof fn law_option_box(
    v: SessionView,
    info: InfoView,
    opt: Str,
    selected: bool,
    width: nat,
    avail: nat,
    st: StateView,
    n: int,
)
    requires
        v.states.dom().contains(info.options_name),
        v.states[info.options_name] == st,
    ensures
        ({
            let row = option_row(v, info, opt, selected, width, avail);
            let on = st.staged.contains(opt);
            let one_of = 0 <= n < info.options.groups.len() && (info.options.groups[n].kind
                == GroupKind::Single || info.options.groups[n].kind == GroupKind::Radio)
                && info.options.groups[n].members.contains(opt);
            let lone = forall|i: int|
                0 <= i < info.options.groups.len() ==> !(
                #[trigger] info.options.groups[i]).members.contains(opt);
            &&& one_of && on ==> row[1].text == " "@ + "(o)"@ + " "@ + padded(opt, width)
            &&& one_of && !on ==> row[1].text == " "@ + "( )"@ + " "@ + padded(opt, width)
            &&& lone && on ==> row[1].text == " "@ + "[x]"@ + " "@ + padded(opt, width)
            &&& lone && !on ==> row[1].text == " "@ + "[ ]"@ + " "@ + padded(opt, width)
            &&& st.saved matches Some(s) ==> (row[0].text == if s.complete.contains(opt)
                || s.set.contains(opt) || s.unset.contains(opt) {
                " "@
            } else {
                "N"@
            })
            &&& st.saved is None ==> row[0].text == " "@
        }),
{
    let row = option_row(v, info, opt, selected, width, avail);
    let fixed = fixed_columns(v, info, opt, selected, width);
    assert(row[0] == fixed[0] && row[1] == fixed[1]);
    if 0 <= n < info.options.groups.len() && info.options.groups[n].members.contains(opt) && (
    info.options.groups[n].kind == GroupKind::Single || info.options.groups[n].kind
        == GroupKind::Radio) {
        assert(info.options.groups[n].kind.exclusive());
        assert(in_choice_group(info.options, opt));
    }
}

/// The default column says whether the port has the option on by default, and the
/// make.conf column what decides before the file and the default: a FORCE knob,
/// then, unless the file speaks, the per-port knob, then the global one.
pub proof fn law_option_columns(
    v: SessionView,
    info: InfoView,
    opt: Str,
    selected: bool,
    width: nat,
    avail: nat,
)
    ensures
        ({
            let row = option_row(v, info, opt, selected, width, avail);
            let o = info.options;
            let word = |on: bool|
                " "@ + padded(
                    if on {
                        "on"@
                    } else {
                        "off"@
                    },
                    3,
                );
            let forced = o.force_set.contains(opt) || o.force_unset.contains(opt)
                || o.port_force_set.contains(opt) || o.port_force_unset.contains(opt);
            let in_file = crate::tui::overlay::saved_value(v, info, opt) is Some;
            &&& row[2].text == word(o.defaults.contains(opt))
            &&& o.port_force_unset.contains(opt) ==> row[3].text == word(false)
            &&& o.port_force_set.contains(opt) && !o.port_force_unset.contains(opt) ==> row[3].text
                == word(true)
            &&& !forced && !in_file && (o.port_set.contains(opt) || o.port_unset.contains(opt))
                ==> row[3].text == word(o.port_set.contains(opt))
            &&& !forced && !in_file && !o.port_set.contains(opt) && !o.port_unset.contains(opt) && (
            o.mc_set.contains(opt) || o.mc_unset.contains(opt)) ==> row[3].text == word(
                o.mc_set.contains(opt),
            )
            &&& !forced && in_file ==> row[3].text == " "@ + padded(Seq::empty(), 3)
        }),
{
    let row = option_row(v, info, opt, selected, width, avail);
    let fixed = fixed_columns(v, info, opt, selected, width);
    assert(row[2] == fixed[2] && row[3] == fixed[3]);
}

/// The name column holds between twelve and twenty-eight characters, and no name
/// that is shorter than that sticks out of it.
pub proof fn law_column_width(rows: Seq<EditorRowView>, opt: Str)
    requires
        rows.contains(EditorRowView::Option(opt)),
    ensures
        12 <= column_width(rows) <= 28,
        encode_utf8(opt).len() <= 28 ==> encode_utf8(opt).len() <= column_width(rows),
{
    let i = choose|i: int| 0 <= i < rows.len() && rows[i] == EditorRowView::Option(opt);
    lemma_longest(rows, i, opt);
}

proof fn lemma_longest(rows: Seq<EditorRowView>, i: int, opt: Str)
    requires
        0 <= i < rows.len(),
        rows[i] == EditorRowView::Option(opt),
    ensures
        longest_name(rows) matches Some(n) && encode_utf8(opt).len() <= n,
    decreases rows.len(),
{
    if i < rows.len() - 1 {
        lemma_longest(rows.drop_last(), i, opt);
    }
}

/// The status bar counts the listed ports by the status they are shown with.
pub proof fn law_counts(a: AppView, n: nat, s: UiStatus)
    requires
        n <= a.visible.len(),
        forall|i: int|
            0 <= i < a.visible.len() ==> a.session.ports.dom().contains(#[trigger] a.visible[i]),
    ensures
        count_shown(a, n, s) == a.visible.take(n as int).filter(
            |k: KeyView| effective(a.session, a.blacklist, a.views, a.session.ports[k]) == s,
        ).len(),
    decreases n,
{
    let p = |k: KeyView| effective(a.session, a.blacklist, a.views, a.session.ports[k]) == s;
    if n == 0 {
        crate::list::lemma_filter_none(a.visible, p);
    } else {
        law_counts(a, (n - 1) as nat, s);
        crate::list::lemma_filter_one(a.visible, n - 1, p);
    }
}

/// A message hides the counts, and an error stands out.
pub proof fn law_status_bar(a: AppView, msg: Str, error: bool)
    ensures
        a.message == Some((msg, error)) ==> status_text(a).len() == 1 && status_text(a)[0].text
            == " "@ + msg + " "@,
        a.message is None ==> status_text(a)[0].text == counts_text(a),
        a.message is None ==> status_text(a).len() == if a.refreshing > 0 {
            3
        } else {
            2int
        },
{
}

pub proof fn lemma_lines_sum(a: Seq<LineView>, b: Seq<LineView>, l: LineView)
    ensures
        (a + b).contains(l) <==> a.contains(l) || b.contains(l),
{
    if a.contains(l) {
        let i = choose|i: int| 0 <= i < a.len() && a[i] == l;
        assert((a + b)[i] == l);
    }
    if b.contains(l) {
        let i = choose|i: int| 0 <= i < b.len() && b[i] == l;
        assert((a + b)[a.len() + i] == l);
    }
    if (a + b).contains(l) {
        let i = choose|i: int| 0 <= i < (a + b).len() && (a + b)[i] == l;
        if i < a.len() {
            assert(a[i] == l);
        } else {
            assert(b[i - a.len()] == l);
        }
    }
}

/// The lines above a port's options tell what it is broken, ignored or deprecated
/// for, whose view owns its options file where that is another port's, and every
/// conflict; a port of which none of this holds has none.
pub proof fn law_banner_lines(a: AppView, info: InfoView, t: Str, i: int)
    ensures
        ({
            let ls = banner_of(a, info);
            let owner = a.session.owner(info).canonical;
            let bad = fg(Color::Red).bold();
            &&& info.broken == Some(t) ==> ls.contains(line_of("BROKEN: "@ + t, bad))
            &&& info.ignore == Some(t) ==> ls.contains(line_of("IGNORE: "@ + t, bad))
            &&& info.deprecated == Some(t) ==> ls.contains(
                line_of("DEPRECATED: "@ + t, fg(Color::Magenta)),
            )
            &&& owner != info.canonical ==> ls.contains(
                line_of(
                    "options file owned by "@ + key_text(owner) + " (default flavor view)"@,
                    fg(Color::DarkGray),
                ),
            )
            &&& 0 <= i < violations_of(a.session, info).len() ==> ls.contains(
                line_of("CONFLICT: "@ + violations_of(a.session, info)[i], bad),
            )
            &&& info.broken is None && info.ignore is None && info.deprecated is None && owner
                == info.canonical && violations_of(a.session, info).len() == 0 ==> ls.len() == 0
        }),
{
    let bad = fg(Color::Red).bold();
    let owner = a.session.owner(info).canonical;
    let p1 = said("BROKEN: "@, info.broken, bad);
    let p2 = said("IGNORE: "@, info.ignore, bad);
    let p3 = said("likely cause: "@, blamed_for(a, info), fg(Color::DarkGray).dim());
    let p4 = said("DEPRECATED: "@, info.deprecated, fg(Color::Magenta));
    let p5 = owner_lines(foreign(a.session, info));
    let p6 = violations_of(a.session, info).map_values(
        |v: Str| line_of("CONFLICT: "@ + v, fg(Color::Red).bold()),
    );
    let ls = banner_of(a, info);
    assert(ls == p1 + p2 + p3 + p4 + p5 + p6);
    assert forall|l: LineView|
        p1.contains(l) || p2.contains(l) || p3.contains(l) || p4.contains(l) || p5.contains(l)
            || p6.contains(l) implies #[trigger] ls.contains(l) by {
        lemma_lines_sum(p1, p2, l);
        lemma_lines_sum(p1 + p2, p3, l);
        lemma_lines_sum(p1 + p2 + p3, p4, l);
        lemma_lines_sum(p1 + p2 + p3 + p4, p5, l);
        lemma_lines_sum(p1 + p2 + p3 + p4 + p5, p6, l);
    }
    if info.broken == Some(t) {
        assert(p1[0] == line_of("BROKEN: "@ + t, bad));
        assert(p1.contains(line_of("BROKEN: "@ + t, bad)));
    }
    if info.ignore == Some(t) {
        assert(p2[0] == line_of("IGNORE: "@ + t, bad));
        assert(p2.contains(line_of("IGNORE: "@ + t, bad)));
    }
    if info.deprecated == Some(t) {
        assert(p4[0] == line_of("DEPRECATED: "@ + t, fg(Color::Magenta)));
        assert(p4.contains(line_of("DEPRECATED: "@ + t, fg(Color::Magenta))));
    }
    if owner != info.canonical {
        assert(p5.contains(p5[0]));
    }
    if 0 <= i < violations_of(a.session, info).len() {
        assert(p6[i] == line_of("CONFLICT: "@ + violations_of(a.session, info)[i], bad));
        assert(p6.contains(p6[i]));
    }
}

/// The flavors of a port in order, with `*` behind the one whose view owns the
/// options file and `‹` behind the current one.
pub proof fn law_flavors(v: SessionView, info: InfoView, f: Str, g: Str)
    ensures
        info.flavors.len() == 0 ==> flavors_text(v, info) is None,
        info.flavors == seq![f, g] && f != g && v.owner(info).canonical.flavor == Some(f)
            && info.canonical.flavor == Some(g) ==> flavors_text(v, info) == Some(
            f + "*"@ + " "@ + (g + "‹"@),
        ),
        info.flavors == seq![f] && v.owner(info).canonical.flavor == Some(f)
            && info.canonical.flavor == Some(f) ==> flavors_text(v, info) == Some(
            f + "*"@ + "‹"@,
        ),
{
    let none = Seq::<char>::empty();
    let own = v.owner(info).canonical.flavor;
    let cur = info.canonical.flavor;
    let m = |x: Str| marked_flavor(x, own, cur);
    if info.flavors == seq![f, g] && f != g && own == Some(f) && cur == Some(g) {
        assert(info.flavors.map_values(m) =~= seq![m(f), m(g)]);
        assert(m(f) =~= f + "*"@);
        assert(m(g) =~= g + "‹"@);
        assert(seq![m(f), m(g)].drop_last() =~= seq![m(f)]);
        reveal_with_fuel(join, 3);
    }
    if info.flavors == seq![f] && own == Some(f) && cur == Some(f) {
        assert(info.flavors.map_values(m) =~= seq![m(f)]);
        reveal_with_fuel(join, 2);
    }
}

} // verus!
