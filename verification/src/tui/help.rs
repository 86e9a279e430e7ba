//! The help overlay.
use vstd::prelude::*;

use crate::report::{blanks, pad, padded, spaces};
use crate::text::{decimal, glue, number, owned, to_chars, views, Str};
use crate::tui::style::{empty_line, fg, fg_bg, ink, line, line_of, plain, Color, Line, LineView};
use crate::tui::style::Style;

verus! {

/// How many tabs the help has.
pub const HELP_TAB_COUNT: usize = 4;

/// The title of a help tab.
pub open spec fn tab_title(tab: nat) -> Str {
    if tab == 0 {
        "Markers"@
    } else if tab == 1 {
        "Option row"@
    } else if tab == 2 {
        "Navigate/Edit"@
    } else {
        "Views/Actions"@
    }
}

/// The title of a help tab.
pub fn help_tab(tab: usize) -> (r: &'static str)
    ensures
        r@ == tab_title(tab as nat),
{
    if tab == 0 {
        "Markers"
    } else if tab == 1 {
        "Option row"
    } else if tab == 2 {
        "Navigate/Edit"
    } else {
        "Views/Actions"
    }
}

// ---------------------------------------------------------------------
// Rows
// ---------------------------------------------------------------------

/// A text with blanks before it up to a number of characters.
pub open spec fn right_aligned(s: Str, n: nat) -> Str {
    if s.len() < n {
        blanks((n - s.len()) as nat) + s
    } else {
        s
    }
}

fn align_right(s: &str, n: usize) -> (r: String)
    ensures
        r@ == right_aligned(s@, n as nat),
{
    let len = to_chars(s).len();
    if len < n {
        let b = spaces(n - len);
        glue(b.as_str(), s)
    } else {
        owned(s)
    }
}

/// A key and what it does.
pub open spec fn key_row(k: Str, text: Str) -> LineView {
    seq![ink("  "@, plain()), ink(padded(k, 12), fg(Color::LightBlue)), ink(text, plain())]
}

/// A marker and what it means.
pub open spec fn mark_row(m: Str, c: Color, text: Str) -> LineView {
    seq![ink("  "@ + padded(m, 3), fg(c)), ink(text, plain())]
}

/// A label in the style it explains, aligned on the '='.
pub open spec fn legend_row(label: Str, style: Style, text: Str) -> LineView {
    seq![
        ink("  "@, plain()),
        ink(right_aligned(label, 14), style),
        ink(" = "@, fg(Color::DarkGray)),
        ink(text, plain()),
    ]
}

/// The title of a group of rows.
pub open spec fn head_row(text: Str) -> LineView {
    line_of(" "@ + text, fg(Color::Magenta).bold())
}

/// The titles of the tabs with their number keys.
pub open spec fn tab_bar(tab: nat, n: nat) -> LineView
    decreases n,
{
    if n == 0 {
        seq![ink(" "@, plain())]
    } else {
        let i = (n - 1) as nat;
        let label = " "@ + decimal(n) + ":"@ + tab_title(i) + " "@;
        let style = if i == tab {
            fg_bg(Color::Black, Color::LightBlue)
        } else {
            fg(Color::DarkGray)
        };
        tab_bar(tab, i).push(ink(label, style)).push(ink(" "@, plain()))
    }
}

fn key(k: &str, text: &str) -> (r: Line)
    ensures
        r@ == key_row(k@, text@),
{
    let mut r = line("  ", plain());
    let p = pad(k, 12);
    r.add_text(p.as_str(), fg(Color::LightBlue));
    r.add_text(text, plain());
    r
}

fn mark(m: &str, c: Color, text: &str) -> (r: Line)
    ensures
        r@ == mark_row(m@, c, text@),
{
    let p = pad(m, 3);
    let l = glue("  ", p.as_str());
    let mut r = line(l.as_str(), fg(c));
    r.add_text(text, plain());
    r
}

fn legend(label: &str, style: Style, text: &str) -> (r: Line)
    ensures
        r@ == legend_row(label@, style, text@),
{
    let mut r = line("  ", plain());
    let p = align_right(label, 14);
    r.add_text(p.as_str(), style);
    r.add_text(" = ", fg(Color::DarkGray));
    r.add_text(text, plain());
    r
}

fn head(text: &str) -> (r: Line)
    ensures
        r@ == head_row(text@),
{
    let t = glue(" ", text);
    line(t.as_str(), fg(Color::Magenta).bold())
}

fn tabs(tab: usize) -> (r: Line)
    ensures
        r@ == tab_bar(tab as nat, HELP_TAB_COUNT as nat),
{
    let mut r = line(" ", plain());
    let mut i: usize = 0;
    while i < HELP_TAB_COUNT
        invariant
            i <= HELP_TAB_COUNT,
            r@ == tab_bar(tab as nat, i as nat),
        decreases HELP_TAB_COUNT - i,
    {
        let n = number((i + 1) as u64);
        let mut label = glue(" ", n.as_str());
        label.append(":");
        label.append(help_tab(i));
        label.append(" ");
        if i == tab {
            r.add_text(label.as_str(), fg_bg(Color::Black, Color::LightBlue));
        } else {
            r.add_text(label.as_str(), fg(Color::DarkGray));
        }
        r.add_text(" ", plain());
        i = i + 1;
    }
    r
}

// ---------------------------------------------------------------------
// Tabs
// ---------------------------------------------------------------------

/// What the markers mean.
pub open spec fn marker_rows() -> Seq<LineView> {
    seq![
        head_row("Status column"@),
        mark_row("✗"@, Color::Red, "conflict     staged options violate PREVENTS or group rules"@),
        mark_row("*"@, Color::Cyan, "edited       staged changes not yet applied"@),
        mark_row("?"@, Color::Yellow, "unconfigured no saved options file"@),
        mark_row(
            "!"@,
            Color::LightRed,
            "stale        option list changed since the file was written"@,
        ),
        mark_row("≠"@, Color::Magenta, "mc-conflict  contradicts make.conf policy (w view)"@),
        mark_row("≈"@, Color::DarkGray, "mc-covered   decided by make.conf, no attention (m view)"@),
        mark_row("✓"@, Color::DarkGray, "ok"@),
        LineView::empty(),
        head_row("After the port name"@),
        mark_row("⚠"@, Color::Red, "port is BROKEN/IGNORE with the current options"@),
        mark_row(
            "⊘"@,
            Color::DarkGray,
            "blacklisted for this jail/tree/set (never needs attention)"@,
        ),
        LineView::empty(),
        head_row("Port name color"@),
        legend_row("red bold name"@, fg(Color::Red).bold(), "will not build (BROKEN/IGNORE)"@),
        legend_row("red name"@, fg(Color::Red), "conflicting staged options"@),
        legend_row("dim name"@, fg(Color::DarkGray), "blacklisted"@),
    ]
}

fn markers() -> (r: Vec<Line>)
    ensures
        views(r@) == marker_rows(),
{
    broadcast use {crate::text::views_push, crate::text::views_empty};

    let mut r: Vec<Line> = Vec::new();
    r.push(head("Status column"));
    r.push(mark("✗", Color::Red, "conflict     staged options violate PREVENTS or group rules"));
    r.push(mark("*", Color::Cyan, "edited       staged changes not yet applied"));
    r.push(mark("?", Color::Yellow, "unconfigured no saved options file"));
    r.push(
        mark("!", Color::LightRed, "stale        option list changed since the file was written"),
    );
    r.push(mark("≠", Color::Magenta, "mc-conflict  contradicts make.conf policy (w view)"));
    r.push(mark("≈", Color::DarkGray, "mc-covered   decided by make.conf, no attention (m view)"));
    r.push(mark("✓", Color::DarkGray, "ok"));
    r.push(empty_line());
    r.push(head("After the port name"));
    r.push(mark("⚠", Color::Red, "port is BROKEN/IGNORE with the current options"));
    r.push(
        mark("⊘", Color::DarkGray, "blacklisted for this jail/tree/set (never needs attention)"),
    );
    r.push(empty_line());
    r.push(head("Port name color"));
    r.push(legend("red bold name", fg(Color::Red).bold(), "will not build (BROKEN/IGNORE)"));
    r.push(legend("red name", fg(Color::Red), "conflicting staged options"));
    r.push(legend("dim name", fg(Color::DarkGray), "blacklisted"));
    r
}

/// A row of the editor, styled as the editor shows it.
pub open spec fn sample_row() -> LineView {
    seq![
        ink("  "@, plain()),
        ink("N"@, fg(Color::Yellow).bold()),
        ink(" [x] "@, plain()),
        ink("OPENSSL     "@, fg(Color::Yellow)),
        ink(" off"@, fg(Color::DarkGray)),
        ink(" on "@, fg(Color::Green)),
        ink("  Use OpenSSL"@, fg(Color::DarkGray)),
    ]
}

fn sample() -> (r: Line)
    ensures
        r@ == sample_row(),
{
    let mut r = line("  ", plain());
    r.add_text("N", fg(Color::Yellow).bold());
    r.add_text(" [x] ", plain());
    r.add_text("OPENSSL     ", fg(Color::Yellow));
    r.add_text(" off", fg(Color::DarkGray));
    r.add_text(" on ", fg(Color::Green));
    r.add_text("  Use OpenSSL", fg(Color::DarkGray));
    r
}

/// What the parts of an option row mean.
pub open spec fn option_rows() -> Seq<LineView> {
    seq![
        head_row("A row, piece by piece"@),
        sample_row(),
        LineView::empty(),
        legend_row("[x] / [ ]"@, plain(), "checkbox of a plain option (on / off)"@),
        legend_row("(o) / ( )"@, plain(), "single/radio group member (pick one)"@),
        legend_row("yellow name"@, fg(Color::Yellow), "differs from the port default"@),
        legend_row("magenta name"@, fg(Color::Magenta), "contradicts make.conf policy"@),
        legend_row(
            "N"@,
            fg(Color::Yellow).bold(),
            "first column: option added since the file was written"@,
        ),
        legend_row("on | off"@, fg(Color::DarkGray), "1st column: the port's default value"@),
        legend_row("on | off"@, fg(Color::Green), "2nd column: the value make.conf decides"@),
        legend_row("on | off"@, fg(Color::LightGreen), "same, from the per-port knob (brighter)"@),
        legend_row(
            "on | off"@,
            fg(Color::Red).bold(),
            "*_FORCE knob — locked, the file cannot override"@,
        ),
        legend_row(
            "implied by X"@,
            fg(Color::Cyan),
            "auto-enabled through IMPLIES — locked while X is on"@,
        ),
        legend_row(
            "⚠broken"@,
            fg(Color::Red),
            "enabling marks the port BROKEN (⚠ignored → IGNORE)"@,
        ),
        LineView::empty(),
        head_row("Trailing sections"@),
        legend_row(
            "struck-through"@,
            fg(Color::DarkGray).crossed_out(),
            "obsolete option — dropped on apply"@,
        ),
        legend_row(
            "not in flavor"@,
            fg(Color::DarkGray),
            "managed via the default flavor's view of the shared file"@,
        ),
        LineView::empty(),
        head_row("Below the rows"@),
        legend_row(
            "option panel"@,
            fg(Color::Gray),
            "the description of the option under the cursor, in"@,
        ),
        line_of("                   full — what the rows have no room for"@, plain()),
    ]
}

fn options() -> (r: Vec<Line>)
    ensures
        views(r@) == option_rows(),
{
    broadcast use {crate::text::views_push, crate::text::views_empty};

    let mut r: Vec<Line> = Vec::new();
    r.push(head("A row, piece by piece"));
    r.push(sample());
    r.push(empty_line());
    r.push(legend("[x] / [ ]", plain(), "checkbox of a plain option (on / off)"));
    r.push(legend("(o) / ( )", plain(), "single/radio group member (pick one)"));
    r.push(legend("yellow name", fg(Color::Yellow), "differs from the port default"));
    r.push(legend("magenta name", fg(Color::Magenta), "contradicts make.conf policy"));
    r.push(
        legend(
            "N",
            fg(Color::Yellow).bold(),
            "first column: option added since the file was written",
        ),
    );
    r.push(legend("on | off", fg(Color::DarkGray), "1st column: the port's default value"));
    r.push(legend("on | off", fg(Color::Green), "2nd column: the value make.conf decides"));
    r.push(legend("on | off", fg(Color::LightGreen), "same, from the per-port knob (brighter)"));
    r.push(
        legend(
            "on | off",
            fg(Color::Red).bold(),
            "*_FORCE knob — locked, the file cannot override",
        ),
    );
    r.push(
        legend(
            "implied by X",
            fg(Color::Cyan),
            "auto-enabled through IMPLIES — locked while X is on",
        ),
    );
    r.push(
        legend(
            "⚠broken",
            fg(Color::Red),
            "enabling marks the port BROKEN (⚠ignored → IGNORE)",
        ),
    );
    r.push(empty_line());
    r.push(head("Trailing sections"));
    r.push(
        legend(
            "struck-through",
            fg(Color::DarkGray).crossed_out(),
            "obsolete option — dropped on apply",
        ),
    );
    r.push(
        legend(
            "not in flavor",
            fg(Color::DarkGray),
            "managed via the default flavor's view of the shared file",
        ),
    );
    r.push(empty_line());
    r.push(head("Below the rows"));
    r.push(
        legend(
            "option panel",
            fg(Color::Gray),
            "the description of the option under the cursor, in",
        ),
    );
    r.push(line("                   full — what the rows have no room for", plain()));
    r
}

/// The keys that move and edit.
pub open spec fn edit_rows() -> Seq<LineView> {
    seq![
        key_row("j/k ↑/↓"@, "move · g/G first/last · PgUp/PgDn page"@),
        key_row("Enter/l"@, "edit selected port · Esc/Tab/← back to the list"@),
        key_row("Space"@, "toggle option (group rules enforced)"@),
        key_row("d / u"@, "reset port to defaults / revert to saved state"@),
        key_row("U"@, "undo the last option change"@),
        key_row("B"@, "bulk: set an option on/off across all visible ports"@),
        key_row("n / p"@, "next / previous port needing attention"@),
        key_row("f"@, "jump to the next flavor of the same origin"@),
        key_row("i"@, "option details (description, constraints, deps it adds)"@),
        key_row("h"@, "port notes (pkg-help) — marked [h] in the pane title"@),
        key_row("r"@, "why is this port here? — navigable chain, Enter jumps"@),
    ]
}

fn edits() -> (r: Vec<Line>)
    ensures
        views(r@) == edit_rows(),
{
    broadcast use {crate::text::views_push, crate::text::views_empty};

    let mut r: Vec<Line> = Vec::new();
    r.push(key("j/k ↑/↓", "move · g/G first/last · PgUp/PgDn page"));
    r.push(key("Enter/l", "edit selected port · Esc/Tab/← back to the list"));
    r.push(key("Space", "toggle option (group rules enforced)"));
    r.push(key("d / u", "reset port to defaults / revert to saved state"));
    r.push(key("U", "undo the last option change"));
    r.push(key("B", "bulk: set an option on/off across all visible ports"));
    r.push(key("n / p", "next / previous port needing attention"));
    r.push(key("f", "jump to the next flavor of the same origin"));
    r.push(key("i", "option details (description, constraints, deps it adds)"));
    r.push(key("h", "port notes (pkg-help) — marked [h] in the pane title"));
    r.push(key("r", "why is this port here? — navigable chain, Enter jumps"));
    r
}

/// The keys of views and actions.
pub open spec fn action_rows() -> Seq<LineView> {
    seq![
        key_row("t"@, "show only ports needing attention"@),
        key_row("s"@, "toggle problems-first / stable alphabetical sort"@),
        key_row("m"@, "make.conf-decided ports count as ok (≈)"@),
        key_row("w"@, "flag make.conf contradictions (≠)"@),
        key_row("/"@, "filter the port list"@),
        key_row("a"@, "apply: preview every file diff, then write atomically"@),
        key_row("? F1"@, "this help"@),
        key_row("Ctrl-L"@, "force a full screen repaint"@),
        key_row("q Ctrl-C"@, "quit — offers saving staged edits as a draft"@),
    ]
}

fn actions() -> (r: Vec<Line>)
    ensures
        views(r@) == action_rows(),
{
    broadcast use {crate::text::views_push, crate::text::views_empty};

    let mut r: Vec<Line> = Vec::new();
    r.push(key("t", "show only ports needing attention"));
    r.push(key("s", "toggle problems-first / stable alphabetical sort"));
    r.push(key("m", "make.conf-decided ports count as ok (≈)"));
    r.push(key("w", "flag make.conf contradictions (≠)"));
    r.push(key("/", "filter the port list"));
    r.push(key("a", "apply: preview every file diff, then write atomically"));
    r.push(key("? F1", "this help"));
    r.push(key("Ctrl-L", "force a full screen repaint"));
    r.push(key("q Ctrl-C", "quit — offers saving staged edits as a draft"));
    r
}

/// The rows of a help tab.
pub open spec fn tab_rows(tab: nat) -> Seq<LineView> {
    if tab == 0 {
        marker_rows()
    } else if tab == 1 {
        option_rows()
    } else if tab == 2 {
        edit_rows()
    } else {
        action_rows()
    }
}

/// The help overlay's text.
pub open spec fn help_text(tab: nat) -> Seq<LineView> {
    seq![tab_bar(tab, HELP_TAB_COUNT as nat), LineView::empty()] + tab_rows(tab)
}

/// The help overlay's text.
pub fn help_overlay(tab: usize) -> (r: Vec<Line>)
    ensures
        views(r@) == help_text(tab as nat),
{
    broadcast use {crate::text::views_push, crate::text::views_empty};

    let mut r: Vec<Line> = Vec::new();
    r.push(tabs(tab));
    r.push(empty_line());
    let ghost top = views(r@);
    let mut rows = if tab == 0 {
        markers()
    } else if tab == 1 {
        options()
    } else if tab == 2 {
        edits()
    } else {
        actions()
    };
    let ghost more = views(rows@);
    r.append(&mut rows);
    assert(views(r@) =~= top + more);
    r
}

// ---------------------------------------------------------------------
// Scrolling
// ---------------------------------------------------------------------

/// How far some lines can be scrolled in a box of a height, borders included.
pub open spec fn overflow(lines: nat, height: nat) -> nat {
    let inner = if height < 2 {
        0
    } else {
        (height - 2) as nat
    };
    if lines < inner {
        0
    } else {
        (lines - inner) as nat
    }
}

/// How far some lines can be scrolled in a box of a height, borders included.
pub fn max_scroll(lines: usize, height: u16) -> (r: usize)
    ensures
        r == overflow(lines as nat, height as nat),
{
    let inner: usize = if height < 2 {
        0
    } else {
        height as usize - 2
    };
    if lines < inner {
        0
    } else {
        lines - inner
    }
}

/// A scroll position, held to what overflows.
pub open spec fn held_scroll(scroll: nat, max: nat) -> nat {
    if scroll < max {
        scroll
    } else {
        max
    }
}

/// A scroll position, held to what overflows.
pub fn clamp_scroll(scroll: u16, max: usize) -> (r: u16)
    ensures
        r == held_scroll(scroll as nat, max as nat),
{
    if (scroll as usize) < max {
        scroll
    } else {
        max as u16
    }
}

/// The title of the help overlay.
pub fn help_title(max: usize) -> (r: &'static str)
    ensures
        r@ == if max > 0 {
            " help — 1-4/Tab/←→ switch · ↑/↓ scroll · other key closes "@
        } else {
            " help — 1-4/Tab/←→ switch · any other key closes "@
        },
{
    if max > 0 {
        " help — 1-4/Tab/←→ switch · ↑/↓ scroll · other key closes "
    } else {
        " help — 1-4/Tab/←→ switch · any other key closes "
    }
}

/// The hint below port notes.
pub fn notes_hint(max: usize) -> (r: &'static str)
    ensures
        r@ == if max > 0 {
            " j/k ↑/↓ PgUp/PgDn scroll · any other key closes "@
        } else {
            " any key closes "@
        },
{
    if max > 0 {
        " j/k ↑/↓ PgUp/PgDn scroll · any other key closes "
    } else {
        " any key closes "
    }
}

/// Scrolled as far as it goes a box shows the last line, and it cannot be scrolled
/// where everything fits.
pub proof fn law_scroll(lines: nat, height: nat, at: nat)
    requires
        height >= 2,
    ensures
        lines + 2 <= height ==> overflow(lines, height) == 0,
        lines + 2 >= height ==> overflow(lines, height) + (height - 2) == lines,
        held_scroll(at, overflow(lines, height)) <= overflow(lines, height),
        at <= overflow(lines, height) ==> held_scroll(at, overflow(lines, height)) == at,
{
}

} // verus!
