//! What each key does.
use vstd::prelude::*;

use crate::model::origin::{KeyView, PortKey};
use crate::session::edit::is_dirty;
use crate::sorted::ordered;
use crate::text::{from_chars, to_chars, views, Str};
use crate::tui::actions::{bulk_decided, reset_at, reverted_at, toggled_at, undone};
use crate::tui::app::{at_index, at_problem, flashed, in_editor, moved_by, selected_info};
use crate::tui::app::{selected_of, with_editor, with_list, App, AppView, Focus, ModalView};
use crate::tui::app::NotesView;
use crate::tui::editor::moved_cursor;
use crate::tui::keys::{KeyCode, KeyEvent};
use crate::tui::list::{place_of, position, Views};
use crate::tui::overlay::{jumped, why_moved, why_selected, with_option, with_why};

verus! {

/// What is to be done after a key.
#[derive(Clone, Copy, Debug, PartialEq, Eq, Structural)]
pub enum KeyOutcome {
    Continue,
    /// Clear the terminal and draw everything anew.
    Repaint,
    Quit,
    /// Save the staged edits as a draft and quit.
    SaveDraft,
    /// Read the options files and open the apply overlay.
    PlanApply,
    /// Carry out what the apply overlay shows.
    WriteFiles,
    /// Read the notes of the selected port.
    ReadNotes,
}

/// How far a page key goes.
pub const PAGE: usize = 15;

/// A text without its last character.
pub open spec fn shorter(s: Str) -> Str {
    if s.len() > 0 {
        s.drop_last()
    } else {
        s
    }
}

fn drop_char(s: &str) -> (r: String)
    ensures
        r@ == shorter(s@),
{
    let cs = to_chars(s);
    let n = if cs.len() > 0 {
        cs.len() - 1
    } else {
        0
    };
    let r = from_chars(&cs, 0, n);
    assert(r@ =~= shorter(s@));
    r
}

/// A scroll position moved up or down.
pub open spec fn scrolled_by(at: nat, n: nat, down: bool) -> nat {
    if down {
        if at + n > u16::MAX {
            u16::MAX as nat
        } else {
            at + n
        }
    } else if at > n {
        (at - n) as nat
    } else {
        0
    }
}

fn scroll_by(at: u16, n: u16, down: bool) -> (r: u16)
    ensures
        r == scrolled_by(at as nat, n as nat, down),
{
    if down {
        if at > u16::MAX - n {
            u16::MAX
        } else {
            at + n
        }
    } else if at > n {
        at - n
    } else {
        0
    }
}

// ---------------------------------------------------------------------
// Overlays
// ---------------------------------------------------------------------

/// A key at the quit prompt.
pub open spec fn at_quit(a: AppView, code: KeyCode) -> (AppView, KeyOutcome) {
    match code {
        KeyCode::Char(c) => if c == 's' || c == 'S' {
            (a, KeyOutcome::SaveDraft)
        } else if c == 'd' || c == 'D' || c == 'y' || c == 'Y' {
            (a, KeyOutcome::Quit)
        } else {
            (AppView { quit_confirm: false, ..a }, KeyOutcome::Continue)
        },
        _ => (AppView { quit_confirm: false, ..a }, KeyOutcome::Continue),
    }
}

/// A key at the apply overlay.
pub open spec fn at_modal(a: AppView, m: ModalView, code: KeyCode) -> (AppView, KeyOutcome) {
    let closed = AppView { modal: None, ..a };
    if m.done is Some {
        (closed, KeyOutcome::Continue)
    } else if code == KeyCode::Char('y') || code == KeyCode::Char('Y') {
        (a, KeyOutcome::WriteFiles)
    } else if code == KeyCode::Char('j') || code == KeyCode::Down {
        (
            AppView {
                modal: Some(
                    ModalView {
                        scroll: if m.scroll < usize::MAX {
                            m.scroll + 1
                        } else {
                            m.scroll
                        },
                        ..m
                    },
                ),
                ..a
            },
            KeyOutcome::Continue,
        )
    } else if code == KeyCode::Char('k') || code == KeyCode::Up {
        (
            AppView {
                modal: Some(
                    ModalView {
                        scroll: if m.scroll > 0 {
                            (m.scroll - 1) as nat
                        } else {
                            0
                        },
                        ..m
                    },
                ),
                ..a
            },
            KeyOutcome::Continue,
        )
    } else {
        (closed, KeyOutcome::Continue)
    }
}

/// A key at the bulk prompt.
pub open spec fn at_bulk(a: AppView, text: Str, code: KeyCode, now: u64) -> AppView {
    match code {
        KeyCode::Esc => AppView { bulk: None, ..a },
        KeyCode::Enter => bulk_decided(a, text, now),
        KeyCode::Backspace => AppView { bulk: Some(shorter(text)), ..a },
        KeyCode::Char(c) => AppView { bulk: Some(text.push(c)), ..a },
        _ => a,
    }
}

/// With a help tab open.
pub open spec fn on_tab(a: AppView, tab: usize) -> AppView {
    AppView { help_tab: Some(tab), help_scroll: 0, ..a }
}

/// A key at the help.
pub open spec fn at_help(a: AppView, tab: usize, code: KeyCode) -> AppView {
    match code {
        KeyCode::Char(c) => if c == '1' {
            on_tab(a, 0)
        } else if c == '2' {
            on_tab(a, 1)
        } else if c == '3' {
            on_tab(a, 2)
        } else if c == '4' {
            on_tab(a, 3)
        } else {
            AppView { help_tab: None, ..a }
        },
        KeyCode::Tab => on_tab(a, next_tab(tab)),
        KeyCode::Right => on_tab(a, next_tab(tab)),
        KeyCode::BackTab => on_tab(a, last_tab(tab)),
        KeyCode::Left => on_tab(a, last_tab(tab)),
        KeyCode::Down => AppView { help_scroll: scrolled_by(a.help_scroll, 1, true), ..a },
        KeyCode::Up => AppView { help_scroll: scrolled_by(a.help_scroll, 1, false), ..a },
        _ => AppView { help_tab: None, ..a },
    }
}

/// The tab after another, around the end.
#[verifier::allow_in_spec]
pub fn next_tab(tab: usize) -> usize
    returns
        (if tab < 3 {
            (tab + 1) as usize
        } else {
            0usize
        }),
{
    if tab < 3 {
        tab + 1
    } else {
        0
    }
}

/// The tab before another, around the end.
#[verifier::allow_in_spec]
pub fn last_tab(tab: usize) -> usize
    returns
        (if tab > 0 {
            (tab - 1) as usize
        } else {
            3usize
        }),
{
    if tab > 0 {
        tab - 1
    } else {
        3
    }
}

/// With port notes scrolled.
pub open spec fn notes_scrolled(a: AppView, h: NotesView, n: nat, down: bool) -> AppView {
    AppView {
        port_help: Some(NotesView { scroll: scrolled_by(h.scroll, n, down), ..h }),
        ..a
    }
}

/// A key at port notes.
pub open spec fn at_notes(a: AppView, h: NotesView, code: KeyCode) -> AppView {
    if code == KeyCode::Char('j') || code == KeyCode::Down {
        notes_scrolled(a, h, 1, true)
    } else if code == KeyCode::Char('k') || code == KeyCode::Up {
        notes_scrolled(a, h, 1, false)
    } else if code == KeyCode::PageDown {
        notes_scrolled(a, h, PAGE as nat, true)
    } else if code == KeyCode::PageUp {
        notes_scrolled(a, h, PAGE as nat, false)
    } else {
        AppView { port_help: None, ..a }
    }
}

/// A key at an explanation.
pub open spec fn at_why(a: AppView, code: KeyCode) -> AppView {
    let w = a.why->0;
    let closed = AppView { why: None, ..a };
    if code == KeyCode::Char('j') || code == KeyCode::Down {
        AppView { why: Some(why_moved(w, true)), ..a }
    } else if code == KeyCode::Char('k') || code == KeyCode::Up {
        AppView { why: Some(why_moved(w, false)), ..a }
    } else if code == KeyCode::Enter {
        match why_selected(w) {
            Some(k) => jumped(closed, k),
            None => closed,
        }
    } else if code == KeyCode::Char('r') {
        match why_selected(w) {
            Some(k) => with_why(closed, Some(k)),
            None => closed,
        }
    } else {
        closed
    }
}

impl App {
    fn quit_key(&mut self, code: KeyCode) -> (r: KeyOutcome)
        ensures
            (final(self)@, r) == at_quit(old(self)@, code),
    {
        if let KeyCode::Char(c) = code {
            if c == 's' || c == 'S' {
                return KeyOutcome::SaveDraft;
            }
            if c == 'd' || c == 'D' || c == 'y' || c == 'Y' {
                return KeyOutcome::Quit;
            }
        }
        self.quit_confirm = false;
        KeyOutcome::Continue
    }

    fn modal_key(&mut self, code: KeyCode) -> (r: KeyOutcome)
        requires
            old(self)@.modal is Some,
        ensures
            (final(self)@, r) == at_modal(old(self)@, old(self)@.modal->0, code),
    {
        let ghost a = self@;
        match self.modal.take() {
            Some(m) => {
                let mut m = m;
                let ghost mv = m@;
                if m.done.is_some() {
                    assert(self@ =~= (AppView { modal: None, ..a }));
                    KeyOutcome::Continue
                } else if code == KeyCode::Char('y') || code == KeyCode::Char('Y') {
                    self.modal = Some(m);
                    assert(self@ =~= a);
                    KeyOutcome::WriteFiles
                } else if code == KeyCode::Char('j') || code == KeyCode::Down {
                    if m.scroll < usize::MAX {
                        m.scroll = m.scroll + 1;
                    }
                    self.modal = Some(m);
                    assert(self@ =~= at_modal(a, mv, code).0);
                    KeyOutcome::Continue
                } else if code == KeyCode::Char('k') || code == KeyCode::Up {
                    if m.scroll > 0 {
                        m.scroll = m.scroll - 1;
                    }
                    self.modal = Some(m);
                    assert(self@ =~= at_modal(a, mv, code).0);
                    KeyOutcome::Continue
                } else {
                    assert(self@ =~= (AppView { modal: None, ..a }));
                    KeyOutcome::Continue
                }
            },
            None => KeyOutcome::Continue,
        }
    }

    fn bulk_key(&mut self, code: KeyCode, now: u64)
        requires
            old(self)@.bulk is Some,
        ensures
            final(self)@ == at_bulk(old(self)@, old(self)@.bulk->0, code, now),
    {
        let ghost a = self@;
        match self.bulk.take() {
            Some(text) => {
                let mut text = text;
                let ghost t = text@;
                match code {
                    KeyCode::Esc => {
                        assert(self@ =~= (AppView { bulk: None, ..a }));
                    },
                    KeyCode::Enter => {
                        self.bulk_commit(text.as_str(), now);
                        assert(self@ =~= bulk_decided(a, t, now));
                    },
                    KeyCode::Backspace => {
                        self.bulk = Some(drop_char(text.as_str()));
                        assert(self@ =~= at_bulk(a, t, code, now));
                    },
                    KeyCode::Char(c) => {
                        text.push(c);
                        self.bulk = Some(text);
                        assert(self@ =~= at_bulk(a, t, code, now));
                    },
                    _ => {
                        self.bulk = Some(text);
                        assert(self@ =~= a);
                    },
                }
            },
            None => {},
        }
    }

    fn open_tab(&mut self, tab: usize)
        ensures
            final(self)@ == on_tab(old(self)@, tab),
    {
        self.help_tab = Some(tab);
        self.help_scroll = 0;
    }

    fn help_key(&mut self, tab: usize, code: KeyCode)
        ensures
            final(self)@ == at_help(old(self)@, tab, code),
    {
        match code {
            KeyCode::Char(c) => {
                if c == '1' {
                    self.open_tab(0);
                } else if c == '2' {
                    self.open_tab(1);
                } else if c == '3' {
                    self.open_tab(2);
                } else if c == '4' {
                    self.open_tab(3);
                } else {
                    self.help_tab = None;
                }
            },
            KeyCode::Tab => {
                self.open_tab(next_tab(tab));
            },
            KeyCode::Right => {
                self.open_tab(next_tab(tab));
            },
            KeyCode::BackTab => {
                self.open_tab(last_tab(tab));
            },
            KeyCode::Left => {
                self.open_tab(last_tab(tab));
            },
            KeyCode::Down => {
                self.help_scroll = scroll_by(self.help_scroll, 1, true);
            },
            KeyCode::Up => {
                self.help_scroll = scroll_by(self.help_scroll, 1, false);
            },
            _ => {
                self.help_tab = None;
            },
        }
    }

    fn notes_key(&mut self, code: KeyCode)
        requires
            old(self)@.port_help is Some,
        ensures
            final(self)@ == at_notes(old(self)@, old(self)@.port_help->0, code),
    {
        let ghost a = self@;
        match self.port_help.take() {
            Some(h) => {
                let mut h = h;
                let ghost hv = h@;
                if code == KeyCode::Char('j') || code == KeyCode::Down {
                    h.scroll = scroll_by(h.scroll, 1, true);
                } else if code == KeyCode::Char('k') || code == KeyCode::Up {
                    h.scroll = scroll_by(h.scroll, 1, false);
                } else if code == KeyCode::PageDown {
                    h.scroll = scroll_by(h.scroll, PAGE as u16, true);
                } else if code == KeyCode::PageUp {
                    h.scroll = scroll_by(h.scroll, PAGE as u16, false);
                } else {
                    assert(self@ =~= at_notes(a, hv, code));
                    return;
                }
                self.port_help = Some(h);
                assert(self@ =~= at_notes(a, hv, code));
            },
            None => {},
        }
    }

    fn why_key(&mut self, code: KeyCode)
        requires
            old(self)@.why is Some,
        ensures
            final(self)@ == at_why(old(self)@, code),
    {
        let ghost a = self@;
        match self.why.take() {
            Some(w) => {
                let mut w = w;
                assert(self@ =~= (AppView { why: None, ..a }));
                if code == KeyCode::Char('j') || code == KeyCode::Down {
                    w.move_selection(true);
                    self.why = Some(w);
                    assert(self@ =~= at_why(a, code));
                } else if code == KeyCode::Char('k') || code == KeyCode::Up {
                    w.move_selection(false);
                    self.why = Some(w);
                    assert(self@ =~= at_why(a, code));
                } else if code == KeyCode::Enter {
                    match w.selected_port() {
                        Some(k) => {
                            self.jump_to(&k);
                        },
                        None => {},
                    }
                } else if code == KeyCode::Char('r') {
                    match w.selected_port() {
                        Some(k) => {
                            self.explain_port(&k);
                        },
                        None => {},
                    }
                }
            },
            None => {},
        }
    }
}

// ---------------------------------------------------------------------
// Panes
// ---------------------------------------------------------------------

/// A key while the filter is typed.
pub open spec fn at_filter(a: AppView, code: KeyCode) -> AppView {
    with_editor(
        match code {
            KeyCode::Esc => {
                let b = AppView { filter: Seq::empty(), focus: Focus::List, ..a };
                with_list(b, selected_of(b))
            },
            KeyCode::Enter => AppView { focus: Focus::List, ..a },
            KeyCode::Backspace => with_list(AppView { filter: shorter(a.filter), ..a }, None),
            KeyCode::Char(c) => with_list(AppView { filter: a.filter.push(c), ..a }, None),
            _ => a,
        },
    )
}

/// A key in the list.
pub open spec fn at_list(a: AppView, code: KeyCode) -> AppView {
    match code {
        KeyCode::Char(c) => if c == 'j' {
            moved_by(a, 1, true)
        } else if c == 'k' {
            moved_by(a, 1, false)
        } else if c == 'g' {
            at_index(a, 0)
        } else if c == 'G' {
            at_index(a, last_row(a))
        } else if c == 'n' {
            at_problem(a, true)
        } else if c == 'p' {
            at_problem(a, false)
        } else if c == 'l' {
            in_editor(a)
        } else {
            a
        },
        KeyCode::Down => moved_by(a, 1, true),
        KeyCode::Up => moved_by(a, 1, false),
        KeyCode::Home => at_index(a, 0),
        KeyCode::End => at_index(a, last_row(a)),
        KeyCode::PageDown => moved_by(a, PAGE as nat, true),
        KeyCode::PageUp => moved_by(a, PAGE as nat, false),
        KeyCode::Enter => in_editor(a),
        KeyCode::Tab => in_editor(a),
        KeyCode::Right => in_editor(a),
        _ => a,
    }
}

/// The last row of the list.
pub open spec fn last_row(a: AppView) -> nat {
    if a.visible.len() > 0 {
        (a.visible.len() - 1) as nat
    } else {
        0
    }
}

/// With the cursor moved.
pub open spec fn cursor_moved(a: AppView, down: bool) -> AppView {
    AppView { editor_idx: moved_cursor(a.editor_rows, a.editor_idx, down), ..a }
}

/// A key in the editor.
pub open spec fn at_editor(a: AppView, code: KeyCode, now: u64) -> AppView {
    let left = AppView { focus: Focus::List, ..a };
    match code {
        KeyCode::Char(c) => if c == 'j' {
            cursor_moved(a, true)
        } else if c == 'k' {
            cursor_moved(a, false)
        } else if c == ' ' {
            toggled_at(a, now)
        } else if c == 'd' {
            reset_at(a, now)
        } else if c == 'u' {
            reverted_at(a, now)
        } else {
            a
        },
        KeyCode::Esc => left,
        KeyCode::Tab => left,
        KeyCode::Left => left,
        KeyCode::Down => cursor_moved(a, true),
        KeyCode::Up => cursor_moved(a, false),
        KeyCode::Enter => toggled_at(a, now),
        _ => a,
    }
}

/// With the views changed and the list rebuilt.
pub open spec fn with_views(a: AppView, w: Views) -> AppView {
    let b = AppView { views: w, ..a };
    with_editor(with_list(b, selected_of(b)))
}

/// The next of some ports after another, around the end.
pub open spec fn next_of(keys: Seq<KeyView>, key: KeyView) -> Option<KeyView> {
    match place_of(keys, key) {
        Some(i) => if keys.len() < 2 {
            None
        } else if i + 1 < keys.len() {
            Some(keys[i as int + 1])
        } else {
            Some(keys[0])
        },
        None => None,
    }
}

/// With the next flavor of the selected port selected.
pub open spec fn at_flavor(a: AppView) -> AppView {
    match selected_of(a) {
        Some(key) => match next_of(
            ordered::<PortKey>(a.session.ports.dom()).filter(
                |k: KeyView| k.origin == key.origin,
            ),
            key,
        ) {
            Some(k) => jumped(a, k),
            None => flashed(a, "no other flavor of this port"@, false),
        },
        None => a,
    }
}

/// Quitting: staged edits are asked about.
pub open spec fn quitting(a: AppView) -> (AppView, KeyOutcome) {
    if is_dirty(a.session) {
        (AppView { quit_confirm: true, ..a }, KeyOutcome::Continue)
    } else {
        (a, KeyOutcome::Quit)
    }
}

/// Asking for notes: the port's own, or the help where it has none.
pub open spec fn asking(a: AppView) -> (AppView, KeyOutcome) {
    match selected_info(a) {
        Some(info) => if info.pkg_help is Some {
            (a, KeyOutcome::ReadNotes)
        } else {
            (on_tab(a, 0), KeyOutcome::Continue)
        },
        None => (on_tab(a, 0), KeyOutcome::Continue),
    }
}

/// A key that does the same in the list and in the editor, if it is one.
pub open spec fn at_any(a: AppView, code: KeyCode, now: u64) -> Option<(AppView, KeyOutcome)> {
    let w = a.views;
    match code {
        KeyCode::F(n) => if n == 1 {
            Some((on_tab(a, 0), KeyOutcome::Continue))
        } else {
            None
        },
        KeyCode::Char(c) => if c == 'q' {
            Some(quitting(a))
        } else if c == '/' {
            Some((AppView { focus: Focus::Filter, ..a }, KeyOutcome::Continue))
        } else if c == 'a' {
            Some((a, KeyOutcome::PlanApply))
        } else if c == '?' {
            Some((on_tab(a, 0), KeyOutcome::Continue))
        } else if c == 'h' {
            Some(asking(a))
        } else if c == 't' {
            Some((with_views(a, Views { hide_ok: !w.hide_ok, ..w }), KeyOutcome::Continue))
        } else if c == 'm' {
            Some((with_views(a, Views { mc_relax: !w.mc_relax, ..w }), KeyOutcome::Continue))
        } else if c == 'w' {
            Some((with_views(a, Views { warn_mc: !w.warn_mc, ..w }), KeyOutcome::Continue))
        } else if c == 's' {
            Some((with_views(a, Views { by_name: !w.by_name, ..w }), KeyOutcome::Continue))
        } else if c == 'f' {
            Some((at_flavor(a), KeyOutcome::Continue))
        } else if c == 'i' {
            Some((with_option(a), KeyOutcome::Continue))
        } else if c == 'r' {
            Some((with_why(a, selected_of(a)), KeyOutcome::Continue))
        } else if c == 'B' {
            Some((AppView { bulk: Some(Seq::empty()), ..a }, KeyOutcome::Continue))
        } else if c == 'U' {
            Some((undone(a, now), KeyOutcome::Continue))
        } else {
            None
        },
        _ => None,
    }
}

/// What a key does.
pub open spec fn dispatched(a: AppView, key: KeyEvent, now: u64) -> (AppView, KeyOutcome) {
    let code = key.code;
    if a.quit_confirm {
        at_quit(a, code)
    } else if a.modal is Some {
        at_modal(a, a.modal->0, code)
    } else if a.bulk is Some {
        (at_bulk(a, a.bulk->0, code, now), KeyOutcome::Continue)
    } else if a.help_tab is Some {
        (at_help(a, a.help_tab->0, code), KeyOutcome::Continue)
    } else if a.port_help is Some {
        (at_notes(a, a.port_help->0, code), KeyOutcome::Continue)
    } else if a.why is Some {
        (at_why(a, code), KeyOutcome::Continue)
    } else if a.opt_info is Some {
        (AppView { opt_info: None, ..a }, KeyOutcome::Continue)
    } else if a.focus == Focus::Filter {
        (at_filter(a, code), KeyOutcome::Continue)
    } else if key.ctrl && code == KeyCode::Char('c') {
        quitting(a)
    } else if key.ctrl && code == KeyCode::Char('l') {
        (a, KeyOutcome::Repaint)
    } else {
        match at_any(a, code, now) {
            Some(r) => r,
            None => (
                if a.focus == Focus::List {
                    at_list(a, code)
                } else {
                    at_editor(a, code, now)
                },
                KeyOutcome::Continue,
            ),
        }
    }
}

impl App {
    fn filter_key(&mut self, code: KeyCode)
        ensures
            final(self)@ == at_filter(old(self)@, code),
    {
        let ghost a = self@;
        match code {
            KeyCode::Esc => {
                self.filter = String::new();
                self.focus = Focus::List;
                assert(self.filter@ =~= Seq::<char>::empty());
                assert(self@ =~= (AppView { filter: Seq::empty(), focus: Focus::List, ..a }));
                let keep = self.selected_key();
                self.rebuild_visible(keep);
            },
            KeyCode::Enter => {
                self.focus = Focus::List;
            },
            KeyCode::Backspace => {
                self.filter = drop_char(self.filter.as_str());
                assert(self@ =~= (AppView { filter: shorter(a.filter), ..a }));
                self.rebuild_visible(None);
            },
            KeyCode::Char(c) => {
                let mut t = crate::text::owned(self.filter.as_str());
                t.push(c);
                self.filter = t;
                assert(self@ =~= (AppView { filter: a.filter.push(c), ..a }));
                self.rebuild_visible(None);
            },
            _ => {},
        }
        self.rebuild_editor();
    }

    fn list_key(&mut self, code: KeyCode)
        ensures
            final(self)@ == at_list(old(self)@, code),
    {
        let n = self.visible.len();
        let last: usize = if n > 0 {
            n - 1
        } else {
            0
        };
        match code {
            KeyCode::Char(c) => {
                if c == 'j' {
                    self.move_selection(1, true);
                } else if c == 'k' {
                    self.move_selection(1, false);
                } else if c == 'g' {
                    self.select_index(0);
                } else if c == 'G' {
                    self.select_index(last);
                } else if c == 'n' {
                    self.jump_problem(true);
                } else if c == 'p' {
                    self.jump_problem(false);
                } else if c == 'l' {
                    self.focus_editor();
                }
            },
            KeyCode::Down => {
                self.move_selection(1, true);
            },
            KeyCode::Up => {
                self.move_selection(1, false);
            },
            KeyCode::Home => {
                self.select_index(0);
            },
            KeyCode::End => {
                self.select_index(last);
            },
            KeyCode::PageDown => {
                self.move_selection(PAGE, true);
            },
            KeyCode::PageUp => {
                self.move_selection(PAGE, false);
            },
            KeyCode::Enter => {
                self.focus_editor();
            },
            KeyCode::Tab => {
                self.focus_editor();
            },
            KeyCode::Right => {
                self.focus_editor();
            },
            _ => {},
        }
    }

    fn editor_key(&mut self, code: KeyCode, now: u64)
        ensures
            final(self)@ == at_editor(old(self)@, code, now),
    {
        match code {
            KeyCode::Char(c) => {
                if c == 'j' {
                    self.editor_move(true);
                } else if c == 'k' {
                    self.editor_move(false);
                } else if c == ' ' {
                    self.toggle_current(now);
                } else if c == 'd' {
                    self.reset_current(now);
                } else if c == 'u' {
                    self.revert_current(now);
                }
            },
            KeyCode::Esc => {
                self.focus = Focus::List;
            },
            KeyCode::Tab => {
                self.focus = Focus::List;
            },
            KeyCode::Left => {
                self.focus = Focus::List;
            },
            KeyCode::Down => {
                self.editor_move(true);
            },
            KeyCode::Up => {
                self.editor_move(false);
            },
            KeyCode::Enter => {
                self.toggle_current(now);
            },
            _ => {},
        }
    }

    fn switch_views(&mut self, w: Views)
        ensures
            final(self)@ == with_views(old(self)@, w),
    {
        self.views = w;
        let keep = self.selected_key();
        self.rebuild_visible(keep);
        self.rebuild_editor();
    }

    /// Select the next flavor of the same origin.
    pub fn next_flavor(&mut self)
        ensures
            final(self)@ == at_flavor(old(self)@),
    {
        let key = match self.selected_key() {
            Some(k) => k,
            None => {
                return;
            },
        };
        let all = self.session.siblings(&key);
        let ghost q = views(all@);
        match position(&all, &key) {
            Some(i) => {
                if all.len() < 2 {
                    self.flash("no other flavor of this port", false);
                } else if i + 1 < all.len() {
                    assert(q[i + 1] == all@[i + 1]@);
                    self.jump_to(&all[i + 1]);
                } else {
                    assert(q[0] == all@[0]@);
                    self.jump_to(&all[0]);
                }
            },
            None => {
                self.flash("no other flavor of this port", false);
            },
        }
    }

    fn ask_quit(&mut self) -> (r: KeyOutcome)
        ensures
            (final(self)@, r) == quitting(old(self)@),
    {
        if self.session.dirty() {
            self.quit_confirm = true;
            KeyOutcome::Continue
        } else {
            KeyOutcome::Quit
        }
    }

    fn ask_notes(&mut self) -> (r: KeyOutcome)
        ensures
            (final(self)@, r) == asking(old(self)@),
    {
        let has = match self.selected_key() {
            Some(k) => match self.session.ports.get(&k) {
                Some(info) => info.pkg_help.is_some(),
                None => false,
            },
            None => false,
        };
        if has {
            KeyOutcome::ReadNotes
        } else {
            self.open_tab(0);
            KeyOutcome::Continue
        }
    }

    fn shared_key(&mut self, code: KeyCode, now: u64) -> (r: Option<KeyOutcome>)
        ensures
            match r {
                Some(o) => at_any(old(self)@, code, now) == Some((final(self)@, o)),
                None => at_any(old(self)@, code, now) is None && final(self)@ == old(self)@,
            },
    {
        let w = self.views;
        let c = match code {
            KeyCode::F(n) => {
                if n == 1 {
                    self.open_tab(0);
                    return Some(KeyOutcome::Continue);
                }
                return None;
            },
            KeyCode::Char(c) => c,
            _ => {
                return None;
            },
        };
        if c == 'q' {
            return Some(self.ask_quit());
        }
        if c == '/' {
            self.focus = Focus::Filter;
            return Some(KeyOutcome::Continue);
        }
        if c == 'a' {
            return Some(KeyOutcome::PlanApply);
        }
        if c == '?' {
            self.open_tab(0);
            return Some(KeyOutcome::Continue);
        }
        if c == 'h' {
            return Some(self.ask_notes());
        }
        if c == 't' {
            self.switch_views(Views { hide_ok: !w.hide_ok, ..w });
            return Some(KeyOutcome::Continue);
        }
        if c == 'm' {
            self.switch_views(Views { mc_relax: !w.mc_relax, ..w });
            return Some(KeyOutcome::Continue);
        }
        if c == 'w' {
            self.switch_views(Views { warn_mc: !w.warn_mc, ..w });
            return Some(KeyOutcome::Continue);
        }
        if c == 's' {
            self.switch_views(Views { by_name: !w.by_name, ..w });
            return Some(KeyOutcome::Continue);
        }
        if c == 'f' {
            self.next_flavor();
            return Some(KeyOutcome::Continue);
        }
        if c == 'i' {
            self.open_option();
            return Some(KeyOutcome::Continue);
        }
        if c == 'r' {
            self.open_why();
            return Some(KeyOutcome::Continue);
        }
        if c == 'B' {
            self.bulk = Some(String::new());
            proof {
                assert(self.bulk->0@ =~= Seq::<char>::empty());
                assert(self@ =~= (AppView { bulk: Some(Seq::empty()), ..old(self)@ }));
            }
            return Some(KeyOutcome::Continue);
        }
        if c == 'U' {
            self.undo_last(now);
            return Some(KeyOutcome::Continue);
        }
        None
    }

    /// Do what a key asks for; what reaches beyond the state is returned.
    pub fn dispatch_key(&mut self, key: KeyEvent, now: u64) -> (r: KeyOutcome)
        ensures
            (final(self)@, r) == dispatched(old(self)@, key, now),
    {
        let code = key.code;
        // Overlays grab all keys, the topmost first.
        if self.quit_confirm {
            return self.quit_key(code);
        }
        if self.modal.is_some() {
            return self.modal_key(code);
        }
        if self.bulk.is_some() {
            self.bulk_key(code, now);
            return KeyOutcome::Continue;
        }
        if let Some(tab) = self.help_tab {
            self.help_key(tab, code);
            return KeyOutcome::Continue;
        }
        if self.port_help.is_some() {
            self.notes_key(code);
            return KeyOutcome::Continue;
        }
        if self.why.is_some() {
            self.why_key(code);
            return KeyOutcome::Continue;
        }
        if self.opt_info.is_some() {
            self.opt_info = None;
            return KeyOutcome::Continue;
        }
        if self.focus == Focus::Filter {
            self.filter_key(code);
            return KeyOutcome::Continue;
        }
        // Ctrl-C always quits (with confirm if dirty).
        if key.ctrl && code == KeyCode::Char('c') {
            return self.ask_quit();
        }
        if key.ctrl && code == KeyCode::Char('l') {
            return KeyOutcome::Repaint;
        }
        match self.shared_key(code, now) {
            Some(o) => o,
            None => {
                if self.focus == Focus::List {
                    self.list_key(code);
                } else {
                    self.editor_key(code, now);
                }
                KeyOutcome::Continue
            },
        }
    }

    /// The name of what has the keys.
    pub fn focus_name(&self) -> (r: &'static str)
        ensures
            r@ == match self@.focus {
                Focus::List => "list"@,
                Focus::Editor => "editor"@,
                Focus::Filter => "filter"@,
            },
    {
        match self.focus {
            Focus::List => "list",
            Focus::Editor => "editor",
            Focus::Filter => "filter",
        }
    }

    /// The name of the overlay on screen.
    pub fn overlay_name(&self) -> (r: &'static str)
        ensures
            r@ == overlay_of(self@),
    {
        if self.quit_confirm {
            "quit_confirm"
        } else if self.modal.is_some() {
            "apply"
        } else if self.bulk.is_some() {
            "bulk"
        } else if self.help_tab.is_some() {
            "help"
        } else if self.port_help.is_some() {
            "port_help"
        } else if self.why.is_some() {
            "why"
        } else if self.opt_info.is_some() {
            "opt_info"
        } else {
            "none"
        }
    }
}

/// The name of the overlay on screen.
pub open spec fn overlay_of(a: AppView) -> Str {
    if a.quit_confirm {
        "quit_confirm"@
    } else if a.modal is Some {
        "apply"@
    } else if a.bulk is Some {
        "bulk"@
    } else if a.help_tab is Some {
        "help"@
    } else if a.port_help is Some {
        "port_help"@
    } else if a.why is Some {
        "why"@
    } else if a.opt_info is Some {
        "opt_info"@
    } else {
        "none"@
    }
}

} // verus!
