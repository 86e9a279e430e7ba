//! The state of the interface.
use vstd::prelude::*;

use crate::apply::{PendingWrite, WriteView};
use crate::clean::{Removal, RemovalView};
use crate::config::{Blacklist, BlacklistView};
use crate::list::lookup;
use crate::model::options::OptionSet;
use crate::model::origin::{KeyView, PortKey};
use crate::model::port::InfoView;
use crate::order::Duplicate;
use crate::session::base::{Session, SessionView};
use crate::session::status::UiStatus;
use crate::sorted::{ordered, SortedMap};
use crate::text::{opt_view, owned, views, Str};
use crate::tui::editor::{current_option, editor_rows, first_option, keep_cursor, kept_cursor};
use crate::tui::editor::{move_cursor, moved_cursor, option_at, port_rows, select_first};
use crate::tui::editor::{EditorRow, EditorRowView};
use crate::tui::list::{candidates, effective, effective_status, place_of, position, shown};
use crate::tui::list::{visible_ports, Views};

verus! {

/// Which part of the interface takes the keys.
#[derive(Clone, Copy, Debug, PartialEq, Eq, Structural)]
pub enum Focus {
    List,
    Editor,
    Filter,
}

/// The preview of an apply, and its outcome.
pub struct ApplyModal {
    pub writes: Vec<PendingWrite>,
    pub removals: Vec<Removal>,
    pub warnings: Vec<String>,
    pub scroll: usize,
    pub conflicted: Vec<PortKey>,
    /// Result text once applied.
    pub done: Option<String>,
}

#[verifier::ext_equal]
pub struct ModalView {
    pub writes: Seq<WriteView>,
    pub removals: Seq<RemovalView>,
    pub warnings: Seq<Str>,
    pub scroll: nat,
    pub conflicted: Seq<KeyView>,
    pub done: Option<Str>,
}

impl View for ApplyModal {
    type V = ModalView;

    open spec fn view(&self) -> ModalView {
        ModalView {
            writes: views(self.writes@),
            removals: views(self.removals@),
            warnings: views(self.warnings@),
            scroll: self.scroll as nat,
            conflicted: views(self.conflicted@),
            done: opt_view(self.done),
        }
    }
}

/// A port's notes on screen.
pub struct PortNotes {
    pub key: PortKey,
    pub lines: Vec<String>,
    pub scroll: u16,
}

#[verifier::ext_equal]
pub struct NotesView {
    pub key: KeyView,
    pub lines: Seq<Str>,
    pub scroll: nat,
}

impl View for PortNotes {
    type V = NotesView;

    open spec fn view(&self) -> NotesView {
        NotesView { key: self.key@, lines: views(self.lines@), scroll: self.scroll as nat }
    }
}

/// Why a port is in the closure: the chain from a root, and what depends on it
/// directly.
pub struct Why {
    pub key: PortKey,
    pub chain: Option<Vec<PortKey>>,
    pub dependents: Vec<PortKey>,
    pub selected: usize,
}

#[verifier::ext_equal]
pub struct WhyView {
    pub key: KeyView,
    pub chain: Option<Seq<KeyView>>,
    pub dependents: Seq<KeyView>,
    pub selected: nat,
}

/// The view of an optional list.
pub open spec fn list_view<T: View>(o: Option<Vec<T>>) -> Option<Seq<T::V>> {
    match o {
        Some(v) => Some(views(v@)),
        None => None,
    }
}

impl View for Why {
    type V = WhyView;

    open spec fn view(&self) -> WhyView {
        WhyView {
            key: self.key@,
            chain: list_view(self.chain),
            dependents: views(self.dependents@),
            selected: self.selected as nat,
        }
    }
}

/// What a port had staged before a change.
pub struct Staged {
    pub key: PortKey,
    pub staged: OptionSet,
}

#[verifier::ext_equal]
pub struct StagedView {
    pub key: KeyView,
    pub staged: Set<Str>,
}

impl View for Staged {
    type V = StagedView;

    open spec fn view(&self) -> StagedView {
        StagedView { key: self.key@, staged: self.staged@ }
    }
}

/// One change that can be undone.
pub struct Change {
    pub before: Vec<Staged>,
}

impl View for Change {
    type V = Seq<StagedView>;

    open spec fn view(&self) -> Seq<StagedView> {
        views(self.before@)
    }
}

pub struct App {
    pub session: Session,
    pub options_dir: String,
    pub blacklist: Blacklist,
    pub views: Views,
    pub visible: Vec<PortKey>,
    pub selected: Option<usize>,
    /// How many ports the filter lets through.
    pub listable: usize,
    /// Ports hidden because they have no options (status-bar info).
    pub hidden: usize,
    pub focus: Focus,
    pub filter: String,
    pub editor_rows: Vec<EditorRow>,
    pub editor_idx: usize,
    pub message: Option<(String, bool)>,
    pub modal: Option<ApplyModal>,
    pub quit_confirm: bool,
    pub help_tab: Option<usize>,
    pub help_scroll: u16,
    pub port_help: Option<PortNotes>,
    pub why: Option<Why>,
    pub opt_info: Option<(PortKey, String)>,
    /// The text of a bulk decision being typed.
    pub bulk: Option<String>,
    /// Ports awaiting a debounced background re-query, and since when.
    pub pending: SortedMap<PortKey, u64>,
    /// Outstanding background refresh batches.
    pub refreshing: usize,
    pub refresh_progress: Option<(usize, usize)>,
    /// OPTIONS_NAME -> the option changes blamed for a blocked port.
    pub blame: SortedMap<String, String>,
    pub undo: Vec<Change>,
}

#[verifier::ext_equal]
pub struct AppView {
    pub session: SessionView,
    pub options_dir: Str,
    pub blacklist: BlacklistView,
    pub views: Views,
    pub visible: Seq<KeyView>,
    pub selected: Option<nat>,
    pub listable: nat,
    pub hidden: nat,
    pub focus: Focus,
    pub filter: Str,
    pub editor_rows: Seq<EditorRowView>,
    pub editor_idx: nat,
    pub message: Option<(Str, bool)>,
    pub modal: Option<ModalView>,
    pub quit_confirm: bool,
    pub help_tab: Option<usize>,
    pub help_scroll: nat,
    pub port_help: Option<NotesView>,
    pub why: Option<WhyView>,
    pub opt_info: Option<(KeyView, Str)>,
    pub bulk: Option<Str>,
    pub pending: Map<KeyView, u64>,
    pub refreshing: nat,
    pub refresh_progress: Option<(usize, usize)>,
    pub blame: Map<Str, Str>,
    pub undo: Seq<Seq<StagedView>>,
}

impl View for App {
    type V = AppView;

    open spec fn view(&self) -> AppView {
        AppView {
            session: self.session@,
            options_dir: self.options_dir@,
            blacklist: self.blacklist@,
            views: self.views,
            visible: views(self.visible@),
            selected: match self.selected {
                Some(i) => Some(i as nat),
                None => None,
            },
            listable: self.listable as nat,
            hidden: self.hidden as nat,
            focus: self.focus,
            filter: self.filter@,
            editor_rows: views(self.editor_rows@),
            editor_idx: self.editor_idx as nat,
            message: opt_view(self.message),
            modal: opt_view(self.modal),
            quit_confirm: self.quit_confirm,
            help_tab: self.help_tab,
            help_scroll: self.help_scroll as nat,
            port_help: opt_view(self.port_help),
            why: opt_view(self.why),
            opt_info: opt_view(self.opt_info),
            bulk: opt_view(self.bulk),
            pending: self.pending@,
            refreshing: self.refreshing as nat,
            refresh_progress: self.refresh_progress,
            blame: self.blame@,
            undo: views(self.undo@),
        }
    }
}

// ---------------------------------------------------------------------
// Selection
// ---------------------------------------------------------------------

/// The selected port.
pub open spec fn selected_of(a: AppView) -> Option<KeyView> {
    match a.selected {
        Some(i) => if i < a.visible.len() {
            Some(a.visible[i as int])
        } else {
            None
        },
        None => None,
    }
}

/// What is known of the selected port.
pub open spec fn selected_info(a: AppView) -> Option<InfoView> {
    match selected_of(a) {
        Some(k) => lookup(a.session.ports, k),
        None => None,
    }
}

/// With a message on the status bar.
pub open spec fn flashed(a: AppView, msg: Str, error: bool) -> AppView {
    AppView { message: Some((msg, error)), ..a }
}

/// With the editor rows of the selected port, the cursor on the option it
/// stood on where that is still there.
pub open spec fn with_editor(a: AppView) -> AppView {
    let rows = match selected_info(a) {
        Some(info) => port_rows(a.session, info),
        None => Seq::empty(),
    };
    AppView {
        editor_rows: rows,
        editor_idx: kept_cursor(rows, option_at(a.editor_rows, a.editor_idx)),
        ..a
    }
}

/// With the list rebuilt and a port kept selected where it is still listed.
pub open spec fn with_list(a: AppView, keep: Option<KeyView>) -> AppView {
    let visible = shown(a.session, a.blacklist, a.views, a.filter);
    let at = match keep {
        Some(k) => match place_of(visible, k) {
            Some(i) => i,
            None => 0,
        },
        None => 0,
    };
    AppView {
        visible,
        listable: candidates(a.session, a.filter).len(),
        selected: if visible.len() == 0 {
            None
        } else {
            Some(at)
        },
        ..a
    }
}

/// With another row of the list selected.
pub open spec fn at_index(a: AppView, idx: nat) -> AppView {
    with_editor(
        AppView {
            selected: if a.visible.len() == 0 {
                None
            } else if idx < a.visible.len() {
                Some(idx)
            } else {
                Some((a.visible.len() - 1) as nat)
            },
            ..a
        },
    )
}

/// The selected row, the first where none is selected.
pub open spec fn current_row(a: AppView) -> nat {
    match a.selected {
        Some(i) => i,
        None => 0,
    }
}

/// With the selection moved up or down; it stays within the list.
pub open spec fn moved_by(a: AppView, n: nat, down: bool) -> AppView {
    if a.visible.len() == 0 {
        a
    } else if down {
        at_index(a, current_row(a) + n)
    } else if n <= current_row(a) {
        at_index(a, (current_row(a) - n) as nat)
    } else {
        at_index(a, 0)
    }
}

/// The row below or above another, around the ends of the list.
pub open spec fn row_after(at: nat, len: nat, down: bool) -> nat {
    if down {
        if at % len + 1 < len {
            at % len + 1
        } else {
            0
        }
    } else if at % len == 0 {
        (len - 1) as nat
    } else {
        (at % len - 1) as nat
    }
}

/// Whether a listed port needs attention.
pub open spec fn problem_at(a: AppView, i: nat) -> bool {
    match lookup(a.session.ports, a.visible[i as int]) {
        Some(info) => effective(a.session, a.blacklist, a.views, info) != UiStatus::Okay,
        None => false,
    }
}

/// The next row with a problem, within a number of rows.
pub open spec fn problem_from(a: AppView, at: nat, rows: nat, down: bool) -> Option<nat>
    decreases rows,
{
    if rows == 0 || a.visible.len() == 0 {
        None
    } else {
        let i = row_after(at, a.visible.len(), down);
        if problem_at(a, i) {
            Some(i)
        } else {
            problem_from(a, i, (rows - 1) as nat, down)
        }
    }
}

/// With the next port that needs attention selected.
pub open spec fn at_problem(a: AppView, down: bool) -> AppView {
    if a.visible.len() == 0 {
        a
    } else {
        match problem_from(a, current_row(a), a.visible.len(), down) {
            Some(i) => at_index(a, i),
            None => flashed(a, "no ports need attention"@, false),
        }
    }
}

/// With the editor focused, where it has rows.
pub open spec fn in_editor(a: AppView) -> AppView {
    if a.editor_rows.len() == 0 {
        a
    } else {
        AppView { focus: Focus::Editor, editor_idx: first_option(a.editor_rows), ..a }
    }
}

impl App {
    pub fn selected_key(&self) -> (r: Option<PortKey>)
        ensures
            opt_view(r) == selected_of(self@),
    {
        match self.selected {
            Some(i) => if i < self.visible.len() {
                Some(self.visible[i].duplicate())
            } else {
                None
            },
            None => None,
        }
    }

    /// Show a message on the status bar.
    pub fn flash(&mut self, msg: &str, error: bool)
        ensures
            final(self)@ == flashed(old(self)@, msg@, error),
    {
        self.message = Some((owned(msg), error));
    }

    /// Rebuild the editor rows for the selected port.
    pub fn rebuild_editor(&mut self)
        ensures
            final(self)@ == with_editor(old(self)@),
    {
        let previous = current_option(&self.editor_rows, self.editor_idx);
        let rows = match self.selected_key() {
            Some(key) => match self.session.ports.get(&key) {
                Some(info) => editor_rows(&self.session, info),
                None => Vec::new(),
            },
            None => Vec::new(),
        };
        proof {
            if selected_info(self@) is None {
                assert(views(rows@) =~= Seq::<EditorRowView>::empty());
            }
        }
        self.editor_idx = keep_cursor(&rows, &previous);
        self.editor_rows = rows;
        assert(self@ =~= with_editor(old(self)@));
    }

    /// Rebuild the filtered port list.
    pub fn rebuild_visible(&mut self, keep: Option<PortKey>)
        ensures
            final(self)@ == with_list(old(self)@, opt_view(keep)),
    {
        let (visible, listable) = visible_ports(
            &self.session,
            &self.blacklist,
            self.views,
            self.filter.as_str(),
        );
        let at: usize = match &keep {
            Some(k) => match position(&visible, k) {
                Some(i) => i,
                None => 0,
            },
            None => 0,
        };
        self.selected = if visible.len() == 0 {
            None
        } else {
            Some(at)
        };
        self.visible = visible;
        self.listable = listable;
        assert(self@ =~= with_list(old(self)@, opt_view(keep)));
    }

    pub fn select_index(&mut self, idx: usize)
        ensures
            final(self)@ == at_index(old(self)@, idx as nat),
    {
        let n = self.visible.len();
        self.selected = if n == 0 {
            None
        } else if idx < n {
            Some(idx)
        } else {
            Some(n - 1)
        };
        self.rebuild_editor();
    }

    pub fn move_selection(&mut self, n: usize, down: bool)
        ensures
            final(self)@ == moved_by(old(self)@, n as nat, down),
    {
        let len = self.visible.len();
        if len == 0 {
            return;
        }
        let cur: usize = match self.selected {
            Some(i) => i,
            None => 0,
        };
        if down {
            if cur >= len || n >= len - cur {
                self.select_index(len - 1);
            } else {
                self.select_index(cur + n);
            }
        } else if n <= cur {
            self.select_index(cur - n);
        } else {
            self.select_index(0);
        }
    }

    /// Select the next port that needs attention, around the ends of the list.
    pub fn jump_problem(&mut self, down: bool)
        ensures
            final(self)@ == at_problem(old(self)@, down),
    {
        let len = self.visible.len();
        if len == 0 {
            return;
        }
        let mut at: usize = match self.selected {
            Some(i) => i,
            None => 0,
        };
        let ghost a = self@;
        let mut left: usize = len;
        while left > 0
            invariant
                self@ == a,
                a == old(self)@,
                len == a.visible.len(),
                len > 0,
                problem_from(a, current_row(a), len as nat, down) == problem_from(
                    a,
                    at as nat,
                    left as nat,
                    down,
                ),
            decreases left,
        {
            let i: usize = if down {
                if at % len + 1 < len {
                    at % len + 1
                } else {
                    0
                }
            } else if at % len == 0 {
                len - 1
            } else {
                at % len - 1
            };
            assert(i == row_after(at as nat, len as nat, down));
            assert(i < len);
            assert(a.visible[i as int] == self.visible@[i as int]@);
            let problem = match self.session.ports.get(&self.visible[i]) {
                Some(info) => effective_status(&self.session, &self.blacklist, self.views, info)
                    != UiStatus::Okay,
                None => false,
            };
            if problem {
                self.select_index(i);
                return;
            }
            at = i;
            left = left - 1;
        }
        self.flash("no ports need attention", false);
    }

    /// Give the keys to the editor.
    pub fn focus_editor(&mut self)
        ensures
            final(self)@ == in_editor(old(self)@),
    {
        if self.editor_rows.len() > 0 {
            self.focus = Focus::Editor;
            self.editor_idx = select_first(&self.editor_rows);
        }
    }

    /// Move the editor's cursor.
    pub fn editor_move(&mut self, down: bool)
        ensures
            final(self)@ == (AppView {
                editor_idx: moved_cursor(old(self)@.editor_rows, old(self)@.editor_idx, down),
                ..old(self)@
            }),
    {
        self.editor_idx = move_cursor(&self.editor_rows, self.editor_idx, down);
    }
}

// ---------------------------------------------------------------------
// Start
// ---------------------------------------------------------------------

/// How many ports of a session have no options.
pub open spec fn optionless(v: SessionView) -> nat {
    crate::report::optionless(ordered::<PortKey>(v.ports.dom()), v.ports)
}

/// The interface over a session, as it starts.
pub open spec fn opened(v: SessionView, options_dir: Str, blacklist: BlacklistView) -> AppView {
    with_editor(
        with_list(
            AppView {
                session: v,
                options_dir,
                blacklist,
                views: (Views { hide_ok: false, mc_relax: false, warn_mc: false, by_name: false }),
                visible: Seq::empty(),
                selected: None,
                listable: 0,
                hidden: optionless(v),
                focus: Focus::List,
                filter: Seq::empty(),
                editor_rows: Seq::empty(),
                editor_idx: 0,
                message: None,
                modal: None,
                quit_confirm: false,
                help_tab: None,
                help_scroll: 0,
                port_help: None,
                why: None,
                opt_info: None,
                bulk: None,
                pending: Map::empty(),
                refreshing: 0,
                refresh_progress: None,
                blame: Map::empty(),
                undo: Seq::empty(),
            },
            None,
        ),
    )
}

fn count_optionless(session: &Session) -> (r: usize)
    ensures
        r == optionless(session@),
{
    let n = session.ports.len();
    let ghost q = ordered::<PortKey>(session@.ports.dom());
    let ghost p = |k: KeyView| session@.ports[k].options.complete.len() == 0;
    let mut r: usize = 0;
    let mut i: usize = 0;
    assert(q.take(0) =~= Seq::<KeyView>::empty());
    while i < n
        invariant
            i <= n,
            r <= i,
            n == q.len(),
            q == ordered::<PortKey>(session@.ports.dom()),
            p == (|k: KeyView| session@.ports[k].options.complete.len() == 0),
            r == crate::list::count_where(q.take(i as int), p),
        decreases n - i,
    {
        proof {
            crate::list::lemma_take_one(q, i as int);
        }
        if !session.ports.value_at(i).options.has_options() {
            r = r + 1;
        }
        i = i + 1;
    }
    assert(q.take(n as int) =~= q);
    r
}

/// The interface over a session.
pub fn build_app(session: Session, options_dir: String, blacklist: Blacklist) -> (r: App)
    ensures
        r@ == opened(session@, options_dir@, blacklist@),
{
    let hidden = count_optionless(&session);
    let mut app = App {
        session,
        options_dir,
        blacklist,
        views: Views { hide_ok: false, mc_relax: false, warn_mc: false, by_name: false },
        visible: Vec::new(),
        selected: None,
        listable: 0,
        hidden,
        focus: Focus::List,
        filter: String::new(),
        editor_rows: Vec::new(),
        editor_idx: 0,
        message: None,
        modal: None,
        quit_confirm: false,
        help_tab: None,
        help_scroll: 0,
        port_help: None,
        why: None,
        opt_info: None,
        bulk: None,
        pending: SortedMap::new(),
        refreshing: 0,
        refresh_progress: None,
        blame: SortedMap::new(),
        undo: Vec::new(),
    };
    proof {
        assert(views(app.visible@) =~= Seq::<KeyView>::empty());
        assert(views(app.editor_rows@) =~= Seq::<EditorRowView>::empty());
        assert(views(app.undo@) =~= Seq::<Seq<StagedView>>::empty());
        assert(app.filter@ =~= Seq::<char>::empty());
    }
    app.rebuild_visible(None);
    app.rebuild_editor();
    app
}

} // verus!
