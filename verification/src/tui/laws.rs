//! What holds of the interface as a whole.
use vstd::prelude::*;

use crate::config::BlacklistView;
use crate::list::lemma_filter_holds;
use crate::model::origin::{KeyView, PortKey};
use crate::optionsfile::SavedView;
use crate::query::refresher::EventView;
use crate::session::base::SessionView;
use crate::session::edit::{bulk, is_dirty};
use crate::session::reach::merged;
use crate::sorted::{lemma_ordered, ordered};
use crate::text::Str;
use crate::tui::actions::{decision_of, put_back, reset_at, reverted_at, toggled_at, undone};
use crate::tui::app::{at_index, at_problem, current_row, moved_by, opened, optionless};
use crate::tui::app::{problem_from, selected_of};
use crate::tui::app::{with_list, AppView, Focus, StagedView};
use crate::tui::dispatch::{at_any, at_bulk, at_editor, at_filter, at_flavor, at_help, at_list};
use crate::tui::dispatch::{at_modal, at_notes, at_quit, at_why, dispatched, quitting, shorter};
use crate::tui::dispatch::{last_row, with_views, KeyOutcome, PAGE};
use crate::tui::keys::{KeyCode, KeyEvent};
use crate::tui::list::{candidates, law_shown_exact, listed, Views};
use crate::tui::refresh::{after_events, drained};

verus! {

/// A state that makes sense: a row is selected exactly where there are rows, it
/// is one of them, and every row is a port of the closure.
pub open spec fn sound(a: AppView) -> bool {
    &&& a.session.ports.dom().finite()
    &&& match a.selected {
        Some(i) => i < a.visible.len(),
        None => a.visible.len() == 0,
    }
    &&& forall|i: int|
        0 <= i < a.visible.len() ==> a.session.ports.dom().contains(#[trigger] a.visible[i])
}

proof fn lemma_listed(a: AppView, keep: Option<KeyView>)
    requires
        a.session.ports.dom().finite(),
    ensures
        sound(with_list(a, keep)),
{
    let b = with_list(a, keep);
    let q = ordered::<PortKey>(a.session.ports.dom());
    lemma_ordered::<PortKey>(a.session.ports.dom());
    lemma_filter_holds(q, listed(a.session, a.filter));
    assert forall|i: int| 0 <= i < b.visible.len() implies b.session.ports.dom().contains(
        #[trigger] b.visible[i],
    ) by {
        let k = b.visible[i];
        assert(b.visible.contains(k));
        law_shown_exact(a.session, a.blacklist, a.views, a.filter, k);
        assert(candidates(a.session, a.filter).contains(k));
        assert(q.contains(k));
    }
    if let Some(k) = keep {
        if b.visible.contains(k) {
            b.visible.index_of_first_ensures(k);
        }
    }
}

/// The interface starts in a state that makes sense.
pub proof fn law_opened_sound(v: SessionView, options_dir: Str, blacklist: BlacklistView)
    requires
        v.ports.dom().finite(),
    ensures
        sound(opened(v, options_dir, blacklist)),
{
    let a = AppView {
        session: v,
        options_dir,
        blacklist,
        views: (Views {
            hide_ok: false,
            mc_relax: false,
            warn_mc: false,
            by_name: false,
        }),
        visible: Seq::empty(),
        selected: None,
        listable: 0,
        hidden: optionless(v),
        focus: Focus::List,
        filter: Seq::empty(),
        editor_rows: Seq::empty(),
        editor_idx: 0,
        message: None,
        modal: None,
        quit_confirm: false,
        help_tab: None,
        help_scroll: 0,
        port_help: None,
        why: None,
        opt_info: None,
        bulk: None,
        pending: Map::empty(),
        refreshing: 0,
        refresh_progress: None,
        blame: Map::empty(),
        undo: Seq::empty(),
    };
    lemma_listed(a, None);
}

proof fn lemma_put_back_ports(v: SessionView, before: Seq<StagedView>)
    ensures
        put_back(v, before).ports == v.ports,
    decreases before.len(),
{
    if before.len() > 0 {
        lemma_put_back_ports(v, before.drop_last());
    }
}

proof fn lemma_bulk_ports(v: SessionView, keys: Seq<KeyView>, opt: Str, on: bool)
    ensures
        bulk(v, keys, opt, on).session.ports == v.ports,
    decreases keys.len(),
{
    if keys.len() > 0 {
        lemma_bulk_ports(v, keys.drop_last(), opt, on);
    }
}

proof fn lemma_views_sound(a: AppView, w: Views)
    requires
        sound(a),
    ensures
        sound(with_views(a, w)),
{
    let b = AppView { views: w, ..a };
    lemma_listed(b, selected_of(b));
}

proof fn lemma_any_sound(a: AppView, code: KeyCode, now: u64)
    requires
        sound(a),
    ensures
        at_any(a, code, now) matches Some(r) ==> sound(r.0),
{
    let w = a.views;
    lemma_views_sound(a, Views { hide_ok: !w.hide_ok, ..w });
    lemma_views_sound(a, Views { mc_relax: !w.mc_relax, ..w });
    lemma_views_sound(a, Views { warn_mc: !w.warn_mc, ..w });
    lemma_views_sound(a, Views { by_name: !w.by_name, ..w });
    if a.undo.len() > 0 {
        lemma_put_back_ports(a.session, a.undo.last());
    }
    assert(sound(at_flavor(a)));
    assert(sound(undone(a, now)));
}

proof fn lemma_filter_sound(a: AppView, code: KeyCode)
    requires
        sound(a),
    ensures
        sound(at_filter(a, code)),
{
    let b = AppView { filter: Seq::empty(), focus: Focus::List, ..a };
    lemma_listed(b, selected_of(b));
    lemma_listed(AppView { filter: shorter(a.filter), ..a }, None);
    if let KeyCode::Char(c) = code {
        lemma_listed(AppView { filter: a.filter.push(c), ..a }, None);
    }
}

proof fn lemma_bulk_sound(a: AppView, text: Str, code: KeyCode, now: u64)
    requires
        sound(a),
    ensures
        sound(at_bulk(a, text, code, now)),
{
    if let Some((opt, on)) = decision_of(text) {
        lemma_bulk_ports(a.session, a.visible, opt, on);
    }
}

proof fn lemma_row_sound(a: AppView, idx: nat)
    requires
        sound(a),
    ensures
        sound(at_index(a, idx)),
{
}

proof fn lemma_move_sound(a: AppView, n: nat, down: bool)
    requires
        sound(a),
    ensures
        sound(moved_by(a, n, down)),
{
    lemma_row_sound(a, current_row(a) + n);
    lemma_row_sound(a, 0);
    if n <= current_row(a) {
        lemma_row_sound(a, (current_row(a) - n) as nat);
    }
}

proof fn lemma_problem_sound(a: AppView, down: bool)
    requires
        sound(a),
    ensures
        sound(at_problem(a, down)),
{
    if a.visible.len() > 0 {
        if let Some(i) = problem_from(a, current_row(a), a.visible.len(), down) {
            lemma_row_sound(a, i);
        }
    }
}

proof fn lemma_list_sound(a: AppView, code: KeyCode)
    requires
        sound(a),
    ensures
        sound(at_list(a, code)),
{
    match code {
        KeyCode::Char(c) => {
            if c == 'j' || c == 'k' {
                lemma_move_sound(a, 1, c == 'j');
            } else if c == 'n' || c == 'p' {
                lemma_problem_sound(a, c == 'n');
            } else if c == 'g' || c == 'G' {
                lemma_row_sound(a, 0);
                lemma_row_sound(a, last_row(a));
            }
        },
        KeyCode::Down => lemma_move_sound(a, 1, true),
        KeyCode::Up => lemma_move_sound(a, 1, false),
        KeyCode::PageDown => lemma_move_sound(a, PAGE as nat, true),
        KeyCode::PageUp => lemma_move_sound(a, PAGE as nat, false),
        KeyCode::Home => lemma_row_sound(a, 0),
        KeyCode::End => lemma_row_sound(a, last_row(a)),
        _ => {},
    }
}

proof fn lemma_edit_sound(a: AppView, now: u64)
    requires
        sound(a),
    ensures
        sound(toggled_at(a, now)),
        sound(reset_at(a, now)),
        sound(reverted_at(a, now)),
{
}

proof fn lemma_editor_sound(a: AppView, code: KeyCode, now: u64)
    requires
        sound(a),
    ensures
        sound(at_editor(a, code, now)),
{
    lemma_edit_sound(a, now);
}

/// No key takes the interface out of a state that makes sense.
pub proof fn law_keys_keep_sound(a: AppView, key: KeyEvent, now: u64)
    requires
        sound(a),
    ensures
        sound(dispatched(a, key, now).0),
{
    let code = key.code;
    if a.quit_confirm {
        assert(sound(at_quit(a, code).0));
    } else if let Some(m) = a.modal {
        assert(sound(at_modal(a, m, code).0));
    } else if let Some(text) = a.bulk {
        lemma_bulk_sound(a, text, code, now);
    } else if let Some(tab) = a.help_tab {
        assert(sound(at_help(a, tab, code)));
    } else if let Some(h) = a.port_help {
        assert(sound(at_notes(a, h, code)));
    } else if a.why is Some {
        assert(sound(at_why(a, code)));
    } else if a.opt_info is Some {
    } else if a.focus == Focus::Filter {
        lemma_filter_sound(a, code);
    } else {
        lemma_any_sound(a, code, now);
        lemma_list_sound(a, code);
        lemma_editor_sound(a, code, now);
        assert(sound(quitting(a).0));
    }
}

/// Nothing is written unless the preview is on screen and is confirmed.
pub proof fn law_writes_are_confirmed(a: AppView, key: KeyEvent, now: u64)
    requires
        dispatched(a, key, now).1 == KeyOutcome::WriteFiles,
    ensures
        a.modal is Some,
        a.modal->0.done is None,
        key.code == KeyCode::Char('y') || key.code == KeyCode::Char('Y'),
        dispatched(a, key, now).0 == a,
{
}

/// Staged edits are not lost without being asked about: the session ends only
/// where there are none, or from the quit prompt.
pub proof fn law_quit_is_asked(a: AppView, key: KeyEvent, now: u64)
    requires
        dispatched(a, key, now).1 == KeyOutcome::Quit,
    ensures
        !is_dirty(a.session) || a.quit_confirm,
{
}

/// While an overlay is open no key reaches the panes: the list, its selection
/// and the filter stay as they are, unless the overlay itself jumps to a port.
pub proof fn law_overlay_grabs_keys(a: AppView, key: KeyEvent, now: u64)
    requires
        a.quit_confirm || a.modal is Some || a.bulk is Some || a.help_tab is Some
            || a.port_help is Some || a.opt_info is Some && a.why is None,
    ensures
        dispatched(a, key, now).0.visible == a.visible,
        dispatched(a, key, now).0.selected == a.selected,
        dispatched(a, key, now).0.filter == a.filter,
        dispatched(a, key, now).0.views == a.views,
        dispatched(a, key, now).0.focus == a.focus,
{
}

/// Whether the ports of a scan are finitely many.
pub open spec fn finite_event(e: EventView) -> bool {
    match e {
        EventView::Progress { .. } => true,
        EventView::Done { result, batches } => result.ports.dom().finite(),
    }
}

proof fn lemma_events(a: AppView, events: Seq<EventView>, files: Map<Str, SavedView>)
    requires
        sound(a),
        forall|i: int| 0 <= i < events.len() ==> finite_event(#[trigger] events[i]),
    ensures
        ({
            let d = after_events(a, events, files);
            &&& d.app.session.ports.dom().finite()
            &&& d.merged is None ==> sound(d.app)
        }),
    decreases events.len(),
{
    if events.len() > 0 {
        let less = events.drop_last();
        assert forall|i: int| 0 <= i < less.len() implies finite_event(#[trigger] less[i]) by {
            assert(less[i] == events[i]);
        }
        lemma_events(a, less, files);
        let d = after_events(a, less, files);
        match events.last() {
            EventView::Progress { .. } => {},
            EventView::Done { result, batches } => {
                assert(finite_event(events[events.len() - 1]));
                let v = d.app.session;
                let m = merged(v, result.ports, result.aliases, files);
                let all = v.ports.dom().union(result.ports.dom());
                assert(m.ports.dom().subset_of(all));
                vstd::set_lib::lemma_set_subset_finite(all, m.ports.dom());
            },
        }
    }
}

/// Background refreshes keep the interface in a state that makes sense,
/// whatever ports they bring or take.
pub proof fn law_refresh_keeps_sound(
    a: AppView,
    events: Seq<EventView>,
    files: Map<Str, SavedView>,
)
    requires
        sound(a),
        forall|i: int| 0 <= i < events.len() ==> finite_event(#[trigger] events[i]),
    ensures
        sound(drained(after_events(a, events, files))),
{
    lemma_events(a, events, files);
    let d = after_events(a, events, files);
    let b = if d.app.refreshing == 0 {
        AppView { refresh_progress: None, ..d.app }
    } else {
        d.app
    };
    lemma_listed(b, selected_of(b));
}

} // verus!
