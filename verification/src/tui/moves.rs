//! What keys, changes and refreshes come to.
use vstd::prelude::*;

use crate::apply::{failures, ChoiceView};
use crate::list::{lemma_filter_holds, lookup};
use crate::model::options::OptionsView;
use crate::model::origin::{key_text, KeyView, PortKey};
use crate::model::port::InfoView;
use crate::optionsfile::{rendered, SavedView};
use crate::query::refresher::EventView;
use crate::query::scanner::ResultView;
use crate::session::base::{SessionView, StateView};
use crate::session::edit::{bulk, defaults_of, is_dirty, toggled};
use crate::session::layers::diff_tokens;
use crate::session::reach::{joined_scan, live, merged};
use crate::session::status::{status_of, UiStatus};
use crate::sorted::{lemma_ordered, ordered};
use crate::text::{decimal, join, law_cut, lemma_trim_clean, space, Str};
use crate::tui::actions::{bulk_decided, decision_of, put_down, reset_at, reverted_at};
use crate::tui::actions::{toggled_at, undone, warning_of};
use crate::tui::app::{at_index, at_problem, moved_by, problem_from, row_after};
use crate::tui::app::{selected_of, with_list, AppView, Focus, ModalView};
use crate::tui::dispatch::{at_any, at_bulk, at_editor, at_filter, at_help, at_list, at_modal};
use crate::tui::dispatch::{at_flavor, dispatched, next_of, KeyOutcome};
use crate::tui::editor::option_at;
use crate::tui::keys::{KeyCode, KeyEvent};
use crate::tui::list::{effective, Views};
use crate::tui::modal::{choices_of, done_text, plan_of, with_plan};
use crate::tui::overlay::{jumped, saved_value, why_entries, why_moved};
use crate::tui::refresh::{after_event, blame_for, due_ports, files_of, merge_counts, DrainView};
use crate::tui::refresh::FileView;

verus! {

// ---------------------------------------------------------------------
// Keys
// ---------------------------------------------------------------------

/// Whether the panes have the keys: no overlay and no prompt is open.
pub open spec fn bare(a: AppView) -> bool {
    !a.quit_confirm && a.modal is None && a.bulk is None && a.help_tab is None && a.port_help
        is None && a.why is None && a.opt_info is None
}

/// A key by itself.
pub open spec fn pressed(c: char) -> KeyEvent {
    KeyEvent { code: KeyCode::Char(c), ctrl: false, alt: false }
}

/// Each view has its key, which turns it over and no other, and leaves the session
/// and the filter alone.
pub proof fn law_view_keys(a: AppView, c: char, now: u64)
    requires
        bare(a),
        a.focus != Focus::Filter,
        c == 't' || c == 'm' || c == 'w' || c == 's',
    ensures
        ({
            let b = dispatched(a, pressed(c), now).0;
            let w = a.views;
            &&& b.views == (Views {
                hide_ok: w.hide_ok != (c == 't'),
                mc_relax: w.mc_relax != (c == 'm'),
                warn_mc: w.warn_mc != (c == 'w'),
                by_name: w.by_name != (c == 's'),
            })
            &&& b.session == a.session && b.filter == a.filter
        }),
{
    let r = at_any(a, KeyCode::Char(c), now);
    assert(r is Some);
    assert(dispatched(a, pressed(c), now) == r->0);
}

/// What the keys that reach beyond the panes ask for.
pub proof fn law_command_keys(a: AppView, c: char, now: u64)
    requires
        bare(a),
        a.focus != Focus::Filter,
    ensures
        ({
            let r = dispatched(a, pressed(c), now);
            &&& c == 'a' ==> r == (a, KeyOutcome::PlanApply)
            &&& c == '/' ==> r == (AppView { focus: Focus::Filter, ..a }, KeyOutcome::Continue)
            &&& c == 'B' ==> r == (AppView { bulk: Some(Seq::empty()), ..a }, KeyOutcome::Continue)
            &&& c == '?' ==> r.0.help_tab == Some(0usize)
            &&& c == 'q' && is_dirty(a.session) ==> r == (
                AppView { quit_confirm: true, ..a },
                KeyOutcome::Continue,
            )
            &&& c == 'q' && !is_dirty(a.session) ==> r == (a, KeyOutcome::Quit)
            &&& c == 'U' ==> r.0 == undone(a, now)
        }),
{
    let r = at_any(a, KeyCode::Char(c), now);
    if r is Some {
        assert(dispatched(a, pressed(c), now) == r->0);
    }
}

/// The quit prompt: a draft is saved, the edits are given up, or the session goes
/// on.
pub proof fn law_quit_prompt(a: AppView, code: KeyCode, now: u64)
    requires
        a.quit_confirm,
    ensures
        ({
            let r = dispatched(a, KeyEvent { code, ctrl: false, alt: false }, now);
            &&& r.1 == KeyOutcome::SaveDraft <==> code == KeyCode::Char('s') || code
                == KeyCode::Char('S')
            &&& r.1 == KeyOutcome::Quit <==> code == KeyCode::Char('d') || code == KeyCode::Char(
                'D',
            ) || code == KeyCode::Char('y') || code == KeyCode::Char('Y')
            &&& r.1 != KeyOutcome::SaveDraft && r.1 != KeyOutcome::Quit ==> r == (
                AppView { quit_confirm: false, ..a },
                KeyOutcome::Continue,
            )
        }),
{
}

/// Only a few keys change what is staged: those of the editor that toggle, reset
/// and revert, undoing, and a bulk decision that is entered.
#[verifier::spinoff_prover]
#[verifier::rlimit(50)]
pub proof fn law_few_keys_edit(a: AppView, key: KeyEvent, now: u64)
    requires
        dispatched(a, key, now).0.session != a.session,
    ensures
        (a.bulk is Some && key.code == KeyCode::Enter) || (bare(a) && a.focus == Focus::Editor && (
        key.code == KeyCode::Char(' ') || key.code == KeyCode::Enter || key.code == KeyCode::Char(
            'd',
        ) || key.code == KeyCode::Char('u') || key.code == KeyCode::Char('U'))) || (bare(a)
            && a.focus == Focus::List && key.code == KeyCode::Char('U')),
{
}

/// What the keys of the editor do.
pub proof fn law_editor_keys(a: AppView, code: KeyCode, now: u64)
    requires
        bare(a),
        a.focus == Focus::Editor,
    ensures
        ({
            let r = dispatched(a, KeyEvent { code, ctrl: false, alt: false }, now).0;
            &&& code == KeyCode::Char(' ') || code == KeyCode::Enter ==> r == toggled_at(a, now)
            &&& code == KeyCode::Char('d') ==> r == reset_at(a, now)
            &&& code == KeyCode::Char('u') ==> r == reverted_at(a, now)
            &&& code == KeyCode::Esc ==> r == (AppView { focus: Focus::List, ..a })
        }),
{
    if at_any(a, code, now) is None {
        assert(dispatched(a, KeyEvent { code, ctrl: false, alt: false }, now).0 == at_editor(
            a,
            code,
            now,
        ));
    }
}

/// What is typed goes into the filter while it is typed, and into a bulk decision
/// while that is; backspace takes the last character back.
pub proof fn law_typing(a: AppView, text: Str, code: KeyCode, c: char, now: u64)
    requires
        bare(a),
        a.focus == Focus::Filter,
    ensures
        ({
            let r = dispatched(a, KeyEvent { code, ctrl: false, alt: false }, now).0;
            &&& code == KeyCode::Char(c) ==> r.filter == a.filter.push(c)
            &&& code == KeyCode::Backspace && a.filter.len() > 0 ==> r.filter
                == a.filter.drop_last()
            &&& code == KeyCode::Esc ==> r.filter == Seq::<char>::empty() && r.focus == Focus::List
            &&& code == KeyCode::Enter ==> r.filter == a.filter && r.focus == Focus::List
        }),
        ({
            let b = AppView { bulk: Some(text), ..a };
            let r = dispatched(b, KeyEvent { code, ctrl: false, alt: false }, now).0;
            &&& code == KeyCode::Char(c) ==> r.bulk == Some(text.push(c))
            &&& code == KeyCode::Backspace && text.len() > 0 ==> r.bulk == Some(text.drop_last())
            &&& code == KeyCode::Esc || code == KeyCode::Enter ==> r.bulk is None
        }),
{
    let key = KeyEvent { code, ctrl: false, alt: false };
    let b = AppView { bulk: Some(text), ..a };
    assert(dispatched(a, key, now).0 == at_filter(a, code));
    assert(dispatched(b, key, now).0 == at_bulk(b, text, code, now));
}

// ---------------------------------------------------------------------
// The selection
// ---------------------------------------------------------------------

/// Moving in the list goes by just so many rows, and stops at its ends.
pub proof fn law_moves(a: AppView, i: nat, n: nat)
    requires
        a.selected == Some(i),
        i < a.visible.len(),
    ensures
        moved_by(a, n, true).selected == Some(
            if i + n < a.visible.len() {
                i + n
            } else {
                (a.visible.len() - 1) as nat
            },
        ),
        moved_by(a, n, false).selected == Some(
            if n <= i {
                (i - n) as nat
            } else {
                0
            },
        ),
        moved_by(a, n, true).visible == a.visible,
        moved_by(a, n, false).visible == a.visible,
        at_index(a, 0).selected == Some(0nat),
{
}

/// The keys of the list go where they say.
pub proof fn law_list_keys(a: AppView, i: nat, code: KeyCode, now: u64)
    requires
        bare(a),
        a.focus == Focus::List,
        a.selected == Some(i),
        i < a.visible.len(),
    ensures
        ({
            let r = dispatched(a, KeyEvent { code, ctrl: false, alt: false }, now).0;
            let n = a.visible.len();
            let down = code == KeyCode::Char('j') || code == KeyCode::Down;
            let up = code == KeyCode::Char('k') || code == KeyCode::Up;
            let top = code == KeyCode::Char('g') || code == KeyCode::Home;
            let end = code == KeyCode::Char('G') || code == KeyCode::End;
            &&& down && i + 1 < n ==> r.selected == Some(i + 1)
            &&& up && i > 0 ==> r.selected == Some((i - 1) as nat)
            &&& code == KeyCode::PageDown && i + 15 < n ==> r.selected == Some(i + 15)
            &&& code == KeyCode::PageUp && i >= 15 ==> r.selected == Some((i - 15) as nat)
            &&& top ==> r.selected == Some(0nat)
            &&& end ==> r.selected == Some((n - 1) as nat)
            &&& code == KeyCode::Enter && a.editor_rows.len() > 0 ==> r.focus == Focus::Editor
            &&& code == KeyCode::Char('n') ==> r == at_problem(a, true)
            &&& code == KeyCode::Char('p') ==> r == at_problem(a, false)
        }),
{
    if at_any(a, code, now) is None {
        assert(dispatched(a, KeyEvent { code, ctrl: false, alt: false }, now).0 == at_list(
            a,
            code,
        ));
    }
    law_moves(a, i, 1);
    law_moves(a, i, 15);
}

/// A port that was selected stays so where the rebuilt list still shows it.
pub proof fn law_selection_kept(a: AppView, k: KeyView)
    ensures
        ({
            let b = with_list(a, Some(k));
            &&& b.visible.contains(k) ==> selected_of(b) == Some(k)
            &&& !b.visible.contains(k) && b.visible.len() > 0 ==> b.selected == Some(0nat)
            &&& b.visible.len() == 0 ==> b.selected is None
        }),
{
    let b = with_list(a, Some(k));
    if b.visible.contains(k) {
        b.visible.index_of_first_ensures(k);
    }
}

/// Jumping to a port selects it where it is listed, and else says so and moves
/// nothing.
pub proof fn law_jump(a: AppView, k: KeyView)
    ensures
        a.visible.contains(k) ==> selected_of(jumped(a, k)) == Some(k),
        !a.visible.contains(k) ==> jumped(a, k) == (AppView {
            message: Some((key_text(k) + " is not in the list"@, true)),
            ..a
        }),
{
    if a.visible.contains(k) {
        a.visible.index_of_first_ensures(k);
    }
}

proof fn lemma_problem(a: AppView, at: nat, rows: nat, down: bool)
    requires
        a.visible.len() > 0,
    ensures
        problem_from(a, at, rows, down) matches Some(i) ==> i < a.visible.len() && match lookup(
            a.session.ports,
            a.visible[i as int],
        ) {
            Some(info) => effective(a.session, a.blacklist, a.views, info) != UiStatus::Okay,
            None => false,
        },
    decreases rows,
{
    if rows > 0 {
        let i = row_after(at, a.visible.len(), down);
        assert(i < a.visible.len());
        lemma_problem(a, i, (rows - 1) as nat, down);
    }
}

/// Looking for a problem selects a port that needs attention, the next one where
/// that is such a port, or says that there is none and moves nothing.
pub proof fn law_problem(a: AppView, i: nat, down: bool)
    requires
        a.selected == Some(i),
        i < a.visible.len(),
    ensures
        ({
            let b = at_problem(a, down);
            let needs = |k: KeyView|
                match lookup(a.session.ports, k) {
                    Some(info) => effective(a.session, a.blacklist, a.views, info)
                        != UiStatus::Okay,
                    None => false,
                };
            &&& (b.selected matches Some(j) && j < a.visible.len() && needs(a.visible[j as int]))
                || b == (AppView {
                message: Some(("no ports need attention"@, false)),
                ..a
            })
            &&& down && i + 1 < a.visible.len() && needs(a.visible[i as int + 1]) ==> b.selected
                == Some(i + 1)
            &&& down && i + 1 == a.visible.len() && needs(a.visible[0]) ==> b.selected == Some(0nat)
            &&& !down && i > 0 && needs(a.visible[i - 1]) ==> b.selected == Some((i - 1) as nat)
        }),
{
    let n = a.visible.len();
    assert(i % n == i) by {
        vstd::arithmetic::div_mod::lemma_small_mod(i, n);
    }
    lemma_problem(a, i, n, down);
}

// ---------------------------------------------------------------------
// Changes
// ---------------------------------------------------------------------

/// Toggling the option under the cursor: where it goes through, the session is
/// changed, the change can be undone and the port is put down for a re-query;
/// where it is refused, the reason is shown and nothing else happens.
pub proof fn law_toggle_key(a: AppView, key: KeyView, opt: Str, now: u64)
    requires
        selected_of(a) == Some(key),
        option_at(a.editor_rows, a.editor_idx) == Some(opt),
    ensures
        ({
            let b = toggled_at(a, now);
            let (session, r) = toggled(a.session, key, opt);
            match r {
                Ok(_) => {
                    &&& b.session == session
                    &&& b.pending == a.pending.insert(key, now)
                    &&& b.undo.len() == a.undo.len() + 1
                    &&& b.undo.drop_last() == a.undo
                    &&& b.visible == a.visible && b.selected == a.selected
                },
                Err(e) => b == (AppView { message: Some((e, true)), ..a }),
            }
        }),
{
    let b = toggled_at(a, now);
    assert(b.undo.len() == a.undo.len() + 1 ==> b.undo.drop_last() =~= a.undo);
}

/// A warning comes when an option is switched on that breaks the port or has it
/// ignored, and then only.
pub proof fn law_toggle_warns(o: OptionsView, st: StateView, opt: Str)
    ensures
        st.staged.contains(opt) ==> warning_of(o, Some(st), opt) is None,
        !o.defs.dom().contains(opt) ==> warning_of(o, Some(st), opt) is None,
        !st.staged.contains(opt) && o.defs.dom().contains(opt) ==> (warning_of(
            o,
            Some(st),
            opt,
        ) is Some <==> o.defs[opt].broken is Some || o.defs[opt].ignore is Some),
        !st.staged.contains(opt) && o.defs.dom().contains(opt) && o.defs[opt].broken is Some
            ==> warning_of(o, Some(st), opt) == Some(
            "warning: "@ + opt + " marks this port BROKEN: "@ + o.defs[opt].broken->0,
        ),
{
}

/// Resetting stages the defaults of the selected port, reverting what it started
/// from; the other states stay as they are, and either can be undone.
pub proof fn law_reset_and_revert(a: AppView, key: KeyView, now: u64, name: Str)
    requires
        selected_of(a) == Some(key),
        a.session.ports.dom().contains(key),
        a.session.states.dom().contains(a.session.ports[key].options_name),
    ensures
        ({
            let info = a.session.ports[key];
            let n = info.options_name;
            let r = reset_at(a, now);
            let s = reverted_at(a, now);
            &&& r.session.states[n].staged == defaults_of(info.options)
            &&& s.session.states[n].staged == a.session.states[n].baseline
            &&& name != n ==> r.session.states[name] == a.session.states[name]
            &&& name != n ==> s.session.states[name] == a.session.states[name]
            &&& r.session.states.dom() == a.session.states.dom()
            &&& s.session.states.dom() == a.session.states.dom()
            &&& r.session.ports == a.session.ports && s.session.ports == a.session.ports
            &&& r.pending == a.pending.insert(key, now) && s.pending == a.pending.insert(key, now)
            &&& r.undo.len() == a.undo.len() + 1 && s.undo.len() == a.undo.len() + 1
        }),
{
    let n = a.session.ports[key].options_name;
    assert(reset_at(a, now).session.states.dom() =~= a.session.states.dom());
    assert(reverted_at(a, now).session.states.dom() =~= a.session.states.dom());
}

/// A bulk decision is a name, `=`, and `on` or `off`; anything else is refused and
/// changes no port.
pub proof fn law_decision(name: Str, value: Str, text: Str, a: AppView, now: u64)
    requires
        name.len() > 0,
        forall|i: int| 0 <= i < name.len() ==> #[trigger] name[i] != '=' && !space(name[i]),
        value.len() > 0,
        !space(value[0]),
        !space(value.last()),
    ensures
        decision_of(name.push('=') + "on"@) == Some((name, true)),
        decision_of(name.push('=') + "off"@) == Some((name, false)),
        value != "on"@ && value != "off"@ ==> decision_of(name.push('=') + value) is None,
        decision_of(name) is None,
        decision_of(text) is None ==> bulk_decided(a, text, now) == (AppView {
            bulk: None,
            message: Some(("bulk wants OPTION=on or OPTION=off"@, true)),
            ..a
        }),
        decision_of(text) matches Some((opt, on)) ==> bulk_decided(a, text, now).session == bulk(
            a.session,
            a.visible,
            opt,
            on,
        ).session,
{
    reveal_strlit("on");
    reveal_strlit("off");
    law_cut(name, '=', "on"@);
    law_cut(name, '=', "off"@);
    law_cut(name, '=', value);
    assert(!space(name[0]) && !space(name[name.len() - 1]));
    lemma_trim_clean(name);
    assert("on"@[0] == 'o' && "on"@[1] == 'n' && "off"@[0] == 'o' && "off"@[2] == 'f');
    lemma_trim_clean("on"@);
    lemma_trim_clean("off"@);
    lemma_trim_clean(value);
    assert("on"@.len() != "off"@.len());
}

// ---------------------------------------------------------------------
// Refreshes
// ---------------------------------------------------------------------

/// A port is due three hundred milliseconds after it was last put down.
pub proof fn law_due(pending: Map<KeyView, u64>, now: u64, k: KeyView)
    requires
        pending.dom().finite(),
    ensures
        due_ports(pending, now).contains(k) <==> pending.dom().contains(k) && now >= pending[k]
            + 300,
{
    lemma_ordered::<PortKey>(pending.dom());
    lemma_filter_holds(
        ordered::<PortKey>(pending.dom()),
        crate::tui::refresh::is_due(pending, now),
    );
}

/// A re-query sees what is staged: the options file of each port asked for that is
/// there and has a state, and of no other.
pub proof fn law_staged_files(v: SessionView, keys: Seq<KeyView>, f: FileView)
    ensures
        files_of(v, keys).contains(f) <==> exists|i: int|
            0 <= i < keys.len() && f.key == #[trigger] keys[i] && v.ports.dom().contains(keys[i])
                && v.states.dom().contains(v.ports[keys[i]].options_name) && f.options_name
                == v.ports[keys[i]].options_name && f.content == rendered(
                v.ports[keys[i]].pkgname,
                v.ports[keys[i]].options.complete,
                v.states[v.ports[keys[i]].options_name].staged,
            ),
    decreases keys.len(),
{
    if keys.len() > 0 {
        let d = keys.drop_last();
        let n = keys.len() - 1;
        let before = files_of(v, d);
        let all = files_of(v, keys);
        law_staged_files(v, d, f);
        let p = |s: Seq<KeyView>, i: int|
            0 <= i < s.len() && f.key == s[i] && v.ports.dom().contains(s[i])
                && v.states.dom().contains(v.ports[s[i]].options_name) && f.options_name
                == v.ports[s[i]].options_name && f.content == rendered(
                v.ports[s[i]].pkgname,
                v.ports[s[i]].options.complete,
                v.states[v.ports[s[i]].options_name].staged,
            );
        assert(keys[n] == keys.last());
        if all.contains(f) {
            let j = choose|j: int| 0 <= j < all.len() && all[j] == f;
            if j < before.len() {
                assert(before[j] == f);
                let i = choose|i: int|
                    0 <= i < d.len() && f.key == #[trigger] d[i] && p(d, i);
                assert(keys[i] == d[i]);
                assert(p(keys, i));
            } else {
                assert(p(keys, n));
            }
        }
        if exists|i: int| 0 <= i < keys.len() && f.key == #[trigger] keys[i] && p(keys, i) {
            let i = choose|i: int| 0 <= i < keys.len() && f.key == #[trigger] keys[i] && p(keys, i);
            if i < n {
                assert(d[i] == keys[i]);
                assert(before.contains(f));
                let j = choose|j: int| 0 <= j < before.len() && before[j] == f;
                assert(all[j] == f);
            } else {
                assert(all[all.len() - 1] == f);
            }
        }
    }
}

/// Option changes are blamed exactly where a port is found broken or ignored that
/// was known and was neither, and something is staged for it.
pub proof fn law_blame(v: SessionView, key: KeyView, info: InfoView, st: StateView)
    requires
        v.states.dom().contains(info.options_name),
        v.states[info.options_name] == st,
    ensures
        blame_for(v, key, info) is Some <==> (info.broken is Some || info.ignore is Some)
            && v.ports.dom().contains(key) && v.ports[key].broken is None && v.ports[key].ignore
            is None && st.baseline != st.staged,
        blame_for(v, key, info) matches Some(t) ==> t == join(
            diff_tokens(st.baseline, st.staged),
            " "@,
        ),
{
}

/// A scan that has finished is merged, and is no longer counted as outstanding;
/// progress changes nothing else.
pub proof fn law_refresh_events(d: DrainView, e: EventView, files: Map<Str, SavedView>)
    ensures
        ({
            let next = after_event(d, e, files);
            match e {
                EventView::Progress { done, discovered } => next.app == (AppView {
                    refresh_progress: Some((done, discovered)),
                    ..d.app
                }) && next.merged == d.merged,
                EventView::Done { result, batches } => {
                    &&& next.app.session == merged(
                        d.app.session,
                        result.ports,
                        result.aliases,
                        files,
                    )
                    &&& next.merged is Some
                    &&& batches <= d.app.refreshing ==> next.app.refreshing + batches
                        == d.app.refreshing
                    &&& batches > d.app.refreshing ==> next.app.refreshing == 0
                    &&& result.errors.len() == 0 ==> next.app.message == d.app.message
                    &&& result.errors.len() > 0 ==> (next.app.message matches Some((m, error))
                        && error)
                    &&& next.app.pending == d.app.pending && next.app.undo == d.app.undo
                },
            }
        }),
{
}

// ---------------------------------------------------------------------
// Applying
// ---------------------------------------------------------------------

/// Every port of the session that has a state is applied as it is staged, and
/// nothing else is.
pub proof fn law_choices(v: SessionView, keys: Seq<KeyView>, c: ChoiceView)
    ensures
        choices_of(v, keys).contains(c) <==> exists|i: int|
            0 <= i < keys.len() && c.key == #[trigger] keys[i] && c.info == v.ports[keys[i]]
                && v.states.dom().contains(v.ports[keys[i]].options_name) && c.enabled
                == v.states[v.ports[keys[i]].options_name].staged,
    decreases keys.len(),
{
    if keys.len() > 0 {
        let d = keys.drop_last();
        let n = keys.len() - 1;
        let before = choices_of(v, d);
        let all = choices_of(v, keys);
        law_choices(v, d, c);
        let p = |s: Seq<KeyView>, i: int|
            c.info == v.ports[s[i]] && v.states.dom().contains(v.ports[s[i]].options_name)
                && c.enabled == v.states[v.ports[s[i]].options_name].staged;
        assert(keys[n] == keys.last());
        if all.contains(c) {
            let j = choose|j: int| 0 <= j < all.len() && all[j] == c;
            if j < before.len() {
                assert(before[j] == c);
                let i = choose|i: int| 0 <= i < d.len() && c.key == #[trigger] d[i] && p(d, i);
                assert(keys[i] == d[i]);
                assert(p(keys, i));
            } else {
                assert(p(keys, n));
            }
        }
        if exists|i: int| 0 <= i < keys.len() && c.key == #[trigger] keys[i] && p(keys, i) {
            let i = choose|i: int| 0 <= i < keys.len() && c.key == #[trigger] keys[i] && p(keys, i);
            if i < n {
                assert(d[i] == keys[i]);
                assert(before.contains(c));
                let j = choose|j: int| 0 <= j < before.len() && before[j] == c;
                assert(all[j] == c);
            } else {
                assert(all[all.len() - 1] == c);
            }
        }
    }
}

/// The preview shows the plan and the listed ports that conflict, and does not
/// open where there is nothing to write or to remove.
pub proof fn law_preview(a: AppView, files: Map<Str, SavedView>, k: KeyView)
    ensures
        ({
            let p = plan_of(a.session, a.options_dir, files);
            let b = with_plan(a, files);
            &&& p.writes.len() == 0 && p.removals.len() == 0 ==> b.modal == a.modal
            &&& p.writes.len() > 0 || p.removals.len() > 0 ==> (b.modal matches Some(m) && {
                &&& m.writes == p.writes && m.removals == p.removals && m.warnings == p.warnings
                &&& m.done is None && m.scroll == 0
                &&& m.conflicted.contains(k) <==> a.visible.contains(k) && a.session.ports.dom().contains(
                    k,
                ) && status_of(a.session, a.session.ports[k]) == UiStatus::Conflict
            })
            &&& b.session == a.session
        }),
{
    lemma_filter_holds(a.visible, crate::tui::modal::conflicting(a.session));
}

/// What is said of an apply counts the files that were written, and an apply
/// without failures and removals says no more.
pub proof fn law_apply_said(
    m: ModalView,
    dir: Str,
    written: Seq<Result<(), String>>,
    removed: Seq<Result<(), String>>,
)
    ensures
        failures(m.writes, written).len() == 0 && removed.len() == 0 ==> done_text(
            m,
            dir,
            written,
            removed,
        ) == decimal(m.writes.len()) + " file(s) written to "@ + dir,
{
    if failures(m.writes, written).len() == 0 && removed.len() == 0 {
        let none = Seq::<char>::empty();
        let t = decimal(m.writes.len()) + " file(s) written to "@ + dir;
        assert(t + none + none =~= t);
    }
}

// ---------------------------------------------------------------------
// Details
// ---------------------------------------------------------------------

/// What a saved file says of an option: what it sets is on, what it unsets is off,
/// and of others it says nothing.
pub proof fn law_saved_value(v: SessionView, info: InfoView, s: SavedView, opt: Str)
    requires
        v.states.dom().contains(info.options_name),
        v.states[info.options_name].saved == Some(s),
    ensures
        s.set.contains(opt) ==> saved_value(v, info, opt) == Some(true),
        !s.set.contains(opt) && s.unset.contains(opt) ==> saved_value(v, info, opt) == Some(false),
        !s.set.contains(opt) && !s.unset.contains(opt) ==> saved_value(v, info, opt) is None,
{
}

/// An explanation offers the chain and at most fifteen dependents, and its
/// selection stays among them.
pub proof fn law_why(w: crate::tui::app::WhyView, down: bool)
    ensures
        ({
            let c = match w.chain {
                Some(c) => c,
                None => Seq::empty(),
            };
            let e = why_entries(w);
            &&& w.dependents.len() <= 15 ==> e == c + w.dependents
            &&& w.dependents.len() > 15 ==> e == c + w.dependents.take(15)
            &&& w.selected < e.len() ==> why_moved(w, down).selected < e.len()
            &&& w.selected + 1 < e.len() && e.len() <= usize::MAX ==> why_moved(w, true).selected
                == w.selected + 1
            &&& w.selected > 0 ==> why_moved(w, false).selected == w.selected - 1
        }),
{
    if w.dependents.len() <= 15 {
        assert(w.dependents.take(w.dependents.len() as int) =~= w.dependents);
    }
}

// ---------------------------------------------------------------------
// Other keys
// ---------------------------------------------------------------------

/// The help: a digit opens its tab, tab and the arrows go round, and any other key
/// closes it.
pub proof fn law_help_keys(a: AppView, tab: usize, code: KeyCode, now: u64)
    requires
        !a.quit_confirm,
        a.modal is None,
        a.bulk is None,
        a.help_tab == Some(tab),
        tab < 4,
    ensures
        ({
            let t = dispatched(a, KeyEvent { code, ctrl: false, alt: false }, now).0.help_tab;
            let on = code == KeyCode::Tab || code == KeyCode::Right;
            let back = code == KeyCode::BackTab || code == KeyCode::Left;
            &&& code == KeyCode::Char('1') ==> t == Some(0usize)
            &&& code == KeyCode::Char('2') ==> t == Some(1usize)
            &&& code == KeyCode::Char('3') ==> t == Some(2usize)
            &&& code == KeyCode::Char('4') ==> t == Some(3usize)
            &&& on && tab < 3 ==> t == Some((tab + 1) as usize)
            &&& on && tab == 3 ==> t == Some(0usize)
            &&& back && tab > 0 ==> t == Some((tab - 1) as usize)
            &&& back && tab == 0 ==> t == Some(3usize)
            &&& code == KeyCode::Down || code == KeyCode::Up ==> t == Some(tab)
            &&& code == KeyCode::Esc || code == KeyCode::Char('q') ==> t is None
        }),
{
    let next = dispatched(a, KeyEvent { code, ctrl: false, alt: false }, now).0;
    assert(next == at_help(a, tab, code));
}

/// The preview: it is confirmed with `y`, scrolled with the arrows, and closed with
/// any other key; once done, with any key at all.
pub proof fn law_preview_keys(a: AppView, m: ModalView, code: KeyCode, now: u64)
    requires
        !a.quit_confirm,
        a.modal == Some(m),
        m.scroll < usize::MAX,
    ensures
        ({
            let r = dispatched(a, KeyEvent { code, ctrl: false, alt: false }, now);
            let asked = m.done is None;
            &&& m.done is Some ==> r.0.modal is None && r.1 == KeyOutcome::Continue
            &&& asked && code == KeyCode::Char('y') ==> r == (a, KeyOutcome::WriteFiles)
            &&& asked && code == KeyCode::Down ==> r.0.modal == Some(
                ModalView { scroll: m.scroll + 1, ..m },
            )
            &&& asked && code == KeyCode::Up && m.scroll > 0 ==> r.0.modal == Some(
                ModalView { scroll: (m.scroll - 1) as nat, ..m },
            )
            &&& asked && (code == KeyCode::Esc || code == KeyCode::Char('n')) ==> r.0.modal is None
        }),
{
    assert(dispatched(a, KeyEvent { code, ctrl: false, alt: false }, now) == at_modal(a, m, code));
}

/// The next flavor is the one after the selected port among the ports of its
/// origin, and the first after the last.
pub proof fn law_next_flavor(keys: Seq<KeyView>, i: int)
    requires
        keys.no_duplicates(),
        0 <= i < keys.len(),
    ensures
        keys.len() == 1 ==> next_of(keys, keys[i]) is None,
        i + 1 < keys.len() ==> next_of(keys, keys[i]) == Some(keys[i + 1]),
        i + 1 == keys.len() && keys.len() > 1 ==> next_of(keys, keys[i]) == Some(keys[0]),
{
    keys.index_of_first_ensures(keys[i]);
}

/// Every port of a change is put down for a re-query, and the others wait as they
/// did.
pub proof fn law_put_down(pending: Map<KeyView, u64>, keys: Seq<KeyView>, now: u64, k: KeyView)
    ensures
        keys.contains(k) ==> put_down(pending, keys, now).dom().contains(k) && put_down(
            pending,
            keys,
            now,
        )[k] == now,
        !keys.contains(k) ==> lookup(put_down(pending, keys, now), k) == lookup(pending, k),
    decreases keys.len(),
{
    if keys.len() > 0 {
        let d = keys.drop_last();
        law_put_down(pending, d, now, k);
        assert(keys[keys.len() - 1] == keys.last());
        if d.contains(k) {
            let i = choose|i: int| 0 <= i < d.len() && d[i] == k;
            assert(keys[i] == k);
        }
        if keys.contains(k) && k != keys.last() {
            let i = choose|i: int| 0 <= i < keys.len() && keys[i] == k;
            assert(d[i] == k);
        }
    }
}

/// Looking for another flavor goes to a listed port of the same origin, or moves
/// nothing.
pub proof fn law_flavor_key(a: AppView, key: KeyView)
    requires
        selected_of(a) == Some(key),
        a.session.ports.dom().finite(),
    ensures
        ({
            let b = at_flavor(a);
            &&& b.session == a.session && b.visible == a.visible
            &&& b.selected != a.selected ==> (selected_of(b) matches Some(k) && k.origin
                == key.origin && a.session.ports.dom().contains(k))
        }),
{
    let q = ordered::<PortKey>(a.session.ports.dom());
    lemma_ordered::<PortKey>(a.session.ports.dom());
    let p = |k: KeyView| k.origin == key.origin;
    lemma_filter_holds(q, p);
    let keys = q.filter(p);
    if let Some(k) = next_of(keys, key) {
        keys.index_of_first_ensures(key);
        assert(keys.contains(k));
        assert(k.origin == key.origin && q.contains(k));
        law_jump(a, k);
    }
}

/// What is said of a merge: the ports that are there and were not before, and those
/// that were there or were scanned and are not there now.
pub proof fn law_merge_counts(v: SessionView, r: ResultView, files: Map<Str, SavedView>)
    ensures
        ({
            let m = merged(v, r.ports, r.aliases, files);
            let (added, removed) = merge_counts(v, r, files);
            &&& added == m.ports.dom().difference(v.ports.dom()).len()
            &&& removed == v.ports.dom().union(r.ports.dom()).difference(m.ports.dom()).len()
        }),
{
    let mid = joined_scan(v, r.ports, r.aliases, files);
    let m = merged(v, r.ports, r.aliases, files);
    assert(mid.ports.dom() =~= v.ports.dom().union(r.ports.dom()));
    assert(m.ports.dom() =~= mid.ports.dom().intersect(live(mid)));
    assert(r.ports.dom().difference(v.ports.dom()).intersect(live(mid)) =~= m.ports.dom().difference(
        v.ports.dom(),
    ));
    assert(mid.ports.dom().difference(live(mid)) =~= v.ports.dom().union(
        r.ports.dom(),
    ).difference(m.ports.dom()));
}

} // verus!
