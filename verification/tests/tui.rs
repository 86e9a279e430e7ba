use optique::config::Blacklist;
use optique::model::options::{OptionSet, PortOptions};
use optique::model::origin::PortKey;
use optique::model::port::{DepEdge, PortInfo};
use optique::optionsfile::SavedOptionsFile;
use optique::query::refresher::RefreshEvent;
use optique::query::scanner::ScanResult;
use optique::session::base::Session;
use optique::session::status::UiStatus;
use optique::sorted::{SortedMap, SortedSet};
use optique::tui::app::{build_app, App, Focus};
use optique::tui::dispatch::KeyOutcome;
use optique::tui::editor::{move_cursor, select_first, EditorRow};
use optique::tui::help::{help_overlay, help_tab, HELP_TAB_COUNT};
use optique::tui::keys::{bare_key, parse_key_spec, KeyCode, KeyEvent};
use optique::tui::lines::Area;
use optique::tui::list::{passes_filter, visible_ports, Views};
use optique::tui::refresh::REFRESH_DEBOUNCE;
use optique::tui::style::Line;

type Files = SortedMap<String, SavedOptionsFile>;

fn key(text: &str) -> PortKey {
    PortKey::parse(text).unwrap()
}

fn set(opts: &[&str]) -> OptionSet {
    let list: Vec<String> = opts.iter().map(|o| o.to_string()).collect();
    SortedSet::from_list(&list)
}

fn info(origin: &str, deps: &[&str], complete: &[&str], on: &[&str]) -> PortInfo {
    let k = key(origin);
    let mut options = PortOptions::default();
    options.complete = complete.iter().map(|o| o.to_string()).collect();
    options.defaults = set(on);
    options.effective = set(on);
    PortInfo {
        key: k.clone(),
        canonical: k,
        pkgname: format!("{}-1.0", origin.split('/').next_back().unwrap()),
        flavors: vec![],
        options_name: origin.replace('/', "_"),
        options,
        deps: deps.iter().map(|d| DepEdge { target: key(d), raw: d.to_string() }).collect(),
        broken: None,
        ignore: None,
        deprecated: None,
        pkg_help: None,
        default_versions: vec![],
        warnings: vec![],
    }
}

/// Three ports with options, the middle one saved as it is, and one without.
fn app() -> App {
    let mut ports = SortedMap::new();
    for i in [
        info("cat/alpha", &["cat/beta", "cat/gamma", "cat/plain"], &["DOCS", "SSL"], &["SSL"]),
        info("cat/beta", &[], &["X11"], &[]),
        info("cat/gamma", &[], &["NLS"], &["NLS"]),
        info("cat/plain", &[], &[], &[]),
    ] {
        ports.insert(i.canonical.clone(), i);
    }
    let mut files = Files::new();
    files.insert(
        "cat_beta".into(),
        SavedOptionsFile::parse("_FILE_COMPLETE_OPTIONS_LIST=X11\nOPTIONS_FILE_UNSET+=X11\n"),
    );
    let roots = vec![key("cat/alpha")];
    let session = Session::new(ports, SortedMap::new(), &roots, &files, false);
    build_app(session, "/options".into(), Blacklist::none())
}

fn press(app: &mut App, spec: &str) -> KeyOutcome {
    app.dispatch_key(parse_key_spec(spec).unwrap(), 0)
}

fn type_text(app: &mut App, text: &str) {
    for c in text.chars() {
        app.dispatch_key(bare_key(KeyCode::Char(c)), 0);
    }
}

fn shown(app: &App) -> Vec<String> {
    app.visible.iter().map(|k| k.to_string()).collect()
}

fn text_of(l: &Line) -> String {
    l.spans.iter().map(|s| s.text.as_str()).collect()
}

fn staged(app: &App, k: &str) -> Vec<String> {
    let info = app.session.ports.get(&key(k)).unwrap();
    app.session.state(info).unwrap().staged.to_list()
}

#[test]
fn problems_come_first_and_plain_ports_are_hidden() {
    let app = app();
    assert_eq!(shown(&app), vec!["cat/alpha", "cat/gamma", "cat/beta"]);
    assert_eq!(app.hidden, 1);
    assert_eq!(app.selected_key(), Some(key("cat/alpha")));
    assert_eq!(app.focus, Focus::List);
    assert_eq!(app.overlay_name(), "none");
    assert_eq!(app.focus_name(), "list");
}

#[test]
fn the_list_shows_exactly_what_passes() {
    let app = app();
    let w = Views { hide_ok: true, mc_relax: false, warn_mc: false, by_name: true };
    let (keys, listable) = visible_ports(&app.session, &app.blacklist, w, "");
    let names: Vec<String> = keys.iter().map(|k| k.to_string()).collect();
    assert_eq!(names, vec!["cat/alpha", "cat/gamma"]);
    assert_eq!(listable, 3);
}

#[test]
fn filters_match_origins_and_packages() {
    assert!(passes_filter("alp", "cat/alpha", "x-1.0"));
    assert!(passes_filter("alp", "cat/x", "alpha-1.0"));
    assert!(!passes_filter("beta", "cat/alpha", "alpha-1.0"));
    assert!(passes_filter("", "cat/alpha", "alpha-1.0"));
}

#[test]
fn filters_ignore_the_case_of_what_is_typed() {
    let app = app();
    let shown = |filter: &str| visible_ports(&app.session, &app.blacklist, app.views, filter).0;
    assert_eq!(shown("GAMMA"), vec![key("cat/gamma")]);
    assert_eq!(shown("gamma"), vec![key("cat/gamma")]);
    assert!(shown("GAMMAS").is_empty());
}

#[test]
fn typing_a_filter_narrows_the_list() {
    let mut app = app();
    press(&mut app, "/");
    assert_eq!(app.focus, Focus::Filter);
    type_text(&mut app, "GAM");
    assert_eq!(shown(&app), vec!["cat/gamma"]);
    press(&mut app, "backspace");
    assert_eq!(app.filter, "GA");
    press(&mut app, "enter");
    assert_eq!(app.focus, Focus::List);
}

#[test]
fn a_toggle_is_staged_and_can_be_undone() {
    let mut app = app();
    press(&mut app, "enter");
    assert_eq!(app.focus, Focus::Editor);
    assert!(matches!(app.editor_rows[app.editor_idx], EditorRow::Option(_)));
    press(&mut app, "space");
    assert_eq!(staged(&app, "cat/alpha"), vec!["DOCS", "SSL"]);
    let alpha = app.session.ports.get(&key("cat/alpha")).unwrap();
    assert_eq!(app.session.status(alpha), UiStatus::Edited);
    assert_eq!(app.pending.len(), 1);
    press(&mut app, "U");
    assert_eq!(staged(&app, "cat/alpha"), vec!["SSL"]);
    assert!(!app.session.dirty());
}

#[test]
fn resets_and_reverts_can_be_undone() {
    let mut app = app();
    press(&mut app, "enter");
    press(&mut app, "space");
    let edited = vec!["DOCS", "SSL"];
    assert_eq!(staged(&app, "cat/alpha"), edited);
    app.reset_current(1);
    assert_eq!(staged(&app, "cat/alpha"), vec!["SSL"]);
    app.undo_last(2);
    assert_eq!(staged(&app, "cat/alpha"), edited);
    app.revert_current(3);
    assert_eq!(staged(&app, "cat/alpha"), vec!["SSL"]);
    app.undo_last(4);
    assert_eq!(staged(&app, "cat/alpha"), edited);
}

#[test]
fn quitting_with_edits_asks_first() {
    let mut app = app();
    assert_eq!(press(&mut app, "q"), KeyOutcome::Quit);
    press(&mut app, "enter");
    press(&mut app, "space");
    press(&mut app, "esc");
    assert_eq!(press(&mut app, "q"), KeyOutcome::Continue);
    assert!(app.quit_confirm);
    // The question takes every key: nothing else reacts.
    assert_eq!(press(&mut app, "j"), KeyOutcome::Continue);
    assert_eq!(app.selected_key(), Some(key("cat/alpha")));
    assert!(!app.quit_confirm, "any other key stays");
    press(&mut app, "q");
    assert_eq!(press(&mut app, "s"), KeyOutcome::SaveDraft);
}

#[test]
fn files_are_written_only_after_the_preview() {
    let mut app = app();
    press(&mut app, "enter");
    press(&mut app, "space");
    assert_eq!(press(&mut app, "ctrl-x"), KeyOutcome::Continue);
    assert_eq!(press(&mut app, "a"), KeyOutcome::PlanApply);
    let files = Files::new();
    app.open_apply_modal(&files);
    let n = app.modal.as_ref().unwrap().writes.len();
    assert!(n > 0);
    assert_eq!(app.overlay_name(), "apply");
    assert_eq!(press(&mut app, "y"), KeyOutcome::WriteFiles);

    let mut written = Files::new();
    for w in &app.modal.as_ref().unwrap().writes {
        written.insert(w.options_name.clone(), SavedOptionsFile::parse(&w.content));
    }
    let ok = (0..n).map(|_| Ok(())).collect();
    app.finish_apply(&ok, &vec![], &written);
    assert!(app.modal.as_ref().unwrap().done.is_some());
    assert!(!app.session.dirty(), "what was written is the new baseline");
}

#[test]
fn edits_are_handed_out_after_the_debounce() {
    let mut app = app();
    press(&mut app, "enter");
    app.dispatch_key(bare_key(KeyCode::Char(' ')), 1000);
    assert!(!app.is_settled());
    assert!(app.take_due(1000 + REFRESH_DEBOUNCE - 1).is_empty());
    let due = app.take_due(1000 + REFRESH_DEBOUNCE);
    assert_eq!(due.len(), 1);
    assert_eq!(due[0].key, key("cat/alpha"));
    assert_eq!(due[0].options_name, "cat_alpha");
    let saved = SavedOptionsFile::parse(&due[0].content);
    assert!(saved.set.has("DOCS") && saved.set.has("SSL"));
    assert!(app.take_due(u64::MAX).is_empty(), "nothing is handed out twice");
    app.refresh_sent();
    assert_eq!(app.refreshing, 1);

    // The refresh lands: the port no longer needs cat/gamma.
    let mut result = ScanResult::default();
    let alpha = info("cat/alpha", &["cat/beta"], &["DOCS", "SSL"], &["SSL"]);
    result.ports.insert(key("cat/alpha"), alpha);
    let events = vec![
        RefreshEvent::Progress { done: 0, discovered: 1 },
        RefreshEvent::Done { result, batches: 1 },
    ];
    app.drain_refresh_events(&events, &Files::new());
    assert!(app.is_settled());
    assert_eq!(app.refresh_progress, None);
    assert!(!app.session.ports.contains_key(&key("cat/gamma")));
    assert_eq!(staged(&app, "cat/alpha"), vec!["DOCS", "SSL"]);
}

#[test]
fn why_shows_the_chain_and_jumps() {
    let mut app = app();
    press(&mut app, "j");
    press(&mut app, "r");
    let why = app.why.as_ref().unwrap();
    assert_eq!(why.key, key("cat/gamma"));
    assert_eq!(why.chain, Some(vec![key("cat/alpha"), key("cat/gamma")]));
    assert_eq!(why.dependents, vec![key("cat/alpha")]);
    assert_eq!(app.overlay_name(), "why");
    press(&mut app, "esc");
    assert!(app.why.is_none());
    app.jump_to(&key("cat/beta"));
    assert_eq!(app.selected_key(), Some(key("cat/beta")));
}

#[test]
fn help_pages_turn_and_close() {
    let mut app = app();
    press(&mut app, "?");
    assert_eq!(app.help_tab, Some(0));
    press(&mut app, "tab");
    assert_eq!(app.help_tab, Some(1));
    press(&mut app, "esc");
    assert_eq!(app.help_tab, None);
    for i in 0..HELP_TAB_COUNT {
        assert!(!help_tab(i).is_empty());
        assert!(!help_overlay(i).is_empty());
    }
}

#[test]
fn bulk_decisions_reach_every_shown_port() {
    let mut app = app();
    app.bulk_commit("NLS=off", 5);
    assert!(staged(&app, "cat/gamma").is_empty());
    let (text, error) = app.message.clone().unwrap();
    assert!(!error, "{text}");
    app.bulk_commit("nonsense", 5);
    assert!(app.message.clone().unwrap().1);
    app.undo_last(6);
    assert_eq!(staged(&app, "cat/gamma"), vec!["NLS"]);
}

#[test]
fn the_selection_stays_in_the_list() {
    let mut app = app();
    press(&mut app, "pgdn");
    assert_eq!(app.selected, Some(2));
    press(&mut app, "j");
    assert_eq!(app.selected, Some(2));
    press(&mut app, "home");
    assert_eq!(app.selected, Some(0));
    press(&mut app, "k");
    assert_eq!(app.selected, Some(0));
}

#[test]
fn port_lines_name_the_port() {
    let app = app();
    let k = key("cat/alpha");
    let line = app.port_line(&k, app.session.ports.get(&k).unwrap());
    assert!(text_of(&line).contains("cat/alpha"));
    assert!(app.list_title().contains('3'));
}

#[test]
fn detail_and_editor_share_the_pane() {
    let mut app = app();
    press(&mut app, "enter");
    let info = app.session.ports.get(&key("cat/alpha")).unwrap();
    let area = Area { x: 0, y: 1, width: 60, height: 20 };
    let (top, bottom) = app.split_detail(info, area);
    assert_eq!((top.x, top.y, top.width), (0, 1, 60));
    match bottom {
        Some(b) => {
            // The two boxes share a border line.
            assert_eq!(b.y, top.y + top.height - 1);
            assert_eq!(top.height + b.height, 21);
        }
        None => assert_eq!(top.height, 20),
    }
    assert!(app.editor_scroll(info, 20) <= app.editor_idx);
}

#[test]
fn modified_keys_are_other_keys() {
    let mut app = app();
    let ctrl_q = KeyEvent { code: KeyCode::Char('c'), ctrl: true, alt: false };
    assert_eq!(app.dispatch_key(ctrl_q, 0), KeyOutcome::Quit);
}

#[test]
fn the_cursor_only_stands_on_options() {
    let rows = vec![
        EditorRow::GroupHeader(0),
        EditorRow::Option("A".into()),
        EditorRow::GroupHeader(1),
        EditorRow::Option("B".into()),
        EditorRow::ObsoleteHeader,
    ];
    assert_eq!(select_first(&rows), 1);
    assert_eq!(move_cursor(&rows, 1, true), 3);
    assert_eq!(move_cursor(&rows, 3, true), 3);
    assert_eq!(move_cursor(&rows, 3, false), 1);
    assert_eq!(move_cursor(&rows, 1, false), 1);
}

#[test]
fn an_open_overlay_takes_every_key() {
    let mut app = app();
    press(&mut app, "?");
    press(&mut app, "j");
    assert_eq!(app.help_tab, None, "any other key closes the help");
    assert_eq!(app.selected, Some(0));
    press(&mut app, "B");
    type_text(&mut app, "jq");
    assert_eq!(app.bulk.as_deref(), Some("jq"));
    assert_eq!(app.selected, Some(0));
    press(&mut app, "esc");
    assert_eq!(app.overlay_name(), "none");
}
