use optique::draft::Draft;
use optique::model::options::{GroupKind, OptionDef, OptionGroup, OptionSet, PortOptions};
use optique::model::origin::PortKey;
use optique::model::port::{DepEdge, PortInfo};
use optique::optionsfile::SavedOptionsFile;
use optique::order::Duplicate;
use optique::query::scanner::ScanResult;
use optique::session::base::Session;
use optique::session::implies::close_implies;
use optique::session::layers::{is_blocked, nofile_effective, staged_diff, undecided_options};
use optique::session::status::UiStatus;
use optique::sorted::{SortedMap, SortedSet};

type Files = SortedMap<String, SavedOptionsFile>;
type Ports = SortedMap<PortKey, PortInfo>;

fn key(text: &str) -> PortKey {
    PortKey::parse(text).unwrap()
}

fn set(opts: &[&str]) -> OptionSet {
    let list: Vec<String> = opts.iter().map(|o| o.to_string()).collect();
    SortedSet::from_list(&list)
}

fn names(opts: &[&str]) -> Vec<String> {
    opts.iter().map(|o| o.to_string()).collect()
}

fn group(kind: GroupKind, name: &str, members: &[&str]) -> OptionGroup {
    OptionGroup { kind, name: name.into(), desc: String::new(), members: names(members) }
}

fn bare(origin: &str) -> PortInfo {
    let k = key(origin);
    PortInfo {
        key: k.clone(),
        canonical: k,
        pkgname: "port-1.0".into(),
        flavors: vec![],
        options_name: "cat_port".into(),
        options: PortOptions::default(),
        deps: vec![],
        broken: None,
        ignore: None,
        deprecated: None,
        pkg_help: None,
        default_versions: vec![],
        warnings: vec![],
    }
}

fn mk_port(
    complete: &[&str],
    defaults: &[&str],
    groups: Vec<OptionGroup>,
    defs: Vec<(&str, OptionDef)>,
) -> (Ports, PortKey) {
    let mut info = bare("cat/port");
    info.options.complete = names(complete);
    info.options.defaults = set(defaults);
    info.options.effective = set(defaults);
    info.options.groups = groups;
    for (name, def) in defs {
        info.options.defs.insert(name.to_string(), def);
    }
    let mut ports = Ports::new();
    ports.insert(key("cat/port"), info);
    (ports, key("cat/port"))
}

fn session_in(ports: Ports, files: &Files, minimal: bool) -> Session {
    let roots = ports.key_list();
    Session::new(ports, SortedMap::new(), &roots, files, minimal)
}

fn session_for(ports: Ports) -> Session {
    session_in(ports, &Files::new(), false)
}

/// Change one port's options in place.
fn tweak(ports: &mut Ports, k: &PortKey, f: impl Fn(&mut PortOptions)) {
    let mut info = ports.remove(k).unwrap();
    f(&mut info.options);
    ports.insert(k.clone(), info);
}

fn port<'a>(s: &'a Session, k: &PortKey) -> &'a PortInfo {
    s.ports.get(k).unwrap()
}

fn staged<'a>(s: &'a Session, k: &PortKey) -> &'a OptionSet {
    &s.state(port(s, k)).unwrap().staged
}

fn file(name: &str, text: &str) -> Files {
    let mut files = Files::new();
    files.insert(name.into(), SavedOptionsFile::parse(text));
    files
}

#[test]
fn staged_diff_formats_changes() {
    assert_eq!(staged_diff(&set(&["A"]), &set(&["A", "B"])), "+B");
    // Additions first, each side in option order.
    assert_eq!(staged_diff(&set(&["A", "B"]), &set(&["C"])), "+C -A -B");
    assert_eq!(staged_diff(&set(&["A", "B"]), &set(&["B", "A"])), "");
    assert_eq!(staged_diff(&set(&[]), &set(&[])), "");
    assert_eq!(staged_diff(&set(&["A"]), &set(&[])), "-A");
}

#[test]
fn is_blocked_covers_broken_and_ignore() {
    let (ports, k) = mk_port(&["A"], &[], vec![], vec![]);
    let mut info = ports.get(&k).unwrap().duplicate();
    assert!(!is_blocked(&info));
    info.ignore = Some("needs a GSSAPI implementation".into());
    assert!(is_blocked(&info));
    info.ignore = None;
    info.broken = Some("does not build".into());
    assert!(is_blocked(&info));
    // DEPRECATED alone is not a build blocker.
    info.broken = None;
    info.deprecated = Some("use something else".into());
    assert!(!is_blocked(&info));
}

#[test]
fn single_group_switches_selection() {
    let g = group(GroupKind::Single, "IMPL", &["A", "B"]);
    let (ports, k) = mk_port(&["A", "B"], &["A"], vec![g], vec![]);
    let mut s = session_for(ports);
    // Turning off the only selected member is refused.
    assert!(s.toggle(&k, "A").is_err());
    // Selecting B deselects A.
    s.toggle(&k, "B").unwrap();
    let st = staged(&s, &k);
    assert!(st.has("B") && !st.has("A"));
    assert!(s.violations(port(&s, &k)).is_empty());
}

#[test]
fn multi_group_keeps_one() {
    let g = group(GroupKind::Multi, "M", &["A", "B"]);
    let (ports, k) = mk_port(&["A", "B"], &["A"], vec![g], vec![]);
    let mut s = session_for(ports);
    assert!(s.toggle(&k, "A").is_err()); // last enabled member
    s.toggle(&k, "B").unwrap();
    s.toggle(&k, "A").unwrap(); // now B carries the group
    assert!(s.violations(port(&s, &k)).is_empty());
}

#[test]
fn implies_are_closed_and_locked() {
    let mut def = OptionDef::default();
    def.implies = names(&["SSL"]);
    let (ports, k) = mk_port(&["KRB", "SSL"], &[], vec![], vec![("KRB", def)]);
    let mut s = session_for(ports);
    s.toggle(&k, "KRB").unwrap();
    assert!(staged(&s, &k).has("SSL"), "implied option auto-enabled");
    assert_eq!(s.implied_by(port(&s, &k), "SSL").as_deref(), Some("KRB"));
    assert!(s.toggle(&k, "SSL").is_err(), "implied option locked on");
    s.toggle(&k, "KRB").unwrap(); // off
    s.toggle(&k, "SSL").unwrap(); // now free
}

#[test]
fn prevents_reported_as_conflict() {
    let mut def = OptionDef::default();
    def.prevents = names(&["Y"]);
    def.prevents_msg = Some("pick one".into());
    let (ports, k) = mk_port(&["X", "Y"], &["Y"], vec![], vec![("X", def)]);
    let mut s = session_for(ports);
    s.toggle(&k, "X").unwrap();
    assert_eq!(s.status(port(&s, &k)), UiStatus::Conflict);
    assert!(s.violations(port(&s, &k))[0].contains("pick one"));
}

/// Each scope's SET and UNSET are applied in turn, so the per-port knob
/// overrides the global one.
#[test]
fn per_port_makeconf_knob_beats_the_global_one() {
    let (mut ports, k) = mk_port(&["DOCS", "NLS", "X11"], &[], vec![], vec![]);
    tweak(&mut ports, &k, |o| {
        o.mc_unset.insert("DOCS".into());
        o.port_set.insert("DOCS".into());
        // The opposite order too: global on, per-port off.
        o.mc_set.insert("NLS".into());
        o.port_unset.insert("NLS".into());
        // FORCE has the same two scopes, applied after both.
        o.force_unset.insert("X11".into());
        o.port_force_set.insert("X11".into());
        // What make itself computes for those layers (PORT_OPTIONS), i.e.
        // the staged set of an unconfigured port.
        o.effective = set(&["DOCS", "X11"]);
    });
    let info = ports.get(&k).unwrap();
    let eff = nofile_effective(info);
    assert!(eff.has("DOCS"), "per-port _SET must survive the global UNSET");
    assert!(!eff.has("NLS"), "per-port _UNSET must survive the global SET");
    assert!(eff.has("X11"), "per-port _SET_FORCE must beat the global UNSET_FORCE");
    assert_eq!(info.options.forced_value("X11"), Some(true));

    // ...and the staged state agreeing with make.conf is not a deviation.
    let s = session_for(ports);
    assert!(s.mc_deviations(port(&s, &k)).is_empty());
}

#[test]
fn minimal_treats_bare_defaults_as_decided() {
    // Options with no make.conf stance at all.
    let (ports, k) = mk_port(&["DOCS", "X11"], &["DOCS"], vec![], vec![]);
    let s = session_in(ports, &Files::new(), true);
    assert!(s.covered_by_makeconf(port(&s, &k)), "minimal: defaults decide");
    assert!(undecided_options(port(&s, &k), None, true).is_empty());
    // Same port without minimal: X11 and DOCS are undecided.
    let (ports, _) = mk_port(&["DOCS", "X11"], &["DOCS"], vec![], vec![]);
    let s2 = session_for(ports);
    assert!(!s2.covered_by_makeconf(port(&s2, &k)));
}

#[test]
fn mc_coverage_of_stale_ports() {
    // Saved file knows A; tree update added DOCS and NLS.
    let (ports, k) = mk_port(&["A", "DOCS", "NLS"], &["A"], vec![], vec![]);
    let files = file(
        "cat_port",
        "_OPTIONS_READ=port-0.9\n_FILE_COMPLETE_OPTIONS_LIST=A\nOPTIONS_FILE_SET+=A\n",
    );
    let mut s = session_in(ports, &files, false);

    // Not covered: DOCS/NLS undecided by make.conf.
    assert!(!s.covered_by_makeconf(port(&s, &k)));
    assert_eq!(s.status(port(&s, &k)), UiStatus::Stale);

    // Covered once make.conf unsets both globally.
    tweak(&mut s.ports, &k, |o| {
        o.mc_unset.insert("DOCS".into());
        o.mc_unset.insert("NLS".into());
    });
    assert!(s.covered_by_makeconf(port(&s, &k)));

    // No stance -> no deviation, even when differing from the port default.
    assert!(!s.mc_deviates(port(&s, &k), "A"));
    // Per-port knobs count as make.conf stance too.
    tweak(&mut s.ports, &k, |o| {
        o.port_unset.insert("NLS".into());
    });
    // NLS is off, as it would be without a file -> no deviation.
    assert!(!s.mc_deviates(port(&s, &k), "NLS"));
    // Deviation: staged keeps A on although make.conf globally unsets it.
    tweak(&mut s.ports, &k, |o| {
        o.mc_unset.insert("A".into());
    });
    assert_eq!(s.mc_deviations(port(&s, &k)), vec!["A".to_string()]);
    // Forced options never count as deviations.
    tweak(&mut s.ports, &k, |o| {
        o.force_set.insert("A".into());
    });
    assert!(s.mc_deviations(port(&s, &k)).is_empty());

    // A removed-options-only staleness is always covered.
    let (ports2, k2) = mk_port(&["A"], &["A"], vec![], vec![]);
    let files2 = file(
        "cat_port",
        "_OPTIONS_READ=port-0.9\n_FILE_COMPLETE_OPTIONS_LIST=A GONE\n\
         OPTIONS_FILE_SET+=A\nOPTIONS_FILE_UNSET+=GONE\n",
    );
    let s2 = session_in(ports2, &files2, false);
    assert_eq!(s2.status(port(&s2, &k2)), UiStatus::Stale);
    assert!(s2.covered_by_makeconf(port(&s2, &k2)));

    // Unconfigured port (no saved file): covered only when make.conf
    // decides every single option.
    let (ports3, k3) = mk_port(&["DOCS", "X11"], &["DOCS"], vec![], vec![]);
    let mut s3 = session_for(ports3);
    assert_eq!(s3.status(port(&s3, &k3)), UiStatus::Unconfigured);
    assert!(!s3.covered_by_makeconf(port(&s3, &k3)));
    tweak(&mut s3.ports, &k3, |o| {
        o.mc_unset.insert("DOCS".into());
        o.port_set.insert("X11".into());
    });
    assert!(s3.covered_by_makeconf(port(&s3, &k3)));

    // A SINGLE group is decided as a whole when make.conf selects one
    // member (e.g. OPTIONS_SET += GSSAPI_NONE).
    let all = ["GSSAPI_BASE", "GSSAPI_MIT", "GSSAPI_NONE"];
    let g = group(GroupKind::Single, "GSSAPI", &all);
    let (ports4, k4) = mk_port(&all, &["GSSAPI_BASE"], vec![g], vec![]);
    let mut s4 = session_for(ports4);
    assert!(!s4.covered_by_makeconf(port(&s4, &k4)));
    tweak(&mut s4.ports, &k4, |o| {
        o.mc_set.insert("GSSAPI_NONE".into());
    });
    assert!(s4.covered_by_makeconf(port(&s4, &k4)));
}

fn linked_info(origin: &str, deps: &[&str], complete: &[&str]) -> PortInfo {
    let mut info = bare(origin);
    info.pkgname = format!("{}-1.0", origin.split('/').next_back().unwrap());
    info.options_name = origin.replace('/', "_");
    info.options.complete = names(complete);
    info.deps =
        deps.iter().map(|d| DepEdge { target: key(d), raw: format!("dep:{d}") }).collect();
    info
}

fn linked(infos: Vec<PortInfo>) -> Ports {
    let mut ports = Ports::new();
    for info in infos {
        ports.insert(info.canonical.clone(), info);
    }
    ports
}

#[test]
fn shared_file_judged_against_owner_flavor() {
    // @full (default) owns editors_emacs with options A + X11;
    // @nox excludes X11. The file records the owner's view.
    let files = file(
        "editors_emacs",
        "_OPTIONS_READ=emacs-30\n_FILE_COMPLETE_OPTIONS_LIST=A X11\n\
         OPTIONS_FILE_SET+=A\nOPTIONS_FILE_SET+=X11\n",
    );
    let mk = |flavor: &str, complete: &[&str]| {
        let mut info = bare(&format!("editors/emacs@{flavor}"));
        info.pkgname = format!("emacs-{flavor}-30");
        info.flavors = names(&["full", "nox"]);
        info.options_name = "editors_emacs".into();
        info.options.complete = names(complete);
        info.options.effective = set(complete);
        info
    };
    let full_key = key("editors/emacs@full");
    let nox_key = key("editors/emacs@nox");
    // Insert the non-default flavor first: owner selection must still
    // pick @full.
    let ports = linked(vec![mk("nox", &["A"]), mk("full", &["A", "X11"])]);
    let roots = vec![full_key.clone(), nox_key.clone()];
    let s = Session::new(ports, SortedMap::new(), &roots, &files, false);

    assert_eq!(s.owners.find("editors_emacs"), Some(&full_key));
    assert_eq!(s.status(port(&s, &full_key)), UiStatus::Okay);
    assert_eq!(
        s.status(port(&s, &nox_key)),
        UiStatus::Okay,
        "nox flavor must not read the owner-written file as stale"
    );
}

#[test]
fn siblings_lists_closure_flavors() {
    // devel/git declares three flavors but only two are in the closure.
    let mk = |origin: &str, flavors: &[&str]| {
        let mut info = linked_info(origin, &[], &["A"]);
        info.options_name = info.key.origin.replace('/', "_");
        info.flavors = names(flavors);
        info
    };
    let flavors = ["default", "lite", "tiny"];
    let s = session_for(linked(vec![
        mk("devel/git@default", &flavors),
        mk("devel/git@lite", &flavors),
        mk("www/nginx", &[]),
    ]));

    let default_key = key("devel/git@default");
    let lite_key = key("devel/git@lite");
    let nginx_key = key("www/nginx");
    assert_eq!(s.siblings(&default_key), vec![default_key.clone(), lite_key.clone()]);
    assert_eq!(s.siblings(&lite_key), vec![default_key, lite_key]);
    assert_eq!(s.siblings(&nginx_key), vec![nginx_key]);
}

#[test]
fn merge_gc_drops_unreachable_and_keeps_edits() {
    let files = Files::new();
    let root_key = key("cat/root");
    let dep_key = key("cat/dep");
    let dep = linked_info("cat/dep", &[], &["DEPOPT"]);
    let ports = linked(vec![
        linked_info("cat/root", &["cat/dep"], &["ROOTOPT"]),
        dep.duplicate(),
    ]);
    let mut s = Session::new(ports, SortedMap::new(), &vec![root_key.clone()], &files, false);

    // User edits the dependency's options.
    s.toggle(&dep_key, "DEPOPT").unwrap();
    assert_eq!(s.status(port(&s, &dep_key)), UiStatus::Edited);

    // Refresh: the root no longer depends on cat/dep -> GC'd.
    let mut result = ScanResult::default();
    result.ports.insert(root_key.clone(), linked_info("cat/root", &[], &["ROOTOPT"]));
    let (added, removed) = s.merge(&result, &files);
    assert_eq!((added, removed), (0, 1));
    assert!(!s.ports.contains_key(&dep_key));

    // Flip back: dep reappears and the staged edit survived.
    let mut result = ScanResult::default();
    result.ports.insert(root_key.clone(), linked_info("cat/root", &["cat/dep"], &["ROOTOPT"]));
    result.ports.insert(dep_key.clone(), dep);
    let (added, removed) = s.merge(&result, &files);
    assert_eq!((added, removed), (1, 0));
    assert!(staged(&s, &dep_key).has("DEPOPT"), "edit preserved across GC round-trip");
    assert_eq!(s.status(port(&s, &dep_key)), UiStatus::Edited);
}

#[test]
fn why_chain_and_dependents() {
    // root -> mid -> leaf and other -> leaf; orphan hangs off nothing.
    let ports = linked(vec![
        linked_info("cat/root", &["cat/mid"], &["ROOTOPT"]),
        linked_info("cat/mid", &["cat/leaf"], &["MIDOPT"]),
        linked_info("cat/other", &["cat/leaf"], &["OTHEROPT"]),
        linked_info("cat/leaf", &[], &["LEAFOPT"]),
        linked_info("cat/orphan", &[], &["ORPHANOPT"]),
    ]);
    let (root, other, mid) = (key("cat/root"), key("cat/other"), key("cat/mid"));
    let (leaf, orphan) = (key("cat/leaf"), key("cat/orphan"));
    let roots = vec![root.clone(), other.clone()];
    let s = Session::new(ports, SortedMap::new(), &roots, &Files::new(), false);

    let chain = s.why_chain(&leaf).expect("leaf is reachable");
    assert_eq!(chain.len(), 2, "shortest chain goes through cat/other");
    assert!(s.roots.contains(&chain[0]), "chain starts at a root");
    assert_eq!(chain.last(), Some(&leaf), "chain ends at the target");
    assert_eq!(chain, vec![other.clone(), leaf.clone()]);

    assert_eq!(s.why_chain(&root), Some(vec![root]));
    assert_eq!(s.why_chain(&orphan), None, "not reachable from the roots");
    assert_eq!(s.dependents(&leaf), vec![mid, other]);
    assert!(s.dependents(&orphan).is_empty());
}

/// A cycle in the dep graph must neither hang the chain walk nor lengthen
/// the chain: the predecessor of an already-visited port stays put.
#[test]
fn why_chain_survives_dependency_cycle() {
    let ports = linked(vec![
        linked_info("cat/root", &["cat/mid"], &["ROOTOPT"]),
        linked_info("cat/mid", &["cat/leaf"], &["MIDOPT"]),
        linked_info("cat/leaf", &["cat/mid", "cat/deep"], &["LEAFOPT"]),
        linked_info("cat/other", &["cat/leaf"], &["OTHEROPT"]),
        linked_info("cat/deep", &[], &["DEEPOPT"]),
    ]);
    let roots = vec![key("cat/root"), key("cat/other")];
    let s = Session::new(ports, SortedMap::new(), &roots, &Files::new(), false);
    let deep = key("cat/deep");
    assert_eq!(s.why_chain(&deep), Some(vec![key("cat/other"), key("cat/leaf"), deep]));
}

#[test]
fn status_precedence_conflict_beats_edited() {
    let mut def = OptionDef::default();
    def.prevents = names(&["Y"]);
    let (ports, k) = mk_port(&["X", "Y"], &["Y"], vec![], vec![("X", def)]);
    let mut s = session_for(ports);
    s.toggle(&k, "X").unwrap(); // staged != baseline AND a conflict
    assert_eq!(s.status(port(&s, &k)), UiStatus::Conflict, "conflict outranks edited");
}

#[test]
fn revert_and_reset_lifecycle() {
    let (ports, k) = mk_port(&["A", "B"], &["A"], vec![], vec![]);
    let mut s = session_for(ports);
    assert!(!s.dirty());
    s.toggle(&k, "B").unwrap();
    assert!(s.dirty());
    s.revert(&k);
    assert!(!s.dirty(), "revert restores baseline");
    s.toggle(&k, "A").unwrap(); // A off (deviates from defaults)
    s.reset_to_defaults(&k);
    let st = staged(&s, &k);
    assert!(st.has("A") && !st.has("B"));
}

#[test]
fn reload_saved_refreshes_baseline() {
    let (ports, k) = mk_port(&["A"], &[], vec![], vec![]);
    let mut s = session_for(ports);
    assert_eq!(s.status(port(&s, &k)), UiStatus::Unconfigured);

    // Simulate an apply: a file appears on disk recording A=on.
    let files = file(
        "cat_port",
        "_OPTIONS_READ=port-1.0\n_FILE_COMPLETE_OPTIONS_LIST=A\nOPTIONS_FILE_SET+=A\n",
    );
    s.reload_saved(&files);
    // Baseline now follows the file; staged still empty -> Edited.
    assert!(s.state(port(&s, &k)).unwrap().baseline.has("A"));
    assert_eq!(s.status(port(&s, &k)), UiStatus::Edited);
}

#[test]
fn bulk_set_applies_rules_and_dedups_shared_state() {
    let mk = |origin: &str, options_name: &str, complete: &[&str]| {
        let mut info = bare(origin);
        info.pkgname = format!("{}-1.0", origin.replace('/', "-"));
        info.flavors = names(&["f1", "f2"]);
        info.options_name = options_name.into();
        info.options.complete = names(complete);
        info
    };
    let mut ports = linked(vec![
        mk("cat/a", "cat_a", &["DOCS", "X11"]),
        mk("cat/b", "cat_b", &["DOCS"]),
        mk("cat/c", "cat_c", &["ZZZ"]),
        // Two flavors of one origin share cat_d's options file/state.
        mk("cat/d@f1", "cat_d", &["DOCS"]),
        mk("cat/d@f2", "cat_d", &["DOCS"]),
    ]);
    let (a, b, c) = (key("cat/a"), key("cat/b"), key("cat/c"));
    let (d1, d2) = (key("cat/d@f1"), key("cat/d@f2"));
    // cat/b's DOCS is nailed down by a make.conf *_FORCE knob.
    tweak(&mut ports, &b, |o| {
        o.force_set.insert("DOCS".into());
    });
    let keys = ports.key_list();
    let mut s = session_for(ports);

    let (changed, skipped) = s.bulk_set(&keys, "DOCS", true);
    assert!(changed.contains(&a), "cat/a takes the decision");
    assert_eq!(
        changed.iter().filter(|k| **k == d1 || **k == d2).count(),
        1,
        "one shared state change counts as one changed port"
    );
    assert_eq!(changed.len(), 2, "only cat/a and one cat/d flavor changed");
    assert_eq!(skipped.len(), 1);
    assert_eq!(skipped[0].0, b);
    assert!(skipped[0].1.contains("forced"), "reason: {}", skipped[0].1);
    assert!(!changed.contains(&c) && !skipped.iter().any(|(k, _)| *k == c));

    for k in [&a, &d1, &d2] {
        assert!(staged(&s, k).has("DOCS"), "{} staged DOCS", k.to_string());
    }
    assert!(!staged(&s, &c).has("DOCS"));

    // Idempotent: already-equal ports are skipped silently.
    let (changed, skipped) = s.bulk_set(&keys, "DOCS", true);
    assert!(changed.is_empty(), "nothing left to change");
    assert!(!skipped.iter().any(|(k, _)| *k == a), "cat/a not an error");
}

#[test]
fn bulk_set_respects_groups() {
    let g = group(GroupKind::Single, "IMPL", &["A", "B"]);
    let (ports, k) = mk_port(&["A", "B"], &["A"], vec![g], vec![]);
    let mut s = session_for(ports);
    let (changed, skipped) = s.bulk_set(&vec![k.clone()], "A", false);
    assert!(changed.is_empty());
    assert_eq!(skipped.len(), 1);
    assert_eq!(skipped[0].0, k);
    assert!(skipped[0].1.contains("single-choice group"), "reason: {}", skipped[0].1);
    assert!(staged(&s, &k).has("A"), "A stays on");
}

#[test]
fn forced_options_refuse_toggle() {
    let (ports, k) = mk_port(&["A"], &[], vec![], vec![]);
    let mut s = session_for(ports);
    tweak(&mut s.ports, &k, |o| {
        o.force_set.insert("A".into());
    });
    let err = s.toggle(&k, "A").unwrap_err();
    assert!(err.contains("forced"));
}

fn draft_with(entries: &[(&str, &[&str])]) -> Draft {
    let mut staged = SortedMap::new();
    for (name, opts) in entries {
        staged.insert(name.to_string(), set(opts));
    }
    Draft { options_dir: "/nonexistent".into(), saved_at_secs: 0, staged }
}

#[test]
fn restore_draft_filters_options_gone_from_the_port() {
    let (ports, k) = mk_port(&["A", "B"], &["B"], vec![], vec![]);
    let mut s = session_for(ports);
    let draft = draft_with(&[("cat_port", &["A", "GONE"])]);
    assert_eq!(s.restore_draft(&draft), 1);
    assert_eq!(staged(&s, &k).to_list(), vec!["A".to_string()]);
    // Baseline is untouched, so the restored state still reads as edited.
    assert_eq!(s.status(port(&s, &k)), UiStatus::Edited);
    // Re-applying the same draft changes nothing.
    assert_eq!(s.restore_draft(&draft), 0);
}

#[test]
fn restore_draft_drops_unknown_options_names() {
    let (ports, k) = mk_port(&["A"], &["A"], vec![], vec![]);
    let mut s = session_for(ports);
    let before = staged(&s, &k).to_list();
    assert_eq!(s.restore_draft(&draft_with(&[("other_port", &["A"])])), 0);
    assert_eq!(staged(&s, &k).to_list(), before);
}

#[test]
fn unknown_ports_and_options_refuse_toggle() {
    let (ports, k) = mk_port(&["A"], &[], vec![], vec![]);
    let mut s = session_for(ports);
    assert!(s.toggle(&key("cat/none"), "A").is_err());
    assert!(!s.dirty());
    s.toggle(&k, "A").unwrap();
    s.toggle(&k, "A").unwrap();
    assert!(!s.dirty(), "two toggles of a free option cancel out");
}

#[test]
fn a_root_that_does_not_resolve_keeps_every_port() {
    let ports = linked(vec![linked_info("cat/a", &[], &[]), linked_info("cat/b", &[], &[])]);
    let roots = vec![key("cat/a"), key("cat/renamed")];
    let s = Session::new(ports, SortedMap::new(), &roots, &Files::new(), false);
    assert_eq!(s.roots, vec![key("cat/a"), key("cat/b")]);
}

#[test]
fn a_draft_brings_the_edits_back() {
    let ports = || mk_port(&["A", "B"], &["B"], vec![], vec![]).0;
    let k = key("cat/port");
    let mut s = session_for(ports());
    s.toggle(&k, "A").unwrap();
    let draft = Draft::of(&s, "/options", 1);
    let mut later = session_for(ports());
    assert_eq!(later.restore_draft(&draft), 1);
    assert_eq!(staged(&later, &k).to_list(), staged(&s, &k).to_list());
}

#[test]
fn implied_options_are_closed_once_and_for_all() {
    let implies = |list: &[&str]| {
        let mut def = OptionDef::default();
        def.implies = names(list);
        def
    };
    let defs = vec![("A", implies(&["B"])), ("B", implies(&["C", "GONE"])), ("C", implies(&["A"]))];
    let (ports, k) = mk_port(&["A", "B", "C", "D"], &[], vec![], defs);
    let info = ports.get(&k).unwrap();
    let once = close_implies(info, set(&["A"]));
    assert_eq!(once.to_list(), names(&["A", "B", "C"]));
    let twice = close_implies(info, once.duplicate());
    assert!(twice.equals(&once));
    let more = close_implies(info, set(&["A", "D"]));
    assert_eq!(more.to_list(), names(&["A", "B", "C", "D"]));
}
