use optique::apply::{apply, plan_writes, sync_enabled_set, PendingWrite, PlannedWrites, PortChoice};
use optique::minimal::drop_redundant;
use optique::model::options::{OptionSet, PortOptions};
use optique::model::origin::PortKey;
use optique::model::port::PortInfo;
use optique::optionsfile::SavedOptionsFile;
use optique::order::Duplicate;
use optique::sorted::{SortedMap, SortedSet};
use optique::sync::plan_sync;

type Files = SortedMap<String, SavedOptionsFile>;

fn set(items: &[&str]) -> OptionSet {
    let list: Vec<String> = items.iter().map(|s| s.to_string()).collect();
    SortedSet::from_list(&list)
}

fn mk_info(complete: &[&str], effective: &[&str]) -> PortInfo {
    let key = PortKey::parse("cat/port").unwrap();
    let mut options = PortOptions::default();
    options.complete = complete.iter().map(|s| s.to_string()).collect();
    options.effective = set(effective);
    PortInfo {
        key: key.clone(),
        canonical: key,
        pkgname: "port-1.0".into(),
        flavors: vec![],
        options_name: "cat_port".into(),
        options,
        deps: vec![],
        broken: None,
        ignore: None,
        deprecated: None,
        pkg_help: None,
        default_versions: vec![],
        warnings: vec![],
    }
}

fn plan(ports: &[(&PortInfo, &[&str])], files: &Files) -> PlannedWrites {
    let choices: Vec<PortChoice> = ports
        .iter()
        .map(|(info, on)| PortChoice { key: &info.key, info, enabled: set(on) })
        .collect();
    plan_writes(&choices, "/options", files)
}

#[test]
fn sync_keeps_choices_and_adopts_new() {
    // Saved file: A on, B off. Tree update added C (effective: on).
    let info = mk_info(&["A", "B", "C"], &["A", "C"]);
    let saved = SavedOptionsFile::parse(
        "_OPTIONS_READ=port-0.9\n_FILE_COMPLETE_OPTIONS_LIST=A B D\n\
         OPTIONS_FILE_SET+=A\nOPTIONS_FILE_UNSET+=B\n",
    );
    let enabled = sync_enabled_set(&info, Some(&saved));
    // A kept on, B kept off (even though effective would differ), C adopted, D dropped.
    assert!(enabled.equals(&set(&["A", "C"])));
}

#[test]
fn unconfigured_takes_effective() {
    let info = mk_info(&["A", "B"], &["B"]);
    let enabled = sync_enabled_set(&info, None);
    assert!(enabled.equals(&set(&["B"])));
}

#[test]
fn plan_skips_semantically_identical() {
    let info = mk_info(&["A", "B"], &["A"]);
    let mut files = Files::new();
    // pkgname differs from info.pkgname but list+set match -> skip
    files.insert(
        "cat_port".into(),
        SavedOptionsFile::parse(
            "_OPTIONS_READ=port-0.9\n_FILE_COMPLETE_OPTIONS_LIST=A B\n\
             OPTIONS_FILE_SET+=A\nOPTIONS_FILE_UNSET+=B\n",
        ),
    );
    let planned = plan(&[(&info, &["A"])], &files);
    assert!(planned.writes.is_empty());
    assert!(planned.warnings.is_empty());
}

#[test]
fn shared_file_uses_default_flavor() {
    // Two flavors of one origin, default flavor first in FLAVORS.
    let mut a = mk_info(&["A", "B"], &["A"]);
    a.key = PortKey::parse("devel/git@default").unwrap();
    a.canonical = a.key.clone();
    a.flavors = vec!["default".into(), "lite".into()];
    let mut b = mk_info(&["A"], &[]);
    b.key = PortKey::parse("devel/git@lite").unwrap();
    b.canonical = b.key.clone();
    b.flavors = vec!["default".into(), "lite".into()];

    // divergent non-default first
    let planned = plan(&[(&b, &[]), (&a, &["A"])], &Files::new());
    assert_eq!(planned.writes.len(), 1);
    assert_eq!(planned.writes[0].key.to_string(), "devel/git@default");
    assert!(planned.writes[0].enabled.has("A"));
    // A exists in BOTH flavors and they disagree -> real warning.
    assert_eq!(planned.warnings.len(), 1);
    assert!(planned.warnings[0].contains("devel/git@lite"));
    assert!(planned.warnings[0].contains("A"));
}

#[test]
fn flavor_excluded_options_do_not_warn() {
    // Default flavor has X11 (on); nox flavor excludes X11 entirely.
    // Both agree on the shared option A.
    let mut full = mk_info(&["A", "X11"], &["A", "X11"]);
    full.key = PortKey::parse("editors/emacs@full").unwrap();
    full.canonical = full.key.clone();
    full.flavors = vec!["full".into(), "nox".into()];
    let mut nox = mk_info(&["A"], &["A"]);
    nox.key = PortKey::parse("editors/emacs@nox").unwrap();
    nox.canonical = nox.key.clone();
    nox.flavors = vec!["full".into(), "nox".into()];

    let planned = plan(&[(&nox, &["A"]), (&full, &["A", "X11"])], &Files::new());
    assert_eq!(planned.writes.len(), 1);
    assert_eq!(planned.writes[0].key.to_string(), "editors/emacs@full");
    assert!(
        planned.warnings.is_empty(),
        "structural exclusion must not warn: {:?}",
        planned.warnings
    );
}

#[test]
fn describe_covers_all_change_kinds() {
    // Old file: knows A(on) B(off) GONE(off); current: A B NEWOPT.
    let old = SavedOptionsFile::parse(
        "_OPTIONS_READ=p-1\n_FILE_COMPLETE_OPTIONS_LIST=A B GONE\n\
         OPTIONS_FILE_SET+=A\nOPTIONS_FILE_UNSET+=B\nOPTIONS_FILE_UNSET+=GONE\n",
    );
    let w = PendingWrite {
        key: PortKey::parse("cat/port").unwrap(),
        options_name: "cat_port".into(),
        path: "/nonexistent".into(),
        old: Some(old),
        // A turned off, B turned on, NEWOPT adopted on, GONE dropped.
        enabled: set(&["B", "NEWOPT"]),
        complete: vec!["A".into(), "B".into(), "NEWOPT".into()],
        content: String::new(),
    };
    let d = w.describe();
    assert!(d.contains("+B"), "{d}");
    assert!(d.contains("-A"), "{d}");
    assert!(d.contains("NEWOPT(on)"), "{d}");
    assert!(d.contains("dropped: GONE"), "{d}");
    // A brand-new file describes itself by option count.
    let w2 = PendingWrite { old: None, ..w };
    assert!(w2.describe().contains("new file"));
}

#[test]
fn apply_reports_failures() {
    let w = PendingWrite {
        key: PortKey::parse("cat/port").unwrap(),
        options_name: "cat_port".into(),
        // Parent is a file, not a dir -> the directory cannot be created.
        path: "/dev/null/cat_port/options".into(),
        old: None,
        enabled: set(&[]),
        complete: vec![],
        content: "x\n".into(),
    };
    let outcome = Err("creating /dev/null/cat_port: Not a directory".to_string());
    let summary = apply(&vec![w], &vec![outcome]);
    assert_eq!(summary.written, 0);
    assert_eq!(summary.failed.len(), 1);
    assert_eq!(summary.failed[0].0.to_string(), "cat/port");
    assert!(summary.failed[0].1.contains("Not a directory"));
}

#[test]
fn apply_writes_atomically() {
    let info = mk_info(&["A"], &["A"]);
    let planned = plan(&[(&info, &["A"])], &Files::new());
    let writes = planned.writes;
    assert_eq!(writes.len(), 1);
    assert_eq!(writes[0].path, "/options/cat_port/options");
    let summary = apply(&writes, &vec![Ok(())]);
    assert_eq!(summary.written, 1);
    assert!(summary.failed.is_empty());
    let saved = SavedOptionsFile::parse(&writes[0].content);
    assert!(saved.set.has("A"));
    assert_eq!(saved.options_read, "port-1.0");
}

#[test]
fn what_was_written_is_not_written_again() {
    let info = mk_info(&["A", "B"], &["A"]);
    let first = plan(&[(&info, &["B"])], &Files::new());
    let mut files = Files::new();
    files.insert("cat_port".into(), SavedOptionsFile::parse(&first.writes[0].content));
    assert!(plan(&[(&info, &["B"])], &files).writes.is_empty());
    assert_eq!(plan(&[(&info, &["A"])], &files).writes.len(), 1);
}

#[test]
fn minimal_drops_what_defaults_decide() {
    let mut same = mk_info(&["A"], &["A"]);
    same.options.defaults = set(&["A"]);
    let mut other = mk_info(&["A"], &["A"]);
    other.key = PortKey::parse("cat/other").unwrap();
    other.canonical = other.key.duplicate();
    other.options_name = "cat_other".into();
    let mut files = Files::new();
    files.insert("cat_port".into(), SavedOptionsFile::parse("OPTIONS_FILE_SET+=A\n"));

    let choices = vec![
        PortChoice { key: &other.key, info: &other, enabled: set(&["A"]) },
        PortChoice { key: &same.key, info: &same, enabled: set(&["A"]) },
    ];
    let planned = plan_writes(&choices, "/options", &files);
    assert_eq!(planned.writes.len(), 2);
    let (planned, removals) = drop_redundant(planned, &choices, "/options", &files);
    let left: Vec<&str> = planned.writes.iter().map(|w| w.options_name.as_str()).collect();
    assert_eq!(left, vec!["cat_other"]);
    assert_eq!(removals.len(), 1);
    assert_eq!(removals[0].options_name, "cat_port");
    assert_eq!(removals[0].dir, "/options/cat_port");
}

#[test]
fn a_second_sync_has_nothing_to_do() {
    let mut ports = SortedMap::new();
    let mut a = mk_info(&["A", "B"], &["B"]);
    a.key = PortKey::parse("cat/a").unwrap();
    a.canonical = a.key.clone();
    a.options_name = "cat_a".into();
    let mut none = mk_info(&[], &[]);
    none.key = PortKey::parse("cat/none").unwrap();
    none.canonical = none.key.clone();
    none.options_name = "cat_none".into();
    ports.insert(a.key.clone(), a);
    ports.insert(none.key.clone(), none);
    let mut files = Files::new();
    files.insert(
        "cat_a".into(),
        SavedOptionsFile::parse("_FILE_COMPLETE_OPTIONS_LIST=A GONE\nOPTIONS_FILE_SET+=A GONE\n"),
    );
    files.insert("cat_none".into(), SavedOptionsFile::parse("OPTIONS_FILE_SET+=DOCS\n"));

    let (planned, removals) = plan_sync(&ports, "/options", &files, false);
    assert_eq!(planned.writes.len(), 1);
    assert!(planned.writes[0].enabled.equals(&set(&["A", "B"])));
    assert_eq!(removals.len(), 1);
    assert_eq!(removals[0].options_name, "cat_none");

    for w in &planned.writes {
        files.insert(w.options_name.clone(), SavedOptionsFile::parse(&w.content));
    }
    for r in &removals {
        files.remove(&r.options_name);
    }
    let (planned, removals) = plan_sync(&ports, "/options", &files, false);
    assert!(planned.writes.is_empty() && removals.is_empty());
}

#[test]
fn a_second_minimal_sync_has_nothing_to_do() {
    let port = |name: &str| {
        let mut i = mk_info(&["A", "B"], &["B"]);
        i.options.defaults = set(&["B"]);
        i.key = PortKey::parse(&format!("cat/{name}")).unwrap();
        i.canonical = i.key.clone();
        i.options_name = format!("cat_{name}");
        i
    };
    let mut ports = SortedMap::new();
    for name in ["own", "same", "fresh"] {
        let i = port(name);
        ports.insert(i.key.clone(), i);
    }
    let mut files = Files::new();
    for (name, text) in [
        ("cat_own", "_FILE_COMPLETE_OPTIONS_LIST=A\nOPTIONS_FILE_SET+=A\n"),
        ("cat_same", "_FILE_COMPLETE_OPTIONS_LIST=A B\nOPTIONS_FILE_SET+=B\n"),
    ] {
        files.insert(name.into(), SavedOptionsFile::parse(text));
    }
    let (planned, removals) = plan_sync(&ports, "/options", &files, true);
    let written: Vec<&str> = planned.writes.iter().map(|w| w.options_name.as_str()).collect();
    assert_eq!(written, vec!["cat_own"]);
    let gone: Vec<&str> = removals.iter().map(|r| r.options_name.as_str()).collect();
    assert_eq!(gone, vec!["cat_same"]);

    for w in &planned.writes {
        files.insert(w.options_name.clone(), SavedOptionsFile::parse(&w.content));
    }
    for r in &removals {
        files.remove(&r.options_name);
    }
    let (planned, removals) = plan_sync(&ports, "/options", &files, true);
    assert!(planned.writes.is_empty() && removals.is_empty());
}
