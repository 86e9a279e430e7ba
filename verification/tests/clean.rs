use optique::clean::{
    classify_entries, file_is_redundant, makefile_of, origin_from_options_name, redundancy_diff,
    removal_note, split_redundant, split_unreached, split_unused, DirEntry, LiveEntry,
    Removal,
};
use optique::minimal::leftover_files;
use optique::model::options::{OptionSet, PortOptions};
use optique::model::origin::PortKey;
use optique::model::port::PortInfo;
use optique::moved::Moved;
use optique::optionsfile::SavedOptionsFile;
use optique::query::scanner::ScanResult;
use optique::sorted::{SortedMap, SortedSet};

fn set(items: &[&str]) -> OptionSet {
    let list: Vec<String> = items.iter().map(|s| s.to_string()).collect();
    SortedSet::from_list(&list)
}

fn info_with(options: PortOptions) -> PortInfo {
    let key = PortKey::parse("cat/port").unwrap();
    PortInfo {
        key: key.clone(),
        canonical: key,
        pkgname: "port-1.0".into(),
        flavors: vec![],
        options_name: "cat_port".into(),
        options,
        deps: vec![],
        broken: None,
        ignore: None,
        deprecated: None,
        pkg_help: None,
        default_versions: vec![],
        warnings: vec![],
    }
}

#[test]
fn options_name_mapping() {
    assert_eq!(origin_from_options_name("www_nginx").as_deref(), Some("www/nginx"));
    assert_eq!(
        origin_from_options_name("devel_py-Automat").as_deref(),
        Some("devel/py-Automat")
    );
    // port names keep their own underscores
    assert_eq!(
        origin_from_options_name("audio_baresip_gtk2").as_deref(),
        Some("audio/baresip_gtk2")
    );
    assert_eq!(origin_from_options_name("nounderscore"), None);
}

#[test]
fn makefiles_stand_below_the_tree() {
    assert_eq!(
        makefile_of("/usr/ports", "www_nginx").as_deref(),
        Some("/usr/ports/www/nginx/Makefile")
    );
    assert_eq!(makefile_of("/usr/ports", "weird"), None);
}

#[test]
fn classify_against_fake_tree() {
    // Live port: cat/alive. A dir without an options file is no entry at all.
    let entry = |name: &str, in_tree: bool| DirEntry {
        options_name: name.to_string(),
        dir: format!("/options/{name}"),
        in_tree,
    };
    let entries = vec![
        entry("cat_renamed", false),
        entry("cat_alive", true),
        entry("weird", false),
        entry("cat_gone", false),
    ];
    let moved =
        Moved::parse("cat/gone||2026-01-01|expired\ncat/renamed|cat/alive|2026-01-01|renamed\n");
    let (removals, live, warnings) = classify_entries(&entries, &moved);

    assert_eq!(live.len(), 1);
    assert_eq!(live[0].key.to_string(), "cat/alive");
    let names: Vec<&str> = removals.iter().map(|r| r.options_name.as_str()).collect();
    assert_eq!(names, vec!["cat_gone", "cat_renamed"]);
    assert!(removals[0].reason.contains("expired"));
    assert!(removals[1].reason.contains("cat/alive"), "rename target named");
    // "weird" has no '_' -> unmappable, warned about, untouched.
    assert_eq!(warnings.len(), 1);
    assert!(warnings[0].contains("weird"));
}

#[test]
fn split_unused_partitions() {
    let entry = |name: &str, origin: &str| LiveEntry {
        options_name: name.to_string(),
        dir: format!("/opt/{name}"),
        key: PortKey::parse(origin).unwrap(),
    };
    // Deliberately unsorted input, only www/nginx is in the closure.
    let live = vec![
        entry("www_nginx", "www/nginx"),
        entry("mail_dovecot", "mail/dovecot"),
        entry("cat_alive", "cat/alive"),
    ];
    let used = set(&["www_nginx"]);

    let (kept, removals) = split_unused(&live, &used);
    let kept_names: Vec<&str> = kept.iter().map(|e| e.options_name.as_str()).collect();
    assert_eq!(kept_names, vec!["www_nginx"]);
    let gone: Vec<&str> = removals.iter().map(|r| r.options_name.as_str()).collect();
    assert_eq!(gone, vec!["cat_alive", "mail_dovecot"], "removals come back sorted");
    assert!(removals.iter().all(|r| r.reason == "not needed by the given list"));
    assert_eq!(removals[0].dir, "/opt/cat_alive");
}

#[test]
fn redundancy_diff_directions() {
    // defaults {A}; file result: B on, A off -> +B -A.
    let mut o = PortOptions::default();
    o.complete = vec!["A".into(), "B".into()];
    o.defaults = set(&["A"]);
    o.effective = set(&["B"]);
    let d = redundancy_diff(&info_with(o));
    assert_eq!(d, vec!["+B".to_string(), "-A".to_string()]);
}

#[test]
fn redundancy_check() {
    // defaults {A}, mc unsets B; file recorded exactly that -> effective {A}.
    let options = || {
        let mut o = PortOptions::default();
        o.complete = vec!["A".into(), "B".into()];
        o.defaults = set(&["A"]);
        o.mc_unset = set(&["B"]);
        o.effective = set(&["A"]);
        o
    };
    assert!(file_is_redundant(&info_with(options())));

    // file deviates: B enabled although default+mc say off.
    let mut o = options();
    o.effective = set(&["A", "B"]);
    assert!(!file_is_redundant(&info_with(o)));
}

#[test]
fn a_kept_options_local_is_noted() {
    let r = Removal {
        options_name: "cat_port".into(),
        dir: "/opt/cat_port".into(),
        reason: String::new(),
    };
    assert!(removal_note(&r, true).is_some());
    let r2 = Removal {
        options_name: "cat_other".into(),
        dir: "/opt/cat_other".into(),
        reason: String::new(),
    };
    assert!(removal_note(&r2, false).is_none());
}

#[test]
fn files_of_ports_without_options_are_left_over() {
    let mut ports: SortedMap<PortKey, PortInfo> = SortedMap::new();
    let mut bare = info_with(PortOptions::default());
    bare.key = PortKey::parse("print/indexinfo").unwrap();
    bare.canonical = bare.key.clone();
    bare.options_name = "print_indexinfo".into();
    ports.insert(bare.key.clone(), bare);
    let mut o = PortOptions::default();
    o.complete = vec!["DOCS".into()];
    let full = info_with(o);
    ports.insert(full.key.clone(), full);

    let mut files: SortedMap<String, SavedOptionsFile> = SortedMap::new();
    for name in ["print_indexinfo", "cat_port", "other_port"] {
        files.insert(name.to_string(), SavedOptionsFile::parse("OPTIONS_FILE_SET+=DOCS\n"));
    }
    let gone = leftover_files(&ports, "/opt", &files);
    let names: Vec<&str> = gone.iter().map(|r| r.options_name.as_str()).collect();
    assert_eq!(names, vec!["print_indexinfo"]);
    assert_eq!(gone[0].dir, "/opt/print_indexinfo");
    assert_eq!(gone[0].reason, "port has no options");
}

#[test]
fn redundant_entries_are_split_off() {
    let entry = |name: &str, origin: &str| LiveEntry {
        options_name: name.into(),
        dir: format!("/options/{name}"),
        key: PortKey::parse(origin).unwrap(),
    };
    let live = vec![
        entry("cat_same", "cat/same"),
        entry("cat_other", "cat/other"),
        entry("cat_unknown", "cat/unknown"),
    ];
    let mut result = ScanResult::default();
    for (origin, effective) in [("cat/same", set(&["A"])), ("cat/other", set(&[]))] {
        let mut options = PortOptions::default();
        options.complete = vec!["A".into()];
        options.defaults = set(&["A"]);
        options.effective = effective;
        let mut info = info_with(options);
        info.key = PortKey::parse(origin).unwrap();
        info.canonical = PortKey::parse(&format!("{origin}@full")).unwrap();
        result.aliases.insert(info.key.clone(), info.canonical.clone());
        result.ports.insert(info.canonical.clone(), info);
    }
    let (kept, gone) = split_redundant(&live, &result);
    let names: Vec<&str> = kept.iter().map(|l| l.options_name.as_str()).collect();
    assert_eq!(names, vec!["cat_other", "cat_unknown"]);
    assert_eq!(gone.len(), 1);
    assert_eq!(gone[0].options_name, "cat_same");
    assert_eq!(gone[0].dir, "/options/cat_same");
}

#[test]
fn unused_files_need_a_closure_without_gaps() {
    let entry = |name: &str, origin: &str| LiveEntry {
        options_name: name.into(),
        dir: format!("/options/{name}"),
        key: PortKey::parse(origin).unwrap(),
    };
    let live = vec![entry("cat_port", "cat/port"), entry("cat_idle", "cat/idle")];
    let mut result = ScanResult::default();
    let info = info_with(PortOptions::default());
    result.ports.insert(info.canonical.clone(), info);
    let (kept, gone) = split_unreached(&live, &result).unwrap();
    assert_eq!(kept.len(), 1);
    assert_eq!(kept[0].options_name, "cat_port");
    assert_eq!(gone.len(), 1);
    assert_eq!(gone[0].options_name, "cat_idle");

    result.errors.push((PortKey::parse("cat/lost").unwrap(), "no such port".into()));
    assert!(split_unreached(&live, &result).is_none());
}
