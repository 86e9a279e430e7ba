use optique::apply::ApplySummary;
use optique::model::options::PortOptions;
use optique::model::origin::PortKey;
use optique::model::port::PortInfo;
use optique::optionsfile::SavedOptionsFile;
use optique::report::{
    dry_run_line, port_status, row_line, scan_report, state_line, written_line, PortStatus,
};
use optique::sorted::{SortedMap, SortedSet};
use optique::text::is_space;

fn info(origin: &str, complete: &[&str]) -> PortInfo {
    let k = PortKey::parse(origin).unwrap();
    let mut options = PortOptions::default();
    options.complete = complete.iter().map(|o| o.to_string()).collect();
    PortInfo {
        key: k.clone(),
        canonical: k,
        pkgname: "port-1.0".into(),
        flavors: vec![],
        options_name: origin.replace('/', "_"),
        options,
        deps: vec![],
        broken: None,
        ignore: None,
        deprecated: None,
        pkg_help: None,
        default_versions: vec![],
        warnings: vec![],
    }
}

#[test]
fn a_report_puts_attention_first() {
    let mut ports = SortedMap::new();
    for i in [
        info("cat/fine", &["A"]),
        info("cat/new", &["A", "B"]),
        info("cat/plain", &[]),
        info("cat/stale", &["A", "B"]),
    ] {
        ports.insert(i.canonical.clone(), i);
    }
    let mut files = SortedMap::new();
    let known = |list: &str| {
        SavedOptionsFile::parse(&format!("_FILE_COMPLETE_OPTIONS_LIST={list}\n"))
    };
    files.insert("cat_fine".to_string(), known("A"));
    files.insert("cat_stale".to_string(), known("A GONE"));
    let report = scan_report(&ports, &files, false);
    let flagged: Vec<&str> = report.flagged.iter().map(|r| r.key.as_str()).collect();
    assert_eq!(flagged, vec!["cat/new", "cat/stale"]);
    let fine: Vec<&str> = report.fine.iter().map(|r| r.key.as_str()).collect();
    assert_eq!(fine, vec!["cat/fine"]);
    assert_eq!((report.total, report.unconfigured, report.stale, report.hidden), (3, 1, 1, 1));
    assert_eq!(
        report.summary(4, 0),
        "3 ports with options (1 unconfigured, 1 stale) · 1 without options · 4 queried, 0 cached"
    );
    let line = row_line(&report.flagged[1]);
    assert!(line.contains("STALE") && line.contains("+B") && line.contains("-GONE"), "{line}");
    assert!(row_line(&report.flagged[0]).contains("undecided: A B"));
}

#[test]
fn a_status_lists_what_came_and_went() {
    let i = info("cat/port", &["A", "NEW"]);
    assert_eq!(port_status(&i, None), PortStatus::Unconfigured);
    let saved = SavedOptionsFile::parse("_FILE_COMPLETE_OPTIONS_LIST=A GONE\n");
    assert_eq!(
        port_status(&i, Some(&saved)),
        PortStatus::Stale { added: vec!["NEW".into()], removed: vec!["GONE".into()] }
    );
}

#[test]
fn sync_lines() {
    assert_eq!(dry_run_line(2, "/opts"), "dry run: 2 file(s) would be written to /opts");
    let done = ApplySummary { written: 3, failed: vec![] };
    assert_eq!(written_line(&done, "/opts"), "3 file(s) written to /opts");
    let failed = vec![(PortKey::parse("cat/port").unwrap(), "no".to_string())];
    let part = ApplySummary { written: 1, failed };
    assert_eq!(written_line(&part, "/opts"), "1 file(s) written to /opts, 1 failed");
}

#[test]
fn states_are_signed() {
    let complete = vec!["A".to_string(), "B".to_string()];
    assert_eq!(state_line(&complete, &SortedSet::from_list(&vec!["B".to_string()])), "-A +B");
}

#[test]
fn white_space_is_what_unicode_says() {
    for n in 0..0x110000u32 {
        if let Some(c) = char::from_u32(n) {
            assert_eq!(is_space(c), c.is_whitespace(), "U+{n:04X}");
        }
    }
}
