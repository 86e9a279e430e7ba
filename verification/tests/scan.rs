use optique::model::options::PortOptions;
use optique::model::origin::PortKey;
use optique::model::port::{DepEdge, PortInfo};
use optique::moved::Moved;
use optique::query::refresher::coalesce;
use optique::query::scanner::{Scan, ScanEvent, ScanResult, Step};

fn key(text: &str) -> PortKey {
    PortKey::parse(text).unwrap()
}

fn info(origin: &str, deps: &[&str]) -> PortInfo {
    let k = key(origin);
    PortInfo {
        key: k.clone(),
        canonical: k,
        pkgname: "x-1.0".into(),
        flavors: vec![],
        options_name: origin.replace('/', "_"),
        options: PortOptions::default(),
        deps: deps.iter().map(|d| DepEdge { target: key(d), raw: d.to_string() }).collect(),
        broken: None,
        ignore: None,
        deprecated: None,
        pkg_help: None,
        default_versions: vec![],
        warnings: vec![],
    }
}

/// Run a scan: the cache knows some ports, a query knows the others.
fn run(roots: &[&str], cached: &[PortInfo], queried: &[PortInfo], moved: &Moved) -> ScanResult {
    let find = |list: &[PortInfo], k: &PortKey| {
        list.iter()
            .find(|i| i.key == *k)
            .map(|i| {
                let deps: Vec<String> = i.deps.iter().map(|d| d.raw.clone()).collect();
                let deps: Vec<&str> = deps.iter().map(|d| d.as_str()).collect();
                info(&k.to_string(), &deps)
            })
    };
    let roots: Vec<PortKey> = roots.iter().map(|r| key(r)).collect();
    let mut scan = Scan::new(&roots);
    let mut flying: Vec<PortKey> = vec![];
    loop {
        let (next, step) = scan.advance(moved);
        match step {
            Step::Lookup(k) => {
                let (next, miss) = next.answer(find(cached, &k));
                flying.extend(miss);
                scan = next;
            }
            Step::Wait => {
                let k = flying.remove(0);
                let event = match find(queried, &k) {
                    Some(i) => ScanEvent::PortDone(i),
                    None => ScanEvent::PortError { key: k, msg: "no such port".into() },
                };
                scan = next.land(event);
                let p = scan.progress();
                assert!(p.done <= p.discovered);
            }
            Step::Finished => return next.finish(),
        }
    }
}

fn found(r: &ScanResult) -> Vec<String> {
    r.ports.key_list().iter().map(|k| k.to_string()).collect()
}

#[test]
fn a_scan_covers_the_closure() {
    let moved = Moved::parse("");
    let r = run(
        &["cat/root"],
        &[info("cat/mid", &["cat/leaf"])],
        &[info("cat/root", &["cat/mid", "cat/leaf"]), info("cat/leaf", &["cat/root"])],
        &moved,
    );
    assert_eq!(found(&r), vec!["cat/leaf", "cat/mid", "cat/root"]);
    assert_eq!(r.from_cache, 1);
    assert_eq!(r.queried, 2);
    assert!(r.errors.is_empty());
}

#[test]
fn a_scan_follows_renames_and_reports_failures() {
    let moved = Moved::parse("cat/old|cat/new|2020-01-01|renamed\n");
    let r = run(&["cat/root"], &[], &[info("cat/root", &["cat/old", "cat/gone"]), info("cat/new", &[])], &moved);
    assert_eq!(found(&r), vec!["cat/new", "cat/root"]);
    assert_eq!(r.errors.len(), 1);
    assert_eq!(r.errors[0].0, key("cat/gone"));
    assert_eq!(r.errors[0].1, "no such port");
}

#[test]
fn a_scan_of_nothing_is_empty() {
    let r = run(&[], &[], &[], &Moved::parse(""));
    assert!(found(&r).is_empty());
}

#[test]
fn refresh_batches_are_joined() {
    let (keys, batches) =
        coalesce(&vec![vec![key("cat/a"), key("cat/b")], vec![key("cat/b"), key("cat/c")]]);
    assert_eq!(batches, 2);
    let mut names: Vec<String> = keys.iter().map(|k| k.to_string()).collect();
    names.dedup();
    assert_eq!(names, vec!["cat/a", "cat/b", "cat/c"]);
}

#[test]
fn removed_roots_and_dependencies_are_reported() {
    let moved = Moved::parse(
        "cat/gone||2020-01-01|dead\ncat/lost||2020-01-01|expired\ncat/was|cat/is|2020-01-01|new\n",
    );
    let r = run(
        &["cat/root", "cat/gone", "cat/was"],
        &[],
        &[info("cat/root", &["cat/lost", "cat/is"]), info("cat/is", &[])],
        &moved,
    );
    assert_eq!(found(&r), vec!["cat/is", "cat/root"]);
    let mut failed: Vec<String> = r.errors.iter().map(|e| e.0.to_string()).collect();
    failed.sort();
    assert_eq!(failed, vec!["cat/gone", "cat/lost"]);
    // Every name that was asked for leads to a port.
    for k in r.aliases.key_list() {
        assert!(r.ports.get(r.aliases.get(&k).unwrap()).is_some());
    }
    assert!(r.aliases.get(&key("cat/is")).is_some());
    assert!(r.aliases.get(&key("cat/root")).is_some());
}

#[test]
fn a_scan_waits_for_every_query() {
    let moved = Moved::parse("");
    let scan = Scan::new(&vec![key("cat/a"), key("cat/b")]);
    let (scan, _) = scan.advance(&moved);
    let (scan, first) = scan.answer(None);
    let (scan, _) = scan.advance(&moved);
    let (scan, second) = scan.answer(None);
    let (scan, step) = scan.advance(&moved);
    assert!(matches!(step, Step::Wait));
    let scan = scan.land(ScanEvent::PortError { key: first.unwrap(), msg: "no".into() });
    let (scan, step) = scan.advance(&moved);
    assert!(matches!(step, Step::Wait));
    let scan = scan.land(ScanEvent::PortDone(info(&second.unwrap().to_string(), &[])));
    let (scan, step) = scan.advance(&moved);
    assert!(matches!(step, Step::Finished));
    let r = scan.finish();
    assert_eq!((r.errors.len(), r.aliases.len()), (1, 1));
}
