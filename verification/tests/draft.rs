use std::collections::BTreeMap;

use optique::cache::sha256_hex;
use optique::draft::{age_label, draft_path_in, Draft};
use optique::model::options::OptionSet;
use optique::session::base::{OptState, Session};
use optique::sorted::{SortedMap, SortedSet};
use optique::staging::StagingDb;

fn set(items: &[&str]) -> OptionSet {
    let list: Vec<String> = items.iter().map(|s| s.to_string()).collect();
    SortedSet::from_list(&list)
}

/// A session with only `states` filled in: that is all a draft reads.
fn session_with(states: Vec<(&str, OptState)>) -> Session {
    let mut map = SortedMap::new();
    for (name, state) in states {
        map.insert(name.to_string(), state);
    }
    Session {
        ports: SortedMap::new(),
        states: map,
        aliases: SortedMap::new(),
        roots: vec![],
        owners: SortedMap::new(),
        minimal: false,
    }
}

/// Drafts by file.
type Store = BTreeMap<String, Draft>;

fn save(store: &mut Store, session: &Session, options_dir: &str) -> String {
    let path = draft_path_in("/cache", options_dir);
    store.insert(path.clone(), Draft::of(session, options_dir, 1_700_000_000));
    path
}

fn load<'a>(store: &'a Store, options_dir: &str) -> Option<&'a Draft> {
    store.get(&draft_path_in("/cache", options_dir))
}

#[test]
fn saves_only_dirty_states_and_round_trips() {
    let session = session_with(vec![
        ("cat_dirty", OptState { saved: None, baseline: set(&["A"]), staged: set(&["A", "B"]) }),
        ("cat_clean", OptState { saved: None, baseline: set(&["X"]), staged: set(&["X"]) }),
    ]);
    let mut store = Store::new();
    let path = save(&mut store, &session, "/options");
    assert!(store.contains_key(&path), "draft file written");
    assert_eq!(path, draft_path_in("/cache", "/options"));

    let draft = load(&store, "/options").unwrap();
    assert_eq!(draft.options_dir, "/options");
    assert_eq!(draft.staged.key_list(), vec!["cat_dirty".to_string()]);
    assert!(draft.staged.find("cat_dirty").unwrap().equals(&set(&["A", "B"])));
    assert!(draft.saved_at_secs > 0);

    store.remove(&path);
    assert!(load(&store, "/options").is_none());
}

#[test]
fn drafts_are_keyed_by_options_dir() {
    let session = session_with(vec![(
        "cat_port",
        OptState { saved: None, baseline: set(&[]), staged: set(&["A"]) },
    )]);
    let mut store = Store::new();
    save(&mut store, &session, "/opts/a");
    assert!(load(&store, "/opts/a").is_some());
    assert!(load(&store, "/opts/b").is_none(), "another dir has its own draft");
}

#[test]
fn draft_files_are_named_by_the_digest_of_the_dir() {
    let digest = sha256_hex(b"/opts/a");
    let path = draft_path_in("/cache", "/opts/a");
    assert_eq!(path, format!("/cache/drafts/{}.json", &digest[..16]));
}

#[test]
fn age_labels() {
    assert_eq!(age_label(120), "2m ago");
    assert_eq!(age_label(7200), "2h ago");
    assert_eq!(age_label(259_200), "3d ago");
    assert_eq!(age_label(0), "0m ago");
    assert_eq!(age_label(3600 * 47), "47h ago");
}

#[test]
fn a_clock_that_went_backwards_gives_age_zero() {
    let draft = Draft {
        options_dir: "/options".into(),
        saved_at_secs: 100,
        staged: SortedMap::new(),
    };
    assert_eq!(draft.age_secs(160), 60);
    assert_eq!(draft.age_secs(40), 0);
}

#[test]
fn staged_files_live_under_db() {
    let db = StagingDb::create("/tmp/stage");
    assert_eq!(db.path(), "/tmp/stage/db");
    assert_eq!(db.dir("cat_port"), "/tmp/stage/db/cat_port");
    assert_eq!(db.file("cat_port"), "/tmp/stage/db/cat_port/options");
}

#[test]
fn seeds_existing_files() {
    let db = StagingDb::create("/tmp/stage");
    let names = vec!["cat_port".to_string(), "cat_other".to_string()];
    let content = b"OPTIONS_FILE_SET+=A\n".to_vec();
    let seeds = db.seeds(&names, &vec![Some(content.clone()), None]);
    assert_eq!(seeds, vec![("/tmp/stage/db/cat_port/options".to_string(), content)]);
}
