use std::collections::BTreeMap;

use optique::cache::{
    generation_name, hex, is_generation, options_hash, prune_old_generations, sha256_hex, tree_key,
    Cache, CacheFile, SCHEMA,
};
use optique::model::options::PortOptions;
use optique::model::origin::PortKey;
use optique::model::port::PortInfo;
use optique::world::{Fact, World};

fn info(origin: &str) -> PortInfo {
    let key = PortKey::parse(origin).unwrap();
    PortInfo {
        key: key.clone(),
        canonical: key,
        pkgname: "x-1.0".into(),
        flavors: vec![],
        options_name: origin.replace('/', "_"),
        options: PortOptions::default(),
        deps: vec![],
        broken: None,
        ignore: None,
        deprecated: None,
        pkg_help: None,
        default_versions: vec![],
        warnings: vec![],
    }
}

#[test]
fn roundtrip_and_options_file_invalidation() {
    let v1 = b"v1\n".to_vec();
    let v2 = b"v2\n".to_vec();
    let mut c = Cache::open(&vec![]);
    let i = info("cat/port");
    assert!(c.lookup(&i.key, Some(&v1)).is_none());
    c.insert(&i, Some(&v1));
    assert_eq!(c.watched(&i.key).as_deref(), Some("cat_port"));
    assert!(c.lookup(&i.key, Some(&v1)).is_some());

    // Changing the options file invalidates the entry.
    assert!(c.lookup(&i.key, Some(&v2)).is_none());
    assert!(c.lookup(&i.key, None).is_none());
    // Restoring the exact content revalidates it.
    assert!(c.lookup(&i.key, Some(&v1)).is_some());
}

#[test]
fn persists_across_reopen_same_generation_only() {
    let mut c = Cache::open(&vec![]);
    let line = c.insert(&info("cat/port"), None).unwrap();
    let key = PortKey::parse("cat/port").unwrap();

    // The same generation reads the entry back; another one starts empty.
    let c2 = Cache::open(&vec![line]);
    assert!(c2.lookup(&key, None).is_some());
    assert_ne!(generation_name("treeA", "confA"), generation_name("treeB", "confA"));
    let c3 = Cache::open(&vec![]);
    assert!(c3.lookup(&key, None).is_none());
}

#[test]
fn disabled_never_stores() {
    let mut c = Cache::disabled();
    assert!(c.insert(&info("cat/port"), None).is_none());
    assert!(c.lookup(&PortKey::parse("cat/port").unwrap(), None).is_none());
}

fn files(names: &[String]) -> Vec<CacheFile> {
    names
        .iter()
        .enumerate()
        .map(|(i, n)| CacheFile { name: n.clone(), modified: Some(i as u128) })
        .collect()
}

#[test]
fn generations_are_named_by_schema_tree_and_configuration() {
    assert_eq!(
        generation_name("0123456789abcdef", "fedcba9876543210"),
        "v2-0123456789ab-fedcba987654.jsonl"
    );
    assert_eq!(generation_name("tree", "conf"), "v2-tree-conf.jsonl");
}

#[test]
fn prune_keeps_at_most_two_generations() {
    let keep = generation_name("current", "gen");
    let names = vec![
        format!("v{SCHEMA}-old1-a.jsonl"),
        format!("v{SCHEMA}-old2-b.jsonl"),
        format!("v{SCHEMA}-old3-c.jsonl"),
        keep.clone(),
    ];
    let pruned = prune_old_generations(&files(&names), &keep);
    let count = pruned.iter().filter(|p| !**p).count();
    assert!(count <= 2, "expected current + 1 old generation, got {count}");
    assert!(!pruned[3], "the current generation stays");
}

#[test]
fn prune_reaps_other_schema_generations() {
    // Pre-versioning and other-schema files are unreadable: always removed.
    let keep = generation_name("current", "gen");
    assert_eq!(keep, format!("v{SCHEMA}-current-gen.jsonl"));
    let names = vec![
        "aaaa-bbbb.jsonl".to_string(),
        "v1-cccc-dddd.jsonl".to_string(),
        "v999-eeee-ffff.jsonl".to_string(),
        keep.clone(),
    ];
    let pruned = prune_old_generations(&files(&names), &keep);
    let left: Vec<&String> =
        names.iter().zip(&pruned).filter(|(_, p)| !**p).map(|(n, _)| n).collect();
    assert_eq!(left, vec![&keep], "{left:?}");
    assert!(is_generation("x.jsonl"));
    assert!(!is_generation("x.json"));
}

/// The key of a ports tree whose `.git` holds the given files.
fn key_of(files: &[(&str, &str)]) -> String {
    let mut disk: BTreeMap<String, String> = BTreeMap::new();
    disk.insert("/ports/Mk/bsd.port.mk".into(), "# fake\n".into());
    for (rel, content) in files {
        disk.insert(format!("/ports/.git/{rel}"), content.to_string());
    }
    let dirs = if files.is_empty() { vec![] } else { vec!["/ports/.git".to_string()] };
    run_key(&disk, &dirs)
}

fn run_key(disk: &BTreeMap<String, String>, dirs: &[String]) -> String {
    let mut world = World::new();
    loop {
        let key = tree_key(&mut world, "/ports", Some(1234));
        let wanted = world.wanted();
        if wanted.is_empty() {
            return key;
        }
        for path in wanted {
            let fact = Fact {
                text: disk.get(&path).cloned(),
                is_dir: dirs.contains(&path),
                is_file: disk.contains_key(&path),
            };
            world.learn(&path, fact);
        }
    }
}

const ID: &str = "f377481e728bedfe7005118ec50f9f145ebfffac";
const OTHER: &str = "0123456789abcdef0123456789abcdef01234567";

#[test]
fn tree_key_reads_a_loose_ref() {
    let key = key_of(&[
        ("HEAD", "ref: refs/heads/main\n"),
        ("refs/heads/main", &format!("{ID}\n")),
    ]);
    assert_eq!(key, ID);
}

#[test]
fn tree_key_reads_packed_refs_when_the_loose_ref_is_missing() {
    // Comment headers and the '^' peel line of a packed tag must not be
    // mistaken for refs.
    let packed = format!(
        "# pack-refs with: peeled fully-peeled sorted \n\
         {OTHER} refs/heads/other\n\
         {ID} refs/heads/main\n\
         {OTHER} refs/tags/v1\n\
         ^{ID}\n"
    );
    assert_eq!(key_of(&[("HEAD", "ref: refs/heads/main\n"), ("packed-refs", &packed)]), ID);
}

#[test]
fn tree_key_reads_a_detached_head() {
    assert_eq!(key_of(&[("HEAD", &format!("{ID}\n"))]), ID);
}

#[test]
fn tree_key_follows_a_gitdir_file() {
    // Worktree/submodule layout: .git is a file naming the real gitdir,
    // here relative to the ports tree.
    let mut disk: BTreeMap<String, String> = BTreeMap::new();
    disk.insert("/ports/.git".into(), "gitdir: ../real-gitdir\n".into());
    disk.insert("/ports/../real-gitdir/HEAD".into(), "ref: refs/heads/mine\n".into());
    disk.insert("/ports/../real-gitdir/refs/heads/mine".into(), format!("{ID}\n"));
    assert_eq!(run_key(&disk, &["/ports/../real-gitdir".to_string()]), ID);

    // Absolute form too.
    let mut disk: BTreeMap<String, String> = BTreeMap::new();
    disk.insert("/ports/.git".into(), "gitdir: /real-gitdir\n".into());
    disk.insert("/real-gitdir/HEAD".into(), "ref: refs/heads/mine\n".into());
    disk.insert("/real-gitdir/refs/heads/mine".into(), format!("{ID}\n"));
    assert_eq!(run_key(&disk, &["/real-gitdir".to_string()]), ID);
}

#[test]
fn tree_key_falls_back_to_mtime_on_garbage() {
    // Unparsable HEAD, ref pointing nowhere, non-hex content, and a
    // gitdir file naming a missing directory: all must degrade quietly.
    for files in [
        vec![("HEAD", "not a ref at all\n")],
        vec![("HEAD", "ref: refs/heads/main\n")], // no such ref anywhere
        vec![("HEAD", "ref: ../../etc/passwd\n")],
        vec![("HEAD", "ref: refs/heads/main\n"), ("refs/heads/main", "zzz\n")],
    ] {
        let key = key_of(&files);
        assert!(key.starts_with("mtime-"), "{files:?} gave {key}");
    }

    let mut disk: BTreeMap<String, String> = BTreeMap::new();
    disk.insert("/ports/.git".into(), "gitdir: /nonexistent/gitdir\n".into());
    assert!(run_key(&disk, &[]).starts_with("mtime-"));
}

#[test]
fn tree_key_falls_back_to_mtime_without_git() {
    let key = key_of(&[]);
    assert!(key.starts_with("mtime-"), "got {key}");
}

#[test]
fn options_hash_absent_vs_present() {
    assert_eq!(options_hash(None), "ABSENT");
    let h = options_hash(Some(&b"x\n".to_vec()));
    assert_ne!(h, "ABSENT");
    assert_eq!(h.len(), 64);
}

#[test]
fn hashes_are_sha256() {
    assert_eq!(
        sha256_hex(b"abc"),
        "ba7816bf8f01cfea414140de5dae2223b00361a396177a9cb410ff61f20015ad"
    );
    assert_eq!(
        sha256_hex(b""),
        "e3b0c44298fc1c149afbf4c8996fb92427ae41e4649b934ca495991b7852b855"
    );
    assert_eq!(hex(&vec![0, 15, 255]), "000fff");
}
