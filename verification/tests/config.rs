use std::collections::{BTreeMap, BTreeSet};

use optique::config::{
    blacklist_layers, layer_make_conf, make_conf_layers, options_dir_candidates, resolve,
    resolve_options_dir, resolve_portsdir, resolve_synth, synth_ini_has_section, synth_ini_lookup,
    Blacklist,
};
use optique::glob::glob_match;
use optique::world::{Fact, World};

/// A file system in memory.
#[derive(Default)]
struct Disk {
    files: BTreeMap<String, String>,
    dirs: BTreeSet<String>,
}

impl Disk {
    fn dir(mut self, path: &str) -> Self {
        self.dirs.insert(path.to_string());
        self
    }

    fn file(mut self, path: &str, text: &str) -> Self {
        let mut dir = path;
        while let Some(i) = dir.rfind('/') {
            dir = &dir[..i];
            self.dirs.insert(dir.to_string());
        }
        self.files.insert(path.to_string(), text.to_string());
        self
    }

    fn fact(&self, path: &str) -> Fact {
        Fact {
            text: self.files.get(path).cloned(),
            is_dir: self.dirs.contains(path),
            is_file: self.files.contains_key(path),
        }
    }

    /// Run a resolution until it has asked for nothing that is not known.
    fn run<T>(&self, f: impl Fn(&mut World) -> T) -> T {
        let mut world = World::new();
        loop {
            let r = f(&mut world);
            let wanted = world.wanted();
            if wanted.is_empty() {
                return r;
            }
            for path in wanted {
                world.learn(&path, self.fact(&path));
            }
        }
    }
}

#[test]
fn options_candidates_match_manpage_order() {
    let c = options_dir_candidates(Some("j"), "t", Some("s"));
    assert_eq!(
        c,
        vec![
            "j-t-s-options",
            "j-s-options",
            "j-t-options",
            "t-s-options",
            "s-options",
            "t-options",
            "j-options",
            "options"
        ]
    );
    assert_eq!(
        options_dir_candidates(None, "t", Some("s")),
        vec!["t-s-options", "s-options", "t-options", "options"]
    );
    assert_eq!(options_dir_candidates(None, "t", None), vec!["t-options", "options"]);
}

#[test]
fn options_dir_first_match_wins() {
    let disk = Disk::default().dir("/pd/options").dir("/pd/s-options");
    let at = |jail: Option<&'static str>, set: Option<&'static str>| {
        disk.run(|w| resolve_options_dir(w, "/pd", jail, "default", false, set))
    };
    // set-specific beats the generic one
    let (dir, is_new) = at(None, Some("s"));
    assert_eq!(dir, "/pd/s-options");
    assert!(!is_new);
    // jail-specific dirs missing: falls through to the set dir
    let (dir, _) = at(Some("j"), Some("s"));
    assert_eq!(dir, "/pd/s-options");
    // no flags: plain options
    let (dir, _) = at(None, None);
    assert_eq!(dir, "/pd/options");
}

#[test]
fn options_dir_created_name_mirrors_poudriere_options() {
    let disk = Disk::default();
    let (dir, is_new) =
        disk.run(|w| resolve_options_dir(w, "/pd", Some("j"), "t", true, Some("s")));
    assert_eq!(dir, "/pd/j-t-s-options");
    assert!(is_new);
    // tree not explicit -> left out of the created name
    let (dir, _) = disk.run(|w| resolve_options_dir(w, "/pd", None, "default", false, Some("s")));
    assert_eq!(dir, "/pd/s-options");
}

#[test]
fn portsdir_resolution_via_poudriere_mnt() {
    let tree = Disk::default().file("/tree/Mk/bsd.port.mk", "# fake\n");
    let disk = tree.file("/pd/ports/mytree/mnt", "/tree\n");
    assert_eq!(disk.run(|w| resolve_portsdir(w, "/pd", "mytree")).unwrap(), "/tree");
    // A tree pointing at a non-ports dir is an error, not a fallback.
    let disk = disk.file("/pd/ports/mytree/mnt", "/nonexistent\n");
    assert!(disk.run(|w| resolve_portsdir(w, "/pd", "mytree")).is_err());
}

#[test]
fn make_conf_layering_order_matches_manpage() {
    let layers = [
        ("make.conf", "A=1"),
        ("s1-make.conf", "B=2"),
        ("t1-make.conf", "C=3"),
        ("j1-make.conf", "D=4"),
        ("t1-s1-make.conf", "E=5"),
        ("j1-t1-make.conf", "F=6"),
        ("j1-s1-make.conf", "G=7"),
        ("j1-t1-s1-make.conf", "H=8"),
    ];
    let mut disk = Disk::default();
    for (name, content) in &layers {
        disk = disk.file(&format!("/pd/{name}"), &format!("{content}\n"));
    }
    let conf =
        disk.run(|w| layer_make_conf(w, "/pd", Some("j1"), "t1", Some("s1"), "/stage"));
    assert_eq!(conf.sources.len(), 8);
    assert!(conf.path.is_some());
    let text = conf.text;
    let idx = |needle: &str| text.find(needle).unwrap();
    let order: Vec<usize> = layers.iter().map(|(_, c)| idx(c)).collect();
    assert!(order.windows(2).all(|w| w[0] < w[1]), "layers out of order: {text}");
}

#[test]
fn make_conf_layers_leave_out_what_is_not_given() {
    assert_eq!(make_conf_layers(None, "t", None), vec!["make.conf", "t-make.conf"]);
}

#[test]
fn synth_ini_lookup_picks_section_then_global() {
    let ini = "\
; leading comment
[Global Configuration]
Directory_portsdir= /global/ports
Directory_options = /global/options   # trailing comment

[LiveSystem]
Directory_portsdir=/live/ports
Operating_system= FreeBSD

[Other]
Directory_portsdir = /other/ports
";
    // Profile section wins over the global one.
    assert_eq!(
        synth_ini_lookup(ini, "LiveSystem", "Directory_portsdir").as_deref(),
        Some("/live/ports")
    );
    // Key absent from the profile: the global section answers.
    assert_eq!(
        synth_ini_lookup(ini, "LiveSystem", "Directory_options").as_deref(),
        Some("/global/options")
    );
    // Sections are not confused with each other.
    assert_eq!(
        synth_ini_lookup(ini, "Other", "Directory_portsdir").as_deref(),
        Some("/other/ports")
    );
    // Unknown profile still sees the global fallback...
    assert_eq!(
        synth_ini_lookup(ini, "Nope", "Directory_portsdir").as_deref(),
        Some("/global/ports")
    );
    // ...but an unknown key is None, and keys are case-sensitive.
    assert_eq!(synth_ini_lookup(ini, "LiveSystem", "Directory_packages"), None);
    assert_eq!(synth_ini_lookup(ini, "LiveSystem", "directory_portsdir"), None);
    assert!(synth_ini_has_section(ini, "Other"));
    assert!(!synth_ini_has_section(ini, "Nope"));
}

#[test]
fn synth_ini_lookup_ignores_comments_and_junk() {
    let ini = "\
#[LiveSystem]
#Directory_portsdir=/commented/out
[LiveSystem]
; Directory_options=/also/commented
Directory_options=
   Directory_portsdir   =   /spaced/ports
not a key value line
";
    // A commented-out section header never opens a section, and a
    // commented-out or empty assignment counts as unset.
    assert_eq!(
        synth_ini_lookup(ini, "LiveSystem", "Directory_portsdir").as_deref(),
        Some("/spaced/ports")
    );
    assert_eq!(synth_ini_lookup(ini, "LiveSystem", "Directory_options"), None);
    // Nothing at all: no panic, no value.
    assert_eq!(synth_ini_lookup("", "LiveSystem", "Directory_portsdir"), None);
}

#[test]
fn synth_notes_flag_missing_profile_and_live_options_dir() {
    let disk = Disk::default()
        .file("/usr/ports/Mk/bsd.port.mk", "# fake\n")
        .file("/synth/synth.ini", "[Global Configuration]\nprofile_selected= Live\n[Live]\n");
    let notes = |profile: &'static str, dir: Option<&'static str>| {
        disk.run(|w| resolve_synth(w, "/synth", profile, false, dir, "/stage")).unwrap().notes
    };

    // Unknown named profile: noted, defaults still apply (/var/db/ports
    // triggers the live-dir note too).
    let n = notes("typo", None);
    assert!(n.iter().any(|n| n.contains("'typo' has no section")), "{n:?}");
    assert!(n.iter().any(|n| n.contains("live /var/db/ports")), "{n:?}");

    // Bare -s honours profile_selected; known section → no missing note.
    let n = notes("", None);
    assert!(n.iter().any(|n| n.contains("profile Live (synth.ini")), "{n:?}");
    assert!(!n.iter().any(|n| n.contains("no section")), "{n:?}");

    // -o override: no live-dir note.
    let n = notes("Live", Some("/other"));
    assert!(!n.iter().any(|n| n.contains("live /var/db/ports")), "{n:?}");
}

#[test]
fn synth_resolution_follows_the_ini() {
    let disk = Disk::default()
        .file("/t/ports/Mk/bsd.port.mk", "# fake\n")
        .dir("/t/db-ports")
        .file(
            "/synth/synth.ini",
            "[Global Configuration]\nprofile_selected= LiveSystem\n\n\
             [LiveSystem]\nDirectory_portsdir= /t/ports\nDirectory_options=/t/db-ports\n",
        )
        .file("/synth/LiveSystem-make.conf", "DEFAULT_VERSIONS+=ssl=openssl\n")
        // A second profile's make.conf must not be picked up.
        .file("/synth/Other-make.conf", "A=1\n");

    let s = disk
        .run(|w| resolve_synth(w, "/synth", "LiveSystem", false, None, "/stage"))
        .unwrap();
    assert_eq!(s.portsdir, "/t/ports");
    assert_eq!(s.options_dir, "/t/db-ports");
    assert!(!s.options_dir_is_new);
    assert_eq!(s.make_conf.sources, vec!["/synth/LiveSystem-make.conf"]);
    assert!(s.make_conf.path.is_some());
    let staged = s.make_conf.text;
    assert!(staged.contains("ssl=openssl"), "{staged}");
    assert!(!staged.contains("A=1"), "other profile leaked in: {staged}");
    // synth has no blacklist, and -p was not given so no note.
    assert!(s.blacklist.is_empty());
    assert!(s.notes.is_empty());
    assert!(!s.make_conf.hash.is_empty());

    // -o wins over Directory_options; -p only earns a note.
    let s = disk
        .run(|w| resolve_synth(w, "/synth", "LiveSystem", true, Some("/elsewhere"), "/stage"))
        .unwrap();
    assert_eq!(s.options_dir, "/elsewhere");
    assert!(s.options_dir_is_new);
    assert_eq!(s.notes.len(), 1);
    assert!(s.notes[0].contains("Directory_portsdir"), "{:?}", s.notes);
}

#[test]
fn synth_resolution_without_profile_files() {
    // Only the global section, and no <profile>-make.conf at all.
    let disk = Disk::default()
        .file("/t/ports/Mk/bsd.port.mk", "# fake\n")
        .file(
            "/synth/synth.ini",
            "[Global Configuration]\nDirectory_portsdir=/t/ports\nDirectory_options=/t/db-ports\n",
        );
    let s = disk
        .run(|w| resolve_synth(w, "/synth", "LiveSystem", false, None, "/stage"))
        .unwrap();
    assert_eq!(s.portsdir, "/t/ports");
    // Nonexistent Directory_options is still the target, flagged as new.
    assert_eq!(s.options_dir, "/t/db-ports");
    assert!(s.options_dir_is_new);
    assert!(s.make_conf.path.is_none(), "nothing to stage");
    assert!(s.make_conf.sources.is_empty());

    // Directory_portsdir naming a non-tree is an error, not a fallback.
    let disk = disk.file("/synth/synth.ini", "[LiveSystem]\nDirectory_portsdir=/t/nope\n");
    let err = disk
        .run(|w| resolve_synth(w, "/synth", "LiveSystem", false, Some("/t/db-ports"), "/stage"))
        .unwrap_err();
    assert!(err.contains("not a ports tree"), "{err}");

    // No synth.ini: options dir falls back to /var/db/ports.
    let disk = Disk::default().file("/usr/ports/Mk/bsd.port.mk", "# fake\n");
    let s = disk
        .run(|w| resolve_synth(w, "/synth", "LiveSystem", false, None, "/stage"))
        .unwrap();
    assert_eq!(s.options_dir, "/var/db/ports");
}

#[test]
fn glob_match_handles_poudriere_style_entries() {
    // A pattern without '*' is an exact match, nothing else.
    assert!(glob_match("www/nginx", "www/nginx"));
    assert!(!glob_match("www/nginx", "www/nginx-devel"));
    assert!(!glob_match("www/nginx", "www/ngin"));
    // Trailing '*' matches any tail, including the empty one.
    assert!(glob_match("www/*", "www/nginx"));
    assert!(glob_match("www/nginx*", "www/nginx-devel"));
    assert!(glob_match("www/nginx*", "www/nginx"));
    assert!(!glob_match("www/*", "mail/dovecot"));
    // '*' alone matches everything, interior globs anchor both ends.
    assert!(glob_match("*", "anything/at-all"));
    assert!(glob_match("*", ""));
    assert!(glob_match("*/nginx", "www/nginx"));
    assert!(glob_match("www/*devel", "www/nginx-devel"));
    assert!(!glob_match("www/*devel", "www/nginx"));
}

#[test]
fn globs_backtrack() {
    assert!(glob_match("*ab*abc", "xabxababc"));
    assert!(!glob_match("*ab*abd", "xabxababc"));
    assert!(!glob_match("", "x"));
}

#[test]
fn blacklist_layers_and_matching() {
    let disk = Disk::default()
        .file("/pd/blacklist", "# comment\n\nwww/nginx\n")
        .file("/pd/s1-blacklist", "devel/*   # globbed\n");

    let bl = disk.run(|w| Blacklist::load(w, "/pd", None, "default", Some("s1")));
    assert_eq!(bl.sources.len(), 2);
    assert!(!bl.is_empty());
    assert!(bl.matches("www/nginx"));
    assert!(bl.matches("devel/anything"));
    assert!(!bl.matches("mail/dovecot"));

    // Without -z the set layer is not even looked at.
    let bl = disk.run(|w| Blacklist::load(w, "/pd", None, "default", None));
    assert_eq!(bl.sources, vec!["/pd/blacklist"]);
    assert!(bl.matches("www/nginx"));
    assert!(!bl.matches("devel/anything"));

    // No poudriere.d at all: empty, matches nothing.
    let bl = disk.run(|w| Blacklist::load(w, "/nope", Some("j1"), "t1", Some("s1")));
    assert!(bl.is_empty());
    assert!(!bl.matches("www/nginx"));
}

#[test]
fn blacklist_layer_order_matches_manpage() {
    assert_eq!(
        blacklist_layers(Some("j"), "t", Some("s")),
        vec![
            "blacklist",
            "s-blacklist",
            "t-blacklist",
            "j-blacklist",
            "t-s-blacklist",
            "j-t-blacklist",
            "j-s-blacklist",
            "j-t-s-blacklist"
        ]
    );
    assert_eq!(blacklist_layers(None, "t", None), vec!["blacklist", "t-blacklist"]);
}

#[test]
fn settings_of_a_poudriere_layout() {
    let d = "/usr/local/etc/poudriere.d";
    let disk = Disk::default()
        .dir(d)
        .file(&format!("{d}/ports/default/mnt"), "/tree\n")
        .file("/tree/Mk/bsd.port.mk", "# fake\n")
        .dir(&format!("{d}/ws-options"))
        .file(&format!("{d}/make.conf"), "A=1\n")
        .file(&format!("{d}/blacklist"), "www/*\n");
    let s = disk.run(|w| resolve(w, None, None, Some("ws"), None, None, "/stage")).unwrap();
    assert_eq!(s.portsdir, "/tree");
    assert_eq!(s.options_dir, format!("{d}/ws-options"));
    assert!(!s.options_dir_is_new);
    assert_eq!(s.make_conf.sources, vec![format!("{d}/make.conf")]);
    assert_eq!(s.make_conf.path.as_deref(), Some("/stage/make.conf"));
    assert!(s.blacklist.matches("www/nginx"));

    // -o bypasses poudriere's resolution.
    let s = disk
        .run(|w| resolve(w, None, None, Some("ws"), None, Some("/var/db/ports"), "/stage"))
        .unwrap();
    assert_eq!(s.options_dir, "/var/db/ports");
}
