use optique::cli::{
    collect_roots, default_jobs, requested, split_raw_origins, Action, CleanArgs, Cli, Command,
    RootError, RootsArgs, ScanArgs, SyncArgs, TuiArgs,
};

fn texts(list: &[&str]) -> Vec<String> {
    list.iter().map(|s| s.to_string()).collect()
}

fn roots(list: &[&str]) -> RootsArgs {
    RootsArgs { origins: texts(list) }
}

fn cli(files: &[&str], command: Option<Command>) -> Cli {
    Cli { files: texts(files), command }
}

#[test]
fn cleaning_unused_files_needs_a_list() {
    // No origins, no -f: there is nothing to compute a closure from.
    let args = CleanArgs { roots: roots(&[]), redundant: false, unused: true, dry_run: false };
    let err = requested(cli(&[], Some(Command::Clean(args)))).unwrap_err();
    assert!(err.contains("package list"), "{err}");

    let args = CleanArgs { roots: roots(&[]), redundant: false, unused: true, dry_run: false };
    let r = requested(cli(&["list"], Some(Command::Clean(args)))).unwrap();
    assert_eq!(r.action, Action::Clean { redundant: false, unused: true, dry_run: false });
    assert_eq!(r.files, vec!["list"]);
}

#[test]
fn a_list_for_clean_goes_with_unused() {
    // Plain clean walks the whole options dir; a list would be silently
    // ignored, so it is an error instead.
    let args = CleanArgs {
        roots: roots(&["ports-mgmt/pkg"]),
        redundant: true,
        unused: false,
        dry_run: true,
    };
    let err = requested(cli(&[], Some(Command::Clean(args)))).unwrap_err();
    assert!(err.contains("--unused"), "{err}");

    let args = CleanArgs { roots: roots(&[]), redundant: true, unused: false, dry_run: true };
    let r = requested(cli(&[], Some(Command::Clean(args)))).unwrap();
    assert_eq!(r.action, Action::Clean { redundant: true, unused: false, dry_run: true });
}

#[test]
fn no_ports_at_all_is_an_error() {
    let err = requested(cli(&[], None)).unwrap_err();
    assert!(err.contains("no ports given"), "{err}");
}

#[test]
fn bare_origins_open_the_tui() {
    let raw = Command::Origins(texts(&["www/nginx", "-f", "list", "--file=more"]));
    let r = requested(cli(&["first"], Some(raw))).unwrap();
    assert_eq!(r.action, Action::Tui { drive: false });
    assert_eq!(r.origins, vec!["www/nginx"]);
    assert_eq!(r.files, vec!["first", "list", "more"]);
}

#[test]
fn subcommands_carry_their_flags() {
    let tui = Command::Tui(TuiArgs { roots: roots(&["www/nginx"]), drive: true });
    assert_eq!(requested(cli(&[], Some(tui))).unwrap().action, Action::Tui { drive: true });
    let scan = Command::Scan(ScanArgs { roots: roots(&["www/nginx"]), json: true });
    assert_eq!(requested(cli(&[], Some(scan))).unwrap().action, Action::Scan { json: true });
    let sync = Command::Sync(SyncArgs { roots: roots(&["www/nginx"]), dry_run: true });
    let r = requested(cli(&[], Some(sync))).unwrap();
    assert_eq!(r.action, Action::Sync { dry_run: true });
    assert_eq!(r.origins, vec!["www/nginx"]);
}

#[test]
fn a_file_flag_needs_its_file() {
    assert!(split_raw_origins(&texts(&["www/nginx", "-f"])).is_err());
    let (origins, files) = split_raw_origins(&texts(&["a/b", "--file", "x", "c/d"])).unwrap();
    assert_eq!(origins, vec!["a/b", "c/d"]);
    assert_eq!(files, vec!["x"]);
}

#[test]
fn malformed_origins_are_named() {
    assert_eq!(
        collect_roots(&texts(&["www/nginx", "not-an-origin"]), &vec![]),
        Err(RootError::Malformed("not-an-origin".into()))
    );
}

#[test]
fn roots_need_an_entry() {
    assert_eq!(collect_roots(&vec![], &texts(&["# nothing\n\n"])), Err(RootError::Nothing));
}

#[test]
fn roots_come_once_each_from_arguments_then_lists() {
    let list = "# my ports\n  devel/git@lite  \nwww/nginx\n\n";
    let keys = collect_roots(&texts(&["www/nginx"]), &texts(&[list])).unwrap();
    let names: Vec<String> = keys.iter().map(|k| k.to_string()).collect();
    assert_eq!(names, vec!["www/nginx", "devel/git@lite"]);
}

#[test]
fn jobs_follow_the_processors_up_to_sixteen() {
    assert_eq!(default_jobs(Some(3)), 3);
    assert_eq!(default_jobs(Some(64)), 16);
    assert_eq!(default_jobs(None), 4);
}
