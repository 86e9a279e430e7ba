use optique::model::origin::PortKey;
use optique::query::makerunner::{make_args, missing_port, port_dir, read_output, QueryCtx};
use optique::query::parse::{parse_depends, parse_dump};
use optique::query::wrapper::WRAPPER;
use optique::session::base::Session;
use optique::session::layers::nofile_effective;
use optique::sorted::SortedMap;
use optique::tui::overlay::option_info;

#[test]
fn depends_forms() {
    let (edges, warns) = parse_depends(
        "/usr/local/sbin/pkg:ports-mgmt/pkg libpcre2-8.so:devel/pcre2 \
         py312-foo>=1:devel/py-foo@py312 msgfmt:devel/gettext:build garbage",
    );
    let targets: Vec<String> = edges.iter().map(|e| e.target.to_string()).collect();
    assert_eq!(
        targets,
        vec!["ports-mgmt/pkg", "devel/pcre2", "devel/py-foo@py312", "devel/gettext"]
    );
    assert_eq!(warns.len(), 1);
}

const DUMP: &str = "\
make: /dev/stdin:2: OPTIQUE|PKGNAME|nginx-1.30.4,3
make: /dev/stdin:3: OPTIQUE|FLAVORS|
make: /dev/stdin:4: OPTIQUE|FLAVOR|
make: /dev/stdin:5: OPTIQUE|OPTIONS_NAME|www_nginx
make: /dev/stdin:6: OPTIQUE|COMPLETE|DSO IPV6 LUA GSSAPI_MIT GSSAPI_HEIMDAL
make: /dev/stdin:7: OPTIQUE|DEFAULT|DSO IPV6
make: /dev/stdin:8: OPTIQUE|PORT_OPTIONS|DSO IPV6
make: /dev/stdin:9: OPTIQUE|DEPENDS|libpcre2-8.so:devel/pcre2
make: /dev/stdin:10: OPTIQUE|RADIO|GSSAPI|GSSAPI_HEIMDAL GSSAPI_MIT
make: /dev/stdin:11: OPTIQUE|DESC|LUA|3rd party lua module
make: /dev/stdin:12: OPTIQUE|DESC|GSSAPI|GSSAPI implementation
make: /dev/stdin:13: OPTIQUE|IMPLIES|GSSAPI_MIT|IPV6
make: /dev/stdin:14: OPTIQUE|BROKEN|
";

#[test]
fn dump_smoke() {
    let key = PortKey::parse("www/nginx").unwrap();
    let info = parse_dump(&key, DUMP).unwrap();
    assert_eq!(info.pkgname, "nginx-1.30.4,3");
    assert_eq!(info.canonical, key);
    assert_eq!(info.options_name, "www_nginx");
    assert_eq!(info.options.complete.len(), 5);
    assert_eq!(info.options.groups.len(), 1);
    assert_eq!(info.options.groups[0].desc, "GSSAPI implementation");
    assert_eq!(info.options.defs.find("LUA").unwrap().desc, "3rd party lua module");
    assert_eq!(info.options.defs.find("GSSAPI_MIT").unwrap().implies, vec!["IPV6"]);
    assert_eq!(info.deps.len(), 1);
    assert!(info.broken.is_none());
}

#[test]
fn a_dump_without_a_package_is_an_error() {
    let key = PortKey::parse("www/nginx").unwrap();
    let e = parse_dump(&key, "make: nothing of use\nlast words\n").err().unwrap();
    assert!(e.contains("last words"), "{e}");
}

#[test]
fn a_failed_make_is_reported_with_its_last_lines() {
    let key = PortKey::parse("www/nginx").unwrap();
    let e = read_output(&key, "one\ntwo\n", "", false, "exit status: 1").err().unwrap();
    assert_eq!(e, "make failed (exit status: 1): one | two");
    // A dump that came through all the same is used.
    assert!(read_output(&key, DUMP, "", false, "exit status: 1").is_ok());
    assert!(read_output(&key, DUMP, "", true, "exit status: 0").is_ok());
}

#[test]
fn make_is_asked_for_the_port_and_its_flavor() {
    let ctx = QueryCtx {
        portsdir: "/usr/ports".into(),
        make_conf: Some("/stage/make.conf".into()),
        port_dbdir: "/stage/db".into(),
    };
    let key = PortKey::parse("devel/git@lite").unwrap();
    assert_eq!(port_dir(&ctx, &key), "/usr/ports/devel/git");
    let args = make_args(&ctx, &key);
    for needle in ["-C", "/usr/ports/devel/git", "PORT_DBDIR=/stage/db", "FLAVOR=lite"] {
        assert!(args.iter().any(|a| a == needle), "{needle} not in {args:?}");
    }
    assert_eq!(
        missing_port(&ctx, &key),
        "no such port: devel/git (/usr/ports/devel/git missing)"
    );
}

#[test]
fn the_wrapper_dumps_what_the_parser_reads() {
    for tag in [
        "PKGNAME", "OPTIONS_NAME", "COMPLETE", "PORT_OPTIONS", "DEPENDS", "FORCE_SET",
        "FORCE_UNSET", "PORT_FORCE_SET", "PORT_FORCE_UNSET", "PKG_HELP", "OPT_DEP",
    ] {
        assert!(WRAPPER.contains(&format!("OPTIQUE|{tag}|")), "{tag}");
    }
}

const ADDS: &str = "\
OPTIQUE|PKGNAME|nginx-1.30.4,3
OPTIQUE|OPTIONS_NAME|www_nginx
OPTIQUE|COMPLETE|LUA X11 NLS
OPTIQUE|OPT_DEP|LUA|lib|libluajit-5.1.so:lang/luajit libfoo.so:cat/foo@py
OPTIQUE|OPT_DEP|LUA|build|luajit:lang/luajit lua>1:lang/luajit odd
OPTIQUE|OPT_DEP|LUA|uses|lua:module ssl
OPTIQUE|OPT_DEP|X11|run|
OPTIQUE|OPT_DEP|LUA|lib|libluajit-5.1.so:lang/luajit
OPTIQUE|PKG_HELP|/usr/ports/www/nginx/pkg-help
OPTIQUE|FORCE_SET|NLS
OPTIQUE|FORCE_UNSET|X11
OPTIQUE|PORT_FORCE_SET|X11
OPTIQUE|PORT_FORCE_UNSET|NLS
";

#[test]
fn a_dump_tells_what_an_option_adds() {
    let key = PortKey::parse("www/nginx").unwrap();
    let info = parse_dump(&key, ADDS).unwrap();
    let lua = info.options.defs.find("LUA").unwrap();
    let deps: Vec<(&str, String)> =
        lua.deps.iter().map(|d| (d.class.as_str(), d.origins.join(" "))).collect();
    // A class that comes twice is replaced, an entry without a port stays.
    assert_eq!(
        deps,
        vec![("lib", "lang/luajit".to_string()), ("build", "lang/luajit odd".to_string())]
    );
    assert_eq!(lua.uses, vec!["lua:module", "ssl"]);
    assert!(info.options.defs.find("X11").unwrap().deps.is_empty());
}

#[test]
fn option_details_show_what_the_option_adds() {
    let key = PortKey::parse("www/nginx").unwrap();
    let mut ports = SortedMap::new();
    ports.insert(key.clone(), parse_dump(&key, ADDS).unwrap());
    let roots = vec![key.clone()];
    let session = Session::new(ports, SortedMap::new(), &roots, &SortedMap::new(), false);
    let lines: Vec<String> = option_info(&session, session.ports.get(&key).unwrap(), "LUA")
        .iter()
        .map(|l| l.spans.iter().map(|s| s.text.as_str()).collect())
        .collect();
    for needle in
        ["adds when enabled", "lib deps: lang/luajit", "build deps: lang/luajit odd", "uses: lua:module ssl"]
    {
        assert!(lines.iter().any(|l| l == needle), "{needle} not in {lines:?}");
    }
}

#[test]
fn a_dump_names_the_port_notes() {
    let key = PortKey::parse("www/nginx").unwrap();
    let info = parse_dump(&key, ADDS).unwrap();
    assert_eq!(info.pkg_help.as_deref(), Some("/usr/ports/www/nginx/pkg-help"));
    assert_eq!(parse_dump(&key, DUMP).unwrap().pkg_help, None);
}

#[test]
fn dumped_per_port_force_knobs_beat_the_global_ones() {
    let key = PortKey::parse("www/nginx").unwrap();
    let info = parse_dump(&key, ADDS).unwrap();
    assert_eq!(info.options.forced_value("X11"), Some(true));
    assert_eq!(info.options.forced_value("NLS"), Some(false));
    assert_eq!(info.options.forced_value("LUA"), None);
    assert_eq!(nofile_effective(&info).to_list(), vec!["X11"]);
}
