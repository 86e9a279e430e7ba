use optique::model::origin::{valid_origin, PortKey};

#[test]
fn parse_plain() {
    let k = PortKey::parse("www/nginx").unwrap();
    assert_eq!(k.origin, "www/nginx");
    assert_eq!(k.flavor, None);
    assert_eq!(k.to_string(), "www/nginx");
}

#[test]
fn parse_flavored() {
    let k = PortKey::parse("devel/py-Automat@py312").unwrap();
    assert_eq!(k.origin, "devel/py-Automat");
    assert_eq!(k.flavor.as_deref(), Some("py312"));
    assert_eq!(k.to_string(), "devel/py-Automat@py312");
}

#[test]
fn reject_malformed() {
    assert!(PortKey::parse("nginx").is_none());
    assert!(PortKey::parse("/usr/local/bin/perl").is_none());
    assert!(PortKey::parse("a/b/c").is_none());
    assert!(PortKey::parse("").is_none());
}

#[test]
fn an_empty_flavor_is_no_flavor() {
    let k = PortKey::parse("www/nginx@").unwrap();
    assert_eq!(k.flavor, None);
    assert_eq!(k.to_string(), "www/nginx");
}

#[test]
fn keys_survive_their_text() {
    for s in ["www/nginx", "devel/git@lite", "x11-fonts/font_util"] {
        assert_eq!(PortKey::parse(s).unwrap().to_string(), s);
    }
}

#[test]
fn with_origin_keeps_the_flavor() {
    let k = PortKey::parse("devel/git@lite").unwrap();
    let moved = k.with_origin("devel/git-lite");
    assert_eq!(moved.to_string(), "devel/git-lite@lite");
    assert!(k.equals(&PortKey::parse(" devel/git@lite ").unwrap()));
    assert!(!k.equals(&moved));
}

#[test]
fn origins_have_two_parts() {
    assert!(valid_origin("www/nginx"));
    assert!(!valid_origin("www/"));
    assert!(!valid_origin("/nginx"));
    assert!(!valid_origin("www"));
}
