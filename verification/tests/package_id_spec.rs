use cargo_core::package_id_spec::{PackageId, PackageIdSpec, Version};
use cargo_core::source_id::SourceId;
use cargo_core::url::Url;

fn url(s: &str) -> Result<Url, ()> {
    Url::parse(s).ok_or(())
}

fn version(s: &str) -> Version {
    Version::parse(s).unwrap()
}

fn spec(name: &str, v: Option<Version>, u: Option<Url>) -> PackageIdSpec {
    PackageIdSpec::new(name.to_string(), v, u)
}

#[test]
fn good_parsing() {
    fn ok(spec: &str, expected: PackageIdSpec) {
        let parsed = PackageIdSpec::parse(spec).unwrap();
        assert_eq!(parsed, expected);
        assert_eq!(parsed.to_string(), spec);
    }

    ok("http://crates.io/foo#1.2.3", spec("foo", Some(version("1.2.3")), Some(url("http://crates.io/foo").unwrap())));
    ok("http://crates.io/foo#bar:1.2.3", spec("bar", Some(version("1.2.3")), Some(url("http://crates.io/foo").unwrap())));
    ok("crates.io/foo", spec("foo", None, Some(url("cargo://crates.io/foo").unwrap())));
    ok("crates.io/foo#1.2.3", spec("foo", Some(version("1.2.3")), Some(url("cargo://crates.io/foo").unwrap())));
    ok("crates.io/foo#bar", spec("bar", None, Some(url("cargo://crates.io/foo").unwrap())));
    ok("crates.io/foo#bar:1.2.3", spec("bar", Some(version("1.2.3")), Some(url("cargo://crates.io/foo").unwrap())));
    ok("foo", spec("foo", None, None));
    ok("foo:1.2.3", spec("foo", Some(version("1.2.3")), None));
}

#[test]
fn bad_parsing() {
    assert!(PackageIdSpec::parse("baz:").is_err());
    assert!(PackageIdSpec::parse("baz:1.0").is_err());
    assert!(PackageIdSpec::parse("http://baz:1.0").is_err());
    assert!(PackageIdSpec::parse("http://#baz:1.0").is_err());
}

#[test]
fn matching() {
    let url = Url::parse("http://example.com").unwrap();
    let sid = SourceId::for_registry(&url);
    let foo = PackageId::new("foo", "1.2.3", &sid).unwrap();
    let bar = PackageId::new("bar", "1.2.3", &sid).unwrap();

    assert!(PackageIdSpec::parse("foo").unwrap().matches(&foo));
    assert!(!PackageIdSpec::parse("foo").unwrap().matches(&bar));
    assert!(PackageIdSpec::parse("foo:1.2.3").unwrap().matches(&foo));
    assert!(!PackageIdSpec::parse("foo:1.2.2").unwrap().matches(&foo));
}

#[test]
fn empty_fragment_is_reported() {
    assert!(PackageIdSpec::parse_checked("crates.io/foo#").is_none());
    assert!(PackageIdSpec::parse_checked("foo").is_some());
}

#[test]
fn query_selects_single_match() {
    let url = Url::parse("http://example.com").unwrap();
    let sid = SourceId::for_registry(&url);
    let ids = vec![
        PackageId::new("foo", "1.2.3", &sid).unwrap(),
        PackageId::new("bar", "1.2.3", &sid).unwrap(),
        PackageId::new("foo", "1.3.0", &sid).unwrap(),
    ];
    assert_eq!(PackageIdSpec::parse("bar").unwrap().query(&ids).unwrap(), 1);
    assert_eq!(PackageIdSpec::parse("foo:1.3.0").unwrap().query(&ids).unwrap(), 2);
    assert!(PackageIdSpec::parse("foo").unwrap().query(&ids).is_err());
    assert!(PackageIdSpec::parse("baz").unwrap().query(&ids).is_err());
}

#[test]
fn spec_from_a_parsed_url() {
    let s = PackageIdSpec::from_url(url("https://example.com/foo#bar").unwrap()).unwrap();
    assert_eq!(s.name(), "bar");
    assert!(s.version().is_none());
    let s = PackageIdSpec::from_url(url("https://example.com/foo").unwrap()).unwrap();
    assert_eq!(s.name(), "foo");
    assert!(PackageIdSpec::from_url(url("https://example.com/foo?x=1").unwrap()).is_err());
}
