use cargo_core::package_id_spec::PackageId;
use cargo_core::source_id::SourceId;
use cargo_core::summary::{Dependency, Summary, SummaryError, SummaryVec};

fn pkg(name: &str) -> PackageId {
    let sid = SourceId::for_registry(&cargo_core::url::Url::parse("https://example.com/index").unwrap());
    PackageId::new(name, "1.0.0", &sid).unwrap()
}

fn dep(name: &str, optional: bool, transitive: bool) -> Dependency {
    Dependency { name: name.to_string(), optional, transitive, features: vec![] }
}

fn feature(name: &str, entries: &[&str]) -> (String, Vec<String>) {
    (name.to_string(), entries.iter().map(|s| s.to_string()).collect())
}

#[test]
fn valid_summary() {
    let s = Summary::new(
        pkg("foo"),
        vec![dep("a", true, true), dep("b", false, true)],
        vec![feature("default", &["x", "a"]), feature("x", &["b/std"])],
    )
    .unwrap();
    assert_eq!(s.name(), "foo");
    assert_eq!(s.dependencies().len(), 2);
    assert_eq!(s.features().len(), 2);
    let s2 = s.override_id(pkg("bar"));
    assert_eq!(s2.name(), "bar");
    let s3 = s2.map_dependencies(|d| Dependency { optional: false, ..d });
    assert!(s3.dependencies().iter().all(|d| !d.optional));
    assert_eq!(vec![s3].names(), vec!["bar".to_string()]);
}

#[test]
fn summary_errors() {
    match Summary::new(pkg("foo"), vec![dep("a", false, true)], vec![feature("a", &[])]) {
        Err(SummaryError::SameName(n)) => assert_eq!(n, "a"),
        other => panic!("unexpected {:?}", other),
    }
    match Summary::new(pkg("foo"), vec![dep("t", true, false)], vec![]) {
        Err(SummaryError::OptionalDevDependency(n)) => assert_eq!(n, "t"),
        other => panic!("unexpected {:?}", other),
    }
    match Summary::new(pkg("foo"), vec![dep("b", false, true)], vec![feature("f", &["b"])]) {
        Err(SummaryError::NotOptional { feature, dep }) => assert_eq!((feature.as_str(), dep.as_str()), ("f", "b")),
        other => panic!("unexpected {:?}", other),
    }
    match Summary::new(pkg("foo"), vec![], vec![feature("f", &["c/x"])]) {
        Err(SummaryError::NotADependency { feature, dep }) => assert_eq!((feature.as_str(), dep.as_str()), ("f", "c")),
        other => panic!("unexpected {:?}", other),
    }
    match Summary::new(pkg("foo"), vec![], vec![feature("f", &["zzz"])]) {
        Err(SummaryError::Unknown { feature, dep }) => assert_eq!((feature.as_str(), dep.as_str()), ("f", "zzz")),
        other => panic!("unexpected {:?}", other),
    }
}

#[test]
fn summaries_equal_by_package_id() {
    let a = Summary::new(pkg("foo"), vec![], vec![]).unwrap();
    let b = Summary::new(pkg("foo"), vec![dep("x", false, true)], vec![]).unwrap();
    let c = Summary::new(pkg("bar"), vec![], vec![]).unwrap();
    assert!(a == b);
    assert!(a != c);
}

#[test]
fn summary_keeps_dependency_features() {
    let mut d = dep("foo", false, true);
    d.features = vec!["serde".to_string()];
    let s = Summary::new(pkg("a"), vec![d], vec![]).unwrap();
    assert_eq!(s.dependencies()[0].features, vec!["serde".to_string()]);
    let s = s.override_id(pkg("b"));
    assert_eq!(s.name(), "b");
    assert_eq!(s.dependencies()[0].features, vec!["serde".to_string()]);
}

#[test]
fn summary_source() {
    let s = Summary::new(pkg("a"), vec![], vec![]).unwrap();
    assert!(s.source_id().is_registry());
}
