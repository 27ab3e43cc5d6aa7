use cargo_core::package_id_spec::PackageId;
use cargo_core::resolve_loop::{resolve_step, Offer, ResolveAction, ResolveEvent, ResolveFailure, ResolveState};
use cargo_core::resolver_context::{ConflictReason, Method};
use cargo_core::source_id::SourceId;
use cargo_core::summary::{Dependency, Summary};

fn registry() -> SourceId {
    SourceId::for_registry(&cargo_core::url::Url::parse("https://example.com/index").unwrap())
}

fn pkg(name: &str, version: &str) -> PackageId {
    PackageId::new(name, version, &registry()).unwrap()
}

fn dep(name: &str) -> Dependency {
    Dependency { name: name.to_string(), optional: false, transitive: true, features: vec![] }
}

fn offer(name: &str, version: &str, deps: &[&str], links: Option<&str>) -> Offer {
    let summary = Summary::new(pkg(name, version), deps.iter().map(|d| dep(d)).collect(), vec![]).unwrap();
    Offer { summary, links: links.map(|l| l.to_string()) }
}

fn is(id: &PackageId, name: &str, version: &str) -> bool {
    id.same(&pkg(name, version))
}

fn expect_query(a: ResolveAction, name: &str) {
    match a {
        ResolveAction::Query(d) => assert_eq!(d.name, name),
        other => panic!("expected a query for {}, got {:?}", name, other),
    }
}

fn expect_proceed(a: ResolveAction) {
    assert!(matches!(a, ResolveAction::Proceed), "expected to go on, got {:?}", a);
}

#[test]
fn highest_version_is_activated_first() {
    let mut st = ResolveState::new(false);
    expect_proceed(resolve_step(&mut st, ResolveEvent::Root(offer("app", "1.0.0", &["lib"], None), Method::Everything)));
    expect_query(resolve_step(&mut st, ResolveEvent::Proceed), "lib");
    let offers = vec![offer("lib", "1.1.0", &[], None), offer("lib", "1.0.0", &[], None)];
    expect_proceed(resolve_step(&mut st, ResolveEvent::Candidates(offers)));
    expect_proceed(resolve_step(&mut st, ResolveEvent::Proceed));
    match resolve_step(&mut st, ResolveEvent::Proceed) {
        ResolveAction::Done(r) => {
            assert_eq!(r.packages.len(), 2);
            assert!(is(&r.packages[0], "app", "1.0.0"));
            assert!(is(&r.packages[1], "lib", "1.1.0"));
            assert_eq!(r.edges.len(), 1);
            assert!(is(&r.edges[0].0, "app", "1.0.0"));
            assert_eq!(r.edges[0].1, "lib");
            assert!(is(&r.edges[0].2, "lib", "1.1.0"));
        },
        other => panic!("expected a resolution, got {:?}", other),
    }
    assert!(matches!(resolve_step(&mut st, ResolveEvent::Proceed), ResolveAction::Unexpected));
}

#[test]
fn conflict_goes_back_to_an_older_choice() {
    let mut st = ResolveState::new(false);
    expect_proceed(resolve_step(&mut st, ResolveEvent::Root(offer("app", "1.0.0", &["x", "y"], None), Method::Everything)));
    expect_query(resolve_step(&mut st, ResolveEvent::Proceed), "y");
    let ys = vec![offer("y", "2.0.0", &[], Some("z")), offer("y", "1.0.0", &[], None)];
    expect_proceed(resolve_step(&mut st, ResolveEvent::Candidates(ys)));
    expect_proceed(resolve_step(&mut st, ResolveEvent::Proceed));
    expect_query(resolve_step(&mut st, ResolveEvent::Proceed), "x");
    expect_proceed(resolve_step(&mut st, ResolveEvent::Candidates(vec![offer("x", "1.0.0", &[], Some("z"))])));
    // x links what y 2.0.0 links: the search goes back and takes y 1.0.0.
    expect_proceed(resolve_step(&mut st, ResolveEvent::Proceed));
    expect_query(resolve_step(&mut st, ResolveEvent::Proceed), "x");
    expect_proceed(resolve_step(&mut st, ResolveEvent::Candidates(vec![offer("x", "1.0.0", &[], Some("z"))])));
    expect_proceed(resolve_step(&mut st, ResolveEvent::Proceed));
    match resolve_step(&mut st, ResolveEvent::Proceed) {
        ResolveAction::Done(r) => {
            assert_eq!(r.packages.len(), 3);
            assert!(is(&r.packages[0], "app", "1.0.0"));
            assert!(is(&r.packages[1], "y", "1.0.0"));
            assert!(is(&r.packages[2], "x", "1.0.0"));
            assert_eq!(r.edges.len(), 2);
            assert_eq!(r.edges[0].1, "y");
            assert!(is(&r.edges[0].2, "y", "1.0.0"));
            assert_eq!(r.edges[1].1, "x");
            assert!(is(&r.edges[1].2, "x", "1.0.0"));
        },
        other => panic!("expected a resolution, got {:?}", other),
    }
}

#[test]
fn no_candidate_left_fails_with_the_conflicts() {
    let mut st = ResolveState::new(false);
    expect_proceed(resolve_step(&mut st, ResolveEvent::Root(offer("app", "1.0.0", &["x", "y"], None), Method::Everything)));
    expect_query(resolve_step(&mut st, ResolveEvent::Proceed), "y");
    expect_proceed(resolve_step(&mut st, ResolveEvent::Candidates(vec![offer("y", "1.0.0", &[], Some("z"))])));
    expect_proceed(resolve_step(&mut st, ResolveEvent::Proceed));
    expect_query(resolve_step(&mut st, ResolveEvent::Proceed), "x");
    expect_proceed(resolve_step(&mut st, ResolveEvent::Candidates(vec![offer("x", "1.0.0", &[], Some("z"))])));
    match resolve_step(&mut st, ResolveEvent::Proceed) {
        ResolveAction::Fail(ResolveFailure::Conflicts(c)) => {
            assert_eq!(c.len(), 1);
            assert!(is(&c[0].0, "y", "1.0.0"));
            assert!(matches!(&c[0].1, ConflictReason::Links(l) if l == "z"));
        },
        other => panic!("expected a failure, got {:?}", other),
    }
}

#[test]
fn dependency_without_candidates_fails() {
    let mut st = ResolveState::new(false);
    expect_proceed(resolve_step(&mut st, ResolveEvent::Root(offer("app", "1.0.0", &["lib"], None), Method::Everything)));
    expect_query(resolve_step(&mut st, ResolveEvent::Proceed), "lib");
    expect_proceed(resolve_step(&mut st, ResolveEvent::Candidates(vec![])));
    match resolve_step(&mut st, ResolveEvent::Proceed) {
        ResolveAction::Fail(ResolveFailure::Conflicts(c)) => assert!(c.is_empty()),
        other => panic!("expected a failure, got {:?}", other),
    }
}

#[test]
fn semver_compatible_roots_are_refused() {
    let mut st = ResolveState::new(false);
    expect_proceed(resolve_step(&mut st, ResolveEvent::Root(offer("app", "1.0.0", &[], None), Method::Everything)));
    match resolve_step(&mut st, ResolveEvent::Root(offer("app", "1.1.0", &[], None), Method::Everything)) {
        ResolveAction::Fail(ResolveFailure::Conflicts(c)) => {
            assert_eq!(c.len(), 1);
            assert!(is(&c[0].0, "app", "1.0.0"));
            assert!(matches!(c[0].1, ConflictReason::Semver));
        },
        other => panic!("expected a failure, got {:?}", other),
    }
}

#[test]
fn events_out_of_turn_are_refused() {
    let mut st = ResolveState::new(false);
    assert!(matches!(resolve_step(&mut st, ResolveEvent::Candidates(vec![])), ResolveAction::Unexpected));
    expect_proceed(resolve_step(&mut st, ResolveEvent::Root(offer("app", "1.0.0", &["lib"], None), Method::Everything)));
    expect_query(resolve_step(&mut st, ResolveEvent::Proceed), "lib");
    assert!(matches!(resolve_step(&mut st, ResolveEvent::Proceed), ResolveAction::Unexpected));
    expect_proceed(resolve_step(&mut st, ResolveEvent::Candidates(vec![offer("lib", "1.0.0", &[], None)])));
    expect_proceed(resolve_step(&mut st, ResolveEvent::Proceed));
    assert!(matches!(resolve_step(&mut st, ResolveEvent::Proceed), ResolveAction::Done(_)));
}
