use cargo_core::package_id_spec::{PackageId, Version};
use cargo_core::resolver_context::{
    build_requirements, find_candidate, ActivationError, BacktrackFrame, Candidate, ConflictReason, Context,
    FeatureError, FeatureValue, Method, RemainingCandidates, SemverCompatibility,
};
use cargo_core::source_id::SourceId;
use cargo_core::summary::{Dependency, Summary};

fn registry() -> SourceId {
    SourceId::for_registry(&cargo_core::url::Url::parse("https://example.com/index").unwrap())
}

fn pkg(name: &str, version: &str) -> PackageId {
    PackageId::new(name, version, &registry()).unwrap()
}

fn dep(name: &str, optional: bool, transitive: bool, features: &[&str]) -> Dependency {
    Dependency {
        name: name.to_string(),
        optional,
        transitive,
        features: features.iter().map(|s| s.to_string()).collect(),
    }
}

fn feature(name: &str, entries: &[&str]) -> (String, Vec<String>) {
    (name.to_string(), entries.iter().map(|s| s.to_string()).collect())
}

fn names(v: &[&str]) -> Vec<String> {
    v.iter().map(|s| s.to_string()).collect()
}

fn required(features: &[&str], uses_default_features: bool) -> Method {
    Method::Required { dev_deps: false, features: names(features), all_features: false, uses_default_features }
}

fn foo(version: &str) -> Summary {
    Summary::new(
        pkg("foo", version),
        vec![dep("a", true, true, &[]), dep("b", false, true, &[]), dep("c", false, false, &[])],
        vec![feature("default", &["x"]), feature("x", &["a", "b/std"]), feature("y", &[])],
    )
    .unwrap()
}

#[test]
fn compatibility_lines() {
    let v = Version::parse("1.2.3").unwrap();
    assert_eq!(SemverCompatibility::from_version(&v), SemverCompatibility::Major(1));
    let v = Version::parse("0.2.3").unwrap();
    assert_eq!(SemverCompatibility::from(&v), SemverCompatibility::Minor(2));
    let v = Version::parse("0.0.3").unwrap();
    assert_eq!(SemverCompatibility::from_version(&v), SemverCompatibility::Patch(3));
    let (name, sid, compat) = pkg("foo", "0.4.1").as_activations_key();
    assert_eq!(name, "foo");
    assert!(sid.same_source(&registry()));
    assert_eq!(compat, SemverCompatibility::Minor(4));
}

#[test]
fn feature_values() {
    let s = foo("1.0.0");
    assert!(matches!(FeatureValue::new("b/std", &s), FeatureValue::CrateFeature(d, f) if d == "b" && f == "std"));
    assert!(matches!(FeatureValue::new("x", &s), FeatureValue::Feature(f) if f == "x"));
    assert!(matches!(FeatureValue::new("a", &s), FeatureValue::Crate(d) if d == "a"));
}

#[test]
fn activation_and_ages() {
    let mut cx = Context::new(false);
    let s1 = foo("1.0.0");
    let s2 = foo("2.0.0");
    assert!(matches!(cx.flag_activated(&s1, None, &required(&[], true)), Ok(false)));
    assert_eq!(cx.age(), 1);
    assert_eq!(cx.is_active(&pkg("foo", "1.0.0")), Some(0));
    // Another version of the same compatibility line is not the active one.
    assert_eq!(cx.is_active(&pkg("foo", "1.0.1")), None);
    assert!(matches!(cx.flag_activated(&s2, None, &Method::Everything), Ok(false)));
    assert_eq!(cx.is_active(&pkg("foo", "2.0.0")), Some(1));
    assert_eq!(cx.is_conflicting(None, &vec![pkg("foo", "1.0.0"), pkg("foo", "2.0.0")]), Some(1));
    assert_eq!(cx.is_conflicting(Some(&pkg("foo", "1.0.0")), &vec![]), Some(0));
    assert_eq!(cx.is_conflicting(None, &vec![pkg("foo", "3.0.0")]), None);
    assert_eq!(cx.is_conflicting(Some(&pkg("bar", "1.0.0")), &vec![pkg("foo", "1.0.0")]), None);
    // The same package again: nothing changes.
    assert!(matches!(cx.flag_activated(&s1, None, &Method::Everything), Ok(false)));
    assert_eq!(cx.age(), 2);
}

#[test]
fn links_are_exclusive() {
    let mut cx = Context::new(false);
    let a = Summary::new(pkg("a-sys", "1.0.0"), vec![], vec![]).unwrap();
    let b = Summary::new(pkg("b-sys", "1.0.0"), vec![], vec![]).unwrap();
    assert!(matches!(cx.flag_activated(&a, Some("z"), &Method::Everything), Ok(false)));
    match cx.flag_activated(&b, Some("z"), &Method::Everything) {
        Err(ActivationError::Links(l)) => assert_eq!(l, "z"),
        other => panic!("unexpected {:?}", other),
    }
    assert_eq!(cx.is_active(&pkg("b-sys", "1.0.0")), None);
    assert_eq!(cx.age(), 1);
}

#[test]
fn features_bring_in_dependencies() {
    let mut cx = Context::new(false);
    let s = foo("1.0.0");
    let deps = cx.resolve_features(None, &s, &required(&[], true)).unwrap();
    let got: Vec<(String, Vec<String>)> = deps.iter().map(|(d, f)| (d.name.clone(), f.clone())).collect();
    assert_eq!(got, vec![("a".to_string(), vec![]), ("b".to_string(), names(&["std"]))]);
    assert!(matches!(cx.flag_activated(&s, None, &required(&["x"], true)), Ok(false)));
    // Now `x` and `default` are enabled: asking again brings nothing new.
    assert!(matches!(cx.flag_activated(&s, None, &required(&["x"], true)), Ok(true)));
    assert!(matches!(cx.flag_activated(&s, None, &required(&["y"], false)), Ok(false)));
    assert!(matches!(cx.flag_activated(&s, None, &Method::Everything), Ok(false)));
}

#[test]
fn development_dependencies_when_asked() {
    let mut cx = Context::new(false);
    let s = foo("1.0.0");
    let m = Method::Required { dev_deps: true, features: vec![], all_features: false, uses_default_features: false };
    let deps = cx.resolve_features(None, &s, &m).unwrap();
    let got: Vec<String> = deps.iter().map(|(d, _)| d.name.clone()).collect();
    assert_eq!(got, names(&["b", "c"]));
    let all = cx.resolve_features(None, &s, &Method::Everything).unwrap();
    assert_eq!(all.len(), 3);
}

#[test]
fn feature_errors() {
    let mut cx = Context::new(false);
    let cyc = Summary::new(pkg("cyc", "1.0.0"), vec![], vec![feature("x", &["x"])]).unwrap();
    match build_requirements(&cyc, &required(&["x"], true)) {
        Err(FeatureError::Cycle(f)) => assert_eq!(f, "x"),
        _ => panic!("expected a cycle"),
    }
    assert!(build_requirements(&cyc, &required(&[], false)).is_ok());
    let s = foo("1.0.0");
    match cx.resolve_features(None, &s, &required(&["b"], false)) {
        Err(FeatureError::RequiredDependencyAsFeature { parent, dep, .. }) => {
            assert!(parent.is_none());
            assert_eq!(dep, "b");
        }
        other => panic!("unexpected {:?}", other.map(|v| v.len())),
    }
    match cx.resolve_features(Some(&cyc), &s, &required(&["nope", "y"], false)) {
        Err(FeatureError::MissingFeatures { parent, names: n, .. }) => {
            assert!(parent.is_some());
            assert_eq!(n, names(&["nope"]));
        }
        other => panic!("unexpected {:?}", other.map(|v| v.len())),
    }
    let slashed = Summary::new(pkg("sl", "1.0.0"), vec![dep("b", false, true, &["x/y"])], vec![]).unwrap();
    match cx.resolve_features(None, &slashed, &Method::Everything) {
        Err(FeatureError::SlashInFeature(f)) => assert_eq!(f, "x/y"),
        other => panic!("unexpected {:?}", other.map(|v| v.len())),
    }
    // Nothing was recorded by the failed calls.
    assert!(matches!(cx.flag_activated(&s, None, &required(&["y"], false)), Ok(false)));
    assert!(matches!(cx.flag_activated(&s, None, &required(&["y"], false)), Ok(false)));
}

fn cand(name: &str, version: &str, links: Option<&str>) -> Candidate {
    Candidate { id: pkg(name, version), links: links.map(|s| s.to_string()) }
}

#[test]
fn remaining_candidates_skip_conflicts() {
    let mut cx = Context::new(false);
    let active = Summary::new(pkg("foo", "1.2.0"), vec![], vec![]).unwrap();
    let sys = Summary::new(pkg("z-sys", "0.1.0"), vec![], vec![]).unwrap();
    assert!(cx.flag_activated(&active, None, &Method::Everything).is_ok());
    assert!(cx.flag_activated(&sys, Some("z"), &Method::Everything).is_ok());
    let cands = vec![
        cand("foo", "1.3.0", None),
        cand("foo", "1.2.0", None),
        cand("other-z", "1.0.0", Some("z")),
        cand("foo", "2.0.0", None),
    ];
    let mut rc = RemainingCandidates::new(&cands);
    let mut conflicts = Vec::new();
    let (b, more) = rc.next(&mut conflicts, &cx).unwrap();
    assert!(b.id.same(&pkg("foo", "1.2.0")) && more);
    // Scanning up to the next valid candidate met both conflicts.
    assert_eq!(conflicts.len(), 2);
    assert!(conflicts[0].0.same(&pkg("foo", "1.2.0")));
    assert!(matches!(conflicts[0].1, ConflictReason::Semver));
    assert!(conflicts[1].0.same(&pkg("z-sys", "0.1.0")));
    assert!(matches!(&conflicts[1].1, ConflictReason::Links(l) if l == "z"));
    let (b, more) = rc.next(&mut conflicts, &cx).unwrap();
    assert!(b.id.same(&pkg("foo", "2.0.0")) && !more);
    assert_eq!(conflicts.len(), 2);
    assert!(rc.next(&mut conflicts, &cx).is_none());
    let mut empty = RemainingCandidates::new(&vec![]);
    assert!(empty.next(&mut conflicts, &cx).is_none());
}

fn context_with(names: &[&str]) -> Context {
    let mut cx = Context::new(false);
    for n in names {
        let s = Summary::new(pkg(n, "1.0.0"), vec![], vec![]).unwrap();
        assert!(cx.flag_activated(&s, None, &Method::Everything).is_ok());
    }
    cx
}

fn frame(active: &[&str], candidates: &[&str]) -> BacktrackFrame {
    let cands: Vec<Candidate> = candidates.iter().map(|n| cand(n, "1.0.0", None)).collect();
    BacktrackFrame {
        context: context_with(active),
        remaining_candidates: RemainingCandidates::new(&cands),
        parent: pkg("root", "1.0.0"),
        conflicting_activations: vec![],
    }
}

#[test]
fn backjumping_skips_frames_that_cannot_help() {
    let cx = context_with(&["a", "b", "c"]);
    let conflicts = vec![(pkg("b", "1.0.0"), ConflictReason::Semver)];
    // `b` was activated at age 1 and the parent `a` at age 0: the frame of
    // age 2 cannot help, the one of age 1 can.
    let mut stack = vec![frame(&["a"], &["x"]), frame(&["a", "b"], &["y"])];
    let (c, more, f) = find_candidate(&cx, &mut stack, &pkg("a", "1.0.0"), false, &conflicts).unwrap();
    assert!(c.id.same(&pkg("x", "1.0.0")) && !more);
    assert_eq!(f.context.age(), 1);
    assert!(stack.is_empty());
    // After a backtrack every frame is tried, newest first.
    let mut stack = vec![frame(&["a"], &["x"]), frame(&["a", "b"], &["y", "z"])];
    let (c, more, _) = find_candidate(&cx, &mut stack, &pkg("a", "1.0.0"), true, &conflicts).unwrap();
    assert!(c.id.same(&pkg("y", "1.0.0")) && more);
    assert_eq!(stack.len(), 1);
    // A conflict that is no longer active gives no age: nothing is skipped.
    let gone = vec![(pkg("q", "1.0.0"), ConflictReason::Semver)];
    let mut stack = vec![frame(&["a"], &[]), frame(&["a", "b"], &["y"])];
    assert!(find_candidate(&cx, &mut stack, &pkg("a", "1.0.0"), false, &gone).is_some());
    let mut stack = vec![frame(&["a"], &[])];
    assert!(find_candidate(&cx, &mut stack, &pkg("a", "1.0.0"), false, &conflicts).is_none());
    assert!(stack.is_empty());
}
