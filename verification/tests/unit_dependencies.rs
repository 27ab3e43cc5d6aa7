use cargo_core::compile_mode::CompileMode;
use cargo_core::compiler::Kind;
use cargo_core::manifest::{LibKind, Metadata, Target};
use cargo_core::package_id_spec::PackageId;
use cargo_core::profiles::{Profile, ProfileFor, Profiles};
use cargo_core::source_id::SourceId;
use cargo_core::unit_dependencies::{
    buildkey_of, check_or_build_mode, compute_deps, compute_deps_custom_build, compute_deps_doc, connect_run_custom_build_deps,
    dep_build_script, maybe_lib, new_unit, remove_duplicate_doc, BuildContext, DepEdge, DepKind, ResolvedPackage, Unit,
    UnitPackage,
};

fn pkg(name: &str) -> PackageId {
    pkg_v(name, "1.0.0")
}

fn pkg_v(name: &str, version: &str) -> PackageId {
    let sid = SourceId::for_registry(&cargo_core::url::Url::parse("https://example.com/index").unwrap());
    PackageId::new(name, version, &sid).unwrap()
}

fn meta() -> Metadata {
    Metadata { metadata: "m".to_string(), extra_filename: "-m".to_string() }
}

fn lib(name: &str) -> Target {
    Target::lib_target(name, vec![LibKind::Lib], "src/lib.rs", meta())
}

fn script() -> Target {
    Target::custom_build_target("build-script-build", "build.rs", None)
}

fn package(name: &str, targets: Vec<Target>, links: Option<&str>) -> UnitPackage {
    UnitPackage { id: pkg(name), is_member: false, targets, links: links.map(|s| s.to_string()) }
}

/// `app` (a binary and a build script) depends on `zsys`, which links `z`
/// and has a library and a build script; `plain` has only a library.
fn build() -> BuildContext {
    BuildContext {
        packages: vec![
            package("app", vec![Target::bin_target("app", "src/main.rs", None), script()], None),
            package("zsys", vec![script(), lib("zsys")], Some("z")),
            package("plain", vec![lib("plain")], None),
        ],
        profiles: Profiles::new(None, None, None),
        release: false,
    }
}

fn unit(pkg: usize, target: usize, mode: CompileMode) -> Unit {
    Unit { pkg, target, profile: Profile::default_dev(), kind: Kind::Target, mode }
}

#[test]
fn dependency_modes() {
    let t = lib("x");
    assert_eq!(check_or_build_mode(CompileMode::Check { test: true }, &t), CompileMode::Check { test: false });
    assert_eq!(check_or_build_mode(CompileMode::Doc { deps: true }, &t), CompileMode::Check { test: false });
    assert_eq!(check_or_build_mode(CompileMode::Test, &t), CompileMode::Build);
    let mut h = lib("m");
    h.set_for_host(true);
    assert_eq!(check_or_build_mode(CompileMode::Check { test: false }, &h), CompileMode::Build);
}

#[test]
fn library_and_script_units() {
    let b = build();
    let u = unit(1, 0, CompileMode::Check { test: true });
    let (l, pf) = maybe_lib(&u, &b, ProfileFor::Any).unwrap();
    assert_eq!((l.pkg, l.target, l.mode, l.kind, pf), (1, 1, CompileMode::Check { test: false }, Kind::Target, ProfileFor::Any));
    assert!(maybe_lib(&unit(0, 0, CompileMode::Build), &b, ProfileFor::Any).is_none());
    let mut rel = Profile::default_release();
    rel.debuginfo = Some(1);
    let u = Unit { pkg: 1, target: 1, profile: rel, kind: Kind::Host, mode: CompileMode::Build };
    let (s, pf) = dep_build_script(&u, &b).unwrap();
    assert_eq!((s.pkg, s.target, s.mode, s.kind, pf), (1, 0, CompileMode::RunCustomBuild, Kind::Host, ProfileFor::CustomBuild));
    assert_eq!(s.profile.opt_level, "3");
    assert_eq!(s.profile.debuginfo, Some(1));
    assert!(!s.profile.debug_assertions);
    assert!(dep_build_script(&unit(2, 0, CompileMode::Build), &b).is_none());
    let n = new_unit(&b, 2, 0, ProfileFor::Any, Kind::Target, CompileMode::Test);
    assert_eq!((n.pkg, n.target, n.mode), (2, 0, CompileMode::Test));
    assert_eq!(n.profile.opt_level, "0");
}

#[test]
fn build_scripts_wait_for_linked_libraries() {
    let b = build();
    let app_script = Unit {
        pkg: 0,
        target: 1,
        profile: Profile::default_dev(),
        kind: Kind::Target,
        mode: CompileMode::RunCustomBuild,
    };
    let app_bin = unit(0, 0, CompileMode::Build);
    let zsys_lib = unit(1, 1, CompileMode::Build);
    let plain_lib = unit(2, 0, CompileMode::Build);
    let mut deps = vec![
        (app_bin.duplicate(), vec![app_script.duplicate(), zsys_lib.duplicate(), plain_lib.duplicate()]),
        (app_script.duplicate(), vec![]),
        (zsys_lib.duplicate(), vec![]),
        (plain_lib.duplicate(), vec![]),
    ];
    connect_run_custom_build_deps(&mut deps, &b);
    assert_eq!(deps.len(), 4);
    assert!(deps[0].1.len() == 3 && deps[2].1.is_empty() && deps[3].1.is_empty());
    // The script of `app` now runs after the script of `zsys`.
    assert_eq!(deps[1].1.len(), 1);
    let w = &deps[1].1[0];
    assert_eq!((w.pkg, w.target, w.mode), (1, 0, CompileMode::RunCustomBuild));
    assert!(deps[1].0.same(&app_script));
}

#[test]
fn build_keys() {
    assert_eq!(buildkey_of("foo", 0x0123456789abcdef), "foo-efcdab8967452301");
    let b = build();
    let k = unit(2, 0, CompileMode::Build).buildkey(&b);
    assert!(k.starts_with("plain-"));
    assert_eq!(k.len(), "plain-".len() + 16);
}

#[test]
#[allow(deprecated)]
fn build_key_hashes_the_unit_text() {
    let b = build();
    let u = unit(2, 0, CompileMode::Check { test: true });
    let text = cargo_core::unit_dependencies::unit_text_of(&u);
    assert_eq!(text, "2;0;dev;0;0;-;2;1101;-;target;check1");
    let mut h = std::hash::SipHasher::new_with_keys(0, 0);
    std::hash::Hash::hash(text.as_str(), &mut h);
    let hash = std::hash::Hasher::finish(&h);
    assert_eq!(u.buildkey(&b), buildkey_of("plain", hash));
}

fn doc_unit(pkg: usize, kind: Kind) -> Unit {
    Unit { pkg, target: 0, profile: Profile::default_doc(), kind, mode: CompileMode::Doc { deps: true } }
}

/// `app` documents itself and two versions of `foo`; `foo` 1.0.0 also
/// depends on `util`.
fn doc_build() -> BuildContext {
    BuildContext {
        packages: vec![
            UnitPackage { id: pkg("app"), is_member: true, targets: vec![lib("app")], links: None },
            UnitPackage { id: pkg_v("foo", "1.0.0"), is_member: false, targets: vec![lib("foo")], links: None },
            UnitPackage { id: pkg_v("foo", "2.0.0"), is_member: false, targets: vec![lib("foo")], links: None },
            UnitPackage { id: pkg("util"), is_member: false, targets: vec![lib("util")], links: None },
        ],
        profiles: Profiles::new(None, None, None),
        release: false,
    }
}

#[test]
fn older_duplicate_docs_are_removed() {
    let b = doc_build();
    let app = doc_unit(0, Kind::Target);
    let foo1 = doc_unit(1, Kind::Target);
    let foo2 = doc_unit(2, Kind::Target);
    let util = unit(3, 0, CompileMode::Check { test: false });
    let mut graph = vec![
        (app.duplicate(), vec![foo1.duplicate(), foo2.duplicate()]),
        (foo1.duplicate(), vec![util.duplicate()]),
        (foo2.duplicate(), vec![]),
        (util.duplicate(), vec![]),
    ];
    remove_duplicate_doc(&b, true, &vec![app.duplicate()], &mut graph);
    // `foo` 1.0.0 goes, and with it the only path to `util`.
    assert_eq!(graph.len(), 2);
    assert!(graph[0].0.same(&app));
    assert_eq!(graph[0].1.len(), 1);
    assert!(graph[0].1[0].same(&foo2));
    assert!(graph[1].0.same(&foo2));
}

#[test]
fn roots_and_host_duplicates() {
    let b = doc_build();
    let app = doc_unit(0, Kind::Target);
    let app_host = doc_unit(0, Kind::Host);
    let foo1 = doc_unit(1, Kind::Target);
    let mut graph = vec![
        (app.duplicate(), vec![foo1.duplicate()]),
        (app_host.duplicate(), vec![]),
        (foo1.duplicate(), vec![]),
    ];
    // With no `--target`, the host copy of `app`'s documentation goes.
    remove_duplicate_doc(&b, true, &vec![app.duplicate()], &mut graph);
    assert_eq!(graph.len(), 2);
    assert!(graph[0].0.same(&app) && graph[1].0.same(&foo1));
    // With a `--target`, both stay when both are roots.
    let mut graph = vec![(app.duplicate(), vec![]), (app_host.duplicate(), vec![])];
    remove_duplicate_doc(&b, false, &vec![app.duplicate(), app_host.duplicate()], &mut graph);
    assert_eq!(graph.len(), 2);
    // Roots are never removed, even as older versions.
    let foo2 = doc_unit(2, Kind::Target);
    let mut graph = vec![(foo1.duplicate(), vec![]), (foo2.duplicate(), vec![])];
    remove_duplicate_doc(&b, true, &vec![foo1.duplicate(), foo2.duplicate()], &mut graph);
    assert_eq!(graph.len(), 2);
}

fn edge(name: &str, kind: DepKind, optional: bool) -> DepEdge {
    DepEdge { name_in_toml: name.to_string(), kind, optional, on_host: true, on_target: true }
}

fn resolved(deps: Vec<(usize, Vec<DepEdge>)>, features: &[&str]) -> ResolvedPackage {
    ResolvedPackage { deps, features: features.iter().map(|f| f.to_string()).collect(), required_features: vec![] }
}

/// `app` depends on `zsys` normally and on `plain` for its build script.
fn app_resolve() -> Vec<ResolvedPackage> {
    vec![
        resolved(vec![(1, vec![edge("zsys", DepKind::Normal, false)]), (2, vec![edge("plain", DepKind::Build, false)])], &[]),
        resolved(vec![], &[]),
        resolved(vec![], &[]),
    ]
}

fn summary(v: &[(Unit, ProfileFor)]) -> Vec<(usize, usize, CompileMode, Kind, ProfileFor)> {
    v.iter().map(|(u, pf)| (u.pkg, u.target, u.mode, u.kind, *pf)).collect()
}

#[test]
fn binary_depends_on_normal_libraries_and_its_script() {
    let b = build();
    let r = app_resolve();
    let deps = compute_deps(&unit(0, 0, CompileMode::Build), &b, &r, ProfileFor::Any);
    assert_eq!(
        summary(&deps),
        vec![
            (1, 1, CompileMode::Build, Kind::Target, ProfileFor::Any),
            (0, 1, CompileMode::RunCustomBuild, Kind::Target, ProfileFor::CustomBuild),
        ]
    );
}

#[test]
fn build_script_takes_only_build_dependencies() {
    let b = build();
    let r = app_resolve();
    let u = Unit { pkg: 0, target: 1, profile: Profile::default_dev(), kind: Kind::Host, mode: CompileMode::Build };
    let deps = compute_deps(&u, &b, &r, ProfileFor::CustomBuild);
    assert_eq!(summary(&deps), vec![(2, 0, CompileMode::Build, Kind::Host, ProfileFor::CustomBuild)]);
    let run = unit(0, 1, CompileMode::RunCustomBuild);
    let deps = compute_deps_custom_build(&run, &b);
    assert_eq!(summary(&deps), vec![(0, 1, CompileMode::Build, Kind::Host, ProfileFor::CustomBuild)]);
    assert_eq!(summary(&compute_deps(&run, &b, &r, ProfileFor::Any)), summary(&deps));
}

#[test]
fn documentation_depends_on_built_and_documented_libraries() {
    let b = build();
    let r = app_resolve();
    let deps = compute_deps_doc(&unit(0, 0, CompileMode::Doc { deps: true }), &b, &r);
    assert_eq!(
        summary(&deps),
        vec![
            (1, 1, CompileMode::Check { test: false }, Kind::Target, ProfileFor::Any),
            (1, 1, CompileMode::Doc { deps: true }, Kind::Target, ProfileFor::Any),
            (0, 1, CompileMode::RunCustomBuild, Kind::Target, ProfileFor::CustomBuild),
        ]
    );
    let deps = compute_deps(&unit(0, 0, CompileMode::Doc { deps: false }), &b, &r, ProfileFor::Any);
    assert_eq!(
        summary(&deps),
        vec![
            (1, 1, CompileMode::Check { test: false }, Kind::Target, ProfileFor::Any),
            (0, 1, CompileMode::RunCustomBuild, Kind::Target, ProfileFor::CustomBuild),
        ]
    );
}

/// `tpkg` has a library, a binary that requires the feature `cli`, and an
/// integration test; it depends on `plain` for development and optionally
/// on `zsys` under the name `z`.
fn test_build() -> (BuildContext, Vec<ResolvedPackage>) {
    let b = BuildContext {
        packages: vec![
            package(
                "tpkg",
                vec![lib("tpkg"), Target::bin_target("tool", "src/main.rs", None), Target::test_target("it", "tests/it.rs", meta())],
                None,
            ),
            package("zsys", vec![script(), lib("zsys")], Some("z")),
            package("plain", vec![lib("plain")], None),
        ],
        profiles: Profiles::new(None, None, None),
        release: false,
    };
    let tpkg = ResolvedPackage {
        deps: vec![(1, vec![edge("z", DepKind::Normal, true)]), (2, vec![edge("plain", DepKind::Development, false)])],
        features: vec![],
        required_features: vec![None, Some(vec!["cli".to_string()]), None],
    };
    (b, vec![tpkg, resolved(vec![], &[]), resolved(vec![], &[])])
}

#[test]
fn tests_take_development_dependencies_and_enabled_binaries() {
    let (b, mut r) = test_build();
    let it = unit(0, 2, CompileMode::Test);
    assert_eq!(
        summary(&compute_deps(&it, &b, &r, ProfileFor::TestDependency)),
        vec![
            (2, 0, CompileMode::Build, Kind::Target, ProfileFor::TestDependency),
            (0, 0, CompileMode::Build, Kind::Target, ProfileFor::TestDependency),
        ]
    );
    r[0].features = vec!["cli".to_string(), "z".to_string()];
    assert_eq!(
        summary(&compute_deps(&it, &b, &r, ProfileFor::TestDependency)),
        vec![
            (1, 1, CompileMode::Build, Kind::Target, ProfileFor::TestDependency),
            (2, 0, CompileMode::Build, Kind::Target, ProfileFor::TestDependency),
            (0, 0, CompileMode::Build, Kind::Target, ProfileFor::TestDependency),
            (0, 1, CompileMode::Build, Kind::Target, ProfileFor::Any),
        ]
    );
    // A library build takes neither development dependencies nor itself.
    assert_eq!(summary(&compute_deps(&unit(0, 0, CompileMode::Build), &b, &r, ProfileFor::Any)), vec![
        (1, 1, CompileMode::Build, Kind::Target, ProfileFor::Any),
    ]);
    // A check of the test builds no binaries.
    let check = unit(0, 2, CompileMode::Check { test: true });
    assert_eq!(summary(&compute_deps(&check, &b, &r, ProfileFor::Any)), vec![
        (1, 1, CompileMode::Check { test: false }, Kind::Target, ProfileFor::Any),
        (2, 0, CompileMode::Check { test: false }, Kind::Target, ProfileFor::Any),
        (0, 0, CompileMode::Check { test: false }, Kind::Target, ProfileFor::Any),
    ]);
}

#[test]
fn dependencies_for_another_platform_are_left_out() {
    let b = build();
    let mut r = app_resolve();
    r[0].deps[0].1[0].on_target = false;
    let deps = compute_deps(&unit(0, 0, CompileMode::Build), &b, &r, ProfileFor::Any);
    assert_eq!(summary(&deps), vec![(0, 1, CompileMode::RunCustomBuild, Kind::Target, ProfileFor::CustomBuild)]);
}
