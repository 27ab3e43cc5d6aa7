use cargo_core::package_id_spec::{PackageId, Version};
use cargo_core::source_id::SourceId;
use cargo_core::cargo_compile::{
    check_can_test, check_extra_args_target, check_rust_version, extra_args_of, unit_rustdoc_args,
    BuildContextError,
    check_required_features, resolve_all_features, default_proposals, filter_default_targets, find_named_targets,
    generate_proposals, is_glob_pattern, unit_mode, unmatched_target_filters, CompileFilter,
    FilterRule, KindFilter, LibRule, Package, Proposal, TargetError,
};
use cargo_core::compile_mode::CompileMode;
use cargo_core::manifest::{LibKind, Metadata, Target};

fn meta() -> Metadata {
    Metadata { metadata: "m".to_string(), extra_filename: "-m".to_string() }
}

fn package() -> Package {
    let mut ex = Target::example_target("demo", "examples/demo.rs");
    ex.set_tested(false);
    Package {
        name: "foo".to_string(),
        targets: vec![
            Target::lib_target("foo", vec![LibKind::Lib], "src/lib.rs", meta()),
            Target::bin_target("foo", "src/main.rs", None),
            Target::bin_target("tool", "src/bin/tool.rs", None),
            ex,
            Target::test_target("it", "tests/it.rs", meta()),
            Target::bench_target("speed", "benches/speed.rs", meta()),
        ],
    }
}

fn p(pkg: usize, target: usize, requires_features: bool, mode: CompileMode) -> Proposal {
    Proposal { pkg, target, requires_features, mode }
}

#[test]
fn default_targets_per_mode() {
    let t = package().targets;
    assert_eq!(filter_default_targets(&t, CompileMode::Build), vec![0, 1, 2]);
    assert_eq!(filter_default_targets(&t, CompileMode::Check { test: false }), vec![0, 1, 2]);
    assert_eq!(filter_default_targets(&t, CompileMode::Test), vec![0, 1, 2, 3, 4]);
    assert_eq!(filter_default_targets(&t, CompileMode::Bench), vec![0, 1, 2, 5]);
    // `doc` skips the binary named like the library.
    let mut d = package().targets;
    for x in d.iter_mut() {
        x.set_doc(true);
    }
    assert_eq!(filter_default_targets(&d, CompileMode::Doc { deps: false }), vec![0, 2, 3, 4, 5]);
}

#[test]
fn default_test_adds_doc_tests() {
    let pkgs = vec![package()];
    let props = default_proposals(&pkgs, true, CompileMode::Test);
    assert_eq!(
        props,
        vec![
            p(0, 0, false, CompileMode::Test),
            p(0, 1, false, CompileMode::Test),
            p(0, 2, false, CompileMode::Test),
            p(0, 3, false, CompileMode::Test),
            p(0, 4, false, CompileMode::Test),
            p(0, 0, false, CompileMode::Doctest),
        ]
    );
}

#[test]
fn named_targets() {
    let pkgs = vec![package()];
    assert!(is_glob_pattern("t*"));
    assert!(!is_glob_pattern("tool"));
    let found = find_named_targets(&pkgs, "tool", "bin", KindFilter::Bin, CompileMode::Build).unwrap();
    assert_eq!(found, vec![p(0, 2, true, CompileMode::Build)]);
    let found = find_named_targets(&pkgs, "*o*", "bin", KindFilter::Bin, CompileMode::Build).unwrap();
    assert_eq!(found, vec![p(0, 1, true, CompileMode::Build), p(0, 2, true, CompileMode::Build)]);
    match find_named_targets(&pkgs, "nope", "bin", KindFilter::Bin, CompileMode::Build) {
        Err(TargetError::NoTarget { desc, is_glob, name, available }) => {
            assert_eq!(desc, "bin");
            assert!(!is_glob);
            assert_eq!(name, "nope");
            assert_eq!(available, vec!["foo".to_string(), "tool".to_string()]);
        }
        other => panic!("unexpected {:?}", other),
    }
    match find_named_targets(&pkgs, "a[", "bin", KindFilter::Bin, CompileMode::Build) {
        Err(TargetError::BadGlob { pattern, .. }) => assert_eq!(pattern, "a["),
        other => panic!("unexpected {:?}", other),
    }
}

#[test]
fn selection_flags() {
    let pkgs = vec![package()];
    let filter = CompileFilter::Only {
        all_targets: false,
        lib: LibRule::True,
        bins: FilterRule::Just(vec!["tool".to_string()]),
        examples: FilterRule::Just(vec![]),
        tests: FilterRule::All,
        benches: FilterRule::Just(vec!["speed".to_string()]),
    };
    let sel = generate_proposals(&pkgs, &filter, CompileMode::Build).unwrap();
    assert_eq!(
        sel.proposals,
        vec![
            p(0, 0, false, CompileMode::Build),
            p(0, 2, true, CompileMode::Build),
            p(0, 0, false, CompileMode::Test),
            p(0, 1, false, CompileMode::Test),
            p(0, 2, false, CompileMode::Test),
            p(0, 4, false, CompileMode::Test),
            p(0, 5, true, CompileMode::Bench),
        ]
    );
    assert!(sel.not_doctestable.is_empty());
    let only_bins = CompileFilter::Only {
        all_targets: false,
        lib: LibRule::True,
        bins: FilterRule::All,
        examples: FilterRule::Just(vec![]),
        tests: FilterRule::Just(vec![]),
        benches: FilterRule::Just(vec![]),
    };
    let no_lib = vec![Package { name: "bar".to_string(), targets: vec![Target::bin_target("bar", "src/main.rs", None)] }];
    match generate_proposals(&no_lib, &only_bins, CompileMode::Build) {
        Err(TargetError::NoLibTargets { packages }) => assert_eq!(packages, vec!["bar".to_string()]),
        other => panic!("unexpected {:?}", other),
    }
}

#[test]
fn doc_tests_of_static_libraries_are_dropped() {
    let pkgs = vec![Package {
        name: "s".to_string(),
        targets: vec![Target::lib_target("s", vec![LibKind::StaticLib], "src/lib.rs", meta())],
    }];
    let filter = CompileFilter::Only {
        all_targets: false,
        lib: LibRule::Default,
        bins: FilterRule::Just(vec![]),
        examples: FilterRule::Just(vec![]),
        tests: FilterRule::Just(vec![]),
        benches: FilterRule::Just(vec![]),
    };
    let sel = generate_proposals(&pkgs, &filter, CompileMode::Doctest).unwrap();
    assert!(sel.proposals.is_empty());
    assert_eq!(sel.not_doctestable, vec![p(0, 0, false, CompileMode::Doctest)]);
}

#[test]
fn unit_modes() {
    let t = package().targets;
    let only = CompileFilter::Only {
        all_targets: false,
        lib: LibRule::False,
        bins: FilterRule::Just(vec![]),
        examples: FilterRule::All,
        tests: FilterRule::Just(vec![]),
        benches: FilterRule::Just(vec![]),
    };
    let default = CompileFilter::Default { required_features_filterable: true };
    // Untested examples are built as plain binaries by `cargo test`.
    assert_eq!(unit_mode(CompileMode::Test, &t[3], &default), CompileMode::Build);
    assert_eq!(unit_mode(CompileMode::Test, &t[3], &only), CompileMode::Test);
    assert_eq!(unit_mode(CompileMode::Build, &t[4], &default), CompileMode::Test);
    assert_eq!(unit_mode(CompileMode::Build, &t[5], &default), CompileMode::Bench);
    assert_eq!(unit_mode(CompileMode::Bench, &t[5], &default), CompileMode::Test);
    assert_eq!(unit_mode(CompileMode::Doc { deps: true }, &t[0], &default), CompileMode::Doc { deps: true });
}

#[test]
fn required_features() {
    let t = package().targets;
    let q = p(0, 2, true, CompileMode::Build);
    let req = Some(vec!["a".to_string(), "b".to_string()]);
    assert!(check_required_features(&q, &t[2], &req, &vec!["a".to_string(), "b".to_string()]).unwrap());
    match check_required_features(&q, &t[2], &req, &vec!["a".to_string()]) {
        Err(TargetError::MissingFeatures { pkg, target, required }) => {
            assert_eq!((pkg, target), (0, 2));
            assert_eq!(required, vec!["a".to_string(), "b".to_string()]);
        }
        other => panic!("unexpected {:?}", other),
    }
    let q2 = p(0, 2, false, CompileMode::Build);
    assert!(!check_required_features(&q2, &t[2], &req, &vec![]).unwrap());
    // Libraries are built whatever their required features.
    assert!(check_required_features(&q, &t[0], &req, &vec![]).unwrap());
}

#[test]
fn warning_for_unmatched_filters() {
    let filter = CompileFilter::Only {
        all_targets: false,
        lib: LibRule::Default,
        bins: FilterRule::All,
        examples: FilterRule::Just(vec![]),
        tests: FilterRule::All,
        benches: FilterRule::Just(vec![]),
    };
    assert_eq!(
        unmatched_target_filters(true, &filter),
        Some("Target filters `bins`, `tests` specified, but no targets matched. This is a no-op".to_string())
    );
    assert_eq!(unmatched_target_filters(false, &filter), None);
    let all = CompileFilter::Only {
        all_targets: true,
        lib: LibRule::Default,
        bins: FilterRule::All,
        examples: FilterRule::All,
        tests: FilterRule::All,
        benches: FilterRule::All,
    };
    assert_eq!(
        unmatched_target_filters(true, &all),
        Some("Target filter `all-targets` specified, but no targets matched. This is a no-op".to_string())
    );
    let default = CompileFilter::Default { required_features_filterable: false };
    assert_eq!(unmatched_target_filters(true, &default), None);
}

#[test]
fn all_features_with_dependency_features() {
    let own = vec!["default".to_string(), "std".to_string(), "std".to_string()];
    let deps = vec![
        ("serde".to_string(), vec!["derive".to_string(), "std".to_string()]),
        ("log".to_string(), vec![]),
        ("serde".to_string(), vec!["derive".to_string()]),
    ];
    let mut all = resolve_all_features(&own, &deps);
    all.sort();
    assert_eq!(all, vec!["default", "serde/derive", "serde/std", "std"]);
    assert!(resolve_all_features(&vec![], &vec![]).is_empty());
}

#[test]
fn build_context_decisions() {
    assert!(check_can_test(CompileMode::Test, false, true, "dep").is_err());
    assert!(check_can_test(CompileMode::Test, true, true, "dep").is_ok());
    assert!(check_can_test(CompileMode::Build, false, true, "dep").is_ok());
    let some = Some(vec!["-x".to_string()]);
    let (a, tool) = extra_args_of(&some, &None);
    assert_eq!((a, tool), (Some(vec!["-x".to_string()]), "rustc"));
    let (a, tool) = extra_args_of(&None, &some);
    assert_eq!((a.is_some(), tool), (true, "rustdoc"));
    assert_eq!(extra_args_of(&None, &None), (None, ""));
    assert!(check_extra_args_target(true, 1, "rustc").is_ok());
    assert!(matches!(check_extra_args_target(true, 2, "rustc"),
        Err(BuildContextError::ExtraArgsForOneTarget { tool }) if tool == "rustc"));
    assert!(check_extra_args_target(false, 2, "").is_ok());
    assert_eq!(unit_rustdoc_args(&None, false, false), None);
    assert_eq!(unit_rustdoc_args(&some, true, false), Some(vec!["-x".to_string(), "--document-private-items".to_string()]));
    assert_eq!(
        unit_rustdoc_args(&None, false, true),
        Some(vec!["--document-private-items".to_string(), "-Arustdoc::private-intra-doc-links".to_string()])
    );
    let sid = SourceId::for_registry(&cargo_core::url::Url::parse("https://example.com/index").unwrap());
    let pkg = PackageId::new("foo", "0.3.1", &sid).unwrap();
    let rustc = Version::parse("1.60.0-nightly").unwrap();
    assert!(matches!(check_rust_version(None, &rustc, false, false, false, &pkg), Some(Ok(()))));
    assert!(matches!(check_rust_version(Some("1.56"), &rustc, false, false, false, &pkg), Some(Ok(()))));
    match check_rust_version(Some("1.65"), &rustc, false, false, false, &pkg) {
        Some(Err(BuildContextError::RustVersion { package, version, required, current, guidance })) => {
            assert_eq!((package.as_str(), version.as_str(), required.as_str()), ("foo", "0.3.1", "1.65"));
            assert_eq!(current, "1.60.0-nightly");
            assert_eq!(
                guidance,
                "Either upgrade to rustc 1.65 or newer, or use\ncargo update -p foo@0.3.1 --precise ver\n\
                 where `ver` is the latest version of `foo` supporting rustc 1.60.0-nightly"
            );
        }
        other => panic!("unexpected {:?}", other),
    }
    match check_rust_version(Some("1.65"), &rustc, true, true, false, &pkg) {
        Some(Err(BuildContextError::RustVersion { guidance, .. })) => {
            assert_eq!(guidance, "Try re-running cargo install with `--locked`")
        }
        other => panic!("unexpected {:?}", other),
    }
    assert!(check_rust_version(Some("not a requirement"), &rustc, false, false, true, &pkg).is_none());
}
