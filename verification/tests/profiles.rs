use cargo_core::compile_mode::CompileMode;
use cargo_core::package_id_spec::{PackageId, PackageIdSpec};
use cargo_core::profiles::{
    validate_config, ConfigProfile, ConfigProfileTable, check_overrides, merge_profile, Lto, OverrideError, Profile, ProfileFor, ProfilePackageSpec,
    Profiles, StringOrBool, TomlProfile, TomlProfiles, U32OrBool,
};
use cargo_core::source_id::SourceId;

fn pkg(name: &str, version: &str) -> PackageId {
    let sid = SourceId::for_registry(&cargo_core::url::Url::parse("https://example.com/index").unwrap());
    PackageId::new(name, version, &sid).unwrap()
}

fn spec(s: &str) -> ProfilePackageSpec {
    ProfilePackageSpec::Spec(PackageIdSpec::parse(s).unwrap())
}

#[test]
fn built_in_profiles() {
    let dev = Profile::default_dev();
    assert_eq!(dev.name, "dev");
    assert_eq!(dev.opt_level, "0");
    assert_eq!(dev.debuginfo, Some(2));
    assert!(dev.debug_assertions && dev.overflow_checks && dev.incremental);
    let release = Profile::default_release();
    assert_eq!(release.opt_level, "3");
    assert_eq!(release.debuginfo, None);
    assert!(!release.debug_assertions);
    // Names do not take part in comparisons: `test` is the same as `dev`.
    assert!(Profile::default_test() == Profile::default_dev());
    assert!(Profile::default_bench() == Profile::default_release());
    assert!(Profile::default_dev() != Profile::default_release());
    assert_eq!(Profile::default_doc().to_string(), "Profile(doc)");
}

#[test]
fn merge_replaces_only_given_settings() {
    let mut p = Profile::default_dev();
    let t = TomlProfile {
        opt_level: Some("s".to_string()),
        lto: Some(StringOrBool::String("thin".to_string())),
        debug: Some(U32OrBool::Bool(false)),
        panic: Some("abort".to_string()),
        ..TomlProfile::default()
    };
    merge_profile(&mut p, &t);
    assert_eq!(p.opt_level, "s");
    assert!(matches!(&p.lto, Lto::Named(n) if n == "thin"));
    assert_eq!(p.debuginfo, None);
    assert_eq!(p.panic, Some("abort".to_string()));
    assert!(p.debug_assertions);
    let mut q = Profile::default_release();
    merge_profile(&mut q, &TomlProfile { debug: Some(U32OrBool::Bool(true)), ..TomlProfile::default() });
    assert_eq!(q.debuginfo, Some(2));
    merge_profile(&mut q, &TomlProfile { debug: Some(U32OrBool::U32(1)), codegen_units: Some(4), ..TomlProfile::default() });
    assert_eq!(q.debuginfo, Some(1));
    assert_eq!(q.codegen_units, Some(4));
}

#[test]
fn merging_an_empty_table_changes_nothing() {
    let mut p = Profile::default_release();
    merge_profile(&mut p, &TomlProfile::default());
    assert!(p == Profile::default_release());
    assert_eq!(p.name, "release");
}

#[test]
fn precedence_of_layers() {
    let toml = TomlProfile {
        opt_level: Some("1".to_string()),
        build_override: Some(Box::new(TomlProfile { opt_level: Some("2".to_string()), ..TomlProfile::default() })),
        overrides: Some(vec![
            (ProfilePackageSpec::All, TomlProfile { opt_level: Some("s".to_string()), ..TomlProfile::default() }),
            (spec("bar"), TomlProfile { opt_level: Some("z".to_string()), ..TomlProfile::default() }),
        ]),
        ..TomlProfile::default()
    };
    let profiles = Profiles::new(
        Some(TomlProfiles { dev: Some(toml), release: None, test: None, bench: None, doc: None }),
        None,
        Some(TomlProfile { panic: Some("abort".to_string()), ..TomlProfile::default() }),
    );
    let foo = pkg("foo", "1.0.0");
    let bar = pkg("bar", "1.0.0");
    let get = |id: &PackageId, member: bool, pf: ProfileFor, mode: CompileMode| {
        profiles.get_profile(id, member, pf, mode, false)
    };
    assert_eq!(get(&foo, true, ProfileFor::Any, CompileMode::Build).opt_level, "1");
    assert_eq!(get(&foo, true, ProfileFor::CustomBuild, CompileMode::Build).opt_level, "2");
    assert_eq!(get(&foo, false, ProfileFor::Any, CompileMode::Build).opt_level, "s");
    assert_eq!(get(&bar, false, ProfileFor::CustomBuild, CompileMode::Build).opt_level, "z");
    assert_eq!(get(&bar, true, ProfileFor::Any, CompileMode::Build).opt_level, "z");
    // The test profile has no table: built-in settings.
    assert_eq!(get(&bar, true, ProfileFor::Any, CompileMode::Test).opt_level, "0");
    // Release: the configuration's panic setting, cleared for tests.
    let r = profiles.get_profile(&foo, true, ProfileFor::Any, CompileMode::Build, true);
    assert_eq!(r.panic, Some("abort".to_string()));
    assert_eq!(r.opt_level, "3");
    let r = profiles.get_profile(&foo, true, ProfileFor::TestDependency, CompileMode::Build, true);
    assert_eq!(r.panic, None);
    let r = profiles.get_profile(&foo, true, ProfileFor::Any, CompileMode::Doctest, true);
    assert_eq!(r.panic, None);
    assert_eq!(profiles.base_profile(true).name, "release");
    assert_eq!(profiles.base_profile(false).opt_level, "1");
}

#[test]
fn run_custom_build_profile_is_stripped() {
    let profiles = Profiles::new(None, None, None);
    let mut p = Profile::default_release();
    p.panic = Some("abort".to_string());
    p.debuginfo = Some(1);
    let r = profiles.get_profile_run_custom_build(&p);
    assert_eq!(r.opt_level, "3");
    assert_eq!(r.debuginfo, Some(1));
    assert_eq!(r.panic, None);
    assert_eq!(r.name, "");
}

#[test]
fn all_profile_purposes() {
    assert_eq!(
        ProfileFor::all_values(),
        vec![ProfileFor::Any, ProfileFor::CustomBuild, ProfileFor::TestDependency]
    );
}

#[test]
fn overrides_checked_against_packages() {
    let ov = vec![
        (spec("foo"), TomlProfile::default()),
        (spec("baz:2.0.0"), TomlProfile::default()),
        (ProfilePackageSpec::All, TomlProfile::default()),
    ];
    let pkgs = vec![pkg("foo", "1.0.0"), pkg("baz", "1.0.0")];
    let reports = check_overrides(&ov, &pkgs).unwrap();
    assert_eq!(reports.len(), 1);
    assert_eq!(reports[0].spec, 1);
    assert_eq!(reports[0].same_name, vec![1]);
    let ov = vec![(spec("foo"), TomlProfile::default()), (spec("foo:1.0.0"), TomlProfile::default())];
    match check_overrides(&ov, &pkgs) {
        Err(OverrideError::MultipleOverrides { package, specs }) => {
            assert_eq!(package, 0);
            assert_eq!(specs, vec![0, 1]);
        }
        other => panic!("unexpected {:?}", other),
    }
}

fn keys(v: &[(&str, &str)]) -> Vec<(String, String)> {
    v.iter().map(|(k, d)| (k.to_string(), d.to_string())).collect()
}

#[test]
fn config_profiles_are_checked() {
    let profiles = vec![
        ConfigProfile {
            name: "dev".to_string(),
            definition: "/home/.cargo/config".to_string(),
            table: Some(ConfigProfileTable {
                keys: keys(&[("opt-level", "/home/.cargo/config"), ("opt-levle", "/home/.cargo/config")]),
                build_override: Some(keys(&[("lto", "/p/.cargo/config"), ("speed", "/p/.cargo/config")])),
                overrides: vec![None, Some(keys(&[("debug", "/p/.cargo/config"), ("colour", "/p/.cargo/config")]))],
            }),
        },
        ConfigProfile { name: "bench".to_string(), definition: "/p/.cargo/config".to_string(), table: None },
    ];
    let mut warnings = vec!["earlier".to_string()];
    validate_config("/home/.cargo/config", &profiles, true, &mut warnings);
    assert_eq!(
        warnings,
        vec![
            "earlier".to_string(),
            "profile `bench` in config `/p/.cargo/config` is not supported".to_string(),
            "unused profile key `opt-levle` in config `/home/.cargo/config`".to_string(),
            "unused profile key `speed` in config `/p/.cargo/config`".to_string(),
            "unused profile key `colour` in config `/p/.cargo/config`".to_string(),
        ]
    );
    let mut warnings = Vec::new();
    validate_config("/home/.cargo/config", &profiles, false, &mut warnings);
    assert_eq!(
        warnings,
        vec!["profile in config `/home/.cargo/config` requires `-Z config-profile` command-line option".to_string()]
    );
}
