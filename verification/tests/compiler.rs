use cargo_core::compiler::{build_deps_args, DepArgsUnit};
use cargo_core::compile_mode::CompileMode;
use cargo_core::compiler::{
    build_base_args, cap_lints_args, custom_env, envify, filter_dynamic_search_path, native_dep_args, pass_l_flag,
    BaseArgsContext, ColorChoice, Kind, Links, LinksError, Platform,
};
use cargo_core::custom_build::{BuildOutput, BuildScriptOutputs, BuildScripts};
use cargo_core::manifest::{LibKind, Metadata, Target};
use cargo_core::package_id_spec::PackageId;
use cargo_core::profiles::{Lto, Profile};
use cargo_core::source_id::SourceId;

fn pkg(name: &str) -> PackageId {
    let sid = SourceId::for_registry(&cargo_core::url::Url::parse("https://example.com/index").unwrap());
    PackageId::new(name, "1.0.0", &sid).unwrap()
}

fn meta() -> Metadata {
    Metadata { metadata: "m".to_string(), extra_filename: "-m".to_string() }
}

fn ctx() -> BaseArgsContext {
    BaseArgsContext {
        path_arg: "src/lib.rs".to_string(),
        color: ColorChoice::CargoAuto,
        json_messages: false,
        other_members: false,
        used_in_plugin: false,
        extra_args: None,
        features: vec!["default".to_string()],
        metadata: Some("abc".to_string()),
        short_hash: "h".to_string(),
        out_dir: "/t/debug/deps".to_string(),
        requested_target: None,
        ar: None,
        linker: None,
        incremental_args: vec![],
    }
}

#[test]
fn kinds_and_platforms() {
    let lib = Target::lib_target("a", vec![LibKind::Lib], "src/lib.rs", meta());
    let mut plugin = Target::lib_target("p", vec![LibKind::Dylib], "src/lib.rs", meta());
    plugin.set_for_host(true);
    assert_eq!(Kind::Target.for_target(&lib), Kind::Target);
    assert_eq!(Kind::Target.for_target(&plugin), Kind::Host);
    assert_eq!(Kind::Host.for_target(&lib), Kind::Host);
    assert_eq!(Platform::Target.combine(Platform::Plugin), Platform::PluginAndTarget);
    assert_eq!(Platform::Plugin.combine(Platform::Plugin), Platform::Plugin);
    assert!(Platform::PluginAndTarget.includes(Kind::Host));
    assert!(!Platform::Target.includes(Kind::Host));
    assert_eq!(Platform::PluginAndTarget.each_kind(), vec![Kind::Target, Kind::Host]);
    assert_eq!(Platform::Plugin.each_kind(), vec![Kind::Host]);
}

#[test]
fn envify_upper_cases() {
    assert_eq!(envify("foo-bar_baz"), "FOO_BAR_BAZ");
    assert_eq!(envify("ß"), "SS");
}

#[test]
fn search_path_keeps_output_dirs() {
    let paths = vec![
        "native=/t/debug/build/x/out".to_string(),
        "/usr/lib".to_string(),
        "crate=/t/debug/deps".to_string(),
        "weird=/t/debug".to_string(),
        "/t/debug/other".to_string(),
    ];
    let kept = filter_dynamic_search_path(&paths, "/t/debug");
    assert_eq!(
        kept,
        vec!["/t/debug/build/x/out".to_string(), "/t/debug/deps".to_string(), "/t/debug/other".to_string()]
    );
}

#[test]
fn base_args_of_a_dev_library() {
    let lib = Target::lib_target("my-lib", vec![LibKind::Lib], "src/lib.rs", meta());
    let args = build_base_args(
        &lib,
        &Profile::default_dev(),
        CompileMode::Build,
        Kind::Target,
        &vec!["lib".to_string()],
        &ctx(),
    );
    let expected: Vec<&str> = vec![
        "--crate-name", "my_lib", "src/lib.rs", "--crate-type", "lib", "--emit=dep-info,link",
        "-C", "debuginfo=2", "--cfg", "feature=\"default\"", "-C", "metadata=abc", "-C",
        "extra-filename=-abc", "--out-dir", "/t/debug/deps",
    ];
    assert_eq!(args, expected);
}

#[test]
fn base_args_of_a_release_test() {
    let t = Target::test_target("it", "tests/it.rs", meta());
    let mut p = Profile::default_release();
    p.lto = Lto::Bool(true);
    p.codegen_units = Some(1);
    p.panic = Some("abort".to_string());
    p.overflow_checks = true;
    p.rpath = true;
    let mut c = ctx();
    c.color = ColorChoice::Always;
    c.json_messages = true;
    c.metadata = None;
    c.features = vec![];
    c.requested_target = Some("x86_64-unknown-linux-gnu".to_string());
    c.linker = Some("cc".to_string());
    c.incremental_args = vec!["-C".to_string(), "incremental=/t/inc".to_string()];
    let args = build_base_args(&t, &p, CompileMode::Test, Kind::Target, &vec!["bin".to_string()], &c);
    let expected: Vec<&str> = vec![
        "--crate-name", "it", "src/lib.rs", "--color", "always", "--error-format", "json",
        "--emit=dep-info,link", "-C", "opt-level=3", "-C", "panic=abort", "-C", "lto", "-C",
        "codegen-units=1", "-C", "overflow-checks=on", "--test", "-C", "metadata=h", "-C", "rpath",
        "--out-dir", "/t/debug/deps", "--target", "x86_64-unknown-linux-gnu", "-C", "linker=cc", "-C",
        "incremental=/t/inc",
    ];
    assert_eq!(args, expected);
}

#[test]
fn a_native_library_is_linked_once() {
    let mut links = Links::new();
    let a = pkg("a");
    let b = pkg("b");
    assert!(links.validate(&a, Some("z"), true).is_ok());
    // Checking the same package again does nothing.
    assert!(links.validate(&a, Some("z"), true).is_ok());
    match links.validate(&b, Some("z"), true) {
        Err(LinksError::MultipleLinks { lib, prev, pkg }) => {
            assert_eq!(lib, "z");
            assert_eq!(prev.name(), "a");
            assert_eq!(pkg.name(), "b");
        }
        other => panic!("unexpected {:?}", other),
    }
    let c = pkg("c");
    match links.validate(&c, Some("y"), false) {
        Err(LinksError::NoBuildScript { lib, .. }) => assert_eq!(lib, "y"),
        other => panic!("unexpected {:?}", other),
    }
    assert!(links.validate(&pkg("d"), None, false).is_ok());
}

fn script_output(paths: &[&str], links: &[&str], cfgs: &[&str], env: &[(&str, &str)]) -> BuildOutput {
    let v = |xs: &[&str]| xs.iter().map(|s| s.to_string()).collect::<Vec<_>>();
    BuildOutput {
        library_paths: v(paths),
        library_links: v(links),
        linker_args: vec![],
        cfgs: v(cfgs),
        env: env.iter().map(|(a, b)| (a.to_string(), b.to_string())).collect(),
        metadata: vec![],
        rerun_if_changed: vec![],
        rerun_if_env_changed: vec![],
        warnings: vec![],
    }
}

fn reg_pkg(name: &str) -> PackageId {
    pkg(name)
}

#[test]
fn native_library_arguments() {
    let mut outputs = BuildScriptOutputs::new();
    outputs.insert(1, script_output(&["/z/lib"], &["z"], &["has_z"], &[("Z", "1")]));
    outputs.insert(2, script_output(&["/me/lib"], &["me"], &["mine"], &[("ME", "yes")]));
    let scripts = BuildScripts { to_link: vec![(reg_pkg("z-sys"), 1), (reg_pkg("me"), 2)], plugins: vec![] };
    let args = native_dep_args(&outputs, &scripts, true, &reg_pkg("me")).unwrap();
    assert_eq!(args, vec!["-L", "/z/lib", "-L", "/me/lib", "--cfg", "mine", "-l", "me"]);
    let args = native_dep_args(&outputs, &scripts, false, &reg_pkg("me")).unwrap();
    assert_eq!(args, vec!["-L", "/z/lib", "-L", "/me/lib", "--cfg", "mine"]);
    let missing = BuildScripts { to_link: vec![(reg_pkg("z-sys"), 1), (reg_pkg("gone"), 9)], plugins: vec![] };
    let (id, meta) = native_dep_args(&outputs, &missing, true, &reg_pkg("me")).unwrap_err();
    assert!(id.same(&reg_pkg("gone")) && meta == 9);
    assert_eq!(custom_env(&outputs, Some(2)), vec![("ME".to_string(), "yes".to_string())]);
    assert!(custom_env(&outputs, Some(7)).is_empty() && custom_env(&outputs, None).is_empty());
}

#[test]
fn lint_caps_and_l_flags() {
    assert_eq!(cap_lints_args(false, true), vec!["--cap-lints", "allow"]);
    assert_eq!(cap_lints_args(true, false), vec!["--cap-lints", "warn"]);
    assert!(cap_lints_args(true, true).is_empty());
    let lib = Target::lib_target("a", vec![LibKind::Lib], "src/lib.rs", Metadata { metadata: "m".to_string(), extra_filename: "-m".to_string() });
    let bin = Target::bin_target("a", "src/main.rs", None);
    assert!(pass_l_flag(&lib, &vec![]));
    assert!(!pass_l_flag(&bin, &vec![bin.clone(), lib.clone()]));
    assert!(pass_l_flag(&bin, &vec![bin.clone()]));
}

fn dep(mode: cargo_core::compile_mode::CompileMode, linkable: bool, is_lib: bool, name: &str, files: &[&str]) -> DepArgsUnit {
    DepArgsUnit {
        mode,
        linkable,
        is_lib,
        crate_name: name.to_string(),
        dir: format!("/t/{}", name),
        extern_name: name.to_string(),
        linkable_files: files.iter().map(|f| f.to_string()).collect(),
    }
}

#[test]
fn dependency_arguments() {
    let deps = vec![
        dep(cargo_core::compile_mode::CompileMode::RunCustomBuild, false, false, "script", &[]),
        dep(cargo_core::compile_mode::CompileMode::Build, true, true, "foo", &["libfoo.rlib", "libfoo.rmeta"]),
        dep(cargo_core::compile_mode::CompileMode::Doc { deps: false }, true, true, "bar", &["libbar.rlib"]),
    ];
    let r = build_deps_args(cargo_core::compiler::Kind::Target, "/t/deps", "/h/deps", "app", &deps, '/');
    assert_eq!(
        r.args,
        vec![
            "-L", "dependency=/t/deps", "-L", "dependency=/h/deps",
            "--extern", "foo=/t/foo/libfoo.rlib", "--extern", "foo=/t/foo/libfoo.rmeta",
        ]
    );
    assert_eq!(r.env, vec![("OUT_DIR".to_string(), "/t/script".to_string())]);
    assert_eq!(r.warning, None);
    let only_lib = vec![dep(cargo_core::compile_mode::CompileMode::Build, false, true, "st", &[])];
    let r = build_deps_args(cargo_core::compiler::Kind::Host, "/t/deps", "/h/deps", "app", &only_lib, '/');
    assert_eq!(r.args, vec!["-L", "dependency=/t/deps"]);
    assert_eq!(
        r.warning.unwrap(),
        "The package `st` provides no linkable target. The compiler might raise an error while compiling `app`. \
         Consider adding 'dylib' or 'rlib' to key `crate-type` in `st`'s Cargo.toml. This warning might turn into a \
         hard error in the future."
    );
}

#[test]
fn source_path_arguments() {
    assert_eq!(
        cargo_core::compiler::checked_path_args("/ws", "/ws/src/lib.rs", "/ws/pkg"),
        Some(("src/lib.rs".to_string(), "/ws".to_string()))
    );
    assert_eq!(
        cargo_core::compiler::checked_path_args("/ws", "/other/x.rs", "/other"),
        Some(("/other/x.rs".to_string(), "/other".to_string()))
    );
    assert_eq!(cargo_core::compiler::checked_path_args("/ws", "src/lib.rs", "/ws"), None);
}
