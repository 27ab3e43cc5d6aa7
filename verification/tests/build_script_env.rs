use cargo_core::build_script_env::{
    build_script_env, cfg_env_vars, dep_env, insert_warnings_in_build_outputs, metabuild_source, Cfg,
    ScriptEnvContext,
};
use cargo_core::custom_build::{BuildOutput, BuildScriptOutputs};
use cargo_core::profiles::Profile;

fn s(x: &str) -> String {
    x.to_string()
}

fn pairs(v: &[(&str, &str)]) -> Vec<(String, String)> {
    v.iter().map(|(a, b)| (s(a), s(b))).collect()
}

fn output_with_metadata(md: &[(&str, &str)]) -> BuildOutput {
    BuildOutput {
        library_paths: vec![],
        library_links: vec![],
        linker_args: vec![],
        cfgs: vec![],
        env: vec![],
        metadata: pairs(md),
        rerun_if_changed: vec![],
        rerun_if_env_changed: vec![],
        warnings: vec![],
    }
}

#[test]
fn cfg_values_are_grouped_by_key() {
    let cfgs = vec![
        Cfg::Name(s("unix")),
        Cfg::KeyPair(s("target_os"), s("linux")),
        Cfg::KeyPair(s("target_feature"), s("sse")),
        Cfg::Name(s("debug_assertions")),
        Cfg::KeyPair(s("target_feature"), s("sse2")),
    ];
    let env = cfg_env_vars(&cfgs);
    assert_eq!(
        env,
        pairs(&[
            ("CARGO_CFG_UNIX", ""),
            ("CARGO_CFG_TARGET_OS", "linux"),
            ("CARGO_CFG_TARGET_FEATURE", "sse,sse2"),
        ])
    );
}

#[test]
fn a_plain_name_wins_over_values() {
    let cfgs = vec![Cfg::KeyPair(s("feature"), s("a")), Cfg::Name(s("feature"))];
    assert_eq!(cfg_env_vars(&cfgs), pairs(&[("CARGO_CFG_FEATURE", "")]));
    assert!(cfg_env_vars(&vec![]).is_empty());
}

fn context(linker: Option<&str>, links: Option<&str>) -> ScriptEnvContext {
    ScriptEnvContext {
        out_dir: s("/t/out"),
        manifest_dir: s("/src/foo"),
        jobs: 12,
        target: s("x86_64-unknown-linux-gnu"),
        host: s("x86_64-unknown-linux-gnu"),
        rustc: s("rustc"),
        rustdoc: s("rustdoc"),
        linker: linker.map(s),
        links: links.map(s),
        features: vec![s("default"), s("serde-json")],
        cfgs: vec![Cfg::Name(s("unix"))],
    }
}

#[test]
fn build_script_environment_in_order() {
    let env = build_script_env(&context(Some("cc"), Some("z")), &Profile::default_dev(), false);
    assert_eq!(
        env,
        pairs(&[
            ("OUT_DIR", "/t/out"),
            ("CARGO_MANIFEST_DIR", "/src/foo"),
            ("NUM_JOBS", "12"),
            ("TARGET", "x86_64-unknown-linux-gnu"),
            ("DEBUG", "true"),
            ("OPT_LEVEL", "0"),
            ("PROFILE", "debug"),
            ("HOST", "x86_64-unknown-linux-gnu"),
            ("RUSTC", "rustc"),
            ("RUSTDOC", "rustdoc"),
            ("RUSTC_LINKER", "cc"),
            ("CARGO_MANIFEST_LINKS", "z"),
            ("CARGO_FEATURE_DEFAULT", "1"),
            ("CARGO_FEATURE_SERDE_JSON", "1"),
            ("CARGO_CFG_UNIX", ""),
        ])
    );
}

#[test]
fn release_environment_without_linker() {
    let env = build_script_env(&context(None, None), &Profile::default_release(), true);
    assert_eq!(env.len(), 13);
    assert_eq!(env[4], (s("DEBUG"), s("false")));
    assert_eq!(env[5], (s("OPT_LEVEL"), s("3")));
    assert_eq!(env[6], (s("PROFILE"), s("release")));
    assert_eq!(env[10], (s("CARGO_FEATURE_DEFAULT"), s("1")));
}

#[test]
fn dep_env_names_metadata_after_the_library() {
    let mut outputs = BuildScriptOutputs::new();
    outputs.insert(7, output_with_metadata(&[("root", "/x"), ("include-dir", "/x/inc")]));
    outputs.insert(9, output_with_metadata(&[("version", "1.2")]));
    let deps = vec![(s("libz-sys"), 7u64), (s("openssl"), 9u64)];
    assert_eq!(
        dep_env(&deps, &outputs),
        Ok(pairs(&[
            ("DEP_LIBZ_SYS_ROOT", "/x"),
            ("DEP_LIBZ_SYS_INCLUDE_DIR", "/x/inc"),
            ("DEP_OPENSSL_VERSION", "1.2"),
        ]))
    );
}

#[test]
fn dep_env_reports_the_first_missing_output() {
    let mut outputs = BuildScriptOutputs::new();
    outputs.insert(7, output_with_metadata(&[("root", "/x")]));
    let deps = vec![(s("z"), 7u64), (s("a"), 3u64), (s("b"), 4u64)];
    assert_eq!(dep_env(&deps, &outputs), Err(3));
}

#[test]
fn metabuild_script_source() {
    let deps = vec![s("mb"), s("missing"), s("mb-other")];
    let avail = pairs(&[("mb", "mb"), ("mb-other", "mb_other"), ("mb", "second")]);
    assert_eq!(
        metabuild_source(&deps, &avail),
        "use mb;\nuse mb_other;\nfn main() {\n    mb::metabuild();\n    mb_other::metabuild();\n}\n"
    );
    assert_eq!(metabuild_source(&vec![], &avail), "fn main() {\n}\n");
}

#[test]
fn warnings_are_recorded_as_an_output() {
    let mut outputs = BuildScriptOutputs::new();
    insert_warnings_in_build_outputs(&mut outputs, 42, vec![s("careful")]);
    assert_eq!(outputs.len(), 1);
    let o = outputs.get(42).unwrap();
    assert_eq!(o.warnings, vec![s("careful")]);
    assert!(o.metadata.is_empty() && o.library_paths.is_empty() && o.cfgs.is_empty());
    assert!(outputs.get(41).is_none());
}

#[test]
fn outputs_are_listed_once_each() {
    let mut outputs = BuildScriptOutputs::new();
    outputs.insert(7, output_with_metadata(&[("root", "/x")]));
    outputs.insert(3, output_with_metadata(&[]));
    let mut keys: Vec<u64> = outputs.iter().iter().map(|(k, _)| *k).collect();
    keys.sort();
    assert_eq!(keys, vec![3, 7]);
    let seven = outputs.iter().into_iter().find(|(k, _)| *k == 7).unwrap().1;
    assert_eq!(seven.metadata, pairs(&[("root", "/x")]));
    assert!(outputs.contains_key(3) && !outputs.contains_key(4));
}

#[test]
fn outputs_map_gives_what_was_inserted() {
    let mut outputs = BuildScriptOutputs::new();
    outputs.insert(3, output_with_metadata(&[("a", "1")]));
    outputs.insert(8, output_with_metadata(&[("b", "2")]));
    assert_eq!(outputs.get(3).unwrap().metadata, pairs(&[("a", "1")]));
    assert_eq!(outputs.get(8).unwrap().metadata, pairs(&[("b", "2")]));
    assert!(outputs.get(5).is_none());
}
