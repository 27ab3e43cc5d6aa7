use cargo_core::custom_build::{add_to_link, build_map, BuildOutput, BuildOutputError, BuildScripts, LinkType, ScriptUnit};
use cargo_core::package_id_spec::PackageId;
use cargo_core::source_id::SourceId;
use cargo_core::manifest::{LibKind, Metadata, Target};

fn parse(input: &str, targets: &[Target], extra_link_arg: bool) -> Result<BuildOutput, BuildOutputError> {
    BuildOutput::parse(
        input.as_bytes(),
        Some("foo".to_string()),
        "foo v0.1.0",
        "/old/out",
        "/new/out",
        extra_link_arg,
        false,
        targets,
        None,
    )
}

#[test]
fn parses_the_usual_instructions() {
    let input = "cargo:rustc-flags=-l foo -L /bar\n\
                 cargo:rustc-cfg=feat\n\
                 cargo:rustc-env=FOO=1\n\
                 some other output\n\
                 cargo:warning=hello\n\
                 cargo:rerun-if-changed=build.rs\n\
                 cargo:rerun-if-env-changed=CC\n\
                 cargo:rustc-link-lib=z\n\
                 cargo:rustc-link-search=/old/out/lib\n\
                 cargo:root=/old/out\n";
    let out = parse(input, &[], false).unwrap();
    assert_eq!(out.library_links, vec!["foo".to_string(), "z".to_string()]);
    assert_eq!(out.library_paths, vec!["/bar".to_string(), "/new/out/lib".to_string()]);
    assert_eq!(out.cfgs, vec!["feat".to_string()]);
    assert_eq!(out.env, vec![("FOO".to_string(), "1".to_string())]);
    assert_eq!(out.warnings, vec!["hello".to_string()]);
    assert_eq!(out.rerun_if_changed, vec!["build.rs".to_string()]);
    assert_eq!(out.rerun_if_env_changed, vec!["CC".to_string()]);
    assert_eq!(out.metadata, vec![("root".to_string(), "/new/out".to_string())]);
}

#[test]
fn line_without_value_is_wrong_output() {
    match parse("cargo:oops\n", &[], false) {
        Err(BuildOutputError::WrongOutput { whence, line }) => {
            assert_eq!(whence, "build script of `foo v0.1.0`");
            assert_eq!(line, "cargo:oops");
        }
        other => panic!("unexpected {:?}", other),
    }
}

#[test]
fn rustc_flags_glued_values() {
    let (paths, links) = BuildOutput::parse_rustc_flags("  -L/a -lb  -L c ", "w").unwrap();
    assert_eq!(paths, vec!["/a".to_string(), "c".to_string()]);
    assert_eq!(links, vec!["b".to_string()]);
}

#[test]
fn rustc_flags_errors() {
    match BuildOutput::parse_rustc_flags("-l", "w") {
        Err(BuildOutputError::FlagWithoutValue { .. }) => {}
        other => panic!("unexpected {:?}", other),
    }
    match BuildOutput::parse_rustc_flags("-x foo", "w") {
        Err(BuildOutputError::OnlyLinkFlags { whence, value }) => {
            assert_eq!(whence, "w");
            assert_eq!(value, "-x foo");
        }
        other => panic!("unexpected {:?}", other),
    }
}

#[test]
fn rustc_env_needs_equals() {
    assert_eq!(
        BuildOutput::parse_rustc_env("A=b=c", "w").unwrap(),
        ("A".to_string(), "b=c".to_string())
    );
    match BuildOutput::parse_rustc_env("A", "w") {
        Err(BuildOutputError::EnvWithoutValue { .. }) => {}
        other => panic!("unexpected {:?}", other),
    }
}

#[test]
fn link_args_need_the_flag() {
    let out = parse("cargo:rustc-link-arg=-x\n", &[], false).unwrap();
    assert!(out.linker_args.is_empty());
    assert_eq!(out.warnings, vec!["cargo:rustc-link-arg requires -Zextra-link-arg flag".to_string()]);
    let out = parse("cargo:rustc-link-arg=-x\n", &[], true).unwrap();
    assert_eq!(out.linker_args.len(), 1);
    assert!(matches!(out.linker_args[0].0, LinkType::All));
    assert_eq!(out.linker_args[0].1, "-x");
}

#[test]
fn link_arg_bin_checks_the_binary() {
    let bins = vec![Target::bin_target("tool", "src/main.rs", None)];
    let out = parse("cargo:rustc-link-arg-bin=tool=-y\n", &bins, true).unwrap();
    assert!(matches!(&out.linker_args[0].0, LinkType::SingleBin(n) if n == "tool"));
    assert_eq!(out.linker_args[0].1, "-y");
    match parse("cargo:rustc-link-arg-bin=other=-y\n", &bins, true) {
        Err(BuildOutputError::NoBinNamed { bin_name, .. }) => assert_eq!(bin_name, "other"),
        other => panic!("unexpected {:?}", other),
    }
    match parse("cargo:rustc-link-arg-bin=tool\n", &bins, true) {
        Err(BuildOutputError::LinkArgBinForm { .. }) => {}
        other => panic!("unexpected {:?}", other),
    }
    let libs = vec![Target::lib_target(
        "foo",
        vec![LibKind::Lib],
        "src/lib.rs",
        Metadata { metadata: "m".to_string(), extra_filename: "-m".to_string() },
    )];
    match parse("cargo:rustc-link-arg-bins=-z\n", &libs, true) {
        Err(BuildOutputError::NoBinTarget { .. }) => {}
        other => panic!("unexpected {:?}", other),
    }
}

#[test]
fn rustc_bootstrap_is_refused() {
    match parse("cargo:rustc-env=RUSTC_BOOTSTRAP=1\n", &[], false) {
        Err(BuildOutputError::RustcBootstrap { val, library_name, .. }) => {
            assert_eq!(val, "1");
            assert_eq!(library_name, "foo");
        }
        other => panic!("unexpected {:?}", other),
    }
}

#[test]
fn non_utf8_lines_are_skipped() {
    let mut input = b"cargo:rustc-cfg=a\n".to_vec();
    input.extend_from_slice(&[0xff, 0xfe, b'\n']);
    input.extend_from_slice(b"cargo:rustc-cfg=b\n");
    let out = BuildOutput::parse(&input, None, "p", "/x", "/y", false, false, &[], None).unwrap();
    assert_eq!(out.cfgs, vec!["a".to_string(), "b".to_string()]);
}

fn id(name: &str) -> PackageId {
    let sid = SourceId::for_registry(&cargo_core::url::Url::parse("https://example.com/index").unwrap());
    PackageId::new(name, "1.0.0", &sid).unwrap()
}

fn runs(v: &[(PackageId, u64)]) -> Vec<(String, u64)> {
    v.iter().map(|(p, m)| (p.name.clone(), *m)).collect()
}

#[test]
fn runs_to_link_are_added_once() {
    let mut s = BuildScripts::default();
    add_to_link(&mut s, &id("a"), 1);
    add_to_link(&mut s, &id("b"), 2);
    add_to_link(&mut s, &id("a"), 1);
    add_to_link(&mut s, &id("a"), 3);
    assert_eq!(runs(&s.to_link), vec![("a".to_string(), 1), ("b".to_string(), 2), ("a".to_string(), 3)]);
    assert!(s.plugins.is_empty());
}

#[test]
fn linking_information_of_a_build() {
    let units = vec![
        ScriptUnit { own: Some((id("zsys"), 7)), deps: vec![] },
        ScriptUnit { own: Some((id("mac"), 9)), deps: vec![] },
        ScriptUnit { own: None, deps: vec![(false, true, 0), (true, false, 1), (false, true, 0)] },
        ScriptUnit { own: Some((id("lib2"), 3)), deps: vec![(false, true, 0)] },
        ScriptUnit { own: None, deps: vec![(false, true, 3), (false, true, 0), (false, false, 1)] },
    ];
    let map = build_map(&units);
    assert_eq!(runs(&map[0].to_link), vec![("zsys".to_string(), 7)]);
    assert_eq!(runs(&map[2].to_link), vec![("zsys".to_string(), 7)]);
    assert_eq!(runs(&map[2].plugins), vec![("mac".to_string(), 9)]);
    assert_eq!(runs(&map[4].to_link), vec![("lib2".to_string(), 3), ("zsys".to_string(), 7)]);
    assert!(map[4].plugins.is_empty());
}

#[test]
fn text_replacement_matches_the_standard_library() {
    for (s, from, to) in [
        ("ab", "", "x"),
        ("", "", "x"),
        ("aaa", "aa", "b"),
        ("/old/out/lib:/old/out", "/old/out", "/new/out"),
        ("héllo wörld", "ö", "oe"),
        ("abc", "abcd", "z"),
    ] {
        assert_eq!(cargo_core::custom_build::str_replace(s, from, to), s.replace(from, to));
    }
}
