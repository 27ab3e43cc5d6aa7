use cargo_core::compiler::Kind;
use cargo_core::file_naming::FileNaming;
use cargo_core::manifest::{LibKind, Metadata, Target};

fn naming(target_dylib: Option<(&str, &str)>) -> FileNaming {
    FileNaming {
        host_triple: "x86_64-unknown-linux-gnu".to_string(),
        target_triple: "wasm32-unknown-unknown".to_string(),
        host_dylib: Some(("lib".to_string(), ".so".to_string())),
        host_exe: String::new(),
        target_dylib: target_dylib.map(|(p, s)| (p.to_string(), s.to_string())),
        target_exe: ".wasm".to_string(),
    }
}

fn meta() -> Metadata {
    Metadata { metadata: "abc".to_string(), extra_filename: "-abc".to_string() }
}

#[test]
fn dylib_parts_by_platform() {
    let n = naming(None);
    assert_eq!(n.dylib(Kind::Host), Ok(("lib".to_string(), ".so".to_string())));
    assert_eq!(n.dylib(Kind::Target), Err("wasm32-unknown-unknown".to_string()));
}

#[test]
fn file_stems() {
    let lib = Target::lib_target("my-lib", vec![LibKind::Lib], "src/lib.rs", meta());
    assert_eq!(FileNaming::file_stem(&lib, &Some(meta())), "my_lib-abc");
    assert_eq!(FileNaming::file_stem(&lib, &None), "my_lib");
    let bin = Target::bin_target("my-bin", "src/main.rs", None);
    assert_eq!(FileNaming::file_stem(&bin, &None), "my-bin");
}

#[test]
fn target_file_names() {
    let n = naming(Some(("", ".wasm-dylib")));
    let lib = Target::lib_target("foo", vec![LibKind::Rlib, LibKind::Dylib, LibKind::StaticLib], "src/lib.rs", meta());
    assert_eq!(
        n.target_filenames(&lib, &Some(meta()), false).unwrap(),
        vec!["libfoo-abc.rlib".to_string(), "foo-abc.wasm-dylib".to_string(), "libfoo-abc.a".to_string()]
    );
    assert_eq!(n.target_filenames(&lib, &Some(meta()), true).unwrap(), vec!["foo-abc.wasm".to_string()]);
    let bin = Target::bin_target("tool", "src/main.rs", None);
    assert_eq!(n.target_filenames(&bin, &None, false).unwrap(), vec!["tool.wasm".to_string()]);
    let no_dylib = naming(None);
    assert_eq!(no_dylib.target_filenames(&lib, &None, false), Err("wasm32-unknown-unknown".to_string()));
}

#[test]
fn crate_types_read_back() {
    for k in [LibKind::Lib, LibKind::Rlib, LibKind::Dylib, LibKind::StaticLib] {
        assert_eq!(LibKind::from_str(k.crate_type()).unwrap(), k);
    }
    assert_eq!(LibKind::Cdylib.crate_type(), "cdylib");
    assert!(LibKind::from_str("cdylib").is_err());
    assert!(LibKind::from_str("proc-macro").is_err());
}
