use cargo_core::compilation::{dylib_search_path, package_env, pre_version_component, PackageInfo};
use cargo_core::package_id_spec::Version;

fn version(pre: &str) -> Version {
    Version { major: 1, minor: 20, patch: 3, pre: pre.to_string(), build: String::new() }
}

fn strings(v: &[&str]) -> Vec<String> {
    v.iter().map(|s| s.to_string()).collect()
}

#[test]
fn pre_release_component() {
    assert_eq!(pre_version_component(&version("")), "");
    assert_eq!(pre_version_component(&version("alpha.1")), "alpha.1");
}

#[test]
fn library_search_path_order() {
    let host = dylib_search_path(
        true,
        "/t/debug/deps",
        &strings(&["/rust/lib"]),
        &strings(&["/t/debug/build/x/out"]),
        "/t/debug",
        "/t/debug/deps",
        &strings(&["/rust/target-lib"]),
        &strings(&["/usr/lib"]),
    );
    assert_eq!(host, strings(&["/t/debug/deps", "/rust/lib", "/usr/lib"]));
    let target = dylib_search_path(
        false,
        "/t/debug/deps",
        &strings(&["/rust/lib"]),
        &strings(&["/t/debug/build/x/out"]),
        "/t/debug",
        "/t/debug/deps",
        &strings(&["/rust/target-lib"]),
        &strings(&["/usr/lib"]),
    );
    assert_eq!(target, strings(&["/t/debug/build/x/out", "/t/debug", "/t/debug/deps", "/rust/target-lib", "/usr/lib"]));
}

#[test]
fn package_environment() {
    let p = PackageInfo {
        root: "/src/foo".to_string(),
        name: "foo".to_string(),
        version: version("beta.2"),
        description: Some("does things".to_string()),
        homepage: None,
        authors: strings(&["A <a@x>", "B"]),
    };
    let extra = vec![("OUT_DIR".to_string(), "/t/out".to_string())];
    let env = package_env(&extra, "/bin/cargo", &p);
    let pairs: Vec<(&str, &str)> = env.iter().map(|(k, v)| (k.as_str(), v.as_str())).collect();
    assert_eq!(
        pairs,
        vec![
            ("OUT_DIR", "/t/out"),
            ("CARGO", "/bin/cargo"),
            ("CARGO_MANIFEST_DIR", "/src/foo"),
            ("CARGO_PKG_VERSION_MAJOR", "1"),
            ("CARGO_PKG_VERSION_MINOR", "20"),
            ("CARGO_PKG_VERSION_PATCH", "3"),
            ("CARGO_PKG_VERSION_PRE", "beta.2"),
            ("CARGO_PKG_VERSION", "1.20.3-beta.2"),
            ("CARGO_PKG_NAME", "foo"),
            ("CARGO_PKG_DESCRIPTION", "does things"),
            ("CARGO_PKG_HOMEPAGE", ""),
            ("CARGO_PKG_AUTHORS", "A <a@x>:B"),
        ]
    );
}
