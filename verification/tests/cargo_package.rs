use cargo_core::cargo_package::{
    archive_entries, check_filename, check_metadata, check_vcs_file_collision, include_lockfile, EntrySource, PackageError,
};
use cargo_core::manifest::{LibKind, ManifestMetadata, Metadata, Target};

fn metadata() -> ManifestMetadata {
    ManifestMetadata {
        authors: vec![],
        keywords: vec![],
        license: None,
        license_file: None,
        description: None,
        readme: None,
        homepage: None,
        repository: None,
        documentation: None,
    }
}

const MORE: &str = ".\nSee http://doc.crates.io/manifest.html#package-metadata for more info.";

#[test]
fn missing_metadata_is_listed() {
    let md = metadata();
    assert_eq!(
        check_metadata(&md).unwrap(),
        format!("manifest has no description, license, license-file, documentation, homepage or repository{}", MORE)
    );
    let mut md = metadata();
    md.license = Some("MIT".to_string());
    md.repository = Some("https://example.com/repo".to_string());
    assert_eq!(check_metadata(&md).unwrap(), format!("manifest has no description{}", MORE));
    md.description = Some(String::new());
    assert_eq!(check_metadata(&md).unwrap(), format!("manifest has no description{}", MORE));
    md.description = Some("a crate".to_string());
    assert_eq!(check_metadata(&md), None);
    md.license = None;
    assert_eq!(check_metadata(&md).unwrap(), format!("manifest has no license or license-file{}", MORE));
}

#[test]
fn lockfile_goes_with_binaries_and_examples() {
    let lib = Target::lib_target("a", vec![LibKind::Lib], "src/lib.rs", Metadata { metadata: "m".into(), extra_filename: "".into() });
    let bin = Target::bin_target("a", "src/main.rs", None);
    assert!(!include_lockfile(true, &vec![lib.clone()]));
    assert!(include_lockfile(true, &vec![lib.clone(), bin.clone()]));
    assert!(!include_lockfile(false, &vec![lib, bin]));
    assert!(include_lockfile(true, &vec![Target::example_target("ex", "examples/ex.rs")]));
}

#[test]
fn special_characters_in_file_names() {
    assert_eq!(check_filename("src/lib.rs", '/'), Ok(()));
    assert_eq!(
        check_filename("src/a:b?.rs", '/'),
        Err(PackageError::SpecialCharacter { ch: ':', path: "src/a:b?.rs".to_string() })
    );
    assert_eq!(
        check_filename("dir<x>/file\\name", '/'),
        Err(PackageError::SpecialCharacter { ch: '\\', path: "dir<x>/file\\name".to_string() })
    );
    assert_eq!(check_filename("dir<x>/plain", '/'), Ok(()));
}

#[test]
fn reserved_vcs_file_name() {
    let files = vec!["src/lib.rs".to_string(), ".cargo_vcs_info.json".to_string()];
    assert_eq!(check_vcs_file_collision(&files), Err(PackageError::ReservedFileName));
    assert_eq!(check_vcs_file_collision(&vec!["src/.cargo_vcs_info.json".to_string()]), Ok(()));
}

#[test]
fn archive_plan() {
    let files = vec!["Cargo.toml".to_string(), "src/lib.rs".to_string()];
    let entries = archive_entries("foo", "0.1.0", '/', &files, true).unwrap();
    let got: Vec<(String, EntrySource)> = entries.into_iter().map(|e| (e.path, e.source)).collect();
    assert_eq!(
        got,
        vec![
            ("foo-0.1.0/Cargo.toml.orig".to_string(), EntrySource::File(0)),
            ("foo-0.1.0/Cargo.toml".to_string(), EntrySource::RegistryManifest),
            ("foo-0.1.0/src/lib.rs".to_string(), EntrySource::File(1)),
            ("foo-0.1.0/.cargo_vcs_info.json".to_string(), EntrySource::VcsInfo),
        ]
    );
    let bad = vec!["src/lib.rs".to_string(), "src/x|y.rs".to_string(), "src/z*.rs".to_string()];
    assert_eq!(
        archive_entries("foo", "0.1.0", '/', &bad, false).unwrap_err(),
        PackageError::SpecialCharacter { ch: '|', path: "src/x|y.rs".to_string() }
    );
}
