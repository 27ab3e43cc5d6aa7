use cargo_core::git::ident;
use cargo_core::source_id::{GitReference, Kind, Protocol, SourceId};
use cargo_core::url::Url;

fn url(s: &str) -> Url {
    Url::parse(s).unwrap()
}

#[test]
fn github_sources_equal() {
    let loc = url("https://github.com/foo/bar");
    let master = Kind::Git(GitReference::Branch("master".to_string()));
    let s1 = SourceId::new(master.duplicate(), loc);

    let loc = url("git://github.com/foo/bar");
    let s2 = SourceId::new(master, loc.duplicate());

    assert_eq!(s1, s2);

    let foo = Kind::Git(GitReference::Branch("foo".to_string()));
    let s3 = SourceId::new(foo, loc);
    assert_ne!(s1, s3);
}

#[test]
fn test_url_to_path_ident_with_path() {
    let ident = ident(&url("https://github.com/carlhuda/cargo"));
    assert!(ident.starts_with("cargo-"));
}

#[test]
fn test_url_to_path_ident_without_path() {
    let ident = ident(&url("https://github.com"));
    assert!(ident.starts_with("_empty-"));
}

#[test]
fn test_canonicalize_idents_by_stripping_trailing_url_slash() {
    let ident1 = ident(&url("https://github.com/PistonDevelopers/piston/"));
    let ident2 = ident(&url("https://github.com/PistonDevelopers/piston"));
    assert_eq!(ident1, ident2);
}

#[test]
fn test_canonicalize_idents_by_lowercasing_github_urls() {
    let ident1 = ident(&url("https://github.com/PistonDevelopers/piston"));
    let ident2 = ident(&url("https://github.com/pistondevelopers/piston"));
    assert_eq!(ident1, ident2);
}

#[test]
fn test_canonicalize_idents_by_stripping_dot_git() {
    let ident1 = ident(&url("https://github.com/PistonDevelopers/piston"));
    let ident2 = ident(&url("https://github.com/PistonDevelopers/piston.git"));
    assert_eq!(ident1, ident2);
}

#[test]
fn test_canonicalize_idents_different_protocls() {
    let ident1 = ident(&url("https://github.com/PistonDevelopers/piston"));
    let ident2 = ident(&url("git://github.com/PistonDevelopers/piston"));
    assert_eq!(ident1, ident2);
}

#[test]
fn canonical_github_url_text() {
    let c = cargo_core::git::canonicalize_url(&url("git://github.com/Foo/Bar.git/"));
    assert_eq!(c.as_string(), "https://github.com/foo/bar");
}

#[test]
fn source_from_a_parsed_url() {
    let u = url("https://example.com/repo?tag=v1#abc");
    let pairs = vec![("branch".to_string(), "dev".to_string()), ("tag".to_string(), "v1".to_string())];
    let id = SourceId::from_parsed_url(Protocol::Git, u, &pairs);
    assert!(matches!(id.git_reference(), Some(GitReference::Tag(t)) if t == "v1"));
    assert_eq!(id.precise(), Some("abc"));
    assert_eq!(id.url().as_string(), "https://example.com/repo");
    let id = SourceId::from_parsed_url(Protocol::Registry, url("https://example.com/index"), &vec![]);
    assert!(id.is_registry());
    assert_eq!(id.precise(), Some("locked"));
}
