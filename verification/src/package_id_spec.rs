//! Package identifiers (`name`, version, source) and the specifications
//! that select them on the command line (`foo`, `foo:1.2.3`,
//! `crates.io/foo#bar:1.2.3`, ...).
use vstd::prelude::*;
use crate::source_id::{same_source, SourceId, SourceIdView};
use crate::text::{
    chars_of, copy, dec, dec_chars, eq_chars, eq_str, find, push_all, push_str, split_once,
    split_once_chars, string_from, string_of,
};
use crate::url::{opt_view, url_of_raw, url_parse_result, url_text, Url, UrlView};

verus! {

/// A semantic version: `major.minor.patch`, an optional pre-release and
/// optional build metadata.
#[derive(Debug)]
pub struct Version {
    pub major: u64,
    pub minor: u64,
    pub patch: u64,
    pub pre: String,
    pub build: String,
}

/// The mathematical value of a `Version`.
pub struct VersionView {
    pub major: u64,
    pub minor: u64,
    pub patch: u64,
    pub pre: Seq<char>,
    pub build: Seq<char>,
}

impl View for Version {
    type V = VersionView;

    open spec fn view(&self) -> VersionView {
        VersionView {
            major: self.major,
            minor: self.minor,
            patch: self.patch,
            pre: self.pre@,
            build: self.build@,
        }
    }
}

/// What `semver::Version::parse` gives for a text.
pub uninterp spec fn version_parse_result(s: Seq<char>) -> Option<VersionView>;

/// Calls `semver::Version::parse` and copies the fields of the result; the
/// result is named (`version_parse_result`).
#[verifier::external_body]
pub(crate) fn version_parse_raw(s: &str) -> (r: Option<Version>)
    ensures
        r matches Some(v) ==> version_parse_result(s@) == Some(v@),
        r is None ==> version_parse_result(s@) is None,
{
    let v = semver::Version::parse(s).ok()?;
    Some(Version {
        major: v.major,
        minor: v.minor,
        patch: v.patch,
        pre: v.pre.as_str().to_string(),
        build: v.build.as_str().to_string(),
    })
}

/// The written form of a version: `major.minor.patch`, then `-pre` and
/// `+build` when they are not empty.
pub open spec fn version_text(v: VersionView) -> Seq<char> {
    dec(v.major as nat) + seq!['.'] + dec(v.minor as nat) + seq!['.'] + dec(v.patch as nat) + (if v.pre.len() > 0 {
        seq!['-'] + v.pre
    } else {
        Seq::empty()
    }) + (if v.build.len() > 0 {
        seq!['+'] + v.build
    } else {
        Seq::empty()
    })
}

impl Version {
    /// Parses a semantic version; `None` when `semver` rejects the text.
    pub fn parse(s: &str) -> (r: Option<Version>)
        ensures
            r matches Some(v) ==> version_parse_result(s@) == Some(v@),
            r is None ==> version_parse_result(s@) is None,
    {
        version_parse_raw(s)
    }

    /// A copy of this version.
    pub fn duplicate(&self) -> (r: Version)
        ensures
            r@ == self@,
    {
        Version {
            major: self.major,
            minor: self.minor,
            patch: self.patch,
            pre: self.pre.clone(),
            build: self.build.clone(),
        }
    }

    /// Whether two versions are equal in every part.
    pub fn same(&self, other: &Version) -> (r: bool)
        ensures
            r == (self@ == other@),
    {
        self.major == other.major && self.minor == other.minor && self.patch == other.patch
            && self.pre.eq(&other.pre) && self.build.eq(&other.build)
    }

    /// The written form of the version.
    pub fn text(&self) -> (r: Vec<char>)
        ensures
            r@ == version_text(self@),
    {
        let mut out = dec_chars(self.major);
        out.push('.');
        let d = dec_chars(self.minor);
        push_all(&mut out, &d);
        out.push('.');
        let d = dec_chars(self.patch);
        push_all(&mut out, &d);
        let ghost s1 = out@;
        let pre = chars_of(self.pre.as_str());
        if pre.len() > 0 {
            out.push('-');
            push_all(&mut out, &pre);
        }
        let ghost s2 = out@;
        let build = chars_of(self.build.as_str());
        if build.len() > 0 {
            out.push('+');
            push_all(&mut out, &build);
        }
        assert(out@ =~= version_text(self@));
        out
    }

    /// The written form of the version, as a `String`.
    pub fn to_string(&self) -> (r: String)
        ensures
            r@ == version_text(self@),
    {
        let t = self.text();
        string_of(&t)
    }
}

/// Identifier for a specific version of a package in a specific source.
#[derive(Debug)]
pub struct PackageId {
    pub name: String,
    pub version: Version,
    pub source_id: SourceId,
}

/// The mathematical value of a `PackageId`.
pub struct PackageIdView {
    pub name: Seq<char>,
    pub version: VersionView,
    pub source_id: SourceIdView,
}

impl View for PackageId {
    type V = PackageIdView;

    open spec fn view(&self) -> PackageIdView {
        PackageIdView { name: self.name@, version: self.version@, source_id: self.source_id@ }
    }
}

/// An error in reading a package id or a package id specification.
#[derive(Debug)]
pub enum SpecError {
    /// The text is not a semantic version.
    BadVersion(String),
    /// A pkgid URL with a query string.
    QueryString(String),
    /// A pkgid URL without path segments.
    NoPath(String),
    /// A pkgid URL with an empty list of path segments.
    NoPathComponent(String),
    /// A character that may not appear in a package name.
    InvalidCharacter(String, char),
}

/// The mathematical value of a `SpecError`.
pub enum SpecErrorView {
    BadVersion(Seq<char>),
    QueryString(Seq<char>),
    NoPath(Seq<char>),
    NoPathComponent(Seq<char>),
    InvalidCharacter(Seq<char>, char),
}

impl View for SpecError {
    type V = SpecErrorView;

    open spec fn view(&self) -> SpecErrorView {
        match self {
            SpecError::BadVersion(s) => SpecErrorView::BadVersion(s@),
            SpecError::QueryString(s) => SpecErrorView::QueryString(s@),
            SpecError::NoPath(s) => SpecErrorView::NoPath(s@),
            SpecError::NoPathComponent(s) => SpecErrorView::NoPathComponent(s@),
            SpecError::InvalidCharacter(s, c) => SpecErrorView::InvalidCharacter(s@, *c),
        }
    }
}

impl PackageId {
    /// A package id from a name, a version text and a source.
    pub fn new(name: &str, version: &str, sid: &SourceId) -> (r: Result<PackageId, SpecError>)
        ensures
            r is Ok <==> version_parse_result(version@) is Some,
            r matches Ok(id) ==> id@ == (PackageIdView {
                name: name@,
                version: version_parse_result(version@).unwrap(),
                source_id: sid@,
            }),
            r matches Err(e) ==> e@ == SpecErrorView::BadVersion(version@),
    {
        match Version::parse(version) {
            Some(v) => Ok(PackageId { name: string_from(name), version: v, source_id: sid.duplicate() }),
            None => Err(SpecError::BadVersion(string_from(version))),
        }
    }

    /// The name of the package.
    pub fn name(&self) -> (r: &str)
        ensures
            r@ == self@.name,
    {
        self.name.as_str()
    }

    /// The version of the package.
    pub fn version(&self) -> (r: &Version)
        ensures
            r@ == self@.version,
    {
        &self.version
    }

    /// The source of the package.
    pub fn source_id(&self) -> (r: &SourceId)
        ensures
            r@ == self@.source_id,
    {
        &self.source_id
    }

    /// A copy of the package id.
    pub fn duplicate(&self) -> (r: PackageId)
        ensures
            r@ == self@,
    {
        PackageId { name: self.name.clone(), version: self.version.duplicate(), source_id: self.source_id.duplicate() }
    }

    /// Whether two package ids name the same package: equal names and
    /// versions, and the same source.
    pub fn same(&self, other: &PackageId) -> (r: bool)
        ensures
            r == same_package(self@, other@),
    {
        self.name.eq(&other.name) && self.version.same(&other.version) && self.source_id.same_source(
            &other.source_id,
        )
    }
}

/// A specification selecting packages by name, and optionally version and
/// source URL.
#[derive(Debug)]
pub struct PackageIdSpec {
    name: String,
    version: Option<Version>,
    url: Option<Url>,
}

/// The mathematical value of a `PackageIdSpec`.
pub struct PackageIdSpecView {
    pub name: Seq<char>,
    pub version: Option<VersionView>,
    pub url: Option<UrlView>,
}

impl View for PackageIdSpec {
    type V = PackageIdSpecView;

    closed spec fn view(&self) -> PackageIdSpecView {
        PackageIdSpecView {
            name: self.name@,
            version: match self.version {
                Some(v) => Some(v@),
                None => None,
            },
            url: match self.url {
                Some(u) => Some(u@),
                None => None,
            },
        }
    }
}

/// What `char::is_alphanumeric` gives for a character.
pub uninterp spec fn alphanumeric(c: char) -> bool;

/// What `char::is_alphabetic` gives for a character.
pub uninterp spec fn alphabetic(c: char) -> bool;

/// Calls `char::is_alphanumeric`; the result is named (`alphanumeric`).
/// For ASCII the documentation gives letters and digits.
#[verifier::external_body]
pub(crate) fn is_alphanumeric(c: char) -> (r: bool)
    ensures
        r == alphanumeric(c),
        c <= '\u{7f}' ==> (r <==> (('a' <= c && c <= 'z') || ('A' <= c && c <= 'Z') || ('0' <= c && c <= '9'))),
{
    c.is_alphanumeric()
}

/// Calls `char::is_alphabetic`; the result is named (`alphabetic`). For
/// ASCII the documentation gives the letters.
#[verifier::external_body]
pub(crate) fn is_alphabetic(c: char) -> (r: bool)
    ensures
        r == alphabetic(c),
        c <= '\u{7f}' ==> (r <==> (('a' <= c && c <= 'z') || ('A' <= c && c <= 'Z'))),
{
    c.is_alphabetic()
}

/// Whether `c` may appear in a package name.
pub open spec fn name_char_ok(c: char) -> bool {
    alphanumeric(c) || c == '_' || c == '-'
}

/// The first character of `s` that may not appear in a package name.
pub open spec fn first_bad_char(s: Seq<char>) -> Option<int> {
    if exists|i: int| 0 <= i < s.len() && !name_char_ok(#[trigger] s[i]) {
        Some(choose|i: int| 0 <= i < s.len() && !name_char_ok(s[i]) && forall|j: int| 0 <= j < i ==> name_char_ok(#[trigger] s[j]))
    } else {
        None
    }
}

/// Whether reading a pkgid URL would stop on an empty fragment (the name or
/// version after `#` is read starting from its first character).
pub open spec fn from_url_panics(u: UrlView) -> bool {
    u.query is None && u.base && u.path.len() > 0 && u.fragment == Some(Seq::<char>::empty())
}

/// What `PackageIdSpec::from_url` gives for a URL.
pub open spec fn from_url_spec(u: UrlView) -> Result<PackageIdSpecView, SpecErrorView> {
    if u.query is Some {
        Err(SpecErrorView::QueryString(url_text(u)))
    } else {
        let url = UrlView { fragment: None, ..u };
        if !u.base {
            Err(SpecErrorView::NoPath(url_text(url)))
        } else if u.path.len() == 0 {
            Err(SpecErrorView::NoPathComponent(url_text(url)))
        } else {
            let path_name = u.path.last();
            match u.fragment {
                None => Ok(PackageIdSpecView { name: path_name, version: None, url: Some(url) }),
                Some(f) => {
                    let (nv, part) = split_once(f, ':');
                    match part {
                        Some(p) => match version_parse_result(p) {
                            Some(v) => Ok(PackageIdSpecView { name: nv, version: Some(v), url: Some(url) }),
                            None => Err(SpecErrorView::BadVersion(p)),
                        },
                        None => if nv.len() > 0 && alphabetic(nv[0]) {
                            Ok(PackageIdSpecView { name: nv, version: None, url: Some(url) })
                        } else {
                            match version_parse_result(nv) {
                                Some(v) => Ok(PackageIdSpecView { name: path_name, version: Some(v), url: Some(url) }),
                                None => Err(SpecErrorView::BadVersion(nv)),
                            }
                        },
                    }
                },
            }
        }
    }
}

/// The URL a spec text is read as, if any: the text itself when it is a URL,
/// otherwise `cargo://` and the text when the text has no `://`; only texts
/// with a `/` are read as URLs.
pub open spec fn spec_url(s: Seq<char>) -> Option<UrlView> {
    if !s.contains('/') {
        None
    } else if url_parse_result(s) is Some {
        Some(url_of_raw(url_parse_result(s).unwrap()))
    } else if !has_scheme_sep(s) && url_parse_result("cargo://"@ + s) is Some {
        Some(url_of_raw(url_parse_result("cargo://"@ + s).unwrap()))
    } else {
        None
    }
}

/// Whether `s` holds `://`.
pub open spec fn has_scheme_sep(s: Seq<char>) -> bool {
    exists|i: int| 0 <= i && i + 3 <= s.len() && #[trigger] s.subrange(i, i + 3) == "://"@
}

/// Whether parsing `s` completes without stopping on an empty fragment.
pub open spec fn parse_ok(s: Seq<char>) -> bool {
    match spec_url(s) {
        Some(u) => !from_url_panics(u),
        None => true,
    }
}

/// What `PackageIdSpec::parse` gives for a text.
pub open spec fn parse_spec(s: Seq<char>) -> Result<PackageIdSpecView, SpecErrorView> {
    match spec_url(s) {
        Some(u) => from_url_spec(u),
        None => {
            let (name, ver) = split_once(s, ':');
            let version = match ver {
                Some(v) => match version_parse_result(v) {
                    Some(p) => Ok(Some(p)),
                    None => Err(SpecErrorView::BadVersion(v)),
                },
                None => Ok(None),
            };
            match version {
                Err(e) => Err(e),
                Ok(version) => match first_bad_char(name) {
                    Some(i) => Err(SpecErrorView::InvalidCharacter(s, name[i])),
                    None => Ok(PackageIdSpecView { name, version, url: None }),
                },
            }
        },
    }
}

/// Whether `v` holds `://`.
fn has_scheme_sep_chars(v: &Vec<char>) -> (r: bool)
    ensures
        r == has_scheme_sep(v@),
{
    proof {
        reveal_strlit("://");
    }
    if v.len() < 3 {
        assert forall|j: int| 0 <= j && j + 3 <= v@.len() implies #[trigger] v@.subrange(j, j + 3) != "://"@ by {}
        return false;
    }
    let n = v.len() - 2;
    let mut i: usize = 0;
    while i < n
        invariant
            n == v.len() - 2,
            i <= n,
            v.len() >= 3,
            forall|j: int| 0 <= j < i ==> #[trigger] v@.subrange(j, j + 3) != "://"@,
        decreases n - i,
    {
        proof {
            reveal_strlit("://");
        }
        if v[i] == ':' && v[i + 1] == '/' && v[i + 2] == '/' {
            assert(v@.subrange(i as int, i + 3) =~= "://"@);
            return true;
        }
        assert(v@.subrange(i as int, i + 3)[0] == v@[i as int]);
        assert(v@.subrange(i as int, i + 3)[1] == v@[i + 1]);
        assert(v@.subrange(i as int, i + 3)[2] == v@[i + 2]);
        i = i + 1;
    }
    proof {
        assert forall|j: int| 0 <= j && j + 3 <= v@.len() implies #[trigger] v@.subrange(j, j + 3) != "://"@ by {
            assert(j < i);
        }
    }
    false
}

/// The first character of `v` that may not appear in a package name.
fn find_bad_char(v: &Vec<char>) -> (r: Option<usize>)
    ensures
        r matches Some(i) ==> i < v@.len() && first_bad_char(v@) == Some(i as int),
        r is None ==> first_bad_char(v@) is None,
{
    let mut i: usize = 0;
    while i < v.len()
        invariant
            i <= v.len(),
            forall|j: int| 0 <= j < i ==> name_char_ok(#[trigger] v@[j]),
        decreases v.len() - i,
    {
        let c = v[i];
        if !(is_alphanumeric(c) || c == '_' || c == '-') {
            assert(!name_char_ok(v@[i as int]));
            let ghost k = choose|k: int| 0 <= k < v@.len() && !name_char_ok(v@[k]) && forall|j: int| 0 <= j < k ==> name_char_ok(#[trigger] v@[j]);
            proof {
                assert(0 <= i < v@.len() && !name_char_ok(v@[i as int]) && forall|j: int| 0 <= j < i ==> name_char_ok(#[trigger] v@[j]));
                if k < i {
                    assert(name_char_ok(v@[k]));
                }
                if k > i {
                    assert(name_char_ok(v@[i as int]));
                }
                assert(k == i);
            }
            return Some(i);
        }
        i = i + 1;
    }
    None
}

impl PackageIdSpec {
    /// A spec from its parts.
    pub fn new(name: String, version: Option<Version>, url: Option<Url>) -> (r: PackageIdSpec)
        ensures
            r@ == (PackageIdSpecView {
                name: name@,
                version: match version {
                    Some(v) => Some(v@),
                    None => None,
                },
                url: match url {
                    Some(u) => Some(u@),
                    None => None,
                },
            }),
    {
        PackageIdSpec { name, version, url }
    }

    /// The spec read from a pkgid URL: the URL must have no query and a
    /// path; the fragment, if any, gives a name, a version, or
    /// `name:version`; otherwise the last path segment is the name.
    pub fn from_url(url: Url) -> (r: Result<PackageIdSpec, SpecError>)
        requires
            !from_url_panics(url@),
        ensures
            match from_url_spec(url@) {
                Ok(v) => r matches Ok(s) && s@ == v,
                Err(e) => r matches Err(x) && x@ == e,
            },
    {
        let mut url = url;
        if url.query.is_some() {
            return Err(SpecError::QueryString(url.as_string()));
        }
        let frag = url.fragment;
        url.fragment = None;
        if !url.base {
            return Err(SpecError::NoPath(url.as_string()));
        }
        let path_name = match url.last_segment() {
            Some(p) => p,
            None => return Err(SpecError::NoPathComponent(url.as_string())),
        };
        match frag {
            Some(fragment) => {
                let (nv, part) = split_once_chars(&fragment, ':');
                match part {
                    Some(p) => {
                        let ps = string_of(&p);
                        match Version::parse(ps.as_str()) {
                            Some(v) => Ok(PackageIdSpec { name: string_of(&nv), version: Some(v), url: Some(url) }),
                            None => Err(SpecError::BadVersion(ps)),
                        }
                    },
                    None => {
                        if nv.len() > 0 && is_alphabetic(nv[0]) {
                            Ok(PackageIdSpec { name: string_of(&nv), version: None, url: Some(url) })
                        } else {
                            let ns = string_of(&nv);
                            match Version::parse(ns.as_str()) {
                                Some(v) => Ok(PackageIdSpec { name: string_of(&path_name), version: Some(v), url: Some(url) }),
                                None => Err(SpecError::BadVersion(ns)),
                            }
                        }
                    },
                }
            },
            None => Ok(PackageIdSpec { name: string_of(&path_name), version: None, url: Some(url) }),
        }
    }

    /// Parses a package id specification: a URL (`http://crates.io/foo`),
    /// a URL without scheme (`crates.io/foo`), either followed by
    /// `#name`, `#version` or `#name:version`, or a bare `name` or
    /// `name:version`.
    pub fn parse(spec: &str) -> (r: Result<PackageIdSpec, SpecError>)
        requires
            parse_ok(spec@),
        ensures
            match parse_spec(spec@) {
                Ok(v) => r matches Ok(s) && s@ == v,
                Err(e) => r matches Err(x) && x@ == e,
            },
    {
        let sv = chars_of(spec);
        proof {
            reveal_strlit("cargo://");
        }
        if find_char_in(&sv, '/') {
            match Url::parse(spec) {
                Some(u) => return PackageIdSpec::from_url(u),
                None => {},
            }
            if !has_scheme_sep_chars(&sv) {
                let mut with_scheme: Vec<char> = Vec::new();
                push_str(&mut with_scheme, "cargo://");
                push_all(&mut with_scheme, &sv);
                assert(with_scheme@ =~= "cargo://"@ + spec@);
                let ws = string_of(&with_scheme);
                match Url::parse(ws.as_str()) {
                    Some(u) => return PackageIdSpec::from_url(u),
                    None => {},
                }
            }
        }
        assert(spec_url(spec@) is None);
        let (name, ver) = split_once_chars(&sv, ':');
        let version = match ver {
            Some(v) => {
                let vs = string_of(&v);
                match Version::parse(vs.as_str()) {
                    Some(p) => Some(p),
                    None => return Err(SpecError::BadVersion(vs)),
                }
            },
            None => None,
        };
        let ghost vv: Option<VersionView> = match &version {
            Some(v) => Some(v@),
            None => None,
        };
        assert(split_once(spec@, ':').0 == name@);
        match find_bad_char(&name) {
            Some(i) => {
                let e = SpecError::InvalidCharacter(string_from(spec), name[i]);
                assert(first_bad_char(name@) == Some(i as int));
                assert(e@ == SpecErrorView::InvalidCharacter(spec@, name@[i as int]));
                assert(parse_spec(spec@) == Err::<PackageIdSpecView, SpecErrorView>(e@));
                Err(e)
            },
            None => {
                let r = PackageIdSpec { name: string_of(&name), version, url: None };
                assert(r@ == PackageIdSpecView { name: name@, version: vv, url: None });
                assert(parse_spec(spec@) == Ok::<PackageIdSpecView, SpecErrorView>(r@));
                Ok(r)
            },
        }
    }

    /// Parses like `parse`, but gives `None` for a text whose URL has an
    /// empty fragment, where `parse` would stop.
    pub fn parse_checked(spec: &str) -> (r: Option<Result<PackageIdSpec, SpecError>>)
        ensures
            r is Some <==> parse_ok(spec@),
            r matches Some(res) ==> match parse_spec(spec@) {
                Ok(v) => res matches Ok(s) && s@ == v,
                Err(e) => res matches Err(x) && x@ == e,
            },
    {
        let sv = chars_of(spec);
        proof {
            reveal_strlit("cargo://");
        }
        if find_char_in(&sv, '/') {
            match Url::parse(spec) {
                Some(u) => {
                    if spec_url_panics_exec(&u) {
                        return None;
                    }
                    return Some(PackageIdSpec::from_url(u));
                },
                None => {},
            }
            if !has_scheme_sep_chars(&sv) {
                let mut with_scheme: Vec<char> = Vec::new();
                push_str(&mut with_scheme, "cargo://");
                push_all(&mut with_scheme, &sv);
                assert(with_scheme@ =~= "cargo://"@ + spec@);
                let ws = string_of(&with_scheme);
                match Url::parse(ws.as_str()) {
                    Some(u) => {
                        if spec_url_panics_exec(&u) {
                            return None;
                        }
                        return Some(PackageIdSpec::from_url(u));
                    },
                    None => {},
                }
            }
        }
        Some(PackageIdSpec::parse(spec))
    }

    /// The spec selecting exactly the given package id.
    pub fn from_package_id(package_id: &PackageId) -> (r: PackageIdSpec)
        ensures
            r@ == (PackageIdSpecView {
                name: package_id@.name,
                version: Some(package_id@.version),
                url: Some(package_id@.source_id.url),
            }),
    {
        PackageIdSpec {
            name: package_id.name.clone(),
            version: Some(package_id.version.duplicate()),
            url: Some(package_id.source_id.url().duplicate()),
        }
    }

    /// The package name of the spec.
    pub fn name(&self) -> (r: &str)
        ensures
            r@ == self@.name,
    {
        self.name.as_str()
    }

    /// The version of the spec, if any.
    pub fn version(&self) -> (r: Option<&Version>)
        ensures
            r is Some <==> self@.version is Some,
            r matches Some(v) ==> self@.version == Some(v@),
    {
        self.version.as_ref()
    }

    /// The URL of the spec, if any.
    pub fn url(&self) -> (r: Option<&Url>)
        ensures
            r is Some <==> self@.url is Some,
            r matches Some(u) ==> self@.url == Some(u@),
    {
        self.url.as_ref()
    }

    /// Whether the spec selects the package id: equal names, and equal
    /// versions and URLs where the spec has them.
    pub fn matches(&self, package_id: &PackageId) -> (r: bool)
        ensures
            r == spec_matches(self@, package_id@),
    {
        if !self.name.eq(&package_id.name) {
            return false;
        }
        match &self.version {
            Some(v) => if !v.same(&package_id.version) {
                return false;
            },
            None => {},
        }
        match &self.url {
            Some(u) => u.same(package_id.source_id.url()),
            None => true,
        }
    }

    /// Whether two specs are equal in every part.
    pub fn same(&self, other: &PackageIdSpec) -> (r: bool)
        ensures
            r == (self@ == other@),
    {
        let v = match (&self.version, &other.version) {
            (Some(a), Some(b)) => a.same(b),
            (None, None) => true,
            _ => false,
        };
        let u = match (&self.url, &other.url) {
            (Some(a), Some(b)) => a.same(b),
            (None, None) => true,
            _ => false,
        };
        self.name.eq(&other.name) && v && u
    }

    /// The index of the single package id the spec selects; an error when
    /// it selects none or more than one.
    pub fn query(&self, ids: &[PackageId]) -> (r: Result<usize, QueryError>)
        ensures
            match r {
                Ok(i) => i < ids@.len() && spec_matches(self@, ids@[i as int]@) && forall|j: int|
                    0 <= j < ids@.len() && j != i ==> !spec_matches(self@, #[trigger] ids@[j]@),
                Err(QueryError::NoMatch) => forall|j: int|
                    0 <= j < ids@.len() ==> !spec_matches(self@, #[trigger] ids@[j]@),
                Err(QueryError::Ambiguous(all)) => all@.len() >= 2 && (forall|k: int|
                    0 <= k < all@.len() ==> #[trigger] all@[k] < ids@.len() && spec_matches(self@, ids@[all@[k] as int]@))
                    && (forall|j: int| 0 <= j < ids@.len() && spec_matches(self@, #[trigger] ids@[j]@) ==> all@.contains(j as usize)),
            },
    {
        let mut found: Vec<usize> = Vec::new();
        let mut i: usize = 0;
        while i < ids.len()
            invariant
                i <= ids@.len(),
                forall|k: int| 0 <= k < found@.len() ==> #[trigger] found@[k] < i && spec_matches(self@, ids@[found@[k] as int]@),
                forall|j: int| 0 <= j < i && spec_matches(self@, #[trigger] ids@[j]@) ==> found@.contains(j as usize),
            decreases ids.len() - i,
        {
            if self.matches(&ids[i]) {
                let ghost f0 = found@;
                found.push(i);
                assert(found@ == f0.push(i));
                assert(found@[f0.len() as int] == i);
                assert forall|j: int| 0 <= j < i + 1 && spec_matches(self@, #[trigger] ids@[j]@) implies found@.contains(j as usize) by {
                    if j < i {
                        let k = choose|k: int| 0 <= k < f0.len() && f0[k] == j as usize;
                        assert(found@[k] == j as usize);
                    }
                }
            }
            i = i + 1;
        }
        if found.len() == 0 {
            assert forall|j: int| 0 <= j < ids@.len() implies !spec_matches(self@, #[trigger] ids@[j]@) by {
                if spec_matches(self@, ids@[j]@) {
                    assert(found@.contains(j as usize));
                }
            }
            Err(QueryError::NoMatch)
        } else if found.len() == 1 {
            let i = found[0];
            assert forall|j: int| 0 <= j < ids@.len() && j != i implies !spec_matches(self@, #[trigger] ids@[j]@) by {
                if spec_matches(self@, ids@[j]@) {
                    assert(found@.contains(j as usize));
                }
            }
            Ok(i)
        } else {
            Err(QueryError::Ambiguous(found))
        }
    }

    /// The written form of the spec: the URL (host and path for `cargo:`
    /// URLs), `#name` when the name is not the last path segment, and the
    /// version after `:` or `#`.
    pub fn to_string(&self) -> (r: String)
        requires
            self@.url matches Some(u) ==> u.base && u.path.len() > 0 && (u.scheme == "cargo"@ ==> u.host is Some),
        ensures
            r@ == spec_text(self@),
    {
        let mut out: Vec<char> = Vec::new();
        let mut printed_name = false;
        match &self.url {
            Some(u) => {
                if eq_str(&u.scheme, "cargo") {
                    match &u.host {
                        Some(h) => push_all(&mut out, h),
                        None => {},
                    }
                    out.push('/');
                    let j = join_plain_chars(&u.path);
                    push_all(&mut out, &j);
                } else {
                    let t = u.text();
                    push_all(&mut out, &t);
                }
                let last = u.last_segment();
                let nm = chars_of(self.name.as_str());
                match last {
                    Some(l) => {
                        if !eq_chars(&l, &nm) {
                            printed_name = true;
                            out.push('#');
                            push_all(&mut out, &nm);
                        }
                    },
                    None => {},
                }
            },
            None => {
                printed_name = true;
                push_str(&mut out, self.name.as_str());
            },
        }
        let ghost s1 = out@;
        match &self.version {
            Some(v) => {
                out.push(if printed_name { ':' } else { '#' });
                let t = v.text();
                push_all(&mut out, &t);
            },
            None => {},
        }
        assert(out@ =~= spec_text(self@));
        string_of(&out)
    }
}

impl PartialEq for PackageIdSpec {
    fn eq(&self, other: &PackageIdSpec) -> (r: bool) {
        self.same(other)
    }
}

impl vstd::std_specs::cmp::PartialEqSpecImpl for PackageIdSpec {
    open spec fn obeys_eq_spec() -> bool {
        true
    }

    open spec fn eq_spec(&self, other: &PackageIdSpec) -> bool {
        self@ == other@
    }
}

/// Why a query did not select exactly one package.
#[derive(Debug)]
pub enum QueryError {
    /// No package id matches the spec.
    NoMatch,
    /// Several package ids match; their indices, in order.
    Ambiguous(Vec<usize>),
}

/// Whether two package ids name the same package.
pub open spec fn same_package(a: PackageIdView, b: PackageIdView) -> bool {
    &&& a.name == b.name
    &&& a.version == b.version
    &&& same_source(a.source_id, b.source_id)
}

/// Whether the spec selects the package id.
pub open spec fn spec_matches(s: PackageIdSpecView, p: PackageIdView) -> bool {
    &&& s.name == p.name
    &&& (s.version matches Some(v) ==> v == p.version)
    &&& (s.url matches Some(u) ==> u == p.source_id.url)
}

/// The segments joined by `/`, with no leading `/`.
pub open spec fn join_plain(segs: Seq<Seq<char>>) -> Seq<char>
    decreases segs.len(),
{
    if segs.len() == 0 {
        Seq::empty()
    } else if segs.len() == 1 {
        segs[0]
    } else {
        join_plain(segs.drop_last()) + seq!['/'] + segs.last()
    }
}

/// The written form of a spec.
pub open spec fn spec_text(s: PackageIdSpecView) -> Seq<char> {
    let (head, printed_name) = match s.url {
        Some(u) => {
            let base = if u.scheme == "cargo"@ {
                u.host.unwrap() + seq!['/'] + join_plain(u.path)
            } else {
                url_text(u)
            };
            if u.path.last() != s.name {
                (base + seq!['#'] + s.name, true)
            } else {
                (base, false)
            }
        },
        None => (s.name, true),
    };
    head + match s.version {
        Some(v) => seq![if printed_name { ':' } else { '#' }] + version_text(v),
        None => Seq::empty(),
    }
}

/// The segments joined by `/`.
fn join_plain_chars(segs: &Vec<Vec<char>>) -> (r: Vec<char>)
    ensures
        r@ == join_plain(crate::url::seqs_view(segs@)),
{
    let mut out: Vec<char> = Vec::new();
    let mut i: usize = 0;
    while i < segs.len()
        invariant
            i <= segs.len(),
            out@ == join_plain(crate::url::seqs_view(segs@.subrange(0, i as int))),
        decreases segs.len() - i,
    {
        let ghost sv = crate::url::seqs_view(segs@.subrange(0, i + 1));
        assert(sv.drop_last() =~= crate::url::seqs_view(segs@.subrange(0, i as int)));
        if i > 0 {
            out.push('/');
        }
        push_all(&mut out, &segs[i]);
        i = i + 1;
        proof {
            if i == 1 {
                assert(out@ =~= sv[0]);
            }
        }
    }
    assert(segs@.subrange(0, segs@.len() as int) =~= segs@);
    out
}

/// Whether `v` holds `c`.
fn find_char_in(v: &Vec<char>, c: char) -> (r: bool)
    ensures
        r == v@.contains(c),
{
    let r = crate::text::find_char(v, c);
    proof {
        v@.index_of_first_ensures(c);
    }
    r.is_some()
}

/// Whether reading the URL as a pkgid would stop on an empty fragment.
fn spec_url_panics_exec(u: &Url) -> (r: bool)
    ensures
        r == from_url_panics(u@),
{
    proof {
        assert(u@.path.len() == u.path@.len());
    }
    u.query.is_none() && u.base && u.path.len() > 0 && match &u.fragment {
        Some(f) => {
            proof {
                if f@.len() == 0 {
                    assert(f@ =~= Seq::<char>::empty());
                }
            }
            f.len() == 0
        },
        None => false,
    }
}


/// What a spec selects: only package ids of its name; when it names a
/// version, only package ids of that version; when it names a source URL,
/// only package ids from that URL. A spec that gives only a name selects
/// every package id of that name, and one that gives all three selects the
/// package id they describe.
pub proof fn lemma_spec_selects(s: PackageIdSpecView, p: PackageIdView)
    ensures
        spec_matches(s, p) ==> s.name == p.name,
        (s.version matches Some(v) && v != p.version) ==> !spec_matches(s, p),
        (s.url matches Some(u) && u != p.source_id.url) ==> !spec_matches(s, p),
        (s.name == p.name && s.version is None && s.url is None) ==> spec_matches(s, p),
        (s.name == p.name && s.version == Some(p.version) && s.url == Some(p.source_id.url)) ==> spec_matches(s, p),
{
}

} // verus!
