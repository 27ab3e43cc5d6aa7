//! Identifiers of the places packages come from: git repositories, local
//! paths, remote and local registries, and directories.
use vstd::prelude::*;
use crate::git::{canonical, canonicalize_url};
use crate::text::{
    chars_of, copy, eq_chars, eq_str, push_all, push_str, split_once, split_once_chars, string_from,
    string_of,
};
use crate::url::{file_path_of, file_path_of_url, opt_view, query_pairs, query_pairs_of, url_of_raw,
    url_parse_result, url_from_path_result, url_text, Url, UrlView};

verus! {

/// The index URL of the default registry.
pub const CRATES_IO_INDEX: &'static str = "https://github.com/rust-lang/crates.io-index";

/// Information to find a specific commit in a git repository.
#[derive(Debug)]
pub enum GitReference {
    /// from a tag
    Tag(String),
    /// from the HEAD of a branch
    Branch(String),
    /// from a specific revision
    Rev(String),
}

/// The mathematical value of a `GitReference`.
pub enum GitRefView {
    Tag(Seq<char>),
    Branch(Seq<char>),
    Rev(Seq<char>),
}

impl View for GitReference {
    type V = GitRefView;

    open spec fn view(&self) -> GitRefView {
        match self {
            GitReference::Tag(s) => GitRefView::Tag(s@),
            GitReference::Branch(s) => GitRefView::Branch(s@),
            GitReference::Rev(s) => GitRefView::Rev(s@),
        }
    }
}

/// The possible kinds of code source.
#[derive(Debug)]
pub enum Kind {
    /// a git repository at the given reference
    Git(GitReference),
    /// a local path
    Path,
    /// a remote registry
    Registry,
    /// a local filesystem-based registry
    LocalRegistry,
    /// a directory-based registry
    Directory,
}

/// The mathematical value of a `Kind`.
pub enum KindView {
    Git(GitRefView),
    Path,
    Registry,
    LocalRegistry,
    Directory,
}

impl View for Kind {
    type V = KindView;

    open spec fn view(&self) -> KindView {
        match self {
            Kind::Git(r) => KindView::Git(r@),
            Kind::Path => KindView::Path,
            Kind::Registry => KindView::Registry,
            Kind::LocalRegistry => KindView::LocalRegistry,
            Kind::Directory => KindView::Directory,
        }
    }
}

impl GitReference {
    /// A copy of this reference.
    pub fn duplicate(&self) -> (r: GitReference)
        ensures
            r@ == self@,
    {
        match self {
            GitReference::Tag(s) => GitReference::Tag(s.clone()),
            GitReference::Branch(s) => GitReference::Branch(s.clone()),
            GitReference::Rev(s) => GitReference::Rev(s.clone()),
        }
    }

    /// Whether two references are the same.
    pub fn same(&self, other: &GitReference) -> (r: bool)
        ensures
            r == (self@ == other@),
    {
        match (self, other) {
            (GitReference::Tag(a), GitReference::Tag(b)) => a.eq(b),
            (GitReference::Branch(a), GitReference::Branch(b)) => a.eq(b),
            (GitReference::Rev(a), GitReference::Rev(b)) => a.eq(b),
            _ => false,
        }
    }

    /// A displayable view of this reference, or `None` for the head of the
    /// `master` branch.
    pub fn pretty_ref(&self) -> (r: Option<PrettyRef>)
        ensures
            r is Some <==> pretty_text(self@) is Some,
            r matches Some(p) ==> p.inner@ == self@,
    {
        match self {
            GitReference::Branch(s) => {
                let master = string_from("master");
                if *s == master {
                    None
                } else {
                    Some(PrettyRef { inner: self.duplicate() })
                }
            },
            _ => Some(PrettyRef { inner: self.duplicate() }),
        }
    }
}

/// The text of a git reference as it is shown, or `None` for the head of the
/// `master` branch.
pub open spec fn pretty_text(r: GitRefView) -> Option<Seq<char>> {
    match r {
        GitRefView::Branch(b) => if b == "master"@ {
            None
        } else {
            Some("branch="@ + b)
        },
        GitRefView::Tag(s) => Some("tag="@ + s),
        GitRefView::Rev(s) => Some("rev="@ + s),
    }
}

/// The text shown for a git reference: `branch=..`, `tag=..` or `rev=..`.
pub open spec fn ref_text(r: GitRefView) -> Seq<char> {
    match r {
        GitRefView::Branch(b) => "branch="@ + b,
        GitRefView::Tag(s) => "tag="@ + s,
        GitRefView::Rev(s) => "rev="@ + s,
    }
}

/// A git reference that can be written out.
pub struct PrettyRef {
    pub inner: GitReference,
}

impl PrettyRef {
    /// The written form: `branch=..`, `tag=..` or `rev=..`.
    pub fn to_string(&self) -> (r: String)
        ensures
            r@ == ref_text(self.inner@),
    {
        let mut out: Vec<char> = Vec::new();
        match &self.inner {
            GitReference::Branch(b) => {
                push_str(&mut out, "branch=");
                push_str(&mut out, b.as_str());
            },
            GitReference::Tag(s) => {
                push_str(&mut out, "tag=");
                push_str(&mut out, s.as_str());
            },
            GitReference::Rev(s) => {
                push_str(&mut out, "rev=");
                push_str(&mut out, s.as_str());
            },
        }
        string_of(&out)
    }
}

impl Kind {
    /// A copy of this kind.
    pub fn duplicate(&self) -> (r: Kind)
        ensures
            r@ == self@,
    {
        match self {
            Kind::Git(g) => Kind::Git(g.duplicate()),
            Kind::Path => Kind::Path,
            Kind::Registry => Kind::Registry,
            Kind::LocalRegistry => Kind::LocalRegistry,
            Kind::Directory => Kind::Directory,
        }
    }

    /// Whether two kinds are the same.
    pub fn same(&self, other: &Kind) -> (r: bool)
        ensures
            r == (self@ == other@),
    {
        match (self, other) {
            (Kind::Git(a), Kind::Git(b)) => a.same(b),
            (Kind::Path, Kind::Path) => true,
            (Kind::Registry, Kind::Registry) => true,
            (Kind::LocalRegistry, Kind::LocalRegistry) => true,
            (Kind::Directory, Kind::Directory) => true,
            _ => false,
        }
    }
}

/// Unique identifier for a source of packages.
#[derive(Debug)]
pub struct SourceId {
    /// The source URL
    url: Url,
    /// The canonical form of `url`
    canonical_url: Url,
    /// The source kind
    kind: Kind,
    /// e.g. the exact git revision of the specified branch for a Git Source
    precise: Option<String>,
    /// Name of the registry source for alternative registries
    name: Option<String>,
}

/// The mathematical value of a `SourceId`; its canonical URL is
/// `canonical(url)`.
pub struct SourceIdView {
    pub kind: KindView,
    pub url: UrlView,
    pub precise: Option<Seq<char>>,
    pub name: Option<Seq<char>>,
}

/// The view of an optional string.
pub open spec fn opt_str_view(o: Option<String>) -> Option<Seq<char>> {
    match o {
        Some(s) => Some(s@),
        None => None,
    }
}

impl View for SourceId {
    type V = SourceIdView;

    closed spec fn view(&self) -> SourceIdView {
        SourceIdView {
            kind: self.kind@,
            url: self.url@,
            precise: opt_str_view(self.precise),
            name: opt_str_view(self.name),
        }
    }
}

/// Two sources are equal when their kinds are equal and either their URLs
/// are equal, or they are git sources with equal canonical URLs.
pub open spec fn same_source(a: SourceIdView, b: SourceIdView) -> bool {
    &&& a.kind == b.kind
    &&& (a.url == b.url || (a.kind is Git && canonical(a.url) == canonical(b.url)))
}

/// An error in building a source id.
#[derive(Debug)]
pub enum SourceIdError {
    /// The text has no `+` between the kind and the URL.
    InvalidSource(String),
    /// The URL part is not a valid URL.
    InvalidUrl(String),
    /// The kind is not one of `git`, `registry` or `path`.
    UnsupportedProtocol(String),
    /// The path cannot be written as a `file:` URL.
    InvalidPathUrl(String),
}

/// The mathematical value of a `SourceIdError`.
pub enum SourceIdErrorView {
    InvalidSource(Seq<char>),
    InvalidUrl(Seq<char>),
    UnsupportedProtocol(Seq<char>),
    InvalidPathUrl(Seq<char>),
}

impl View for SourceIdError {
    type V = SourceIdErrorView;

    open spec fn view(&self) -> SourceIdErrorView {
        match self {
            SourceIdError::InvalidSource(s) => SourceIdErrorView::InvalidSource(s@),
            SourceIdError::InvalidUrl(s) => SourceIdErrorView::InvalidUrl(s@),
            SourceIdError::UnsupportedProtocol(s) => SourceIdErrorView::UnsupportedProtocol(s@),
            SourceIdError::InvalidPathUrl(s) => SourceIdErrorView::InvalidPathUrl(s@),
        }
    }
}

/// The git reference chosen by the query pairs of a `git+` URL: the last of
/// `branch`, `ref`, `rev` or `tag` wins; `master` when there is none.
pub open spec fn ref_from_pairs(p: Seq<(Seq<char>, Seq<char>)>) -> GitRefView
    decreases p.len(),
{
    if p.len() == 0 {
        GitRefView::Branch("master"@)
    } else {
        let k = p.last().0;
        let v = p.last().1;
        if k == "branch"@ || k == "ref"@ {
            GitRefView::Branch(v)
        } else if k == "rev"@ {
            GitRefView::Rev(v)
        } else if k == "tag"@ {
            GitRefView::Tag(v)
        } else {
            ref_from_pairs(p.drop_last())
        }
    }
}

/// The pairs of the query of `u`, none when it has no query.
pub open spec fn pairs_of(u: UrlView) -> Seq<(Seq<char>, Seq<char>)> {
    match u.query {
        Some(q) => query_pairs_of(q),
        None => Seq::empty(),
    }
}

/// The kind a source text starts with.
#[derive(Clone, Copy, Debug, PartialEq, Eq, Structural)]
pub enum Protocol {
    Git,
    Registry,
    Path,
}

/// The views of key/value pairs.
pub open spec fn pairs_view(v: Seq<(String, String)>) -> Seq<(Seq<char>, Seq<char>)> {
    v.map_values(|p: (String, String)| (p.0@, p.1@))
}

/// The source id of a source text with its URL parsed: for `git`, the
/// reference the query pairs choose, the URL without query and fragment,
/// and the fragment as the precise revision; for `registry`, the URL,
/// locked; for `path`, the URL.
pub open spec fn parsed_source_spec(p: Protocol, url: UrlView, pairs: Seq<(Seq<char>, Seq<char>)>) -> SourceIdView {
    match p {
        Protocol::Git => SourceIdView {
            kind: KindView::Git(ref_from_pairs(pairs)),
            url: UrlView { query: None, fragment: None, ..url },
            precise: url.fragment,
            name: None,
        },
        Protocol::Registry => SourceIdView { kind: KindView::Registry, url, precise: Some("locked"@), name: None },
        Protocol::Path => SourceIdView { kind: KindView::Path, url, precise: None, name: None },
    }
}

/// The source id that `SourceId::from_url` reads from a text, or the error.
pub open spec fn from_url_spec(s: Seq<char>) -> Result<SourceIdView, SourceIdErrorView> {
    let (kind, rest) = split_once(s, '+');
    match rest {
        None => Err(SourceIdErrorView::InvalidSource(s)),
        Some(u) => if kind == "git"@ || kind == "registry"@ || kind == "path"@ {
            match url_parse_result(u) {
                None => Err(SourceIdErrorView::InvalidUrl(u)),
                Some(raw) => {
                    let url = url_of_raw(raw);
                    if kind == "git"@ {
                        Ok(
                            SourceIdView {
                                kind: KindView::Git(ref_from_pairs(pairs_of(url))),
                                url: UrlView { query: None, fragment: None, ..url },
                                precise: url.fragment,
                                name: None,
                            },
                        )
                    } else if kind == "registry"@ {
                        Ok(
                            SourceIdView {
                                kind: KindView::Registry,
                                url,
                                precise: Some("locked"@),
                                name: None,
                            },
                        )
                    } else {
                        Ok(SourceIdView { kind: KindView::Path, url, precise: None, name: None })
                    }
                },
            }
        } else {
            Err(SourceIdErrorView::UnsupportedProtocol(kind))
        },
    }
}

/// The `url::Url` text form of `u`, or its filesystem path for a `file:` URL
/// whose path can be written out.
pub open spec fn url_display(u: UrlView) -> Seq<char> {
    if u.scheme == "file"@ && file_path_of_url(url_text(u)) is Some {
        file_path_of_url(url_text(u)).unwrap()
    } else {
        url_text(u)
    }
}

/// The text `SourceId::to_url` writes: the kind, `+`, and the URL, with the
/// reference and the precise revision for git.
pub open spec fn to_url_text(v: SourceIdView) -> Seq<char> {
    match v.kind {
        KindView::Path => "path+"@ + url_text(v.url),
        KindView::Git(r) => "git+"@ + url_text(v.url) + match pretty_text(r) {
            Some(p) => seq!['?'] + p,
            None => Seq::empty(),
        } + match v.precise {
            Some(p) => seq!['#'] + p,
            None => Seq::empty(),
        },
        KindView::Registry => "registry+"@ + url_text(v.url),
        KindView::LocalRegistry => "local-registry+"@ + url_text(v.url),
        KindView::Directory => "directory+"@ + url_text(v.url),
    }
}

/// The number of bytes UTF-8 uses for `c`.
pub open spec fn utf8_len(c: char) -> nat {
    if (c as u32) < 0x80 {
        1
    } else if (c as u32) < 0x800 {
        2
    } else if (c as u32) < 0x10000 {
        3
    } else {
        4
    }
}

/// The number of UTF-8 bytes of `s`.
pub open spec fn utf8_bytes(s: Seq<char>) -> nat
    decreases s.len(),
{
    if s.len() == 0 {
        0
    } else {
        utf8_bytes(s.drop_last()) + utf8_len(s.last())
    }
}

/// The longest prefix of `s` of at most `n` UTF-8 bytes, counted in chars.
pub open spec fn prefix_chars(s: Seq<char>, n: nat) -> nat
    decreases s.len(),
{
    if s.len() == 0 || utf8_len(s[0]) > n {
        0
    } else {
        1 + prefix_chars(s.drop_first(), (n - utf8_len(s[0])) as nat)
    }
}

/// The first eight bytes of a precise revision, as the display shows it.
pub open spec fn short_precise(p: Seq<char>) -> Seq<char> {
    p.subrange(0, prefix_chars(p, 8) as int)
}

/// Whether the first `min(len, 8)` bytes of `p` end on a character boundary,
/// as slicing them out requires.
pub open spec fn precise_cut_ok(p: Seq<char>) -> bool {
    utf8_bytes(short_precise(p)) == if utf8_bytes(p) < 8 { utf8_bytes(p) } else { 8 }
}

/// The text `SourceId`'s display writes.
pub open spec fn display_text(v: SourceIdView) -> Seq<char> {
    match v.kind {
        KindView::Path => url_display(v.url),
        KindView::Git(r) => url_text(v.url) + match pretty_text(r) {
            Some(p) => seq!['?'] + p,
            None => Seq::empty(),
        } + match v.precise {
            Some(p) => seq!['#'] + short_precise(p),
            None => Seq::empty(),
        },
        KindView::Registry => "registry `"@ + url_display(v.url) + "`"@,
        KindView::LocalRegistry => "registry `"@ + url_display(v.url) + "`"@,
        KindView::Directory => "dir "@ + url_display(v.url),
    }
}

/// Whether the source is the default registry at `CRATES_IO_INDEX`.
pub open spec fn is_default_registry_spec(v: SourceIdView) -> bool {
    v.kind is Registry && url_text(v.url) == CRATES_IO_INDEX@
}

/// Writes `url` as the display of a source shows it.
pub fn url_display_string(url: &Url) -> (r: Vec<char>)
    ensures
        r@ == url_display(url@),
{
    let text = url.text();
    if eq_str(&url.scheme, "file") {
        let s = string_of(&text);
        match file_path_of(s.as_str()) {
            Some(p) => return chars_of(p.as_str()),
            None => {},
        }
    }
    text
}

impl SourceId {
    /// The invariant: the canonical URL is the canonical form of the URL.
    #[verifier::type_invariant]
    spec fn inv(self) -> bool {
        self.canonical_url@ == canonical(self.url@)
    }

    /// Creates a source id from the kind and URL; the canonical URL is
    /// computed, the precise revision and registry name are empty.
    pub fn new(kind: Kind, url: Url) -> (r: SourceId)
        ensures
            r@ == (SourceIdView { kind: kind@, url: url@, precise: None, name: None }),
    {
        let canonical_url = canonicalize_url(&url);
        SourceId { url, canonical_url, kind, precise: None, name: None }
    }

    /// A copy of this source id.
    pub fn duplicate(&self) -> (r: SourceId)
        ensures
            r@ == self@,
    {
        proof {
            use_type_invariant(self);
        }
        SourceId {
            url: self.url.duplicate(),
            canonical_url: self.canonical_url.duplicate(),
            kind: self.kind.duplicate(),
            precise: self.precise.clone(),
            name: self.name.clone(),
        }
    }

    /// Parses a source text of the form `kind+url`, with kinds `git`,
    /// `registry` and `path`; a `git` URL takes its reference from the
    /// `branch`, `ref`, `rev` or `tag` query pairs and its precise revision
    /// from the fragment.
    pub fn from_url(string: &str) -> (r: Result<SourceId, SourceIdError>)
        ensures
            r matches Ok(id) ==> from_url_spec(string@) == Ok::<SourceIdView, SourceIdErrorView>(id@),
            r matches Err(e) ==> from_url_spec(string@) == Err::<SourceIdView, SourceIdErrorView>(e@),
    {
        let all = chars_of(string);
        let (kind, rest) = split_once_chars(&all, '+');
        let rest = match rest {
            Some(r) => r,
            None => return Err(SourceIdError::InvalidSource(string_from(string))),
        };
        let is_git = eq_str(&kind, "git");
        let is_registry = eq_str(&kind, "registry");
        let is_path = eq_str(&kind, "path");
        if !(is_git || is_registry || is_path) {
            return Err(SourceIdError::UnsupportedProtocol(string_of(&kind)));
        }
        let rest_s = string_of(&rest);
        let url = match Url::parse(rest_s.as_str()) {
            Some(u) => u,
            None => return Err(SourceIdError::InvalidUrl(rest_s)),
        };
        let protocol = if is_git {
            Protocol::Git
        } else if is_registry {
            Protocol::Registry
        } else {
            Protocol::Path
        };
        let pairs = if is_git {
            match &url.query {
                Some(q) => {
                    let qs = string_of(q);
                    query_pairs(qs.as_str())
                },
                None => Vec::new(),
            }
        } else {
            Vec::new()
        };
        proof {
            if is_git {
                assert(pairs_view(pairs@) =~= pairs_of(url@));
            }
        }
        Ok(SourceId::from_parsed_url(protocol, url, &pairs))
    }

    /// The source id for a source text once its URL is parsed: `protocol`
    /// is the kind the text starts with, and `pairs` the key/value pairs of
    /// the URL's query (read for `git` only; see `parsed_source_spec`).
    pub fn from_parsed_url(protocol: Protocol, url: Url, pairs: &Vec<(String, String)>) -> (r: SourceId)
        ensures
            r@ == parsed_source_spec(protocol, url@, pairs_view(pairs@)),
    {
        let mut url = url;
        match protocol {
            Protocol::Git => {
                let ghost ps = pairs_view(pairs@);
                let mut reference = GitReference::Branch(string_from("master"));
                let mut i: usize = 0;
                while i < pairs.len()
                    invariant
                        i <= pairs.len(),
                        ps == pairs_view(pairs@),
                        reference@ == ref_from_pairs(ps.subrange(0, i as int)),
                    decreases pairs.len() - i,
                {
                    let (k, v) = &pairs[i];
                    let kc = chars_of(k.as_str());
                    let ghost prefix = ps.subrange(0, i + 1);
                    assert(prefix.drop_last() =~= ps.subrange(0, i as int));
                    assert(prefix.last() == ps[i as int]);
                    assert(ps[i as int] == (k@, v@));
                    if eq_str(&kc, "branch") || eq_str(&kc, "ref") {
                        reference = GitReference::Branch(v.clone());
                    } else if eq_str(&kc, "rev") {
                        reference = GitReference::Rev(v.clone());
                    } else if eq_str(&kc, "tag") {
                        reference = GitReference::Tag(v.clone());
                    }
                    i = i + 1;
                }
                assert(ps.subrange(0, ps.len() as int) =~= ps);
                let precise = match &url.fragment {
                    Some(f) => Some(string_of(f)),
                    None => None,
                };
                url.fragment = None;
                url.query = None;
                let id = SourceId::for_git(&url, reference);
                id.with_precise(precise)
            },
            Protocol::Registry => {
                let id = SourceId::new(Kind::Registry, url);
                id.with_precise(Some(string_from("locked")))
            },
            Protocol::Path => SourceId::new(Kind::Path, url),
        }
    }

    /// The text of this source as a URL with its kind (`git+..`,
    /// `registry+..`, ...).
    pub fn to_url(&self) -> (r: SourceIdToUrl<'_>)
        ensures
            r.inner@ == self@,
    {
        SourceIdToUrl { inner: self }
    }

    /// The source id of a local path (an absolute filesystem path).
    pub fn for_path(path: &str) -> (r: Result<SourceId, SourceIdError>)
        ensures
            url_from_path_result(path@) is Some <==> r is Ok,
            r matches Ok(id) ==> id@ == (SourceIdView {
                kind: KindView::Path,
                url: url_of_raw(url_from_path_result(path@).unwrap()),
                precise: None,
                name: None,
            }),
            r matches Err(e) ==> e@ == SourceIdErrorView::InvalidPathUrl(path@),
    {
        match Url::from_file_path(path) {
            Some(u) => Ok(SourceId::new(Kind::Path, u)),
            None => Err(SourceIdError::InvalidPathUrl(string_from(path))),
        }
    }

    /// The source id of a git repository at a reference.
    pub fn for_git(url: &Url, reference: GitReference) -> (r: SourceId)
        ensures
            r@ == (SourceIdView { kind: KindView::Git(reference@), url: url@, precise: None, name: None }),
    {
        SourceId::new(Kind::Git(reference), url.duplicate())
    }

    /// The source id of a remote registry.
    pub fn for_registry(url: &Url) -> (r: SourceId)
        ensures
            r@ == (SourceIdView { kind: KindView::Registry, url: url@, precise: None, name: None }),
    {
        SourceId::new(Kind::Registry, url.duplicate())
    }

    /// The source id of a local registry at a filesystem path.
    pub fn for_local_registry(path: &str) -> (r: Result<SourceId, SourceIdError>)
        ensures
            url_from_path_result(path@) is Some <==> r is Ok,
            r matches Ok(id) ==> id@ == (SourceIdView {
                kind: KindView::LocalRegistry,
                url: url_of_raw(url_from_path_result(path@).unwrap()),
                precise: None,
                name: None,
            }),
            r matches Err(e) ==> e@ == SourceIdErrorView::InvalidPathUrl(path@),
    {
        match Url::from_file_path(path) {
            Some(u) => Ok(SourceId::new(Kind::LocalRegistry, u)),
            None => Err(SourceIdError::InvalidPathUrl(string_from(path))),
        }
    }

    /// The source id of a directory registry at a filesystem path.
    pub fn for_directory(path: &str) -> (r: Result<SourceId, SourceIdError>)
        ensures
            url_from_path_result(path@) is Some <==> r is Ok,
            r matches Ok(id) ==> id@ == (SourceIdView {
                kind: KindView::Directory,
                url: url_of_raw(url_from_path_result(path@).unwrap()),
                precise: None,
                name: None,
            }),
            r matches Err(e) ==> e@ == SourceIdErrorView::InvalidPathUrl(path@),
    {
        match Url::from_file_path(path) {
            Some(u) => Ok(SourceId::new(Kind::Directory, u)),
            None => Err(SourceIdError::InvalidPathUrl(string_from(path))),
        }
    }

    /// The source id of the main registry: the configured index URL when one
    /// is given, `CRATES_IO_INDEX` otherwise.
    pub fn crates_io(config_index: Option<&str>) -> (r: Result<SourceId, SourceIdError>)
        ensures
            ({
                let text = match config_index {
                    Some(i) => i@,
                    None => CRATES_IO_INDEX@,
                };
                &&& url_parse_result(text) is Some <==> r is Ok
                &&& r matches Ok(id) ==> id@ == (SourceIdView {
                    kind: KindView::Registry,
                    url: url_of_raw(url_parse_result(text).unwrap()),
                    precise: None,
                    name: None,
                })
                &&& r matches Err(e) ==> e@ == SourceIdErrorView::InvalidUrl(text)
            }),
    {
        let text = match config_index {
            Some(i) => i,
            None => CRATES_IO_INDEX,
        };
        match Url::parse(text) {
            Some(u) => Ok(SourceId::for_registry(&u)),
            None => Err(SourceIdError::InvalidUrl(string_from(text))),
        }
    }

    /// The source id of an alternative registry with the given index URL and
    /// registry name.
    pub fn alt_registry(url: Url, key: &str) -> (r: SourceId)
        ensures
            r@ == (SourceIdView { kind: KindView::Registry, url: url@, precise: None, name: Some(key@) }),
    {
        let canonical_url = canonicalize_url(&url);
        SourceId {
            url,
            canonical_url,
            kind: Kind::Registry,
            precise: None,
            name: Some(string_from(key)),
        }
    }

    /// The URL of this source.
    pub fn url(&self) -> (r: &Url)
        ensures
            r@ == self@.url,
    {
        &self.url
    }

    /// The kind of this source.
    pub fn kind(&self) -> (r: &Kind)
        ensures
            r@ == self@.kind,
    {
        &self.kind
    }

    /// The canonical URL of this source.
    pub fn canonical_url(&self) -> (r: &Url)
        ensures
            r@ == canonical(self@.url),
    {
        proof {
            use_type_invariant(self);
        }
        &self.canonical_url
    }

    /// The name of the registry, `crates.io index` for the default one and
    /// `` `url` index`` otherwise.
    pub fn display_registry(&self) -> (r: String)
        ensures
            r@ == if is_default_registry_spec(self@) {
                "crates.io index"@
            } else {
                "`"@ + url_display(self@.url) + "` index"@
            },
    {
        if self.is_default_registry() {
            string_from("crates.io index")
        } else {
            let mut out: Vec<char> = Vec::new();
            push_str(&mut out, "`");
            let d = url_display_string(&self.url);
            push_all(&mut out, &d);
            push_str(&mut out, "` index");
            string_of(&out)
        }
    }

    /// Whether this source is a filesystem path.
    pub fn is_path(&self) -> (r: bool)
        ensures
            r == self@.kind is Path,
    {
        matches!(self.kind, Kind::Path)
    }

    /// Whether this source is a registry (either local or not).
    pub fn is_registry(&self) -> (r: bool)
        ensures
            r == (self@.kind is Registry || self@.kind is LocalRegistry),
    {
        match self.kind {
            Kind::Registry | Kind::LocalRegistry => true,
            _ => false,
        }
    }

    /// Whether this source is an alternative (named) registry.
    pub fn is_alt_registry(&self) -> (r: bool)
        ensures
            r == ((self@.kind is Registry || self@.kind is LocalRegistry) && self@.name is Some),
    {
        self.is_registry() && self.name.is_some()
    }

    /// Whether this source is a git repository.
    pub fn is_git(&self) -> (r: bool)
        ensures
            r == self@.kind is Git,
    {
        matches!(self.kind, Kind::Git(_))
    }

    /// The precise revision, if any.
    pub fn precise(&self) -> (r: Option<&str>)
        ensures
            r is Some <==> self@.precise is Some,
            r matches Some(p) ==> p@ == self@.precise.unwrap(),
    {
        match &self.precise {
            Some(p) => Some(p.as_str()),
            None => None,
        }
    }

    /// The git reference of a git source, otherwise `None`.
    pub fn git_reference(&self) -> (r: Option<&GitReference>)
        ensures
            r is Some <==> self@.kind is Git,
            r matches Some(g) ==> self@.kind == KindView::Git(g@),
    {
        match &self.kind {
            Kind::Git(g) => Some(g),
            _ => None,
        }
    }

    /// This source with the given precise revision.
    pub fn with_precise(&self, v: Option<String>) -> (r: SourceId)
        ensures
            r@ == (SourceIdView { precise: opt_str_view(v), ..self@ }),
    {
        proof {
            use_type_invariant(self);
        }
        SourceId {
            url: self.url.duplicate(),
            canonical_url: self.canonical_url.duplicate(),
            kind: self.kind.duplicate(),
            precise: v,
            name: self.name.clone(),
        }
    }

    /// Whether this is the remote registry at `CRATES_IO_INDEX`.
    pub fn is_default_registry(&self) -> (r: bool)
        ensures
            r == is_default_registry_spec(self@),
    {
        match self.kind {
            Kind::Registry => {},
            _ => return false,
        }
        let t = self.url.text();
        eq_str(&t, CRATES_IO_INDEX)
    }

    /// Whether two ids are the same in every field, the precise revision and
    /// the registry name included.
    pub fn full_eq(&self, other: &SourceId) -> (r: bool)
        ensures
            r == (self@ == other@),
    {
        let p = match (&self.precise, &other.precise) {
            (Some(a), Some(b)) => a.eq(b),
            (None, None) => true,
            _ => false,
        };
        let n = match (&self.name, &other.name) {
            (Some(a), Some(b)) => a.eq(b),
            (None, None) => true,
            _ => false,
        };
        self.kind.same(&other.kind) && self.url.same(&other.url) && p && n
    }

    /// Source equality: equal kinds, and equal URLs or (for git) equal
    /// canonical URLs.
    pub fn same_source(&self, other: &SourceId) -> (r: bool)
        ensures
            r == same_source(self@, other@),
    {
        proof {
            use_type_invariant(self);
            use_type_invariant(other);
        }
        if !self.kind.same(&other.kind) {
            return false;
        }
        if self.url.same(&other.url) {
            return true;
        }
        match (&self.kind, &other.kind) {
            (Kind::Git(_), Kind::Git(_)) => self.canonical_url.same(&other.canonical_url),
            _ => false,
        }
    }

    /// The written form of this source, as its display shows it.
    pub fn to_string(&self) -> (r: String)
        requires
            self@.precise matches Some(p) ==> precise_cut_ok(p),
        ensures
            r@ == display_text(self@),
    {
        let mut out: Vec<char> = Vec::new();
        match &self.kind {
            Kind::Path => {
                out = url_display_string(&self.url);
            },
            Kind::Git(reference) => {
                out = self.url.text();
                let ghost s1 = out@;
                match reference.pretty_ref() {
                    Some(p) => {
                        out.push('?');
                        let ps = p.to_string();
                        push_str(&mut out, ps.as_str());
                        assert(ps@ == pretty_text(reference@).unwrap());
                    },
                    None => {},
                }
                let ghost s2 = out@;
                match &self.precise {
                    Some(p) => {
                        out.push('#');
                        let pc = chars_of(p.as_str());
                        let short = short_prefix(&pc);
                        push_all(&mut out, &short);
                    },
                    None => {},
                }
                assert(out@ =~= display_text(self@));
            },
            Kind::Registry | Kind::LocalRegistry => {
                push_str(&mut out, "registry `");
                let d = url_display_string(&self.url);
                push_all(&mut out, &d);
                push_str(&mut out, "`");
            },
            Kind::Directory => {
                push_str(&mut out, "dir ");
                let d = url_display_string(&self.url);
                push_all(&mut out, &d);
            },
        }
        string_of(&out)
    }
}

fn char_utf8_len(c: char) -> (n: u64)
    ensures
        n == utf8_len(c),
{
    let v = c as u32;
    if v < 0x80 {
        1
    } else if v < 0x800 {
        2
    } else if v < 0x10000 {
        3
    } else {
        4
    }
}

proof fn lemma_prefix_chars_bound(s: Seq<char>, n: nat)
    ensures
        prefix_chars(s, n) <= s.len(),
    decreases s.len(),
{
    if s.len() == 0 || utf8_len(s[0]) > n {
    } else {
        lemma_prefix_chars_bound(s.drop_first(), (n - utf8_len(s[0])) as nat);
    }
}

/// The first eight bytes' worth of characters of a precise revision.
fn short_prefix(p: &Vec<char>) -> (r: Vec<char>)
    ensures
        r@ == short_precise(p@),
{
    let mut i: usize = 0;
    let mut budget: u64 = 8;
    proof {
        lemma_prefix_chars_bound(p@, 8);
        assert(p@.subrange(0, p@.len() as int) =~= p@);
    }
    while i < p.len() && char_utf8_len(p[i]) <= budget
        invariant
            i <= p.len(),
            budget <= 8,
            prefix_chars(p@, 8) == i + prefix_chars(p@.subrange(i as int, p@.len() as int), budget as nat),
        decreases p.len() - i,
    {
        let ghost rest = p@.subrange(i as int, p@.len() as int);
        assert(rest.drop_first() =~= p@.subrange(i + 1, p@.len() as int));
        budget = budget - char_utf8_len(p[i]);
        i = i + 1;
    }
    crate::text::slice(p, 0, i)
}

/// A source id written as a URL with its kind.
pub struct SourceIdToUrl<'a> {
    pub inner: &'a SourceId,
}

impl<'a> SourceIdToUrl<'a> {
    /// The written form: `path+url`, `git+url[?ref][#precise]`,
    /// `registry+url`, `local-registry+url` or `directory+url`.
    pub fn to_string(&self) -> (r: String)
        ensures
            r@ == to_url_text(self.inner@),
    {
        let id = self.inner;
        let mut out: Vec<char> = Vec::new();
        let t = id.url.text();
        match &id.kind {
            Kind::Path => {
                push_str(&mut out, "path+");
                push_all(&mut out, &t);
            },
            Kind::Git(reference) => {
                push_str(&mut out, "git+");
                push_all(&mut out, &t);
                let ghost s1 = out@;
                match reference.pretty_ref() {
                    Some(p) => {
                        out.push('?');
                        let ps = p.to_string();
                        push_str(&mut out, ps.as_str());
                    },
                    None => {},
                }
                let ghost s2 = out@;
                match &id.precise {
                    Some(p) => {
                        out.push('#');
                        push_str(&mut out, p.as_str());
                    },
                    None => {},
                }
                assert(out@ =~= to_url_text(id@));
            },
            Kind::Registry => {
                push_str(&mut out, "registry+");
                push_all(&mut out, &t);
            },
            Kind::LocalRegistry => {
                push_str(&mut out, "local-registry+");
                push_all(&mut out, &t);
            },
            Kind::Directory => {
                push_str(&mut out, "directory+");
                push_all(&mut out, &t);
            },
        }
        string_of(&out)
    }
}

/// What the hash of a source is computed from: its kind, and the written
/// form of its canonical URL for git sources or of its URL otherwise.
pub open spec fn hash_input(v: SourceIdView) -> (KindView, Seq<char>) {
    if v.kind is Git {
        (v.kind, url_text(canonical(v.url)))
    } else {
        (v.kind, url_text(v.url))
    }
}

/// Source equality is reflexive.
pub proof fn lemma_same_source_reflexive(a: SourceIdView)
    ensures
        same_source(a, a),
{
}

/// Source equality is symmetric.
pub proof fn lemma_same_source_symmetric(a: SourceIdView, b: SourceIdView)
    ensures
        same_source(a, b) == same_source(b, a),
{
}

/// Source equality is transitive.
pub proof fn lemma_same_source_transitive(a: SourceIdView, b: SourceIdView, c: SourceIdView)
    requires
        same_source(a, b),
        same_source(b, c),
    ensures
        same_source(a, c),
{
}

/// Equal sources hash from the same input, so the hash agrees with the
/// equality.
pub proof fn lemma_equal_sources_hash_alike(a: SourceIdView, b: SourceIdView)
    requires
        same_source(a, b),
    ensures
        hash_input(a) == hash_input(b),
{
}

/// Two sources that differ only in the precise revision or the registry
/// name are equal.
pub proof fn lemma_precise_and_name_ignored(a: SourceIdView, p: Option<Seq<char>>, n: Option<Seq<char>>)
    ensures
        same_source(a, SourceIdView { precise: p, name: n, ..a }),
{
}

impl SourceId {
    /// The kind and the text a hash of this source is computed from: the
    /// canonical URL for git sources, the URL otherwise.
    pub fn hash_parts(&self) -> (r: (Kind, String))
        ensures
            (r.0@, r.1@) == hash_input(self@),
    {
        proof {
            use_type_invariant(self);
        }
        let t = if self.is_git() {
            self.canonical_url.text()
        } else {
            self.url.text()
        };
        (self.kind.duplicate(), string_of(&t))
    }
}

impl PartialEq for SourceId {
    fn eq(&self, other: &SourceId) -> (r: bool) {
        self.same_source(other)
    }
}

impl Eq for SourceId {
}

impl vstd::std_specs::cmp::PartialEqSpecImpl for SourceId {
    open spec fn obeys_eq_spec() -> bool {
        true
    }

    open spec fn eq_spec(&self, other: &SourceId) -> bool {
        same_source(self@, other@)
    }
}


/// How the query of a git source text chooses its reference: with no
/// reference in the query it is the branch `master`; a pair `rev=R` as the
/// last reference pair pins the revision `R`, `tag=T` the tag `T`, and
/// `branch=B` or `ref=B` the branch `B`; a pair of any other key leaves
/// the choice as it was.
pub proof fn lemma_git_reference_from_query(p: Seq<(Seq<char>, Seq<char>)>, k: Seq<char>, v: Seq<char>)
    ensures
        ref_from_pairs(Seq::empty()) == GitRefView::Branch("master"@),
        ref_from_pairs(p.push(("rev"@, v))) == GitRefView::Rev(v),
        ref_from_pairs(p.push(("tag"@, v))) == GitRefView::Tag(v),
        ref_from_pairs(p.push(("branch"@, v))) == GitRefView::Branch(v),
        ref_from_pairs(p.push(("ref"@, v))) == GitRefView::Branch(v),
        (k != "rev"@ && k != "tag"@ && k != "branch"@ && k != "ref"@) ==> ref_from_pairs(p.push((k, v)))
            == ref_from_pairs(p),
{
    reveal_strlit("rev");
    reveal_strlit("tag");
    reveal_strlit("branch");
    reveal_strlit("ref");
    assert("rev"@[2] != "ref"@[2]);
    assert("tag"@[0] != "ref"@[0]);
    assert("tag"@[0] != "rev"@[0]);
    assert("rev"@ != "ref"@ && "tag"@ != "ref"@ && "tag"@ != "rev"@);
    assert("rev"@.len() != "branch"@.len() && "tag"@.len() != "branch"@.len());
    assert(p.push(("rev"@, v)).drop_last() =~= p);
    assert(p.push(("tag"@, v)).drop_last() =~= p);
    assert(p.push(("branch"@, v)).drop_last() =~= p);
    assert(p.push(("ref"@, v)).drop_last() =~= p);
    assert(p.push((k, v)).drop_last() =~= p);
}

/// A git source whose query ends with the pair `rev=R` is pinned to the
/// revision `R`, with the query and fragment taken off its URL and the
/// fragment kept as the precise revision; a registry source is locked; a
/// path source keeps its URL.
pub proof fn lemma_parsed_source_kinds(url: UrlView, p: Seq<(Seq<char>, Seq<char>)>, r: Seq<char>)
    ensures
        parsed_source_spec(Protocol::Git, url, p.push(("rev"@, r))).kind == KindView::Git(GitRefView::Rev(r)),
        parsed_source_spec(Protocol::Git, url, p).url.query is None,
        parsed_source_spec(Protocol::Git, url, p).url.fragment is None,
        parsed_source_spec(Protocol::Git, url, p).precise == url.fragment,
        parsed_source_spec(Protocol::Registry, url, p).kind == KindView::Registry,
        parsed_source_spec(Protocol::Registry, url, p).url == url,
        parsed_source_spec(Protocol::Registry, url, p).precise == Some("locked"@),
        parsed_source_spec(Protocol::Path, url, p).kind == KindView::Path,
        parsed_source_spec(Protocol::Path, url, p).url == url,
{
    lemma_git_reference_from_query(p, "rev"@, r);
}

} // verus!
