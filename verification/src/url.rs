//! A URL held as plain components.
//!
//! Parsing is done by the `url` crate; the library keeps the components it
//! reads (scheme, authority, path segments, query, fragment) and works on
//! them, and writes a URL back out by concatenating its components.
use vstd::prelude::*;
use crate::text::{
    copy, dec, dec_chars, eq_chars, eq_opt_chars, find, push_all, slice, split_once_chars, string_of,
};

verus! {

/// The components of a URL as the `url` crate reports them after parsing.
pub struct RawUrl {
    pub scheme: Vec<char>,
    pub username: Vec<char>,
    pub password: Option<Vec<char>>,
    pub host: Option<Vec<char>>,
    pub port: Option<u16>,
    pub has_authority: bool,
    pub path: Vec<char>,
    pub query: Option<Vec<char>>,
    pub fragment: Option<Vec<char>>,
}

/// The mathematical value of a `RawUrl`.
pub struct RawUrlView {
    pub scheme: Seq<char>,
    pub username: Seq<char>,
    pub password: Option<Seq<char>>,
    pub host: Option<Seq<char>>,
    pub port: Option<u16>,
    pub has_authority: bool,
    pub path: Seq<char>,
    pub query: Option<Seq<char>>,
    pub fragment: Option<Seq<char>>,
}

/// The view of an optional character vector.
pub open spec fn opt_view(o: Option<Vec<char>>) -> Option<Seq<char>> {
    match o {
        Some(v) => Some(v@),
        None => None,
    }
}

impl View for RawUrl {
    type V = RawUrlView;

    open spec fn view(&self) -> RawUrlView {
        RawUrlView {
            scheme: self.scheme@,
            username: self.username@,
            password: opt_view(self.password),
            host: opt_view(self.host),
            port: self.port,
            has_authority: self.has_authority,
            path: self.path@,
            query: opt_view(self.query),
            fragment: opt_view(self.fragment),
        }
    }
}

/// What `url::Url::parse` gives for a string: the components of the parsed
/// URL, or nothing when the string is not a valid absolute URL.
pub uninterp spec fn url_parse_result(s: Seq<char>) -> Option<RawUrlView>;

/// What `url::Url::from_file_path` gives for a filesystem path.
pub uninterp spec fn url_from_path_result(p: Seq<char>) -> Option<RawUrlView>;

/// What `url::Url::to_file_path` gives, as a UTF-8 string, for the URL that
/// `url::Url::parse` reads from the given serialization.
pub uninterp spec fn file_path_of_url(s: Seq<char>) -> Option<Seq<char>>;

/// The key/value pairs that `form_urlencoded::parse` decodes from a query.
pub uninterp spec fn query_pairs_of(q: Seq<char>) -> Seq<(Seq<char>, Seq<char>)>;

/// The characters that `char::to_lowercase` yields for `c`.
pub uninterp spec fn lowercase_of(c: char) -> Seq<char>;

/// Calls `url::Url::parse` on `s` and reports the components of the result.
/// The contract names the result (`url_parse_result`); nothing more about
/// URL parsing is stated.
#[verifier::external_body]
pub(crate) fn parse_raw(s: &str) -> (r: Option<RawUrl>)
    ensures
        r matches Some(u) ==> url_parse_result(s@) == Some(u@),
        r is None ==> url_parse_result(s@) is None,
{
    let own = |x: Option<&str>| x.map(|t| t.chars().collect::<Vec<char>>());
    let u = ::url::Url::parse(s).ok()?;
    Some(RawUrl {
        scheme: u.scheme().chars().collect(),
        username: u.username().chars().collect(),
        password: own(u.password()),
        host: own(u.host_str()),
        port: u.port(),
        has_authority: u.has_authority(),
        path: u.path().chars().collect(),
        query: own(u.query()),
        fragment: own(u.fragment()),
    })
}

/// Calls `url::Url::from_file_path` on `p` and reports the components of the
/// result; the contract names the result (`url_from_path_result`).
#[verifier::external_body]
pub(crate) fn from_path_raw(p: &str) -> (r: Option<RawUrl>)
    ensures
        r matches Some(u) ==> url_from_path_result(p@) == Some(u@),
        r is None ==> url_from_path_result(p@) is None,
{
    let own = |x: Option<&str>| x.map(|t| t.chars().collect::<Vec<char>>());
    let u = ::url::Url::from_file_path(p).ok()?;
    Some(RawUrl {
        scheme: u.scheme().chars().collect(),
        username: u.username().chars().collect(),
        password: own(u.password()),
        host: own(u.host_str()),
        port: u.port(),
        has_authority: u.has_authority(),
        path: u.path().chars().collect(),
        query: own(u.query()),
        fragment: own(u.fragment()),
    })
}

/// Calls `url::Url::to_file_path` on the URL parsed from `s`, and gives the
/// path as a string when it is valid UTF-8; the result is named
/// (`file_path_of_url`).
#[verifier::external_body]
pub(crate) fn file_path_of(s: &str) -> (r: Option<String>)
    ensures
        r matches Some(p) ==> file_path_of_url(s@) == Some(p@),
        r is None ==> file_path_of_url(s@) is None,
{
    let path = ::url::Url::parse(s).ok()?.to_file_path().ok()?;
    path.to_str().map(|p| p.to_string())
}

/// Calls `form_urlencoded::parse` on a query string and collects the decoded
/// pairs; the result is named (`query_pairs_of`).
#[verifier::external_body]
pub(crate) fn query_pairs(q: &str) -> (r: Vec<(String, String)>)
    ensures
        r@.len() == query_pairs_of(q@).len(),
        forall|i: int|
            0 <= i < r@.len() ==> #[trigger] query_pairs_of(q@)[i] == (r@[i].0@, r@[i].1@),
{
    ::url::form_urlencoded::parse(q.as_bytes()).map(|(k, v)| (k.into_owned(), v.into_owned())).collect()
}

/// Calls `char::to_lowercase` and collects the characters it yields. Beyond
/// the name, the contract states what the documentation gives for ASCII:
/// upper-case ASCII letters map to their lower-case letter, every other
/// ASCII character to itself.
#[verifier::external_body]
pub(crate) fn lowercase_char(c: char) -> (r: Vec<char>)
    ensures
        r@ == lowercase_of(c),
        ('A' <= c && c <= 'Z') ==> r@ == seq![((c as u32) + 32) as char],
        (c <= '\u{7f}' && !('A' <= c && c <= 'Z')) ==> r@ == seq![c],
{
    c.to_lowercase().collect()
}

/// A URL: the scheme, the authority, the path as segments (or as one opaque
/// segment when the URL cannot be a base), the query and the fragment.
#[derive(Debug)]
pub struct Url {
    pub scheme: Vec<char>,
    pub username: Vec<char>,
    pub password: Option<Vec<char>>,
    pub host: Option<Vec<char>>,
    pub port: Option<u16>,
    pub has_authority: bool,
    /// Whether the path is a list of `/`-separated segments.
    pub base: bool,
    pub path: Vec<Vec<char>>,
    pub query: Option<Vec<char>>,
    pub fragment: Option<Vec<char>>,
}

/// The mathematical value of a `Url`.
pub struct UrlView {
    pub scheme: Seq<char>,
    pub username: Seq<char>,
    pub password: Option<Seq<char>>,
    pub host: Option<Seq<char>>,
    pub port: Option<u16>,
    pub has_authority: bool,
    pub base: bool,
    pub path: Seq<Seq<char>>,
    pub query: Option<Seq<char>>,
    pub fragment: Option<Seq<char>>,
}

/// The views of a vector of character vectors.
pub open spec fn seqs_view(v: Seq<Vec<char>>) -> Seq<Seq<char>> {
    v.map_values(|x: Vec<char>| x@)
}

impl View for Url {
    type V = UrlView;

    open spec fn view(&self) -> UrlView {
        UrlView {
            scheme: self.scheme@,
            username: self.username@,
            password: opt_view(self.password),
            host: opt_view(self.host),
            port: self.port,
            has_authority: self.has_authority,
            base: self.base,
            path: seqs_view(self.path@),
            query: opt_view(self.query),
            fragment: opt_view(self.fragment),
        }
    }
}

/// The pieces of `s` between the occurrences of `c`, as `str::split(c)`
/// yields them.
pub open spec fn split_all(s: Seq<char>, c: char) -> Seq<Seq<char>>
    decreases s.len(),
{
    match find(s, c) {
        Some(i) => {
            proof {
                s.index_of_first_ensures(c);
            }
            seq![s.subrange(0, i)] + split_all(s.subrange(i + 1, s.len() as int), c)
        },
        None => seq![s],
    }
}

/// The segments of a raw path: the pieces after the leading `/`, or the
/// whole path as one opaque segment when it does not start with `/`.
pub open spec fn path_segments(path: Seq<char>) -> Seq<Seq<char>> {
    if path.len() > 0 && path[0] == '/' {
        split_all(path.drop_first(), '/')
    } else {
        seq![path]
    }
}

/// The URL made of the components of a parsed URL.
pub open spec fn url_of_raw(r: RawUrlView) -> UrlView {
    UrlView {
        scheme: r.scheme,
        username: r.username,
        password: r.password,
        host: r.host,
        port: r.port,
        has_authority: r.has_authority,
        base: r.path.len() > 0 && r.path[0] == '/',
        path: path_segments(r.path),
        query: r.query,
        fragment: r.fragment,
    }
}

/// The concatenation of `"/" + segment` over the segments.
pub open spec fn join_segments(segs: Seq<Seq<char>>) -> Seq<char>
    decreases segs.len(),
{
    if segs.len() == 0 {
        Seq::empty()
    } else {
        join_segments(segs.drop_last()) + seq!['/'] + segs.last()
    }
}

/// The written form of the path of `u`.
pub open spec fn path_text(u: UrlView) -> Seq<char> {
    if u.base {
        join_segments(u.path)
    } else if u.path.len() > 0 {
        u.path[0]
    } else {
        Seq::empty()
    }
}

/// The written form of the authority of `u` (`//user:pass@host:port`).
pub open spec fn authority_text(u: UrlView) -> Seq<char> {
    if u.has_authority {
        let userinfo = if u.username.len() > 0 || u.password is Some {
            u.username + match u.password {
                Some(p) => seq![':'] + p,
                None => Seq::empty(),
            } + seq!['@']
        } else {
            Seq::empty()
        };
        let port = match u.port {
            Some(p) => seq![':'] + dec(p as nat),
            None => Seq::empty(),
        };
        seq!['/', '/'] + userinfo + match u.host {
            Some(h) => h,
            None => Seq::empty(),
        } + port
    } else {
        Seq::empty()
    }
}

/// The written form of a URL: scheme, `:`, authority, path, `?query`,
/// `#fragment`.
pub open spec fn url_text(u: UrlView) -> Seq<char> {
    u.scheme + seq![':'] + authority_text(u) + path_text(u) + match u.query {
        Some(q) => seq!['?'] + q,
        None => Seq::empty(),
    } + match u.fragment {
        Some(f) => seq!['#'] + f,
        None => Seq::empty(),
    }
}

/// Copies an optional character vector.
pub fn clone_opt(o: &Option<Vec<char>>) -> (r: Option<Vec<char>>)
    ensures
        opt_view(r) == opt_view(*o),
{
    match o {
        Some(v) => Some(copy(v)),
        None => None,
    }
}

/// Splits `v` at every `c`.
pub fn split_all_chars(v: &Vec<char>, c: char) -> (r: Vec<Vec<char>>)
    ensures
        seqs_view(r@) == split_all(v@, c),
{
    let mut out: Vec<Vec<char>> = Vec::new();
    let mut rest = copy(v);
    assert(seqs_view(out@) =~= Seq::<Seq<char>>::empty());
    loop
        invariant
            split_all(v@, c) == seqs_view(out@) + split_all(rest@, c),
        decreases rest@.len(),
    {
        let ghost rest0 = rest@;
        let (head, tail) = split_once_chars(&rest, c);
        proof {
            rest0.index_of_first_ensures(c);
        }
        match tail {
            Some(t) => {
                let ghost out0 = out@;
                out.push(head);
                assert(seqs_view(out@) =~= seqs_view(out0) + seq![rest0.subrange(
                    0,
                    find(rest0, c).unwrap(),
                )]);
                rest = t;
            },
            None => {
                let ghost out0 = out@;
                out.push(head);
                assert(seqs_view(out@) =~= seqs_view(out0) + seq![rest0]);
                return out;
            },
        }
    }
}

/// Copies a vector of character vectors.
pub fn clone_segments(v: &Vec<Vec<char>>) -> (r: Vec<Vec<char>>)
    ensures
        seqs_view(r@) == seqs_view(v@),
{
    let mut out: Vec<Vec<char>> = Vec::new();
    let mut i: usize = 0;
    while i < v.len()
        invariant
            i <= v.len(),
            seqs_view(out@) == seqs_view(v@.subrange(0, i as int)),
        decreases v.len() - i,
    {
        let ghost out0 = out@;
        let x = copy(&v[i]);
        out.push(x);
        assert(seqs_view(out@) =~= seqs_view(out0).push(v@[i as int]@));
        assert(seqs_view(v@.subrange(0, i + 1)) =~= seqs_view(v@.subrange(0, i as int)).push(
            v@[i as int]@,
        ));
        i = i + 1;
    }
    assert(v@.subrange(0, v@.len() as int) =~= v@);
    out
}

/// Whether two lists of segments are the same.
pub fn eq_segments(a: &Vec<Vec<char>>, b: &Vec<Vec<char>>) -> (r: bool)
    ensures
        r == (seqs_view(a@) == seqs_view(b@)),
{
    if a.len() != b.len() {
        return false;
    }
    let mut i: usize = 0;
    while i < a.len()
        invariant
            a.len() == b.len(),
            i <= a.len(),
            forall|j: int| 0 <= j < i ==> a@[j]@ == b@[j]@,
        decreases a.len() - i,
    {
        if !eq_chars(&a[i], &b[i]) {
            assert(seqs_view(a@)[i as int] != seqs_view(b@)[i as int]);
            return false;
        }
        i = i + 1;
    }
    assert(seqs_view(a@) =~= seqs_view(b@));
    true
}

impl Url {
    /// Whether two URLs have the same components.
    pub fn same(&self, other: &Url) -> (r: bool)
        ensures
            r == (self@ == other@),
    {
        let r = eq_chars(&self.scheme, &other.scheme) && eq_chars(&self.username, &other.username)
            && eq_opt_chars(&self.password, &other.password) && eq_opt_chars(
            &self.host,
            &other.host,
        ) && self.port == other.port && self.has_authority == other.has_authority && self.base
            == other.base && eq_segments(&self.path, &other.path) && eq_opt_chars(
            &self.query,
            &other.query,
        ) && eq_opt_chars(&self.fragment, &other.fragment);
        r
    }

    /// The URL made of the components of a parsed URL.
    pub fn from_raw(r: RawUrl) -> (u: Url)
        ensures
            u@ == url_of_raw(r@),
    {
        let base = r.path.len() > 0 && r.path[0] == '/';
        let path = if base {
            let p = slice(&r.path, 1, r.path.len());
            assert(p@ =~= r.path@.drop_first());
            split_all_chars(&p, '/')
        } else {
            let mut one: Vec<Vec<char>> = Vec::new();
            one.push(r.path);
            assert(seqs_view(one@) =~= seq![r@.path]);
            one
        };
        Url {
            scheme: r.scheme,
            username: r.username,
            password: r.password,
            host: r.host,
            port: r.port,
            has_authority: r.has_authority,
            base,
            path,
            query: r.query,
            fragment: r.fragment,
        }
    }

    /// Parses an absolute URL; `None` when the `url` crate rejects it.
    pub fn parse(s: &str) -> (r: Option<Url>)
        ensures
            r is Some <==> url_parse_result(s@) is Some,
            r matches Some(u) ==> u@ == url_of_raw(url_parse_result(s@).unwrap()),
    {
        match parse_raw(s) {
            Some(raw) => Some(Url::from_raw(raw)),
            None => None,
        }
    }

    /// The `file:` URL of an absolute filesystem path; `None` when the path
    /// cannot be written as a URL.
    pub fn from_file_path(p: &str) -> (r: Option<Url>)
        ensures
            r is Some <==> url_from_path_result(p@) is Some,
            r matches Some(u) ==> u@ == url_of_raw(url_from_path_result(p@).unwrap()),
    {
        match from_path_raw(p) {
            Some(raw) => Some(Url::from_raw(raw)),
            None => None,
        }
    }

    /// A copy of this URL.
    pub fn duplicate(&self) -> (r: Url)
        ensures
            r@ == self@,
    {
        Url {
            scheme: copy(&self.scheme),
            username: copy(&self.username),
            password: clone_opt(&self.password),
            host: clone_opt(&self.host),
            port: self.port,
            has_authority: self.has_authority,
            base: self.base,
            path: clone_segments(&self.path),
            query: clone_opt(&self.query),
            fragment: clone_opt(&self.fragment),
        }
    }

    /// The written form of the path.
    pub fn path_chars(&self) -> (r: Vec<char>)
        ensures
            r@ == path_text(self@),
    {
        if self.base {
            let mut out: Vec<char> = Vec::new();
            let mut i: usize = 0;
            while i < self.path.len()
                invariant
                    self.base,
                    i <= self.path.len(),
                    out@ == join_segments(seqs_view(self.path@.subrange(0, i as int))),
                decreases self.path.len() - i,
            {
                let ghost before = out@;
                out.push('/');
                push_all(&mut out, &self.path[i]);
                let ghost segs = seqs_view(self.path@.subrange(0, i + 1));
                assert(segs.drop_last() =~= seqs_view(self.path@.subrange(0, i as int)));
                i = i + 1;
                assert(out@ =~= before + seq!['/'] + segs.last());
            }
            assert(self.path@.subrange(0, self.path@.len() as int) =~= self.path@);
            out
        } else if self.path.len() > 0 {
            copy(&self.path[0])
        } else {
            Vec::new()
        }
    }

    /// The written form of the authority.
    pub fn authority_chars(&self) -> (r: Vec<char>)
        ensures
            r@ == authority_text(self@),
    {
        let mut out: Vec<char> = Vec::new();
        if self.has_authority {
            out.push('/');
            out.push('/');
            if self.username.len() > 0 || self.password.is_some() {
                push_all(&mut out, &self.username);
                if let Some(p) = &self.password {
                    out.push(':');
                    push_all(&mut out, p);
                }
                out.push('@');
            }
            let ghost s2 = out@;
            if let Some(h) = &self.host {
                push_all(&mut out, h);
            }
            let ghost s3 = out@;
            if let Some(p) = self.port {
                out.push(':');
                let d = dec_chars(p as u64);
                push_all(&mut out, &d);
            }
            assert(out@ =~= authority_text(self@));
        } else {
            assert(out@ =~= authority_text(self@));
        }
        out
    }

    /// The written form of the URL.
    pub fn text(&self) -> (r: Vec<char>)
        ensures
            r@ == url_text(self@),
    {
        let mut out = copy(&self.scheme);
        out.push(':');
        let a = self.authority_chars();
        push_all(&mut out, &a);
        let p = self.path_chars();
        push_all(&mut out, &p);
        let ghost s4 = out@;
        if let Some(q) = &self.query {
            out.push('?');
            push_all(&mut out, q);
        }
        let ghost s5 = out@;
        if let Some(f) = &self.fragment {
            out.push('#');
            push_all(&mut out, f);
        }
        assert(out@ =~= url_text(self@));
        out
    }

    /// The written form of the URL, as a `String`.
    pub fn as_string(&self) -> (r: String)
        ensures
            r@ == url_text(self@),
    {
        let t = self.text();
        string_of(&t)
    }

    /// The last path segment, if the path has segments.
    pub fn last_segment(&self) -> (r: Option<Vec<char>>)
        ensures
            r is Some <==> self@.path.len() > 0,
            r matches Some(s) ==> s@ == self@.path.last(),
    {
        if self.path.len() > 0 {
            let n = self.path.len() - 1;
            Some(copy(&self.path[n]))
        } else {
            None
        }
    }
}

} // verus!
