//! Canonical forms of git URLs and the directory names derived from them.
use vstd::prelude::*;
use crate::text::{copy, ends_with, ends_with_str, eq_str, push_all, push_str, slice, string_of};
use crate::url::{lowercase_char, lowercase_of, seqs_view, Url, UrlView};

verus! {

/// The lower-case form of `s`, character by character, as
/// `s.chars().flat_map(char::to_lowercase)` gives it.
pub open spec fn lower_seq(s: Seq<char>) -> Seq<char>
    decreases s.len(),
{
    if s.len() == 0 {
        Seq::empty()
    } else {
        lower_seq(s.drop_last()) + lowercase_of(s.last())
    }
}

/// Step one: a trailing empty path segment (a trailing slash) is dropped.
pub open spec fn strip_trailing_slash(u: UrlView) -> UrlView {
    if u.base && u.path.len() > 0 && u.path.last().len() == 0 {
        UrlView { path: u.path.drop_last(), ..u }
    } else {
        u
    }
}

/// Step two: a `github.com` URL is moved to `https` on its default port
/// (443, which the written form leaves out) and its path is lower-cased.
pub open spec fn fold_github(u: UrlView) -> UrlView {
    if u.host == Some("github.com"@) {
        UrlView {
            scheme: "https"@,
            port: None,
            path: u.path.map_values(|s: Seq<char>| lower_seq(s)),
            ..u
        }
    } else {
        u
    }
}

/// Step three: a `.git` ending of the last path segment is dropped.
pub open spec fn strip_dot_git(u: UrlView) -> UrlView {
    if u.base && u.path.len() > 0 && ends_with(u.path.last(), ".git"@) {
        let last = u.path.last();
        UrlView { path: u.path.drop_last().push(last.subrange(0, last.len() - 4)), ..u }
    } else {
        u
    }
}

/// The canonical form of a URL: equivalent spellings of one repository map
/// to the same value.
pub open spec fn canonical(u: UrlView) -> UrlView {
    strip_dot_git(fold_github(strip_trailing_slash(u)))
}

/// Lower-cases `v` character by character.
pub fn lowercase_chars(v: &Vec<char>) -> (r: Vec<char>)
    ensures
        r@ == lower_seq(v@),
{
    let mut out: Vec<char> = Vec::new();
    let mut i: usize = 0;
    while i < v.len()
        invariant
            i <= v.len(),
            out@ == lower_seq(v@.subrange(0, i as int)),
        decreases v.len() - i,
    {
        let l = lowercase_char(v[i]);
        push_all(&mut out, &l);
        assert(v@.subrange(0, i + 1).drop_last() =~= v@.subrange(0, i as int));
        i = i + 1;
    }
    assert(v@.subrange(0, v@.len() as int) =~= v@);
    out
}

/// Canonicalizes a URL: drops a trailing slash, moves `github.com` URLs to
/// lower-case `https` on the default port 443, and drops a `.git` ending of the last path
/// segment.
pub fn canonicalize_url(url: &Url) -> (r: Url)
    ensures
        r@ == canonical(url@),
{
    let mut u = url.duplicate();
    // a trailing slash
    if u.base && u.path.len() > 0 && u.path[u.path.len() - 1].len() == 0 {
        let ghost before = u@;
        u.path.pop();
        assert(seqs_view(u.path@) =~= before.path.drop_last());
    }
    assert(u@ == strip_trailing_slash(url@));
    // github.com, case-insensitively
    let is_github = match &u.host {
        Some(h) => eq_str(h, "github.com"),
        None => false,
    };
    if is_github {
        let ghost before = u@;
        let mut path: Vec<Vec<char>> = Vec::new();
        let mut i: usize = 0;
        while i < u.path.len()
            invariant
                i <= u.path.len(),
                seqs_view(u.path@) == before.path,
                seqs_view(path@) == before.path.subrange(0, i as int).map_values(
                    |s: Seq<char>| lower_seq(s),
                ),
            decreases u.path.len() - i,
        {
            let ghost p0 = path@;
            let l = lowercase_chars(&u.path[i]);
            path.push(l);
            assert(seqs_view(path@) =~= seqs_view(p0).push(lower_seq(before.path[i as int])));
            assert(before.path.subrange(0, i + 1).map_values(|s: Seq<char>| lower_seq(s))
                =~= before.path.subrange(0, i as int).map_values(|s: Seq<char>| lower_seq(s)).push(
                lower_seq(before.path[i as int]),
            ));
            i = i + 1;
        }
        assert(before.path.subrange(0, before.path.len() as int) =~= before.path);
        u.path = path;
        u.scheme = crate::text::chars_of("https");
        u.port = None;
    }
    assert(u@ == fold_github(strip_trailing_slash(url@)));
    // a `.git` ending
    if u.base && u.path.len() > 0 {
        let n = u.path.len() - 1;
        if ends_with_str(&u.path[n], ".git") {
            proof {
                reveal_strlit(".git");
            }
            let ghost before = u@;
            let last = u.path.pop().unwrap();
            let chopped = slice(&last, 0, last.len() - 4);
            u.path.push(chopped);
            assert(seqs_view(u.path@) =~= before.path.drop_last().push(
                before.path.last().subrange(0, before.path.last().len() - 4),
            ));
        }
    }
    u
}

/// The lower-case hexadecimal digit of `d`.
pub open spec fn hex_digit(d: nat) -> char {
    if d < 10 {
        crate::text::digit_char(d)
    } else if d == 10 { 'a' } else if d == 11 { 'b' } else if d == 12 { 'c' } else if d == 13 {
        'd'
    } else if d == 14 { 'e' } else { 'f' }
}

/// The hex form of the `k` low bytes of `n`, least significant byte first,
/// each byte as two lower-case digits.
pub open spec fn hex_le(n: nat, k: nat) -> Seq<char>
    decreases k,
{
    if k == 0 {
        Seq::empty()
    } else {
        seq![hex_digit((n % 256) / 16), hex_digit(n % 16)] + hex_le(n / 256, (k - 1) as nat)
    }
}

fn hex_char(d: u64) -> (c: char)
    requires
        d < 16,
    ensures
        c == hex_digit(d as nat),
{
    if d == 0 { '0' } else if d == 1 { '1' } else if d == 2 { '2' } else if d == 3 { '3' }
    else if d == 4 { '4' } else if d == 5 { '5' } else if d == 6 { '6' } else if d == 7 { '7' }
    else if d == 8 { '8' } else if d == 9 { '9' } else if d == 10 { 'a' } else if d == 11 { 'b' }
    else if d == 12 { 'c' } else if d == 13 { 'd' } else if d == 14 { 'e' } else { 'f' }
}

/// The hex form of the eight little-endian bytes of `num`.
pub fn to_hex(num: u64) -> (r: Vec<char>)
    ensures
        r@ == hex_le(num as nat, 8),
{
    let mut out: Vec<char> = Vec::new();
    let mut m = num;
    let mut k: u64 = 0;
    while k < 8
        invariant
            k <= 8,
            out@ + hex_le(m as nat, (8 - k) as nat) == hex_le(num as nat, 8),
        decreases 8 - k,
    {
        let ghost before = out@;
        out.push(hex_char((m % 256) / 16));
        out.push(hex_char(m % 16));
        assert((m as nat % 256) % 16 == m as nat % 16) by (nonlinear_arith);
        assert(hex_le(m as nat, (8 - k) as nat) == seq![
            hex_digit((m as nat % 256) / 16),
            hex_digit(m as nat % 16),
        ] + hex_le((m / 256) as nat, (8 - k - 1) as nat));
        assert(out@ + hex_le((m / 256) as nat, (8 - k - 1) as nat) =~= before + hex_le(
            m as nat,
            (8 - k) as nat,
        ));
        m = m / 256;
        k = k + 1;
    }
    assert(out@ + hex_le(m as nat, 0) =~= out@);
    out
}

/// The SipHash-2-4 value (`std::hash::SipHasher`), with both keys zero, of a
/// string hashed as `str`.
pub uninterp spec fn sip_hash_of(s: Seq<char>) -> u64;

/// Hashes `s` with `std::hash::SipHasher` keyed with zeros, as `Hash` for
/// `str` feeds it; the result is named (`sip_hash_of`).
#[verifier::external_body]
#[allow(deprecated)]
pub(crate) fn sip_hash(s: &str) -> (r: u64)
    ensures
        r == sip_hash_of(s@),
{
    let mut hasher = std::hash::SipHasher::new_with_keys(0, 0);
    std::hash::Hash::hash(s, &mut hasher);
    std::hash::Hasher::finish(&hasher)
}

/// The name part of a git directory: the last segment of the canonical URL,
/// or `_empty` when there is none or it is empty.
pub open spec fn ident_name(u: UrlView) -> Seq<char> {
    let c = canonical(u);
    if c.path.len() > 0 && c.path.last().len() > 0 {
        c.path.last()
    } else {
        "_empty"@
    }
}

/// The directory name of a git repository: the name part, `-`, and the hex
/// form of the hash of the canonical URL's written form.
pub open spec fn ident_of(u: UrlView) -> Seq<char> {
    ident_name(u) + seq!['-'] + hex_le(sip_hash_of(crate::url::url_text(canonical(u))) as nat, 8)
}

/// The directory name under which a git repository is checked out.
pub fn ident(url: &Url) -> (r: String)
    ensures
        r@ == ident_of(url@),
{
    let canon = canonicalize_url(url);
    let name = match canon.last_segment() {
        Some(s) => s,
        None => Vec::new(),
    };
    let mut out: Vec<char> = Vec::new();
    if name.len() == 0 {
        push_str(&mut out, "_empty");
    } else {
        push_all(&mut out, &name);
    }
    out.push('-');
    let text = canon.as_string();
    let h = sip_hash(text.as_str());
    let hx = to_hex(h);
    push_all(&mut out, &hx);
    proof {
        assert(out@ =~= ident_of(url@));
    }
    string_of(&out)
}


/// A remote git repository, known by its URL.
#[derive(Debug)]
pub struct GitRemote {
    url: Url,
}

impl View for GitRemote {
    type V = UrlView;

    closed spec fn view(&self) -> UrlView {
        self.url@
    }
}

impl GitRemote {
    /// The remote at the URL.
    pub fn new(url: &Url) -> (r: GitRemote)
        ensures
            r@ == url@,
    {
        GitRemote { url: url.duplicate() }
    }

    /// The URL of the remote.
    pub fn url(&self) -> (r: &Url)
        ensures
            r@ == self@,
    {
        &self.url
    }
}

} // verus!
