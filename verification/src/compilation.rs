//! What a finished compilation hands to the processes it runs (tests,
//! binaries, documentation tests): where they find dynamic libraries and
//! the environment that describes their package.
use vstd::prelude::*;
use crate::package_id_spec::{version_text, Version, VersionView};
use crate::text::{chars_of, dec, dec_chars, push_all, string_of, strs};

verus! {

/// The pre-release part of a version as the environment gives it: its
/// identifiers joined by dots, or nothing for a release.
pub fn pre_version_component(v: &Version) -> (r: String)
    ensures
        r@ == v@.pre,
{
    v.pre.clone()
}

/// Where a process finds dynamic libraries, in order: for one run on the
/// host, the host's dependency outputs and its own library path; for one
/// run on the target, the native directories of the build that lie in
/// its output directory (already filtered), the output and dependency
/// directories, and the target's library path; then, for both, the
/// library path the tool itself was given.
pub open spec fn search_path_spec(
    is_host: bool,
    host_deps_output: Seq<char>,
    host_dylib_path: Seq<Seq<char>>,
    native_dirs: Seq<Seq<char>>,
    root_output: Seq<char>,
    deps_output: Seq<char>,
    target_dylib_path: Seq<Seq<char>>,
    inherited: Seq<Seq<char>>,
) -> Seq<Seq<char>> {
    let own = if is_host {
        seq![host_deps_output] + host_dylib_path
    } else {
        native_dirs + seq![root_output, deps_output] + target_dylib_path
    };
    own + inherited
}

/// Appends copies of all of `extra`.
fn append_copies(out: &mut Vec<String>, extra: &Vec<String>)
    ensures
        strs(final(out)@) == strs(old(out)@) + strs(extra@),
{
    let mut i: usize = 0;
    while i < extra.len()
        invariant
            i <= extra@.len(),
            strs(out@) == strs(old(out)@) + strs(extra@).take(i as int),
        decreases extra.len() - i,
    {
        let ghost before = strs(out@);
        out.push(extra[i].clone());
        assert(strs(out@) =~= before.push(extra@[i as int]@));
        assert(strs(extra@).take(i + 1) =~= strs(extra@).take(i as int).push(extra@[i as int]@));
        i = i + 1;
    }
    assert(strs(extra@).take(extra@.len() as int) =~= strs(extra@));
}

/// Where a process finds dynamic libraries (see `search_path_spec`);
/// `native_dirs` are the native directories of the build that lie in the
/// output directory, as `filter_dynamic_search_path` keeps them.
pub fn dylib_search_path(
    is_host: bool,
    host_deps_output: &str,
    host_dylib_path: &Vec<String>,
    native_dirs: &Vec<String>,
    root_output: &str,
    deps_output: &str,
    target_dylib_path: &Vec<String>,
    inherited: &Vec<String>,
) -> (r: Vec<String>)
    ensures
        strs(r@) == search_path_spec(
            is_host,
            host_deps_output@,
            strs(host_dylib_path@),
            strs(native_dirs@),
            root_output@,
            deps_output@,
            strs(target_dylib_path@),
            strs(inherited@),
        ),
{
    let mut out: Vec<String> = Vec::new();
    if is_host {
        out.push(host_deps_output.to_string());
        assert(strs(out@) =~= seq![host_deps_output@]);
        append_copies(&mut out, host_dylib_path);
    } else {
        append_copies(&mut out, native_dirs);
        assert(strs(out@) =~= strs(native_dirs@));
        let ghost before = strs(out@);
        out.push(root_output.to_string());
        out.push(deps_output.to_string());
        assert(strs(out@) =~= before + seq![root_output@, deps_output@]);
        append_copies(&mut out, target_dylib_path);
    }
    append_copies(&mut out, inherited);
    proof {
        if is_host {
            assert(strs(out@) =~= seq![host_deps_output@] + strs(host_dylib_path@) + strs(inherited@));
        } else {
            assert(strs(out@) =~= strs(native_dirs@) + seq![root_output@, deps_output@] + strs(target_dylib_path@) + strs(
                inherited@,
            ));
        }
    }
    out
}

/// The package a process belongs to, as its environment describes it.
pub struct PackageInfo {
    pub root: String,
    pub name: String,
    pub version: Version,
    pub description: Option<String>,
    pub homepage: Option<String>,
    pub authors: Vec<String>,
}

/// The texts joined by `sep`.
pub open spec fn join_sep(s: Seq<Seq<char>>, sep: char) -> Seq<char>
    decreases s.len(),
{
    if s.len() == 0 {
        Seq::empty()
    } else if s.len() == 1 {
        s[0]
    } else {
        join_sep(s.drop_last(), sep) + seq![sep] + s.last()
    }
}

/// A text, or nothing.
pub open spec fn or_empty(o: Option<String>) -> Seq<char> {
    match o {
        Some(s) => s@,
        None => Seq::empty(),
    }
}

/// The views of variables.
pub open spec fn vars_view(v: Seq<(String, String)>) -> Seq<(Seq<char>, Seq<char>)> {
    v.map_values(|p: (String, String)| (p.0@, p.1@))
}

/// The variables that describe the package, after those the build gave
/// it (`extra`): the tool's own path, the package's directory, its
/// version in parts and whole, its name, description, home page and
/// authors (joined by `:`).
pub open spec fn package_env_spec(extra: Seq<(Seq<char>, Seq<char>)>, cargo_exe: Seq<char>, p: PackageInfo) -> Seq<
    (Seq<char>, Seq<char>),
> {
    let v: VersionView = p.version@;
    extra + seq![
        ("CARGO"@, cargo_exe),
        ("CARGO_MANIFEST_DIR"@, p.root@),
        ("CARGO_PKG_VERSION_MAJOR"@, dec(v.major as nat)),
        ("CARGO_PKG_VERSION_MINOR"@, dec(v.minor as nat)),
        ("CARGO_PKG_VERSION_PATCH"@, dec(v.patch as nat)),
        ("CARGO_PKG_VERSION_PRE"@, v.pre),
        ("CARGO_PKG_VERSION"@, version_text(v)),
        ("CARGO_PKG_NAME"@, p.name@),
        ("CARGO_PKG_DESCRIPTION"@, or_empty(p.description)),
        ("CARGO_PKG_HOMEPAGE"@, or_empty(p.homepage)),
        ("CARGO_PKG_AUTHORS"@, join_sep(strs(p.authors@), ':')),
    ]
}

/// The texts joined by `sep` (see `join_sep`).
fn join_texts(s: &Vec<String>, sep: char) -> (r: String)
    ensures
        r@ == join_sep(strs(s@), sep),
{
    let mut out: Vec<char> = Vec::new();
    let mut i: usize = 0;
    while i < s.len()
        invariant
            i <= s@.len(),
            out@ == join_sep(strs(s@).take(i as int), sep),
        decreases s.len() - i,
    {
        let ghost before = out@;
        let ghost t = strs(s@).take(i + 1);
        assert(t.drop_last() =~= strs(s@).take(i as int));
        assert(t.last() == s@[i as int]@);
        if i > 0 {
            out.push(sep);
        }
        let c = chars_of(s[i].as_str());
        push_all(&mut out, &c);
        proof {
            if i == 0 {
                assert(out@ =~= t[0]);
            } else {
                assert(out@ =~= before + seq![sep] + t.last());
            }
        }
        i = i + 1;
    }
    assert(strs(s@).take(s@.len() as int) =~= strs(s@));
    string_of(&out)
}

/// A copy of the text, or nothing.
fn text_or_empty(o: &Option<String>) -> (r: String)
    ensures
        r@ == or_empty(*o),
{
    match o {
        Some(s) => s.clone(),
        None => String::new(),
    }
}

/// Appends a variable.
fn push_var(out: &mut Vec<(String, String)>, k: &str, v: String)
    ensures
        vars_view(final(out)@) == vars_view(old(out)@).push((k@, v@)),
{
    let key = k.to_string();
    out.push((key, v));
    assert(vars_view(out@) =~= vars_view(old(out)@).push((k@, v@)));
}

/// The environment of a process of the package (see `package_env_spec`):
/// the variables the build gave the package, then those that describe it.
/// The library search path (see `dylib_search_path`) goes first, under
/// the platform's own variable.
pub fn package_env(extra: &Vec<(String, String)>, cargo_exe: &str, p: &PackageInfo) -> (r: Vec<(String, String)>)
    ensures
        vars_view(r@) == package_env_spec(vars_view(extra@), cargo_exe@, *p),
{
    let mut out: Vec<(String, String)> = Vec::new();
    let mut i: usize = 0;
    while i < extra.len()
        invariant
            i <= extra@.len(),
            vars_view(out@) == vars_view(extra@).take(i as int),
        decreases extra.len() - i,
    {
        let ghost before = vars_view(out@);
        out.push((extra[i].0.clone(), extra[i].1.clone()));
        assert(vars_view(out@) =~= before.push((extra@[i as int].0@, extra@[i as int].1@)));
        assert(vars_view(extra@).take(i + 1) =~= vars_view(extra@).take(i as int).push(
            (extra@[i as int].0@, extra@[i as int].1@),
        ));
        i = i + 1;
    }
    assert(vars_view(extra@).take(extra@.len() as int) =~= vars_view(extra@));
    let ghost base = vars_view(out@);
    push_var(&mut out, "CARGO", cargo_exe.to_string());
    push_var(&mut out, "CARGO_MANIFEST_DIR", p.root.clone());
    push_var(&mut out, "CARGO_PKG_VERSION_MAJOR", string_of(&dec_chars(p.version.major)));
    push_var(&mut out, "CARGO_PKG_VERSION_MINOR", string_of(&dec_chars(p.version.minor)));
    push_var(&mut out, "CARGO_PKG_VERSION_PATCH", string_of(&dec_chars(p.version.patch)));
    push_var(&mut out, "CARGO_PKG_VERSION_PRE", pre_version_component(&p.version));
    push_var(&mut out, "CARGO_PKG_VERSION", p.version.to_string());
    push_var(&mut out, "CARGO_PKG_NAME", p.name.clone());
    push_var(&mut out, "CARGO_PKG_DESCRIPTION", text_or_empty(&p.description));
    push_var(&mut out, "CARGO_PKG_HOMEPAGE", text_or_empty(&p.homepage));
    push_var(&mut out, "CARGO_PKG_AUTHORS", join_texts(&p.authors, ':'));
    assert(vars_view(out@) =~= package_env_spec(vars_view(extra@), cargo_exe@, *p));
    out
}

} // verus!
