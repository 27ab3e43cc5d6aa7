//! The output of build scripts: the `cargo:key=value` lines they print, and
//! the link flags, environment, configuration and rerun triggers read from
//! them.
use vstd::prelude::*;
use vstd::utf8::{decode_utf8, valid_utf8};
use crate::manifest::{Target, TargetKindView, TargetView, LibKind};
use crate::text::{
    chars_of, copy, eq_chars, extend_strings, strs, eq_str, is_whitespace, is_ws, push_all, push_str, slice, split_once,
    split_once_chars, starts_with, string_of, trim, trim_chars, trim_end, trim_end_chars, trim_start,
};
use crate::url::split_all;
use std::collections::HashMap;

verus! {

/// Which targets a linker argument applies to.
#[derive(Debug, Clone)]
pub enum LinkType {
    All,
    Cdylib,
    Bin,
    SingleBin(String),
}

/// The mathematical value of a `LinkType`.
pub enum LinkTypeView {
    All,
    Cdylib,
    Bin,
    SingleBin(Seq<char>),
}

impl View for LinkType {
    type V = LinkTypeView;

    open spec fn view(&self) -> LinkTypeView {
        match self {
            LinkType::All => LinkTypeView::All,
            LinkType::Cdylib => LinkTypeView::Cdylib,
            LinkType::Bin => LinkTypeView::Bin,
            LinkType::SingleBin(s) => LinkTypeView::SingleBin(s@),
        }
    }
}

/// The parsed output of a custom build script.
#[derive(Debug, Default)]
pub struct BuildOutput {
    /// Paths to pass to rustc with the `-L` flag.
    pub library_paths: Vec<String>,
    /// Names and link kinds of libraries, suitable for the `-l` flag.
    pub library_links: Vec<String>,
    /// Linker arguments suitable to be passed to `-C link-arg=<args>`
    pub linker_args: Vec<(LinkType, String)>,
    /// Various `--cfg` flags to pass to the compiler.
    pub cfgs: Vec<String>,
    /// Additional environment variables to run the compiler with.
    pub env: Vec<(String, String)>,
    /// Metadata to pass to the immediate dependencies.
    pub metadata: Vec<(String, String)>,
    /// Paths to trigger a rerun of this build script.
    pub rerun_if_changed: Vec<String>,
    /// Environment variables which, when changed, will cause a rebuild.
    pub rerun_if_env_changed: Vec<String>,
    /// Warnings generated by this build.
    pub warnings: Vec<String>,
}

/// The mathematical value of a `BuildOutput`.
pub struct BuildOutputView {
    pub library_paths: Seq<Seq<char>>,
    pub library_links: Seq<Seq<char>>,
    pub linker_args: Seq<(LinkTypeView, Seq<char>)>,
    pub cfgs: Seq<Seq<char>>,
    pub env: Seq<(Seq<char>, Seq<char>)>,
    pub metadata: Seq<(Seq<char>, Seq<char>)>,
    pub rerun_if_changed: Seq<Seq<char>>,
    pub rerun_if_env_changed: Seq<Seq<char>>,
    pub warnings: Seq<Seq<char>>,
}

/// The views of a vector of string pairs.
pub open spec fn pairs(v: Seq<(String, String)>) -> Seq<(Seq<char>, Seq<char>)> {
    v.map_values(|p: (String, String)| (p.0@, p.1@))
}

/// The views of a vector of linker arguments.
pub open spec fn link_args(v: Seq<(LinkType, String)>) -> Seq<(LinkTypeView, Seq<char>)> {
    v.map_values(|p: (LinkType, String)| (p.0@, p.1@))
}

impl View for BuildOutput {
    type V = BuildOutputView;

    open spec fn view(&self) -> BuildOutputView {
        BuildOutputView {
            library_paths: strs(self.library_paths@),
            library_links: strs(self.library_links@),
            linker_args: link_args(self.linker_args@),
            cfgs: strs(self.cfgs@),
            env: pairs(self.env@),
            metadata: pairs(self.metadata@),
            rerun_if_changed: strs(self.rerun_if_changed@),
            rerun_if_env_changed: strs(self.rerun_if_env_changed@),
            warnings: strs(self.warnings@),
        }
    }
}

/// The output of a script that printed nothing.
pub open spec fn empty_output() -> BuildOutputView {
    BuildOutputView {
        library_paths: Seq::empty(),
        library_links: Seq::empty(),
        linker_args: Seq::empty(),
        cfgs: Seq::empty(),
        env: Seq::empty(),
        metadata: Seq::empty(),
        rerun_if_changed: Seq::empty(),
        rerun_if_env_changed: Seq::empty(),
        warnings: Seq::empty(),
    }
}

/// An error in the output of a build script.
#[derive(Debug)]
pub enum BuildOutputError {
    /// A `cargo:` line that is not of the form `key=value`.
    WrongOutput { whence: String, line: String },
    /// A `-l` or `-L` flag in `rustc-flags` with no value after it.
    FlagWithoutValue { whence: String, value: String },
    /// A flag other than `-l` and `-L` in `rustc-flags`.
    OnlyLinkFlags { whence: String, value: String },
    /// A `rustc-env` value with no `=`.
    EnvWithoutValue { whence: String, value: String },
    /// `rustc-link-arg-bins` in a package without a binary.
    NoBinTarget { key: String, whence: String, pkg_descr: String },
    /// `rustc-link-arg-bin` whose value is not `BIN=ARG`.
    LinkArgBinForm { key: String, value: String, whence: String },
    /// `rustc-link-arg-bin` naming a binary the package does not have.
    NoBinNamed { key: String, whence: String, pkg_descr: String, bin_name: String },
    /// `RUSTC_BOOTSTRAP` set by the script where that would change behavior.
    RustcBootstrap { val: String, whence: String, library_name: String },
}

/// The mathematical value of a `BuildOutputError`: its kind and its text
/// arguments.
pub enum BuildOutputErrorView {
    WrongOutput(Seq<char>, Seq<char>),
    FlagWithoutValue(Seq<char>, Seq<char>),
    OnlyLinkFlags(Seq<char>, Seq<char>),
    EnvWithoutValue(Seq<char>, Seq<char>),
    NoBinTarget(Seq<char>, Seq<char>, Seq<char>),
    LinkArgBinForm(Seq<char>, Seq<char>, Seq<char>),
    NoBinNamed(Seq<char>, Seq<char>, Seq<char>, Seq<char>),
    RustcBootstrap(Seq<char>, Seq<char>, Seq<char>),
}

impl View for BuildOutputError {
    type V = BuildOutputErrorView;

    open spec fn view(&self) -> BuildOutputErrorView {
        match self {
            BuildOutputError::WrongOutput { whence, line } => BuildOutputErrorView::WrongOutput(whence@, line@),
            BuildOutputError::FlagWithoutValue { whence, value } => BuildOutputErrorView::FlagWithoutValue(whence@, value@),
            BuildOutputError::OnlyLinkFlags { whence, value } => BuildOutputErrorView::OnlyLinkFlags(whence@, value@),
            BuildOutputError::EnvWithoutValue { whence, value } => BuildOutputErrorView::EnvWithoutValue(whence@, value@),
            BuildOutputError::NoBinTarget { key, whence, pkg_descr } => BuildOutputErrorView::NoBinTarget(key@, whence@, pkg_descr@),
            BuildOutputError::LinkArgBinForm { key, value, whence } => BuildOutputErrorView::LinkArgBinForm(key@, value@, whence@),
            BuildOutputError::NoBinNamed { key, whence, pkg_descr, bin_name } => BuildOutputErrorView::NoBinNamed(key@, whence@, pkg_descr@, bin_name@),
            BuildOutputError::RustcBootstrap { val, whence, library_name } => BuildOutputErrorView::RustcBootstrap(val@, whence@, library_name@),
        }
    }
}

/// The words of `s`: its maximal runs of non-whitespace characters.
pub open spec fn words(s: Seq<char>) -> Seq<Seq<char>>
    decreases s.len(),
{
    if s.len() == 0 {
        Seq::empty()
    } else if is_ws(s[0]) {
        words(s.drop_first())
    } else {
        let w = words(s.drop_first());
        if w.len() > 0 && !is_ws(s[1]) {
            w.update(0, seq![s[0]] + w[0])
        } else {
            seq![seq![s[0]]] + w
        }
    }
}

/// The paths and libraries read from the words of a `rustc-flags` value,
/// appended to `paths` and `links`; `Err(true)` for a flag without value,
/// `Err(false)` for a word that is not a `-l`/`-L` flag.
pub open spec fn flags_from(ws: Seq<Seq<char>>, paths: Seq<Seq<char>>, links: Seq<Seq<char>>) -> Result<(Seq<Seq<char>>, Seq<Seq<char>>), bool>
    decreases ws.len(),
{
    if ws.len() == 0 {
        Ok((paths, links))
    } else {
        let f = ws[0];
        if starts_with(f, "-l"@) || starts_with(f, "-L"@) {
            let is_link = starts_with(f, "-l"@);
            let v = f.subrange(2, f.len() as int);
            if v.len() == 0 {
                if ws.len() < 2 {
                    Err(true)
                } else {
                    let v2 = ws[1];
                    if is_link {
                        flags_from(ws.subrange(2, ws.len() as int), paths, links.push(v2))
                    } else {
                        flags_from(ws.subrange(2, ws.len() as int), paths.push(v2), links)
                    }
                }
            } else if is_link {
                flags_from(ws.drop_first(), paths, links.push(v))
            } else {
                flags_from(ws.drop_first(), paths.push(v), links)
            }
        } else {
            Err(false)
        }
    }
}

/// What `BuildOutput::parse_rustc_flags` gives for a value.
pub open spec fn rustc_flags_spec(value: Seq<char>, whence: Seq<char>) -> Result<(Seq<Seq<char>>, Seq<Seq<char>>), BuildOutputErrorView> {
    let t = trim(value);
    match flags_from(words(t), Seq::empty(), Seq::empty()) {
        Ok(r) => Ok(r),
        Err(true) => Err(BuildOutputErrorView::FlagWithoutValue(whence, Seq::empty())),
        Err(false) => Err(BuildOutputErrorView::OnlyLinkFlags(whence, t)),
    }
}

/// What `BuildOutput::parse_rustc_env` gives for a value: the text before
/// and after the first `=`.
pub open spec fn rustc_env_spec(value: Seq<char>, whence: Seq<char>) -> Result<(Seq<char>, Seq<char>), BuildOutputErrorView> {
    match split_once(value, '=') {
        (n, Some(v)) => Ok((n, v)),
        (_, None) => Err(BuildOutputErrorView::EnvWithoutValue(whence, value)),
    }
}

/// The words of `v`.
fn words_of(v: &Vec<char>) -> (r: Vec<Vec<char>>)
    ensures
        crate::url::seqs_view(r@) == words(v@),
{
    let mut out: Vec<Vec<char>> = Vec::new();
    let mut i: usize = v.len();
    assert(v@.subrange(v@.len() as int, v@.len() as int) =~= Seq::<char>::empty());
    while i > 0
        invariant
            i <= v.len(),
            crate::url::seqs_view(out@) == words(v@.subrange(i as int, v@.len() as int)),
            out@.len() > 0 ==> i < v.len(),
        decreases i,
    {
        let ghost rest = v@.subrange(i as int, v@.len() as int);
        let ghost full = v@.subrange(i - 1, v@.len() as int);
        assert(full.drop_first() =~= rest);
        let c = v[i - 1];
        if is_whitespace(c) {
        } else if out.len() > 0 && !is_whitespace(v[i]) {
            let ghost o = out@;
            let mut first = Vec::new();
            first.push(c);
            push_all(&mut first, &out[0]);
            out.set(0, first);
            assert(crate::url::seqs_view(out@) =~= crate::url::seqs_view(o).update(0, seq![c] + o[0]@));
        } else {
            let ghost o = out@;
            let mut w = Vec::new();
            w.push(c);
            out.insert(0, w);
            assert(crate::url::seqs_view(out@) =~= seq![seq![c]] + crate::url::seqs_view(o));
        }
        i = i - 1;
    }
    assert(v@.subrange(0, v@.len() as int) =~= v@);
    out
}

impl BuildOutput {
    /// Reads the `-l` and `-L` flags of a `rustc-flags` value into library
    /// paths and library links; a value may follow its flag directly or as
    /// the next word.
    pub fn parse_rustc_flags(value: &str, whence: &str) -> (r: Result<(Vec<String>, Vec<String>), BuildOutputError>)
        ensures
            match rustc_flags_spec(value@, whence@) {
                Ok((p, l)) => r matches Ok((rp, rl)) && strs(rp@) == p && strs(rl@) == l,
                Err(e) => r matches Err(re) && re@ == e,
            },
    {
        let vc = chars_of(value);
        let t = trim_chars(&vc);
        let ws = words_of(&t);
        let ghost wsv = crate::url::seqs_view(ws@);
        let mut paths: Vec<String> = Vec::new();
        let mut links: Vec<String> = Vec::new();
        let mut i: usize = 0;
        assert(wsv.subrange(0, wsv.len() as int) =~= wsv);
        assert(strs(paths@) =~= Seq::<Seq<char>>::empty());
        assert(strs(links@) =~= Seq::<Seq<char>>::empty());
        while i < ws.len()
            invariant
                i <= ws.len(),
                wsv == crate::url::seqs_view(ws@),
                wsv == words(t@),
                t@ == trim(value@),
                flags_from(wsv, Seq::empty(), Seq::empty()) == flags_from(
                    wsv.subrange(i as int, wsv.len() as int),
                    strs(paths@),
                    strs(links@),
                ),
            decreases ws.len() - i,
        {
            let ghost rest = wsv.subrange(i as int, wsv.len() as int);
            let f = &ws[i];
            assert(rest[0] == f@);
            assert(rest.len() == ws.len() - i);
            let is_link = crate::text::starts_with_str(f, "-l");
            let is_path = crate::text::starts_with_str(f, "-L");
            if is_link || is_path {
                proof {
                    reveal_strlit("-l");
                    reveal_strlit("-L");
                }
                let fv = slice(f, 2, f.len());
                let val = if fv.len() == 0 {
                    if i + 1 >= ws.len() {
                        return Err(BuildOutputError::FlagWithoutValue {
                            whence: crate::text::string_from(whence),
                            value: String::new(),
                        });
                    }
                    i = i + 1;
                    assert(rest.subrange(2, rest.len() as int) =~= wsv.subrange(i + 1, wsv.len() as int));
                    copy(&ws[i])
                } else {
                    assert(rest.drop_first() =~= wsv.subrange(i + 1, wsv.len() as int));
                    fv
                };
                let ghost pv = strs(paths@);
                let ghost lv = strs(links@);
                if is_link {
                    links.push(string_of(&val));
                    assert(strs(links@) =~= lv.push(val@));
                } else {
                    paths.push(string_of(&val));
                    assert(strs(paths@) =~= pv.push(val@));
                }
            } else {
                return Err(BuildOutputError::OnlyLinkFlags {
                    whence: crate::text::string_from(whence),
                    value: string_of(&t),
                });
            }
            i = i + 1;
        }
        assert(wsv.subrange(wsv.len() as int, wsv.len() as int) =~= Seq::<Seq<char>>::empty());
        Ok((paths, links))
    }

    /// Splits a `rustc-env` value at its first `=` into a name and a value.
    pub fn parse_rustc_env(value: &str, whence: &str) -> (r: Result<(String, String), BuildOutputError>)
        ensures
            match rustc_env_spec(value@, whence@) {
                Ok((n, v)) => r matches Ok((rn, rv)) && rn@ == n && rv@ == v,
                Err(e) => r matches Err(re) && re@ == e,
            },
    {
        let vc = chars_of(value);
        let (n, v) = split_once_chars(&vc, '=');
        match v {
            Some(v) => Ok((string_of(&n), string_of(&v))),
            None => Err(BuildOutputError::EnvWithoutValue {
                whence: crate::text::string_from(whence),
                value: crate::text::string_from(value),
            }),
        }
    }
}


/// The inputs of build-output parsing besides the output itself.
pub struct ParseCtx {
    /// The name of the package's library target, if it has one.
    pub library_name: Option<Seq<char>>,
    /// The package, as error messages name it.
    pub pkg_descr: Seq<char>,
    /// The build script's output directory when the output was written.
    pub when_generated: Seq<char>,
    /// The build script's output directory now.
    pub out_dir: Seq<char>,
    /// Whether the unstable `-Zextra-link-arg` flag is on.
    pub extra_link_arg: bool,
    /// Whether nightly features are allowed.
    pub nightly: bool,
    /// The targets of the package.
    pub targets: Seq<TargetView>,
    /// The value of the `RUSTC_BOOTSTRAP` environment variable of the build
    /// tool itself, if set.
    pub rustc_bootstrap: Option<Seq<char>>,
}

/// How the build script is named in messages.
pub open spec fn whence_of(pkg_descr: Seq<char>) -> Seq<char> {
    "build script of `"@ + pkg_descr + "`"@
}

/// The text `s` with every non-overlapping occurrence of the non-empty
/// `from`, searched from the left, replaced by `to`.
pub open spec fn replace_nonempty(s: Seq<char>, from: Seq<char>, to: Seq<char>) -> Seq<char>
    decreases s.len(),
{
    if s.len() == 0 || from.len() == 0 {
        s
    } else if from.len() <= s.len() && s.subrange(0, from.len() as int) == from {
        to + replace_nonempty(s.subrange(from.len() as int, s.len() as int), from, to)
    } else {
        seq![s[0]] + replace_nonempty(s.drop_first(), from, to)
    }
}

/// The text `s` with `to` put before each character and at the end: what
/// replacing the empty text gives.
pub open spec fn replace_empty(s: Seq<char>, to: Seq<char>) -> Seq<char>
    decreases s.len(),
{
    if s.len() == 0 {
        to
    } else {
        to + seq![s[0]] + replace_empty(s.drop_first(), to)
    }
}

/// The text `s` with every non-overlapping occurrence of `from`, searched
/// from the left, replaced by `to`, as `str::replace` gives it (an empty
/// `from` matches before each character and at the end).
pub open spec fn replaced(s: Seq<char>, from: Seq<char>, to: Seq<char>) -> Seq<char> {
    if from.len() == 0 {
        replace_empty(s, to)
    } else {
        replace_nonempty(s, from, to)
    }
}

/// Whether `from` occurs in `s` at position `i`.
fn matches_at(s: &Vec<char>, i: usize, from: &Vec<char>) -> (r: bool)
    requires
        i <= s@.len(),
    ensures
        r == (i + from@.len() <= s@.len() && s@.subrange(i as int, i + from@.len()) == from@),
{
    if from.len() > s.len() - i {
        return false;
    }
    let mut k: usize = 0;
    while k < from.len()
        invariant
            k <= from@.len(),
            i + from@.len() <= s@.len(),
            s@.len() <= usize::MAX,
            forall|j: int| 0 <= j < k ==> s@[i + j] == from@[j],
        decreases from.len() - k,
    {
        if s[i + k] != from[k] {
            assert(s@.subrange(i as int, i + from@.len())[k as int] != from@[k as int]);
            return false;
        }
        k = k + 1;
    }
    assert(s@.subrange(i as int, i + from@.len()) =~= from@);
    true
}

/// The text with every occurrence of `from` replaced by `to` (see
/// `replaced`).
pub fn str_replace(s: &str, from: &str, to: &str) -> (r: String)
    ensures
        r@ == replaced(s@, from@, to@),
{
    let sv = chars_of(s);
    let fv = chars_of(from);
    let tv = chars_of(to);
    let mut out: Vec<char> = Vec::new();
    let mut i: usize = 0;
    assert(sv@.skip(0) =~= sv@);
    if fv.len() == 0 {
        while i < sv.len()
            invariant
                i <= sv@.len(),
                sv@ == s@,
                tv@ == to@,
                out@ + replace_empty(sv@.skip(i as int), tv@) == replace_empty(sv@, tv@),
            decreases sv.len() - i,
        {
            let ghost rest = sv@.skip(i as int);
            assert(rest[0] == sv@[i as int]);
            assert(rest.drop_first() =~= sv@.skip(i + 1));
            let ghost before = out@;
            push_all(&mut out, &tv);
            out.push(sv[i]);
            assert(out@ + replace_empty(sv@.skip(i + 1), tv@) =~= before + replace_empty(rest, tv@));
            i = i + 1;
        }
        let ghost before = out@;
        push_all(&mut out, &tv);
        assert(sv@.skip(i as int) =~= Seq::<char>::empty());
        assert(out@ =~= before + replace_empty(sv@.skip(i as int), tv@));
    } else {
        assert(sv@.skip(0) =~= sv@);
        while i < sv.len()
            invariant
                i <= sv@.len(),
                sv@ == s@,
                fv@ == from@,
                tv@ == to@,
                fv@.len() > 0,
                out@ + replace_nonempty(sv@.skip(i as int), fv@, tv@) == replace_nonempty(sv@, fv@, tv@),
            decreases sv.len() - i,
        {
            let ghost rest = sv@.skip(i as int);
            let ghost before = out@;
            if matches_at(&sv, i, &fv) {
                assert(rest.subrange(0, fv@.len() as int) =~= sv@.subrange(i as int, i + fv@.len()));
                assert(rest.subrange(fv@.len() as int, rest.len() as int) =~= sv@.skip(i + fv@.len()));
                push_all(&mut out, &tv);
                i = i + fv.len();
                assert(out@ + replace_nonempty(sv@.skip(i as int), fv@, tv@) =~= before + replace_nonempty(rest, fv@, tv@));
            } else {
                proof {
                    if fv@.len() <= rest.len() {
                        assert(rest.subrange(0, fv@.len() as int) =~= sv@.subrange(i as int, i + fv@.len()));
                    }
                }
                assert(rest[0] == sv@[i as int]);
                assert(rest.drop_first() =~= sv@.skip(i + 1));
                out.push(sv[i]);
                i = i + 1;
                assert(out@ + replace_nonempty(sv@.skip(i as int), fv@, tv@) =~= before + replace_nonempty(rest, fv@, tv@));
            }
        }
        assert(sv@.skip(i as int) =~= Seq::<char>::empty());
        assert(out@ =~= out@ + replace_nonempty(sv@.skip(i as int), fv@, tv@));
    }
    string_of(&out)
}

/// Calls `std::str::from_utf8`: the characters of `b` when it is valid
/// UTF-8, as the standard library documents.
#[verifier::external_body]
pub(crate) fn utf8_str(b: &[u8]) -> (r: Option<String>)
    ensures
        r is Some <==> valid_utf8(b@),
        r matches Some(s) ==> s@ == decode_utf8(b@),
{
    std::str::from_utf8(b).ok().map(|s| s.to_string())
}

/// Whether some target of the package builds a `cdylib`.
pub open spec fn any_cdylib(ts: Seq<TargetView>) -> bool {
    exists|i: int| 0 <= i < ts.len() && is_cdylib_view(#[trigger] ts[i])
}

/// Whether a target builds a `cdylib`.
pub open spec fn is_cdylib_view(t: TargetView) -> bool {
    match t.kind {
        TargetKindView::Lib(k) => k.contains(LibKind::Cdylib),
        _ => false,
    }
}

/// Whether some target of the package is a binary.
pub open spec fn any_bin(ts: Seq<TargetView>) -> bool {
    exists|i: int| 0 <= i < ts.len() && (#[trigger] ts[i]).kind is Bin
}

/// Whether some target of the package is a binary named `n`.
pub open spec fn any_bin_named(ts: Seq<TargetView>, n: Seq<char>) -> bool {
    exists|i: int| 0 <= i < ts.len() && (#[trigger] ts[i]).kind is Bin && ts[i].name == n
}

/// The warning for a `cdylib` link argument in a package without a
/// `cdylib` target.
pub open spec fn cdylib_warning(key: Seq<char>, pkg_descr: Seq<char>) -> Seq<char> {
    "cargo:"@ + key + " was specified in the build script of "@ + pkg_descr
        + ", but that package does not contain a cdylib target\n\nAllowing this was an unintended change in the 1.50 release, and may become an error in the future. For more information, see <https://github.com/rust-lang/cargo/issues/9562>."@
}

/// The warning for a link argument given without `-Zextra-link-arg`.
pub open spec fn extra_flag_warning(key: Seq<char>) -> Seq<char> {
    "cargo:"@ + key + " requires -Zextra-link-arg flag"@
}

/// The warning for a build script setting `RUSTC_BOOTSTRAP`.
pub open spec fn bootstrap_warning(val: Seq<char>, whence: Seq<char>) -> Seq<char> {
    "Cannot set `RUSTC_BOOTSTRAP="@ + val + "` from "@ + whence
        + ".\nnote: Crates cannot set `RUSTC_BOOTSTRAP` themselves, as doing so would subvert the stability guarantees of Rust for your project."@
}

/// Whether the build tool's own `RUSTC_BOOTSTRAP` names the library: one
/// of its comma-separated parts equals the library name.
pub open spec fn bootstrap_allows(c: ParseCtx) -> bool {
    match (c.library_name, c.rustc_bootstrap) {
        (Some(n), Some(var)) => split_all(var, ',').contains(n),
        _ => false,
    }
}

/// The output after one `key=value` instruction.
pub open spec fn key_step(acc: BuildOutputView, key: Seq<char>, value: Seq<char>, c: ParseCtx) -> Result<BuildOutputView, BuildOutputErrorView> {
    let whence = whence_of(c.pkg_descr);
    if key == "rustc-flags"@ {
        match rustc_flags_spec(value, whence) {
            Ok((p, l)) => Ok(BuildOutputView { library_links: acc.library_links + l, library_paths: acc.library_paths + p, ..acc }),
            Err(e) => Err(e),
        }
    } else if key == "rustc-link-lib"@ {
        Ok(BuildOutputView { library_links: acc.library_links.push(value), ..acc })
    } else if key == "rustc-link-search"@ {
        Ok(BuildOutputView { library_paths: acc.library_paths.push(value), ..acc })
    } else if key == "rustc-link-arg-cdylib"@ || key == "rustc-cdylib-link-arg"@ {
        let warned = if !any_cdylib(c.targets) { acc.warnings.push(cdylib_warning(key, c.pkg_descr)) } else { acc.warnings };
        Ok(BuildOutputView { warnings: warned, linker_args: acc.linker_args.push((LinkTypeView::Cdylib, value)), ..acc })
    } else if key == "rustc-link-arg-bins"@ {
        if c.extra_link_arg {
            if !any_bin(c.targets) {
                Err(BuildOutputErrorView::NoBinTarget(key, whence, c.pkg_descr))
            } else {
                Ok(BuildOutputView { linker_args: acc.linker_args.push((LinkTypeView::Bin, value)), ..acc })
            }
        } else {
            Ok(BuildOutputView { warnings: acc.warnings.push(extra_flag_warning(key)), ..acc })
        }
    } else if key == "rustc-link-arg-bin"@ {
        if c.extra_link_arg {
            match split_once(value, '=') {
                (_, None) => Err(BuildOutputErrorView::LinkArgBinForm(key, value, whence)),
                (bin_name, Some(arg)) => if !any_bin_named(c.targets, bin_name) {
                    Err(BuildOutputErrorView::NoBinNamed(key, whence, c.pkg_descr, bin_name))
                } else {
                    Ok(BuildOutputView { linker_args: acc.linker_args.push((LinkTypeView::SingleBin(bin_name), arg)), ..acc })
                },
            }
        } else {
            Ok(BuildOutputView { warnings: acc.warnings.push(extra_flag_warning(key)), ..acc })
        }
    } else if key == "rustc-link-arg"@ {
        if c.extra_link_arg {
            Ok(BuildOutputView { linker_args: acc.linker_args.push((LinkTypeView::All, value)), ..acc })
        } else {
            Ok(BuildOutputView { warnings: acc.warnings.push(extra_flag_warning(key)), ..acc })
        }
    } else if key == "rustc-cfg"@ {
        Ok(BuildOutputView { cfgs: acc.cfgs.push(value), ..acc })
    } else if key == "rustc-env"@ {
        match rustc_env_spec(value, whence) {
            Err(e) => Err(e),
            Ok((k, v)) => if k == "RUSTC_BOOTSTRAP"@ {
                if c.nightly || bootstrap_allows(c) {
                    Ok(BuildOutputView { warnings: acc.warnings.push(bootstrap_warning(v, whence)), ..acc })
                } else {
                    Err(BuildOutputErrorView::RustcBootstrap(v, whence, match c.library_name {
                        Some(n) => n,
                        None => "1"@,
                    }))
                }
            } else {
                Ok(BuildOutputView { env: acc.env.push((k, v)), ..acc })
            },
        }
    } else if key == "warning"@ {
        Ok(BuildOutputView { warnings: acc.warnings.push(value), ..acc })
    } else if key == "rerun-if-changed"@ {
        Ok(BuildOutputView { rerun_if_changed: acc.rerun_if_changed.push(value), ..acc })
    } else if key == "rerun-if-env-changed"@ {
        Ok(BuildOutputView { rerun_if_env_changed: acc.rerun_if_env_changed.push(value), ..acc })
    } else {
        Ok(BuildOutputView { metadata: acc.metadata.push((key, value)), ..acc })
    }
}

/// The output after one line of the script's output: lines that are not
/// UTF-8 or do not start with `cargo:` are skipped; a `cargo:` line must be
/// `key=value`, whose value is trimmed at the end and has the old output
/// directory replaced by the current one.
pub open spec fn line_step(acc: BuildOutputView, bytes: Seq<u8>, c: ParseCtx) -> Result<BuildOutputView, BuildOutputErrorView> {
    if !valid_utf8(bytes) {
        Ok(acc)
    } else {
        let line = trim(decode_utf8(bytes));
        let (head, data) = split_once(line, ':');
        if head != "cargo"@ || data is None {
            Ok(acc)
        } else {
            let (key, value) = split_once(data.unwrap(), '=');
            match value {
                None => Err(BuildOutputErrorView::WrongOutput(whence_of(c.pkg_descr), line)),
                Some(v) => key_step(acc, key, replaced(trim_end(v), c.when_generated, c.out_dir), c),
            }
        }
    }
}

/// The output after the given lines, starting from `acc`; the first failing
/// line gives the error.
pub open spec fn lines_step(acc: BuildOutputView, lines: Seq<Seq<u8>>, c: ParseCtx) -> Result<BuildOutputView, BuildOutputErrorView>
    decreases lines.len(),
{
    if lines.len() == 0 {
        Ok(acc)
    } else {
        match line_step(acc, lines[0], c) {
            Ok(a) => lines_step(a, lines.drop_first(), c),
            Err(e) => Err(e),
        }
    }
}

/// The lines of `b`: the pieces between its `\n` bytes.
pub open spec fn byte_lines(b: Seq<u8>) -> Seq<Seq<u8>>
    decreases b.len(),
{
    match b.index_of_first(10u8) {
        Some(i) => {
            proof {
                b.index_of_first_ensures(10u8);
            }
            seq![b.subrange(0, i)] + byte_lines(b.subrange(i + 1, b.len() as int))
        },
        None => seq![b],
    }
}

/// What `BuildOutput::parse` gives for the output of a build script.
pub open spec fn parse_spec(input: Seq<u8>, c: ParseCtx) -> Result<BuildOutputView, BuildOutputErrorView> {
    lines_step(empty_output(), byte_lines(input), c)
}

/// The views of a slice of targets.
pub open spec fn targets_view(ts: Seq<Target>) -> Seq<TargetView> {
    ts.map_values(|t: Target| t@)
}

/// The bytes `b[lo..hi]`.
fn byte_slice(b: &[u8], lo: usize, hi: usize) -> (r: Vec<u8>)
    requires
        lo <= hi <= b@.len(),
    ensures
        r@ == b@.subrange(lo as int, hi as int),
{
    let mut r: Vec<u8> = Vec::new();
    let mut i = lo;
    while i < hi
        invariant
            lo <= i <= hi <= b@.len(),
            r@ == b@.subrange(lo as int, i as int),
        decreases hi - i,
    {
        r.push(b[i]);
        i = i + 1;
        assert(r@ =~= b@.subrange(lo as int, i as int));
    }
    r
}

/// The lines of `b`.
fn lines_of(b: &[u8]) -> (r: Vec<Vec<u8>>)
    ensures
        r@.map_values(|l: Vec<u8>| l@) == byte_lines(b@),
{
    let mut out: Vec<Vec<u8>> = Vec::new();
    let mut start: usize = 0;
    let mut i: usize = 0;
    assert(b@.subrange(0, b@.len() as int) =~= b@);
    while i < b.len()
        invariant
            start <= i <= b@.len(),
            forall|j: int| start <= j < i ==> b@[j] != 10u8,
            byte_lines(b@) == out@.map_values(|l: Vec<u8>| l@) + byte_lines(b@.subrange(start as int, b@.len() as int)),
        decreases b.len() - i,
    {
        if b[i] == 10u8 {
            let ghost rest = b@.subrange(start as int, b@.len() as int);
            proof {
                rest.index_of_first_ensures(10u8);
                let k = rest.index_of_first(10u8);
                assert(rest[i - start] == 10u8);
                if k is Some {
                    assert(!(k.unwrap() < i - start));
                    assert(!(k.unwrap() > i - start));
                }
            }
            let line = byte_slice(b, start, i);
            assert(rest.subrange(0, i - start) =~= b@.subrange(start as int, i as int));
            let ghost o = out@;
            out.push(line);
            assert(out@.map_values(|l: Vec<u8>| l@) =~= o.map_values(|l: Vec<u8>| l@).push(
                rest.subrange(0, i - start),
            ));
            assert(rest.subrange(i - start + 1, rest.len() as int) =~= b@.subrange(i + 1, b@.len() as int));
            start = i + 1;
        }
        i = i + 1;
    }
    let ghost rest = b@.subrange(start as int, b@.len() as int);
    proof {
        rest.index_of_first_ensures(10u8);
    }
    let line = byte_slice(b, start, b.len());
    let ghost o = out@;
    out.push(line);
    assert(out@.map_values(|l: Vec<u8>| l@) =~= o.map_values(|l: Vec<u8>| l@).push(rest));
    out
}


/// The inputs of build-output parsing besides the output itself.
pub struct ParseInput<'a> {
    pub library_name: Option<String>,
    pub pkg_descr: &'a str,
    pub when_generated: &'a str,
    pub out_dir: &'a str,
    pub extra_link_arg: bool,
    pub nightly: bool,
    pub targets: &'a [Target],
    pub rustc_bootstrap: Option<String>,
}

/// The mathematical value of the inputs.
pub open spec fn ctx_of(p: ParseInput) -> ParseCtx {
    ParseCtx {
        library_name: crate::source_id::opt_str_view(p.library_name),
        pkg_descr: p.pkg_descr@,
        when_generated: p.when_generated@,
        out_dir: p.out_dir@,
        extra_link_arg: p.extra_link_arg,
        nightly: p.nightly,
        targets: targets_view(p.targets@),
        rustc_bootstrap: crate::source_id::opt_str_view(p.rustc_bootstrap),
    }
}

fn has_cdylib(ts: &[Target]) -> (r: bool)
    ensures
        r == any_cdylib(targets_view(ts@)),
{
    let mut i: usize = 0;
    while i < ts.len()
        invariant
            i <= ts@.len(),
            forall|j: int| 0 <= j < i ==> !is_cdylib_view(#[trigger] targets_view(ts@)[j]),
        decreases ts.len() - i,
    {
        if ts[i].is_cdylib() {
            assert(is_cdylib_view(targets_view(ts@)[i as int]));
            return true;
        }
        i = i + 1;
    }
    false
}

fn has_bin(ts: &[Target]) -> (r: bool)
    ensures
        r == any_bin(targets_view(ts@)),
{
    let mut i: usize = 0;
    while i < ts.len()
        invariant
            i <= ts@.len(),
            forall|j: int| 0 <= j < i ==> (#[trigger] targets_view(ts@)[j]).kind !is Bin,
        decreases ts.len() - i,
    {
        if ts[i].is_bin() {
            assert(targets_view(ts@)[i as int].kind is Bin);
            return true;
        }
        i = i + 1;
    }
    false
}

fn has_bin_named(ts: &[Target], n: &Vec<char>) -> (r: bool)
    ensures
        r == any_bin_named(targets_view(ts@), n@),
{
    let mut i: usize = 0;
    while i < ts.len()
        invariant
            i <= ts@.len(),
            forall|j: int| 0 <= j < i ==> !((#[trigger] targets_view(ts@)[j]).kind is Bin && targets_view(ts@)[j].name == n@),
        decreases ts.len() - i,
    {
        let nm = chars_of(ts[i].name());
        if ts[i].is_bin() && eq_chars(&nm, n) {
            assert(targets_view(ts@)[i as int].kind is Bin);
            return true;
        }
        i = i + 1;
    }
    false
}

/// Appends `v` to `list`.
fn push_string(list: &mut Vec<String>, v: &Vec<char>)
    ensures
        strs(final(list)@) == strs(old(list)@).push(v@),
{
    let ghost o = list@;
    list.push(string_of(v));
    assert(strs(list@) =~= strs(o).push(v@));
}

/// Appends `(k, v)` to `list`.
fn push_pair(list: &mut Vec<(String, String)>, k: &Vec<char>, v: &Vec<char>)
    ensures
        pairs(final(list)@) == pairs(old(list)@).push((k@, v@)),
{
    let ghost o = list@;
    list.push((string_of(k), string_of(v)));
    assert(pairs(list@) =~= pairs(o).push((k@, v@)));
}

/// Appends `(t, v)` to `list`.
fn push_link_arg(list: &mut Vec<(LinkType, String)>, t: LinkType, v: &Vec<char>)
    ensures
        link_args(final(list)@) == link_args(old(list)@).push((t@, v@)),
{
    let ghost o = list@;
    let ghost tv = t@;
    list.push((t, string_of(v)));
    assert(link_args(list@) =~= link_args(o).push((tv, v@)));
}

/// The text `build script of `pkg``.
fn whence_text(pkg_descr: &str) -> (r: Vec<char>)
    ensures
        r@ == whence_of(pkg_descr@),
{
    let mut w: Vec<char> = Vec::new();
    push_str(&mut w, "build script of `");
    push_str(&mut w, pkg_descr);
    push_str(&mut w, "`");
    w
}

/// Whether one of `parts` equals `n`.
fn contains_chars(parts: &Vec<Vec<char>>, n: &Vec<char>) -> (r: bool)
    ensures
        r == crate::url::seqs_view(parts@).contains(n@),
{
    let mut i: usize = 0;
    while i < parts.len()
        invariant
            i <= parts.len(),
            forall|j: int| 0 <= j < i ==> crate::url::seqs_view(parts@)[j] != n@,
        decreases parts.len() - i,
    {
        if eq_chars(&parts[i], n) {
            assert(crate::url::seqs_view(parts@)[i as int] == n@);
            return true;
        }
        i = i + 1;
    }
    false
}

/// Whether the build tool's `RUSTC_BOOTSTRAP` names the library.
fn bootstrap_allowed(p: &ParseInput) -> (r: bool)
    ensures
        r == bootstrap_allows(ctx_of(*p)),
{
    match (&p.library_name, &p.rustc_bootstrap) {
        (Some(n), Some(var)) => {
            let nv = chars_of(n.as_str());
            let vv = chars_of(var.as_str());
            let parts = crate::url::split_all_chars(&vv, ',');
            contains_chars(&parts, &nv)
        },
        _ => false,
    }
}

/// Applies one `key=value` instruction to the output.
fn apply_key(out: &mut BuildOutput, key: &Vec<char>, value: &Vec<char>, p: &ParseInput) -> (r: Result<(), BuildOutputError>)
    ensures
        match key_step(old(out)@, key@, value@, ctx_of(*p)) {
            Ok(a) => r is Ok && final(out)@ == a,
            Err(e) => r matches Err(x) && x@ == e,
        },
{
    let ghost acc = out@;
    let ghost c = ctx_of(*p);
    let whence = whence_text(p.pkg_descr);
    if eq_str(key, "rustc-flags") {
        let vs = string_of(value);
        let ws = string_of(&whence);
        match BuildOutput::parse_rustc_flags(vs.as_str(), ws.as_str()) {
            Ok((paths, links)) => {
                extend_strings(&mut out.library_links, links);
                extend_strings(&mut out.library_paths, paths);
                Ok(())
            },
            Err(e) => Err(e),
        }
    } else if eq_str(key, "rustc-link-lib") {
        push_string(&mut out.library_links, value);
        Ok(())
    } else if eq_str(key, "rustc-link-search") {
        push_string(&mut out.library_paths, value);
        Ok(())
    } else if eq_str(key, "rustc-link-arg-cdylib") || eq_str(key, "rustc-cdylib-link-arg") {
        if !has_cdylib(p.targets) {
            let mut w: Vec<char> = Vec::new();
            push_str(&mut w, "cargo:");
            push_all(&mut w, key);
            push_str(&mut w, " was specified in the build script of ");
            push_str(&mut w, p.pkg_descr);
            push_str(&mut w, ", but that package does not contain a cdylib target\n\nAllowing this was an unintended change in the 1.50 release, and may become an error in the future. For more information, see <https://github.com/rust-lang/cargo/issues/9562>.");
            push_string(&mut out.warnings, &w);
        }
        push_link_arg(&mut out.linker_args, LinkType::Cdylib, value);
        Ok(())
    } else if eq_str(key, "rustc-link-arg-bins") {
        if p.extra_link_arg {
            if !has_bin(p.targets) {
                return Err(BuildOutputError::NoBinTarget {
                    key: string_of(key),
                    whence: string_of(&whence),
                    pkg_descr: crate::text::string_from(p.pkg_descr),
                });
            }
            push_link_arg(&mut out.linker_args, LinkType::Bin, value);
        } else {
            let mut w: Vec<char> = Vec::new();
            push_str(&mut w, "cargo:");
            push_all(&mut w, key);
            push_str(&mut w, " requires -Zextra-link-arg flag");
            push_string(&mut out.warnings, &w);
        }
        Ok(())
    } else if eq_str(key, "rustc-link-arg-bin") {
        if p.extra_link_arg {
            let (bin_name, arg) = split_once_chars(value, '=');
            let arg = match arg {
                Some(a) => a,
                None => return Err(BuildOutputError::LinkArgBinForm {
                    key: string_of(key),
                    value: string_of(value),
                    whence: string_of(&whence),
                }),
            };
            if !has_bin_named(p.targets, &bin_name) {
                return Err(BuildOutputError::NoBinNamed {
                    key: string_of(key),
                    whence: string_of(&whence),
                    pkg_descr: crate::text::string_from(p.pkg_descr),
                    bin_name: string_of(&bin_name),
                });
            }
            push_link_arg(&mut out.linker_args, LinkType::SingleBin(string_of(&bin_name)), &arg);
        } else {
            let mut w: Vec<char> = Vec::new();
            push_str(&mut w, "cargo:");
            push_all(&mut w, key);
            push_str(&mut w, " requires -Zextra-link-arg flag");
            push_string(&mut out.warnings, &w);
        }
        Ok(())
    } else if eq_str(key, "rustc-link-arg") {
        if p.extra_link_arg {
            push_link_arg(&mut out.linker_args, LinkType::All, value);
        } else {
            let mut w: Vec<char> = Vec::new();
            push_str(&mut w, "cargo:");
            push_all(&mut w, key);
            push_str(&mut w, " requires -Zextra-link-arg flag");
            push_string(&mut out.warnings, &w);
        }
        Ok(())
    } else if eq_str(key, "rustc-cfg") {
        push_string(&mut out.cfgs, value);
        Ok(())
    } else if eq_str(key, "rustc-env") {
        let vs = string_of(value);
        let ws = string_of(&whence);
        match BuildOutput::parse_rustc_env(vs.as_str(), ws.as_str()) {
            Err(e) => Err(e),
            Ok((k, v)) => {
                let kc = chars_of(k.as_str());
                let vc = chars_of(v.as_str());
                if eq_str(&kc, "RUSTC_BOOTSTRAP") {
                    if p.nightly || bootstrap_allowed(p) {
                        let mut w: Vec<char> = Vec::new();
                        push_str(&mut w, "Cannot set `RUSTC_BOOTSTRAP=");
                        push_all(&mut w, &vc);
                        push_str(&mut w, "` from ");
                        push_all(&mut w, &whence);
                        push_str(&mut w, ".\nnote: Crates cannot set `RUSTC_BOOTSTRAP` themselves, as doing so would subvert the stability guarantees of Rust for your project.");
                        push_string(&mut out.warnings, &w);
                        Ok(())
                    } else {
                        let lib = match &p.library_name {
                            Some(n) => n.clone(),
                            None => crate::text::string_from("1"),
                        };
                        Err(BuildOutputError::RustcBootstrap { val: v, whence: string_of(&whence), library_name: lib })
                    }
                } else {
                    push_pair(&mut out.env, &kc, &vc);
                    Ok(())
                }
            },
        }
    } else if eq_str(key, "warning") {
        push_string(&mut out.warnings, value);
        Ok(())
    } else if eq_str(key, "rerun-if-changed") {
        push_string(&mut out.rerun_if_changed, value);
        Ok(())
    } else if eq_str(key, "rerun-if-env-changed") {
        push_string(&mut out.rerun_if_env_changed, value);
        Ok(())
    } else {
        push_pair(&mut out.metadata, key, value);
        Ok(())
    }
}


/// Applies one line of the script's output.
fn apply_line(out: &mut BuildOutput, bytes: &Vec<u8>, p: &ParseInput) -> (r: Result<(), BuildOutputError>)
    ensures
        match line_step(old(out)@, bytes@, ctx_of(*p)) {
            Ok(a) => r is Ok && final(out)@ == a,
            Err(e) => r matches Err(x) && x@ == e,
        },
{
    let text = match utf8_str(bytes.as_slice()) {
        Some(t) => t,
        None => return Ok(()),
    };
    let tc = chars_of(text.as_str());
    let line = trim_chars(&tc);
    let (head, data) = split_once_chars(&line, ':');
    if !eq_str(&head, "cargo") {
        return Ok(());
    }
    let data = match data {
        Some(d) => d,
        None => return Ok(()),
    };
    let (key, value) = split_once_chars(&data, '=');
    let value = match value {
        Some(v) => v,
        None => {
            return Err(BuildOutputError::WrongOutput {
                whence: string_of(&whence_text(p.pkg_descr)),
                line: string_of(&line),
            });
        },
    };
    let trimmed = trim_end_chars(&value);
    let ts = string_of(&trimmed);
    let replaced_value = str_replace(ts.as_str(), p.when_generated, p.out_dir);
    let rv = chars_of(replaced_value.as_str());
    apply_key(out, &key, &rv, p)
}

/// A fresh, empty output.
fn empty_build_output() -> (r: BuildOutput)
    ensures
        r@ == empty_output(),
{
    let r = BuildOutput {
        library_paths: Vec::new(),
        library_links: Vec::new(),
        linker_args: Vec::new(),
        cfgs: Vec::new(),
        env: Vec::new(),
        metadata: Vec::new(),
        rerun_if_changed: Vec::new(),
        rerun_if_env_changed: Vec::new(),
        warnings: Vec::new(),
    };
    assert(strs(r.library_paths@) =~= Seq::<Seq<char>>::empty());
    assert(strs(r.library_links@) =~= Seq::<Seq<char>>::empty());
    assert(link_args(r.linker_args@) =~= Seq::<(LinkTypeView, Seq<char>)>::empty());
    assert(strs(r.cfgs@) =~= Seq::<Seq<char>>::empty());
    assert(pairs(r.env@) =~= Seq::<(Seq<char>, Seq<char>)>::empty());
    assert(pairs(r.metadata@) =~= Seq::<(Seq<char>, Seq<char>)>::empty());
    assert(strs(r.rerun_if_changed@) =~= Seq::<Seq<char>>::empty());
    assert(strs(r.rerun_if_env_changed@) =~= Seq::<Seq<char>>::empty());
    assert(strs(r.warnings@) =~= Seq::<Seq<char>>::empty());
    r
}

impl BuildOutput {
    /// Parses the output of a build script, line by line: `cargo:key=value`
    /// lines are instructions (link libraries and search paths, linker
    /// arguments, `--cfg` flags, environment variables, rerun triggers,
    /// warnings, and otherwise metadata for dependents); other lines are
    /// skipped. `rustc_bootstrap` is the value of the build tool's own
    /// `RUSTC_BOOTSTRAP` environment variable.
    pub fn parse(
        input: &[u8],
        library_name: Option<String>,
        pkg_descr: &str,
        script_out_dir_when_generated: &str,
        script_out_dir: &str,
        extra_link_arg: bool,
        nightly_features_allowed: bool,
        targets: &[Target],
        rustc_bootstrap: Option<String>,
    ) -> (r: Result<BuildOutput, BuildOutputError>)
        ensures
            ({
                let c = ParseCtx {
                    library_name: crate::source_id::opt_str_view(library_name),
                    pkg_descr: pkg_descr@,
                    when_generated: script_out_dir_when_generated@,
                    out_dir: script_out_dir@,
                    extra_link_arg,
                    nightly: nightly_features_allowed,
                    targets: targets_view(targets@),
                    rustc_bootstrap: crate::source_id::opt_str_view(rustc_bootstrap),
                };
                match parse_spec(input@, c) {
                    Ok(o) => r matches Ok(out) && out@ == o,
                    Err(e) => r matches Err(x) && x@ == e,
                }
            }),
    {
        let ghost c0 = ParseCtx {
            library_name: crate::source_id::opt_str_view(library_name),
            pkg_descr: pkg_descr@,
            when_generated: script_out_dir_when_generated@,
            out_dir: script_out_dir@,
            extra_link_arg,
            nightly: nightly_features_allowed,
            targets: targets_view(targets@),
            rustc_bootstrap: crate::source_id::opt_str_view(rustc_bootstrap),
        };
        let p = ParseInput {
            library_name,
            pkg_descr,
            when_generated: script_out_dir_when_generated,
            out_dir: script_out_dir,
            extra_link_arg,
            nightly: nightly_features_allowed,
            targets,
            rustc_bootstrap,
        };
        let ghost c = ctx_of(p);
        let lines = lines_of(input);
        let ghost lv = lines@.map_values(|l: Vec<u8>| l@);
        let mut out = empty_build_output();
        let mut i: usize = 0;
        assert(lv.subrange(0, lv.len() as int) =~= lv);
        while i < lines.len()
            invariant
                i <= lines.len(),
                lv == lines@.map_values(|l: Vec<u8>| l@),
                c == ctx_of(p),
                c == c0,
                c0 == (ParseCtx {
                    library_name: crate::source_id::opt_str_view(library_name),
                    pkg_descr: pkg_descr@,
                    when_generated: script_out_dir_when_generated@,
                    out_dir: script_out_dir@,
                    extra_link_arg,
                    nightly: nightly_features_allowed,
                    targets: targets_view(targets@),
                    rustc_bootstrap: crate::source_id::opt_str_view(rustc_bootstrap),
                }),
                parse_spec(input@, c) == lines_step(out@, lv.subrange(i as int, lv.len() as int), c),
            decreases lines.len() - i,
        {
            let ghost rest = lv.subrange(i as int, lv.len() as int);
            assert(rest[0] == lines@[i as int]@);
            assert(rest.drop_first() =~= lv.subrange(i + 1, lv.len() as int));
            let ghost before = out@;
            assert(lines_step(before, rest, c) == match line_step(before, rest[0], c) {
                Ok(a) => lines_step(a, rest.drop_first(), c),
                Err(e) => Err(e),
            });
            match apply_line(&mut out, &lines[i], &p) {
                Ok(()) => {},
                Err(e) => {
                    assert(line_step(before, rest[0], c) is Err);
                    assert(parse_spec(input@, c0) is Err);
                    assert(e@ == parse_spec(input@, c0)->Err_0);
                    return Err(e);
                },
            }
            i = i + 1;
        }
        Ok(out)
    }
}

/// A copy of a list of strings.
fn clone_strings(v: &Vec<String>) -> (r: Vec<String>)
    ensures
        strs(r@) == strs(v@),
{
    let mut out: Vec<String> = Vec::new();
    extend_strings(&mut out, clone_list(v));
    assert(strs(out@) =~= strs(v@));
    out
}

/// A copy of a list of strings, element by element.
fn clone_list(v: &Vec<String>) -> (r: Vec<String>)
    ensures
        r@ == v@,
{
    let mut out: Vec<String> = Vec::new();
    let mut i: usize = 0;
    while i < v.len()
        invariant
            i <= v.len(),
            out@ == v@.subrange(0, i as int),
        decreases v.len() - i,
    {
        out.push(v[i].clone());
        i = i + 1;
        assert(out@ =~= v@.subrange(0, i as int));
    }
    assert(v@.subrange(0, v@.len() as int) =~= v@);
    out
}

/// Dependency information as declared by a build script.
#[derive(Debug)]
pub struct BuildDeps {
    /// Absolute path to the file in the target directory that stores the
    /// output of the build script.
    pub build_script_output: String,
    /// Files that trigger a rebuild if they change.
    pub rerun_if_changed: Vec<String>,
    /// Environment variables that trigger a rebuild if they change.
    pub rerun_if_env_changed: Vec<String>,
}

impl BuildDeps {
    /// The rebuild triggers of a build script: those of its output, or none
    /// when there is no output.
    pub fn new(output_file: &str, output: Option<&BuildOutput>) -> (r: BuildDeps)
        ensures
            r.build_script_output@ == output_file@,
            strs(r.rerun_if_changed@) == match output {
                Some(o) => o@.rerun_if_changed,
                None => Seq::empty(),
            },
            strs(r.rerun_if_env_changed@) == match output {
                Some(o) => o@.rerun_if_env_changed,
                None => Seq::empty(),
            },
    {
        let (a, b) = match output {
            Some(o) => (clone_strings(&o.rerun_if_changed), clone_strings(&o.rerun_if_env_changed)),
            None => {
                let a: Vec<String> = Vec::new();
                let b: Vec<String> = Vec::new();
                assert(strs(a@) =~= Seq::<Seq<char>>::empty());
                assert(strs(b@) =~= Seq::<Seq<char>>::empty());
                (a, b)
            },
        };
        BuildDeps {
            build_script_output: crate::text::string_from(output_file),
            rerun_if_changed: a,
            rerun_if_env_changed: b,
        }
    }
}


/// The build script outputs of the units built so far, keyed by the
/// metadata hash of the unit that ran the script.
pub struct BuildScriptOutputs {
    outputs: HashMap<u64, BuildOutput>,
}

impl View for BuildScriptOutputs {
    type V = Map<u64, BuildOutputView>;

    closed spec fn view(&self) -> Map<u64, BuildOutputView> {
        self.outputs@.map_values(|o: BuildOutput| o@)
    }
}

impl BuildScriptOutputs {
    /// An empty map.
    pub fn new() -> (r: BuildScriptOutputs)
        ensures
            r@ == Map::<u64, BuildOutputView>::empty(),
    {
        let r = BuildScriptOutputs { outputs: HashMap::new() };
        assert(r@ =~= Map::<u64, BuildOutputView>::empty());
        r
    }

    /// Inserts the output of a script run; each run is inserted once.
    pub fn insert(&mut self, metadata: u64, parsed_output: BuildOutput)
        requires
            !old(self)@.contains_key(metadata),
        ensures
            final(self)@ == old(self)@.insert(metadata, parsed_output@),
    {
        broadcast use vstd::std_specs::hash::group_hash_axioms;
        let ghost o = self.outputs@;
        let ghost pv = parsed_output@;
        self.outputs.insert(metadata, parsed_output);
        assert(self@ =~= o.map_values(|o: BuildOutput| o@).insert(metadata, pv));
    }

    /// Whether the output of the given run is present.
    pub fn contains_key(&self, metadata: u64) -> (r: bool)
        ensures
            r == self@.contains_key(metadata),
    {
        broadcast use vstd::std_specs::hash::group_hash_axioms;
        self.outputs.contains_key(&metadata)
    }

    /// The output of the given run, if present.
    pub fn get(&self, meta: u64) -> (r: Option<&BuildOutput>)
        ensures
            r is Some <==> self@.contains_key(meta),
            r matches Some(o) ==> o@ == self@[meta],
    {
        broadcast use vstd::std_specs::hash::group_hash_axioms;
        self.outputs.get(&meta)
    }

    /// Every output held with its run's metadata hash, each once, in the
    /// order the map is walked (which nothing fixes).
    pub fn iter(&self) -> (r: Vec<(u64, &BuildOutput)>)
        ensures
            r@.len() == self@.len(),
            forall|i: int| 0 <= i < r@.len() ==> #[trigger] self@.contains_key(r@[i].0) && r@[i].1@ == self@[r@[i].0],
            forall|k: u64| #[trigger] self@.contains_key(k) ==> exists|i: int| 0 <= i < r@.len() && r@[i].0 == k,
            forall|i: int, j: int| 0 <= i < j < r@.len() ==> r@[i].0 != r@[j].0,
    {
        broadcast use vstd::std_specs::hash::group_hash_axioms;
        broadcast use vstd::std_specs::hash::axiom_spec_hash_map_iter;
        let mut out: Vec<(u64, &BuildOutput)> = Vec::new();
        let ghost all = vstd::std_specs::iter::IteratorSpec::remaining(&self.outputs.iter());
        for kv in it: self.outputs.iter()
            invariant
                all == it.seq(),
                out@.len() == it.index(),
                forall|i: int| 0 <= i < it.index() ==> out@[i].0 == *all[i].0 && out@[i].1 == all[i].1,
        {
            out.push((*kv.0, kv.1));
        }
        proof {
            assert(self@.dom() =~= self.outputs@.dom());
            assert(all.len() == self.outputs@.dom().len());
            assert forall|i: int| 0 <= i < out@.len() implies #[trigger] self@.contains_key(out@[i].0) && out@[i].1@
                == self@[out@[i].0] by {
                assert(self.outputs@.contains_key(*all[i].0));
            }
            assert forall|k: u64| #[trigger] self@.contains_key(k) implies exists|i: int| 0 <= i < out@.len() && out@[i].0 == k by {
                assert(self.outputs@.contains_key(k));
                assert(all.contains((&k, &self.outputs@[k])));
                let i = choose|i: int| 0 <= i < all.len() && all[i] == (&k, &self.outputs@[k]);
                assert(out@[i].0 == k);
            }
            assert forall|i: int, j: int| 0 <= i < j < out@.len() implies out@[i].0 != out@[j].0 by {
                if out@[i].0 == out@[j].0 {
                    assert(self.outputs@.contains_key(*all[i].0));
                    assert(self.outputs@.contains_key(*all[j].0));
                    assert(all[i] == all[j]);
                }
            }
        }
        out
    }

    /// The number of outputs held.
    pub fn len(&self) -> (r: usize)
        ensures
            r == self@.len(),
    {
        broadcast use vstd::std_specs::hash::group_hash_axioms;
        proof {
            assert(self@.dom() =~= self.outputs@.dom());
        }
        self.outputs.len()
    }
}


/// Linking information for a unit: the build script runs (package and
/// metadata hash of the run) whose outputs it links, in the order they are
/// linked, and the runs of its compiler plugins.
#[derive(Debug, Default)]
pub struct BuildScripts {
    pub to_link: Vec<(crate::package_id_spec::PackageId, u64)>,
    pub plugins: Vec<(crate::package_id_spec::PackageId, u64)>,
}

/// A build script run: its package and the metadata hash of the run.
pub type RunView = (crate::package_id_spec::PackageIdView, u64);

/// The views of build script runs.
pub open spec fn runs_view(v: Seq<(crate::package_id_spec::PackageId, u64)>) -> Seq<RunView> {
    v.map_values(|r: (crate::package_id_spec::PackageId, u64)| (r.0@, r.1))
}

/// Whether two runs are the same: the same package, the same metadata.
pub open spec fn same_run(a: RunView, b: RunView) -> bool {
    crate::package_id_spec::same_package(a.0, b.0) && a.1 == b.1
}

/// Whether the list holds the run.
pub open spec fn has_run(s: Seq<RunView>, x: RunView) -> bool {
    exists|k: int| 0 <= k < s.len() && #[trigger] same_run(s[k], x)
}

/// The list with the run added at the end, unless it holds it already.
pub open spec fn add_run(s: Seq<RunView>, x: RunView) -> Seq<RunView> {
    if has_run(s, x) {
        s
    } else {
        s.push(x)
    }
}

/// The list with each of `xs` added in turn (see `add_run`).
pub open spec fn add_runs(s: Seq<RunView>, xs: Seq<RunView>) -> Seq<RunView>
    decreases xs.len(),
{
    if xs.len() == 0 {
        s
    } else {
        add_run(add_runs(s, xs.drop_last()), xs.last())
    }
}

/// Whether no run occurs twice in the list.
pub open spec fn distinct_runs(s: Seq<RunView>) -> bool {
    forall|a: int, b: int| 0 <= a < b < s.len() ==> !same_run(#[trigger] s[a], #[trigger] s[b])
}

/// Adding a run keeps the list free of repeats.
proof fn lemma_add_run_distinct(s: Seq<RunView>, x: RunView)
    requires
        distinct_runs(s),
    ensures
        distinct_runs(add_run(s, x)),
{
    if !has_run(s, x) {
        let t = s.push(x);
        assert forall|a: int, b: int| 0 <= a < b < t.len() implies !same_run(#[trigger] t[a], #[trigger] t[b]) by {
            if b < s.len() {
                assert(t[a] == s[a] && t[b] == s[b]);
            } else {
                assert(t[b] == x && t[a] == s[a]);
                if same_run(s[a], x) {
                    assert(same_run(s[a], x));
                }
            }
        }
    }
}

/// Adding runs keeps the list free of repeats.
proof fn lemma_add_runs_distinct(s: Seq<RunView>, xs: Seq<RunView>)
    requires
        distinct_runs(s),
    ensures
        distinct_runs(add_runs(s, xs)),
    decreases xs.len(),
{
    if xs.len() > 0 {
        lemma_add_runs_distinct(s, xs.drop_last());
        lemma_add_run_distinct(add_runs(s, xs.drop_last()), xs.last());
    }
}

impl BuildScripts {
    /// The mathematical value: the runs to link and those of plugins.
    pub open spec fn runs(&self) -> (Seq<RunView>, Seq<RunView>) {
        (runs_view(self.to_link@), runs_view(self.plugins@))
    }
}

/// Adds a run to those a unit links, unless it is there already.
pub fn add_to_link(scripts: &mut BuildScripts, pkg: &crate::package_id_spec::PackageId, metadata: u64)
    ensures
        final(scripts).runs().0 == add_run(old(scripts).runs().0, (pkg@, metadata)),
        final(scripts).runs().1 == old(scripts).runs().1,
{
    let ghost s = runs_view(scripts.to_link@);
    let mut i: usize = 0;
    while i < scripts.to_link.len()
        invariant
            i <= scripts.to_link@.len(),
            s == runs_view(scripts.to_link@),
            forall|k: int| 0 <= k < i ==> !#[trigger] same_run(s[k], (pkg@, metadata)),
        decreases scripts.to_link.len() - i,
    {
        assert(s[i as int] == (scripts.to_link@[i as int].0@, scripts.to_link@[i as int].1));
        if scripts.to_link[i].0.same(pkg) && scripts.to_link[i].1 == metadata {
            assert(same_run(s[i as int], (pkg@, metadata)));
            return;
        }
        i = i + 1;
    }
    scripts.to_link.push((pkg.duplicate(), metadata));
    assert(runs_view(scripts.to_link@) =~= s.push((pkg@, metadata)));
}

/// What a unit links, from its own package's build script run (`own`,
/// when the unit is not the build script and its package has one) and
/// from each of its dependencies in order (`deps`: whether the dependency
/// is built for the host, whether it is linkable, and what it links):
/// its own run first, then the runs of linkable dependencies, each run
/// once; the runs of host dependencies go to the plugins, as they come.
pub open spec fn unit_scripts_spec(own: Option<RunView>, deps: Seq<(bool, bool, Seq<RunView>)>) -> (Seq<RunView>, Seq<RunView>)
    decreases deps.len(),
{
    if deps.len() == 0 {
        match own {
            Some(x) => (seq![x], Seq::empty()),
            None => (Seq::empty(), Seq::empty()),
        }
    } else {
        let (links, plugins) = unit_scripts_spec(own, deps.drop_last());
        let d = deps.last();
        if d.0 {
            (links, plugins + d.2)
        } else if d.1 {
            (add_runs(links, d.2), plugins)
        } else {
            (links, plugins)
        }
    }
}

/// What a unit links holds no run twice.
proof fn lemma_scripts_distinct(own: Option<RunView>, deps: Seq<(bool, bool, Seq<RunView>)>)
    ensures
        distinct_runs(unit_scripts_spec(own, deps).0),
    decreases deps.len(),
{
    if deps.len() > 0 {
        lemma_scripts_distinct(own, deps.drop_last());
        lemma_add_runs_distinct(unit_scripts_spec(own, deps.drop_last()).0, deps.last().2);
    }
}

/// Copies of the runs.
fn copy_runs(v: &Vec<(crate::package_id_spec::PackageId, u64)>) -> (r: Vec<(crate::package_id_spec::PackageId, u64)>)
    ensures
        runs_view(r@) == runs_view(v@),
{
    let mut out: Vec<(crate::package_id_spec::PackageId, u64)> = Vec::new();
    let mut i: usize = 0;
    while i < v.len()
        invariant
            i <= v@.len(),
            runs_view(out@) == runs_view(v@).take(i as int),
        decreases v.len() - i,
    {
        let ghost before = runs_view(out@);
        out.push((v[i].0.duplicate(), v[i].1));
        assert(runs_view(out@) =~= before.push((v@[i as int].0@, v@[i as int].1)));
        assert(runs_view(v@).take(i + 1) =~= runs_view(v@).take(i as int).push((v@[i as int].0@, v@[i as int].1)));
        i = i + 1;
    }
    assert(runs_view(v@).take(v@.len() as int) =~= runs_view(v@));
    out
}

/// The view of a unit's dependencies, their linking information taken
/// from `done`.
pub open spec fn deps_scripts(deps: Seq<(bool, bool, usize)>, done: Seq<BuildScripts>) -> Seq<(bool, bool, Seq<RunView>)> {
    deps.map_values(|d: (bool, bool, usize)| (d.0, d.1, done[d.2 as int].runs().0))
}

/// What a unit links (see `unit_scripts_spec`); each dependency names the
/// linking information of an earlier unit in `done`.
pub fn unit_build_scripts(
    own: &Option<(crate::package_id_spec::PackageId, u64)>,
    deps: &Vec<(bool, bool, usize)>,
    done: &Vec<BuildScripts>,
) -> (r: BuildScripts)
    requires
        forall|k: int| 0 <= k < deps@.len() ==> #[trigger] deps@[k].2 < done@.len(),
    ensures
        r.runs() == unit_scripts_spec(
            match own {
                Some(x) => Some((x.0@, x.1)),
                None => None,
            },
            deps_scripts(deps@, done@),
        ),
        distinct_runs(r.runs().0),
{
    let ghost ov: Option<RunView> = match own {
        Some(x) => Some((x.0@, x.1)),
        None => None,
    };
    let ghost dv = deps_scripts(deps@, done@);
    let mut ret = BuildScripts { to_link: Vec::new(), plugins: Vec::new() };
    match own {
        Some(x) => {
            add_to_link(&mut ret, &x.0, x.1);
            assert(ret.runs().0 =~= seq![(x.0@, x.1)]);
        },
        None => {
            assert(ret.runs().0 =~= Seq::<RunView>::empty());
        },
    }
    assert(ret.runs().1 =~= Seq::<RunView>::empty());
    let mut i: usize = 0;
    while i < deps.len()
        invariant
            i <= deps@.len(),
            dv == deps_scripts(deps@, done@),
            forall|k: int| 0 <= k < deps@.len() ==> #[trigger] deps@[k].2 < done@.len(),
            ret.runs() == unit_scripts_spec(ov, dv.take(i as int)),
        decreases deps.len() - i,
    {
        let (for_host, linkable, idx) = deps[i];
        assert(dv.take(i + 1).drop_last() =~= dv.take(i as int));
        assert(dv.take(i + 1).last() == (for_host, linkable, done@[idx as int].runs().0));
        let dep = &done[idx];
        if for_host {
            let mut extra = copy_runs(&dep.to_link);
            let ghost before = ret.runs();
            ret.plugins.append(&mut extra);
            assert(ret.runs().1 =~= before.1 + done@[idx as int].runs().0);
            assert(ret.runs().0 == before.0);
        } else if linkable {
            let ghost base = ret.runs().0;
            let ghost pl = ret.runs().1;
            let ghost xs = dep.runs().0;
            let mut j: usize = 0;
            while j < dep.to_link.len()
                invariant
                    j <= dep.to_link@.len(),
                    xs == dep.runs().0,
                    ret.runs().0 == add_runs(base, xs.take(j as int)),
                    ret.runs().1 == pl,
                decreases dep.to_link.len() - j,
            {
                assert(xs.take(j + 1).drop_last() =~= xs.take(j as int));
                assert(xs.take(j + 1).last() == (dep.to_link@[j as int].0@, dep.to_link@[j as int].1));
                add_to_link(&mut ret, &dep.to_link[j].0, dep.to_link[j].1);
                j = j + 1;
            }
            assert(xs.take(dep.to_link@.len() as int) =~= xs);
        }
        i = i + 1;
    }
    assert(dv.take(deps@.len() as int) =~= dv);
    proof {
        lemma_scripts_distinct(ov, dv);
    }
    ret
}

/// A unit as the linking information of a build reads it: its own
/// package's build script run (when the unit is not that build script and
/// the package has one), and its dependencies, by position among the
/// build's units, each with whether it is built for the host and whether
/// it is linkable, in the order they are to be linked.
#[derive(Debug)]
pub struct ScriptUnit {
    pub own: Option<(crate::package_id_spec::PackageId, u64)>,
    pub deps: Vec<(bool, bool, usize)>,
}

/// The view of a unit's own build script run.
pub open spec fn own_run(u: ScriptUnit) -> Option<RunView> {
    match u.own {
        Some(x) => Some((x.0@, x.1)),
        None => None,
    }
}

/// Whether every unit's dependencies come before it, so that the graph
/// has no cycle.
pub open spec fn deps_before(units: Seq<ScriptUnit>) -> bool {
    forall|i: int, k: int| 0 <= i < units.len() && 0 <= k < units[i].deps@.len() ==> #[trigger] units[i].deps@[k].2 < i
}

/// The linking information of each unit of a build (see
/// `unit_scripts_spec`), computed in order, each unit from what its
/// dependencies link.
pub fn build_map(units: &Vec<ScriptUnit>) -> (r: Vec<BuildScripts>)
    requires
        deps_before(units@),
    ensures
        r@.len() == units@.len(),
        forall|i: int|
            0 <= i < r@.len() ==> #[trigger] r@[i].runs() == unit_scripts_spec(
                own_run(units@[i]),
                deps_scripts(units@[i].deps@, r@),
            ) && distinct_runs(r@[i].runs().0),
{
    let mut out: Vec<BuildScripts> = Vec::new();
    let mut i: usize = 0;
    while i < units.len()
        invariant
            i <= units@.len(),
            out@.len() == i,
            deps_before(units@),
            forall|j: int|
                0 <= j < i ==> #[trigger] out@[j].runs() == unit_scripts_spec(
                    own_run(units@[j]),
                    deps_scripts(units@[j].deps@, out@.take(j)),
                ) && distinct_runs(out@[j].runs().0),
        decreases units.len() - i,
    {
        let u = &units[i];
        assert forall|k: int| 0 <= k < u.deps@.len() implies #[trigger] u.deps@[k].2 < out@.len() by {
            assert(units@[i as int].deps@[k].2 < i);
        }
        let scripts = unit_build_scripts(&u.own, &u.deps, &out);
        proof {
            assert(deps_scripts(u.deps@, out@) =~= deps_scripts(u.deps@, out@.take(i as int))) by {
                assert(out@.take(i as int) =~= out@);
            }
            assert(own_run(units@[i as int]) == match u.own {
                Some(x) => Some((x.0@, x.1)),
                None => None::<RunView>,
            });
        }
        let ghost before = out@;
        out.push(scripts);
        assert forall|j: int| 0 <= j < i + 1 implies #[trigger] out@[j].runs() == unit_scripts_spec(
            own_run(units@[j]),
            deps_scripts(units@[j].deps@, out@.take(j)),
        ) && distinct_runs(out@[j].runs().0) by {
            assert(out@.take(j) =~= before.take(j));
            assert(out@[j] == if j < i { before[j] } else { out@[i as int] });
        }
        i = i + 1;
    }
    assert forall|i: int|
        0 <= i < out@.len() implies #[trigger] out@[i].runs() == unit_scripts_spec(
            own_run(units@[i]),
            deps_scripts(units@[i].deps@, out@),
        ) && distinct_runs(out@[i].runs().0) by {
        assert(deps_scripts(units@[i].deps@, out@) =~= deps_scripts(units@[i].deps@, out@.take(i))) by {
            assert forall|k: int| 0 <= k < units@[i].deps@.len() implies deps_scripts(units@[i].deps@, out@)[k] == deps_scripts(
                units@[i].deps@,
                out@.take(i),
            )[k] by {
                assert(units@[i].deps@[k].2 < i);
            }
        }
    }
    out
}

/// Whether the maps are the states of the outputs map along a history of
/// inserts from the empty map, each step inserting its output for its run
/// (each run once, as `insert` requires).
pub open spec fn outputs_history(views: Seq<Map<u64, BuildOutputView>>, steps: Seq<(u64, BuildOutputView)>) -> bool {
    &&& views.len() == steps.len() + 1
    &&& views[0] == Map::<u64, BuildOutputView>::empty()
    &&& forall|i: int| 0 <= i < steps.len() ==> #[trigger] views[i + 1] == views[i].insert(steps[i].0, steps[i].1)
    &&& forall|i: int, j: int| 0 <= i < j < steps.len() ==> #[trigger] steps[i].0 != #[trigger] steps[j].0
}

/// After a history of inserts from the empty map, the map holds exactly
/// the runs inserted, each with the output inserted for it; so `get` gives
/// that output for an inserted run and nothing for any other.
pub proof fn lemma_outputs_history(views: Seq<Map<u64, BuildOutputView>>, steps: Seq<(u64, BuildOutputView)>, meta: u64)
    requires
        outputs_history(views, steps),
    ensures
        views.last().contains_key(meta) <==> exists|i: int| 0 <= i < steps.len() && #[trigger] steps[i].0 == meta,
        forall|i: int| 0 <= i < steps.len() && #[trigger] steps[i].0 == meta ==> views.last()[meta] == steps[i].1,
{
    lemma_outputs_prefix(views, steps, meta, steps.len() as int);
}

/// The same for the first `n` steps.
proof fn lemma_outputs_prefix(views: Seq<Map<u64, BuildOutputView>>, steps: Seq<(u64, BuildOutputView)>, meta: u64, n: int)
    requires
        outputs_history(views, steps),
        0 <= n <= steps.len(),
    ensures
        views[n].contains_key(meta) <==> exists|i: int| 0 <= i < n && #[trigger] steps[i].0 == meta,
        forall|i: int| 0 <= i < n && #[trigger] steps[i].0 == meta ==> views[n][meta] == steps[i].1,
    decreases n,
{
    if n > 0 {
        let k = n - 1;
        lemma_outputs_prefix(views, steps, meta, k);
        assert(views[k + 1] == views[k].insert(steps[k].0, steps[k].1));
        assert(views[k + 1] == views[n]);
        if steps[k].0 == meta {
            assert(exists|i: int| 0 <= i < n && #[trigger] steps[i].0 == meta) by {
                assert(steps[k].0 == meta);
            }
            assert forall|i: int| 0 <= i < n && #[trigger] steps[i].0 == meta implies views[n][meta] == steps[i].1 by {
                if i < k {
                    assert(steps[i].0 != steps[k].0);
                }
            }
        } else {
            if views[n].contains_key(meta) {
                let i = choose|i: int| 0 <= i < k && #[trigger] steps[i].0 == meta;
                assert(0 <= i < n && steps[i].0 == meta);
            }
            if exists|i: int| 0 <= i < n && #[trigger] steps[i].0 == meta {
                let i = choose|i: int| 0 <= i < n && #[trigger] steps[i].0 == meta;
                assert(i < k);
            }
        }
    }
}

/// Whether the states are those of an outputs map made by `new` and then
/// given, by `insert`, each step's output for the step's run (each run
/// once, as `insert` requires).
pub open spec fn insert_states(states: Seq<BuildScriptOutputs>, steps: Seq<(u64, BuildOutputView)>) -> bool {
    outputs_history(states.map_values(|o: BuildScriptOutputs| o@), steps)
}

/// After inserts from a new map, `get` of a run inserted at some step
/// gives that step's output, and `get` of any other run gives nothing
/// (by `get`'s contract, which reads this view).
pub proof fn lemma_get_after_inserts(states: Seq<BuildScriptOutputs>, steps: Seq<(u64, BuildOutputView)>, meta: u64)
    requires
        insert_states(states, steps),
    ensures
        states.last()@.contains_key(meta) <==> exists|i: int| 0 <= i < steps.len() && #[trigger] steps[i].0 == meta,
        forall|i: int| 0 <= i < steps.len() && #[trigger] steps[i].0 == meta ==> states.last()@[meta] == steps[i].1,
{
    let views = states.map_values(|o: BuildScriptOutputs| o@);
    lemma_outputs_history(views, steps, meta);
    assert(views.last() == states.last()@);
}


/// A cdylib link argument instruction (`rustc-link-arg-cdylib`, or its old
/// spelling `rustc-cdylib-link-arg`) adds exactly one linker argument,
/// for cdylib targets only, with the value as given, and changes nothing
/// else but a warning when the package has no cdylib target. A general
/// `rustc-link-arg`, when allowed, adds one for every target, and
/// `rustc-link-arg-bins`, when allowed and the package has a binary, one
/// for binaries. `rustc-link-lib`, `rustc-link-search` and `rustc-cfg`
/// add their value to the libraries, the search paths and the cfgs.
pub proof fn lemma_link_arg_instructions(acc: BuildOutputView, value: Seq<char>, c: ParseCtx)
    ensures
        ({
            let r = key_step(acc, "rustc-link-arg-cdylib"@, value, c);
            &&& r is Ok
            &&& r->Ok_0.linker_args == acc.linker_args.push((LinkTypeView::Cdylib, value))
            &&& r->Ok_0.library_links == acc.library_links
            &&& r->Ok_0.library_paths == acc.library_paths
            &&& r->Ok_0.cfgs == acc.cfgs
            &&& r->Ok_0.env == acc.env
            &&& r->Ok_0.metadata == acc.metadata
            &&& (any_cdylib(c.targets) ==> r->Ok_0.warnings == acc.warnings)
        }),
        ({
            let r = key_step(acc, "rustc-cdylib-link-arg"@, value, c);
            &&& r is Ok
            &&& r->Ok_0.linker_args == acc.linker_args.push((LinkTypeView::Cdylib, value))
            &&& r->Ok_0.library_links == acc.library_links
            &&& r->Ok_0.metadata == acc.metadata
            &&& (any_cdylib(c.targets) ==> r->Ok_0.warnings == acc.warnings)
        }),
        c.extra_link_arg ==> key_step(acc, "rustc-link-arg"@, value, c) == Ok::<BuildOutputView, BuildOutputErrorView>(
            BuildOutputView { linker_args: acc.linker_args.push((LinkTypeView::All, value)), ..acc },
        ),
        (c.extra_link_arg && any_bin(c.targets)) ==> key_step(acc, "rustc-link-arg-bins"@, value, c) == Ok::<
            BuildOutputView,
            BuildOutputErrorView,
        >(BuildOutputView { linker_args: acc.linker_args.push((LinkTypeView::Bin, value)), ..acc }),
        key_step(acc, "rustc-link-lib"@, value, c) == Ok::<BuildOutputView, BuildOutputErrorView>(
            BuildOutputView { library_links: acc.library_links.push(value), ..acc },
        ),
        key_step(acc, "rustc-link-search"@, value, c) == Ok::<BuildOutputView, BuildOutputErrorView>(
            BuildOutputView { library_paths: acc.library_paths.push(value), ..acc },
        ),
        key_step(acc, "rustc-cfg"@, value, c) == Ok::<BuildOutputView, BuildOutputErrorView>(
            BuildOutputView { cfgs: acc.cfgs.push(value), ..acc },
        ),
{
    reveal_strlit("rustc-flags");
    reveal_strlit("rustc-link-lib");
    reveal_strlit("rustc-link-search");
    reveal_strlit("rustc-link-arg-cdylib");
    reveal_strlit("rustc-cdylib-link-arg");
    reveal_strlit("rustc-link-arg-bins");
    reveal_strlit("rustc-link-arg-bin");
    reveal_strlit("rustc-link-arg");
    reveal_strlit("rustc-cfg");
    assert("rustc-link-arg"@.len() == 14 && "rustc-link-lib"@.len() == 14);
    assert("rustc-link-arg"@[11] != "rustc-link-lib"@[11]);
    assert("rustc-link-arg"@ != "rustc-link-lib"@);
    assert("rustc-link-arg"@ != "rustc-flags"@);
    assert("rustc-link-arg"@ != "rustc-link-search"@);
    assert("rustc-link-arg"@ != "rustc-link-arg-cdylib"@);
    assert("rustc-link-arg"@ != "rustc-cdylib-link-arg"@);
    assert("rustc-link-arg"@ != "rustc-link-arg-bins"@);
    assert("rustc-link-arg"@ != "rustc-link-arg-bin"@);
}

} // verus!
