//! The names of the files a target compiles to: its file stem, and the
//! prefix and suffix that the platform (host or target) gives executables
//! and dynamic libraries.
use vstd::prelude::*;
use crate::compiler::Kind;
use crate::manifest::{underscored, LibKind, Metadata, Target, TargetKind, TargetKindView, TargetView};
use crate::text::{chars_of, push_all, push_str, string_of};

verus! {

/// What the compiler said of the file names on the host and on the
/// target: the prefix and suffix of dynamic libraries (none where they
/// are not supported) and the suffix of executables.
#[derive(Debug)]
pub struct FileNaming {
    pub host_triple: String,
    pub target_triple: String,
    pub host_dylib: Option<(String, String)>,
    pub host_exe: String,
    pub target_dylib: Option<(String, String)>,
    pub target_exe: String,
}

/// The prefix and suffix of dynamic libraries of the platform of `kind`,
/// or, where it has none, its triple for the error.
pub open spec fn dylib_spec(n: FileNaming, kind: Kind) -> Result<(Seq<char>, Seq<char>), Seq<char>> {
    let (triple, pair) = if kind == Kind::Host {
        (n.host_triple@, n.host_dylib)
    } else {
        (n.target_triple@, n.target_dylib)
    };
    match pair {
        Some(p) => Ok((p.0@, p.1@)),
        None => Err(triple),
    }
}

/// The file stem of a target: its crate name and the extra file name of
/// its metadata; without metadata, the target's name where it may hold
/// underscores (binaries, examples, build scripts), else the crate name.
pub open spec fn file_stem_spec(t: TargetView, metadata: Option<(Seq<char>, Seq<char>)>) -> Seq<char> {
    match metadata {
        Some(m) => underscored(t.name) + m.1,
        None => if t.kind is Bin || t.kind is Example || t.kind is CustomBuild {
            t.name
        } else {
            underscored(t.name)
        },
    }
}

/// The name of the file for one library kind of a library: the rlib or
/// static archive by its fixed form, a dynamic library with the platform's
/// prefix and suffix.
pub open spec fn lib_file(k: LibKind, stem: Seq<char>, dylib: Result<(Seq<char>, Seq<char>), Seq<char>>) -> Result<
    Seq<char>,
    Seq<char>,
> {
    match k {
        LibKind::Dylib | LibKind::Cdylib => match dylib {
            Ok(p) => Ok(p.0 + stem + p.1),
            Err(t) => Err(t),
        },
        LibKind::Lib | LibKind::Rlib => Ok("lib"@ + stem + ".rlib"@),
        LibKind::StaticLib => Ok("lib"@ + stem + ".a"@),
    }
}

/// The files for the first `n` library kinds, or the first error.
pub open spec fn lib_files(
    ks: Seq<LibKind>,
    n: nat,
    stem: Seq<char>,
    dylib: Result<(Seq<char>, Seq<char>), Seq<char>>,
) -> Result<Seq<Seq<char>>, Seq<char>>
    decreases n,
{
    if n == 0 {
        Ok(Seq::empty())
    } else {
        match lib_files(ks, (n - 1) as nat, stem, dylib) {
            Ok(prev) => match lib_file(ks[n - 1], stem, dylib) {
                Ok(f) => Ok(prev.push(f)),
                Err(t) => Err(t),
            },
            Err(t) => Err(t),
        }
    }
}

/// Once the files fail, they fail the same way for more kinds.
proof fn lemma_lib_files_err_stays(
    ks: Seq<LibKind>,
    n: nat,
    m: nat,
    stem: Seq<char>,
    dylib: Result<(Seq<char>, Seq<char>), Seq<char>>,
)
    requires
        n <= m,
        lib_files(ks, n, stem, dylib) is Err,
    ensures
        lib_files(ks, m, stem, dylib) == lib_files(ks, n, stem, dylib),
    decreases m - n,
{
    if n < m {
        lemma_lib_files_err_stays(ks, n, (m - 1) as nat, stem, dylib);
    }
}

/// The files a target compiles to: one executable (stem and the
/// executable suffix of its platform) for anything but a library, and for
/// a library built as a test; otherwise one file per library kind.
pub open spec fn target_filenames_spec(
    n: FileNaming,
    t: TargetView,
    metadata: Option<(Seq<char>, Seq<char>)>,
    test: bool,
) -> Result<Seq<Seq<char>>, Seq<char>> {
    let stem = file_stem_spec(t, metadata);
    let exe = if t.for_host {
        n.host_exe@
    } else {
        n.target_exe@
    };
    match t.kind {
        TargetKindView::Lib(ks) => if test {
            Ok(seq![stem + exe])
        } else {
            lib_files(ks, ks.len(), stem, dylib_spec(n, if t.for_host { Kind::Host } else { Kind::Target }))
        },
        _ => Ok(seq![stem + exe]),
    }
}

/// The view of optional metadata.
pub open spec fn meta_pair(m: Option<Metadata>) -> Option<(Seq<char>, Seq<char>)> {
    match m {
        Some(m) => Some((m.metadata@, m.extra_filename@)),
        None => None,
    }
}

impl FileNaming {
    /// The prefix and suffix of dynamic libraries on the platform of
    /// `kind` (see `dylib_spec`); the error names the platform that has
    /// none.
    pub fn dylib(&self, kind: Kind) -> (r: Result<(String, String), String>)
        ensures
            match dylib_spec(*self, kind) {
                Ok(p) => r matches Ok(q) && q.0@ == p.0 && q.1@ == p.1,
                Err(t) => r matches Err(e) && e@ == t,
            },
    {
        let (triple, pair) = if kind == Kind::Host {
            (&self.host_triple, &self.host_dylib)
        } else {
            (&self.target_triple, &self.target_dylib)
        };
        match pair {
            Some(p) => Ok((p.0.clone(), p.1.clone())),
            None => Err(triple.clone()),
        }
    }

    /// The file stem of a target with the given metadata (see
    /// `file_stem_spec`).
    pub fn file_stem(target: &Target, metadata: &Option<Metadata>) -> (r: String)
        ensures
            r@ == file_stem_spec(target@, meta_pair(*metadata)),
    {
        match metadata {
            Some(m) => {
                let mut v = chars_of(target.crate_name().as_str());
                push_str(&mut v, m.extra_filename.as_str());
                string_of(&v)
            },
            None => if target.allows_underscores() {
                target.name().to_string()
            } else {
                target.crate_name()
            },
        }
    }

    /// The files a target compiles to (see `target_filenames_spec`); the
    /// error names a platform without dynamic libraries when one is asked
    /// for.
    pub fn target_filenames(&self, target: &Target, metadata: &Option<Metadata>, test: bool) -> (r: Result<
        Vec<String>,
        String,
    >)
        requires
            !test ==> !(target@.kind matches TargetKindView::Lib(ks) && ks.len() == 0),
        ensures
            match target_filenames_spec(*self, target@, meta_pair(*metadata), test) {
                Ok(fs) => r matches Ok(v) && v@.map_values(|s: String| s@) == fs,
                Err(t) => r matches Err(e) && e@ == t,
            },
    {
        let stem = Self::file_stem(target, metadata);
        let suffix = if target.for_host() {
            &self.host_exe
        } else {
            &self.target_exe
        };
        let mut ret: Vec<String> = Vec::new();
        match target.kind() {
            TargetKind::Lib(libs) => {
                if test {
                    let mut v = chars_of(stem.as_str());
                    push_str(&mut v, suffix.as_str());
                    ret.push(string_of(&v));
                    assert(ret@.map_values(|s: String| s@) =~= seq![stem@ + suffix@]);
                    return Ok(ret);
                }
                let kind = if target.for_host() {
                    Kind::Host
                } else {
                    Kind::Target
                };
                let ghost dy = dylib_spec(*self, kind);
                assert(ret@.map_values(|s: String| s@) =~= Seq::<Seq<char>>::empty());
                let mut i: usize = 0;
                while i < libs.len()
                    invariant
                        i <= libs@.len(),
                        !test,
                        target@.kind == TargetKindView::Lib(libs@),
                        stem@ == file_stem_spec(target@, meta_pair(*metadata)),
                        kind == (if target@.for_host { Kind::Host } else { Kind::Target }),
                        dy == dylib_spec(*self, kind),
                        lib_files(libs@, i as nat, stem@, dy) == Ok::<Seq<Seq<char>>, Seq<char>>(
                            ret@.map_values(|s: String| s@),
                        ),
                    decreases libs.len() - i,
                {
                    let ghost before = ret@.map_values(|s: String| s@);
                    let name = match libs[i] {
                        LibKind::Dylib | LibKind::Cdylib => {
                            match self.dylib(kind) {
                                Ok((prefix, suffix)) => {
                                    let mut v = chars_of(prefix.as_str());
                                    push_str(&mut v, stem.as_str());
                                    push_str(&mut v, suffix.as_str());
                                    string_of(&v)
                                },
                                Err(t) => {
                                    proof {
                                        lemma_lib_files_err_stays(libs@, (i + 1) as nat, libs@.len(), stem@, dy);
                                    }
                                    return Err(t);
                                },
                            }
                        },
                        LibKind::Lib | LibKind::Rlib => {
                            let mut v = chars_of("lib");
                            push_str(&mut v, stem.as_str());
                            push_str(&mut v, ".rlib");
                            string_of(&v)
                        },
                        LibKind::StaticLib => {
                            let mut v = chars_of("lib");
                            push_str(&mut v, stem.as_str());
                            push_str(&mut v, ".a");
                            string_of(&v)
                        },
                    };
                    assert(lib_file(libs@[i as int], stem@, dy) == Ok::<Seq<char>, Seq<char>>(name@));
                    ret.push(name);
                    assert(ret@.map_values(|s: String| s@) =~= before.push(name@));
                    i = i + 1;
                }
                Ok(ret)
            },
            _ => {
                let mut v = chars_of(stem.as_str());
                push_str(&mut v, suffix.as_str());
                ret.push(string_of(&v));
                assert(ret@.map_values(|s: String| s@) =~= seq![stem@ + suffix@]);
                Ok(ret)
            },
        }
    }
}

} // verus!
