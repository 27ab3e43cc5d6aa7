//! Build targets of a package (libraries, binaries, tests, ...) and the
//! per-mode compilation profiles of a manifest.
use vstd::prelude::*;
use crate::text::{chars_of, copy, push_all, push_str, string_from, string_of};

verus! {

/// The output metadata of a target: the hash mixed into its file names.
#[derive(Debug, Clone, PartialEq, Eq)]
pub struct Metadata {
    pub metadata: String,
    pub extra_filename: String,
}

/// General metadata about a package which is uploaded to the registry as it
/// stands.
#[derive(Debug, Clone, PartialEq)]
pub struct ManifestMetadata {
    pub authors: Vec<String>,
    pub keywords: Vec<String>,
    pub license: Option<String>,
    pub license_file: Option<String>,
    pub description: Option<String>,
    pub readme: Option<String>,
    pub homepage: Option<String>,
    pub repository: Option<String>,
    pub documentation: Option<String>,
}

/// The kind of a library output.
#[derive(Debug, Clone, Copy, PartialEq, Eq, Structural)]
pub enum LibKind {
    Lib,
    Rlib,
    Dylib,
    StaticLib,
    /// A dynamic library for other languages, which the link arguments of
    /// build scripts may address; the crate types of a manifest do not
    /// name it.
    Cdylib,
}

/// The name of a library kind as `--crate-type` takes it.
pub open spec fn crate_type_text(k: LibKind) -> Seq<char> {
    match k {
        LibKind::Lib => "lib"@,
        LibKind::Rlib => "rlib"@,
        LibKind::Dylib => "dylib"@,
        LibKind::StaticLib => "staticlib"@,
        LibKind::Cdylib => "cdylib"@,
    }
}

/// The library kind a crate-type name stands for.
pub open spec fn lib_kind_of(s: Seq<char>) -> Option<LibKind> {
    if s == "lib"@ {
        Some(LibKind::Lib)
    } else if s == "rlib"@ {
        Some(LibKind::Rlib)
    } else if s == "dylib"@ {
        Some(LibKind::Dylib)
    } else if s == "staticlib"@ {
        Some(LibKind::StaticLib)
    } else {
        None
    }
}

/// Reading the `--crate-type` name of a library kind gives that kind back,
/// for the four kinds a manifest may name (`cdylib` is written, not read).
pub proof fn lemma_crate_type_round_trip(k: LibKind)
    requires
        k != LibKind::Cdylib,
    ensures
        lib_kind_of(crate_type_text(k)) == Some(k),
{
    reveal_strlit("lib");
    reveal_strlit("rlib");
    reveal_strlit("dylib");
    reveal_strlit("staticlib");
    reveal_strlit("cdylib");
    assert("lib"@.len() == 3 && "rlib"@.len() == 4 && "dylib"@.len() == 5);
    assert("staticlib"@.len() == 9 && "cdylib"@.len() == 6);
    assert("rlib"@[0] != "lib"@[0]);
    assert("dylib"@[0] != "cdylib"@[0]);
}

/// An error in reading a manifest value.
#[derive(Debug)]
pub enum ManifestError {
    /// A crate type other than `lib`, `rlib`, `dylib` or `staticlib`.
    InvalidCrateType(String),
}

impl LibKind {
    /// Reads a crate type: `lib`, `rlib`, `dylib` or `staticlib`.
    pub fn from_str(string: &str) -> (r: Result<LibKind, ManifestError>)
        ensures
            match lib_kind_of(string@) {
                Some(k) => r matches Ok(k2) && k2 == k,
                None => r matches Err(ManifestError::InvalidCrateType(s)) && s@ == string@,
            },
    {
        let v = chars_of(string);
        if crate::text::eq_str(&v, "lib") {
            Ok(LibKind::Lib)
        } else if crate::text::eq_str(&v, "rlib") {
            Ok(LibKind::Rlib)
        } else if crate::text::eq_str(&v, "dylib") {
            Ok(LibKind::Dylib)
        } else if crate::text::eq_str(&v, "staticlib") {
            Ok(LibKind::StaticLib)
        } else {
            Err(ManifestError::InvalidCrateType(string_from(string)))
        }
    }

    /// The argument for `--crate-type` to pass to rustc.
    pub fn crate_type(&self) -> (r: &'static str)
        ensures
            r@ == crate_type_text(*self),
    {
        match *self {
            LibKind::Lib => "lib",
            LibKind::Rlib => "rlib",
            LibKind::Dylib => "dylib",
            LibKind::StaticLib => "staticlib",
            LibKind::Cdylib => "cdylib",
        }
    }
}

/// The kind of a target.
#[derive(Debug, Clone)]
pub enum TargetKind {
    Lib(Vec<LibKind>),
    Bin,
    Test,
    Bench,
    Example,
    CustomBuild,
}

/// The mathematical value of a `TargetKind`.
pub enum TargetKindView {
    Lib(Seq<LibKind>),
    Bin,
    Test,
    Bench,
    Example,
    CustomBuild,
}

impl View for TargetKind {
    type V = TargetKindView;

    open spec fn view(&self) -> TargetKindView {
        match self {
            TargetKind::Lib(k) => TargetKindView::Lib(k@),
            TargetKind::Bin => TargetKindView::Bin,
            TargetKind::Test => TargetKindView::Test,
            TargetKind::Bench => TargetKindView::Bench,
            TargetKind::Example => TargetKindView::Example,
            TargetKind::CustomBuild => TargetKindView::CustomBuild,
        }
    }
}

/// The names a target kind is written as: the crate types of a library,
/// otherwise one name.
pub open spec fn kind_names(k: TargetKindView) -> Seq<Seq<char>> {
    match k {
        TargetKindView::Lib(kinds) => kinds.map_values(|l: LibKind| crate_type_text(l)),
        TargetKindView::Bin => seq!["bin"@],
        TargetKindView::Example => seq!["example"@],
        TargetKindView::Test => seq!["test"@],
        TargetKindView::CustomBuild => seq!["custom-build"@],
        TargetKindView::Bench => seq!["bench"@],
    }
}

/// The crate types of a list of library kinds.
fn crate_types(kinds: &Vec<LibKind>) -> (r: Vec<&'static str>)
    ensures
        r@.len() == kinds@.len(),
        forall|i: int| 0 <= i < kinds@.len() ==> #[trigger] r@[i]@ == crate_type_text(kinds@[i]),
{
    let mut out: Vec<&'static str> = Vec::new();
    let mut i: usize = 0;
    while i < kinds.len()
        invariant
            i <= kinds.len(),
            out@.len() == i,
            forall|j: int| 0 <= j < i ==> #[trigger] out@[j]@ == crate_type_text(kinds@[j]),
        decreases kinds.len() - i,
    {
        out.push(kinds[i].crate_type());
        i = i + 1;
    }
    out
}

impl TargetKind {
    /// A copy of this kind.
    pub fn duplicate(&self) -> (r: TargetKind)
        ensures
            r@ == self@,
    {
        match self {
            TargetKind::Lib(k) => {
                let c = k.clone();
                assert(c@ =~= k@);
                TargetKind::Lib(c)
            },
            TargetKind::Bin => TargetKind::Bin,
            TargetKind::Test => TargetKind::Test,
            TargetKind::Bench => TargetKind::Bench,
            TargetKind::Example => TargetKind::Example,
            TargetKind::CustomBuild => TargetKind::CustomBuild,
        }
    }

    /// The names this kind is serialized as: the crate types of a library,
    /// or `bin`, `example`, `test`, `custom-build`, `bench`.
    pub fn encode(&self) -> (r: Vec<&'static str>)
        ensures
            r@.len() == kind_names(self@).len(),
            forall|i: int| 0 <= i < r@.len() ==> #[trigger] r@[i]@ == kind_names(self@)[i],
    {
        match self {
            TargetKind::Lib(kinds) => crate_types(kinds),
            TargetKind::Bin => vec!["bin"],
            TargetKind::Example => vec!["example"],
            TargetKind::Test => vec!["test"],
            TargetKind::CustomBuild => vec!["custom-build"],
            TargetKind::Bench => vec!["bench"],
        }
    }
}

/// Information about a binary, a library, an example, etc. that is part of
/// the package.
#[derive(Debug, Clone)]
pub struct Target {
    kind: TargetKind,
    name: String,
    src_path: String,
    metadata: Option<Metadata>,
    tested: bool,
    benched: bool,
    doc: bool,
    doctest: bool,
    harness: bool,
    for_host: bool,
}

/// The mathematical value of a `Target`.
pub struct TargetView {
    pub kind: TargetKindView,
    pub name: Seq<char>,
    pub src_path: Seq<char>,
    pub metadata: Option<(Seq<char>, Seq<char>)>,
    pub tested: bool,
    pub benched: bool,
    pub doc: bool,
    pub doctest: bool,
    pub harness: bool,
    pub for_host: bool,
}

/// The view of optional metadata.
pub open spec fn meta_view(m: Option<Metadata>) -> Option<(Seq<char>, Seq<char>)> {
    match m {
        Some(m) => Some((m.metadata@, m.extra_filename@)),
        None => None,
    }
}

impl View for Target {
    type V = TargetView;

    closed spec fn view(&self) -> TargetView {
        TargetView {
            kind: self.kind@,
            name: self.name@,
            src_path: self.src_path@,
            metadata: meta_view(self.metadata),
            tested: self.tested,
            benched: self.benched,
            doc: self.doc,
            doctest: self.doctest,
            harness: self.harness,
            for_host: self.for_host,
        }
    }
}

/// The settings every target starts from: a binary with no name or path,
/// not documented, not doc-tested, built with the test harness, for the
/// target platform, tested and benchmarked.
pub open spec fn blank_view() -> TargetView {
    TargetView {
        kind: TargetKindView::Bin,
        name: Seq::empty(),
        src_path: Seq::empty(),
        metadata: None,
        doc: false,
        doctest: false,
        harness: true,
        for_host: false,
        tested: true,
        benched: true,
    }
}

/// `s` with every `-` replaced by `_`.
pub open spec fn underscored(s: Seq<char>) -> Seq<char> {
    s.map_values(|c: char| if c == '-' { '_' } else { c })
}

/// Whether a library's kinds make it doc-testable: it builds an `rlib` or a
/// `lib`.
pub open spec fn doctestable_kinds(k: Seq<LibKind>) -> bool {
    k.contains(LibKind::Rlib) || k.contains(LibKind::Lib)
}

/// Whether a library kind can be linked into other crates.
pub open spec fn linkable_kind(k: LibKind) -> bool {
    k == LibKind::Lib || k == LibKind::Rlib || k == LibKind::Dylib
}

/// Whether some kind in `k` is linkable.
pub open spec fn any_linkable_kind(k: Seq<LibKind>) -> bool {
    exists|i: int| 0 <= i < k.len() && linkable_kind(#[trigger] k[i])
}

/// Whether `k` holds `x`.
fn contains_kind(k: &Vec<LibKind>, x: LibKind) -> (r: bool)
    ensures
        r == k@.contains(x),
{
    let mut i: usize = 0;
    while i < k.len()
        invariant
            i <= k.len(),
            forall|j: int| 0 <= j < i ==> k@[j] != x,
        decreases k.len() - i,
    {
        if k[i] == x {
            return true;
        }
        i = i + 1;
    }
    false
}

/// Whether some kind in `kinds` is linkable.
fn any_linkable(kinds: &Vec<LibKind>) -> (r: bool)
    ensures
        r == any_linkable_kind(kinds@),
{
    let mut i: usize = 0;
    while i < kinds.len()
        invariant
            i <= kinds.len(),
            forall|j: int| 0 <= j < i ==> !linkable_kind(#[trigger] kinds@[j]),
        decreases kinds.len() - i,
    {
        let k = kinds[i];
        if k == LibKind::Lib || k == LibKind::Rlib || k == LibKind::Dylib {
            assert(linkable_kind(kinds@[i as int]));
            return true;
        }
        i = i + 1;
    }
    false
}

impl Target {
    fn blank() -> (r: Target)
        ensures
            r@ == blank_view(),
    {
        Target {
            kind: TargetKind::Bin,
            name: String::new(),
            src_path: String::new(),
            metadata: None,
            doc: false,
            doctest: false,
            harness: true,
            for_host: false,
            tested: true,
            benched: true,
        }
    }

    /// A library target of the given crate types; documented and
    /// doc-tested.
    pub fn lib_target(name: &str, crate_targets: Vec<LibKind>, src_path: &str, metadata: Metadata) -> (r: Target)
        ensures
            r@ == (TargetView {
                kind: TargetKindView::Lib(crate_targets@),
                name: name@,
                src_path: src_path@,
                metadata: meta_view(Some(metadata)),
                doctest: true,
                doc: true,
                ..blank_view()
            }),
    {
        let b = Target::blank();
        Target {
            kind: TargetKind::Lib(crate_targets),
            name: string_from(name),
            src_path: string_from(src_path),
            metadata: Some(metadata),
            doctest: true,
            doc: true,
            ..b
        }
    }

    /// A binary target; documented.
    pub fn bin_target(name: &str, src_path: &str, metadata: Option<Metadata>) -> (r: Target)
        ensures
            r@ == (TargetView {
                kind: TargetKindView::Bin,
                name: name@,
                src_path: src_path@,
                metadata: meta_view(metadata),
                doc: true,
                ..blank_view()
            }),
    {
        let b = Target::blank();
        Target {
            kind: TargetKind::Bin,
            name: string_from(name),
            src_path: string_from(src_path),
            metadata,
            doc: true,
            ..b
        }
    }

    /// The target of a `build = "build.rs"` entry: built for the host, not
    /// tested, not benchmarked.
    pub fn custom_build_target(name: &str, src_path: &str, metadata: Option<Metadata>) -> (r: Target)
        ensures
            r@ == (TargetView {
                kind: TargetKindView::CustomBuild,
                name: name@,
                src_path: src_path@,
                metadata: meta_view(metadata),
                for_host: true,
                benched: false,
                tested: false,
                ..blank_view()
            }),
    {
        let b = Target::blank();
        Target {
            kind: TargetKind::CustomBuild,
            name: string_from(name),
            src_path: string_from(src_path),
            metadata,
            for_host: true,
            benched: false,
            tested: false,
            ..b
        }
    }

    /// An example target; not benchmarked.
    pub fn example_target(name: &str, src_path: &str) -> (r: Target)
        ensures
            r@ == (TargetView {
                kind: TargetKindView::Example,
                name: name@,
                src_path: src_path@,
                benched: false,
                ..blank_view()
            }),
    {
        let b = Target::blank();
        Target {
            kind: TargetKind::Example,
            name: string_from(name),
            src_path: string_from(src_path),
            benched: false,
            ..b
        }
    }

    /// A test target; not benchmarked.
    pub fn test_target(name: &str, src_path: &str, metadata: Metadata) -> (r: Target)
        ensures
            r@ == (TargetView {
                kind: TargetKindView::Test,
                name: name@,
                src_path: src_path@,
                metadata: meta_view(Some(metadata)),
                benched: false,
                ..blank_view()
            }),
    {
        let b = Target::blank();
        Target {
            kind: TargetKind::Test,
            name: string_from(name),
            src_path: string_from(src_path),
            metadata: Some(metadata),
            benched: false,
            ..b
        }
    }

    /// A benchmark target; not tested.
    pub fn bench_target(name: &str, src_path: &str, metadata: Metadata) -> (r: Target)
        ensures
            r@ == (TargetView {
                kind: TargetKindView::Bench,
                name: name@,
                src_path: src_path@,
                metadata: meta_view(Some(metadata)),
                tested: false,
                ..blank_view()
            }),
    {
        let b = Target::blank();
        Target {
            kind: TargetKind::Bench,
            name: string_from(name),
            src_path: string_from(src_path),
            metadata: Some(metadata),
            tested: false,
            ..b
        }
    }

    /// The name of the target.
    pub fn name(&self) -> (r: &str)
        ensures
            r@ == self@.name,
    {
        self.name.as_str()
    }

    /// The crate name: the target name with `-` replaced by `_`.
    pub fn crate_name(&self) -> (r: String)
        ensures
            r@ == underscored(self@.name),
    {
        let v = chars_of(self.name.as_str());
        let mut out: Vec<char> = Vec::new();
        let mut i: usize = 0;
        while i < v.len()
            invariant
                i <= v.len(),
                out@ == underscored(v@.subrange(0, i as int)),
            decreases v.len() - i,
        {
            out.push(if v[i] == '-' { '_' } else { v[i] });
            i = i + 1;
            assert(out@ =~= underscored(v@.subrange(0, i as int)));
        }
        assert(v@.subrange(0, v@.len() as int) =~= v@);
        string_of(&out)
    }

    /// The path of the target's main source file.
    pub fn src_path(&self) -> (r: &str)
        ensures
            r@ == self@.src_path,
    {
        self.src_path.as_str()
    }

    /// The output metadata, if any.
    pub fn metadata(&self) -> (r: Option<&Metadata>)
        ensures
            r is Some <==> self@.metadata is Some,
            r matches Some(m) ==> self@.metadata == Some((m.metadata@, m.extra_filename@)),
    {
        self.metadata.as_ref()
    }

    /// The kind of the target.
    pub fn kind(&self) -> (r: &TargetKind)
        ensures
            r@ == self@.kind,
    {
        &self.kind
    }

    /// Whether the target is tested.
    pub fn tested(&self) -> (r: bool)
        ensures
            r == self@.tested,
    {
        self.tested
    }

    /// Whether the target uses the test harness.
    pub fn harness(&self) -> (r: bool)
        ensures
            r == self@.harness,
    {
        self.harness
    }

    /// Whether the target is documented.
    pub fn documented(&self) -> (r: bool)
        ensures
            r == self@.doc,
    {
        self.doc
    }

    /// Whether the target is built for the host.
    pub fn for_host(&self) -> (r: bool)
        ensures
            r == self@.for_host,
    {
        self.for_host
    }

    /// Whether the target is benchmarked.
    pub fn benched(&self) -> (r: bool)
        ensures
            r == self@.benched,
    {
        self.benched
    }

    /// Whether the target is doc-tested: doc-testing is on and it is a
    /// library that builds an `rlib` or a `lib`.
    pub fn doctested(&self) -> (r: bool)
        ensures
            r == (self@.doctest && match self@.kind {
                TargetKindView::Lib(k) => doctestable_kinds(k),
                _ => false,
            }),
    {
        self.doctest && match &self.kind {
            TargetKind::Lib(kinds) => contains_kind(kinds, LibKind::Rlib) || contains_kind(
                kinds,
                LibKind::Lib,
            ),
            _ => false,
        }
    }

    /// Whether the target is a library that can be doc-tested: it builds
    /// an `rlib` or a `lib`.
    pub fn doctestable(&self) -> (r: bool)
        ensures
            r == match self@.kind {
                TargetKindView::Lib(k) => doctestable_kinds(k),
                _ => false,
            },
    {
        match &self.kind {
            TargetKind::Lib(kinds) => contains_kind(kinds, LibKind::Rlib) || contains_kind(kinds, LibKind::Lib),
            _ => false,
        }
    }

    /// Whether the target's name may contain underscores: binaries,
    /// examples and build scripts.
    pub fn allows_underscores(&self) -> (r: bool)
        ensures
            r == (self@.kind is Bin || self@.kind is Example || self@.kind is CustomBuild),
    {
        self.is_bin() || self.is_example() || self.is_custom_build()
    }

    /// Whether the target is a library.
    pub fn is_lib(&self) -> (r: bool)
        ensures
            r == self@.kind is Lib,
    {
        matches!(self.kind, TargetKind::Lib(_))
    }

    /// Whether the target is a library with a kind other crates can link:
    /// `lib`, `rlib` or `dylib`.
    pub fn linkable(&self) -> (r: bool)
        ensures
            r == match self@.kind {
                TargetKindView::Lib(k) => any_linkable_kind(k),
                _ => false,
            },
    {
        match &self.kind {
            TargetKind::Lib(kinds) => any_linkable(kinds),
            _ => false,
        }
    }

    /// Whether the target is a binary.
    pub fn is_bin(&self) -> (r: bool)
        ensures
            r == self@.kind is Bin,
    {
        matches!(self.kind, TargetKind::Bin)
    }

    /// Whether the target is an example.
    pub fn is_example(&self) -> (r: bool)
        ensures
            r == self@.kind is Example,
    {
        matches!(self.kind, TargetKind::Example)
    }

    /// Whether the target is a test.
    pub fn is_test(&self) -> (r: bool)
        ensures
            r == self@.kind is Test,
    {
        matches!(self.kind, TargetKind::Test)
    }

    /// Whether the target is a benchmark.
    pub fn is_bench(&self) -> (r: bool)
        ensures
            r == self@.kind is Bench,
    {
        matches!(self.kind, TargetKind::Bench)
    }

    /// Whether the target is a build script.
    pub fn is_custom_build(&self) -> (r: bool)
        ensures
            r == self@.kind is CustomBuild,
    {
        matches!(self.kind, TargetKind::CustomBuild)
    }

    /// Whether the target is a library that builds a `cdylib`.
    pub fn is_cdylib(&self) -> (r: bool)
        ensures
            r == match self@.kind {
                TargetKindView::Lib(k) => k.contains(LibKind::Cdylib),
                _ => false,
            },
    {
        match &self.kind {
            TargetKind::Lib(kinds) => contains_kind(kinds, LibKind::Cdylib),
            _ => false,
        }
    }

    /// The arguments for `--crate-type` to pass to rustc: the crate types of
    /// a library, `bin` for every other kind.
    pub fn rustc_crate_types(&self) -> (r: Vec<&'static str>)
        ensures
            match self@.kind {
                TargetKindView::Lib(k) => r@.len() == k.len() && forall|i: int|
                    0 <= i < k.len() ==> #[trigger] r@[i]@ == crate_type_text(k[i]),
                _ => r@.len() == 1 && r@[0]@ == "bin"@,
            },
    {
        match &self.kind {
            TargetKind::Lib(kinds) => crate_types(kinds),
            _ => vec!["bin"],
        }
    }

    /// Whether link-time optimization may be used: for a library only when
    /// it builds exactly a `staticlib`.
    pub fn can_lto(&self) -> (r: bool)
        ensures
            r == match self@.kind {
                TargetKindView::Lib(k) => k == seq![LibKind::StaticLib],
                _ => true,
            },
    {
        match &self.kind {
            TargetKind::Lib(v) => {
                if v.len() == 1 && v[0] == LibKind::StaticLib {
                    assert(v@ =~= seq![LibKind::StaticLib]);
                    true
                } else {
                    false
                }
            },
            _ => true,
        }
    }

    /// Sets whether the target is tested.
    pub fn set_tested(&mut self, tested: bool) -> (r: &mut Target)
        ensures
            r@ == (TargetView { tested, ..old(self)@ }),
            *final(self) == *final(r),
    {
        self.tested = tested;
        self
    }

    /// Sets whether the target is benchmarked.
    pub fn set_benched(&mut self, benched: bool) -> (r: &mut Target)
        ensures
            r@ == (TargetView { benched, ..old(self)@ }),
            *final(self) == *final(r),
    {
        self.benched = benched;
        self
    }

    /// Sets whether the target is doc-tested.
    pub fn set_doctest(&mut self, doctest: bool) -> (r: &mut Target)
        ensures
            r@ == (TargetView { doctest, ..old(self)@ }),
            *final(self) == *final(r),
    {
        self.doctest = doctest;
        self
    }

    /// Sets whether the target is built for the host.
    pub fn set_for_host(&mut self, for_host: bool) -> (r: &mut Target)
        ensures
            r@ == (TargetView { for_host, ..old(self)@ }),
            *final(self) == *final(r),
    {
        self.for_host = for_host;
        self
    }

    /// Sets whether the target uses the test harness.
    pub fn set_harness(&mut self, harness: bool) -> (r: &mut Target)
        ensures
            r@ == (TargetView { harness, ..old(self)@ }),
            *final(self) == *final(r),
    {
        self.harness = harness;
        self
    }

    /// Sets whether the target is documented.
    pub fn set_doc(&mut self, doc: bool) -> (r: &mut Target)
        ensures
            r@ == (TargetView { doc, ..old(self)@ }),
            *final(self) == *final(r),
    {
        self.doc = doc;
        self
    }

    /// A short description: `Target(lib)`, `Target(bin: name)`, ...
    pub fn to_string(&self) -> (r: String)
        ensures
            r@ == match self@.kind {
                TargetKindView::Lib(_) => "Target(lib)"@,
                TargetKindView::Bin => "Target(bin: "@ + self@.name + ")"@,
                TargetKindView::Test => "Target(test: "@ + self@.name + ")"@,
                TargetKindView::Bench => "Target(bench: "@ + self@.name + ")"@,
                TargetKindView::Example => "Target(example: "@ + self@.name + ")"@,
                TargetKindView::CustomBuild => "Target(script)"@,
            },
    {
        let mut out: Vec<char> = Vec::new();
        match &self.kind {
            TargetKind::Lib(_) => push_str(&mut out, "Target(lib)"),
            TargetKind::CustomBuild => push_str(&mut out, "Target(script)"),
            _ => {
                match &self.kind {
                    TargetKind::Bin => push_str(&mut out, "Target(bin: "),
                    TargetKind::Test => push_str(&mut out, "Target(test: "),
                    TargetKind::Bench => push_str(&mut out, "Target(bench: "),
                    _ => push_str(&mut out, "Target(example: "),
                }
                push_str(&mut out, self.name.as_str());
                push_str(&mut out, ")");
            },
        }
        string_of(&out)
    }
}

/// The compilation settings of one profile of a manifest.
#[derive(Debug, Clone, PartialEq, Eq)]
pub struct Profile {
    pub opt_level: u32,
    pub lto: bool,
    /// None = use rustc default
    pub codegen_units: Option<u32>,
    pub rustc_args: Option<Vec<String>>,
    pub rustdoc_args: Option<Vec<String>>,
    pub debuginfo: bool,
    pub debug_assertions: bool,
    pub rpath: bool,
    pub test: bool,
    pub doc: bool,
    pub run_custom_build: bool,
}

/// The flags of a profile, without its argument lists.
pub struct ProfileFlags {
    pub opt_level: u32,
    pub lto: bool,
    pub codegen_units: Option<u32>,
    pub debuginfo: bool,
    pub debug_assertions: bool,
    pub rpath: bool,
    pub test: bool,
    pub doc: bool,
    pub run_custom_build: bool,
}

/// The flags of a profile.
pub open spec fn flags(p: Profile) -> ProfileFlags {
    ProfileFlags {
        opt_level: p.opt_level,
        lto: p.lto,
        codegen_units: p.codegen_units,
        debuginfo: p.debuginfo,
        debug_assertions: p.debug_assertions,
        rpath: p.rpath,
        test: p.test,
        doc: p.doc,
        run_custom_build: p.run_custom_build,
    }
}

/// The flags of the default profile: everything off, level 0.
pub open spec fn default_flags() -> ProfileFlags {
    ProfileFlags {
        opt_level: 0,
        lto: false,
        codegen_units: None,
        debuginfo: false,
        debug_assertions: false,
        rpath: false,
        test: false,
        doc: false,
        run_custom_build: false,
    }
}

/// The flags of the dev profile: debug info and debug assertions on.
pub open spec fn dev_flags() -> ProfileFlags {
    ProfileFlags { debuginfo: true, debug_assertions: true, ..default_flags() }
}

/// The flags of the release profile: optimization level 3.
pub open spec fn release_flags() -> ProfileFlags {
    ProfileFlags { opt_level: 3, debuginfo: false, ..default_flags() }
}

impl Default for Profile {
    fn default() -> (r: Profile)
        ensures
            flags(r) == default_flags(),
            r.rustc_args is None,
            r.rustdoc_args is None,
    {
        Profile {
            opt_level: 0,
            lto: false,
            codegen_units: None,
            rustc_args: None,
            rustdoc_args: None,
            debuginfo: false,
            debug_assertions: false,
            rpath: false,
            test: false,
            doc: false,
            run_custom_build: false,
        }
    }
}

impl Profile {
    /// The default profile of `cargo build`.
    pub fn default_dev() -> (r: Profile)
        ensures
            flags(r) == dev_flags(),
            r.rustc_args is None,
            r.rustdoc_args is None,
    {
        Profile { debuginfo: true, debug_assertions: true, ..Profile::default() }
    }

    /// The default profile of `cargo build --release`.
    pub fn default_release() -> (r: Profile)
        ensures
            flags(r) == release_flags(),
            r.rustc_args is None,
            r.rustdoc_args is None,
    {
        Profile { opt_level: 3, debuginfo: false, ..Profile::default() }
    }

    /// The default profile of tests: the dev profile with `test` on.
    pub fn default_test() -> (r: Profile)
        ensures
            flags(r) == (ProfileFlags { test: true, ..dev_flags() }),
            r.rustc_args is None,
            r.rustdoc_args is None,
    {
        Profile { test: true, ..Profile::default_dev() }
    }

    /// The default profile of benchmarks: the release profile with `test`
    /// on.
    pub fn default_bench() -> (r: Profile)
        ensures
            flags(r) == (ProfileFlags { test: true, ..release_flags() }),
            r.rustc_args is None,
            r.rustdoc_args is None,
    {
        Profile { test: true, ..Profile::default_release() }
    }

    /// The default profile of documentation: the dev profile with `doc` on.
    pub fn default_doc() -> (r: Profile)
        ensures
            flags(r) == (ProfileFlags { doc: true, ..dev_flags() }),
            r.rustc_args is None,
            r.rustdoc_args is None,
    {
        Profile { doc: true, ..Profile::default_dev() }
    }

    /// The default profile of running build scripts: the dev profile with
    /// `run_custom_build` on.
    pub fn default_custom_build() -> (r: Profile)
        ensures
            flags(r) == (ProfileFlags { run_custom_build: true, ..dev_flags() }),
            r.rustc_args is None,
            r.rustdoc_args is None,
    {
        Profile { run_custom_build: true, ..Profile::default_dev() }
    }

    /// A short description: `Profile(test)`, `Profile(doc)`, `Profile(run)`
    /// or `Profile(build)`, by the first of `test`, `doc`,
    /// `run_custom_build` that is on.
    pub fn to_string(&self) -> (r: String)
        ensures
            r@ == if self.test {
                "Profile(test)"@
            } else if self.doc {
                "Profile(doc)"@
            } else if self.run_custom_build {
                "Profile(run)"@
            } else {
                "Profile(build)"@
            },
    {
        if self.test {
            string_from("Profile(test)")
        } else if self.doc {
            string_from("Profile(doc)")
        } else if self.run_custom_build {
            string_from("Profile(run)")
        } else {
            string_from("Profile(build)")
        }
    }
}

/// The profiles of a manifest, one per mode.
#[derive(Debug, Clone, Default)]
pub struct Profiles {
    pub release: Profile,
    pub dev: Profile,
    pub test: Profile,
    pub bench: Profile,
    pub doc: Profile,
    pub custom_build: Profile,
}

} // verus!
