//! Package summaries: a package id with its dependencies and features, and
//! the rules a summary must satisfy.
use vstd::prelude::*;
use crate::package_id_spec::{same_package, PackageId, PackageIdView};
use crate::source_id::SourceId;
use crate::text::{chars_of, split_once, split_once_chars, string_from, string_of, strs};

verus! {

/// A dependency as a summary sees it: its name, whether it is optional,
/// whether it is transitive (not a development dependency), and the
/// features it asks of the package it names.
#[derive(Debug, Clone)]
pub struct Dependency {
    pub name: String,
    pub optional: bool,
    pub transitive: bool,
    pub features: Vec<String>,
}

impl Dependency {
    /// The name of the dependency.
    pub fn name(&self) -> (r: &str)
        ensures
            r@ == self.name@,
    {
        self.name.as_str()
    }

    /// Whether the dependency is optional.
    pub fn is_optional(&self) -> (r: bool)
        ensures
            r == self.optional,
    {
        self.optional
    }

    /// Whether the dependency is needed by dependents (not a development
    /// dependency).
    pub fn is_transitive(&self) -> (r: bool)
        ensures
            r == self.transitive,
    {
        self.transitive
    }

    /// The features asked of the package the dependency names.
    pub fn features(&self) -> (r: &Vec<String>)
        ensures
            r@ == self.features@,
    {
        &self.features
    }

    /// A copy of the dependency.
    pub fn duplicate(&self) -> (r: Dependency)
        ensures
            r.name@ == self.name@,
            r.optional == self.optional,
            r.transitive == self.transitive,
            strs(r.features@) == strs(self.features@),
    {
        let mut fs: Vec<String> = Vec::new();
        let mut i: usize = 0;
        while i < self.features.len()
            invariant
                i <= self.features@.len(),
                strs(fs@) == strs(self.features@).take(i as int),
            decreases self.features.len() - i,
        {
            let ghost before = fs@;
            let x = self.features[i].clone();
            assert(x@ == self.features@[i as int]@);
            fs.push(x);
            assert(strs(fs@) =~= strs(before).push(self.features@[i as int]@));
            assert(strs(self.features@).take(i + 1) =~= strs(self.features@).take(i as int).push(self.features@[i as int]@));
            i = i + 1;
        }
        assert(strs(self.features@).take(self.features@.len() as int) =~= strs(self.features@));
        Dependency { name: self.name.clone(), optional: self.optional, transitive: self.transitive, features: fs }
    }
}

/// A package id with its dependencies and its features (each feature
/// with the names it enables), the most important information of a
/// manifest.
#[derive(Debug)]
pub struct Summary {
    package_id: PackageId,
    dependencies: Vec<Dependency>,
    features: Vec<(String, Vec<String>)>,
}

/// The mathematical value of a dependency: name, optional, transitive.
pub open spec fn dep_view(d: Dependency) -> (Seq<char>, bool, bool) {
    (d.name@, d.optional, d.transitive)
}

/// The views of the dependencies.
pub open spec fn deps_view(v: Seq<Dependency>) -> Seq<(Seq<char>, bool, bool)> {
    v.map_values(|d: Dependency| dep_view(d))
}

/// The views of the features.
pub open spec fn features_view(v: Seq<(String, Vec<String>)>) -> Seq<(Seq<char>, Seq<Seq<char>>)> {
    v.map_values(|f: (String, Vec<String>)| (f.0@, strs(f.1@)))
}

/// The mathematical value of a `Summary`.
pub struct SummaryView {
    pub package_id: PackageIdView,
    pub dependencies: Seq<(Seq<char>, bool, bool)>,
    pub features: Seq<(Seq<char>, Seq<Seq<char>>)>,
}

impl View for Summary {
    type V = SummaryView;

    closed spec fn view(&self) -> SummaryView {
        SummaryView {
            package_id: self.package_id@,
            dependencies: deps_view(self.dependencies@),
            features: features_view(self.features@),
        }
    }
}

/// Why the parts do not make a summary.
#[derive(Debug)]
pub enum SummaryError {
    /// A feature and a dependency have the same name.
    SameName(String),
    /// A development dependency is optional.
    OptionalDevDependency(String),
    /// A feature enables a dependency that is not optional.
    NotOptional { feature: String, dep: String },
    /// A feature enables a feature of a package that is not a dependency.
    NotADependency { feature: String, dep: String },
    /// A feature names something that is neither a dependency nor a
    /// feature.
    Unknown { feature: String, dep: String },
}

/// The mathematical value of a `SummaryError`.
pub enum SummaryErrorView {
    SameName(Seq<char>),
    OptionalDevDependency(Seq<char>),
    NotOptional(Seq<char>, Seq<char>),
    NotADependency(Seq<char>, Seq<char>),
    Unknown(Seq<char>, Seq<char>),
}

impl View for SummaryError {
    type V = SummaryErrorView;

    open spec fn view(&self) -> SummaryErrorView {
        match self {
            SummaryError::SameName(s) => SummaryErrorView::SameName(s@),
            SummaryError::OptionalDevDependency(s) => SummaryErrorView::OptionalDevDependency(s@),
            SummaryError::NotOptional { feature, dep } => SummaryErrorView::NotOptional(feature@, dep@),
            SummaryError::NotADependency { feature, dep } => SummaryErrorView::NotADependency(
                feature@,
                dep@,
            ),
            SummaryError::Unknown { feature, dep } => SummaryErrorView::Unknown(feature@, dep@),
        }
    }
}

/// Whether a feature has the name.
pub open spec fn has_feature(fs: Seq<(Seq<char>, Seq<Seq<char>>)>, name: Seq<char>) -> bool {
    exists|i: int| 0 <= i < fs.len() && (#[trigger] fs[i]).0 == name
}

/// The first dependency with the name, if any.
pub open spec fn first_dep(ds: Seq<(Seq<char>, bool, bool)>, name: Seq<char>) -> Option<int>
    decreases ds.len(),
{
    if ds.len() == 0 {
        None
    } else {
        match first_dep(ds.drop_last(), name) {
            Some(i) => Some(i),
            None => if ds.last().0 == name {
                Some(ds.len() - 1)
            } else {
                None
            },
        }
    }
}

/// What is wrong with one dependency, if anything: a feature with its name,
/// or being an optional development dependency.
pub open spec fn dep_error(
    d: (Seq<char>, bool, bool),
    fs: Seq<(Seq<char>, Seq<Seq<char>>)>,
) -> Option<SummaryErrorView> {
    if has_feature(fs, d.0) {
        Some(SummaryErrorView::SameName(d.0))
    } else if d.1 && !d.2 {
        Some(SummaryErrorView::OptionalDevDependency(d.0))
    } else {
        None
    }
}

/// The error of the first dependency that has one, among the first `n`.
pub open spec fn deps_error(
    ds: Seq<(Seq<char>, bool, bool)>,
    fs: Seq<(Seq<char>, Seq<Seq<char>>)>,
    n: nat,
) -> Option<SummaryErrorView>
    decreases n,
{
    if n == 0 {
        None
    } else {
        match deps_error(ds, fs, (n - 1) as nat) {
            Some(e) => Some(e),
            None => dep_error(ds[n - 1], fs),
        }
    }
}

/// What is wrong with one entry of a feature, if anything. An entry is a
/// feature, a dependency (which must be optional), or `dep/feature` (which
/// needs the dependency).
pub open spec fn entry_error(
    feature: Seq<char>,
    entry: Seq<char>,
    ds: Seq<(Seq<char>, bool, bool)>,
    fs: Seq<(Seq<char>, Seq<Seq<char>>)>,
) -> Option<SummaryErrorView> {
    let (dep, rest) = split_once(entry, '/');
    let reexport = rest is Some;
    if !reexport && has_feature(fs, dep) {
        None
    } else {
        match first_dep(ds, dep) {
            Some(k) => if ds[k].1 || reexport {
                None
            } else {
                Some(SummaryErrorView::NotOptional(feature, dep))
            },
            None => if reexport {
                Some(SummaryErrorView::NotADependency(feature, dep))
            } else {
                Some(SummaryErrorView::Unknown(feature, dep))
            },
        }
    }
}

/// The error of the first entry of a feature that has one, among the first
/// `n`.
pub open spec fn entries_error(
    feature: Seq<char>,
    entries: Seq<Seq<char>>,
    ds: Seq<(Seq<char>, bool, bool)>,
    fs: Seq<(Seq<char>, Seq<Seq<char>>)>,
    n: nat,
) -> Option<SummaryErrorView>
    decreases n,
{
    if n == 0 {
        None
    } else {
        match entries_error(feature, entries, ds, fs, (n - 1) as nat) {
            Some(e) => Some(e),
            None => entry_error(feature, entries[n - 1], ds, fs),
        }
    }
}

/// The error of the first feature that has one, among the first `n`.
pub open spec fn features_error(
    ds: Seq<(Seq<char>, bool, bool)>,
    fs: Seq<(Seq<char>, Seq<Seq<char>>)>,
    n: nat,
) -> Option<SummaryErrorView>
    decreases n,
{
    if n == 0 {
        None
    } else {
        match features_error(ds, fs, (n - 1) as nat) {
            Some(e) => Some(e),
            None => entries_error(fs[n - 1].0, fs[n - 1].1, ds, fs, fs[n - 1].1.len()),
        }
    }
}

/// What is wrong with the parts of a summary, if anything: first the
/// dependencies in order, then the features in order.
pub open spec fn summary_error(ds: Seq<(Seq<char>, bool, bool)>, fs: Seq<(Seq<char>, Seq<Seq<char>>)>) -> Option<SummaryErrorView> {
    match deps_error(ds, fs, ds.len()) {
        Some(e) => Some(e),
        None => features_error(ds, fs, fs.len()),
    }
}

/// Whether the features have distinct names, as the keys of a map do.
pub open spec fn feature_names_distinct(fs: Seq<(Seq<char>, Seq<Seq<char>>)>) -> bool {
    forall|i: int, j: int| 0 <= i < fs.len() && 0 <= j < fs.len() && (#[trigger] fs[i]).0 == (#[trigger] fs[j]).0 ==> i == j
}

/// Whether a feature has the name.
fn feature_named(features: &Vec<(String, Vec<String>)>, name: &String) -> (r: bool)
    ensures
        r == has_feature(features_view(features@), name@),
{
    let ghost fv = features_view(features@);
    let mut i: usize = 0;
    while i < features.len()
        invariant
            i <= features@.len(),
            fv == features_view(features@),
            forall|j: int| 0 <= j < i ==> (#[trigger] fv[j]).0 != name@,
        decreases features.len() - i,
    {
        assert(fv[i as int].0 == features@[i as int].0@);
        if features[i].0.eq(name) {
            return true;
        }
        i = i + 1;
    }
    false
}

/// The index of the first dependency with the name.
fn find_dep(deps: &Vec<Dependency>, name: &String) -> (r: Option<usize>)
    ensures
        r matches Some(k) ==> k < deps@.len() && first_dep(deps_view(deps@), name@) == Some(k as int),
        r is None ==> first_dep(deps_view(deps@), name@) is None,
{
    let ghost dv = deps_view(deps@);
    let mut i: usize = 0;
    while i < deps.len()
        invariant
            i <= deps@.len(),
            dv == deps_view(deps@),
            first_dep(dv.take(i as int), name@) is None,
        decreases deps.len() - i,
    {
        assert(dv.take(i + 1).drop_last() =~= dv.take(i as int));
        assert(dv[i as int].0 == deps@[i as int].name@);
        if deps[i].name.eq(name) {
            proof {
                lemma_first_dep_prefix(dv, name@, (i + 1) as nat);
            }
            return Some(i);
        }
        i = i + 1;
    }
    assert(dv.take(deps@.len() as int) =~= dv);
    None
}

/// Once the first `n` dependencies hold the name, the first of them with
/// it is the first of all.
proof fn lemma_first_dep_prefix(ds: Seq<(Seq<char>, bool, bool)>, name: Seq<char>, n: nat)
    requires
        n <= ds.len(),
        first_dep(ds.take(n as int), name) is Some,
    ensures
        first_dep(ds, name) == first_dep(ds.take(n as int), name),
    decreases ds.len() - n,
{
    if n < ds.len() {
        assert(ds.take(n + 1int).drop_last() =~= ds.take(n as int));
        lemma_first_dep_prefix(ds, name, n + 1);
    } else {
        assert(ds.take(n as int) =~= ds);
    }
}

/// Once a dependency has an error, the error of the first dependencies is
/// that of all.
proof fn lemma_deps_error_stays(
    ds: Seq<(Seq<char>, bool, bool)>,
    fs: Seq<(Seq<char>, Seq<Seq<char>>)>,
    n: nat,
    m: nat,
)
    requires
        n <= m,
        deps_error(ds, fs, n) is Some,
    ensures
        deps_error(ds, fs, m) == deps_error(ds, fs, n),
    decreases m - n,
{
    if n < m {
        lemma_deps_error_stays(ds, fs, n, (m - 1) as nat);
    }
}

/// Once an entry has an error, the error of the first entries is that of
/// all.
proof fn lemma_entries_error_stays(
    f: Seq<char>,
    es: Seq<Seq<char>>,
    ds: Seq<(Seq<char>, bool, bool)>,
    fs: Seq<(Seq<char>, Seq<Seq<char>>)>,
    n: nat,
    m: nat,
)
    requires
        n <= m,
        entries_error(f, es, ds, fs, n) is Some,
    ensures
        entries_error(f, es, ds, fs, m) == entries_error(f, es, ds, fs, n),
    decreases m - n,
{
    if n < m {
        lemma_entries_error_stays(f, es, ds, fs, n, (m - 1) as nat);
    }
}

/// Once a feature has an error, the error of the first features is that
/// of all.
proof fn lemma_features_error_stays(
    ds: Seq<(Seq<char>, bool, bool)>,
    fs: Seq<(Seq<char>, Seq<Seq<char>>)>,
    n: nat,
    m: nat,
)
    requires
        n <= m,
        features_error(ds, fs, n) is Some,
    ensures
        features_error(ds, fs, m) == features_error(ds, fs, n),
    decreases m - n,
{
    if n < m {
        lemma_features_error_stays(ds, fs, n, (m - 1) as nat);
    }
}

/// The error of one entry of a feature, if any.
fn check_entry(
    feature: &String,
    entry: &String,
    deps: &Vec<Dependency>,
    features: &Vec<(String, Vec<String>)>,
) -> (r: Option<SummaryError>)
    ensures
        match entry_error(feature@, entry@, deps_view(deps@), features_view(features@)) {
            Some(e) => r matches Some(x) && x@ == e,
            None => r is None,
        },
{
    let (dep_chars, rest) = split_once_chars(&chars_of(entry.as_str()), '/');
    let dep = string_of(&dep_chars);
    let reexport = rest.is_some();
    if !reexport && feature_named(features, &dep) {
        return None;
    }
    match find_dep(deps, &dep) {
        Some(k) => {
            assert(deps_view(deps@)[k as int].1 == deps@[k as int].optional);
            if deps[k].optional || reexport {
                None
            } else {
                Some(SummaryError::NotOptional { feature: feature.clone(), dep })
            }
        },
        None => if reexport {
            Some(SummaryError::NotADependency { feature: feature.clone(), dep })
        } else {
            Some(SummaryError::Unknown { feature: feature.clone(), dep })
        },
    }
}

impl Summary {
    /// The dependencies, as given.
    pub closed spec fn dep_list(&self) -> Seq<Dependency> {
        self.dependencies@
    }

    /// A summary of the package, its dependencies and its features (each
/// feature named once, as the keys of a map are); an
    /// error when a feature and a dependency share a name, a development
    /// dependency is optional, or a feature names something it may not
    /// (see `summary_error`).
    pub fn new(pkg_id: PackageId, dependencies: Vec<Dependency>, features: Vec<(String, Vec<String>)>) -> (r: Result<Summary, SummaryError>)
        requires
            feature_names_distinct(features_view(features@)),
        ensures
            match summary_error(deps_view(dependencies@), features_view(features@)) {
                Some(e) => r matches Err(x) && x@ == e,
                None => r matches Ok(s) && s@ == (SummaryView {
                    package_id: pkg_id@,
                    dependencies: deps_view(dependencies@),
                    features: features_view(features@),
                }),
            },
            r matches Ok(s) ==> s.dep_list() == dependencies@,
    {
        let ghost dv = deps_view(dependencies@);
        let ghost fv = features_view(features@);
        let mut i: usize = 0;
        while i < dependencies.len()
            invariant
                i <= dependencies@.len(),
                dv == deps_view(dependencies@),
                fv == features_view(features@),
                deps_error(dv, fv, i as nat) is None,
            decreases dependencies.len() - i,
        {
            let d = &dependencies[i];
            assert(dv[i as int] == dep_view(*d));
            if feature_named(&features, &d.name) {
                proof {
                    lemma_deps_error_stays(dv, fv, (i + 1) as nat, dv.len());
                }
                return Err(SummaryError::SameName(d.name.clone()));
            }
            if d.optional && !d.transitive {
                proof {
                    lemma_deps_error_stays(dv, fv, (i + 1) as nat, dv.len());
                }
                return Err(SummaryError::OptionalDevDependency(d.name.clone()));
            }
            i = i + 1;
        }
        let mut f: usize = 0;
        while f < features.len()
            invariant
                f <= features@.len(),
                dv == deps_view(dependencies@),
                fv == features_view(features@),
                deps_error(dv, fv, dv.len()) is None,
                features_error(dv, fv, f as nat) is None,
            decreases features.len() - f,
        {
            let name = &features[f].0;
            let entries = &features[f].1;
            assert(fv[f as int] == (name@, strs(entries@)));
            let mut j: usize = 0;
            while j < entries.len()
                invariant
                    j <= entries@.len(),
                    f < features@.len(),
                    dv == deps_view(dependencies@),
                    fv == features_view(features@),
                    deps_error(dv, fv, dv.len()) is None,
                    features_error(dv, fv, f as nat) is None,
                    fv[f as int] == (name@, strs(entries@)),
                    entries_error(name@, strs(entries@), dv, fv, j as nat) is None,
                decreases entries.len() - j,
            {
                assert(strs(entries@)[j as int] == entries@[j as int]@);
                match check_entry(name, &entries[j], &dependencies, &features) {
                    Some(e) => {
                        proof {
                            lemma_entries_error_stays(
                                name@,
                                strs(entries@),
                                dv,
                                fv,
                                (j + 1) as nat,
                                strs(entries@).len(),
                            );
                            lemma_features_error_stays(dv, fv, (f + 1) as nat, fv.len());
                        }
                        return Err(e);
                    },
                    None => {},
                }
                j = j + 1;
            }
            f = f + 1;
        }
        Ok(Summary { package_id: pkg_id, dependencies, features })
    }

    /// The package id.
    pub fn package_id(&self) -> (r: &PackageId)
        ensures
            r@ == self@.package_id,
    {
        &self.package_id
    }

    /// The source of the package.
    pub fn source_id(&self) -> (r: &SourceId)
        ensures
            r@ == self@.package_id.source_id,
    {
        self.package_id.source_id()
    }

    /// The name of the package.
    pub fn name(&self) -> (r: &str)
        ensures
            r@ == self@.package_id.name,
    {
        self.package_id.name()
    }

    /// The dependencies.
    pub fn dependencies(&self) -> (r: &Vec<Dependency>)
        ensures
            deps_view(r@) == self@.dependencies,
            r@ == self.dep_list(),
    {
        &self.dependencies
    }

    /// The features, each with the names it enables.
    pub fn features(&self) -> (r: &Vec<(String, Vec<String>)>)
        ensures
            features_view(r@) == self@.features,
    {
        &self.features
    }

    /// The same summary for another package id.
    pub fn override_id(self, id: PackageId) -> (r: Summary)
        ensures
            r@ == (SummaryView { package_id: id@, ..self@ }),
            r.dep_list() == self.dep_list(),
    {
        Summary { package_id: id, dependencies: self.dependencies, features: self.features }
    }

    /// The same summary with each dependency replaced by what `f` makes of
    /// it.
    pub fn map_dependencies<F: Fn(Dependency) -> Dependency>(self, f: F) -> (r: Summary)
        requires
            forall|i: int| 0 <= i < self.dep_list().len() ==> f.requires((self.dep_list()[i],)),
        ensures
            r@.package_id == self@.package_id,
            r@.features == self@.features,
            r.dep_list().len() == self.dep_list().len(),
            forall|i: int|
                0 <= i < self.dep_list().len() ==> f.ensures((self.dep_list()[i],), #[trigger] r.dep_list()[i]),
    {
        let ghost sd = self.dep_list();
        let Summary { package_id, dependencies, features } = self;
        let ghost old_deps = dependencies@;
        assert(old_deps == sd);
        let mut out: Vec<Dependency> = Vec::new();
        let mut rest = dependencies;
        while rest.len() > 0
            invariant
                out@.len() + rest@.len() == old_deps.len(),
                rest@ == old_deps.subrange(out@.len() as int, old_deps.len() as int),
                forall|i: int| 0 <= i < old_deps.len() ==> f.requires((old_deps[i],)),
                forall|i: int|
                    0 <= i < out@.len() ==> f.ensures((old_deps[i],), #[trigger] out@[i]),
            decreases rest.len(),
        {
            let d = rest.remove(0);
            let ghost idx = out@.len();
            assert(d == old_deps[idx as int]);
            let nd = f(d);
            out.push(nd);
            assert(rest@ =~= old_deps.subrange(out@.len() as int, old_deps.len() as int));
        }
        Summary { package_id, dependencies: out, features }
    }
}

impl PartialEq for Summary {
    fn eq(&self, other: &Summary) -> (r: bool) {
        self.package_id.same(&other.package_id)
    }
}

impl vstd::std_specs::cmp::PartialEqSpecImpl for Summary {
    open spec fn obeys_eq_spec() -> bool {
        true
    }

    open spec fn eq_spec(&self, other: &Summary) -> bool {
        same_package(self@.package_id, other@.package_id)
    }
}

/// The names of the packages of a list of summaries.
pub trait SummaryVec {
    /// The names of the packages, in order.
    spec fn package_names(&self) -> Seq<Seq<char>>;

    /// The names, in order.
    fn names(&self) -> (r: Vec<String>)
        ensures
            strs(r@) == self.package_names(),
    ;
}

impl SummaryVec for Vec<Summary> {
    open spec fn package_names(&self) -> Seq<Seq<char>> {
        self@.map_values(|s: Summary| s@.package_id.name)
    }

    fn names(&self) -> (r: Vec<String>) {
        let mut out: Vec<String> = Vec::new();
        let mut i: usize = 0;
        while i < self.len()
            invariant
                i <= self@.len(),
                out@.len() == i,
                forall|k: int| 0 <= k < i ==> (#[trigger] out@[k])@ == self@[k]@.package_id.name,
            decreases self.len() - i,
        {
            out.push(string_from(self[i].name()));
            i = i + 1;
        }
        assert(strs(out@) =~= self.package_names());
        out
    }
}

} // verus!
