//! The state the resolver keeps while activating packages: which package
//! is active for each semver-compatible line of a crate, which features are
//! enabled, and the features and dependencies that a requested set of
//! features brings in.
use vstd::prelude::*;
use crate::package_id_spec::{same_package, PackageId, PackageIdView, Version, VersionView};
use crate::source_id::{same_source, SourceId, SourceIdView};
use crate::summary::{features_view, has_feature, Dependency, Summary, SummaryView};
use crate::text::{clone_opt_string, copy_strings, find, find_char, opt_str};
use crate::text::{chars_of, split_once, split_once_chars, string_from, string_of, strs};

verus! {

/// When two versions are treated as compatible: they agree on their
/// left-most non-zero part. `Major` and `Minor` hold a non-zero number.
#[derive(Clone, Copy, Debug, PartialEq, Eq, Structural)]
pub enum SemverCompatibility {
    Major(u64),
    Minor(u64),
    Patch(u64),
}

/// The compatibility line of a version.
pub open spec fn compatibility_of(v: VersionView) -> SemverCompatibility {
    if v.major != 0 {
        SemverCompatibility::Major(v.major)
    } else if v.minor != 0 {
        SemverCompatibility::Minor(v.minor)
    } else {
        SemverCompatibility::Patch(v.patch)
    }
}

impl SemverCompatibility {
    /// The compatibility line of a version (see `compatibility_of`).
    pub fn from_version(ver: &Version) -> (r: SemverCompatibility)
        ensures
            r == compatibility_of(ver@),
    {
        if ver.major != 0 {
            SemverCompatibility::Major(ver.major)
        } else if ver.minor != 0 {
            SemverCompatibility::Minor(ver.minor)
        } else {
            SemverCompatibility::Patch(ver.patch)
        }
    }
}

impl<'a> From<&'a Version> for SemverCompatibility {
    fn from(ver: &'a Version) -> (r: SemverCompatibility) {
        SemverCompatibility::from_version(ver)
    }
}

impl<'a> vstd::std_specs::convert::FromSpecImpl<&'a Version> for SemverCompatibility {
    open spec fn obeys_from_spec() -> bool {
        true
    }

    open spec fn from_spec(ver: &'a Version) -> SemverCompatibility {
        compatibility_of(ver@)
    }
}

/// The key under which a package is activated: its name, its source and
/// its compatibility line.
pub open spec fn activation_key(p: PackageIdView) -> (Seq<char>, SourceIdView, SemverCompatibility) {
    (p.name, p.source_id, compatibility_of(p.version))
}

/// Whether two packages have the same activation key (the sources compared
/// as source ids are).
pub open spec fn same_key(a: PackageIdView, b: PackageIdView) -> bool {
    &&& a.name == b.name
    &&& same_source(a.source_id, b.source_id)
    &&& compatibility_of(a.version) == compatibility_of(b.version)
}

impl PackageId {
    /// The activation key of the package (see `activation_key`).
    pub fn as_activations_key(&self) -> (r: (String, SourceId, SemverCompatibility))
        ensures
            (r.0@, r.1@, r.2) == activation_key(self@),
    {
        (string_from(self.name.as_str()), self.source_id.duplicate(), SemverCompatibility::from_version(&self.version))
    }
}

/// What a name in a feature list stands for: another feature, an optional
/// dependency, or a feature of a dependency (`dep/feature`).
#[derive(Debug)]
pub enum FeatureValue {
    Feature(String),
    Crate(String),
    CrateFeature(String, String),
}

/// The mathematical value of a `FeatureValue`.
pub enum FeatureValueView {
    Feature(Seq<char>),
    Crate(Seq<char>),
    CrateFeature(Seq<char>, Seq<char>),
}

impl View for FeatureValue {
    type V = FeatureValueView;

    open spec fn view(&self) -> FeatureValueView {
        match self {
            FeatureValue::Feature(f) => FeatureValueView::Feature(f@),
            FeatureValue::Crate(d) => FeatureValueView::Crate(d@),
            FeatureValue::CrateFeature(d, f) => FeatureValueView::CrateFeature(d@, f@),
        }
    }
}

/// What a name stands for among the features `fs`: with a slash, the
/// feature after the first slash of the dependency before it; otherwise a
/// feature when one has the name, else a dependency.
pub open spec fn feature_value(fs: Seq<(Seq<char>, Seq<Seq<char>>)>, name: Seq<char>) -> FeatureValueView {
    match split_once(name, '/') {
        (dep, Some(feat)) => FeatureValueView::CrateFeature(dep, feat),
        (_, None) => if has_feature(fs, name) {
            FeatureValueView::Feature(name)
        } else {
            FeatureValueView::Crate(name)
        },
    }
}

/// Whether the summary has a feature of the name.
fn summary_has_feature(s: &Summary, name: &str) -> (r: bool)
    ensures
        r == has_feature(s@.features, name@),
{
    let fs = s.features();
    let n = string_from(name);
    let ghost fv = features_view(fs@);
    let mut i: usize = 0;
    while i < fs.len()
        invariant
            i <= fs@.len(),
            fv == features_view(fs@),
            fv == s@.features,
            n@ == name@,
            forall|j: int| 0 <= j < i ==> (#[trigger] fv[j]).0 != name@,
        decreases fs.len() - i,
    {
        assert(fv[i as int].0 == fs@[i as int].0@);
        if fs[i].0.eq(&n) {
            assert(fv[i as int].0 == name@);
            return true;
        }
        i = i + 1;
    }
    false
}

impl FeatureValue {
    /// What the name stands for among the features of the summary (see
    /// `feature_value`).
    pub fn new(feature: &str, s: &Summary) -> (r: FeatureValue)
        ensures
            r@ == feature_value(s@.features, feature@),
    {
        let cs = chars_of(feature);
        let (dep, rest) = split_once_chars(&cs, '/');
        match rest {
            Some(f) => FeatureValue::CrateFeature(string_of(&dep), string_of(&f)),
            None => if summary_has_feature(s, feature) {
                FeatureValue::Feature(string_from(feature))
            } else {
                FeatureValue::Crate(string_from(feature))
            },
        }
    }
}


/// Why the features asked of a package cannot be enabled. `parent` is the
/// package whose dependency asked, if any; `package` the one asked.
#[derive(Debug)]
pub enum FeatureError {
    /// A feature lists itself.
    Cycle(String),
    /// A dependency that is not optional is named as a feature.
    RequiredDependencyAsFeature { parent: Option<PackageId>, package: PackageId, dep: String },
    /// A feature asked of a dependency holds a slash.
    SlashInFeature(String),
    /// Names asked for that are neither features nor dependencies.
    MissingFeatures { parent: Option<PackageId>, package: PackageId, names: Vec<String> },
}

/// The mathematical value of a `FeatureError`.
pub enum FeatureErrorView {
    Cycle(Seq<char>),
    RequiredDependencyAsFeature(Option<PackageIdView>, PackageIdView, Seq<char>),
    SlashInFeature(Seq<char>),
    MissingFeatures(Option<PackageIdView>, PackageIdView, Seq<Seq<char>>),
}

/// The view of an optional package id.
pub open spec fn opt_id(p: Option<PackageId>) -> Option<PackageIdView> {
    match p {
        Some(x) => Some(x@),
        None => None,
    }
}

impl View for FeatureError {
    type V = FeatureErrorView;

    open spec fn view(&self) -> FeatureErrorView {
        match self {
            FeatureError::Cycle(f) => FeatureErrorView::Cycle(f@),
            FeatureError::RequiredDependencyAsFeature { parent, package, dep } => FeatureErrorView::RequiredDependencyAsFeature(
                opt_id(*parent),
                package@,
                dep@,
            ),
            FeatureError::SlashInFeature(f) => FeatureErrorView::SlashInFeature(f@),
            FeatureError::MissingFeatures { parent, package, names } => FeatureErrorView::MissingFeatures(
                opt_id(*parent),
                package@,
                strs(names@),
            ),
        }
    }
}

/// The position of the first feature with the name, if any.
pub open spec fn feature_index(fs: Seq<(Seq<char>, Seq<Seq<char>>)>, name: Seq<char>) -> Option<int>
    decreases fs.len(),
{
    if fs.len() == 0 {
        None
    } else {
        match feature_index(fs.drop_last(), name) {
            Some(i) => Some(i),
            None => if fs.last().0 == name {
                Some(fs.len() - 1)
            } else {
                None
            },
        }
    }
}

/// The names a feature enables (those of the first feature with the name).
pub open spec fn feature_entries(fs: Seq<(Seq<char>, Seq<Seq<char>>)>, name: Seq<char>) -> Seq<Seq<char>> {
    match feature_index(fs, name) {
        Some(i) => fs[i].1,
        None => Seq::empty(),
    }
}

/// The names of the features.
pub open spec fn feature_names(fs: Seq<(Seq<char>, Seq<Seq<char>>)>) -> Seq<Seq<char>> {
    fs.map_values(|e: (Seq<char>, Seq<Seq<char>>)| e.0)
}

/// How many features have not been visited yet.
pub open spec fn unvisited(fs: Seq<(Seq<char>, Seq<Seq<char>>)>, visited: Set<Seq<char>>) -> nat {
    feature_names(fs).to_set().difference(visited).len()
}

/// What has been asked of a package so far: for each dependency (in the
/// order first asked for), whether it was asked for itself and the
/// features asked of it; the names used (features and dependencies); the
/// features and dependencies already visited.
#[verifier::ext_equal]
pub struct ReqState {
    pub deps: Seq<(Seq<char>, bool, Seq<Seq<char>>)>,
    pub used: Set<Seq<char>>,
    pub visited: Set<Seq<char>>,
}

/// Nothing asked yet.
pub open spec fn empty_reqs() -> ReqState {
    ReqState { deps: Seq::empty(), used: Set::empty(), visited: Set::empty() }
}

/// The position of the dependency's entry, if any.
pub open spec fn dep_index(deps: Seq<(Seq<char>, bool, Seq<Seq<char>>)>, name: Seq<char>) -> Option<int>
    decreases deps.len(),
{
    if deps.len() == 0 {
        None
    } else {
        match dep_index(deps.drop_last(), name) {
            Some(i) => Some(i),
            None => if deps.last().0 == name {
                Some(deps.len() - 1)
            } else {
                None
            },
        }
    }
}

/// A feature of a dependency asked for: the dependency's name is used and
/// the feature is added to those asked of it.
pub open spec fn with_crate_feature(st: ReqState, pkg: Seq<char>, feat: Seq<char>) -> ReqState {
    ReqState {
        used: st.used.insert(pkg),
        deps: match dep_index(st.deps, pkg) {
            Some(i) => st.deps.update(i, (pkg, st.deps[i].1, st.deps[i].2.push(feat))),
            None => st.deps.push((pkg, false, seq![feat])),
        },
        ..st
    }
}

/// A name visited for the first time: visited and used.
pub open spec fn mark_seen(st: ReqState, name: Seq<char>) -> ReqState {
    ReqState { visited: st.visited.insert(name), used: st.used.insert(name), ..st }
}

/// A dependency asked for itself; nothing changes when its name was
/// visited before.
pub open spec fn with_dependency(st: ReqState, pkg: Seq<char>) -> ReqState {
    if st.visited.contains(pkg) {
        st
    } else {
        let s1 = mark_seen(st, pkg);
        ReqState {
            deps: match dep_index(s1.deps, pkg) {
                Some(i) => s1.deps.update(i, (pkg, true, s1.deps[i].2)),
                None => s1.deps.push((pkg, true, Seq::empty())),
            },
            ..s1
        }
    }
}

/// A feature asked for: nothing for an empty name or one visited before;
/// otherwise it is visited and each name it enables is asked for in turn
/// (see `req_entries`). `n` bounds the depth and is never the limit when
/// it exceeds the number of unvisited features.
pub open spec fn req_feature(fs: Seq<(Seq<char>, Seq<Seq<char>>)>, n: nat, st: ReqState, f: Seq<char>) -> Result<ReqState, Seq<char>>
    decreases n, 0nat, 0nat,
{
    if f.len() == 0 || st.visited.contains(f) {
        Ok(st)
    } else if n == 0 {
        Ok(st)
    } else {
        req_entries(fs, (n - 1) as nat, mark_seen(st, f), f, feature_entries(fs, f), 0)
    }
}

/// A feature value asked for: a feature, a dependency, or a feature of a
/// dependency.
pub open spec fn req_value(fs: Seq<(Seq<char>, Seq<Seq<char>>)>, n: nat, st: ReqState, v: FeatureValueView) -> Result<ReqState, Seq<char>>
    decreases n, 1nat, 0nat,
{
    match v {
        FeatureValueView::Feature(f) => req_feature(fs, n, st, f),
        FeatureValueView::Crate(d) => Ok(with_dependency(st, d)),
        FeatureValueView::CrateFeature(d, f) => Ok(with_crate_feature(st, d, f)),
    }
}

/// The names a feature enables, from the `i`-th on, asked for in order;
/// an error, naming the feature, at the first one that is the feature
/// itself.
pub open spec fn req_entries(
    fs: Seq<(Seq<char>, Seq<Seq<char>>)>,
    n: nat,
    st: ReqState,
    owner: Seq<char>,
    es: Seq<Seq<char>>,
    i: nat,
) -> Result<ReqState, Seq<char>>
    decreases n, 2nat, es.len() - i,
{
    if i >= es.len() {
        Ok(st)
    } else {
        let v = feature_value(fs, es[i as int]);
        if v == FeatureValueView::Feature(owner) {
            Err(owner)
        } else {
            match req_value(fs, n, st, v) {
                Err(e) => Err(e),
                Ok(s2) => req_entries(fs, n, s2, owner, es, i + 1),
            }
        }
    }
}

/// The views of the dependency entries.
pub open spec fn dep_reqs_view(v: Seq<(String, bool, Vec<String>)>) -> Seq<(Seq<char>, bool, Seq<Seq<char>>)> {
    v.map_values(|d: (String, bool, Vec<String>)| (d.0@, d.1, strs(d.2@)))
}

/// The features and dependencies asked of a package, gathered from the
/// features that are requested.
pub struct Requirements<'a> {
    summary: &'a Summary,
    deps: Vec<(String, bool, Vec<String>)>,
    used: Vec<String>,
    visited: Vec<String>,
}

impl<'a> View for Requirements<'a> {
    type V = ReqState;

    closed spec fn view(&self) -> ReqState {
        ReqState {
            deps: dep_reqs_view(self.deps@),
            used: strs(self.used@).to_set(),
            visited: strs(self.visited@).to_set(),
        }
    }
}

/// Pushing onto a sequence adds the element to its set.
proof fn lemma_push_to_set<A>(s: Seq<A>, a: A)
    ensures
        s.push(a).to_set() == s.to_set().insert(a),
{
    assert forall|b: A| s.push(a).to_set().contains(b) == s.to_set().insert(a).contains(b) by {
        if s.contains(b) {
            let k = choose|k: int| 0 <= k < s.len() && s[k] == b;
            assert(s.push(a)[k] == b);
        }
        if b == a {
            assert(s.push(a)[s.len() as int] == a);
        }
        if s.push(a).contains(b) {
            let k = choose|k: int| 0 <= k < s.push(a).len() && s.push(a)[k] == b;
            if k < s.len() {
                assert(s[k] == b);
            }
        }
    }
    assert(s.push(a).to_set() =~= s.to_set().insert(a));
}

/// Whether the list holds the name.
fn holds_name(v: &Vec<String>, name: &str) -> (r: bool)
    ensures
        r == strs(v@).to_set().contains(name@),
{
    let n = string_from(name);
    let mut i: usize = 0;
    while i < v.len()
        invariant
            i <= v@.len(),
            n@ == name@,
            forall|j: int| 0 <= j < i ==> (#[trigger] v@[j])@ != name@,
        decreases v.len() - i,
    {
        if v[i].eq(&n) {
            assert(strs(v@)[i as int] == name@);
            return true;
        }
        i = i + 1;
    }
    proof {
        if strs(v@).contains(name@) {
            let k = choose|k: int| 0 <= k < strs(v@).len() && strs(v@)[k] == name@;
            assert(v@[k]@ == name@);
        }
    }
    false
}

/// Adds the name to the list unless it is there; tells whether it was
/// added.
fn insert_name(v: &mut Vec<String>, name: &str) -> (r: bool)
    ensures
        r == !strs(old(v)@).to_set().contains(name@),
        strs(final(v)@).to_set() == strs(old(v)@).to_set().insert(name@),
{
    if holds_name(v, name) {
        assert(strs(v@).to_set().insert(name@) =~= strs(v@).to_set());
        false
    } else {
        let ghost before = v@;
        v.push(string_from(name));
        proof {
            assert(strs(v@) =~= strs(before).push(name@));
            lemma_push_to_set(strs(before), name@);
        }
        true
    }
}

/// Once the first `n` entries hold the name, the first of them with it is
/// the first of all.
proof fn lemma_dep_index_prefix(ds: Seq<(Seq<char>, bool, Seq<Seq<char>>)>, name: Seq<char>, n: nat)
    requires
        n <= ds.len(),
        dep_index(ds.take(n as int), name) is Some,
    ensures
        dep_index(ds, name) == dep_index(ds.take(n as int), name),
    decreases ds.len() - n,
{
    if n < ds.len() {
        assert(ds.take(n + 1int).drop_last() =~= ds.take(n as int));
        lemma_dep_index_prefix(ds, name, n + 1);
    } else {
        assert(ds.take(n as int) =~= ds);
    }
}

/// Once the first `n` features hold the name, the first of them with it
/// is the first of all.
proof fn lemma_feature_index_prefix(fs: Seq<(Seq<char>, Seq<Seq<char>>)>, name: Seq<char>, n: nat)
    requires
        n <= fs.len(),
        feature_index(fs.take(n as int), name) is Some,
    ensures
        feature_index(fs, name) == feature_index(fs.take(n as int), name),
    decreases fs.len() - n,
{
    if n < fs.len() {
        assert(fs.take(n + 1int).drop_last() =~= fs.take(n as int));
        lemma_feature_index_prefix(fs, name, n + 1);
    } else {
        assert(fs.take(n as int) =~= fs);
    }
}

/// The names enabled by a feature of the summary.
fn entries_of<'b>(s: &'b Summary, name: &str) -> (r: &'b Vec<String>)
    requires
        has_feature(s@.features, name@),
    ensures
        strs(r@) == feature_entries(s@.features, name@),
{
    let fs = s.features();
    let n = string_from(name);
    let ghost fv = features_view(fs@);
    let mut i: usize = 0;
    while i < fs.len()
        invariant
            i <= fs@.len(),
            fv == features_view(fs@),
            fv == s@.features,
            n@ == name@,
            has_feature(fv, name@),
            feature_index(fv.take(i as int), name@) is None,
            forall|j: int| 0 <= j < i ==> (#[trigger] fv[j]).0 != name@,
        decreases fs.len() - i,
    {
        assert(fv.take(i + 1).drop_last() =~= fv.take(i as int));
        assert(fv[i as int] == (fs@[i as int].0@, strs(fs@[i as int].1@)));
        if fs[i].0.eq(&n) {
            proof {
                lemma_feature_index_prefix(fv, name@, (i + 1) as nat);
            }
            return &fs[i].1;
        }
        i = i + 1;
    }
    proof {
        let k = choose|k: int| 0 <= k < fv.len() && (#[trigger] fv[k]).0 == name@;
        assert(fv[k].0 != name@);
    }
    &fs[0].1
}


/// A found entry holds the name.
proof fn lemma_dep_index_found(ds: Seq<(Seq<char>, bool, Seq<Seq<char>>)>, name: Seq<char>)
    ensures
        dep_index(ds, name) matches Some(i) ==> 0 <= i < ds.len() && ds[i].0 == name,
    decreases ds.len(),
{
    if ds.len() > 0 {
        lemma_dep_index_found(ds.drop_last(), name);
    }
}

/// Marking a feature that was not visited leaves one fewer unvisited.
proof fn lemma_unvisited_mark(fs: Seq<(Seq<char>, Seq<Seq<char>>)>, v: Set<Seq<char>>, f: Seq<char>)
    requires
        has_feature(fs, f),
        !v.contains(f),
    ensures
        unvisited(fs, v.insert(f)) + 1 == unvisited(fs, v),
{
    let k = feature_names(fs).to_set();
    vstd::seq_lib::seq_to_set_is_finite(feature_names(fs));
    let i = choose|i: int| 0 <= i < fs.len() && (#[trigger] fs[i]).0 == f;
    assert(feature_names(fs)[i] == f);
    assert(k.contains(f));
    assert(k.difference(v.insert(f)) =~= k.difference(v).remove(f));
    vstd::set::axiom_set_difference_finite(k, v);
    vstd::set::axiom_set_remove_len(k.difference(v), f);
}

/// Visiting more leaves no more unvisited.
proof fn lemma_unvisited_mono(fs: Seq<(Seq<char>, Seq<Seq<char>>)>, a: Set<Seq<char>>, b: Set<Seq<char>>)
    requires
        a.subset_of(b),
    ensures
        unvisited(fs, b) <= unvisited(fs, a),
{
    let k = feature_names(fs).to_set();
    vstd::seq_lib::seq_to_set_is_finite(feature_names(fs));
    vstd::set::axiom_set_difference_finite(k, a);
    vstd::set_lib::lemma_len_subset(k.difference(b), k.difference(a));
}

/// At most all the features are unvisited.
proof fn lemma_unvisited_bound(fs: Seq<(Seq<char>, Seq<Seq<char>>)>, v: Set<Seq<char>>)
    ensures
        unvisited(fs, v) <= feature_names(fs).to_set().len(),
{
    let k = feature_names(fs).to_set();
    vstd::seq_lib::seq_to_set_is_finite(feature_names(fs));
    vstd::set_lib::lemma_len_subset(k.difference(v), k);
}

impl<'a> Requirements<'a> {
    /// The features of the package the requirements are gathered for.
    pub closed spec fn features_of(&self) -> Seq<(Seq<char>, Seq<Seq<char>>)> {
        self.summary@.features
    }

    /// Nothing asked yet of the summary's package.
    pub fn new(summary: &'a Summary) -> (r: Requirements<'a>)
        ensures
            r@ == empty_reqs(),
            r.features_of() == summary@.features,
    {
        let r = Requirements { summary, deps: Vec::new(), used: Vec::new(), visited: Vec::new() };
        assert(r@.deps =~= Seq::empty());
        assert(r@.used =~= Set::empty());
        assert(r@.visited =~= Set::empty());
        r
    }

    /// The position of the dependency's entry.
    fn find_dep(&self, pkg: &str) -> (r: Option<usize>)
        ensures
            r matches Some(i) ==> i < self.deps@.len() && dep_index(self@.deps, pkg@) == Some(i as int),
            r is None ==> dep_index(self@.deps, pkg@) is None,
    {
        let n = string_from(pkg);
        let ghost dv = self@.deps;
        let mut i: usize = 0;
        while i < self.deps.len()
            invariant
                i <= self.deps@.len(),
                dv == dep_reqs_view(self.deps@),
                n@ == pkg@,
                dep_index(dv.take(i as int), pkg@) is None,
            decreases self.deps.len() - i,
        {
            assert(dv.take(i + 1).drop_last() =~= dv.take(i as int));
            assert(dv[i as int].0 == self.deps@[i as int].0@);
            if self.deps[i].0.eq(&n) {
                proof {
                    lemma_dep_index_prefix(dv, pkg@, (i + 1) as nat);
                }
                return Some(i);
            }
            i = i + 1;
        }
        assert(dv.take(self.deps@.len() as int) =~= dv);
        None
    }

    /// Asks for a feature of a dependency (see `with_crate_feature`).
    pub fn require_crate_feature(&mut self, package: &str, feat: &str)
        ensures
            final(self)@ == with_crate_feature(old(self)@, package@, feat@),
            final(self).features_of() == old(self).features_of(),
    {
        let ghost st = self@;
        insert_name(&mut self.used, package);
        match self.find_dep(package) {
            Some(i) => {
                proof {
                    lemma_dep_index_found(st.deps, package@);
                }
                let ghost before = self.deps@;
                let mut e = self.deps.remove(i);
                let ghost fe = strs(e.2@);
                e.2.push(string_from(feat));
                assert(strs(e.2@) =~= fe.push(feat@));
                self.deps.insert(i, e);
                assert(dep_reqs_view(self.deps@) =~= dep_reqs_view(before).update(
                    i as int,
                    (package@, st.deps[i as int].1, st.deps[i as int].2.push(feat@)),
                ));
            },
            None => {
                let ghost before = self.deps@;
                let mut fv: Vec<String> = Vec::new();
                fv.push(string_from(feat));
                assert(strs(fv@) =~= seq![feat@]);
                self.deps.push((string_from(package), false, fv));
                assert(dep_reqs_view(self.deps@) =~= dep_reqs_view(before).push((package@, false, seq![feat@])));
            },
        }
        assert(self@ =~= with_crate_feature(st, package@, feat@));
    }

    /// Marks a name visited; tells whether it was visited before.
    pub fn seen(&mut self, feat: &str) -> (r: bool)
        ensures
            r == old(self)@.visited.contains(feat@),
            final(self)@ == (if r {
                old(self)@
            } else {
                mark_seen(old(self)@, feat@)
            }),
            final(self).features_of() == old(self).features_of(),
    {
        let ghost st = self@;
        if insert_name(&mut self.visited, feat) {
            insert_name(&mut self.used, feat);
            assert(self@ =~= mark_seen(st, feat@));
            false
        } else {
            assert(st.visited.insert(feat@) =~= st.visited);
            assert(self@.visited == st.visited);
            true
        }
    }

    /// Asks for a dependency itself (see `with_dependency`).
    pub fn require_dependency(&mut self, pkg: &str)
        ensures
            final(self)@ == with_dependency(old(self)@, pkg@),
            final(self).features_of() == old(self).features_of(),
    {
        let ghost st = self@;
        if self.seen(pkg) {
            return;
        }
        let ghost s1 = self@;
        match self.find_dep(pkg) {
            Some(i) => {
                proof {
                    lemma_dep_index_found(s1.deps, pkg@);
                }
                let ghost before = self.deps@;
                let mut e = self.deps.remove(i);
                e.1 = true;
                self.deps.insert(i, e);
                assert(dep_reqs_view(self.deps@) =~= dep_reqs_view(before).update(
                    i as int,
                    (pkg@, true, s1.deps[i as int].2),
                ));
            },
            None => {
                let ghost before = self.deps@;
                let fv: Vec<String> = Vec::new();
                assert(strs(fv@) =~= Seq::<Seq<char>>::empty());
                self.deps.push((string_from(pkg), true, fv));
                assert(dep_reqs_view(self.deps@) =~= dep_reqs_view(before).push((pkg@, true, Seq::empty())));
            },
        }
        assert(self@ =~= with_dependency(st, pkg@));
    }

    /// Asks for a feature (see `req_feature`); `n` bounds the depth of
    /// the search.
    fn require_feature(&mut self, feat: &str, Ghost(n): Ghost<nat>) -> (r: Result<(), FeatureError>)
        requires
            n >= unvisited(old(self).features_of(), old(self)@.visited) + 1,
            feat@.len() == 0 || old(self)@.visited.contains(feat@) || has_feature(old(self).features_of(), feat@),
        ensures
            final(self).features_of() == old(self).features_of(),
            match req_feature(old(self).features_of(), n, old(self)@, feat@) {
                Ok(st) => r is Ok && final(self)@ == st,
                Err(e) => r matches Err(x) && x@ == FeatureErrorView::Cycle(e),
            },
            r is Ok ==> old(self)@.visited.subset_of(final(self)@.visited),
        decreases n, 0nat, 0nat,
    {
        let ghost fs = self.features_of();
        let ghost st0 = self@;
        let cs = chars_of(feat);
        if cs.len() == 0 || self.seen(feat) {
            return Ok(());
        }
        proof {
            lemma_unvisited_mark(fs, st0.visited, feat@);
        }
        let s: &'a Summary = self.summary;
        let es = entries_of(s, feat);
        let featn = string_from(feat);
        let ghost st1 = self@;
        let ghost ents = strs(es@);
        assert(req_feature(fs, n, st0, feat@) == req_entries(fs, (n - 1) as nat, st1, feat@, ents, 0));
        let mut i: usize = 0;
        while i < es.len()
            invariant
                i <= es@.len(),
                n >= 1,
                fs == old(self).features_of(),
                st0 == old(self)@,
                req_feature(fs, n, st0, feat@) == req_entries(fs, (n - 1) as nat, st1, feat@, ents, 0),
                fs == s@.features,
                self.features_of() == fs,
                ents == strs(es@),
                ents == feature_entries(fs, feat@),
                featn@ == feat@,
                st1 == mark_seen(st0, feat@),
                st0.visited.subset_of(self@.visited),
                st1.visited.subset_of(self@.visited),
                (n - 1) as nat >= unvisited(fs, st1.visited) + 1,
                req_entries(fs, (n - 1) as nat, st1, feat@, ents, 0) == req_entries(
                    fs,
                    (n - 1) as nat,
                    self@,
                    feat@,
                    ents,
                    i as nat,
                ),
            decreases es.len() - i,
        {
            let fv = FeatureValue::new(es[i].as_str(), s);
            assert(ents[i as int] == es@[i as int]@);
            proof {
                lemma_unvisited_mono(fs, st1.visited, self@.visited);
            }
            match self.require_entry(&featn, &fv, Ghost((n - 1) as nat)) {
                Err(e) => {
                    return Err(e);
                },
                Ok(()) => {},
            }
            i = i + 1;
        }
        Ok(())
    }

    /// Asks for one of the values a feature enables; an error when it is
    /// the feature itself.
    fn require_entry(&mut self, owner: &String, fv: &FeatureValue, Ghost(n): Ghost<nat>) -> (r: Result<(), FeatureError>)
        requires
            n >= unvisited(old(self).features_of(), old(self)@.visited) + 1,
            fv@ matches FeatureValueView::Feature(f) ==> f.len() == 0 || old(self)@.visited.contains(f)
                || has_feature(old(self).features_of(), f),
        ensures
            final(self).features_of() == old(self).features_of(),
            fv@ == FeatureValueView::Feature(owner@) ==> (r matches Err(x) && x@ == FeatureErrorView::Cycle(owner@)),
            fv@ != FeatureValueView::Feature(owner@) ==> match req_value(old(self).features_of(), n, old(self)@, fv@) {
                Ok(st) => r is Ok && final(self)@ == st,
                Err(e) => r matches Err(x) && x@ == FeatureErrorView::Cycle(e),
            },
            r is Ok ==> old(self)@.visited.subset_of(final(self)@.visited),
        decreases n, 2nat, 0nat,
    {
        let cyclic = match fv {
            FeatureValue::Feature(f) => f.eq(owner),
            _ => false,
        };
        if cyclic {
            return Err(FeatureError::Cycle(owner.clone()));
        }
        self.require_value(fv, Ghost(n))
    }

    /// Asks for a feature value (see `req_value`).
    fn require_value(&mut self, fv: &FeatureValue, Ghost(n): Ghost<nat>) -> (r: Result<(), FeatureError>)
        requires
            n >= unvisited(old(self).features_of(), old(self)@.visited) + 1,
            fv@ matches FeatureValueView::Feature(f) ==> f.len() == 0 || old(self)@.visited.contains(f)
                || has_feature(old(self).features_of(), f),
        ensures
            final(self).features_of() == old(self).features_of(),
            match req_value(old(self).features_of(), n, old(self)@, fv@) {
                Ok(st) => r is Ok && final(self)@ == st,
                Err(e) => r matches Err(x) && x@ == FeatureErrorView::Cycle(e),
            },
            r is Ok ==> old(self)@.visited.subset_of(final(self)@.visited),
        decreases n, 1nat, 0nat,
    {
        match fv {
            FeatureValue::Feature(f) => self.require_feature(f.as_str(), Ghost(n)),
            FeatureValue::Crate(d) => {
                self.require_dependency(d.as_str());
                Ok(())
            },
            FeatureValue::CrateFeature(d, f) => {
                self.require_crate_feature(d.as_str(), f.as_str());
                Ok(())
            },
        }
    }
}


/// How a package is asked to be activated: with everything, or with the
/// features requested of it.
#[derive(Debug)]
pub enum Method {
    Everything,
    Required { dev_deps: bool, features: Vec<String>, all_features: bool, uses_default_features: bool },
}

/// The mathematical value of a `Method`.
pub enum MethodView {
    Everything,
    Required { dev_deps: bool, features: Seq<Seq<char>>, all_features: bool, uses_default_features: bool },
}

impl View for Method {
    type V = MethodView;

    open spec fn view(&self) -> MethodView {
        match self {
            Method::Everything => MethodView::Everything,
            Method::Required { dev_deps, features, all_features, uses_default_features } => MethodView::Required {
                dev_deps: *dev_deps,
                features: strs(features@),
                all_features: *all_features,
                uses_default_features: *uses_default_features,
            },
        }
    }
}

/// Whether every feature is asked for.
pub open spec fn all_features_asked(m: MethodView) -> bool {
    match m {
        MethodView::Everything => true,
        MethodView::Required { all_features, .. } => all_features,
    }
}

/// Whether the `default` feature is asked for when there is one.
pub open spec fn default_asked(m: MethodView) -> bool {
    match m {
        MethodView::Everything => true,
        MethodView::Required { uses_default_features, .. } => uses_default_features,
    }
}

/// Asks for the features named, from the `i`-th on, in order.
pub open spec fn req_features_from(
    fs: Seq<(Seq<char>, Seq<Seq<char>>)>,
    n: nat,
    st: ReqState,
    names: Seq<Seq<char>>,
    i: nat,
) -> Result<ReqState, Seq<char>>
    decreases names.len() - i,
{
    if i >= names.len() {
        Ok(st)
    } else {
        match req_feature(fs, n, st, names[i as int]) {
            Err(e) => Err(e),
            Ok(s2) => req_features_from(fs, n, s2, names, i + 1),
        }
    }
}

/// Asks for the values the names stand for, from the `i`-th on, in order.
pub open spec fn req_names_from(
    fs: Seq<(Seq<char>, Seq<Seq<char>>)>,
    n: nat,
    st: ReqState,
    names: Seq<Seq<char>>,
    i: nat,
) -> Result<ReqState, Seq<char>>
    decreases names.len() - i,
{
    if i >= names.len() {
        Ok(st)
    } else {
        match req_value(fs, n, st, feature_value(fs, names[i as int])) {
            Err(e) => Err(e),
            Ok(s2) => req_names_from(fs, n, s2, names, i + 1),
        }
    }
}

/// Asks for the optional dependencies, from the `i`-th on, in order.
pub open spec fn optional_deps_from(st: ReqState, ds: Seq<(Seq<char>, bool, bool)>, i: nat) -> ReqState
    decreases ds.len() - i,
{
    if i >= ds.len() {
        st
    } else {
        optional_deps_from(
            if ds[i as int].1 {
                with_dependency(st, ds[i as int].0)
            } else {
                st
            },
            ds,
            i + 1,
        )
    }
}

/// What a package is asked for under a method: every feature and then
/// every optional dependency when all features are asked for, otherwise
/// the requested names; then the `default` feature, when it exists and is
/// asked for. An error names a feature that lists itself.
pub open spec fn build_requirements_spec(s: SummaryView, m: MethodView) -> Result<ReqState, Seq<char>> {
    let fs = s.features;
    let n = feature_names(fs).to_set().len() + 1;
    let first = if all_features_asked(m) {
        match req_features_from(fs, n, empty_reqs(), feature_names(fs), 0) {
            Err(e) => Err(e),
            Ok(st) => Ok(optional_deps_from(st, s.dependencies, 0)),
        }
    } else {
        match m {
            MethodView::Required { features, .. } => req_names_from(fs, n, empty_reqs(), features, 0),
            MethodView::Everything => Ok(empty_reqs()),
        }
    };
    match first {
        Err(e) => Err(e),
        Ok(st) => if default_asked(m) && has_feature(fs, "default"@) {
            req_feature(fs, n, st, "default"@)
        } else {
            Ok(st)
        },
    }
}

/// Gathers what the features asked of a package under a method bring in
/// (see `build_requirements_spec`).
pub fn build_requirements<'a>(s: &'a Summary, method: &Method) -> (r: Result<Requirements<'a>, FeatureError>)
    ensures
        match build_requirements_spec(s@, method@) {
            Ok(st) => r matches Ok(q) && q@ == st && q.features_of() == s@.features,
            Err(e) => r matches Err(x) && x@ == FeatureErrorView::Cycle(e),
        },
{
    let mut reqs = Requirements::new(s);
    let ghost fs = s@.features;
    let ghost n: nat = feature_names(fs).to_set().len() + 1;
    let all = match method {
        Method::Everything => true,
        Method::Required { all_features, .. } => *all_features,
    };
    let ghost first: Result<ReqState, Seq<char>>;
    if all {
        let feats = s.features();
        let ghost names = feature_names(fs);
        let mut i: usize = 0;
        while i < feats.len()
            invariant
                i <= feats@.len(),
                fs == s@.features,
                fs == features_view(feats@),
                names == feature_names(fs),
                reqs.features_of() == fs,
                n == feature_names(fs).to_set().len() + 1,
                all_features_asked(method@),
                req_features_from(fs, n, empty_reqs(), names, 0) == req_features_from(fs, n, reqs@, names, i as nat),
            decreases feats.len() - i,
        {
            assert(fs[i as int].0 == feats@[i as int].0@);
            assert(names[i as int] == fs[i as int].0);
            proof {
                lemma_unvisited_bound(fs, reqs@.visited);
            }
            match reqs.require_feature(feats[i].0.as_str(), Ghost(n)) {
                Err(e) => {
                    return Err(e);
                },
                Ok(()) => {},
            }
            i = i + 1;
        }
        let ghost after_keys = reqs@;
        let deps = s.dependencies();
        let ghost ds = s@.dependencies;
        let mut j: usize = 0;
        while j < deps.len()
            invariant
                j <= deps@.len(),
                ds == crate::summary::deps_view(deps@),
                reqs.features_of() == fs,
                optional_deps_from(after_keys, ds, 0) == optional_deps_from(reqs@, ds, j as nat),
            decreases deps.len() - j,
        {
            assert(ds[j as int] == (deps@[j as int].name@, deps@[j as int].optional, deps@[j as int].transitive));
            if deps[j].optional {
                reqs.require_dependency(deps[j].name.as_str());
            }
            j = j + 1;
        }
        proof {
            first = Ok(reqs@);
        }
    } else {
        match method {
            Method::Required { features, .. } => {
                let ghost names = strs(features@);
                let mut i: usize = 0;
                while i < features.len()
                    invariant
                        i <= features@.len(),
                        fs == s@.features,
                        names == strs(features@),
                        reqs.features_of() == fs,
                        n == feature_names(fs).to_set().len() + 1,
                        !all_features_asked(method@),
                        method@ matches MethodView::Required { features: fts, .. } && fts == names,
                        req_names_from(fs, n, empty_reqs(), names, 0) == req_names_from(fs, n, reqs@, names, i as nat),
                    decreases features.len() - i,
                {
                    assert(names[i as int] == features@[i as int]@);
                    let fv = FeatureValue::new(features[i].as_str(), s);
                    proof {
                        lemma_unvisited_bound(fs, reqs@.visited);
                    }
                    match reqs.require_value(&fv, Ghost(n)) {
                        Err(e) => {
                            return Err(e);
                        },
                        Ok(()) => {},
                    }
                    i = i + 1;
                }
                proof {
                    first = Ok(reqs@);
                }
            },
            Method::Everything => {
                proof {
                    first = Ok(reqs@);
                }
            },
        }
    }
    let use_default = match method {
        Method::Everything => true,
        Method::Required { uses_default_features, .. } => *uses_default_features,
    };
    if use_default && summary_has_feature(s, "default") {
        proof {
            lemma_unvisited_bound(fs, reqs@.visited);
        }
        match reqs.require_feature("default", Ghost(n)) {
            Err(e) => {
                return Err(e);
            },
            Ok(()) => {},
        }
    }
    Ok(reqs)
}


/// Why a package cannot be activated.
#[derive(Debug)]
pub enum ActivationError {
    /// Another active package already links the native library.
    Links(String),
}

/// The position of the activation with the same key as the package, if
/// any.
pub open spec fn key_index(acts: Seq<(PackageIdView, nat)>, id: PackageIdView) -> Option<int>
    decreases acts.len(),
{
    if acts.len() == 0 {
        None
    } else {
        match key_index(acts.drop_last(), id) {
            Some(i) => Some(i),
            None => if same_key(acts.last().0, id) {
                Some(acts.len() - 1)
            } else {
                None
            },
        }
    }
}

/// The position of the package linking the library, if any.
pub open spec fn link_index(links: Seq<(Seq<char>, PackageIdView)>, name: Seq<char>) -> Option<int>
    decreases links.len(),
{
    if links.len() == 0 {
        None
    } else {
        match link_index(links.drop_last(), name) {
            Some(i) => Some(i),
            None => if links.last().0 == name {
                Some(links.len() - 1)
            } else {
                None
            },
        }
    }
}

/// The position of the package's enabled features, if any.
pub open spec fn features_index(fs: Seq<(PackageIdView, Set<Seq<char>>)>, id: PackageIdView) -> Option<int>
    decreases fs.len(),
{
    if fs.len() == 0 {
        None
    } else {
        match features_index(fs.drop_last(), id) {
            Some(i) => Some(i),
            None => if same_package(fs.last().0, id) {
                Some(fs.len() - 1)
            } else {
                None
            },
        }
    }
}

/// The mathematical value of a `Context`: the active packages in the order
/// activated, each with its age (the number of packages activated before
/// it); the features enabled for each package; the package linking each
/// native library.
#[verifier::ext_equal]
pub struct ContextView {
    pub activations: Seq<(PackageIdView, nat)>,
    pub features: Seq<(PackageIdView, Set<Seq<char>>)>,
    pub links: Seq<(Seq<char>, PackageIdView)>,
}

/// Whether no two active packages share an activation key, and each age is
/// the activation's position.
pub open spec fn activations_ok(acts: Seq<(PackageIdView, nat)>) -> bool {
    &&& forall|i: int| 0 <= i < acts.len() ==> (#[trigger] acts[i]).1 == i
    &&& forall|i: int, j: int|
        0 <= i < acts.len() && 0 <= j < acts.len() && i != j ==> !same_key(#[trigger] acts[i].0, #[trigger] acts[j].0)
}

/// The age at which the package was activated, when it is the active
/// package of its key.
pub open spec fn active_age(c: ContextView, id: PackageIdView) -> Option<nat> {
    match key_index(c.activations, id) {
        Some(i) => if same_package(c.activations[i].0, id) {
            Some(c.activations[i].1)
        } else {
            None
        },
        None => None,
    }
}

/// The age of the newest of the packages when all are active (0 for
/// none), `None` when one is not.
pub open spec fn newest_age(c: ContextView, ids: Seq<PackageIdView>) -> Option<nat>
    decreases ids.len(),
{
    if ids.len() == 0 {
        Some(0)
    } else {
        match (newest_age(c, ids.drop_last()), active_age(c, ids.last())) {
            (Some(a), Some(b)) => Some(if a >= b {
                a
            } else {
                b
            }),
            _ => None,
        }
    }
}

/// Whether activating with the method brings in nothing new for a package
/// whose key is already active: not when all features are asked for;
/// otherwise when every requested feature, and `default` if it is asked
/// for and exists, are already enabled.
pub open spec fn already_activated(c: ContextView, s: SummaryView, m: MethodView) -> bool {
    match m {
        MethodView::Everything => false,
        MethodView::Required { features, all_features, uses_default_features, .. } => if all_features {
            false
        } else {
            let has_default = has_feature(s.features, "default"@);
            match features_index(c.features, s.package_id) {
                Some(k) => (forall|i: int| 0 <= i < features.len() ==> c.features[k].1.contains(#[trigger] features[i]))
                    && (!uses_default_features || c.features[k].1.contains("default"@) || !has_default),
                None => features.len() == 0 && (!uses_default_features || !has_default),
            }
        },
    }
}

/// What activating a package does: when its key is not active, it becomes
/// active (`Ok(false)`), unless the library it links is already linked,
/// which is an error (the library is then recorded as linked by it);
/// when its key is active, nothing changes and the result tells whether
/// the method asks for nothing new (see `already_activated`).
pub open spec fn flag_activated_spec(c: ContextView, s: SummaryView, links: Option<Seq<char>>, m: MethodView) -> (ContextView, Result<bool, Seq<char>>) {
    let id = s.package_id;
    match key_index(c.activations, id) {
        Some(_) => (c, Ok(already_activated(c, s, m))),
        None => match links {
            Some(l) => match link_index(c.links, l) {
                Some(k) => (ContextView { links: c.links.update(k, (l, id)), ..c }, Err(l)),
                None => (
                    ContextView {
                        links: c.links.push((l, id)),
                        activations: c.activations.push((id, c.activations.len())),
                        ..c
                    },
                    Ok(false),
                ),
            },
            None => (ContextView { activations: c.activations.push((id, c.activations.len())), ..c }, Ok(false)),
        },
    }
}

/// The packages activated so far while resolving, with their features and
/// the native libraries they link.
pub struct Context {
    activations: Vec<(PackageId, usize)>,
    resolve_features: Vec<(PackageId, Vec<String>)>,
    links: Vec<(String, PackageId)>,
    check_public_visible_dependencies: bool,
}

impl View for Context {
    type V = ContextView;

    closed spec fn view(&self) -> ContextView {
        ContextView {
            activations: self.activations@.map_values(|a: (PackageId, usize)| (a.0@, a.1 as nat)),
            features: self.resolve_features@.map_values(|f: (PackageId, Vec<String>)| (f.0@, strs(f.1@).to_set())),
            links: self.links@.map_values(|l: (String, PackageId)| (l.0@, l.1@)),
        }
    }
}

/// The first `n` activations with no same key hold none.
pub proof fn lemma_key_index(acts: Seq<(PackageIdView, nat)>, id: PackageIdView)
    ensures
        key_index(acts, id) matches Some(i) ==> 0 <= i < acts.len() && same_key(acts[i].0, id),
        key_index(acts, id) is None ==> forall|j: int| 0 <= j < acts.len() ==> !same_key(#[trigger] acts[j].0, id),
    decreases acts.len(),
{
    if acts.len() > 0 {
        lemma_key_index(acts.drop_last(), id);
        assert forall|j: int| 0 <= j < acts.len() - 1 implies acts.drop_last()[j] == #[trigger] acts[j] by {}
    }
}

/// With distinct keys, an activation with the package's key is the one
/// found.
proof fn lemma_key_index_unique(acts: Seq<(PackageIdView, nat)>, id: PackageIdView, k: int)
    requires
        activations_ok(acts),
        0 <= k < acts.len(),
        same_key(acts[k].0, id),
    ensures
        key_index(acts, id) == Some(k),
{
    lemma_key_index(acts, id);
    match key_index(acts, id) {
        Some(i) => {
            if i != k {
                assert(same_key(acts[i].0, acts[k].0));
                assert(!same_key(acts[i].0, acts[k].0));
            }
        },
        None => {},
    }
}

/// Whether no two entries name the same native library.
pub open spec fn links_distinct(links: Seq<(Seq<char>, PackageIdView)>) -> bool {
    forall|i: int, j: int| 0 <= i < j < links.len() ==> (#[trigger] links[i]).0 != (#[trigger] links[j]).0
}

/// Activating keeps each native library linked by one entry.
pub proof fn lemma_flag_keeps_links_distinct(c: ContextView, s: SummaryView, links: Option<Seq<char>>, m: MethodView)
    requires
        links_distinct(c.links),
    ensures
        links_distinct(flag_activated_spec(c, s, links, m).0.links),
{
    match key_index(c.activations, s.package_id) {
        Some(_) => {},
        None => match links {
            Some(l) => {
                lemma_link_index(c.links, l);
                match link_index(c.links, l) {
                    Some(k) => {
                        let n = c.links.update(k, (l, s.package_id));
                        assert forall|i: int, j: int| 0 <= i < j < n.len() implies (#[trigger] n[i]).0 != (#[trigger] n[j]).0 by {
                            assert(c.links[i].0 != c.links[j].0);
                        }
                    },
                    None => {
                        let n = c.links.push((l, s.package_id));
                        assert forall|i: int, j: int| 0 <= i < j < n.len() implies (#[trigger] n[i]).0 != (#[trigger] n[j]).0 by {
                            if j < c.links.len() {
                                assert(c.links[i].0 != c.links[j].0);
                            } else {
                                assert(c.links[i].0 != l);
                            }
                        }
                    },
                }
            },
            None => {},
        },
    }
}

/// A found link entry holds the name.
proof fn lemma_link_index(links: Seq<(Seq<char>, PackageIdView)>, name: Seq<char>)
    ensures
        link_index(links, name) matches Some(i) ==> 0 <= i < links.len() && links[i].0 == name,
        link_index(links, name) is None ==> forall|j: int| 0 <= j < links.len() ==> (#[trigger] links[j]).0 != name,
    decreases links.len(),
{
    if links.len() > 0 {
        lemma_link_index(links.drop_last(), name);
        assert forall|j: int| 0 <= j < links.len() - 1 implies links.drop_last()[j] == #[trigger] links[j] by {}
    }
}

/// A found features entry is for the package.
proof fn lemma_features_index(fs: Seq<(PackageIdView, Set<Seq<char>>)>, id: PackageIdView)
    ensures
        features_index(fs, id) matches Some(i) ==> 0 <= i < fs.len() && same_package(fs[i].0, id),
        features_index(fs, id) is None ==> forall|j: int| 0 <= j < fs.len() ==> !same_package(#[trigger] fs[j].0, id),
    decreases fs.len(),
{
    if fs.len() > 0 {
        lemma_features_index(fs.drop_last(), id);
        assert forall|j: int| 0 <= j < fs.len() - 1 implies fs.drop_last()[j] == #[trigger] fs[j] by {}
    }
}

/// Whether two packages have the same activation key.
fn same_activation_key(a: &PackageId, b: &PackageId) -> (r: bool)
    ensures
        r == same_key(a@, b@),
{
    a.name.eq(&b.name) && a.source_id.same_source(&b.source_id) && SemverCompatibility::from_version(&a.version)
        == SemverCompatibility::from_version(&b.version)
}

impl Context {
    #[verifier::type_invariant]
    spec fn wf(&self) -> bool {
        activations_ok(self@.activations)
    }

    /// Whether the resolution checks that public dependencies stay
    /// visible, as the context was made.
    pub closed spec fn checks_public_deps(&self) -> bool {
        self.check_public_visible_dependencies
    }

    /// No package active yet, checking the visibility of public
    /// dependencies when asked.
    pub fn new(check_public_visible_dependencies: bool) -> (r: Context)
        ensures
            r.checks_public_deps() == check_public_visible_dependencies,
            r@.activations == Seq::<(PackageIdView, nat)>::empty(),
            r@.features == Seq::<(PackageIdView, Set<Seq<char>>)>::empty(),
            r@.links == Seq::<(Seq<char>, PackageIdView)>::empty(),
            activations_ok(r@.activations),
    {
        let r = Context {
            activations: Vec::new(),
            resolve_features: Vec::new(),
            links: Vec::new(),
            check_public_visible_dependencies,
        };
        assert(r@.activations =~= Seq::empty());
        assert(r@.features =~= Seq::empty());
        assert(r@.links =~= Seq::empty());
        r
    }

    /// A copy of the context, to go back to.
    pub fn duplicate(&self) -> (r: Context)
        ensures
            r@ == self@,
            r.checks_public_deps() == self.checks_public_deps(),
    {
        proof {
            use_type_invariant(self);
        }
        let mut acts: Vec<(PackageId, usize)> = Vec::new();
        let mut i: usize = 0;
        while i < self.activations.len()
            invariant
                i <= self.activations@.len(),
                acts@.len() == i,
                forall|j: int| 0 <= j < i ==> (#[trigger] acts@[j]).0@ == self.activations@[j].0@ && acts@[j].1 == self.activations@[j].1,
            decreases self.activations.len() - i,
        {
            acts.push((self.activations[i].0.duplicate(), self.activations[i].1));
            i = i + 1;
        }
        let mut fs: Vec<(PackageId, Vec<String>)> = Vec::new();
        let mut i: usize = 0;
        while i < self.resolve_features.len()
            invariant
                i <= self.resolve_features@.len(),
                fs@.len() == i,
                forall|j: int|
                    0 <= j < i ==> (#[trigger] fs@[j]).0@ == self.resolve_features@[j].0@ && strs(fs@[j].1@) == strs(
                        self.resolve_features@[j].1@,
                    ),
            decreases self.resolve_features.len() - i,
        {
            fs.push((self.resolve_features[i].0.duplicate(), copy_strings(&self.resolve_features[i].1)));
            i = i + 1;
        }
        let mut lk: Vec<(String, PackageId)> = Vec::new();
        let mut i: usize = 0;
        while i < self.links.len()
            invariant
                i <= self.links@.len(),
                lk@.len() == i,
                forall|j: int| 0 <= j < i ==> (#[trigger] lk@[j]).0@ == self.links@[j].0@ && lk@[j].1@ == self.links@[j].1@,
            decreases self.links.len() - i,
        {
            lk.push((self.links[i].0.clone(), self.links[i].1.duplicate()));
            i = i + 1;
        }
        assert(acts@.map_values(|a: (PackageId, usize)| (a.0@, a.1 as nat)) =~= self@.activations);
        let r = Context {
            activations: acts,
            resolve_features: fs,
            links: lk,
            check_public_visible_dependencies: self.check_public_visible_dependencies,
        };
        assert(r@.activations =~= self@.activations);
        assert(r@.features =~= self@.features);
        assert(r@.links =~= self@.links);
        r
    }

    /// The ids of the active packages, in the order activated.
    pub fn active_ids(&self) -> (r: Vec<PackageId>)
        ensures
            r@.map_values(|p: PackageId| p@) == self@.activations.map_values(|a: (PackageIdView, nat)| a.0),
            activations_ok(self@.activations),
    {
        proof {
            use_type_invariant(self);
        }
        let mut out: Vec<PackageId> = Vec::new();
        let mut i: usize = 0;
        while i < self.activations.len()
            invariant
                i <= self.activations@.len(),
                out@.len() == i,
                forall|j: int| 0 <= j < i ==> (#[trigger] out@[j])@ == self.activations@[j].0@,
            decreases self.activations.len() - i,
        {
            out.push(self.activations[i].0.duplicate());
            i = i + 1;
        }
        assert(out@.map_values(|p: PackageId| p@) =~= self@.activations.map_values(|a: (PackageIdView, nat)| a.0));
        out
    }

    /// The age of the context: the number of packages activated.
    pub fn age(&self) -> (r: usize)
        ensures
            r == self@.activations.len(),
    {
        self.activations.len()
    }

    /// The position of the activation with the package's key.
    fn find_key(&self, id: &PackageId) -> (r: Option<usize>)
        ensures
            r matches Some(i) ==> i < self.activations@.len() && key_index(self@.activations, id@) == Some(i as int),
            r is None ==> key_index(self@.activations, id@) is None,
    {
        let ghost av = self@.activations;
        let mut i: usize = 0;
        while i < self.activations.len()
            invariant
                i <= self.activations@.len(),
                av == self@.activations,
                key_index(av.take(i as int), id@) is None,
            decreases self.activations.len() - i,
        {
            assert(av.take(i + 1).drop_last() =~= av.take(i as int));
            assert(av[i as int].0 == self.activations@[i as int].0@);
            if same_activation_key(&self.activations[i].0, id) {
                proof {
                    lemma_key_index_prefix(av, id@, (i + 1) as nat);
                }
                return Some(i);
            }
            i = i + 1;
        }
        assert(av.take(self.activations@.len() as int) =~= av);
        None
    }

    /// The position of the library's entry.
    fn find_link(&self, name: &str) -> (r: Option<usize>)
        ensures
            r matches Some(i) ==> i < self.links@.len() && link_index(self@.links, name@) == Some(i as int),
            r is None ==> link_index(self@.links, name@) is None,
    {
        let n = string_from(name);
        let ghost lv = self@.links;
        let mut i: usize = 0;
        while i < self.links.len()
            invariant
                i <= self.links@.len(),
                lv == self@.links,
                n@ == name@,
                link_index(lv.take(i as int), name@) is None,
            decreases self.links.len() - i,
        {
            assert(lv.take(i + 1).drop_last() =~= lv.take(i as int));
            assert(lv[i as int].0 == self.links@[i as int].0@);
            if self.links[i].0.eq(&n) {
                proof {
                    lemma_link_index_prefix(lv, name@, (i + 1) as nat);
                }
                return Some(i);
            }
            i = i + 1;
        }
        assert(lv.take(self.links@.len() as int) =~= lv);
        None
    }

    /// The position of the package's enabled features.
    fn find_features(&self, id: &PackageId) -> (r: Option<usize>)
        ensures
            r matches Some(i) ==> i < self.resolve_features@.len() && features_index(self@.features, id@) == Some(i as int),
            r is None ==> features_index(self@.features, id@) is None,
    {
        let ghost fv = self@.features;
        let mut i: usize = 0;
        while i < self.resolve_features.len()
            invariant
                i <= self.resolve_features@.len(),
                fv == self@.features,
                features_index(fv.take(i as int), id@) is None,
            decreases self.resolve_features.len() - i,
        {
            assert(fv.take(i + 1).drop_last() =~= fv.take(i as int));
            assert(fv[i as int].0 == self.resolve_features@[i as int].0@);
            if self.resolve_features[i].0.same(id) {
                proof {
                    lemma_features_index_prefix(fv, id@, (i + 1) as nat);
                }
                return Some(i);
            }
            i = i + 1;
        }
        assert(fv.take(self.resolve_features@.len() as int) =~= fv);
        None
    }

    /// Whether activating the package with the method asks for nothing new
    /// (see `already_activated`).
    fn asks_nothing_new(&self, summary: &Summary, method: &Method) -> (r: bool)
        ensures
            r == already_activated(self@, summary@, method@),
    {
        match method {
            Method::Everything => false,
            Method::Required { features, all_features, uses_default_features, .. } => {
                if *all_features {
                    return false;
                }
                let has_default = summary_has_feature(summary, "default");
                match self.find_features(summary.package_id()) {
                    Some(k) => {
                        let prev = &self.resolve_features[k].1;
                        proof {
                            lemma_features_index(self@.features, summary@.package_id);
                        }
                        assert(self@.features[k as int].1 == strs(prev@).to_set());
                        let ghost fts = strs(features@);
                        let mut all = true;
                        let mut i: usize = 0;
                        while i < features.len()
                            invariant
                                i <= features@.len(),
                                fts == strs(features@),
                                all == (forall|j: int| 0 <= j < i ==> strs(prev@).to_set().contains(#[trigger] fts[j])),
                            decreases features.len() - i,
                        {
                            assert(fts[i as int] == features@[i as int]@);
                            if !holds_name(prev, features[i].as_str()) {
                                all = false;
                            }
                            i = i + 1;
                        }
                        let hd = holds_name(prev, "default");
                        let res = all && (!*uses_default_features || hd || !has_default);
                        assert(fts == method@->features);
                        assert(*uses_default_features == method@->uses_default_features);
                        assert(features_index(self@.features, summary@.package_id) == Some(k as int));
                        assert(res == already_activated(self@, summary@, method@));
                        res
                    },
                    None => {
                        let res = features.len() == 0 && (!*uses_default_features || !has_default);
                        assert(strs(features@).len() == features@.len());
                        assert(res == already_activated(self@, summary@, method@));
                        res
                    },
                }
            },
        }
    }

    /// Activates the package (see `flag_activated_spec`); `links` is the
    /// native library it links, if any. The package must be the active one
    /// of its key when that key is active.
    pub fn flag_activated(&mut self, summary: &Summary, links: Option<&str>, method: &Method) -> (r: Result<bool, ActivationError>)
        requires
            key_index(old(self)@.activations, summary@.package_id) matches Some(k) ==> same_package(
                old(self)@.activations[k].0,
                summary@.package_id,
            ),
        ensures
            final(self).checks_public_deps() == old(self).checks_public_deps(),
            ({
                let (c, res) = flag_activated_spec(
                    old(self)@,
                    summary@,
                    match links {
                        Some(l) => Some(l@),
                        None => None,
                    },
                    method@,
                );
                &&& final(self)@ == c
                &&& match r {
                    Ok(b) => res == Ok::<bool, Seq<char>>(b),
                    Err(ActivationError::Links(l)) => res == Err::<bool, Seq<char>>(l@),
                }
            }),
            activations_ok(final(self)@.activations),
    {
        proof {
            use_type_invariant(&*self);
        }
        let ghost c0 = self@;
        let id = summary.package_id();
        match self.find_key(id) {
            Some(_) => Ok(self.asks_nothing_new(summary, method)),
            None => {
                proof {
                    lemma_key_index(c0.activations, id@);
                }
                match links {
                    Some(l) => {
                        match self.find_link(l) {
                            Some(k) => {
                                proof {
                                    lemma_link_index(c0.links, l@);
                                }
                                let mut lk: Vec<(String, PackageId)> = Vec::new();
                                std::mem::swap(&mut lk, &mut self.links);
                                lk.remove(k);
                                lk.insert(k, (string_from(l), id.duplicate()));
                                self.links = lk;
                                assert(self@.links =~= c0.links.update(k as int, (l@, id@)));
                                assert(self@ =~= ContextView { links: c0.links.update(k as int, (l@, id@)), ..c0 });
                                return Err(ActivationError::Links(string_from(l)));
                            },
                            None => {
                                let mut lk: Vec<(String, PackageId)> = Vec::new();
                                std::mem::swap(&mut lk, &mut self.links);
                                lk.push((string_from(l), id.duplicate()));
                                self.links = lk;
                                assert(self@.links =~= c0.links.push((l@, id@)));
                            },
                        }
                    },
                    None => {},
                }
                let age = self.activations.len();
                let mut acts: Vec<(PackageId, usize)> = Vec::new();
                std::mem::swap(&mut acts, &mut self.activations);
                acts.push((id.duplicate(), age));
                proof {
                    assert(same_key(id@, id@));
                    let av = acts@.map_values(|a: (PackageId, usize)| (a.0@, a.1 as nat));
                    assert(av =~= c0.activations.push((id@, c0.activations.len())));
                }
                self.activations = acts;
                assert(self@.activations =~= c0.activations.push((id@, c0.activations.len())));
                proof {
                    assert(same_key(id@, id@));
                }
                Ok(false)
            },
        }
    }

    /// The age at which the package was activated, if it is active (see
    /// `active_age`).
    pub fn is_active(&self, id: &PackageId) -> (r: Option<usize>)
        ensures
            r matches Some(a) ==> active_age(self@, id@) == Some(a as nat),
            r is None ==> active_age(self@, id@) is None,
    {
        match self.find_key(id) {
            Some(i) => {
                if self.activations[i].0.same(id) {
                    Some(self.activations[i].1)
                } else {
                    None
                }
            },
            None => None,
        }
    }

    /// The age of the newest of the conflicting packages and the parent,
    /// when all of them are still active (see `newest_age`).
    pub fn is_conflicting(&self, parent: Option<&PackageId>, conflicting: &Vec<PackageId>) -> (r: Option<usize>)
        ensures
            ({
                let ids = conflicting@.map_values(|p: PackageId| p@) + match parent {
                    Some(p) => seq![p@],
                    None => Seq::empty(),
                };
                &&& r matches Some(a) ==> newest_age(self@, ids) == Some(a as nat)
                &&& r is None ==> newest_age(self@, ids) is None
            }),
    {
        let ghost ids = conflicting@.map_values(|p: PackageId| p@);
        let mut max: usize = 0;
        let mut i: usize = 0;
        while i < conflicting.len()
            invariant
                i <= conflicting@.len(),
                ids == conflicting@.map_values(|p: PackageId| p@),
                newest_age(self@, ids.take(i as int)) == Some(max as nat),
            decreases conflicting.len() - i,
        {
            assert(ids.take(i + 1).drop_last() =~= ids.take(i as int));
            assert(ids.take(i + 1).last() == conflicting@[i as int]@);
            match self.is_active(&conflicting[i]) {
                Some(age) => {
                    if age > max {
                        max = age;
                    }
                },
                None => {
                    proof {
                        lemma_newest_age_none(self@, ids, (i + 1) as nat);
                        assert(ids.take(ids.len() as int) =~= ids);
                        assert(ids + seq![] =~= ids);
                        match parent {
                            Some(p) => {
                                assert((ids + seq![p@]).drop_last() =~= ids);
                            },
                            None => {},
                        }
                    }
                    return None;
                },
            }
            i = i + 1;
        }
        assert(ids.take(conflicting@.len() as int) =~= ids);
        match parent {
            Some(p) => {
                assert((ids + seq![p@]).drop_last() =~= ids);
                match self.is_active(p) {
                    Some(age) => {
                        if age > max {
                            max = age;
                        }
                        Some(max)
                    },
                    None => None,
                }
            },
            None => {
                assert(ids + Seq::<PackageIdView>::empty() =~= ids);
                Some(max)
            },
        }
    }
}

/// Once the first `n` activations hold a same key, the first of them with
/// it is the first of all.
proof fn lemma_key_index_prefix(acts: Seq<(PackageIdView, nat)>, id: PackageIdView, n: nat)
    requires
        n <= acts.len(),
        key_index(acts.take(n as int), id) is Some,
    ensures
        key_index(acts, id) == key_index(acts.take(n as int), id),
    decreases acts.len() - n,
{
    if n < acts.len() {
        assert(acts.take(n + 1int).drop_last() =~= acts.take(n as int));
        lemma_key_index_prefix(acts, id, n + 1);
    } else {
        assert(acts.take(n as int) =~= acts);
    }
}

/// Once one of the first `n` packages is inactive, the newest age is
/// `None` for every longer list.
proof fn lemma_newest_age_none(c: ContextView, ids: Seq<PackageIdView>, n: nat)
    requires
        n <= ids.len(),
        newest_age(c, ids.take(n as int)) is None,
    ensures
        newest_age(c, ids) is None,
    decreases ids.len() - n,
{
    if n < ids.len() {
        assert(ids.take(n + 1int).drop_last() =~= ids.take(n as int));
        lemma_newest_age_none(c, ids, n + 1);
    } else {
        assert(ids.take(n as int) =~= ids);
    }
}


/// Once the first `n` links hold the name, the first of them with it is
/// the first of all.
proof fn lemma_link_index_prefix(links: Seq<(Seq<char>, PackageIdView)>, name: Seq<char>, n: nat)
    requires
        n <= links.len(),
        link_index(links.take(n as int), name) is Some,
    ensures
        link_index(links, name) == link_index(links.take(n as int), name),
    decreases links.len() - n,
{
    if n < links.len() {
        assert(links.take(n + 1int).drop_last() =~= links.take(n as int));
        lemma_link_index_prefix(links, name, n + 1);
    } else {
        assert(links.take(n as int) =~= links);
    }
}

/// Once the first `n` entries hold the package, the first of them with it
/// is the first of all.
proof fn lemma_features_index_prefix(fs: Seq<(PackageIdView, Set<Seq<char>>)>, id: PackageIdView, n: nat)
    requires
        n <= fs.len(),
        features_index(fs.take(n as int), id) is Some,
    ensures
        features_index(fs, id) == features_index(fs.take(n as int), id),
    decreases fs.len() - n,
{
    if n < fs.len() {
        assert(fs.take(n + 1int).drop_last() =~= fs.take(n as int));
        lemma_features_index_prefix(fs, id, n + 1);
    } else {
        assert(fs.take(n as int) =~= fs);
    }
}


/// The full view of a dependency: name, optional, transitive, and the
/// features it asks for.
pub open spec fn dep_full(d: Dependency) -> (Seq<char>, bool, bool, Seq<Seq<char>>) {
    (d.name@, d.optional, d.transitive, strs(d.features@))
}

/// Whether development dependencies are asked for.
pub open spec fn dev_deps_asked(m: MethodView) -> bool {
    match m {
        MethodView::Everything => true,
        MethodView::Required { dev_deps, .. } => dev_deps,
    }
}

/// Whether a dependency takes part: it is transitive or development
/// dependencies are asked for, and it is not optional unless its name was
/// asked for.
pub open spec fn takes_part(d: (Seq<char>, bool, bool, Seq<Seq<char>>), st: ReqState, dev: bool) -> bool {
    (d.2 || dev) && (!d.1 || dep_index(st.deps, d.0) is Some)
}

/// Whether an optional dependency has the name.
pub open spec fn optional_named(ds: Seq<(Seq<char>, bool, bool, Seq<Seq<char>>)>, name: Seq<char>) -> bool {
    exists|i: int| 0 <= i < ds.len() && (#[trigger] ds[i]).1 && ds[i].0 == name
}

/// The first name holding a slash, if any.
pub open spec fn first_slash(fs: Seq<Seq<char>>) -> Option<Seq<char>>
    decreases fs.len(),
{
    if fs.len() == 0 {
        None
    } else {
        match first_slash(fs.drop_last()) {
            Some(x) => Some(x),
            None => if find(fs.last(), '/') is Some {
                Some(fs.last())
            } else {
                None
            },
        }
    }
}

/// What a dependency that takes part is activated with: the features
/// asked of its name and those it asks for itself; an error when it is
/// not optional (nor another dependency of the name is) yet its name was
/// asked for as a feature, or when one of the features holds a slash.
pub open spec fn dep_outcome(
    d: (Seq<char>, bool, bool, Seq<Seq<char>>),
    st: ReqState,
    ds: Seq<(Seq<char>, bool, bool, Seq<Seq<char>>)>,
    parent: Option<PackageIdView>,
    pkg: PackageIdView,
) -> Result<Seq<Seq<char>>, FeatureErrorView> {
    let (asked, fts) = match dep_index(st.deps, d.0) {
        Some(k) => (st.deps[k].1, st.deps[k].2),
        None => (false, Seq::empty()),
    };
    if !d.1 && !optional_named(ds, d.0) && asked {
        Err(FeatureErrorView::RequiredDependencyAsFeature(parent, pkg, d.0))
    } else {
        let base = fts + d.3;
        match first_slash(base) {
            Some(f) => Err(FeatureErrorView::SlashInFeature(f)),
            None => Ok(base),
        }
    }
}

/// The dependencies, from the `i`-th on, that take part, each with its
/// features, in order; the first error of one of them.
pub open spec fn resolve_deps_from(
    ds: Seq<(Seq<char>, bool, bool, Seq<Seq<char>>)>,
    st: ReqState,
    dev: bool,
    parent: Option<PackageIdView>,
    pkg: PackageIdView,
    i: nat,
) -> Result<Seq<((Seq<char>, bool, bool, Seq<Seq<char>>), Seq<Seq<char>>)>, FeatureErrorView>
    decreases ds.len() - i,
{
    if i >= ds.len() {
        Ok(Seq::empty())
    } else if !takes_part(ds[i as int], st, dev) {
        resolve_deps_from(ds, st, dev, parent, pkg, i + 1)
    } else {
        match dep_outcome(ds[i as int], st, ds, parent, pkg) {
            Err(e) => Err(e),
            Ok(base) => match resolve_deps_from(ds, st, dev, parent, pkg, i + 1) {
                Err(e) => Err(e),
                Ok(rest) => Ok(seq![(ds[i as int], base)] + rest),
            },
        }
    }
}

/// Whether a dependency of the name takes part.
pub open spec fn name_taken(ds: Seq<(Seq<char>, bool, bool, Seq<Seq<char>>)>, st: ReqState, dev: bool, n: Seq<char>) -> bool {
    exists|i: int| 0 <= i < ds.len() && takes_part(#[trigger] ds[i], st, dev) && ds[i].0 == n
}

/// The names asked for as dependencies that no dependency taking part
/// has, in the order first asked for.
pub open spec fn unused_names(st: ReqState, ds: Seq<(Seq<char>, bool, bool, Seq<Seq<char>>)>, dev: bool) -> Seq<Seq<char>> {
    st.deps.map_values(|e: (Seq<char>, bool, Seq<Seq<char>>)| e.0).filter_map(
        |n: Seq<char>| if name_taken(ds, st, dev, n) {
            None
        } else {
            Some(n)
        },
    )
}

/// The features used by a package added to those enabled for it.
pub open spec fn record_features(c: ContextView, id: PackageIdView, used: Set<Seq<char>>) -> ContextView {
    if used == Set::<Seq<char>>::empty() {
        c
    } else {
        match features_index(c.features, id) {
            Some(k) => ContextView { features: c.features.update(k, (c.features[k].0, c.features[k].1.union(used))), ..c },
            None => ContextView { features: c.features.push((id, used)), ..c },
        }
    }
}

/// What resolving the features of a package under a method gives: the
/// dependencies that take part with the features to activate them with
/// (see `resolve_deps_from`); an error from the requirements, from a
/// dependency, or when names were asked for that no dependency taking
/// part has. On success the names used are added to the features enabled
/// for the package.
pub open spec fn resolve_features_spec(
    c: ContextView,
    parent: Option<PackageIdView>,
    ds: Seq<(Seq<char>, bool, bool, Seq<Seq<char>>)>,
    s: SummaryView,
    m: MethodView,
) -> (ContextView, Result<Seq<((Seq<char>, bool, bool, Seq<Seq<char>>), Seq<Seq<char>>)>, FeatureErrorView>) {
    match build_requirements_spec(s, m) {
        Err(e) => (c, Err(FeatureErrorView::Cycle(e))),
        Ok(st) => match resolve_deps_from(ds, st, dev_deps_asked(m), parent, s.package_id, 0) {
            Err(e) => (c, Err(e)),
            Ok(list) => {
                let rem = unused_names(st, ds, dev_deps_asked(m));
                if rem.len() > 0 {
                    (c, Err(FeatureErrorView::MissingFeatures(parent, s.package_id, rem)))
                } else {
                    (record_features(c, s.package_id, st.used), Ok(list))
                }
            },
        },
    }
}

/// A copy of the names.
fn copy_names(v: &Vec<String>) -> (r: Vec<String>)
    ensures
        strs(r@) == strs(v@),
{
    let mut out: Vec<String> = Vec::new();
    let mut i: usize = 0;
    while i < v.len()
        invariant
            i <= v@.len(),
            strs(out@) == strs(v@).take(i as int),
        decreases v.len() - i,
    {
        let ghost before = out@;
        let x = v[i].clone();
        assert(x@ == v@[i as int]@);
        out.push(x);
        assert(strs(out@) =~= strs(before).push(v@[i as int]@));
        assert(strs(v@).take(i + 1) =~= strs(v@).take(i as int).push(v@[i as int]@));
        i = i + 1;
    }
    assert(strs(v@).take(v@.len() as int) =~= strs(v@));
    out
}

/// The first name holding a slash, if any.
fn find_slash(v: &Vec<String>) -> (r: Option<usize>)
    ensures
        r matches Some(k) ==> k < v@.len() && first_slash(strs(v@)) == Some(v@[k as int]@),
        r is None ==> first_slash(strs(v@)) is None,
{
    let ghost sv = strs(v@);
    let mut i: usize = 0;
    while i < v.len()
        invariant
            i <= v@.len(),
            sv == strs(v@),
            first_slash(sv.take(i as int)) is None,
        decreases v.len() - i,
    {
        assert(sv.take(i + 1).drop_last() =~= sv.take(i as int));
        assert(sv[i as int] == v@[i as int]@);
        if find_char(&chars_of(v[i].as_str()), '/').is_some() {
            proof {
                lemma_first_slash_prefix(sv, (i + 1) as nat);
            }
            return Some(i);
        }
        i = i + 1;
    }
    assert(sv.take(v@.len() as int) =~= sv);
    None
}

/// Once the first `n` names hold one with a slash, it is the first of all.
proof fn lemma_first_slash_prefix(fs: Seq<Seq<char>>, n: nat)
    requires
        n <= fs.len(),
        first_slash(fs.take(n as int)) is Some,
    ensures
        first_slash(fs) == first_slash(fs.take(n as int)),
    decreases fs.len() - n,
{
    if n < fs.len() {
        assert(fs.take(n + 1int).drop_last() =~= fs.take(n as int));
        lemma_first_slash_prefix(fs, n + 1);
    } else {
        assert(fs.take(n as int) =~= fs);
    }
}

/// Whether an optional dependency has the name.
fn has_optional_named(deps: &Vec<Dependency>, name: &String) -> (r: bool)
    ensures
        r == optional_named(deps@.map_values(|d: Dependency| dep_full(d)), name@),
{
    let ghost dv = deps@.map_values(|d: Dependency| dep_full(d));
    let mut i: usize = 0;
    while i < deps.len()
        invariant
            i <= deps@.len(),
            dv == deps@.map_values(|d: Dependency| dep_full(d)),
            forall|j: int| 0 <= j < i ==> !((#[trigger] dv[j]).1 && dv[j].0 == name@),
        decreases deps.len() - i,
    {
        assert(dv[i as int] == dep_full(deps@[i as int]));
        if deps[i].optional && deps[i].name.eq(name) {
            return true;
        }
        i = i + 1;
    }
    false
}


impl<'a> Requirements<'a> {
    /// Whether the dependency was asked for itself, and the features asked
    /// of it.
    fn asked_of(&self, name: &str) -> (r: (bool, Vec<String>))
        ensures
            (r.0, strs(r.1@)) == (match dep_index(self@.deps, name@) {
                Some(k) => (self@.deps[k].1, self@.deps[k].2),
                None => (false, Seq::<Seq<char>>::empty()),
            }),
    {
        match self.find_dep(name) {
            Some(k) => (self.deps[k].1, copy_names(&self.deps[k].2)),
            None => {
                let v: Vec<String> = Vec::new();
                assert(strs(v@) =~= Seq::<Seq<char>>::empty());
                (false, v)
            },
        }
    }

    /// Whether a dependency entry has the name.
    fn has_dep(&self, name: &str) -> (r: bool)
        ensures
            r == (dep_index(self@.deps, name@) is Some),
    {
        self.find_dep(name).is_some()
    }
}

/// The views of resolved dependencies with their features.
pub open spec fn resolved_view(v: Seq<(Dependency, Vec<String>)>) -> Seq<((Seq<char>, bool, bool, Seq<Seq<char>>), Seq<Seq<char>>)> {
    v.map_values(|x: (Dependency, Vec<String>)| (dep_full(x.0), strs(x.1@)))
}

/// The id of an optional summary.
pub open spec fn opt_summary_id(p: Option<&Summary>) -> Option<PackageIdView> {
    match p {
        Some(x) => Some(x@.package_id),
        None => None,
    }
}

/// Adds the names to the list.
fn add_names(v: &mut Vec<String>, names: &Vec<String>)
    ensures
        strs(final(v)@).to_set() == strs(old(v)@).to_set().union(strs(names@).to_set()),
{
    let ghost start = strs(v@).to_set();
    let mut j: usize = 0;
    while j < names.len()
        invariant
            j <= names@.len(),
            strs(v@).to_set() == start.union(strs(names@).take(j as int).to_set()),
        decreases names.len() - j,
    {
        insert_name(v, names[j].as_str());
        proof {
            assert(strs(names@).take(j + 1) =~= strs(names@).take(j as int).push(names@[j as int]@));
            lemma_push_to_set(strs(names@).take(j as int), names@[j as int]@);
            assert(start.union(strs(names@).take(j + 1).to_set()) =~= start.union(
                strs(names@).take(j as int).to_set(),
            ).insert(names@[j as int]@));
        }
        j = j + 1;
    }
    assert(strs(names@).take(names@.len() as int) =~= strs(names@));
}

impl Context {
    /// Resolves the features of a package under a method (see
    /// `resolve_features_spec`); `parent` is the package whose dependency
    /// asks, if any.
    pub fn resolve_features(&mut self, parent: Option<&Summary>, s: &Summary, method: &Method) -> (r: Result<Vec<(Dependency, Vec<String>)>, FeatureError>)
        ensures
            final(self).checks_public_deps() == old(self).checks_public_deps(),
            ({
                let (c, res) = resolve_features_spec(
                    old(self)@,
                    opt_summary_id(parent),
                    s.dep_list().map_values(|d: Dependency| dep_full(d)),
                    s@,
                    method@,
                );
                &&& final(self)@ == c
                &&& match r {
                    Ok(v) => res == Ok::<_, FeatureErrorView>(resolved_view(v@)),
                    Err(e) => res == Err::<Seq<((Seq<char>, bool, bool, Seq<Seq<char>>), Seq<Seq<char>>)>, _>(e@),
                }
            }),
    {
        proof {
            use_type_invariant(&*self);
        }
        let ghost c0 = self@;
        let dev = match method {
            Method::Everything => true,
            Method::Required { dev_deps, .. } => *dev_deps,
        };
        let reqs = match build_requirements(s, method) {
            Ok(q) => q,
            Err(e) => {
                return Err(e);
            },
        };
        let ghost st = reqs@;
        let ghost par = opt_summary_id(parent);
        let ghost pkg = s@.package_id;
        let deps = s.dependencies();
        let ghost ds = deps@.map_values(|d: Dependency| dep_full(d));
        assert(ds == s.dep_list().map_values(|d: Dependency| dep_full(d)));
        let mut ret: Vec<(Dependency, Vec<String>)> = Vec::new();
        let mut taken: Vec<String> = Vec::new();
        let mut i: usize = 0;
        while i < deps.len()
            invariant
                i <= deps@.len(),
                ds == deps@.map_values(|d: Dependency| dep_full(d)),
                ds == s.dep_list().map_values(|d: Dependency| dep_full(d)),
                c0 == old(self)@,
                self@ == c0,
                build_requirements_spec(s@, method@) == Ok::<ReqState, Seq<char>>(st),
                reqs@ == st,
                dev == dev_deps_asked(method@),
                par == opt_summary_id(parent),
                pkg == s@.package_id,
                resolve_deps_from(ds, st, dev, par, pkg, 0) == match resolve_deps_from(ds, st, dev, par, pkg, i as nat) {
                    Err(e) => Err(e),
                    Ok(rest) => Ok(resolved_view(ret@) + rest),
                },
                forall|n: Seq<char>|
                    strs(taken@).to_set().contains(n) <==> exists|j: int|
                        0 <= j < i && takes_part(#[trigger] ds[j], st, dev) && ds[j].0 == n,
            decreases deps.len() - i,
        {
            let d = &deps[i];
            assert(ds[i as int] == dep_full(*d));
            let ghost taken0 = strs(taken@).to_set();
            if (d.transitive || dev) && (!d.optional || reqs.has_dep(d.name.as_str())) {
                insert_name(&mut taken, d.name.as_str());
                let (asked, fts) = reqs.asked_of(d.name.as_str());
                let always = !d.optional && !has_optional_named(deps, &d.name);
                if always && asked {
                    let pid = match parent {
                        Some(p) => Some(p.package_id().duplicate()),
                        None => None,
                    };
                    return Err(
                        FeatureError::RequiredDependencyAsFeature {
                            parent: pid,
                            package: s.package_id().duplicate(),
                            dep: d.name.clone(),
                        },
                    );
                }
                let mut base = fts;
                let ghost b0 = strs(base@);
                let mut k: usize = 0;
                while k < d.features.len()
                    invariant
                        k <= d.features@.len(),
                        strs(base@) == b0 + strs(d.features@).take(k as int),
                    decreases d.features.len() - k,
                {
                    let ghost before = base@;
                    let x = d.features[k].clone();
                    base.push(x);
                    assert(strs(base@) =~= strs(before).push(d.features@[k as int]@));
                    assert(strs(d.features@).take(k + 1) =~= strs(d.features@).take(k as int).push(d.features@[k as int]@));
                    k = k + 1;
                }
                assert(strs(d.features@).take(d.features@.len() as int) =~= strs(d.features@));
                match find_slash(&base) {
                    Some(k) => {
                        return Err(FeatureError::SlashInFeature(base[k].clone()));
                    },
                    None => {},
                }
                let ghost before = ret@;
                ret.push((d.duplicate(), base));
                proof {
                    assert(resolved_view(ret@) =~= resolved_view(before).push((ds[i as int], strs(base@))));
                    match resolve_deps_from(ds, st, dev, par, pkg, (i + 1) as nat) {
                        Err(e) => {},
                        Ok(rest) => {
                            assert(resolved_view(before) + (seq![(ds[i as int], strs(base@))] + rest) =~= resolved_view(ret@) + rest);
                        },
                    }
                    assert forall|n: Seq<char>|
                        strs(taken@).to_set().contains(n) <==> exists|j: int|
                            0 <= j < i + 1 && takes_part(#[trigger] ds[j], st, dev) && ds[j].0 == n by {
                        if n == ds[i as int].0 {
                            assert(takes_part(ds[i as int], st, dev));
                        }
                    }
                }
            } else {
                proof {
                    assert forall|n: Seq<char>|
                        strs(taken@).to_set().contains(n) <==> exists|j: int|
                            0 <= j < i + 1 && takes_part(#[trigger] ds[j], st, dev) && ds[j].0 == n by {
                        if exists|j: int| 0 <= j < i + 1 && takes_part(#[trigger] ds[j], st, dev) && ds[j].0 == n {
                            let j = choose|j: int| 0 <= j < i + 1 && takes_part(#[trigger] ds[j], st, dev) && ds[j].0 == n;
                            assert(j != i);
                        }
                    }
                }
            }
            i = i + 1;
        }
        assert(resolved_view(ret@) + Seq::empty() =~= resolved_view(ret@));
        let ghost names = st.deps.map_values(|e: (Seq<char>, bool, Seq<Seq<char>>)| e.0);
        let ghost pred = |n: Seq<char>| if name_taken(ds, st, dev, n) {
            None
        } else {
            Some(n)
        };
        let mut remaining: Vec<String> = Vec::new();
        let mut k: usize = 0;
        while k < reqs.deps.len()
            invariant
                k <= reqs.deps@.len(),
                reqs@ == st,
                names == st.deps.map_values(|e: (Seq<char>, bool, Seq<Seq<char>>)| e.0),
                pred == (|n: Seq<char>| if name_taken(ds, st, dev, n) {
                    None
                } else {
                    Some(n)
                }),
                forall|n: Seq<char>|
                    strs(taken@).to_set().contains(n) <==> exists|j: int|
                        0 <= j < deps@.len() && takes_part(#[trigger] ds[j], st, dev) && ds[j].0 == n,
                ds.len() == deps@.len(),
                strs(remaining@) == names.take(k as int).filter_map(pred),
            decreases reqs.deps.len() - k,
        {
            proof {
                names.lemma_filter_map_take_succ(pred, k as int);
            }
            assert(names[k as int] == reqs.deps@[k as int].0@);
            if !holds_name(&taken, reqs.deps[k].0.as_str()) {
                let ghost before = remaining@;
                remaining.push(reqs.deps[k].0.clone());
                assert(strs(remaining@) =~= strs(before).push(names[k as int]));
            }
            k = k + 1;
        }
        assert(names.take(names.len() as int) =~= names);
        if remaining.len() > 0 {
            let pid = match parent {
                Some(p) => Some(p.package_id().duplicate()),
                None => None,
            };
            return Err(FeatureError::MissingFeatures { parent: pid, package: s.package_id().duplicate(), names: remaining });
        }
        if reqs.used.len() > 0 {
            let used = &reqs.used;
            assert(strs(used@).to_set().contains(strs(used@)[0]));
            let found = self.find_features(s.package_id());
            proof {
                lemma_features_index(c0.features, pkg);
            }
            let mut rf: Vec<(PackageId, Vec<String>)> = Vec::new();
            std::mem::swap(&mut rf, &mut self.resolve_features);
            match found {
                Some(k) => {
                    let mut e = rf.remove(k);
                    add_names(&mut e.1, used);
                    rf.insert(k, e);
                },
                None => {
                    rf.push((s.package_id().duplicate(), copy_names(used)));
                },
            }
            self.resolve_features = rf;
            assert(self@ =~= record_features(c0, pkg, st.used));
        } else {
            assert(st.used =~= Set::<Seq<char>>::empty());
        }
        Ok(ret)
    }
}


/// A package whose key is not active becomes active, at the age the
/// context had, once activating it succeeds.
pub proof fn lemma_activation_makes_active(c: ContextView, s: SummaryView, links: Option<Seq<char>>, m: MethodView)
    requires
        key_index(c.activations, s.package_id) is None,
        flag_activated_spec(c, s, links, m).1 is Ok,
    ensures
        active_age(flag_activated_spec(c, s, links, m).0, s.package_id) == Some(c.activations.len()),
        flag_activated_spec(c, s, links, m).1 == Ok::<bool, Seq<char>>(false),
{
    let c2 = flag_activated_spec(c, s, links, m).0;
    assert(c2.activations.drop_last() =~= c.activations);
    assert(same_key(s.package_id, s.package_id));
}

/// Activating a package a second time with the same key changes nothing.
pub proof fn lemma_reactivation_keeps_context(c: ContextView, s: SummaryView, links: Option<Seq<char>>, m: MethodView)
    requires
        key_index(c.activations, s.package_id) is Some,
    ensures
        flag_activated_spec(c, s, links, m).0 == c,
        flag_activated_spec(c, s, links, m).1 is Ok,
{
}


/// A package that can satisfy a dependency: its id and the native library
/// it links, if any.
#[derive(Debug)]
pub struct Candidate {
    pub id: PackageId,
    pub links: Option<String>,
}

/// The mathematical value of a `Candidate`.
pub struct CandidateView {
    pub id: PackageIdView,
    pub links: Option<Seq<char>>,
}

impl View for Candidate {
    type V = CandidateView;

    open spec fn view(&self) -> CandidateView {
        CandidateView { id: self.id@, links: opt_str(self.links) }
    }
}

impl Candidate {
    /// A copy of the candidate.
    pub fn duplicate(&self) -> (r: Candidate)
        ensures
            r@ == self@,
    {
        Candidate { id: self.id.duplicate(), links: clone_opt_string(&self.links) }
    }
}

/// Why an active package keeps a candidate out.
#[derive(Debug)]
pub enum ConflictReason {
    /// It is a semver-compatible version of the same crate.
    Semver,
    /// It links the same native library.
    Links(String),
}

/// The mathematical value of a `ConflictReason`.
pub enum ConflictReasonView {
    Semver,
    Links(Seq<char>),
}

impl View for ConflictReason {
    type V = ConflictReasonView;

    open spec fn view(&self) -> ConflictReasonView {
        match self {
            ConflictReason::Semver => ConflictReasonView::Semver,
            ConflictReason::Links(l) => ConflictReasonView::Links(l@),
        }
    }
}

/// Whether the candidate may be activated in the context: no other
/// package links its library, and no other version of its compatibility
/// line is active. Otherwise the active package in the way, and why.
pub open spec fn candidate_check(c: ContextView, b: CandidateView) -> Option<(PackageIdView, ConflictReasonView)> {
    let links_conflict = match b.links {
        Some(l) => match link_index(c.links, l) {
            Some(k) => if !same_package(c.links[k].1, b.id) {
                Some((c.links[k].1, ConflictReasonView::Links(l)))
            } else {
                None
            },
            None => None,
        },
        None => None,
    };
    match links_conflict {
        Some(x) => Some(x),
        None => match key_index(c.activations, b.id) {
            Some(k) => if !same_package(c.activations[k].0, b.id) {
                Some((c.activations[k].0, ConflictReasonView::Semver))
            } else {
                None
            },
            None => None,
        },
    }
}

/// The conflicts with a reason recorded for a package, unless one is
/// recorded for it already.
pub open spec fn record_conflict(
    m: Seq<(PackageIdView, ConflictReasonView)>,
    a: PackageIdView,
    why: ConflictReasonView,
) -> Seq<(PackageIdView, ConflictReasonView)> {
    if exists|i: int| 0 <= i < m.len() && same_package((#[trigger] m[i]).0, a) {
        m
    } else {
        m.push((a, why))
    }
}

/// Scanning the candidates from the `i`-th on with one possibly held
/// back: each one kept out records its conflict; the first one that may
/// be activated is returned when one is held back (which it replaces, with
/// `true`: more may follow), or else is held back; at the end, the one
/// held back is returned with `false`. Gives the position reached, the
/// one held back, the result, and the conflicts.
pub open spec fn scan_candidates(
    c: ContextView,
    rem: Seq<CandidateView>,
    i: nat,
    held: Option<CandidateView>,
    conflicts: Seq<(PackageIdView, ConflictReasonView)>,
) -> (nat, Option<CandidateView>, Option<(CandidateView, bool)>, Seq<(PackageIdView, ConflictReasonView)>)
    decreases rem.len() - i,
{
    if i >= rem.len() {
        (
            rem.len(),
            None,
            match held {
                Some(r) => Some((r, false)),
                None => None,
            },
            conflicts,
        )
    } else {
        match candidate_check(c, rem[i as int]) {
            Some((a, why)) => scan_candidates(c, rem, i + 1, held, record_conflict(conflicts, a, why)),
            None => match held {
                Some(r) => (i + 1, Some(rem[i as int]), Some((r, true)), conflicts),
                None => scan_candidates(c, rem, i + 1, Some(rem[i as int]), conflicts),
            },
        }
    }
}

/// The candidates for a dependency that are left to try, in order, with
/// the next one that may be activated held back so that each returned one
/// tells whether another follows.
pub struct RemainingCandidates {
    remaining: Vec<Candidate>,
    pos: usize,
    has_another: Option<Candidate>,
}

/// The mathematical value of `RemainingCandidates`: the candidates, the
/// position reached, and the one held back.
pub struct RemainingView {
    pub remaining: Seq<CandidateView>,
    pub pos: nat,
    pub held: Option<CandidateView>,
}

/// The view of an optional candidate.
pub open spec fn opt_candidate(o: Option<Candidate>) -> Option<CandidateView> {
    match o {
        Some(x) => Some(x@),
        None => None,
    }
}

impl View for RemainingCandidates {
    type V = RemainingView;

    closed spec fn view(&self) -> RemainingView {
        RemainingView {
            remaining: self.remaining@.map_values(|b: Candidate| b@),
            pos: self.pos as nat,
            held: opt_candidate(self.has_another),
        }
    }
}

/// The views of conflicts.
pub open spec fn conflicts_view(v: Seq<(PackageId, ConflictReason)>) -> Seq<(PackageIdView, ConflictReasonView)> {
    v.map_values(|x: (PackageId, ConflictReason)| (x.0@, x.1@))
}

/// A copy of a conflict's reason.
pub fn copy_reason(r: &ConflictReason) -> (out: ConflictReason)
    ensures
        out@ == r@,
{
    match r {
        ConflictReason::Semver => ConflictReason::Semver,
        ConflictReason::Links(l) => ConflictReason::Links(l.clone()),
    }
}

/// A copy of the conflicts.
pub fn copy_conflicts(v: &Vec<(PackageId, ConflictReason)>) -> (r: Vec<(PackageId, ConflictReason)>)
    ensures
        conflicts_view(r@) == conflicts_view(v@),
{
    let mut out: Vec<(PackageId, ConflictReason)> = Vec::new();
    let mut i: usize = 0;
    while i < v.len()
        invariant
            i <= v@.len(),
            out@.len() == i,
            forall|j: int| 0 <= j < i ==> (#[trigger] out@[j]).0@ == v@[j].0@ && out@[j].1@ == v@[j].1@,
        decreases v.len() - i,
    {
        out.push((v[i].0.duplicate(), copy_reason(&v[i].1)));
        i = i + 1;
    }
    assert(conflicts_view(out@) =~= conflicts_view(v@));
    out
}

/// Records a conflict (see `record_conflict`).
fn add_conflict(m: &mut Vec<(PackageId, ConflictReason)>, a: &PackageId, why: ConflictReason)
    ensures
        conflicts_view(final(m)@) == record_conflict(conflicts_view(old(m)@), a@, why@),
{
    let ghost mv = conflicts_view(m@);
    let mut i: usize = 0;
    while i < m.len()
        invariant
            i <= m@.len(),
            mv == conflicts_view(m@),
            forall|j: int| 0 <= j < i ==> !same_package((#[trigger] mv[j]).0, a@),
        decreases m.len() - i,
    {
        assert(mv[i as int].0 == m@[i as int].0@);
        if m[i].0.same(a) {
            return;
        }
        i = i + 1;
    }
    let ghost before = m@;
    m.push((a.duplicate(), why));
    assert(conflicts_view(m@) =~= conflicts_view(before).push((a@, why@)));
}

impl Context {
    /// Whether the candidate may be activated (see `candidate_check`).
    pub fn check_candidate(&self, b: &Candidate) -> (r: Option<(PackageId, ConflictReason)>)
        ensures
            match candidate_check(self@, b@) {
                Some((a, why)) => r matches Some(x) && x.0@ == a && x.1@ == why,
                None => r is None,
            },
    {
        match &b.links {
            Some(l) => {
                match self.find_link(l.as_str()) {
                    Some(k) => {
                        proof {
                            lemma_link_index(self@.links, l@);
                        }
                        assert(self@.links[k as int].1 == self.links@[k as int].1@);
                        if !self.links[k].1.same(&b.id) {
                            return Some((self.links[k].1.duplicate(), ConflictReason::Links(string_from(l.as_str()))));
                        }
                    },
                    None => {},
                }
            },
            None => {},
        }
        match self.find_key(&b.id) {
            Some(k) => {
                assert(self@.activations[k as int].0 == self.activations@[k as int].0@);
                if !self.activations[k].0.same(&b.id) {
                    Some((self.activations[k].0.duplicate(), ConflictReason::Semver))
                } else {
                    None
                }
            },
            None => None,
        }
    }
}

impl RemainingCandidates {
    #[verifier::type_invariant]
    spec fn wf(&self) -> bool {
        self.pos <= self.remaining@.len()
    }

    /// A copy, to go back to.
    pub fn duplicate(&self) -> (r: RemainingCandidates)
        ensures
            r@ == self@,
    {
        proof {
            use_type_invariant(self);
        }
        let mut v: Vec<Candidate> = Vec::new();
        let mut i: usize = 0;
        while i < self.remaining.len()
            invariant
                i <= self.remaining@.len(),
                v@.len() == i,
                forall|j: int| 0 <= j < i ==> (#[trigger] v@[j])@ == self.remaining@[j]@,
            decreases self.remaining.len() - i,
        {
            v.push(self.remaining[i].duplicate());
            i = i + 1;
        }
        let held = match &self.has_another {
            Some(h) => Some(h.duplicate()),
            None => None,
        };
        let r = RemainingCandidates { remaining: v, pos: self.pos, has_another: held };
        assert(r@.remaining =~= self@.remaining);
        r
    }

    /// All the candidates left to try, none held back.
    pub fn new(candidates: &Vec<Candidate>) -> (r: RemainingCandidates)
        ensures
            r@.remaining == candidates@.map_values(|b: Candidate| b@),
            r@.pos == 0,
            r@.held is None,
    {
        let mut v: Vec<Candidate> = Vec::new();
        let mut i: usize = 0;
        while i < candidates.len()
            invariant
                i <= candidates@.len(),
                v@.map_values(|b: Candidate| b@) == candidates@.map_values(|b: Candidate| b@).take(i as int),
            decreases candidates.len() - i,
        {
            let ghost before = v@;
            v.push(candidates[i].duplicate());
            assert(v@.map_values(|b: Candidate| b@) =~= before.map_values(|b: Candidate| b@).push(candidates@[i as int]@));
            assert(candidates@.map_values(|b: Candidate| b@).take(i + 1) =~= candidates@.map_values(|b: Candidate| b@).take(
                i as int,
            ).push(candidates@[i as int]@));
            i = i + 1;
        }
        assert(candidates@.map_values(|b: Candidate| b@).take(candidates@.len() as int) =~= candidates@.map_values(
            |b: Candidate| b@,
        ));
        RemainingCandidates { remaining: v, pos: 0, has_another: None }
    }

    /// The next candidate that may be activated in the context, and
    /// whether another may follow (see `scan_candidates`); conflicts met
    /// on the way are recorded.
    pub fn next(&mut self, conflicting_prev_active: &mut Vec<(PackageId, ConflictReason)>, cx: &Context) -> (r: Option<(Candidate, bool)>)
        ensures
            ({
                let (pos, held, res, confl) = scan_candidates(
                    cx@,
                    old(self)@.remaining,
                    old(self)@.pos,
                    old(self)@.held,
                    conflicts_view(old(conflicting_prev_active)@),
                );
                &&& final(self)@ == RemainingView { remaining: old(self)@.remaining, pos, held }
                &&& conflicts_view(final(conflicting_prev_active)@) == confl
                &&& match r {
                    Some((b, more)) => res == Some((b@, more)),
                    None => res is None,
                }
            }),
    {
        proof {
            use_type_invariant(&*self);
        }
        let ghost rem = self@.remaining;
        let ghost goal = scan_candidates(
            cx@,
            rem,
            self@.pos,
            self@.held,
            conflicts_view(conflicting_prev_active@),
        );
        while self.pos < self.remaining.len()
            invariant
                self.pos <= self.remaining@.len(),
                rem == self@.remaining,
                rem == old(self)@.remaining,
                goal == scan_candidates(
                    cx@,
                    old(self)@.remaining,
                    old(self)@.pos,
                    old(self)@.held,
                    conflicts_view(old(conflicting_prev_active)@),
                ),
                goal == scan_candidates(cx@, rem, self@.pos, self@.held, conflicts_view(conflicting_prev_active@)),
            decreases self.remaining.len() - self.pos,
        {
            let i = self.pos;
            assert(rem[i as int] == self.remaining@[i as int]@);
            self.pos = i + 1;
            match cx.check_candidate(&self.remaining[i]) {
                Some((a, why)) => {
                    add_conflict(conflicting_prev_active, &a, why);
                },
                None => {
                    let b = self.remaining[i].duplicate();
                    let prev = match &self.has_another {
                        Some(h) => Some(h.duplicate()),
                        None => None,
                    };
                    self.has_another = Some(b);
                    match prev {
                        Some(r) => {
                            return Some((r, true));
                        },
                        None => {},
                    }
                },
            }
        }
        let last = match &self.has_another {
            Some(h) => Some(h.duplicate()),
            None => None,
        };
        self.has_another = None;
        match last {
            Some(r) => Some((r, false)),
            None => None,
        }
    }
}


/// The candidates handed out may be activated: the one returned, and the
/// one held back, pass `candidate_check` when the one held back before did;
/// and when another may follow, one is held back.
pub proof fn lemma_candidates_pass_check(
    c: ContextView,
    rem: Seq<CandidateView>,
    i: nat,
    held: Option<CandidateView>,
    conflicts: Seq<(PackageIdView, ConflictReasonView)>,
)
    requires
        held matches Some(h) ==> candidate_check(c, h) is None,
    ensures
        ({
            let (pos, held2, res, _) = scan_candidates(c, rem, i, held, conflicts);
            &&& res matches Some((b, _)) ==> candidate_check(c, b) is None
            &&& held2 matches Some(h) ==> candidate_check(c, h) is None
            &&& res matches Some((_, more)) ==> (more <==> held2 is Some)
        }),
    decreases rem.len() - i,
{
    if i < rem.len() {
        match candidate_check(c, rem[i as int]) {
            Some((a, why)) => lemma_candidates_pass_check(c, rem, i + 1, held, record_conflict(conflicts, a, why)),
            None => match held {
                Some(_) => {},
                None => lemma_candidates_pass_check(c, rem, i + 1, Some(rem[i as int]), conflicts),
            },
        }
    }
}


/// A point the resolver can go back to: the context then, the candidates
/// left for the dependency being resolved, the package whose dependency
/// it is, and the conflicts met so far for it.
pub struct BacktrackFrame {
    pub context: Context,
    pub remaining_candidates: RemainingCandidates,
    pub parent: PackageId,
    pub conflicting_activations: Vec<(PackageId, ConflictReason)>,
}

/// The mathematical value of a `BacktrackFrame`.
pub struct FrameView {
    pub context: ContextView,
    pub candidates: RemainingView,
    pub parent: PackageIdView,
    pub conflicts: Seq<(PackageIdView, ConflictReasonView)>,
}

impl View for BacktrackFrame {
    type V = FrameView;

    open spec fn view(&self) -> FrameView {
        FrameView {
            context: self.context@,
            candidates: self.remaining_candidates@,
            parent: self.parent@,
            conflicts: conflicts_view(self.conflicting_activations@),
        }
    }
}

/// A frame after asking it for its next candidate, and the answer (see
/// `scan_candidates`).
pub open spec fn frame_next(f: FrameView) -> (FrameView, Option<(CandidateView, bool)>) {
    let (pos, held, res, confl) = scan_candidates(f.context, f.candidates.remaining, f.candidates.pos, f.candidates.held, f.conflicts);
    (FrameView { candidates: RemainingView { remaining: f.candidates.remaining, pos, held }, conflicts: confl, ..f }, res)
}

/// Going back through the frames, newest first: a frame with no candidate
/// left is dropped; so is one whose context is newer than `age`, the age
/// by which every conflicting package was active (going back to it could
/// not change the outcome). Gives how many frames are left below the one
/// found, and the candidate found, whether another may follow, and the
/// frame as asked.
pub open spec fn find_from(stack: Seq<FrameView>, age: Option<nat>) -> (nat, Option<(CandidateView, bool, FrameView)>)
    decreases stack.len(),
{
    if stack.len() == 0 {
        (0, None)
    } else {
        let (f2, res) = frame_next(stack.last());
        match res {
            None => find_from(stack.drop_last(), age),
            Some((c, more)) => if age matches Some(a) && stack.last().context.activations.len() > a {
                find_from(stack.drop_last(), age)
            } else {
                ((stack.len() - 1) as nat, Some((c, more, f2)))
            },
        }
    }
}

/// The age to go back to after `parent` failed to activate: unless the
/// failure came from going back already, the age by which the parent and
/// every conflicting package were active, if they all still are.
pub open spec fn jump_age(
    cx: ContextView,
    parent: PackageIdView,
    conflicts: Seq<(PackageIdView, ConflictReasonView)>,
    backtracked: bool,
) -> Option<nat> {
    if backtracked {
        None
    } else {
        newest_age(cx, conflicts.map_values(|x: (PackageIdView, ConflictReasonView)| x.0) + seq![parent])
    }
}

/// The ids of the conflicts.
fn conflict_ids(conflicts: &Vec<(PackageId, ConflictReason)>) -> (r: Vec<PackageId>)
    ensures
        r@.map_values(|p: PackageId| p@) == conflicts_view(conflicts@).map_values(
            |x: (PackageIdView, ConflictReasonView)| x.0,
        ),
{
    let mut out: Vec<PackageId> = Vec::new();
    let mut i: usize = 0;
    while i < conflicts.len()
        invariant
            i <= conflicts@.len(),
            out@.map_values(|p: PackageId| p@) == conflicts_view(conflicts@).map_values(
                |x: (PackageIdView, ConflictReasonView)| x.0,
            ).take(i as int),
        decreases conflicts.len() - i,
    {
        let ghost before = out@;
        out.push(conflicts[i].0.duplicate());
        assert(out@.map_values(|p: PackageId| p@) =~= before.map_values(|p: PackageId| p@).push(conflicts@[i as int].0@));
        assert(conflicts_view(conflicts@).map_values(|x: (PackageIdView, ConflictReasonView)| x.0).take(i + 1)
            =~= conflicts_view(conflicts@).map_values(|x: (PackageIdView, ConflictReasonView)| x.0).take(i as int).push(
            conflicts@[i as int].0@,
        ));
        i = i + 1;
    }
    assert(conflicts_view(conflicts@).map_values(|x: (PackageIdView, ConflictReasonView)| x.0).take(
        conflicts@.len() as int,
    ) =~= conflicts_view(conflicts@).map_values(|x: (PackageIdView, ConflictReasonView)| x.0));
    out
}

/// Looks back through the frames for the next candidate to try after
/// `parent` failed to activate with the given conflicts (see `find_from`
/// and `jump_age`); the frames gone through are removed.
pub fn find_candidate(
    cx: &Context,
    backtrack_stack: &mut Vec<BacktrackFrame>,
    parent: &PackageId,
    backtracked: bool,
    conflicting_activations: &Vec<(PackageId, ConflictReason)>,
) -> (r: Option<(Candidate, bool, BacktrackFrame)>)
    ensures
        ({
            let (left, res) = find_from(
                old(backtrack_stack)@.map_values(|f: BacktrackFrame| f@),
                jump_age(cx@, parent@, conflicts_view(conflicting_activations@), backtracked),
            );
            &&& final(backtrack_stack)@.map_values(|f: BacktrackFrame| f@) == old(backtrack_stack)@.map_values(
                |f: BacktrackFrame| f@,
            ).take(left as int)
            &&& match r {
                Some((c, more, f)) => res == Some((c@, more, f@)),
                None => res is None,
            }
        }),
{
    let age = if !backtracked {
        let mut ids = conflict_ids(conflicting_activations);
        cx.is_conflicting(Some(parent), &ids)
    } else {
        None
    };
    let ghost a = jump_age(cx@, parent@, conflicts_view(conflicting_activations@), backtracked);
    assert(match age {
        Some(x) => a == Some(x as nat),
        None => a is None,
    });
    let ghost all = backtrack_stack@.map_values(|f: BacktrackFrame| f@);
    let ghost goal = find_from(all, a);
    while backtrack_stack.len() > 0
        invariant
            all == old(backtrack_stack)@.map_values(|f: BacktrackFrame| f@),
            a == jump_age(cx@, parent@, conflicts_view(conflicting_activations@), backtracked),
            goal == find_from(all, a),
            goal == find_from(backtrack_stack@.map_values(|f: BacktrackFrame| f@), a),
            backtrack_stack@.len() <= all.len(),
            backtrack_stack@.map_values(|f: BacktrackFrame| f@) == all.take(backtrack_stack@.len() as int),
            match age {
                Some(x) => a == Some(x as nat),
                None => a is None,
            },
        decreases backtrack_stack.len(),
    {
        let ghost sv = backtrack_stack@.map_values(|f: BacktrackFrame| f@);
        let mut frame = backtrack_stack.pop().unwrap();
        assert(frame@ == sv.last());
        assert(backtrack_stack@.map_values(|f: BacktrackFrame| f@) =~= sv.drop_last());
        assert(sv.drop_last() =~= all.take(backtrack_stack@.len() as int));
        let next = frame.remaining_candidates.next(&mut frame.conflicting_activations, &frame.context);
        match next {
            None => {},
            Some((candidate, has_another)) => {
                let skip = match age {
                    Some(x) => frame.context.age() > x,
                    None => false,
                };
                if !skip {
                    return Some((candidate, has_another, frame));
                }
            },
        }
    }
    None
}


/// Going back lands on a frame no newer than the age by which every
/// conflicting package was active, the frame at the position left, asked
/// for its next candidate; every newer frame had no candidate left or was
/// newer than that age.
pub proof fn lemma_backjump_lands_old_enough(stack: Seq<FrameView>, age: Option<nat>)
    ensures
        ({
            let (left, res) = find_from(stack, age);
            &&& left <= stack.len()
            &&& res matches Some((c, more, f)) ==> {
                &&& left < stack.len()
                &&& f.context == stack[left as int].context
                &&& frame_next(stack[left as int]) == (f, Some((c, more)))
                &&& (age matches Some(a) ==> f.context.activations.len() <= a)
            }
            &&& forall|k: int|
                #![trigger stack[k]]
                left < k < stack.len() ==> (frame_next(stack[k]).1 is None || (age matches Some(a)
                    && stack[k].context.activations.len() > a))
        }),
    decreases stack.len(),
{
    if stack.len() > 0 {
        lemma_backjump_lands_old_enough(stack.drop_last(), age);
        assert forall|k: int| 0 <= k < stack.len() - 1 implies stack.drop_last()[k] == #[trigger] stack[k] by {}
    }
}


/// Asking for features only adds names: the names used grow, and stay a
/// superset of those visited.
proof fn lemma_req_grows(fs: Seq<(Seq<char>, Seq<Seq<char>>)>, n: nat, st: ReqState, f: Seq<char>, v: FeatureValueView, es: Seq<Seq<char>>, owner: Seq<char>, i: nat, which: nat)
    requires
        st.visited.subset_of(st.used),
    ensures
        which == 0 ==> (req_feature(fs, n, st, f) matches Ok(s2) ==> st.used.subset_of(s2.used) && s2.visited.subset_of(s2.used)),
        which == 1 ==> (req_value(fs, n, st, v) matches Ok(s2) ==> st.used.subset_of(s2.used) && s2.visited.subset_of(s2.used)),
        which == 2 ==> (req_entries(fs, n, st, owner, es, i) matches Ok(s2) ==> st.used.subset_of(s2.used) && s2.visited.subset_of(s2.used)),
    decreases n, which, es.len() - i,
{
    if which == 0 {
        if !(f.len() == 0 || st.visited.contains(f)) && n > 0 {
            lemma_req_grows(fs, (n - 1) as nat, mark_seen(st, f), f, v, feature_entries(fs, f), f, 0, 2);
        }
    } else if which == 1 {
        match v {
            FeatureValueView::Feature(g) => lemma_req_grows(fs, n, st, g, v, es, owner, i, 0),
            _ => {},
        }
    } else if which == 2 {
        if i < es.len() {
            let v2 = feature_value(fs, es[i as int]);
            if v2 != FeatureValueView::Feature(owner) {
                lemma_req_grows(fs, n, st, f, v2, es, owner, i, 1);
                match req_value(fs, n, st, v2) {
                    Ok(s2) => lemma_req_grows(fs, n, s2, f, v, es, owner, i + 1, 2),
                    Err(_) => {},
                }
            }
        }
    }
}

/// Whether a name asks for a feature or a dependency by its own name: not
/// empty and without a slash.
pub open spec fn plain_name(f: Seq<char>) -> bool {
    f.len() > 0 && find(f, '/') is None
}

/// Every plain name asked for, from the `i`-th on, is used once asking
/// for them succeeds; the names used only grow.
proof fn lemma_names_used(fs: Seq<(Seq<char>, Seq<Seq<char>>)>, n: nat, st: ReqState, names: Seq<Seq<char>>, i: nat)
    requires
        st.visited.subset_of(st.used),
        n > 0,
    ensures
        req_names_from(fs, n, st, names, i) matches Ok(s2) ==> {
            &&& st.used.subset_of(s2.used)
            &&& s2.visited.subset_of(s2.used)
            &&& forall|j: int| i <= j < names.len() && plain_name(#[trigger] names[j]) ==> s2.used.contains(names[j])
        },
    decreases names.len() - i,
{
    if i < names.len() {
        let v = feature_value(fs, names[i as int]);
        lemma_req_grows(fs, n, st, names[i as int], v, Seq::empty(), Seq::empty(), 0, 1);
        match req_value(fs, n, st, v) {
            Ok(s2) => {
                lemma_names_used(fs, n, s2, names, i + 1);
                if plain_name(names[i as int]) {
                    let f = names[i as int];
                    assert(split_once(f, '/') == (f, None::<Seq<char>>));
                    assert(s2.used.contains(f)) by {
                        if has_feature(fs, f) {
                            assert(v == FeatureValueView::Feature(f));
                            if !st.visited.contains(f) {
                                lemma_req_grows(fs, (n - 1) as nat, mark_seen(st, f), f, v, feature_entries(fs, f), f, 0, 2);
                            }
                        } else {
                            assert(v == FeatureValueView::Crate(f));
                        }
                    }
                }
            },
            Err(_) => {},
        }
    }
}

/// The features resolved for a package are recorded: after resolving the
/// plain names a method asks for (and `default` when asked for and
/// present) succeeds, activating the package again with that method asks
/// for nothing new. (Names of the form `dep/feature` are not recorded
/// under their own name, so they are left out.)
pub proof fn lemma_resolved_features_are_recorded(
    c: ContextView,
    parent: Option<PackageIdView>,
    ds: Seq<(Seq<char>, bool, bool, Seq<Seq<char>>)>,
    s: SummaryView,
    m: MethodView,
)
    requires
        !all_features_asked(m),
        m matches MethodView::Required { features, .. } && forall|i: int| 0 <= i < features.len() ==> plain_name(
            #[trigger] features[i],
        ),
        resolve_features_spec(c, parent, ds, s, m).1 is Ok,
    ensures
        already_activated(resolve_features_spec(c, parent, ds, s, m).0, s, m),
{
    let fs = s.features;
    let n = feature_names(fs).to_set().len() + 1;
    let st = build_requirements_spec(s, m)->Ok_0;
    let features = m->features;
    assert(empty_reqs().visited.subset_of(empty_reqs().used));
    lemma_names_used(fs, n, empty_reqs(), features, 0);
    let first = req_names_from(fs, n, empty_reqs(), features, 0)->Ok_0;
    if default_asked(m) && has_feature(fs, "default"@) {
        lemma_req_grows(fs, n, first, "default"@, FeatureValueView::Feature("default"@), Seq::empty(), Seq::empty(), 0, 0);
        assert("default"@.len() > 0) by {
            reveal_strlit("default");
        }
        if !first.visited.contains("default"@) {
            lemma_req_grows(fs, (n - 1) as nat, mark_seen(first, "default"@), "default"@, FeatureValueView::Feature("default"@), feature_entries(fs, "default"@), "default"@, 0, 2);
        }
        assert(st.used.contains("default"@));
    }
    assert(forall|i: int| 0 <= i < features.len() ==> st.used.contains(#[trigger] features[i]));
    let c2 = resolve_features_spec(c, parent, ds, s, m).0;
    assert(c2 == record_features(c, s.package_id, st.used));
    lemma_features_index(c.features, s.package_id);
    if st.used != Set::<Seq<char>>::empty() {
        match features_index(c.features, s.package_id) {
            Some(k) => {
                assert(features_index(c2.features, s.package_id) == Some(k)) by {
                    lemma_features_index_update(c.features, s.package_id, k, (c.features[k].0, c.features[k].1.union(st.used)));
                }
            },
            None => {
                lemma_features_index_push(c.features, s.package_id, (s.package_id, st.used));
            },
        }
    } else {
        if features.len() > 0 {
            assert(st.used.contains(features[0]));
        }
        if default_asked(m) && has_feature(fs, "default"@) {
            assert(st.used.contains("default"@));
        }
    }
}

/// Updating an entry keeps the first entry for the package where it is.
proof fn lemma_features_index_update(fs: Seq<(PackageIdView, Set<Seq<char>>)>, id: PackageIdView, k: int, x: (PackageIdView, Set<Seq<char>>))
    requires
        features_index(fs, id) == Some(k),
        same_package(x.0, id),
    ensures
        features_index(fs.update(k, x), id) == Some(k),
    decreases fs.len(),
{
    lemma_features_index(fs, id);
    if fs.len() > 0 {
        if k < fs.len() - 1 {
            assert(fs.update(k, x).drop_last() =~= fs.drop_last().update(k, x));
            lemma_features_index_update(fs.drop_last(), id, k, x);
        } else {
            assert(fs.update(k, x).drop_last() =~= fs.drop_last());
        }
    }
}

/// A package without an entry finds the one pushed for it.
proof fn lemma_features_index_push(fs: Seq<(PackageIdView, Set<Seq<char>>)>, id: PackageIdView, x: (PackageIdView, Set<Seq<char>>))
    requires
        features_index(fs, id) is None,
        same_package(x.0, id),
    ensures
        features_index(fs.push(x), id) == Some(fs.len() as int),
{
    assert(fs.push(x).drop_last() =~= fs);
}

} // verus!
