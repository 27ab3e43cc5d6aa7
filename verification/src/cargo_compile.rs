//! Which targets of which packages a compile command builds: the targets
//! built by default in each mode, the selection flags (`--lib`, `--bin`,
//! `--tests`, ...), and the checks that go with them.
use vstd::prelude::*;
use crate::compile_mode::{any_test, CompileMode};
use crate::manifest::{doctestable_kinds, Target, TargetKindView, TargetView};
use crate::profiles::indices_where;
use crate::text::{chars_of, contains_string, copy_strings, push_all, push_str, string_from, string_of, strs};
use crate::package_id_spec::{version_text, PackageId, Version};

verus! {

/// A package as the compile command sees it: its name and its targets.
#[derive(Debug)]
pub struct Package {
    pub name: String,
    pub targets: Vec<Target>,
}

/// A target proposed for building: the indices of its package and of the
/// target in it, whether its required features must all be available, and
/// the mode it is built in.
#[derive(Clone, Copy, Debug, PartialEq, Eq, Structural)]
pub struct Proposal {
    pub pkg: usize,
    pub target: usize,
    pub requires_features: bool,
    pub mode: CompileMode,
}

/// The kind of targets a selection flag asks for.
#[derive(Clone, Copy, Debug, PartialEq, Eq, Structural)]
pub enum KindFilter {
    Lib,
    Bin,
    Example,
    Test,
    Bench,
    /// Every target tested by `cargo test`.
    Tested,
    /// Every target benchmarked by `cargo bench`.
    Benched,
}

/// Whether the target is of the kind the filter asks for.
pub open spec fn kind_ok(k: KindFilter, t: TargetView) -> bool {
    match k {
        KindFilter::Lib => t.kind is Lib,
        KindFilter::Bin => t.kind is Bin,
        KindFilter::Example => t.kind is Example,
        KindFilter::Test => t.kind is Test,
        KindFilter::Bench => t.kind is Bench,
        KindFilter::Tested => t.tested,
        KindFilter::Benched => t.benched,
    }
}

/// Whether the target is of the kind the filter asks for.
pub fn matches_kind(k: KindFilter, t: &Target) -> (r: bool)
    ensures
        r == kind_ok(k, t@),
{
    match k {
        KindFilter::Lib => t.is_lib(),
        KindFilter::Bin => t.is_bin(),
        KindFilter::Example => t.is_example(),
        KindFilter::Test => t.is_test(),
        KindFilter::Bench => t.is_bench(),
        KindFilter::Tested => t.tested(),
        KindFilter::Benched => t.benched(),
    }
}

/// Whether `glob::Pattern::new` accepts the pattern.
pub uninterp spec fn glob_ok(pattern: Seq<char>) -> bool;

/// Whether the compiled glob pattern matches the text.
pub uninterp spec fn glob_matches(pattern: Seq<char>, text: Seq<char>) -> bool;

/// Calls `glob::Pattern::new`: the position and message of the syntax
/// error, if the pattern has one; whether there is one is named
/// (`glob_ok`).
#[verifier::external_body]
fn glob_compile(pattern: &str) -> (r: Option<(usize, String)>)
    ensures
        r is None <==> glob_ok(pattern@),
{
    match glob::Pattern::new(pattern) {
        Ok(_) => None,
        Err(e) => Some((e.pos, e.msg.to_string())),
    }
}

/// Calls `glob::Pattern::new` and `glob::Pattern::matches`; the result is
/// named (`glob_matches`).
#[verifier::external_body]
fn glob_match(pattern: &str, text: &str) -> (r: bool)
    requires
        glob_ok(pattern@),
    ensures
        r == glob_matches(pattern@, text@),
{
    glob::Pattern::new(pattern).map_or(false, |p| p.matches(text))
}

/// How a selection flag names targets.
#[derive(Debug)]
pub enum NameFilter {
    /// Every target of the kind.
    Any,
    /// The target with this name.
    Exact(String),
    /// The targets whose names match this glob pattern.
    Glob(String),
}

/// The mathematical value of a `NameFilter`.
pub enum NameFilterView {
    Any,
    Exact(Seq<char>),
    Glob(Seq<char>),
}

impl View for NameFilter {
    type V = NameFilterView;

    open spec fn view(&self) -> NameFilterView {
        match self {
            NameFilter::Any => NameFilterView::Any,
            NameFilter::Exact(s) => NameFilterView::Exact(s@),
            NameFilter::Glob(p) => NameFilterView::Glob(p@),
        }
    }
}

/// Whether the target's name is one the filter accepts.
pub open spec fn name_ok(n: NameFilterView, t: TargetView) -> bool {
    match n {
        NameFilterView::Any => true,
        NameFilterView::Exact(s) => t.name == s,
        NameFilterView::Glob(p) => glob_matches(p, t.name),
    }
}

/// Whether the filter can be applied: a glob pattern must compile.
pub open spec fn name_filter_ok(n: NameFilterView) -> bool {
    n matches NameFilterView::Glob(p) ==> glob_ok(p)
}

/// The proposals for the targets of package `p` that satisfy `pred`.
pub open spec fn pkg_proposals(
    pkgs: Seq<Package>,
    p: int,
    pred: spec_fn(TargetView) -> bool,
    requires_features: bool,
    mode: CompileMode,
) -> Seq<Proposal> {
    indices_where(pkgs[p].targets@.len(), |i: int| pred(pkgs[p].targets@[i]@)).map_values(
        |t: usize| Proposal { pkg: p as usize, target: t, requires_features, mode },
    )
}

/// The proposals for the targets of the first `n` packages that satisfy
/// `pred`, package by package and target by target.
pub open spec fn proposals_upto(
    pkgs: Seq<Package>,
    n: nat,
    pred: spec_fn(TargetView) -> bool,
    requires_features: bool,
    mode: CompileMode,
) -> Seq<Proposal>
    decreases n,
{
    if n == 0 {
        Seq::empty()
    } else {
        proposals_upto(pkgs, (n - 1) as nat, pred, requires_features, mode) + pkg_proposals(
            pkgs,
            n - 1,
            pred,
            requires_features,
            mode,
        )
    }
}

/// The predicate of a kind and a name filter.
pub open spec fn target_pred(kind: KindFilter, name: NameFilterView) -> spec_fn(TargetView) -> bool {
    |t: TargetView| kind_ok(kind, t) && name_ok(name, t)
}

/// Whether the target is of the kind and has an accepted name.
fn target_matches(kind: KindFilter, name: &NameFilter, t: &Target) -> (r: bool)
    requires
        name_filter_ok(name@),
    ensures
        r == target_pred(kind, name@)(t@),
{
    if !matches_kind(kind, t) {
        return false;
    }
    match name {
        NameFilter::Any => true,
        NameFilter::Exact(s) => string_from(t.name()).eq(s),
        NameFilter::Glob(p) => glob_match(p.as_str(), t.name()),
    }
}

/// The proposals for the targets of the packages that are of the kind and
/// have an accepted name, package by package and target by target.
pub fn filter_targets(
    packages: &[Package],
    kind: KindFilter,
    name: &NameFilter,
    requires_features: bool,
    mode: CompileMode,
) -> (r: Vec<Proposal>)
    requires
        name_filter_ok(name@),
    ensures
        r@ == proposals_upto(packages@, packages@.len(), target_pred(kind, name@), requires_features, mode),
{
    let mut out: Vec<Proposal> = Vec::new();
    let mut p: usize = 0;
    while p < packages.len()
        invariant
            p <= packages@.len(),
            name_filter_ok(name@),
            out@ == proposals_upto(packages@, p as nat, target_pred(kind, name@), requires_features, mode),
        decreases packages.len() - p,
    {
        let ghost before = out@;
        let targets = &packages[p].targets;
        let mut i: usize = 0;
        while i < targets.len()
            invariant
                i <= targets@.len(),
                p < packages@.len(),
                targets@ == packages@[p as int].targets@,
                name_filter_ok(name@),
                out@ == before + indices_where(
                    i as nat,
                    |k: int| target_pred(kind, name@)(packages@[p as int].targets@[k]@),
                ).map_values(
                    |t: usize| Proposal { pkg: p, target: t, requires_features, mode },
                ),
            decreases targets.len() - i,
        {
            let ghost prev = out@;
            if target_matches(kind, name, &targets[i]) {
                out.push(Proposal { pkg: p, target: i, requires_features, mode });
            }
            i = i + 1;
            assert(indices_where(i as nat, |k: int| target_pred(kind, name@)(packages@[p as int].targets@[k]@)).map_values(
                |t: usize| Proposal { pkg: p, target: t, requires_features, mode },
            ) =~= indices_where((i - 1) as nat, |k: int| target_pred(kind, name@)(packages@[p as int].targets@[k]@)).map_values(
                |t: usize| Proposal { pkg: p, target: t, requires_features, mode },
            ) + if target_pred(kind, name@)(packages@[p as int].targets@[i - 1]@) {
                seq![Proposal { pkg: p, target: (i - 1) as usize, requires_features, mode }]
            } else {
                Seq::empty()
            });
        }
        p = p + 1;
    }
    out
}

/// Whether a library among the targets has the name.
pub open spec fn has_lib_named(ts: Seq<Target>, name: Seq<char>) -> bool {
    exists|j: int| 0 <= j < ts.len() && (#[trigger] ts[j])@.kind is Lib && ts[j]@.name == name
}

/// Whether target `i` is built by default in the mode: benchmarks for
/// `bench`, tested targets and examples for `test`, binaries and
/// libraries for `build` and `check`, and documented targets for `doc`
/// except a binary with the name of a library.
pub open spec fn default_target(mode: CompileMode, ts: Seq<Target>, i: int) -> bool {
    let t = ts[i]@;
    match mode {
        CompileMode::Bench => t.benched,
        CompileMode::Test => t.tested || t.kind is Example,
        CompileMode::Build | CompileMode::Check { .. } => t.kind is Bin || t.kind is Lib,
        CompileMode::Doc { .. } => t.doc && (!(t.kind is Bin) || !has_lib_named(ts, t.name)),
        _ => false,
    }
}

/// Whether the mode has default targets; doc tests, example scraping and
/// build-script runs do not.
pub open spec fn has_default_targets(mode: CompileMode) -> bool {
    !(mode is Doctest || mode is Docscrape || mode is RunCustomBuild)
}

/// Whether a library among the targets has the name.
fn lib_named(targets: &[Target], name: &String) -> (r: bool)
    ensures
        r == has_lib_named(targets@, name@),
{
    let mut j: usize = 0;
    while j < targets.len()
        invariant
            j <= targets@.len(),
            forall|k: int| 0 <= k < j ==> !((#[trigger] targets@[k])@.kind is Lib && targets@[k]@.name == name@),
        decreases targets.len() - j,
    {
        if targets[j].is_lib() && string_from(targets[j].name()).eq(name) {
            return true;
        }
        j = j + 1;
    }
    false
}

/// The indices of the targets built when no target is selected, in order.
pub fn filter_default_targets(targets: &[Target], mode: CompileMode) -> (r: Vec<usize>)
    requires
        has_default_targets(mode),
    ensures
        r@ == indices_where(targets@.len(), |i: int| default_target(mode, targets@, i)),
{
    let mut out: Vec<usize> = Vec::new();
    let mut i: usize = 0;
    while i < targets.len()
        invariant
            i <= targets@.len(),
            has_default_targets(mode),
            out@ == indices_where(i as nat, |k: int| default_target(mode, targets@, k)),
        decreases targets.len() - i,
    {
        let t = &targets[i];
        let keep = match mode {
            CompileMode::Bench => t.benched(),
            CompileMode::Test => t.tested() || t.is_example(),
            CompileMode::Build | CompileMode::Check { .. } => t.is_bin() || t.is_lib(),
            CompileMode::Doc { .. } => t.documented() && (!t.is_bin() || !lib_named(
                targets,
                &string_from(t.name()),
            )),
            _ => false,
        };
        assert(keep == default_target(mode, targets@, i as int));
        if keep {
            out.push(i);
        }
        i = i + 1;
        assert(out@ =~= indices_where(i as nat, |k: int| default_target(mode, targets@, k)));
    }
    out
}

/// Why the selected targets cannot be built.
#[derive(Debug)]
pub enum TargetError {
    /// No target of the kind (described as `desc`: `bin`, `example`, ...)
    /// has the name, or matches it when it is a pattern; the names of the
    /// targets of that kind are given.
    NoTarget { desc: String, is_glob: bool, name: String, available: Vec<String> },
    /// The pattern is not a valid glob pattern: where and why.
    BadGlob { pattern: String, pos: usize, msg: String },
    /// `--lib` was given and none of the packages has a library; their
    /// names are given.
    NoLibTargets { packages: Vec<String> },
    /// A target lacks features it requires: its package and index, and the
    /// features it requires.
    MissingFeatures { pkg: usize, target: usize, required: Vec<String> },
}

/// The mathematical value of a `TargetError`; the position and message of
/// a glob syntax error are left out.
pub enum TargetErrorView {
    NoTarget(Seq<char>, bool, Seq<char>, Seq<Seq<char>>),
    BadGlob(Seq<char>),
    NoLibTargets(Seq<Seq<char>>),
    MissingFeatures(usize, usize, Seq<Seq<char>>),
}

impl View for TargetError {
    type V = TargetErrorView;

    open spec fn view(&self) -> TargetErrorView {
        match self {
            TargetError::NoTarget { desc, is_glob, name, available } => TargetErrorView::NoTarget(
                desc@,
                *is_glob,
                name@,
                strs(available@),
            ),
            TargetError::BadGlob { pattern, .. } => TargetErrorView::BadGlob(pattern@),
            TargetError::NoLibTargets { packages } => TargetErrorView::NoLibTargets(strs(packages@)),
            TargetError::MissingFeatures { pkg, target, required } => TargetErrorView::MissingFeatures(
                *pkg,
                *target,
                strs(required@),
            ),
        }
    }
}

/// The view of a result of proposals.
pub open spec fn props_view(r: Result<Vec<Proposal>, TargetError>) -> Result<Seq<Proposal>, TargetErrorView> {
    match r {
        Ok(v) => Ok(v@),
        Err(e) => Err(e@),
    }
}

/// Whether a target name is a glob pattern: it holds `*`, `?`, `[` or `]`.
pub open spec fn is_glob_spec(s: Seq<char>) -> bool {
    exists|i: int| 0 <= i < s.len() && (s[i] == '*' || s[i] == '?' || s[i] == '[' || s[i] == ']')
}

/// Whether a target name is a glob pattern.
pub fn is_glob_pattern(s: &str) -> (r: bool)
    ensures
        r == is_glob_spec(s@),
{
    let v = chars_of(s);
    let mut i: usize = 0;
    while i < v.len()
        invariant
            i <= v@.len(),
            v@ == s@,
            forall|j: int| 0 <= j < i ==> !(v@[j] == '*' || v@[j] == '?' || v@[j] == '[' || v@[j] == ']'),
        decreases v.len() - i,
    {
        let c = v[i];
        if c == '*' || c == '?' || c == '[' || c == ']' {
            return true;
        }
        i = i + 1;
    }
    false
}

/// The names of the targets of the kind, package by package.
pub open spec fn kind_names(pkgs: Seq<Package>, kind: KindFilter) -> Seq<Seq<char>> {
    proposals_upto(pkgs, pkgs.len(), target_pred(kind, NameFilterView::Any), false, CompileMode::Build).map_values(
        |p: Proposal| pkgs[p.pkg as int].targets@[p.target as int]@.name,
    )
}

/// What `find_named_targets` gives.
pub open spec fn find_named_spec(
    pkgs: Seq<Package>,
    name: Seq<char>,
    desc: Seq<char>,
    kind: KindFilter,
    mode: CompileMode,
) -> Result<Seq<Proposal>, TargetErrorView> {
    if is_glob_spec(name) && !glob_ok(name) {
        Err(TargetErrorView::BadGlob(name))
    } else {
        let filter = if is_glob_spec(name) {
            NameFilterView::Glob(name)
        } else {
            NameFilterView::Exact(name)
        };
        let props = proposals_upto(pkgs, pkgs.len(), target_pred(kind, filter), true, mode);
        if props.len() == 0 {
            Err(TargetErrorView::NoTarget(desc, is_glob_spec(name), name, kind_names(pkgs, kind)))
        } else {
            Ok(props)
        }
    }
}

/// Filtering is sound: every proposal names a target of one of the first
/// `n` packages, that target satisfies the predicate, and the proposal
/// carries the requested feature rule and mode.
pub proof fn lemma_proposals_in_range(
    pkgs: Seq<Package>,
    n: nat,
    pred: spec_fn(TargetView) -> bool,
    rf: bool,
    mode: CompileMode,
)
    requires
        n <= pkgs.len(),
        pkgs.len() <= usize::MAX,
        forall|p: int| 0 <= p < pkgs.len() ==> (#[trigger] pkgs[p]).targets@.len() <= usize::MAX,
    ensures
        forall|k: int|
            0 <= k < proposals_upto(pkgs, n, pred, rf, mode).len() ==> {
                let q = #[trigger] proposals_upto(pkgs, n, pred, rf, mode)[k];
                &&& q.pkg < n
                &&& q.target < pkgs[q.pkg as int].targets@.len()
                &&& pred(pkgs[q.pkg as int].targets@[q.target as int]@)
                &&& q.requires_features == rf
                &&& q.mode == mode
            },
    decreases n,
{
    if n > 0 {
        lemma_proposals_in_range(pkgs, (n - 1) as nat, pred, rf, mode);
        let p = n - 1;
        let a = proposals_upto(pkgs, (n - 1) as nat, pred, rf, mode);
        let w = indices_where(pkgs[p].targets@.len(), |i: int| pred(pkgs[p].targets@[i]@));
        crate::profiles::lemma_indices_where(pkgs[p].targets@.len(), |i: int| pred(pkgs[p].targets@[i]@));
        let b = pkg_proposals(pkgs, p, pred, rf, mode);
        let all = proposals_upto(pkgs, n, pred, rf, mode);
        assert forall|k: int| 0 <= k < all.len() implies {
            let q = #[trigger] all[k];
            &&& q.pkg < n
            &&& q.target < pkgs[q.pkg as int].targets@.len()
            &&& pred(pkgs[q.pkg as int].targets@[q.target as int]@)
            &&& q.requires_features == rf
            &&& q.mode == mode
        } by {
            if k < a.len() {
                assert(all[k] == a[k]);
            } else {
                assert(all[k] == b[k - a.len()]);
                assert(b[k - a.len()].target == w[k - a.len()]);
            }
        }
    }
}

/// The names of the targets of the kind.
fn names_of_kind(packages: &[Package], kind: KindFilter) -> (r: Vec<String>)
    ensures
        strs(r@) == kind_names(packages@, kind),
{
    let any = NameFilter::Any;
    let props = filter_targets(packages, kind, &any, false, CompileMode::Build);
    proof {
        assert(packages@.len() == packages.len());
        assert forall|p: int| 0 <= p < packages@.len() implies (#[trigger] packages@[p]).targets@.len() <= usize::MAX by {
            assert(packages@[p].targets@.len() == packages@[p].targets.len());
        }
        lemma_proposals_in_range(packages@, packages@.len(), target_pred(kind, any@), false, CompileMode::Build);
    }
    let mut out: Vec<String> = Vec::new();
    let mut i: usize = 0;
    while i < props.len()
        invariant
            i <= props@.len(),
            props@ == proposals_upto(packages@, packages@.len(), target_pred(kind, NameFilterView::Any), false, CompileMode::Build),
            forall|k: int|
                0 <= k < props@.len() ==> {
                    let q = #[trigger] props@[k];
                    q.pkg < packages@.len() && q.target < packages@[q.pkg as int].targets@.len()
                },
            strs(out@) == props@.take(i as int).map_values(
                |p: Proposal| packages@[p.pkg as int].targets@[p.target as int]@.name,
            ),
        decreases props.len() - i,
    {
        let q = props[i];
        assert(q == props@[i as int]);
        let name = string_from(packages[q.pkg].targets[q.target].name());
        let ghost before = out@;
        out.push(name);
        assert(strs(out@) =~= strs(before).push(name@));
        assert(props@.take(i + 1) =~= props@.take(i as int).push(q));
        i = i + 1;
    }
    assert(props@.take(props@.len() as int) =~= props@);
    out
}

/// The proposals for the targets of the kind with the given name, or whose
/// names match it when it is a glob pattern; their required features must
/// be available. An error when there is none, or when the pattern is not
/// valid.
pub fn find_named_targets(
    packages: &[Package],
    target_name: &str,
    target_desc: &str,
    kind: KindFilter,
    mode: CompileMode,
) -> (r: Result<Vec<Proposal>, TargetError>)
    ensures
        props_view(r) == find_named_spec(packages@, target_name@, target_desc@, kind, mode),
{
    let glob = is_glob_pattern(target_name);
    let filter = if glob {
        match glob_compile(target_name) {
            Some((pos, msg)) => {
                return Err(TargetError::BadGlob { pattern: string_from(target_name), pos, msg });
            },
            None => NameFilter::Glob(string_from(target_name)),
        }
    } else {
        NameFilter::Exact(string_from(target_name))
    };
    let props = filter_targets(packages, kind, &filter, true, mode);
    if props.len() == 0 {
        let available = names_of_kind(packages, kind);
        return Err(TargetError::NoTarget {
            desc: string_from(target_desc),
            is_glob: glob,
            name: string_from(target_name),
            available,
        });
    }
    Ok(props)
}

/// How a selection flag names targets: all of them (`--bins`), or the
/// given names (`--bin NAME`).
#[derive(Debug)]
pub enum FilterRule {
    All,
    Just(Vec<String>),
}

/// What selecting by names gives: the proposals of each name in order, or
/// the error of the first name that fails.
pub open spec fn rule_just_spec(
    pkgs: Seq<Package>,
    names: Seq<Seq<char>>,
    desc: Seq<char>,
    kind: KindFilter,
    mode: CompileMode,
) -> Result<Seq<Proposal>, TargetErrorView>
    decreases names.len(),
{
    if names.len() == 0 {
        Ok(Seq::empty())
    } else {
        match rule_just_spec(pkgs, names.drop_last(), desc, kind, mode) {
            Err(e) => Err(e),
            Ok(acc) => match find_named_spec(pkgs, names.last(), desc, kind, mode) {
                Err(e) => Err(e),
                Ok(ps) => Ok(acc + ps),
            },
        }
    }
}

/// What `list_rule_targets` gives: for `All`, every target of `all_kind`
/// (their features need not be available); for names, the targets of
/// `just_kind` with those names.
pub open spec fn list_rule_spec(
    pkgs: Seq<Package>,
    rule: FilterRule,
    desc: Seq<char>,
    all_kind: KindFilter,
    just_kind: KindFilter,
    mode: CompileMode,
) -> Result<Seq<Proposal>, TargetErrorView> {
    match rule {
        FilterRule::All => Ok(proposals_upto(pkgs, pkgs.len(), target_pred(all_kind, NameFilterView::Any), false, mode)),
        FilterRule::Just(names) => rule_just_spec(pkgs, strs(names@), desc, just_kind, mode),
    }
}

/// The proposals a selection flag asks for (see `list_rule_spec`).
pub fn list_rule_targets(
    packages: &[Package],
    rule: &FilterRule,
    target_desc: &str,
    all_kind: KindFilter,
    just_kind: KindFilter,
    mode: CompileMode,
) -> (r: Result<Vec<Proposal>, TargetError>)
    ensures
        props_view(r) == list_rule_spec(packages@, *rule, target_desc@, all_kind, just_kind, mode),
{
    match rule {
        FilterRule::All => {
            let any = NameFilter::Any;
            Ok(filter_targets(packages, all_kind, &any, false, mode))
        },
        FilterRule::Just(names) => {
            let mut out: Vec<Proposal> = Vec::new();
            let mut i: usize = 0;
            while i < names.len()
                invariant
                    i <= names@.len(),
                    *rule == FilterRule::Just(*names),
                    rule_just_spec(packages@, strs(names@).take(i as int), target_desc@, just_kind, mode)
                        == Ok::<Seq<Proposal>, TargetErrorView>(out@),
                decreases names.len() - i,
            {
                let found = find_named_targets(packages, names[i].as_str(), target_desc, just_kind, mode);
                assert(strs(names@).take(i + 1).drop_last() =~= strs(names@).take(i as int));
                assert(strs(names@).take(i + 1).last() == names@[i as int]@);
                match found {
                    Err(e) => {
                        proof {
                            let t = strs(names@).take(i + 1);
                            assert(rule_just_spec(packages@, t, target_desc@, just_kind, mode)
                                == Err::<Seq<Proposal>, TargetErrorView>(e@));
                            lemma_rule_just_err_stays(
                                packages@,
                                strs(names@),
                                (i + 1) as nat,
                                target_desc@,
                                just_kind,
                                mode,
                            );
                        }
                        return Err(e);
                    },
                    Ok(ps) => {
                        let mut ps = ps;
                        out.append(&mut ps);
                    },
                }
                i = i + 1;
            }
            assert(strs(names@).take(names@.len() as int) =~= strs(names@));
            Ok(out)
        },
    }
}

/// Once selecting by the first names fails, selecting by more names fails
/// with the same error.
proof fn lemma_rule_just_err_stays(
    pkgs: Seq<Package>,
    names: Seq<Seq<char>>,
    n: nat,
    desc: Seq<char>,
    kind: KindFilter,
    mode: CompileMode,
)
    requires
        n <= names.len(),
        rule_just_spec(pkgs, names.take(n as int), desc, kind, mode) is Err,
    ensures
        rule_just_spec(pkgs, names, desc, kind, mode) == rule_just_spec(pkgs, names.take(n as int), desc, kind, mode),
    decreases names.len() - n,
{
    if n < names.len() {
        let m = (n + 1) as nat;
        assert(names.take(m as int).drop_last() =~= names.take(n as int));
        lemma_rule_just_err_stays(pkgs, names, m, desc, kind, mode);
    } else {
        assert(names.take(n as int) =~= names);
    }
}

/// Whether the target is a library that is doc-tested and can be: it
/// builds an `rlib` or a `lib`.
pub open spec fn doctested_spec(t: TargetView) -> bool {
    t.doctest && match t.kind {
        TargetKindView::Lib(k) => doctestable_kinds(k),
        _ => false,
    }
}

/// Whether target `i` is the first doc-tested library.
pub open spec fn is_first_doctest(ts: Seq<Target>, i: int) -> bool {
    &&& 0 <= i < ts.len()
    &&& doctested_spec(ts[i]@)
    &&& forall|j: int| 0 <= j < i ==> !doctested_spec(#[trigger] ts[j]@)
}

/// The index of the first doc-tested library, if any.
pub open spec fn first_doctest(ts: Seq<Target>) -> Option<int> {
    if exists|i: int| is_first_doctest(ts, i) {
        Some(choose|i: int| is_first_doctest(ts, i))
    } else {
        None
    }
}

/// The default proposals of package `p`: its default targets, and for
/// `test` the doc tests of its first doc-tested library.
pub open spec fn default_pkg_props(pkgs: Seq<Package>, p: int, rff: bool, mode: CompileMode) -> Seq<Proposal> {
    indices_where(pkgs[p].targets@.len(), |i: int| default_target(mode, pkgs[p].targets@, i)).map_values(
        |t: usize| Proposal { pkg: p as usize, target: t, requires_features: !rff, mode },
    ) + if mode == CompileMode::Test {
        match first_doctest(pkgs[p].targets@) {
            Some(i) => seq![
                Proposal {
                    pkg: p as usize,
                    target: i as usize,
                    requires_features: false,
                    mode: CompileMode::Doctest,
                },
            ],
            None => Seq::empty(),
        }
    } else {
        Seq::empty()
    }
}

/// The default proposals of the first `n` packages.
pub open spec fn default_props_upto(pkgs: Seq<Package>, n: nat, rff: bool, mode: CompileMode) -> Seq<Proposal>
    decreases n,
{
    if n == 0 {
        Seq::empty()
    } else {
        default_props_upto(pkgs, (n - 1) as nat, rff, mode) + default_pkg_props(pkgs, n - 1, rff, mode)
    }
}

/// The index of the first doc-tested library.
fn find_doctest(targets: &[Target]) -> (r: Option<usize>)
    ensures
        r == match first_doctest(targets@) {
            Some(i) => Some(i as usize),
            None => None::<usize>,
        },
{
    let mut j: usize = 0;
    while j < targets.len()
        invariant
            j <= targets@.len(),
            forall|k: int| 0 <= k < j ==> !doctested_spec(#[trigger] targets@[k]@),
        decreases targets.len() - j,
    {
        if targets[j].doctested() {
            proof {
                assert(is_first_doctest(targets@, j as int));
                let k = choose|k: int| is_first_doctest(targets@, k);
                if k < j {
                    assert(!doctested_spec(targets@[k]@));
                } else if k > j {
                    assert(!doctested_spec(targets@[j as int]@));
                }
            }
            return Some(j);
        }
        j = j + 1;
    }
    None
}

/// The proposals of every target built by default in the mode, package
/// by package; for `test`, each package's first doc-tested library is also
/// proposed for doc tests. The default targets' required features must be
/// available unless `required_features_filterable`.
pub fn default_proposals(packages: &[Package], required_features_filterable: bool, mode: CompileMode) -> (r: Vec<Proposal>)
    requires
        has_default_targets(mode),
    ensures
        r@ == default_props_upto(packages@, packages@.len(), required_features_filterable, mode),
{
    let mut out: Vec<Proposal> = Vec::new();
    let mut p: usize = 0;
    while p < packages.len()
        invariant
            p <= packages@.len(),
            has_default_targets(mode),
            out@ == default_props_upto(packages@, p as nat, required_features_filterable, mode),
        decreases packages.len() - p,
    {
        let ghost before = out@;
        let idx = filter_default_targets(packages[p].targets.as_slice(), mode);
        let mut i: usize = 0;
        while i < idx.len()
            invariant
                i <= idx@.len(),
                out@ == before + idx@.take(i as int).map_values(
                    |t: usize| Proposal { pkg: p, target: t, requires_features: !required_features_filterable, mode },
                ),
            decreases idx.len() - i,
        {
            out.push(Proposal { pkg: p, target: idx[i], requires_features: !required_features_filterable, mode });
            assert(idx@.take(i + 1) =~= idx@.take(i as int).push(idx@[i as int]));
            i = i + 1;
            assert(out@ =~= before + idx@.take(i as int).map_values(
                |t: usize| Proposal { pkg: p, target: t, requires_features: !required_features_filterable, mode },
            ));
        }
        assert(idx@.take(idx@.len() as int) =~= idx@);
        let ghost mid = out@;
        if mode == CompileMode::Test {
            match find_doctest(packages[p].targets.as_slice()) {
                Some(t) => {
                    out.push(Proposal { pkg: p, target: t, requires_features: false, mode: CompileMode::Doctest });
                },
                None => {},
            }
        }
        assert(out@ =~= default_props_upto(packages@, (p + 1) as nat, required_features_filterable, mode));
        p = p + 1;
    }
    out
}

/// How `--lib` selects libraries.
#[derive(Clone, Copy, Debug, PartialEq, Eq, Structural)]
pub enum LibRule {
    /// `--lib` was given: a library must exist.
    True,
    /// Libraries are built if there are any.
    Default,
    /// Libraries are not selected.
    False,
}

/// Which targets a compile command selects.
#[derive(Debug)]
pub enum CompileFilter {
    /// The targets built by default in the mode.
    Default { required_features_filterable: bool },
    /// The targets the selection flags ask for.
    Only {
        all_targets: bool,
        lib: LibRule,
        bins: FilterRule,
        examples: FilterRule,
        tests: FilterRule,
        benches: FilterRule,
    },
}

/// Whether the proposal's target is a library that can be doc-tested.
pub open spec fn proposal_doctestable(pkgs: Seq<Package>, q: Proposal) -> bool {
    match pkgs[q.pkg as int].targets@[q.target as int]@.kind {
        TargetKindView::Lib(k) => doctestable_kinds(k),
        _ => false,
    }
}

/// Whether a library proposal is kept: in doc-test mode only libraries
/// that can be doc-tested are.
pub open spec fn lib_kept(pkgs: Seq<Package>, mode: CompileMode, q: Proposal) -> bool {
    !(mode == CompileMode::Doctest && !proposal_doctestable(pkgs, q))
}

/// The library proposals that are kept (`keep`) or dropped (`!keep`), in
/// order.
pub open spec fn split_libs(pkgs: Seq<Package>, ps: Seq<Proposal>, mode: CompileMode, keep: bool) -> Seq<Proposal>
    decreases ps.len(),
{
    if ps.len() == 0 {
        Seq::empty()
    } else {
        split_libs(pkgs, ps.drop_last(), mode, keep) + if lib_kept(pkgs, mode, ps.last()) == keep {
            seq![ps.last()]
        } else {
            Seq::empty()
        }
    }
}

/// The library proposals of every package.
pub open spec fn all_libs(pkgs: Seq<Package>, mode: CompileMode) -> Seq<Proposal> {
    proposals_upto(pkgs, pkgs.len(), target_pred(KindFilter::Lib, NameFilterView::Any), false, mode)
}

/// The names of the packages.
pub open spec fn package_names(pkgs: Seq<Package>) -> Seq<Seq<char>> {
    pkgs.map_values(|p: Package| p.name@)
}

/// What `--lib` selects: the kept libraries, or an error when it was given
/// explicitly (without `--all-targets`) and none is kept.
pub open spec fn libs_spec(pkgs: Seq<Package>, all_targets: bool, lib: LibRule, mode: CompileMode) -> Result<Seq<Proposal>, TargetErrorView> {
    if lib == LibRule::False {
        Ok(Seq::empty())
    } else {
        let kept = split_libs(pkgs, all_libs(pkgs, mode), mode, true);
        if !all_targets && kept.len() == 0 && lib == LibRule::True {
            Err(TargetErrorView::NoLibTargets(package_names(pkgs)))
        } else {
            Ok(kept)
        }
    }
}

/// The mode tests are built in: a build becomes a test build, a check a
/// check of the test harness.
pub open spec fn test_mode(mode: CompileMode) -> CompileMode {
    match mode {
        CompileMode::Build => CompileMode::Test,
        CompileMode::Check { .. } => CompileMode::Check { test: true },
        _ => mode,
    }
}

/// The mode benchmarks are built in.
pub open spec fn bench_mode(mode: CompileMode) -> CompileMode {
    match mode {
        CompileMode::Build => CompileMode::Bench,
        CompileMode::Check { .. } => CompileMode::Check { test: true },
        _ => mode,
    }
}

/// What the selection flags select: libraries, binaries, examples, tests
/// and benchmarks in that order, or the first error.
pub open spec fn only_spec(
    pkgs: Seq<Package>,
    all_targets: bool,
    lib: LibRule,
    bins: FilterRule,
    examples: FilterRule,
    tests: FilterRule,
    benches: FilterRule,
    mode: CompileMode,
) -> Result<Seq<Proposal>, TargetErrorView> {
    match libs_spec(pkgs, all_targets, lib, mode) {
        Err(e) => Err(e),
        Ok(l) => match list_rule_spec(pkgs, bins, "bin"@, KindFilter::Bin, KindFilter::Bin, mode) {
            Err(e) => Err(e),
            Ok(b) => match list_rule_spec(
                pkgs,
                examples,
                "example"@,
                KindFilter::Example,
                KindFilter::Example,
                mode,
            ) {
                Err(e) => Err(e),
                Ok(x) => match list_rule_spec(
                    pkgs,
                    tests,
                    "test"@,
                    KindFilter::Tested,
                    KindFilter::Test,
                    test_mode(mode),
                ) {
                    Err(e) => Err(e),
                    Ok(t) => match list_rule_spec(
                        pkgs,
                        benches,
                        "bench"@,
                        KindFilter::Benched,
                        KindFilter::Bench,
                        bench_mode(mode),
                    ) {
                        Err(e) => Err(e),
                        Ok(z) => Ok(l + b + x + t + z),
                    },
                },
            },
        },
    }
}

/// What `generate_proposals` gives.
pub open spec fn generate_spec(pkgs: Seq<Package>, filter: CompileFilter, mode: CompileMode) -> Result<Seq<Proposal>, TargetErrorView> {
    match filter {
        CompileFilter::Default { required_features_filterable } => Ok(
            default_props_upto(pkgs, pkgs.len(), required_features_filterable, mode),
        ),
        CompileFilter::Only { all_targets, lib, bins, examples, tests, benches } => only_spec(
            pkgs,
            all_targets,
            lib,
            bins,
            examples,
            tests,
            benches,
            mode,
        ),
    }
}

/// Splits the library proposals into those kept and those dropped.
fn split_lib_proposals(packages: &[Package], ps: &Vec<Proposal>, mode: CompileMode) -> (r: (Vec<Proposal>, Vec<Proposal>))
    requires
        forall|k: int|
            0 <= k < ps@.len() ==> {
                let q = #[trigger] ps@[k];
                q.pkg < packages@.len() && q.target < packages@[q.pkg as int].targets@.len()
            },
    ensures
        r.0@ == split_libs(packages@, ps@, mode, true),
        r.1@ == split_libs(packages@, ps@, mode, false),
{
    let mut kept: Vec<Proposal> = Vec::new();
    let mut dropped: Vec<Proposal> = Vec::new();
    let mut i: usize = 0;
    while i < ps.len()
        invariant
            i <= ps@.len(),
            forall|k: int|
                0 <= k < ps@.len() ==> {
                    let q = #[trigger] ps@[k];
                    q.pkg < packages@.len() && q.target < packages@[q.pkg as int].targets@.len()
                },
            kept@ == split_libs(packages@, ps@.take(i as int), mode, true),
            dropped@ == split_libs(packages@, ps@.take(i as int), mode, false),
        decreases ps.len() - i,
    {
        let q = ps[i];
        assert(q == ps@[i as int]);
        let t = &packages[q.pkg].targets[q.target];
        let doctestable = t.doctestable();
        let keep = !(mode == CompileMode::Doctest && !doctestable);
        assert(keep == lib_kept(packages@, mode, q));
        if keep {
            kept.push(q);
        } else {
            dropped.push(q);
        }
        assert(ps@.take(i + 1).drop_last() =~= ps@.take(i as int));
        assert(ps@.take(i + 1).last() == q);
        i = i + 1;
    }
    assert(ps@.take(ps@.len() as int) =~= ps@);
    (kept, dropped)
}

/// What a compile command selects: the proposals, and the libraries left
/// out because they cannot be doc-tested (to be warned about).
#[derive(Debug)]
pub struct Selection {
    pub proposals: Vec<Proposal>,
    pub not_doctestable: Vec<Proposal>,
}

/// The libraries left out because they cannot be doc-tested.
pub open spec fn dropped_spec(pkgs: Seq<Package>, filter: CompileFilter, mode: CompileMode) -> Seq<Proposal> {
    match filter {
        CompileFilter::Only { lib, .. } => if lib != LibRule::False {
            split_libs(pkgs, all_libs(pkgs, mode), mode, false)
        } else {
            Seq::empty()
        },
        _ => Seq::empty(),
    }
}

/// The names of the packages.
fn names_of_packages(packages: &[Package]) -> (r: Vec<String>)
    ensures
        strs(r@) == package_names(packages@),
{
    let mut out: Vec<String> = Vec::new();
    let mut i: usize = 0;
    while i < packages.len()
        invariant
            i <= packages@.len(),
            strs(out@) == package_names(packages@.take(i as int)),
        decreases packages.len() - i,
    {
        let ghost before = out@;
        out.push(packages[i].name.clone());
        assert(strs(out@) =~= strs(before).push(packages@[i as int].name@));
        assert(package_names(packages@.take(i + 1)) =~= package_names(packages@.take(i as int)).push(
            packages@[i as int].name@,
        ));
        i = i + 1;
    }
    assert(packages@.take(packages@.len() as int) =~= packages@);
    out
}

/// The library proposals, kept and dropped, and the error of `--lib`.
fn lib_proposals(packages: &[Package], all_targets: bool, lib: LibRule, mode: CompileMode) -> (r: Result<(Vec<Proposal>, Vec<Proposal>), TargetError>)
    requires
        lib != LibRule::False,
    ensures
        match r {
            Ok((k, d)) => libs_spec(packages@, all_targets, lib, mode) == Ok::<Seq<Proposal>, TargetErrorView>(k@)
                && d@ == split_libs(packages@, all_libs(packages@, mode), mode, false),
            Err(e) => libs_spec(packages@, all_targets, lib, mode) == Err::<Seq<Proposal>, TargetErrorView>(e@),
        },
{
    let any = NameFilter::Any;
    let libs = filter_targets(packages, KindFilter::Lib, &any, false, mode);
    proof {
        assert(packages@.len() == packages.len());
        assert forall|p: int| 0 <= p < packages@.len() implies (#[trigger] packages@[p]).targets@.len() <= usize::MAX by {
            assert(packages@[p].targets@.len() == packages@[p].targets.len());
        }
        lemma_proposals_in_range(packages@, packages@.len(), target_pred(KindFilter::Lib, any@), false, mode);
    }
    let (kept, dropped) = split_lib_proposals(packages, &libs, mode);
    if !all_targets && kept.len() == 0 && lib == LibRule::True {
        return Err(TargetError::NoLibTargets { packages: names_of_packages(packages) });
    }
    Ok((kept, dropped))
}

/// The proposals of the selection flags and the dropped libraries.
fn only_proposals(
    packages: &[Package],
    all_targets: bool,
    lib: LibRule,
    bins: &FilterRule,
    examples: &FilterRule,
    tests: &FilterRule,
    benches: &FilterRule,
    mode: CompileMode,
) -> (r: Result<(Vec<Proposal>, Vec<Proposal>), TargetError>)
    ensures
        match r {
            Ok((ps, d)) => only_spec(packages@, all_targets, lib, *bins, *examples, *tests, *benches, mode)
                == Ok::<Seq<Proposal>, TargetErrorView>(ps@) && d@ == (if lib != LibRule::False {
                split_libs(packages@, all_libs(packages@, mode), mode, false)
            } else {
                Seq::empty()
            }),
            Err(e) => only_spec(packages@, all_targets, lib, *bins, *examples, *tests, *benches, mode)
                == Err::<Seq<Proposal>, TargetErrorView>(e@),
        },
{
    let (mut out, dropped) = if lib != LibRule::False {
        match lib_proposals(packages, all_targets, lib, mode) {
            Ok(kd) => kd,
            Err(e) => {
                return Err(e);
            },
        }
    } else {
        (Vec::new(), Vec::new())
    };
    let ghost l = out@;
    let mut b = match list_rule_targets(packages, bins, "bin", KindFilter::Bin, KindFilter::Bin, mode) {
        Ok(v) => v,
        Err(e) => {
            return Err(e);
        },
    };
    let mut x = match list_rule_targets(packages, examples, "example", KindFilter::Example, KindFilter::Example, mode) {
        Ok(v) => v,
        Err(e) => {
            return Err(e);
        },
    };
    let tmode = match mode {
        CompileMode::Build => CompileMode::Test,
        CompileMode::Check { .. } => CompileMode::Check { test: true },
        _ => mode,
    };
    let mut t = match list_rule_targets(packages, tests, "test", KindFilter::Tested, KindFilter::Test, tmode) {
        Ok(v) => v,
        Err(e) => {
            return Err(e);
        },
    };
    let bmode = match mode {
        CompileMode::Build => CompileMode::Bench,
        CompileMode::Check { .. } => CompileMode::Check { test: true },
        _ => mode,
    };
    let mut z = match list_rule_targets(packages, benches, "bench", KindFilter::Benched, KindFilter::Bench, bmode) {
        Ok(v) => v,
        Err(e) => {
            return Err(e);
        },
    };
    let ghost (bv, xv, tv, zv) = (b@, x@, t@, z@);
    out.append(&mut b);
    out.append(&mut x);
    out.append(&mut t);
    out.append(&mut z);
    assert(out@ =~= l + bv + xv + tv + zv);
    Ok((out, dropped))
}

/// The targets a compile command proposes to build, in the mode, for the
/// filter (see `generate_spec`); the units are made from them once their
/// required features are checked.
pub fn generate_proposals(packages: &[Package], filter: &CompileFilter, mode: CompileMode) -> (r: Result<Selection, TargetError>)
    requires
        filter is Default ==> has_default_targets(mode),
    ensures
        match r {
            Ok(s) => generate_spec(packages@, *filter, mode) == Ok::<Seq<Proposal>, TargetErrorView>(s.proposals@)
                && s.not_doctestable@ == dropped_spec(packages@, *filter, mode),
            Err(e) => generate_spec(packages@, *filter, mode) == Err::<Seq<Proposal>, TargetErrorView>(e@),
        },
{
    match filter {
        CompileFilter::Default { required_features_filterable } => {
            let proposals = default_proposals(packages, *required_features_filterable, mode);
            Ok(Selection { proposals, not_doctestable: Vec::new() })
        },
        CompileFilter::Only { all_targets, lib, bins, examples, tests, benches } => {
            match only_proposals(packages, *all_targets, *lib, bins, examples, tests, benches, mode) {
                Ok((proposals, not_doctestable)) => Ok(Selection { proposals, not_doctestable }),
                Err(e) => Err(e),
            }
        },
    }
}

impl CompileFilter {
    /// Whether targets were selected explicitly.
    pub fn is_specific(&self) -> (r: bool)
        ensures
            r == (*self is Only),
    {
        match self {
            CompileFilter::Default { .. } => false,
            CompileFilter::Only { .. } => true,
        }
    }
}

/// The mode a proposed target is built in: in `test` mode, examples that
/// are not tested are built as plain binaries unless selected explicitly;
/// a build of a test or benchmark target builds its harness; `bench`
/// becomes `test`, as both build the same harness.
pub open spec fn unit_mode_spec(initial: CompileMode, t: TargetView, specific: bool) -> CompileMode {
    match initial {
        CompileMode::Test => if t.kind is Example && !specific && !t.tested {
            CompileMode::Build
        } else {
            CompileMode::Test
        },
        CompileMode::Build => match t.kind {
            TargetKindView::Test => CompileMode::Test,
            TargetKindView::Bench => CompileMode::Bench,
            _ => CompileMode::Build,
        },
        CompileMode::Bench => CompileMode::Test,
        _ => initial,
    }
}

/// The mode a proposed target is built in (see `unit_mode_spec`); build
/// scripts are never proposed.
pub fn unit_mode(initial: CompileMode, target: &Target, filter: &CompileFilter) -> (r: CompileMode)
    requires
        !(target@.kind is CustomBuild),
    ensures
        r == unit_mode_spec(initial, target@, *filter is Only),
{
    match initial {
        CompileMode::Test => if target.is_example() && !filter.is_specific() && !target.tested() {
            CompileMode::Build
        } else {
            CompileMode::Test
        },
        CompileMode::Build => if target.is_test() {
            CompileMode::Test
        } else if target.is_bench() {
            CompileMode::Bench
        } else {
            CompileMode::Build
        },
        CompileMode::Bench => CompileMode::Test,
        _ => initial,
    }
}

/// The required features that are not enabled, in order.
pub open spec fn unavailable_features(required: Seq<Seq<char>>, enabled: Seq<Seq<char>>) -> Seq<Seq<char>> {
    required.filter_map(|f: Seq<char>| if enabled.contains(f) { None } else { Some(f) })
}

/// What checking the required features of a proposal gives: build it
/// (`Ok(true)`) when it is a library or all its required features are
/// enabled; otherwise an error when they must be available, or else skip
/// it (`Ok(false)`).
pub open spec fn required_features_spec(
    q: Proposal,
    t: TargetView,
    required: Option<Seq<Seq<char>>>,
    enabled: Seq<Seq<char>>,
) -> Result<bool, TargetErrorView> {
    let missing = match required {
        Some(rf) => unavailable_features(rf, enabled),
        None => Seq::empty(),
    };
    if t.kind is Lib || missing.len() == 0 {
        Ok(true)
    } else if q.requires_features {
        Err(TargetErrorView::MissingFeatures(q.pkg, q.target, required.unwrap()))
    } else {
        Ok(false)
    }
}

/// Checks the required features of a proposed target against the features
/// enabled for its package (see `required_features_spec`).
pub fn check_required_features(
    q: &Proposal,
    target: &Target,
    required: &Option<Vec<String>>,
    enabled: &Vec<String>,
) -> (r: Result<bool, TargetError>)
    ensures
        match r {
            Ok(b) => required_features_spec(*q, target@, opt_strs(*required), strs(enabled@)) == Ok::<bool, TargetErrorView>(b),
            Err(e) => required_features_spec(*q, target@, opt_strs(*required), strs(enabled@)) == Err::<bool, TargetErrorView>(e@),
        },
{
    let mut missing: usize = 0;
    match required {
        Some(rf) => {
            let mut i: usize = 0;
            while i < rf.len()
                invariant
                    i <= rf@.len(),
                    missing == strs(rf@).take(i as int).filter_map(
                        |x: Seq<char>| if strs(enabled@).contains(x) { None } else { Some(x) },
                    ).len(),
                decreases rf.len() - i,
            {
                proof {
                    strs(rf@).lemma_filter_map_take_succ(
                        |x: Seq<char>| if strs(enabled@).contains(x) { None } else { Some(x) },
                        i as int,
                    );
                    lemma_filter_map_len_bound(
                        strs(rf@).take(i as int),
                        |x: Seq<char>| if strs(enabled@).contains(x) { None } else { Some(x) },
                    );
                }
                if !contains_string(enabled, &rf[i]) {
                    missing = missing + 1;
                }
                i = i + 1;
            }
            assert(strs(rf@).take(rf@.len() as int) =~= strs(rf@));
        },
        None => {},
    }
    if target.is_lib() || missing == 0 {
        Ok(true)
    } else if q.requires_features {
        let req = match required {
            Some(rf) => rf.clone(),
            None => Vec::new(),
        };
        Err(TargetError::MissingFeatures { pkg: q.pkg, target: q.target, required: req })
    } else {
        Ok(false)
    }
}

/// A `filter_map` keeps at most as many items as it was given.
proof fn lemma_filter_map_len_bound(s: Seq<Seq<char>>, f: spec_fn(Seq<char>) -> Option<Seq<char>>)
    ensures
        s.filter_map(f).len() <= s.len(),
    decreases s.len(),
{
    if s.len() > 0 {
        lemma_filter_map_len_bound(s.drop_last(), f);
    }
}

/// The views of an optional list of strings.
pub open spec fn opt_strs(o: Option<Vec<String>>) -> Option<Seq<Seq<char>>> {
    match o {
        Some(v) => Some(strs(v@)),
        None => None,
    }
}

/// `TEXT` when the rule selects all targets of its kind, else nothing.
pub open spec fn all_piece(r: FilterRule, text: Seq<char>) -> Seq<char> {
    if r is All {
        text
    } else {
        Seq::empty()
    }
}

/// One when the rule selects all targets of its kind, else zero.
pub open spec fn all_count(r: FilterRule) -> int {
    if r is All {
        1
    } else {
        0
    }
}

/// The warning given when selection flags matched no target, if any: the
/// flags that select all targets of a kind (or `all-targets`), and that
/// the run does nothing.
pub open spec fn unmatched_spec(no_units: bool, filter: CompileFilter) -> Option<Seq<char>> {
    match filter {
        CompileFilter::Only { all_targets, bins, examples, tests, benches, .. } => if no_units {
            let (filters, count) = if all_targets {
                (" `all-targets`"@, 0int)
            } else {
                let f = all_piece(bins, " `bins`,"@) + all_piece(tests, " `tests`,"@) + all_piece(
                    examples,
                    " `examples`,"@,
                ) + all_piece(benches, " `benches`,"@);
                (
                    if f.len() > 0 {
                        f.drop_last()
                    } else {
                        f
                    },
                    all_count(bins) + all_count(tests) + all_count(examples) + all_count(benches),
                )
            };
            Some(
                "Target "@ + (if count > 1 {
                    "filters"@
                } else {
                    "filter"@
                }) + filters + " specified, but no targets matched. This is a no-op"@,
            )
        } else {
            None
        },
        _ => None,
    }
}

/// Appends `TEXT` and counts one when the rule selects all targets.
fn push_all_piece(out: &mut Vec<char>, count: &mut u32, r: &FilterRule, text: &str)
    requires
        *old(count) < 4,
    ensures
        final(out)@ == old(out)@ + all_piece(*r, text@),
        *final(count) == *old(count) + all_count(*r),
{
    match r {
        FilterRule::All => {
            *count = *count + 1;
            push_str(out, text);
        },
        FilterRule::Just(_) => {
            assert(out@ =~= out@ + Seq::<char>::empty());
        },
    }
}

/// The warning for selection flags that matched no target (see
/// `unmatched_spec`).
pub fn unmatched_target_filters(no_units: bool, filter: &CompileFilter) -> (r: Option<String>)
    ensures
        match r {
            Some(m) => unmatched_spec(no_units, *filter) == Some(m@),
            None => unmatched_spec(no_units, *filter) is None,
        },
{
    match filter {
        CompileFilter::Only { all_targets, bins, examples, tests, benches, .. } => {
            if !no_units {
                return None;
            }
            let mut filters: Vec<char> = Vec::new();
            let mut count: u32 = 0;
            if *all_targets {
                push_str(&mut filters, " `all-targets`");
            } else {
                push_all_piece(&mut filters, &mut count, bins, " `bins`,");
                push_all_piece(&mut filters, &mut count, tests, " `tests`,");
                push_all_piece(&mut filters, &mut count, examples, " `examples`,");
                push_all_piece(&mut filters, &mut count, benches, " `benches`,");
                if filters.len() > 0 {
                    let ghost f = filters@;
                    filters.pop();
                    assert(filters@ =~= f.drop_last());
                }
            }
            let mut msg = chars_of("Target ");
            if count > 1 {
                push_str(&mut msg, "filters");
            } else {
                push_str(&mut msg, "filter");
            }
            push_all(&mut msg, &filters);
            push_str(&mut msg, " specified, but no targets matched. This is a no-op");
            Some(string_of(&msg))
        },
        _ => None,
    }
}

/// A target selected by its name (not a pattern) has that name and the
/// requested kind, and its required features must be available.
pub proof fn lemma_named_targets_match(
    pkgs: Seq<Package>,
    name: Seq<char>,
    desc: Seq<char>,
    kind: KindFilter,
    mode: CompileMode,
)
    requires
        pkgs.len() <= usize::MAX,
        forall|p: int| 0 <= p < pkgs.len() ==> (#[trigger] pkgs[p]).targets@.len() <= usize::MAX,
        !is_glob_spec(name),
        find_named_spec(pkgs, name, desc, kind, mode) is Ok,
    ensures
        forall|k: int|
            0 <= k < find_named_spec(pkgs, name, desc, kind, mode)->Ok_0.len() ==> {
                let q = #[trigger] find_named_spec(pkgs, name, desc, kind, mode)->Ok_0[k];
                &&& q.target < pkgs[q.pkg as int].targets@.len()
                &&& pkgs[q.pkg as int].targets@[q.target as int]@.name == name
                &&& kind_ok(kind, pkgs[q.pkg as int].targets@[q.target as int]@)
                &&& q.requires_features
            },
{
    lemma_proposals_in_range(pkgs, pkgs.len(), target_pred(kind, NameFilterView::Exact(name)), true, mode);
}


/// `dep/feature`: the `j`-th feature enabled on the `i`-th dependency.
pub open spec fn dep_feature_name(deps: Seq<(Seq<char>, Seq<Seq<char>>)>, i: int, j: int) -> Seq<char> {
    deps[i].0 + "/"@ + deps[i].1[j]
}

/// Whether `f` is `dep/feature` for a feature of one of the first `d`
/// dependencies, or for one of the first `k` features of the `d`-th.
pub open spec fn named_upto(deps: Seq<(Seq<char>, Seq<Seq<char>>)>, d: int, k: int, f: Seq<char>) -> bool {
    exists|i: int, j: int|
        #![trigger dep_feature_name(deps, i, j)]
        0 <= i && 0 <= j && ((i < d && j < deps[i].1.len()) || (i == d && j < k)) && dep_feature_name(deps, i, j) == f
}

/// All the features of a package that required features may name: its
/// own enabled features, and `dep/feature` for each feature enabled on
/// each of its dependencies (by the name the manifest gives it).
pub open spec fn all_features_spec(own: Seq<Seq<char>>, deps: Seq<(Seq<char>, Seq<Seq<char>>)>) -> Set<Seq<char>> {
    own.to_set().union(Set::new(|f: Seq<char>| named_upto(deps, deps.len() as int, 0, f)))
}

/// The views of dependencies with their enabled features.
pub open spec fn dep_features_view(v: Seq<(String, Vec<String>)>) -> Seq<(Seq<char>, Seq<Seq<char>>)> {
    v.map_values(|d: (String, Vec<String>)| (d.0@, strs(d.1@)))
}

/// Adds the name unless the list holds it.
fn add_unique(v: &mut Vec<String>, name: String)
    requires
        strs(old(v)@).no_duplicates(),
    ensures
        strs(final(v)@).no_duplicates(),
        forall|x: Seq<char>| #[trigger] strs(final(v)@).contains(x) <==> strs(old(v)@).contains(x) || x == name@,
{
    if !contains_string(v, &name) {
        let ghost before = strs(v@);
        let ghost n = name@;
        v.push(name);
        assert(strs(v@) =~= before.push(n));
        assert forall|x: Seq<char>| #[trigger] strs(v@).contains(x) <==> before.contains(x) || x == n by {
            if before.contains(x) {
                let k = choose|k: int| 0 <= k < before.len() && before[k] == x;
                assert(strs(v@)[k] == x);
            }
            if x == n {
                assert(strs(v@)[before.len() as int] == n);
            }
            if strs(v@).contains(x) {
                let k = choose|k: int| 0 <= k < strs(v@).len() && strs(v@)[k] == x;
                if k < before.len() {
                    assert(before[k] == x);
                }
            }
        }
        assert forall|a: int, b: int| 0 <= a < strs(v@).len() && 0 <= b < strs(v@).len() && a != b implies strs(v@)[a]
            != strs(v@)[b] by {
            if a == before.len() {
                assert(before[b] == strs(v@)[b]);
            } else if b == before.len() {
                assert(before[a] == strs(v@)[a]);
            }
        }
    }
}

/// Gets all the features of a package that required features may name
/// (see `all_features_spec`): `activated` are its enabled features, and
/// `dep_features` each dependency's name with the features enabled on it.
/// Each feature is listed once.
pub fn resolve_all_features(activated: &Vec<String>, dep_features: &Vec<(String, Vec<String>)>) -> (r: Vec<String>)
    ensures
        strs(r@).no_duplicates(),
        strs(r@).to_set() == all_features_spec(strs(activated@), dep_features_view(dep_features@)),
{
    let ghost dv = dep_features_view(dep_features@);
    let mut out: Vec<String> = Vec::new();
    let mut i: usize = 0;
    while i < activated.len()
        invariant
            i <= activated@.len(),
            strs(out@).no_duplicates(),
            forall|f: Seq<char>| strs(out@).contains(f) <==> strs(activated@).take(i as int).contains(f),
        decreases activated.len() - i,
    {
        let ghost t = strs(activated@).take(i as int);
        let ghost x0 = activated@[i as int]@;
        add_unique(&mut out, activated[i].clone());
        assert(strs(activated@).take(i + 1) =~= t.push(x0));
        assert forall|f: Seq<char>| t.push(x0).contains(f) <==> t.contains(f) || f == x0 by {
            if t.contains(f) {
                let k = choose|k: int| 0 <= k < t.len() && t[k] == f;
                assert(t.push(x0)[k] == f);
            }
            if f == x0 {
                assert(t.push(x0)[t.len() as int] == x0);
            }
            if t.push(x0).contains(f) {
                let k = choose|k: int| 0 <= k < t.push(x0).len() && t.push(x0)[k] == f;
                if k < t.len() {
                    assert(t[k] == f);
                }
            }
        }
        i = i + 1;
    }
    assert(strs(activated@).take(activated@.len() as int) =~= strs(activated@));
    let ghost own = strs(activated@).to_set();
    let mut d: usize = 0;
    while d < dep_features.len()
        invariant
            d <= dep_features@.len(),
            dv == dep_features_view(dep_features@),
            own == strs(activated@).to_set(),
            strs(out@).no_duplicates(),
            forall|f: Seq<char>| #![trigger strs(out@).contains(f)] strs(out@).contains(f) <==> own.contains(f) || named_upto(dv, d as int, 0, f),
        decreases dep_features.len() - d,
    {
        let name = &dep_features[d].0;
        let feats = &dep_features[d].1;
        assert(dv[d as int] == (name@, strs(feats@)));
        let mut k: usize = 0;
        while k < feats.len()
            invariant
                k <= feats@.len(),
                d < dep_features@.len(),
                dv == dep_features_view(dep_features@),
                dv[d as int] == (name@, strs(feats@)),
                own == strs(activated@).to_set(),
                strs(out@).no_duplicates(),
                forall|f: Seq<char>| #![trigger strs(out@).contains(f)] strs(out@).contains(f) <==> own.contains(f) || named_upto(dv, d as int, k as int, f),
            decreases feats.len() - k,
        {
            let full = concat_three(name.as_str(), "/", feats[k].as_str());
            assert(dv[d as int].1[k as int] == feats@[k as int]@);
            assert(full@ == dep_feature_name(dv, d as int, k as int));
            let ghost before = strs(out@);
            let ghost fname = full@;
            add_unique(&mut out, full);
            proof {
                assert forall|f: Seq<char>| #![trigger strs(out@).contains(f)] strs(out@).contains(f) <==> own.contains(f) || named_upto(
                    dv,
                    d as int,
                    k + 1,
                    f,
                ) by {
                    assert(before.contains(f) <==> own.contains(f) || named_upto(dv, d as int, k as int, f));
                    assert(strs(out@).contains(f) <==> before.contains(f) || f == fname);
                    if named_upto(dv, d as int, k + 1, f) {
                        let (i, j) = choose|i: int, j: int|
                            #![trigger dep_feature_name(dv, i, j)]
                            0 <= i && 0 <= j && ((i < d && j < dv[i].1.len()) || (i == d && j < k + 1))
                                && dep_feature_name(dv, i, j) == f;
                        if !(i == d && j == k) {
                            assert(named_upto(dv, d as int, k as int, f));
                        }
                    }
                    if named_upto(dv, d as int, k as int, f) {
                        let (i, j) = choose|i: int, j: int|
                            #![trigger dep_feature_name(dv, i, j)]
                            0 <= i && 0 <= j && ((i < d && j < dv[i].1.len()) || (i == d && j < k))
                                && dep_feature_name(dv, i, j) == f;
                        assert(named_upto(dv, d as int, k + 1, f));
                    }
                    if f == dep_feature_name(dv, d as int, k as int) {
                        assert(named_upto(dv, d as int, k + 1, f));
                    }
                }
            }
            k = k + 1;
        }
        proof {
            assert(k == dv[d as int].1.len());
            assert forall|f: Seq<char>| named_upto(dv, d as int, k as int, f) == named_upto(dv, d + 1, 0, f) by {
                if named_upto(dv, d as int, k as int, f) {
                    let (i, j) = choose|i: int, j: int|
                        #![trigger dep_feature_name(dv, i, j)]
                        0 <= i && 0 <= j && ((i < d && j < dv[i].1.len()) || (i == d && j < k))
                            && dep_feature_name(dv, i, j) == f;
                    assert(named_upto(dv, d + 1, 0, f));
                }
                if named_upto(dv, d + 1, 0, f) {
                    let (i, j) = choose|i: int, j: int|
                        #![trigger dep_feature_name(dv, i, j)]
                        0 <= i && 0 <= j && ((i < d + 1 && j < dv[i].1.len()) || (i == d + 1 && j < 0))
                            && dep_feature_name(dv, i, j) == f;
                    assert(named_upto(dv, d as int, k as int, f));
                }
            }
        }
        d = d + 1;
    }
    assert forall|f: Seq<char>| strs(out@).contains(f) == all_features_spec(strs(activated@), dv).contains(f) by {
        assert(strs(out@).contains(f) <==> own.contains(f) || named_upto(dv, dv.len() as int, 0, f));
    }
    assert(strs(out@).to_set() =~= all_features_spec(strs(activated@), dv));
    out
}

/// Three texts joined.
fn concat_three(a: &str, b: &str, c: &str) -> (r: String)
    ensures
        r@ == a@ + b@ + c@,
{
    let mut out: Vec<char> = Vec::new();
    push_str(&mut out, a);
    push_str(&mut out, b);
    push_str(&mut out, c);
    string_of(&out)
}


/// Why the build of the selected packages cannot be prepared.
#[derive(Debug)]
pub enum BuildContextError {
    /// A package to test needs development dependencies but is not a
    /// member of the workspace.
    CannotTest { package: String },
    /// Extra arguments for `tool` were given for several targets.
    ExtraArgsForOneTarget { tool: String },
    /// A package needs a newer compiler: the package (name and version),
    /// the requirement, the compiler's version, and advice.
    RustVersion { package: String, version: String, required: String, current: String, guidance: String },
}

/// Whether a package may be tested: not when testing a package that is not
/// a member of the workspace and has development dependencies.
pub open spec fn can_test(mode: CompileMode, is_member: bool, has_dev_deps: bool) -> bool {
    !(any_test(mode) && !is_member && has_dev_deps)
}

/// Checks that a package to build may be tested (see `can_test`).
pub fn check_can_test(mode: CompileMode, is_member: bool, has_dev_deps: bool, name: &str) -> (r: Result<(), BuildContextError>)
    ensures
        r is Ok <==> can_test(mode, is_member, has_dev_deps),
        r matches Err(BuildContextError::CannotTest { package }) ==> package@ == name@,
        !(r matches Err(BuildContextError::ExtraArgsForOneTarget { .. })),
        !(r matches Err(BuildContextError::RustVersion { .. })),
{
    if mode.is_any_test() && !is_member && has_dev_deps {
        Err(BuildContextError::CannotTest { package: string_from(name) })
    } else {
        Ok(())
    }
}

/// The extra compiler arguments given for one target and the tool they are
/// for: those for `rustc` first, else those for `rustdoc`.
pub fn extra_args_of(target_rustc_args: &Option<Vec<String>>, target_rustdoc_args: &Option<Vec<String>>) -> (r: (Option<Vec<String>>, &'static str))
    ensures
        match (target_rustc_args, target_rustdoc_args) {
            (Some(a), _) => r.0 matches Some(x) && strs(x@) == strs(a@) && r.1@ == "rustc"@,
            (None, Some(a)) => r.0 matches Some(x) && strs(x@) == strs(a@) && r.1@ == "rustdoc"@,
            (None, None) => r.0 is None && r.1@ == ""@,
        },
{
    match (target_rustc_args, target_rustdoc_args) {
        (Some(a), _) => (Some(copy_strings(a)), "rustc"),
        (None, Some(a)) => (Some(copy_strings(a)), "rustdoc"),
        (None, None) => (None, ""),
    }
}

/// Checks that extra arguments, if any, go to a single unit.
pub fn check_extra_args_target(has_extra_args: bool, units: usize, tool: &str) -> (r: Result<(), BuildContextError>)
    ensures
        r is Ok <==> (!has_extra_args || units == 1),
        r matches Err(BuildContextError::ExtraArgsForOneTarget { tool: t }) ==> t@ == tool@,
        !(r matches Err(BuildContextError::CannotTest { .. })),
        !(r matches Err(BuildContextError::RustVersion { .. })),
{
    if has_extra_args && units != 1 {
        Err(BuildContextError::ExtraArgsForOneTarget { tool: string_from(tool) })
    } else {
        Ok(())
    }
}

/// The extra `rustdoc` arguments of a documentation unit: those given for
/// all targets, plus `--document-private-items` when private items are to
/// be documented or the target is a binary, and then, for a binary,
/// `-Arustdoc::private-intra-doc-links`.
pub open spec fn rustdoc_args_spec(local: Option<Seq<Seq<char>>>, document_private_items: bool, is_bin: bool) -> Option<Seq<Seq<char>>> {
    if document_private_items || is_bin {
        let base = match local {
            Some(a) => a,
            None => Seq::empty(),
        };
        let with_private = base.push("--document-private-items"@);
        Some(
            if is_bin {
                with_private.push("-Arustdoc::private-intra-doc-links"@)
            } else {
                with_private
            },
        )
    } else {
        local
    }
}

/// The extra `rustdoc` arguments of a documentation unit (see
/// `rustdoc_args_spec`).
pub fn unit_rustdoc_args(local_rustdoc_args: &Option<Vec<String>>, document_private_items: bool, is_bin: bool) -> (r: Option<Vec<String>>)
    ensures
        match r {
            Some(v) => rustdoc_args_spec(crate::text::opt_strs(*local_rustdoc_args), document_private_items, is_bin)
                == Some(strs(v@)),
            None => rustdoc_args_spec(crate::text::opt_strs(*local_rustdoc_args), document_private_items, is_bin) is None,
        },
{
    let extra = match local_rustdoc_args {
        Some(a) => Some(copy_strings(a)),
        None => None,
    };
    if document_private_items || is_bin {
        let mut args = match extra {
            Some(a) => a,
            None => Vec::new(),
        };
        let ghost a0 = strs(args@);
        args.push(string_from("--document-private-items"));
        let ghost a1 = strs(args@);
        assert(a1 =~= a0.push("--document-private-items"@));
        if is_bin {
            args.push(string_from("-Arustdoc::private-intra-doc-links"));
            assert(strs(args@) =~= a1.push("-Arustdoc::private-intra-doc-links"@));
        }
        Some(args)
    } else {
        extra
    }
}


/// Whether `semver::Version::new(major, minor, patch)` meets the
/// requirement as `semver::VersionReq::parse` reads it; `None` when the
/// requirement does not parse.
pub uninterp spec fn rust_version_matches(req: Seq<char>, major: u64, minor: u64, patch: u64) -> Option<bool>;

/// Parses the requirement with `semver::VersionReq::parse` and, when it
/// parses, tells whether `VersionReq::matches` accepts
/// `semver::Version::new(major, minor, patch)`; the result is named
/// (`rust_version_matches`).
#[verifier::external_body]
fn version_req_matches(req: &str, major: u64, minor: u64, patch: u64) -> (r: Option<bool>)
    ensures
        r == rust_version_matches(req@, major, minor, patch),
{
    match semver::VersionReq::parse(req) {
        Ok(r) => Some(r.matches(&semver::Version::new(major, minor, patch))),
        Err(_) => None,
    }
}

/// The advice given with a compiler that is too old: to re-run an install
/// with `--locked` when installing without the lock file; for a package
/// that is not local, to upgrade the compiler or pin an older version of
/// the package; otherwise none.
pub open spec fn rust_version_guidance(
    required: Seq<char>,
    current: crate::package_id_spec::VersionView,
    is_ephemeral: bool,
    ignore_lock: bool,
    is_local: bool,
    pkg: crate::package_id_spec::PackageIdView,
) -> Seq<char> {
    if is_ephemeral {
        if ignore_lock {
            "Try re-running cargo install with `--locked`"@
        } else {
            ""@
        }
    } else if !is_local {
        "Either upgrade to rustc "@ + required + " or newer, or use\ncargo update -p "@ + pkg.name + "@"@ + version_text(
            pkg.version,
        ) + " --precise ver\nwhere `ver` is the latest version of `"@ + pkg.name + "` supporting rustc "@ + version_text(
            current,
        )
    } else {
        ""@
    }
}

/// Whether the error is the one for a package that needs a newer compiler
/// (see `rust_version_guidance`).
pub open spec fn is_rust_version_error(
    e: BuildContextError,
    required: Seq<char>,
    current: crate::package_id_spec::VersionView,
    is_ephemeral: bool,
    ignore_lock: bool,
    is_local: bool,
    pkg: crate::package_id_spec::PackageIdView,
) -> bool {
    match e {
        BuildContextError::RustVersion { package, version, required: req, current: cur, guidance } => {
            &&& package@ == pkg.name
            &&& version@ == version_text(pkg.version)
            &&& req@ == required
            &&& cur@ == version_text(current)
            &&& guidance@ == rust_version_guidance(required, current, is_ephemeral, ignore_lock, is_local, pkg)
        },
        _ => false,
    }
}

/// Concatenates texts.
fn join_texts(parts: &Vec<&str>) -> (r: String)
    ensures
        r@ == parts@.map_values(|p: &str| p@).fold_left(Seq::<char>::empty(), |acc: Seq<char>, p: Seq<char>| acc + p),
{
    let ghost pv = parts@.map_values(|p: &str| p@);
    let ghost f = |acc: Seq<char>, p: Seq<char>| acc + p;
    let mut out: Vec<char> = Vec::new();
    let mut i: usize = 0;
    while i < parts.len()
        invariant
            i <= parts@.len(),
            pv == parts@.map_values(|p: &str| p@),
            f == (|acc: Seq<char>, p: Seq<char>| acc + p),
            out@ == pv.take(i as int).fold_left(Seq::<char>::empty(), f),
        decreases parts.len() - i,
    {
        assert(pv.take(i + 1).drop_last() =~= pv.take(i as int));
        push_str(&mut out, parts[i]);
        i = i + 1;
    }
    assert(pv.take(parts@.len() as int) =~= pv);
    string_of(&out)
}

/// What a package's rust-version requirement gives once it is known
/// whether the compiler meets it: nothing when it does, otherwise the
/// error (see `is_rust_version_error`).
pub fn rust_version_outcome(
    allowed: bool,
    required: &str,
    current: &Version,
    is_ephemeral: bool,
    ignore_lock: bool,
    is_local: bool,
    pkg: &PackageId,
) -> (r: Result<(), BuildContextError>)
    ensures
        r is Ok <==> allowed,
        r matches Err(e) ==> is_rust_version_error(e, required@, current@, is_ephemeral, ignore_lock, is_local, pkg@),
{
    if allowed {
        return Ok(());
    }
    let guidance = if is_ephemeral {
        if ignore_lock {
            string_from("Try re-running cargo install with `--locked`")
        } else {
            string_from("")
        }
    } else if !is_local {
        let pv = pkg.version().to_string();
        let cv = current.to_string();
        let parts = vec![
            "Either upgrade to rustc ",
            required,
            " or newer, or use\ncargo update -p ",
            pkg.name(),
            "@",
            pv.as_str(),
            " --precise ver\nwhere `ver` is the latest version of `",
            pkg.name(),
            "` supporting rustc ",
            cv.as_str(),
        ];
        let g = join_texts(&parts);
        proof {
            let ps = parts@.map_values(|p: &str| p@);
            reveal_with_fuel(vstd::seq::Seq::fold_left, 11);
            assert(ps.fold_left(Seq::<char>::empty(), |acc: Seq<char>, p: Seq<char>| acc + p) =~= ps[0] + ps[1] + ps[2] + ps[3]
                + ps[4] + ps[5] + ps[6] + ps[7] + ps[8] + ps[9]);
        }
        g
    } else {
        string_from("")
    };
    proof {
        reveal_strlit("");
    }
    Err(
        BuildContextError::RustVersion {
            package: string_from(pkg.name()),
            version: pkg.version().to_string(),
            required: string_from(required),
            current: current.to_string(),
            guidance,
        },
    )
}

/// Checks a package's rust-version requirement against the compiler's
/// version, its pre-release part left out (see `rust_version_outcome`);
/// nothing to check without a requirement. `None` when the requirement
/// does not parse as a version requirement.
pub fn check_rust_version(
    rust_version: Option<&str>,
    current: &Version,
    is_ephemeral: bool,
    ignore_lock: bool,
    is_local: bool,
    pkg: &PackageId,
) -> (r: Option<Result<(), BuildContextError>>)
    ensures
        match rust_version {
            None => r matches Some(Ok(())),
            Some(req) => match rust_version_matches(req@, current.major, current.minor, current.patch) {
                None => r is None,
                Some(allowed) => r matches Some(res) && (res is Ok <==> allowed) && (res matches Err(e)
                    ==> is_rust_version_error(e, req@, current@, is_ephemeral, ignore_lock, is_local, pkg@)),
            },
        },
{
    match rust_version {
        None => Some(Ok(())),
        Some(req) => match version_req_matches(req, current.major, current.minor, current.patch) {
            None => None,
            Some(allowed) => Some(rust_version_outcome(allowed, req, current, is_ephemeral, ignore_lock, is_local, pkg)),
        },
    }
}

} // verus!
