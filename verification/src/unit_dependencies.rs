//! Units of compilation and the edges between them: the library of a
//! package that a unit depends on, the build script run for a package, and
//! the build scripts that must run before others because of the native
//! libraries their packages link.
use vstd::prelude::*;
use crate::compile_mode::{any_test, CompileMode};
use crate::compiler::Kind;
use crate::manifest::{any_linkable_kind, underscored, Target, TargetKindView, TargetView};
use crate::source_id::same_source;
use crate::package_id_spec::{PackageId, PackageIdView, Version, VersionView};
use crate::git::{hex_le, sip_hash, sip_hash_of, to_hex};
use crate::text::{contains_string, push_all, push_str, string_of, strs};
use crate::profiles::{
    comparable, default_view, Lto, LtoView, maker_for, maker_ok, Profile, ProfileFor, ProfileView, Profiles, unit_profile,
};

verus! {

/// A package as the unit graph sees it: its id, whether it is a member of
/// the workspace, its targets, and the native library it links, if any.
#[derive(Debug)]
pub struct UnitPackage {
    pub id: PackageId,
    pub is_member: bool,
    pub targets: Vec<Target>,
    pub links: Option<String>,
}

/// What the build knows when it forms units: the packages, the profiles,
/// and whether it is a release build.
pub struct BuildContext {
    pub packages: Vec<UnitPackage>,
    pub profiles: Profiles,
    pub release: bool,
}

/// A unit of compilation: a target (by its position) of a package (by its
/// position among the build's packages), the profile it is built with,
/// whether it is built for the host, and its mode.
#[derive(Debug, Hash)]
pub struct Unit {
    pub pkg: usize,
    pub target: usize,
    pub profile: Profile,
    pub kind: Kind,
    pub mode: CompileMode,
}

/// The mathematical value of a `Unit`.
pub struct UnitView {
    pub pkg: nat,
    pub target: nat,
    pub profile: ProfileView,
    pub kind: Kind,
    pub mode: CompileMode,
}

impl View for Unit {
    type V = UnitView;

    open spec fn view(&self) -> UnitView {
        UnitView {
            pkg: self.pkg as nat,
            target: self.target as nat,
            profile: self.profile@,
            kind: self.kind,
            mode: self.mode,
        }
    }
}

/// Whether two units are the same unit: the same target of the same
/// package, with the same settings, kind and mode (the name of the profile
/// does not count, as it does not for profiles).
pub open spec fn same_unit(a: UnitView, b: UnitView) -> bool {
    &&& a.pkg == b.pkg
    &&& a.target == b.target
    &&& comparable(a.profile) == comparable(b.profile)
    &&& a.kind == b.kind
    &&& a.mode == b.mode
}

impl Unit {
    /// Whether two units are the same unit (see `same_unit`).
    pub fn same(&self, other: &Unit) -> (r: bool)
        ensures
            r == same_unit(self@, other@),
    {
        self.pkg == other.pkg && self.target == other.target && self.profile.same_settings(&other.profile)
            && self.kind == other.kind && self.mode == other.mode
    }

    /// A copy of the unit.
    pub fn duplicate(&self) -> (r: Unit)
        ensures
            r@ == self@,
    {
        Unit { pkg: self.pkg, target: self.target, profile: self.profile.duplicate(), kind: self.kind, mode: self.mode }
    }
}

/// Whether the target is a library that can be linked.
pub open spec fn target_linkable(t: TargetView) -> bool {
    match t.kind {
        TargetKindView::Lib(k) => any_linkable_kind(k),
        _ => false,
    }
}

/// The mode a dependency is built in for a unit of the given mode: checks
/// and documentation need only the metadata of their dependencies (a
/// check without tests), except of those built for the host, which are
/// built; everything else builds its dependencies.
pub open spec fn dep_mode(mode: CompileMode, t: TargetView) -> CompileMode {
    match mode {
        CompileMode::Check { .. } | CompileMode::Doc { .. } => if t.for_host {
            CompileMode::Build
        } else {
            CompileMode::Check { test: false }
        },
        _ => CompileMode::Build,
    }
}

/// Chooses the mode of a dependency (see `dep_mode`).
pub fn check_or_build_mode(mode: CompileMode, target: &Target) -> (r: CompileMode)
    ensures
        r == dep_mode(mode, target@),
{
    match mode {
        CompileMode::Check { .. } | CompileMode::Doc { .. } => {
            if target.for_host() {
                CompileMode::Build
            } else {
                CompileMode::Check { test: false }
            }
        },
        _ => CompileMode::Build,
    }
}

/// The views of the targets of a package.
pub open spec fn targets_view(ts: Seq<Target>) -> Seq<TargetView> {
    ts.map_values(|t: Target| t@)
}

/// The position of the first linkable target, if any.
pub open spec fn first_linkable(ts: Seq<TargetView>) -> Option<int>
    decreases ts.len(),
{
    if ts.len() == 0 {
        None
    } else {
        match first_linkable(ts.drop_last()) {
            Some(i) => Some(i),
            None => if target_linkable(ts.last()) {
                Some(ts.len() - 1)
            } else {
                None
            },
        }
    }
}

/// The position of the first build script target, if any.
pub open spec fn first_custom_build(ts: Seq<TargetView>) -> Option<int>
    decreases ts.len(),
{
    if ts.len() == 0 {
        None
    } else {
        match first_custom_build(ts.drop_last()) {
            Some(i) => Some(i),
            None => if ts.last().kind is CustomBuild {
                Some(ts.len() - 1)
            } else {
                None
            },
        }
    }
}

/// Whether every profile applies to every package of the build (no
/// override of a package is ambiguous), so that a profile can be formed
/// for any unit.
pub open spec fn profiles_apply(b: BuildContext) -> bool {
    forall|i: int, mode: CompileMode, release: bool|
        0 <= i < b.packages.len() ==> #[trigger] maker_ok(maker_for(b.profiles, mode, release), Some(b.packages[i].id@))
}

/// The unit for a target of a package built in a mode and kind, with the
/// profile the package gets for that purpose.
pub open spec fn new_unit_spec(b: BuildContext, pkg: nat, target: nat, profile_for: ProfileFor, kind: Kind, mode: CompileMode) -> UnitView {
    UnitView {
        pkg,
        target,
        profile: unit_profile(
            b.profiles,
            b.packages[pkg as int].id@,
            b.packages[pkg as int].is_member,
            profile_for,
            mode,
            b.release,
        ),
        kind,
        mode,
    }
}

/// Forms the unit for a target of a package (see `new_unit_spec`).
pub fn new_unit(b: &BuildContext, pkg: usize, target: usize, profile_for: ProfileFor, kind: Kind, mode: CompileMode) -> (r: Unit)
    requires
        pkg < b.packages@.len(),
        profiles_apply(*b),
    ensures
        r@ == new_unit_spec(*b, pkg as nat, target as nat, profile_for, kind, mode),
{
    let p = &b.packages[pkg];
    assert(maker_ok(maker_for(b.profiles, mode, b.release), Some(b.packages@[pkg as int].id@)));
    let profile = b.profiles.get_profile(&p.id, p.is_member, profile_for, mode, b.release);
    Unit { pkg, target, profile, kind, mode }
}

/// The position of the first linkable target.
fn find_linkable(ts: &Vec<Target>) -> (r: Option<usize>)
    ensures
        r matches Some(i) ==> i < ts@.len() && first_linkable(targets_view(ts@)) == Some(i as int),
        r is None ==> first_linkable(targets_view(ts@)) is None,
{
    let ghost tv = targets_view(ts@);
    let mut i: usize = 0;
    while i < ts.len()
        invariant
            i <= ts@.len(),
            tv == targets_view(ts@),
            first_linkable(tv.take(i as int)) is None,
        decreases ts.len() - i,
    {
        assert(tv.take(i + 1).drop_last() =~= tv.take(i as int));
        assert(tv.take(i + 1).last() == ts@[i as int]@);
        if ts[i].linkable() {
            proof {
                lemma_first_linkable_prefix(tv, (i + 1) as nat);
            }
            return Some(i);
        }
        i = i + 1;
    }
    assert(tv.take(ts@.len() as int) =~= tv);
    None
}

/// The position of the first build script target.
fn find_custom_build(ts: &Vec<Target>) -> (r: Option<usize>)
    ensures
        r matches Some(i) ==> i < ts@.len() && first_custom_build(targets_view(ts@)) == Some(i as int),
        r is None ==> first_custom_build(targets_view(ts@)) is None,
{
    let ghost tv = targets_view(ts@);
    let mut i: usize = 0;
    while i < ts.len()
        invariant
            i <= ts@.len(),
            tv == targets_view(ts@),
            first_custom_build(tv.take(i as int)) is None,
        decreases ts.len() - i,
    {
        assert(tv.take(i + 1).drop_last() =~= tv.take(i as int));
        assert(tv.take(i + 1).last() == ts@[i as int]@);
        if ts[i].is_custom_build() {
            proof {
                lemma_first_custom_build_prefix(tv, (i + 1) as nat);
            }
            return Some(i);
        }
        i = i + 1;
    }
    assert(tv.take(ts@.len() as int) =~= tv);
    None
}

/// Once the first `n` targets hold a linkable one, the first of them is
/// the first of all.
proof fn lemma_first_linkable_prefix(ts: Seq<TargetView>, n: nat)
    requires
        n <= ts.len(),
        first_linkable(ts.take(n as int)) is Some,
    ensures
        first_linkable(ts) == first_linkable(ts.take(n as int)),
    decreases ts.len() - n,
{
    if n < ts.len() {
        assert(ts.take(n + 1int).drop_last() =~= ts.take(n as int));
        lemma_first_linkable_prefix(ts, n + 1);
    } else {
        assert(ts.take(n as int) =~= ts);
    }
}

/// Once the first `n` targets hold a build script, the first of them is
/// the first of all.
proof fn lemma_first_custom_build_prefix(ts: Seq<TargetView>, n: nat)
    requires
        n <= ts.len(),
        first_custom_build(ts.take(n as int)) is Some,
    ensures
        first_custom_build(ts) == first_custom_build(ts.take(n as int)),
    decreases ts.len() - n,
{
    if n < ts.len() {
        assert(ts.take(n + 1int).drop_last() =~= ts.take(n as int));
        lemma_first_custom_build_prefix(ts, n + 1);
    } else {
        assert(ts.take(n as int) =~= ts);
    }
}

/// A found position is in range.
proof fn lemma_first_in_range(ts: Seq<TargetView>)
    ensures
        first_linkable(ts) matches Some(i) ==> 0 <= i < ts.len() && target_linkable(ts[i]),
        first_custom_build(ts) matches Some(i) ==> 0 <= i < ts.len() && ts[i].kind is CustomBuild,
    decreases ts.len(),
{
    if ts.len() > 0 {
        lemma_first_in_range(ts.drop_last());
    }
}

/// The targets of the unit's package.
pub open spec fn unit_targets(b: BuildContext, u: UnitView) -> Seq<TargetView> {
    targets_view(b.packages[u.pkg as int].targets@)
}

/// The unit of the library of the unit's package, if it has a linkable
/// one: built in the mode its dependents need (see `dep_mode`), on the
/// host when the library is built for the host.
pub open spec fn maybe_lib_spec(b: BuildContext, u: UnitView, profile_for: ProfileFor) -> Option<(UnitView, ProfileFor)> {
    let ts = unit_targets(b, u);
    match first_linkable(ts) {
        Some(t) => {
            let kind = if u.kind == Kind::Target && !ts[t].for_host {
                Kind::Target
            } else {
                Kind::Host
            };
            Some((new_unit_spec(b, u.pkg, t as nat, profile_for, kind, dep_mode(u.mode, ts[t])), profile_for))
        },
        None => None,
    }
}

/// The unit for the library of the unit's package (see `maybe_lib_spec`).
pub fn maybe_lib(unit: &Unit, b: &BuildContext, profile_for: ProfileFor) -> (r: Option<(Unit, ProfileFor)>)
    requires
        unit.pkg < b.packages@.len(),
        profiles_apply(*b),
    ensures
        match maybe_lib_spec(*b, unit@, profile_for) {
            Some((v, pf)) => r matches Some(x) && x.0@ == v && x.1 == pf,
            None => r is None,
        },
{
    let ts = &b.packages[unit.pkg].targets;
    match find_linkable(ts) {
        Some(t) => {
            let mode = check_or_build_mode(unit.mode, &ts[t]);
            let kind = unit.kind.for_target(&ts[t]);
            let u = new_unit(b, unit.pkg, t, profile_for, kind, mode);
            Some((u, profile_for))
        },
        None => None,
    }
}

/// The unit that runs the build script of the unit's package, if it has
/// one: with the profile a script run gets for the unit's profile, the
/// unit's kind, for building scripts.
pub open spec fn dep_build_script_spec(b: BuildContext, u: UnitView) -> Option<(UnitView, ProfileFor)> {
    match first_custom_build(unit_targets(b, u)) {
        Some(t) => Some(
            (
                UnitView {
                    pkg: u.pkg,
                    target: t as nat,
                    profile: ProfileView { debuginfo: u.profile.debuginfo, opt_level: u.profile.opt_level, ..default_view() },
                    kind: u.kind,
                    mode: CompileMode::RunCustomBuild,
                },
                ProfileFor::CustomBuild,
            ),
        ),
        None => None,
    }
}

/// The unit that runs the build script of the unit's package (see
/// `dep_build_script_spec`).
pub fn dep_build_script(unit: &Unit, b: &BuildContext) -> (r: Option<(Unit, ProfileFor)>)
    requires
        unit.pkg < b.packages@.len(),
    ensures
        match dep_build_script_spec(*b, unit@) {
            Some((v, pf)) => r matches Some(x) && x.0@ == v && x.1 == pf,
            None => r is None,
        },
{
    let ts = &b.packages[unit.pkg].targets;
    match find_custom_build(ts) {
        Some(t) => {
            let profile = b.profiles.get_profile_run_custom_build(&unit.profile);
            Some(
                (
                    Unit { pkg: unit.pkg, target: t, profile, kind: unit.kind, mode: CompileMode::RunCustomBuild },
                    ProfileFor::CustomBuild,
                ),
            )
        },
        None => None,
    }
}


/// The views of units.
pub open spec fn units_view(v: Seq<Unit>) -> Seq<UnitView> {
    v.map_values(|u: Unit| u@)
}

/// The view of a dependency graph: each unit with the units it depends on.
pub open spec fn graph_view(g: Seq<(Unit, Vec<Unit>)>) -> Seq<(UnitView, Seq<UnitView>)> {
    g.map_values(|e: (Unit, Vec<Unit>)| (e.0@, units_view(e.1@)))
}

/// Whether the list holds the unit (as the same unit).
pub open spec fn has_unit(s: Seq<UnitView>, x: UnitView) -> bool {
    exists|k: int| 0 <= k < s.len() && same_unit(#[trigger] s[k], x)
}

/// Whether no unit occurs twice in the list.
pub open spec fn distinct_units(s: Seq<UnitView>) -> bool {
    forall|a: int, b: int| 0 <= a < b < s.len() ==> !same_unit(#[trigger] s[a], #[trigger] s[b])
}

/// Whether every unit of the graph is a target of one of the build's
/// packages.
pub open spec fn unit_ok(b: BuildContext, u: UnitView) -> bool {
    u.pkg < b.packages.len() && u.target < b.packages[u.pkg as int].targets.len()
}

/// Whether the units the graph's units depend on are targets of the
/// build's packages.
pub open spec fn graph_ok(b: BuildContext, g: Seq<(UnitView, Seq<UnitView>)>) -> bool {
    forall|r: int, j: int| 0 <= r < g.len() && 0 <= j < g[r].1.len() ==> unit_ok(b, #[trigger] g[r].1[j])
}

/// The build script run that a build script run `u` must wait for because
/// of `o`, a dependency of a unit that depends on `u`: the run of the
/// script of `o`'s package, when `o` is a linkable library of another
/// package that links a native library.
pub open spec fn link_script(b: BuildContext, u: UnitView, o: UnitView) -> Option<UnitView> {
    if o.pkg != u.pkg && target_linkable(unit_targets(b, o)[o.target as int]) && b.packages[o.pkg as int].links is Some {
        match dep_build_script_spec(b, o) {
            Some((x, _)) => Some(x),
            None => None,
        }
    } else {
        None
    }
}

/// Whether `x` is the script run that the `j`-th dependency of the `r`-th
/// unit gives the build script run `u`, that unit depending on `u`.
pub open spec fn link_script_at(b: BuildContext, g: Seq<(UnitView, Seq<UnitView>)>, u: UnitView, r: int, j: int, x: UnitView) -> bool {
    &&& 0 <= r < g.len()
    &&& has_unit(g[r].1, u)
    &&& 0 <= j < g[r].1.len()
    &&& link_script(b, u, g[r].1[j]) matches Some(y) && same_unit(y, x)
}

/// Whether the build script run `u` must wait for the script run `x`:
/// some unit depends on `u` and on a linkable library whose script run
/// `x` is (see `link_script`).
pub open spec fn waits_for(b: BuildContext, g: Seq<(UnitView, Seq<UnitView>)>, u: UnitView, x: UnitView) -> bool {
    exists|r: int, j: int| #[trigger] link_script_at(b, g, u, r, j, x)
}

/// Pushing a unit onto a list adds just that unit.
proof fn lemma_has_unit_push(s: Seq<UnitView>, y: UnitView, x: UnitView)
    ensures
        has_unit(s.push(y), x) == (has_unit(s, x) || same_unit(y, x)),
{
    if has_unit(s, x) {
        let k = choose|k: int| 0 <= k < s.len() && same_unit(#[trigger] s[k], x);
        assert(s.push(y)[k] == s[k]);
    }
    if same_unit(y, x) {
        assert(s.push(y)[s.len() as int] == y);
    }
    if has_unit(s.push(y), x) {
        let k = choose|k: int| 0 <= k < s.push(y).len() && same_unit(#[trigger] s.push(y)[k], x);
        if k < s.len() {
            assert(s[k] == s.push(y)[k]);
        }
    }
}

/// Whether the list holds the unit (see `has_unit`).
fn contains_unit(v: &Vec<Unit>, x: &Unit) -> (r: bool)
    ensures
        r == has_unit(units_view(v@), x@),
{
    let ghost uv = units_view(v@);
    let mut i: usize = 0;
    while i < v.len()
        invariant
            i <= v@.len(),
            uv == units_view(v@),
            forall|k: int| 0 <= k < i ==> !same_unit(#[trigger] uv[k], x@),
        decreases v.len() - i,
    {
        assert(uv[i as int] == v@[i as int]@);
        if v[i].same(x) {
            return true;
        }
        i = i + 1;
    }
    false
}

/// The script runs that the build script run `u` (the unit of the `i`-th
/// entry) must wait for, each once (see `waits_for`).
fn scripts_to_wait_for(deps: &Vec<(Unit, Vec<Unit>)>, i: usize, b: &BuildContext) -> (r: Vec<Unit>)
    requires
        i < deps@.len(),
        graph_ok(*b, graph_view(deps@)),
    ensures
        distinct_units(units_view(r@)),
        forall|x: UnitView| has_unit(units_view(r@), x) <==> waits_for(*b, graph_view(deps@), deps@[i as int].0@, x),
{
    let ghost g = graph_view(deps@);
    let u = &deps[i].0;
    assert(g[i as int].0 == u@);
    let mut added: Vec<Unit> = Vec::new();
    let mut r: usize = 0;
    while r < deps.len()
        invariant
            r <= deps@.len(),
            g == graph_view(deps@),
            graph_ok(*b, g),
            u@ == deps@[i as int].0@,
            distinct_units(units_view(added@)),
            forall|x: UnitView|
                has_unit(units_view(added@), x) <==> exists|r2: int, j2: int| r2 < r && #[trigger] link_script_at(*b, g, u@, r2, j2, x),
        decreases deps.len() - r,
    {
        let row = &deps[r].1;
        assert(g[r as int].1 == units_view(row@));
        if contains_unit(row, u) {
            let mut j: usize = 0;
            while j < row.len()
                invariant
                    j <= row@.len(),
                    r < deps@.len(),
                    g == graph_view(deps@),
                    graph_ok(*b, g),
                    u@ == deps@[i as int].0@,
                    g[r as int].1 == units_view(row@),
                    has_unit(g[r as int].1, u@),
                    distinct_units(units_view(added@)),
                    forall|x: UnitView|
                        has_unit(units_view(added@), x) <==> (exists|r2: int, j2: int|
                            r2 < r && #[trigger] link_script_at(*b, g, u@, r2, j2, x)) || (exists|j2: int|
                            j2 < j && #[trigger] link_script_at(*b, g, u@, r as int, j2, x)),
                decreases row.len() - j,
            {
                let o = &row[j];
                assert(g[r as int].1[j as int] == o@);
                assert(unit_ok(*b, g[r as int].1[j as int]));
                let ghost before = units_view(added@);
                if o.pkg != u.pkg && b.packages[o.pkg].targets[o.target].linkable() && b.packages[o.pkg].links.is_some() {
                    match dep_build_script(o, b) {
                        Some((x, _)) => {
                            if !contains_unit(&added, &x) {
                                added.push(x);
                                proof {
                                    assert(units_view(added@) =~= before.push(x@));
                                    assert forall|a: int, c: int| 0 <= a < c < units_view(added@).len() implies !same_unit(
                                        #[trigger] units_view(added@)[a],
                                        #[trigger] units_view(added@)[c],
                                    ) by {
                                        if c == before.len() {
                                            assert(units_view(added@)[a] == before[a]);
                                        } else {
                                            assert(units_view(added@)[a] == before[a]);
                                            assert(units_view(added@)[c] == before[c]);
                                        }
                                    }
                                    assert forall|y: UnitView| has_unit(units_view(added@), y) <==> (exists|r2: int, j2: int|
                                        r2 < r && #[trigger] link_script_at(*b, g, u@, r2, j2, y)) || (exists|j2: int|
                                        j2 < j + 1 && #[trigger] link_script_at(*b, g, u@, r as int, j2, y)) by {
                                        lemma_has_unit_push(before, x@, y);
                                        if same_unit(x@, y) {
                                            assert(link_script_at(*b, g, u@, r as int, j as int, y));
                                        }
                                        if link_script_at(*b, g, u@, r as int, j as int, y) {
                                            assert(same_unit(x@, y));
                                        }
                                    }
                                }
                            } else {
                                proof {
                                    assert forall|y: UnitView| has_unit(units_view(added@), y) <==> (exists|r2: int, j2: int|
                                        r2 < r && #[trigger] link_script_at(*b, g, u@, r2, j2, y)) || (exists|j2: int|
                                        j2 < j + 1 && #[trigger] link_script_at(*b, g, u@, r as int, j2, y)) by {
                                        if link_script_at(*b, g, u@, r as int, j as int, y) {
                                            let k = choose|k: int| 0 <= k < before.len() && same_unit(#[trigger] before[k], x@);
                                            assert(same_unit(before[k], y));
                                        }
                                    }
                                }
                            }
                        },
                        None => {
                            proof {
                                assert forall|y: UnitView| has_unit(units_view(added@), y) <==> (exists|r2: int, j2: int|
                                    r2 < r && #[trigger] link_script_at(*b, g, u@, r2, j2, y)) || (exists|j2: int|
                                    j2 < j + 1 && #[trigger] link_script_at(*b, g, u@, r as int, j2, y)) by {
                                    assert(!link_script_at(*b, g, u@, r as int, j as int, y));
                                }
                            }
                        },
                    }
                } else {
                    proof {
                        assert forall|y: UnitView| has_unit(units_view(added@), y) <==> (exists|r2: int, j2: int|
                            r2 < r && #[trigger] link_script_at(*b, g, u@, r2, j2, y)) || (exists|j2: int|
                            j2 < j + 1 && #[trigger] link_script_at(*b, g, u@, r as int, j2, y)) by {
                            assert(!link_script_at(*b, g, u@, r as int, j as int, y));
                        }
                    }
                }
                j = j + 1;
            }
            proof {
                assert forall|y: UnitView| has_unit(units_view(added@), y) <==> exists|r2: int, j2: int|
                    r2 < r + 1 && #[trigger] link_script_at(*b, g, u@, r2, j2, y) by {
                    if exists|r2: int, j2: int| r2 < r + 1 && #[trigger] link_script_at(*b, g, u@, r2, j2, y) {
                        let (r2, j2) = choose|r2: int, j2: int| r2 < r + 1 && #[trigger] link_script_at(*b, g, u@, r2, j2, y);
                        if r2 == r {
                            assert(j2 < j);
                        }
                    }
                }
            }
        } else {
            proof {
                assert forall|y: UnitView| has_unit(units_view(added@), y) <==> exists|r2: int, j2: int|
                    r2 < r + 1 && #[trigger] link_script_at(*b, g, u@, r2, j2, y) by {
                    if exists|r2: int, j2: int| r2 < r + 1 && #[trigger] link_script_at(*b, g, u@, r2, j2, y) {
                        let (r2, j2) = choose|r2: int, j2: int| r2 < r + 1 && #[trigger] link_script_at(*b, g, u@, r2, j2, y);
                        assert(r2 != r);
                    }
                }
            }
        }
        r = r + 1;
    }
    added
}


/// What the units a build script run must wait for are, for the `k`-th
/// entry of the graph: for a build script run, each script run it waits
/// for (see `waits_for`), once; for other units, none.
pub open spec fn added_ok(b: BuildContext, g: Seq<(UnitView, Seq<UnitView>)>, k: int, added: Seq<UnitView>) -> bool {
    if g[k].0.mode == CompileMode::RunCustomBuild {
        &&& distinct_units(added)
        &&& forall|x: UnitView| has_unit(added, x) <==> waits_for(b, g, g[k].0, x)
    } else {
        added.len() == 0
    }
}

/// Adds to each build script run of the graph the script runs it must
/// wait for (see `waits_for`), after the units it already depends on;
/// other units keep their dependencies.
pub fn connect_run_custom_build_deps(deps: &mut Vec<(Unit, Vec<Unit>)>, b: &BuildContext)
    requires
        graph_ok(*b, graph_view(old(deps)@)),
    ensures
        graph_view(final(deps)@).len() == graph_view(old(deps)@).len(),
        forall|k: int| 0 <= k < graph_view(old(deps)@).len() ==> {
            let (u, ds) = graph_view(old(deps)@)[k];
            let (u2, ds2) = #[trigger] graph_view(final(deps)@)[k];
            &&& u2 == u
            &&& ds2.take(ds.len() as int) == ds
            &&& ds2.len() >= ds.len()
            &&& added_ok(*b, graph_view(old(deps)@), k, ds2.skip(ds.len() as int))
        },
{
    let ghost g0 = graph_view(deps@);
    let n = deps.len();
    let mut news: Vec<Vec<Unit>> = Vec::new();
    let mut i: usize = 0;
    while i < n
        invariant
            i <= n,
            n == deps@.len(),
            g0 == graph_view(deps@),
            graph_ok(*b, g0),
            news@.len() == i,
            forall|k: int| 0 <= k < i ==> added_ok(*b, g0, k, #[trigger] units_view(news@[k]@)),
        decreases n - i,
    {
        assert(g0[i as int].0 == deps@[i as int].0@);
        if deps[i].0.mode == CompileMode::RunCustomBuild {
            let w = scripts_to_wait_for(deps, i, b);
            news.push(w);
        } else {
            let w: Vec<Unit> = Vec::new();
            assert(units_view(w@).len() == 0);
            news.push(w);
        }
        assert(forall|k: int| 0 <= k < i ==> news@[k] == #[trigger] news@[k]);
        i = i + 1;
    }
    let mut i: usize = 0;
    while i < n
        invariant
            i <= n,
            news@.len() == n,
            graph_view(deps@).len() == n,
            g0.len() == n,
            forall|k: int| 0 <= k < n ==> added_ok(*b, g0, k, #[trigger] units_view(news@[k]@)),
            forall|k: int|
                0 <= k < n ==> #[trigger] graph_view(deps@)[k] == if k < i {
                    (g0[k].0, g0[k].1 + units_view(news@[k]@))
                } else {
                    g0[k]
                },
        decreases n - i,
    {
        let ghost gb = graph_view(deps@);
        let ghost db = deps@;
        assert(gb[i as int] == g0[i as int]);
        let mut row = deps.remove(i);
        let ghost r0 = units_view(row.1@);
        assert(row == db[i as int]);
        assert(gb[i as int] == (row.0@, r0));
        assert(r0 == g0[i as int].1);
        let ghost row_key = row.0@;
        let extra = &news[i];
        let mut k: usize = 0;
        while k < extra.len()
            invariant
                k <= extra@.len(),
                row.0@ == row_key,
                units_view(row.1@) == r0 + units_view(extra@).take(k as int),
            decreases extra.len() - k,
        {
            let ghost before = units_view(row.1@);
            row.1.push(extra[k].duplicate());
            assert(units_view(row.1@) =~= before.push(extra@[k as int]@));
            assert(units_view(extra@).take(k + 1) =~= units_view(extra@).take(k as int).push(extra@[k as int]@));
            k = k + 1;
        }
        assert(units_view(extra@).take(extra@.len() as int) =~= units_view(extra@));
        deps.insert(i, row);
        proof {
            assert forall|k: int| 0 <= k < n implies #[trigger] graph_view(deps@)[k] == if k < i + 1 {
                (g0[k].0, g0[k].1 + units_view(news@[k]@))
            } else {
                g0[k]
            } by {
                if k < i {
                    assert(deps@[k] == db[k]);
                    assert(graph_view(deps@)[k] == gb[k]);
                } else if k > i {
                    assert(deps@[k] == db[k]);
                    assert(graph_view(deps@)[k] == gb[k]);
                } else {
                    assert(deps@[k].0@ == row_key);
                }
            }
        }
        i = i + 1;
    }
    proof {
        assert forall|k: int| 0 <= k < g0.len() implies {
            let (u, ds) = g0[k];
            let (u2, ds2) = #[trigger] graph_view(deps@)[k];
            &&& u2 == u
            &&& ds2.take(ds.len() as int) == ds
            &&& ds2.len() >= ds.len()
            &&& added_ok(*b, g0, k, ds2.skip(ds.len() as int))
        } by {
            let e = units_view(news@[k]@);
            assert((g0[k].1 + e).take(g0[k].1.len() as int) =~= g0[k].1);
            assert((g0[k].1 + e).skip(g0[k].1.len() as int) =~= e);
        }
    }
}


/// The text of a boolean.
pub open spec fn bool_text(b: bool) -> Seq<char> {
    if b {
        "1"@
    } else {
        "0"@
    }
}

/// The text of an optional number: `-` for none.
#[verifier::opaque]
pub open spec fn opt_num_text(o: Option<u32>) -> Seq<char> {
    match o {
        Some(n) => crate::text::dec(n as nat),
        None => "-"@,
    }
}

/// The text of an optional text: `-` for none, else `=` and the text.
pub open spec fn opt_text(o: Option<Seq<char>>) -> Seq<char> {
    match o {
        Some(t) => "="@ + t,
        None => "-"@,
    }
}

/// The text of a link-time-optimization setting.
pub open spec fn lto_text(l: LtoView) -> Seq<char> {
    match l {
        LtoView::Bool(b) => bool_text(b),
        LtoView::Named(n) => "="@ + n,
    }
}

/// The text of a mode.
pub open spec fn mode_text(m: CompileMode) -> Seq<char> {
    match m {
        CompileMode::Test => "test"@,
        CompileMode::Build => "build"@,
        CompileMode::Check { test } => "check"@ + bool_text(test),
        CompileMode::Bench => "bench"@,
        CompileMode::Doc { deps } => "doc"@ + bool_text(deps),
        CompileMode::Doctest => "doctest"@,
        CompileMode::Docscrape => "docscrape"@,
        CompileMode::RunCustomBuild => "run-custom-build"@,
    }
}

/// The text of a profile's name, optimization and link-time optimization.
pub open spec fn profile_text_a(p: ProfileView) -> Seq<char> {
    p.name + ";"@ + p.opt_level + ";"@ + lto_text(p.lto) + ";"@
}

/// The text of a profile's code units, debug information and switches.
pub open spec fn profile_text_b(p: ProfileView) -> Seq<char> {
    opt_num_text(p.codegen_units) + ";"@ + opt_num_text(p.debuginfo) + ";"@ + bool_text(p.debug_assertions) + bool_text(
        p.overflow_checks,
    ) + bool_text(p.rpath) + bool_text(p.incremental) + ";"@
}

/// The text of a profile's settings, separated by `;`.
pub open spec fn profile_text(p: ProfileView) -> Seq<char> {
    profile_text_a(p) + profile_text_b(p) + opt_text(p.panic)
}

/// The text a unit's build key hashes: its package and target positions,
/// its profile's settings, its kind and its mode, separated by `;`.
pub open spec fn unit_text(u: UnitView) -> Seq<char> {
    crate::text::dec(u.pkg) + ";"@ + crate::text::dec(u.target) + ";"@ + profile_text(u.profile) + ";"@ + (if u.kind
        == Kind::Host {
        "host"@
    } else {
        "target"@
    }) + ";"@ + mode_text(u.mode)
}

/// Appends the text of a boolean.
fn push_bool(v: &mut Vec<char>, b: bool)
    ensures
        final(v)@ == old(v)@ + bool_text(b),
{
    if b {
        push_str(v, "1");
    } else {
        push_str(v, "0");
    }
}

/// Appends the text of an optional number.
fn push_opt_num(v: &mut Vec<char>, o: Option<u32>)
    ensures
        final(v)@ == old(v)@ + opt_num_text(o),
{
    reveal(opt_num_text);
    match o {
        Some(n) => {
            let d = crate::text::dec_chars(n as u64);
            push_all(v, &d);
        },
        None => push_str(v, "-"),
    }
}

/// Appends the first part of a profile's text (see `profile_text_a`).
fn push_profile_a(v: &mut Vec<char>, p: &Profile)
    ensures
        final(v)@ == old(v)@ + profile_text_a(p@),
{
    push_str(v, p.name);
    push_str(v, ";");
    push_str(v, p.opt_level.as_str());
    push_str(v, ";");
    let ghost a = v@;
    match &p.lto {
        Lto::Bool(b) => push_bool(v, *b),
        Lto::Named(n) => {
            push_str(v, "=");
            push_str(v, n.as_str());
        },
    }
    assert(v@ =~= a + lto_text(p@.lto));
    push_str(v, ";");
    assert(v@ =~= old(v)@ + profile_text_a(p@));
}

/// Appends the switches of a profile (part of `profile_text_b`).
fn push_switches(v: &mut Vec<char>, p: &Profile)
    ensures
        final(v)@ == old(v)@ + bool_text(p.debug_assertions) + bool_text(p.overflow_checks) + bool_text(p.rpath)
            + bool_text(p.incremental),
{
    push_bool(v, p.debug_assertions);
    push_bool(v, p.overflow_checks);
    push_bool(v, p.rpath);
    push_bool(v, p.incremental);
    assert(v@ =~= old(v)@ + bool_text(p.debug_assertions) + bool_text(p.overflow_checks) + bool_text(p.rpath)
        + bool_text(p.incremental));
}

/// Appends the second part of a profile's text (see `profile_text_b`).
#[verifier::rlimit(60)]
fn push_profile_b(v: &mut Vec<char>, p: &Profile)
    ensures
        final(v)@ == old(v)@ + profile_text_b(p@),
{
    let ghost o = v@;
    let ghost pv = p@;
    push_opt_num(v, p.codegen_units);
    push_str(v, ";");
    let ghost o1 = v@;
    assert(o1 =~= o + opt_num_text(pv.codegen_units) + ";"@);
    push_opt_num(v, p.debuginfo);
    push_str(v, ";");
    let ghost o2 = v@;
    assert(o2 =~= o1 + opt_num_text(pv.debuginfo) + ";"@);
    push_switches(v, p);
    push_str(v, ";");
    let ghost sw = bool_text(pv.debug_assertions) + bool_text(pv.overflow_checks) + bool_text(pv.rpath) + bool_text(
        pv.incremental,
    );
    assert(v@ =~= o2 + sw + ";"@);
    assert(profile_text_b(pv) =~= opt_num_text(pv.codegen_units) + ";"@ + opt_num_text(pv.debuginfo) + ";"@ + sw + ";"@);
    assert(v@ =~= o + profile_text_b(pv));
}

/// Appends the text of a profile's settings (see `profile_text`).
fn push_profile(v: &mut Vec<char>, p: &Profile)
    ensures
        final(v)@ == old(v)@ + profile_text(p@),
{
    push_profile_a(v, p);
    push_profile_b(v, p);
    let ghost c = v@;
    match &p.panic {
        Some(t) => {
            push_str(v, "=");
            push_str(v, t.as_str());
        },
        None => push_str(v, "-"),
    }
    assert(v@ =~= c + opt_text(p@.panic));
    assert(v@ =~= old(v)@ + profile_text(p@));
}

/// Appends the text of a mode (see `mode_text`).
fn push_mode(v: &mut Vec<char>, m: CompileMode)
    ensures
        final(v)@ == old(v)@ + mode_text(m),
{
    match m {
        CompileMode::Test => push_str(v, "test"),
        CompileMode::Build => push_str(v, "build"),
        CompileMode::Check { test } => {
            push_str(v, "check");
            push_bool(v, test);
            assert(v@ =~= old(v)@ + mode_text(m));
        },
        CompileMode::Bench => push_str(v, "bench"),
        CompileMode::Doc { deps } => {
            push_str(v, "doc");
            push_bool(v, deps);
            assert(v@ =~= old(v)@ + mode_text(m));
        },
        CompileMode::Doctest => push_str(v, "doctest"),
        CompileMode::Docscrape => push_str(v, "docscrape"),
        CompileMode::RunCustomBuild => push_str(v, "run-custom-build"),
    }
}

/// The text a unit's build key hashes (see `unit_text`).
pub fn unit_text_of(u: &Unit) -> (r: String)
    ensures
        r@ == unit_text(u@),
{
    let mut v: Vec<char> = crate::text::dec_chars(u.pkg as u64);
    push_str(&mut v, ";");
    let t = crate::text::dec_chars(u.target as u64);
    push_all(&mut v, &t);
    push_str(&mut v, ";");
    push_profile(&mut v, &u.profile);
    push_str(&mut v, ";");
    let ghost k = v@;
    match u.kind {
        Kind::Host => push_str(&mut v, "host"),
        Kind::Target => push_str(&mut v, "target"),
    }
    assert(v@ =~= k + (if u.kind == Kind::Host {
        "host"@
    } else {
        "target"@
    }));
    push_str(&mut v, ";");
    push_mode(&mut v, u.mode);
    assert(v@ =~= unit_text(u@));
    string_of(&v)
}

/// The key of a unit's build: the package name, a dash, and the hash in
/// sixteen hex digits, least significant byte first.
pub fn buildkey_of(name: &str, hash: u64) -> (r: String)
    ensures
        r@ == name@ + "-"@ + hex_le(hash as nat, 8),
{
    let mut out: Vec<char> = Vec::new();
    push_str(&mut out, name);
    push_str(&mut out, "-");
    let h = to_hex(hash);
    push_all(&mut out, &h);
    string_of(&out)
}

impl Unit {
    /// The key of the unit's build: its package's name and the hash of the
    /// unit's settings (see `unit_text` and `buildkey_of`).
    pub fn buildkey(&self, b: &BuildContext) -> (r: String)
        requires
            self.pkg < b.packages@.len(),
        ensures
            r@ == b.packages@[self.pkg as int].id@.name + "-"@ + hex_le(sip_hash_of(unit_text(self@)) as nat, 8),
    {
        let text = unit_text_of(self);
        let h = sip_hash(text.as_str());
        let r = buildkey_of(b.packages[self.pkg].id.name(), h);
        assert(r@ == b.packages@[self.pkg as int].id@.name + "-"@ + hex_le(h as nat, 8));
        r
    }
}


/// Whether `a` is an older version than `b` in the order of semantic
/// versions (as `semver::Version` orders them); `false` when either has a
/// pre-release or build part that `semver` does not accept.
pub uninterp spec fn version_older(a: VersionView, b: VersionView) -> bool;

/// Compares two versions with the order of `semver::Version`, after
/// building each from its parts with `Prerelease::new` and
/// `BuildMetadata::new`; the result is named (`version_older`).
#[verifier::external_body]
fn version_lt(a: &Version, b: &Version) -> (r: bool)
    ensures
        r == version_older(a@, b@),
{
    let x = match (semver::Prerelease::new(&a.pre), semver::BuildMetadata::new(&a.build)) {
        (Ok(pre), Ok(build)) => semver::Version { major: a.major, minor: a.minor, patch: a.patch, pre, build },
        _ => return false,
    };
    let y = match (semver::Prerelease::new(&b.pre), semver::BuildMetadata::new(&b.build)) {
        (Ok(pre), Ok(build)) => semver::Version { major: b.major, minor: b.minor, patch: b.patch, pre, build },
        _ => return false,
    };
    x < y
}

/// How many of the indices below `n` satisfy `p`.
pub open spec fn count_where(n: int, p: spec_fn(int) -> bool) -> nat
    decreases n,
{
    if n <= 0 {
        0
    } else {
        count_where(n - 1, p) + if p(n - 1) {
            1nat
        } else {
            0nat
        }
    }
}

/// The crate name of a unit's target.
pub open spec fn unit_crate(b: BuildContext, u: UnitView) -> Seq<char> {
    underscored(unit_targets(b, u)[u.target as int].name)
}

/// Whether the `j`-th unit of the graph documents a crate of the same name
/// as the `i`-th.
pub open spec fn same_doc_crate(b: BuildContext, g: Seq<(UnitView, Seq<UnitView>)>, i: int, j: int) -> bool {
    g[j].0.mode is Doc && unit_crate(b, g[j].0) == unit_crate(b, g[i].0)
}

/// How many documentation units of the graph have the crate name of the
/// `i`-th unit.
pub open spec fn doc_group_size(b: BuildContext, g: Seq<(UnitView, Seq<UnitView>)>, i: int) -> nat {
    count_where(g.len() as int, doc_group_pred(b, g, i))
}

/// The documentation units with the crate name of the `i`-th unit.
pub open spec fn doc_group_pred(b: BuildContext, g: Seq<(UnitView, Seq<UnitView>)>, i: int) -> spec_fn(int) -> bool {
    |j: int| same_doc_crate(b, g, i, j)
}

/// The units the `i`-th unit competes with on version.
pub open spec fn source_doc_pred(b: BuildContext, g: Seq<(UnitView, Seq<UnitView>)>, roots: Seq<UnitView>, all_host: bool, i: int) -> spec_fn(int) -> bool {
    |j: int| same_source_doc(b, g, roots, all_host, i, j)
}

/// Whether the `i`-th unit goes because of the host/target rule: when no
/// `--target` was asked for (every requested kind is the host), a
/// documentation unit for the host whose crate name another documentation
/// unit shares, and that is not a root.
pub open spec fn removed_for_host(b: BuildContext, g: Seq<(UnitView, Seq<UnitView>)>, roots: Seq<UnitView>, all_host: bool, i: int) -> bool {
    &&& all_host
    &&& g[i].0.mode is Doc
    &&& doc_group_size(b, g, i) > 1
    &&& g[i].0.kind == Kind::Host
    &&& !has_unit(roots, g[i].0)
}

/// Whether the `j`-th unit is one the `i`-th competes with on version: a
/// documentation unit of the same crate name, left by the host/target rule,
/// of a package of the same name and source, of the same kind.
pub open spec fn same_source_doc(b: BuildContext, g: Seq<(UnitView, Seq<UnitView>)>, roots: Seq<UnitView>, all_host: bool, i: int, j: int) -> bool {
    let pi = b.packages[g[i].0.pkg as int].id@;
    let pj = b.packages[g[j].0.pkg as int].id@;
    &&& same_doc_crate(b, g, i, j)
    &&& !removed_for_host(b, g, roots, all_host, j)
    &&& pi.name == pj.name
    &&& same_source(pi.source_id, pj.source_id)
    &&& g[i].0.kind == g[j].0.kind
}

/// The newest version among the first `k` units the `i`-th competes with,
/// keeping the first of equal ones.
pub open spec fn newest_upto(b: BuildContext, g: Seq<(UnitView, Seq<UnitView>)>, roots: Seq<UnitView>, all_host: bool, i: int, k: int) -> Option<VersionView>
    decreases k,
{
    if k <= 0 {
        None
    } else {
        let prev = newest_upto(b, g, roots, all_host, i, k - 1);
        if same_source_doc(b, g, roots, all_host, i, k - 1) {
            let v = b.packages[g[k - 1].0.pkg as int].id@.version;
            match prev {
                None => Some(v),
                Some(w) => if version_older(w, v) {
                    Some(v)
                } else {
                    Some(w)
                },
            }
        } else {
            prev
        }
    }
}

/// Whether the `i`-th unit goes because of the version rule: among the
/// units it competes with (more than one), its package is older than the
/// newest; roots stay.
pub open spec fn removed_for_version(b: BuildContext, g: Seq<(UnitView, Seq<UnitView>)>, roots: Seq<UnitView>, all_host: bool, i: int) -> bool {
    &&& g[i].0.mode is Doc
    &&& !removed_for_host(b, g, roots, all_host, i)
    &&& count_where(g.len() as int, source_doc_pred(b, g, roots, all_host, i)) > 1
    &&& !has_unit(roots, g[i].0)
    &&& newest_upto(b, g, roots, all_host, i, g.len() as int) matches Some(v) && version_older(
        b.packages[g[i].0.pkg as int].id@.version,
        v,
    )
}

/// Whether the `i`-th unit is removed as a duplicate documentation unit.
pub open spec fn removed_doc(b: BuildContext, g: Seq<(UnitView, Seq<UnitView>)>, roots: Seq<UnitView>, all_host: bool, i: int) -> bool {
    removed_for_host(b, g, roots, all_host, i) || removed_for_version(b, g, roots, all_host, i)
}

/// Whether every unit of the graph, and every unit they depend on, is a
/// target of one of the build's packages.
pub open spec fn keys_ok(b: BuildContext, g: Seq<(UnitView, Seq<UnitView>)>) -> bool {
    forall|i: int| 0 <= i < g.len() ==> unit_ok(b, #[trigger] g[i].0)
}

/// The crate names of the units of the graph.
fn unit_crates(g: &Vec<(Unit, Vec<Unit>)>, b: &BuildContext) -> (r: Vec<String>)
    requires
        keys_ok(*b, graph_view(g@)),
    ensures
        r@.len() == g@.len(),
        forall|i: int| 0 <= i < g@.len() ==> (#[trigger] r@[i])@ == unit_crate(*b, graph_view(g@)[i].0),
{
    let ghost gv = graph_view(g@);
    let mut out: Vec<String> = Vec::new();
    let mut i: usize = 0;
    while i < g.len()
        invariant
            i <= g@.len(),
            gv == graph_view(g@),
            keys_ok(*b, gv),
            out@.len() == i,
            forall|k: int| 0 <= k < i ==> (#[trigger] out@[k])@ == unit_crate(*b, gv[k].0),
        decreases g.len() - i,
    {
        let u = &g[i].0;
        assert(gv[i as int].0 == u@);
        assert(unit_ok(*b, gv[i as int].0));
        let t = &b.packages[u.pkg].targets[u.target];
        assert(unit_targets(*b, u@)[u.target as int] == t@);
        out.push(t.crate_name());
        i = i + 1;
    }
    out
}


/// Whether each unit of the graph goes as a duplicate documentation unit
/// (see `removed_doc`).
fn removed_flags(g: &Vec<(Unit, Vec<Unit>)>, b: &BuildContext, roots: &Vec<Unit>, all_host: bool) -> (r: Vec<bool>)
    requires
        keys_ok(*b, graph_view(g@)),
    ensures
        r@.len() == g@.len(),
        forall|i: int| 0 <= i < g@.len() ==> #[trigger] r@[i] == removed_doc(*b, graph_view(g@), units_view(roots@), all_host, i),
{
    let ghost gv = graph_view(g@);
    let ghost rv = units_view(roots@);
    let n = g.len();
    let crates = unit_crates(g, b);
    let mut rh: Vec<bool> = Vec::new();
    let mut i: usize = 0;
    while i < n
        invariant
            i <= n,
            n == g@.len(),
            gv == graph_view(g@),
            rv == units_view(roots@),
            keys_ok(*b, gv),
            crates@.len() == n,
            forall|k: int| 0 <= k < n ==> (#[trigger] crates@[k])@ == unit_crate(*b, gv[k].0),
            rh@.len() == i,
            forall|k: int| 0 <= k < i ==> #[trigger] rh@[k] == removed_for_host(*b, gv, rv, all_host, k),
        decreases n - i,
    {
        assert(gv[i as int].0 == g@[i as int].0@);
        let mut cnt: usize = 0;
        let mut j: usize = 0;
        while j < n
            invariant
                j <= n,
                i < n,
                n == g@.len(),
                gv == graph_view(g@),
                crates@.len() == n,
                forall|k: int| 0 <= k < n ==> (#[trigger] crates@[k])@ == unit_crate(*b, gv[k].0),
                cnt <= j,
                cnt == count_where(j as int, doc_group_pred(*b, gv, i as int)),
            decreases n - j,
        {
            assert(gv[j as int].0 == g@[j as int].0@);
            if g[j].0.mode.is_doc() && crates[j].eq(&crates[i]) {
                cnt = cnt + 1;
            }
            j = j + 1;
        }
        let u = &g[i].0;
        let host = all_host && u.mode.is_doc() && cnt > 1 && u.kind == Kind::Host && !contains_unit(roots, u);
        rh.push(host);
        i = i + 1;
    }
    let mut out: Vec<bool> = Vec::new();
    let mut i: usize = 0;
    while i < n
        invariant
            i <= n,
            n == g@.len(),
            gv == graph_view(g@),
            rv == units_view(roots@),
            keys_ok(*b, gv),
            crates@.len() == n,
            forall|k: int| 0 <= k < n ==> (#[trigger] crates@[k])@ == unit_crate(*b, gv[k].0),
            rh@.len() == n,
            forall|k: int| 0 <= k < n ==> #[trigger] rh@[k] == removed_for_host(*b, gv, rv, all_host, k),
            out@.len() == i,
            forall|k: int| 0 <= k < i ==> #[trigger] out@[k] == removed_doc(*b, gv, rv, all_host, k),
        decreases n - i,
    {
        let u = &g[i].0;
        assert(gv[i as int].0 == u@);
        assert(unit_ok(*b, gv[i as int].0));
        let pi = &b.packages[u.pkg].id;
        let mut cnt: usize = 0;
        let mut newest: Option<&Version> = None;
        let mut j: usize = 0;
        while j < n
            invariant
                j <= n,
                i < n,
                n == g@.len(),
                gv == graph_view(g@),
                rv == units_view(roots@),
                keys_ok(*b, gv),
                u@ == gv[i as int].0,
                pi@ == b.packages@[u.pkg as int].id@,
                u.pkg < b.packages@.len(),
                crates@.len() == n,
                forall|k: int| 0 <= k < n ==> (#[trigger] crates@[k])@ == unit_crate(*b, gv[k].0),
                rh@.len() == n,
                forall|k: int| 0 <= k < n ==> #[trigger] rh@[k] == removed_for_host(*b, gv, rv, all_host, k),
                cnt <= j,
                cnt == count_where(j as int, source_doc_pred(*b, gv, rv, all_host, i as int)),
                match newest {
                    Some(v) => newest_upto(*b, gv, rv, all_host, i as int, j as int) == Some(v@),
                    None => newest_upto(*b, gv, rv, all_host, i as int, j as int) is None,
                },
            decreases n - j,
        {
            let w = &g[j].0;
            assert(gv[j as int].0 == w@);
            assert(unit_ok(*b, gv[j as int].0));
            let pj = &b.packages[w.pkg].id;
            if w.mode.is_doc() && crates[j].eq(&crates[i]) && !rh[j] && pi.name.eq(&pj.name) && pi.source_id.same_source(
                &pj.source_id,
            ) && u.kind == w.kind {
                cnt = cnt + 1;
                newest = match newest {
                    None => Some(&pj.version),
                    Some(v) => if version_lt(v, &pj.version) {
                        Some(&pj.version)
                    } else {
                        Some(v)
                    },
                };
            }
            j = j + 1;
        }
        let by_version = match newest {
            Some(v) => u.mode.is_doc() && !rh[i] && cnt > 1 && !contains_unit(roots, u) && version_lt(&pi.version, v),
            None => false,
        };
        out.push(rh[i] || by_version);
        i = i + 1;
    }
    out
}


/// Whether a unit is one of the removed units of the graph.
pub open spec fn unit_removed(b: BuildContext, g: Seq<(UnitView, Seq<UnitView>)>, roots: Seq<UnitView>, all_host: bool, x: UnitView) -> bool {
    exists|j: int| 0 <= j < g.len() && #[trigger] removed_doc(b, g, roots, all_host, j) && same_unit(g[j].0, x)
}

/// Keeps a dependency unless it was removed.
pub open spec fn keep_dep(b: BuildContext, g: Seq<(UnitView, Seq<UnitView>)>, roots: Seq<UnitView>, all_host: bool) -> spec_fn(UnitView) -> Option<UnitView> {
    |x: UnitView| if unit_removed(b, g, roots, all_host, x) {
        None
    } else {
        Some(x)
    }
}

/// The dependencies of the `i`-th unit that were not removed, in order.
pub open spec fn kept_deps(b: BuildContext, g: Seq<(UnitView, Seq<UnitView>)>, roots: Seq<UnitView>, all_host: bool, i: int) -> Seq<UnitView> {
    g[i].1.filter_map(keep_dep(b, g, roots, all_host))
}

/// An edge that stays: from a unit that was not removed to one that was
/// not removed and that it depends on.
pub open spec fn kept_edge(b: BuildContext, g: Seq<(UnitView, Seq<UnitView>)>, roots: Seq<UnitView>, all_host: bool, i: int, j: int) -> bool {
    &&& 0 <= i < g.len()
    &&& 0 <= j < g.len()
    &&& !removed_doc(b, g, roots, all_host, i)
    &&& !removed_doc(b, g, roots, all_host, j)
    &&& has_unit(g[i].1, g[j].0)
}

/// A path along edges that stay, from a root.
pub open spec fn root_path(b: BuildContext, g: Seq<(UnitView, Seq<UnitView>)>, roots: Seq<UnitView>, all_host: bool, p: Seq<int>) -> bool {
    &&& p.len() > 0
    &&& 0 <= p[0] < g.len()
    &&& has_unit(roots, g[p[0]].0)
    &&& forall|k: int| 0 <= k < p.len() - 1 ==> #[trigger] kept_edge(b, g, roots, all_host, p[k], p[k + 1])
}

/// Whether the `j`-th unit can still be reached from a root.
pub open spec fn still_reached(b: BuildContext, g: Seq<(UnitView, Seq<UnitView>)>, roots: Seq<UnitView>, all_host: bool, j: int) -> bool {
    exists|p: Seq<int>| #[trigger] root_path(b, g, roots, all_host, p) && p.last() == j
}

/// The entry of the `i`-th unit after the duplicates are removed: none for
/// a removed unit or one no longer reached from a root; otherwise the unit
/// with the dependencies that were not removed.
pub open spec fn pruned_entry(b: BuildContext, g: Seq<(UnitView, Seq<UnitView>)>, roots: Seq<UnitView>, all_host: bool) -> spec_fn(int) -> Option<(UnitView, Seq<UnitView>)> {
    |i: int| if !removed_doc(b, g, roots, all_host, i) && still_reached(b, g, roots, all_host, i) {
        Some((g[i].0, kept_deps(b, g, roots, all_host, i)))
    } else {
        None
    }
}

/// The graph after duplicate documentation units are removed: the
/// entries that stay (see `pruned_entry`), in order.
pub open spec fn pruned_graph(b: BuildContext, g: Seq<(UnitView, Seq<UnitView>)>, roots: Seq<UnitView>, all_host: bool) -> Seq<(UnitView, Seq<UnitView>)> {
    Seq::new(g.len(), |i: int| i).filter_map(pruned_entry(b, g, roots, all_host))
}

/// Whether no two units of the graph are the same.
pub open spec fn distinct_keys(g: Seq<(UnitView, Seq<UnitView>)>) -> bool {
    forall|i: int, j: int| 0 <= i < g.len() && 0 <= j < g.len() && i != j ==> !same_unit(#[trigger] g[i].0, #[trigger] g[j].0)
}

/// Whether every unit depended on, and every root, is a unit of the graph.
pub open spec fn closed_graph(g: Seq<(UnitView, Seq<UnitView>)>, roots: Seq<UnitView>) -> bool {
    &&& forall|i: int, k: int| 0 <= i < g.len() && 0 <= k < g[i].1.len() ==> exists|j: int| 0 <= j < g.len() && same_unit(g[j].0, #[trigger] g[i].1[k])
    &&& forall|r: int| 0 <= r < roots.len() ==> exists|j: int| 0 <= j < g.len() && same_unit(g[j].0, #[trigger] roots[r])
}

/// The position of the unit among the units of the graph.
fn key_position(g: &Vec<(Unit, Vec<Unit>)>, x: &Unit) -> (r: usize)
    requires
        exists|j: int| 0 <= j < g@.len() && same_unit(graph_view(g@)[j].0, x@),
    ensures
        r < g@.len(),
        same_unit(graph_view(g@)[r as int].0, x@),
{
    let ghost gv = graph_view(g@);
    let mut i: usize = 0;
    while i < g.len()
        invariant
            i <= g@.len(),
            gv == graph_view(g@),
            exists|j: int| 0 <= j < g@.len() && same_unit(gv[j].0, x@),
            forall|k: int| 0 <= k < i ==> !same_unit(#[trigger] gv[k].0, x@),
        decreases g.len() - i,
    {
        assert(gv[i as int].0 == g@[i as int].0@);
        if g[i].0.same(x) {
            return i;
        }
        i = i + 1;
    }
    proof {
        let j = choose|j: int| 0 <= j < g@.len() && same_unit(gv[j].0, x@);
        assert(!same_unit(gv[j].0, x@));
    }
    0
}

/// Whether the unit is one of the removed ones (see `unit_removed`).
fn is_removed_unit(g: &Vec<(Unit, Vec<Unit>)>, b: &BuildContext, roots: &Vec<Unit>, all_host: bool, removed: &Vec<bool>, x: &Unit) -> (r: bool)
    requires
        removed@.len() == g@.len(),
        forall|j: int| 0 <= j < g@.len() ==> #[trigger] removed@[j] == removed_doc(*b, graph_view(g@), units_view(roots@), all_host, j),
    ensures
        r == unit_removed(*b, graph_view(g@), units_view(roots@), all_host, x@),
{
    let ghost gv = graph_view(g@);
    let ghost rv = units_view(roots@);
    let mut i: usize = 0;
    while i < g.len()
        invariant
            i <= g@.len(),
            gv == graph_view(g@),
            rv == units_view(roots@),
            removed@.len() == g@.len(),
            forall|j: int| 0 <= j < g@.len() ==> #[trigger] removed@[j] == removed_doc(*b, gv, rv, all_host, j),
            forall|k: int| 0 <= k < i ==> !(#[trigger] removed_doc(*b, gv, rv, all_host, k) && same_unit(gv[k].0, x@)),
        decreases g.len() - i,
    {
        assert(gv[i as int].0 == g@[i as int].0@);
        if removed[i] && g[i].0.same(x) {
            assert(removed_doc(*b, gv, rv, all_host, i as int));
            return true;
        }
        i = i + 1;
    }
    false
}

/// The number of `true` entries among the first `n`.
pub open spec fn count_true(v: Seq<bool>, n: int) -> nat
    decreases n,
{
    if n <= 0 {
        0
    } else {
        count_true(v, n - 1) + if v[n - 1] {
            1nat
        } else {
            0nat
        }
    }
}

/// Setting a `false` entry adds one, and there are at most `n`.
proof fn lemma_count_true(v: Seq<bool>, n: int, j: int)
    requires
        0 <= j < v.len(),
        n <= v.len(),
        !v[j],
    ensures
        count_true(v, n) <= if n < 0 {
            0
        } else {
            n
        },
        count_true(v.update(j, true), n) == count_true(v, n) + if j < n {
            1int
        } else {
            0int
        },
    decreases n,
{
    if n > 0 {
        lemma_count_true(v, n - 1, j);
    }
}

/// At most `n` entries among the first `n` are `true`.
proof fn lemma_count_true_bound(v: Seq<bool>, n: int)
    requires
        n <= v.len(),
    ensures
        count_true(v, n) <= if n < 0 {
            0
        } else {
            n
        },
    decreases n,
{
    if n > 0 {
        lemma_count_true_bound(v, n - 1);
    }
}


/// The last unit of a path from a root is visited when every root's unit
/// is and visiting follows every edge that stays.
proof fn lemma_path_visited(
    b: BuildContext,
    g: Seq<(UnitView, Seq<UnitView>)>,
    roots: Seq<UnitView>,
    all_host: bool,
    visited: Seq<bool>,
    p: Seq<int>,
)
    requires
        visited.len() == g.len(),
        root_path(b, g, roots, all_host, p),
        forall|j: int| 0 <= j < g.len() && has_unit(roots, #[trigger] g[j].0) ==> visited[j],
        forall|i: int, t: int| #[trigger] kept_edge(b, g, roots, all_host, i, t) && visited[i] ==> visited[t],
    ensures
        visited[p.last()],
    decreases p.len(),
{
    if p.len() > 1 {
        let q = p.drop_last();
        assert forall|k: int| 0 <= k < q.len() - 1 implies #[trigger] kept_edge(b, g, roots, all_host, q[k], q[k + 1]) by {
            assert(kept_edge(b, g, roots, all_host, p[k], p[k + 1]));
        }
        lemma_path_visited(b, g, roots, all_host, visited, q);
        let k = p.len() - 2;
        assert(kept_edge(b, g, roots, all_host, p[k], p[k + 1]));
        assert(q.last() == p[k]);
    }
}

/// Which units of the graph are still reached from a root along edges
/// that stay (see `still_reached`), given which are removed.
#[verifier::rlimit(50)]
fn reached_units(g: &Vec<(Unit, Vec<Unit>)>, b: &BuildContext, roots: &Vec<Unit>, all_host: bool, removed: &Vec<bool>) -> (r: Vec<bool>)
    requires
        keys_ok(*b, graph_view(g@)),
        distinct_keys(graph_view(g@)),
        closed_graph(graph_view(g@), units_view(roots@)),
        removed@.len() == g@.len(),
        forall|j: int| 0 <= j < g@.len() ==> #[trigger] removed@[j] == removed_doc(*b, graph_view(g@), units_view(roots@), all_host, j),
    ensures
        r@.len() == g@.len(),
        forall|j: int| 0 <= j < g@.len() ==> #[trigger] r@[j] == still_reached(*b, graph_view(g@), units_view(roots@), all_host, j),
{
    let ghost gv = graph_view(g@);
    let ghost rv = units_view(roots@);
    let ghost rem = |j: int| removed_doc(*b, gv, rv, all_host, j);
    let n = g.len();
    let mut visited: Vec<bool> = Vec::new();
    let mut i: usize = 0;
    while i < n
        invariant
            i <= n,
            visited@.len() == i,
            forall|k: int| 0 <= k < i ==> !(#[trigger] visited@[k]),
        decreases n - i,
    {
        visited.push(false);
        i = i + 1;
    }
    let mut stack: Vec<usize> = Vec::new();
    let mut r: usize = 0;
    while r < roots.len()
        invariant
            r <= roots@.len(),
            n == g@.len(),
            gv == graph_view(g@),
            rv == units_view(roots@),
            distinct_keys(gv),
            closed_graph(gv, rv),
            visited@.len() == n,
            forall|k: int| 0 <= k < stack@.len() ==> (#[trigger] stack@[k]) < n && visited@[stack@[k] as int],
            forall|a: int, c: int| 0 <= a < c < stack@.len() ==> #[trigger] stack@[a] != #[trigger] stack@[c],
            forall|j: int| 0 <= j < n && #[trigger] visited@[j] ==> !removed_doc(*b, gv, rv, all_host, j) && still_reached(
                *b,
                gv,
                rv,
                all_host,
                j,
            ),
            forall|j: int| 0 <= j < n && #[trigger] visited@[j] ==> stack@.contains(j as usize),
            forall|q: int, j: int| 0 <= q < r && 0 <= j < n && same_unit(#[trigger] gv[j].0, #[trigger] rv[q]) ==> visited@[j],
        decreases roots.len() - r,
    {
        assert(rv[r as int] == roots@[r as int]@);
        let j = key_position(g, &roots[r]);
        proof {
            assert(has_unit(rv, gv[j as int].0)) by {
                assert(same_unit(rv[r as int], gv[j as int].0));
            }
        }
        if !visited[j] {
            let ghost vb = visited@;
            let ghost sb = stack@;
            visited.set(j, true);
            stack.push(j);
            proof {
                let p = seq![j as int];
                assert(root_path(*b, gv, rv, all_host, p));
                assert(still_reached(*b, gv, rv, all_host, j as int));
                assert forall|jj: int| 0 <= jj < n && #[trigger] visited@[jj] implies stack@.contains(jj as usize) by {
                    if jj != j {
                        assert(vb[jj]);
                        let k = choose|k: int| 0 <= k < sb.len() && sb[k] == jj as usize;
                        assert(stack@[k] == jj as usize);
                    } else {
                        assert(stack@[sb.len() as int] == j);
                    }
                }
                assert forall|a: int, c: int| 0 <= a < c < stack@.len() implies #[trigger] stack@[a] != #[trigger] stack@[c] by {
                    if c == sb.len() {
                        assert(vb[sb[a] as int]);
                    }
                }
            }
        }
        proof {
            assert forall|q: int, jj: int| 0 <= q < r + 1 && 0 <= jj < n && same_unit(#[trigger] gv[jj].0, #[trigger] rv[q]) implies visited@[jj] by {
                if q == r {
                    if jj != j {
                        assert(same_unit(gv[jj].0, gv[j as int].0));
                    }
                }
            }
        }
        r = r + 1;
    }
    proof {
        assert forall|j: int| 0 <= j < n && has_unit(rv, #[trigger] gv[j].0) implies visited@[j] by {
            let q = choose|q: int| 0 <= q < rv.len() && same_unit(#[trigger] rv[q], gv[j].0);
            assert(same_unit(gv[j].0, rv[q]));
        }
    }
    while stack.len() > 0
        invariant
            n == g@.len(),
            gv == graph_view(g@),
            rv == units_view(roots@),
            keys_ok(*b, gv),
            distinct_keys(gv),
            closed_graph(gv, rv),
            removed@.len() == n,
            forall|jj: int| 0 <= jj < n ==> #[trigger] removed@[jj] == removed_doc(*b, gv, rv, all_host, jj),
            visited@.len() == n,
            forall|k: int| 0 <= k < stack@.len() ==> (#[trigger] stack@[k]) < n && visited@[stack@[k] as int],
            forall|a: int, c: int| 0 <= a < c < stack@.len() ==> #[trigger] stack@[a] != #[trigger] stack@[c],
            forall|j: int| 0 <= j < n && #[trigger] visited@[j] ==> !removed_doc(*b, gv, rv, all_host, j) && still_reached(
                *b,
                gv,
                rv,
                all_host,
                j,
            ),
            forall|j: int| 0 <= j < n && has_unit(rv, #[trigger] gv[j].0) ==> visited@[j],
            forall|i2: int, t: int|
                #[trigger] kept_edge(*b, gv, rv, all_host, i2, t) && visited@[i2] && !stack@.contains(i2 as usize) ==> visited@[t],
        decreases n - count_true(visited@, n as int), stack.len(),
    {
        let ghost s0 = stack@;
        let i = stack.pop().unwrap();
        assert(s0.last() == i);
        assert(stack@ =~= s0.drop_last());
        assert(!stack@.contains(i)) by {
            if stack@.contains(i) {
                let k = choose|k: int| 0 <= k < stack@.len() && stack@[k] == i;
                assert(s0[k] == s0[s0.len() - 1]);
            }
        }
        assert forall|x: usize| x != i implies #[trigger] stack@.contains(x) == s0.contains(x) by {
            if s0.contains(x) {
                let k = choose|k: int| 0 <= k < s0.len() && s0[k] == x;
                assert(k != s0.len() - 1);
                assert(stack@[k] == x);
            }
            if stack@.contains(x) {
                let k = choose|k: int| 0 <= k < stack@.len() && stack@[k] == x;
                assert(s0[k] == x);
            }
        }
        let ghost count0 = count_true(visited@, n as int);
        let deps = &g[i].1;
        assert(gv[i as int].1 == units_view(deps@));
        let mut k: usize = 0;
        while k < deps.len()
            invariant
                k <= deps@.len(),
                i < n,
                n == g@.len(),
                gv == graph_view(g@),
                rv == units_view(roots@),
                keys_ok(*b, gv),
                distinct_keys(gv),
                closed_graph(gv, rv),
                gv[i as int].1 == units_view(deps@),
                removed@.len() == n,
                forall|jj: int| 0 <= jj < n ==> #[trigger] removed@[jj] == removed_doc(*b, gv, rv, all_host, jj),
                visited@.len() == n,
                visited@[i as int],
                !stack@.contains(i),
                count_true(visited@, n as int) + s0.len() == count0 + stack@.len() + 1,
                count_true(visited@, n as int) >= count0,
                forall|q: int| 0 <= q < stack@.len() ==> (#[trigger] stack@[q]) < n && visited@[stack@[q] as int],
                forall|a: int, c: int| 0 <= a < c < stack@.len() ==> #[trigger] stack@[a] != #[trigger] stack@[c],
                forall|j: int| 0 <= j < n && #[trigger] visited@[j] ==> !removed_doc(*b, gv, rv, all_host, j) && still_reached(
                    *b,
                    gv,
                    rv,
                    all_host,
                    j,
                ),
                forall|j: int| 0 <= j < n && has_unit(rv, #[trigger] gv[j].0) ==> visited@[j],
                forall|i2: int, t: int|
                    #[trigger] kept_edge(*b, gv, rv, all_host, i2, t) && visited@[i2] && !stack@.contains(i2 as usize) && i2
                        != i ==> visited@[t],
                forall|q: int, t: int|
                    0 <= q < k && 0 <= t < n && same_unit(#[trigger] gv[t].0, #[trigger] gv[i as int].1[q])
                        && !removed_doc(*b, gv, rv, all_host, t) ==> visited@[t],
            decreases deps.len() - k,
        {
            let d = &deps[k];
            assert(gv[i as int].1[k as int] == d@);
            let gone = is_removed_unit(g, b, roots, all_host, removed, d);
            if !gone {
                assert(exists|jj: int| 0 <= jj < n && same_unit(gv[jj].0, gv[i as int].1[k as int]));
                let j = key_position(g, d);
                assert(!removed_doc(*b, gv, rv, all_host, j as int)) by {
                    if removed_doc(*b, gv, rv, all_host, j as int) {
                        assert(unit_removed(*b, gv, rv, all_host, d@));
                    }
                }
                if !visited[j] {
                    let ghost vb = visited@;
                    let ghost sb = stack@;
                    proof {
                        lemma_count_true(vb, n as int, j as int);
                        let p = choose|p: Seq<int>| #[trigger] root_path(*b, gv, rv, all_host, p) && p.last() == i as int;
                        let p2 = p.push(j as int);
                        assert(has_unit(gv[i as int].1, gv[j as int].0)) by {
                            assert(same_unit(gv[i as int].1[k as int], gv[j as int].0));
                        }
                        assert(kept_edge(*b, gv, rv, all_host, i as int, j as int));
                        assert forall|q: int| 0 <= q < p2.len() - 1 implies #[trigger] kept_edge(*b, gv, rv, all_host, p2[q], p2[q + 1]) by {
                            if q < p.len() - 1 {
                                assert(kept_edge(*b, gv, rv, all_host, p[q], p[q + 1]));
                            }
                        }
                        assert(root_path(*b, gv, rv, all_host, p2));
                    }
                    visited.set(j, true);
                    stack.push(j);
                    proof {
                        assert forall|a: int, c: int| 0 <= a < c < stack@.len() implies #[trigger] stack@[a] != #[trigger] stack@[c] by {
                            if c == sb.len() {
                                assert(vb[sb[a] as int]);
                            }
                        }
                        assert forall|i2: int, t: int|
                            #[trigger] kept_edge(*b, gv, rv, all_host, i2, t) && visited@[i2] && !stack@.contains(i2 as usize) && i2
                                != i implies visited@[t] by {
                            if i2 != j as int {
                                assert(vb[i2]);
                                if sb.contains(i2 as usize) {
                                    let q = choose|q: int| 0 <= q < sb.len() && sb[q] == i2 as usize;
                                    assert(stack@[q] == i2 as usize);
                                }
                            } else {
                                assert(stack@[sb.len() as int] == j);
                            }
                        }
                        assert(!stack@.contains(i)) by {
                            if stack@.contains(i) {
                                let q = choose|q: int| 0 <= q < stack@.len() && stack@[q] == i;
                                if q < sb.len() {
                                    assert(sb[q] == i);
                                }
                            }
                        }
                    }
                }
            }
            proof {
                assert forall|q: int, t: int|
                    0 <= q < k + 1 && 0 <= t < n && same_unit(#[trigger] gv[t].0, #[trigger] gv[i as int].1[q])
                        && !removed_doc(*b, gv, rv, all_host, t) implies visited@[t] by {
                    if q == k {
                        if gone {
                            assert(removed_doc(*b, gv, rv, all_host, t)) by {
                                let jj = choose|jj: int| 0 <= jj < n && #[trigger] removed_doc(*b, gv, rv, all_host, jj) && same_unit(gv[jj].0, d@);
                                assert(same_unit(gv[jj].0, gv[t].0));
                            }
                        }
                    }
                }
            }
            k = k + 1;
        }
        proof {
            assert forall|i2: int, t: int|
                #[trigger] kept_edge(*b, gv, rv, all_host, i2, t) && visited@[i2] && !stack@.contains(i2 as usize) implies visited@[t] by {
                if i2 == i {
                    let q = choose|q: int| 0 <= q < gv[i as int].1.len() && same_unit(#[trigger] gv[i as int].1[q], gv[t].0);
                    assert(same_unit(gv[t].0, gv[i as int].1[q]));
                }
            }
            lemma_count_true_bound(visited@, n as int);
            assert((count_true(visited@, n as int) == count0 && stack@.len() < s0.len()) || count_true(visited@, n as int) > count0);
            assert(n - count_true(visited@, n as int) >= 0);
        }
    }
    proof {
        assert forall|j: int| 0 <= j < n implies #[trigger] visited@[j] == still_reached(*b, gv, rv, all_host, j) by {
            if still_reached(*b, gv, rv, all_host, j) {
                let p = choose|p: Seq<int>| #[trigger] root_path(*b, gv, rv, all_host, p) && p.last() == j;
                lemma_path_visited(*b, gv, rv, all_host, visited@, p);
            }
        }
    }
    visited
}


/// The dependencies of a unit that were not removed (see `kept_deps`).
fn kept_dependencies(g: &Vec<(Unit, Vec<Unit>)>, b: &BuildContext, roots: &Vec<Unit>, all_host: bool, removed: &Vec<bool>, i: usize) -> (r: Vec<Unit>)
    requires
        i < g@.len(),
        removed@.len() == g@.len(),
        forall|j: int| 0 <= j < g@.len() ==> #[trigger] removed@[j] == removed_doc(*b, graph_view(g@), units_view(roots@), all_host, j),
    ensures
        units_view(r@) == kept_deps(*b, graph_view(g@), units_view(roots@), all_host, i as int),
{
    let ghost gv = graph_view(g@);
    let ghost rv = units_view(roots@);
    let ghost f = keep_dep(*b, gv, rv, all_host);
    let deps = &g[i].1;
    let ghost dv = units_view(deps@);
    assert(gv[i as int].1 == dv);
    let mut out: Vec<Unit> = Vec::new();
    let mut k: usize = 0;
    while k < deps.len()
        invariant
            k <= deps@.len(),
            gv == graph_view(g@),
            rv == units_view(roots@),
            f == keep_dep(*b, gv, rv, all_host),
            dv == units_view(deps@),
            removed@.len() == g@.len(),
            forall|j: int| 0 <= j < g@.len() ==> #[trigger] removed@[j] == removed_doc(*b, gv, rv, all_host, j),
            units_view(out@) == dv.take(k as int).filter_map(f),
        decreases deps.len() - k,
    {
        proof {
            dv.lemma_filter_map_take_succ(f, k as int);
        }
        assert(dv[k as int] == deps@[k as int]@);
        if !is_removed_unit(g, b, roots, all_host, removed, &deps[k]) {
            let ghost before = units_view(out@);
            out.push(deps[k].duplicate());
            assert(units_view(out@) =~= before.push(dv[k as int]));
        }
        k = k + 1;
    }
    assert(dv.take(deps@.len() as int) =~= dv);
    out
}

/// Removes duplicate documentation units, which would write over each
/// other's files (see `pruned_graph`): when no `--target` was asked for
/// (`all_host`), a documentation unit for the host whose crate name
/// another shares; then, among those left of one crate name, package name,
/// source and kind, the ones of older versions than the newest. Roots
/// stay. Dependencies on removed units go, and so do the units no longer
/// reached from a root.
pub fn remove_duplicate_doc(b: &BuildContext, all_host: bool, root_units: &Vec<Unit>, unit_graph: &mut Vec<(Unit, Vec<Unit>)>)
    requires
        keys_ok(*b, graph_view(old(unit_graph)@)),
        distinct_keys(graph_view(old(unit_graph)@)),
        closed_graph(graph_view(old(unit_graph)@), units_view(root_units@)),
    ensures
        graph_view(final(unit_graph)@) == pruned_graph(*b, graph_view(old(unit_graph)@), units_view(root_units@), all_host),
{
    let ghost gv = graph_view(unit_graph@);
    let ghost rv = units_view(root_units@);
    let ghost pe = pruned_entry(*b, gv, rv, all_host);
    let ghost idx = Seq::new(gv.len(), |i: int| i);
    let removed = removed_flags(unit_graph, b, root_units, all_host);
    let reached = reached_units(unit_graph, b, root_units, all_host, &removed);
    let n = unit_graph.len();
    let mut out: Vec<(Unit, Vec<Unit>)> = Vec::new();
    let mut i: usize = 0;
    while i < n
        invariant
            i <= n,
            n == unit_graph@.len(),
            gv == graph_view(unit_graph@),
            rv == units_view(root_units@),
            pe == pruned_entry(*b, gv, rv, all_host),
            idx == Seq::new(gv.len(), |i: int| i),
            removed@.len() == n,
            forall|j: int| 0 <= j < n ==> #[trigger] removed@[j] == removed_doc(*b, gv, rv, all_host, j),
            reached@.len() == n,
            forall|j: int| 0 <= j < n ==> #[trigger] reached@[j] == still_reached(*b, gv, rv, all_host, j),
            graph_view(out@) == idx.take(i as int).filter_map(pe),
        decreases n - i,
    {
        proof {
            idx.lemma_filter_map_take_succ(pe, i as int);
        }
        assert(idx[i as int] == i);
        if !removed[i] && reached[i] {
            let deps = kept_dependencies(unit_graph, b, root_units, all_host, &removed, i);
            let ghost before = graph_view(out@);
            let key = unit_graph[i].0.duplicate();
            assert(gv[i as int].0 == key@);
            out.push((key, deps));
            assert(graph_view(out@) =~= before.push((gv[i as int].0, kept_deps(*b, gv, rv, all_host, i as int))));
        }
        i = i + 1;
    }
    assert(idx.take(n as int) =~= idx);
    *unit_graph = out;
}


/// Roots stay: a unit of the graph that is a root keeps its entry, with
/// the dependencies that were not removed.
pub proof fn lemma_roots_stay(b: BuildContext, g: Seq<(UnitView, Seq<UnitView>)>, roots: Seq<UnitView>, all_host: bool, i: int)
    requires
        0 <= i < g.len(),
        has_unit(roots, g[i].0),
    ensures
        pruned_entry(b, g, roots, all_host)(i) == Some((g[i].0, kept_deps(b, g, roots, all_host, i))),
{
    let p = seq![i];
    assert(root_path(b, g, roots, all_host, p));
    assert(still_reached(b, g, roots, all_host, i));
}

/// Units that do not produce documentation are never removed as
/// duplicates (they go only when no longer reached from a root).
pub proof fn lemma_only_docs_removed(b: BuildContext, g: Seq<(UnitView, Seq<UnitView>)>, roots: Seq<UnitView>, all_host: bool, i: int)
    requires
        0 <= i < g.len(),
        !(g[i].0.mode is Doc),
    ensures
        !removed_doc(b, g, roots, all_host, i),
{
}

/// What a dependency declaration is for: building, only tests, examples
/// and benchmarks (a development dependency), or the build script.
#[derive(Clone, Copy, Debug, PartialEq, Eq, Structural)]
pub enum DepKind {
    Normal,
    Development,
    Build,
}

/// A dependency declaration as the unit graph reads it: the name the
/// manifest gives it, its kind, whether it is optional, and whether the
/// platform it is restricted to (if any) is the host's and the target's.
#[derive(Debug)]
pub struct DepEdge {
    pub name_in_toml: String,
    pub kind: DepKind,
    pub optional: bool,
    pub on_host: bool,
    pub on_target: bool,
}

/// The mathematical value of a `DepEdge`.
pub struct DepEdgeView {
    pub name: Seq<char>,
    pub kind: DepKind,
    pub optional: bool,
    pub on_host: bool,
    pub on_target: bool,
}

impl View for DepEdge {
    type V = DepEdgeView;

    open spec fn view(&self) -> DepEdgeView {
        DepEdgeView {
            name: self.name_in_toml@,
            kind: self.kind,
            optional: self.optional,
            on_host: self.on_host,
            on_target: self.on_target,
        }
    }
}

/// What the resolution says of a package: the packages it depends on (by
/// position among the build's packages, each with the declarations that
/// name it), the features activated for it, and the features that each of
/// its targets requires (by target position; a missing entry requires
/// none).
#[derive(Debug)]
pub struct ResolvedPackage {
    pub deps: Vec<(usize, Vec<DepEdge>)>,
    pub features: Vec<String>,
    pub required_features: Vec<Option<Vec<String>>>,
}

/// The mathematical value of a `ResolvedPackage`.
pub struct ResolvedView {
    pub deps: Seq<(nat, Seq<DepEdgeView>)>,
    pub features: Seq<Seq<char>>,
    pub required_features: Seq<Option<Seq<Seq<char>>>>,
}

/// The views of dependency declarations.
pub open spec fn edges_view(v: Seq<DepEdge>) -> Seq<DepEdgeView> {
    v.map_values(|e: DepEdge| e@)
}

/// The views of the packages a package depends on.
pub open spec fn rdeps_view(v: Seq<(usize, Vec<DepEdge>)>) -> Seq<(nat, Seq<DepEdgeView>)> {
    v.map_values(|d: (usize, Vec<DepEdge>)| (d.0 as nat, edges_view(d.1@)))
}

/// The view of the features a target requires.
pub open spec fn req_view(o: Option<Vec<String>>) -> Option<Seq<Seq<char>>> {
    match o {
        Some(v) => Some(strs(v@)),
        None => None,
    }
}

impl View for ResolvedPackage {
    type V = ResolvedView;

    open spec fn view(&self) -> ResolvedView {
        ResolvedView {
            deps: rdeps_view(self.deps@),
            features: strs(self.features@),
            required_features: self.required_features@.map_values(|o: Option<Vec<String>>| req_view(o)),
        }
    }
}

/// The views of the resolved packages.
pub open spec fn resolve_view(v: Seq<ResolvedPackage>) -> Seq<ResolvedView> {
    v.map_values(|r: ResolvedPackage| r@)
}

/// Whether the resolution speaks of the build's packages: one entry for
/// each, naming only packages of the build.
pub open spec fn resolve_ok(b: BuildContext, r: Seq<ResolvedView>) -> bool {
    &&& r.len() == b.packages.len()
    &&& forall|p: int, k: int|
        0 <= p < r.len() && 0 <= k < r[p].deps.len() ==> #[trigger] r[p].deps[k].0 < b.packages.len()
}

/// The kind a unit of `kind` gives a dependency on target `t` (see
/// `Kind::for_target`).
pub open spec fn kind_for(kind: Kind, t: TargetView) -> Kind {
    if kind == Kind::Target && !t.for_host {
        Kind::Target
    } else {
        Kind::Host
    }
}

/// Whether the declaration's platform is the one a unit of `kind` is
/// built for.
pub open spec fn platform_ok(e: DepEdgeView, kind: Kind) -> bool {
    if kind == Kind::Host {
        e.on_host
    } else {
        e.on_target
    }
}

/// Whether a declaration makes a unit (of target `t`, mode and kind,
/// whose package has features `feats`) depend on the package it names: a
/// build script takes only build dependencies and everything else all
/// others; a development dependency serves only tests, examples and test
/// modes; the platform must match; an optional dependency needs its
/// feature.
pub open spec fn edge_used(t: TargetView, mode: CompileMode, kind: Kind, feats: Seq<Seq<char>>, e: DepEdgeView) -> bool {
    &&& (t.kind is CustomBuild) == (e.kind == DepKind::Build)
    &&& (e.kind == DepKind::Development ==> t.kind is Test || t.kind is Example || any_test(mode))
    &&& platform_ok(e, kind)
    &&& (e.optional ==> feats.contains(e.name))
}

/// Whether some declaration is used (see `edge_used`).
pub open spec fn any_edge_used(t: TargetView, mode: CompileMode, kind: Kind, feats: Seq<Seq<char>>, es: Seq<DepEdgeView>) -> bool {
    exists|k: int| 0 <= k < es.len() && #[trigger] edge_used(t, mode, kind, feats, es[k])
}

/// The position of the first target that is a library, if any.
pub open spec fn first_lib(ts: Seq<TargetView>) -> Option<int>
    decreases ts.len(),
{
    if ts.len() == 0 {
        None
    } else {
        match first_lib(ts.drop_last()) {
            Some(i) => Some(i),
            None => if ts.last().kind is Lib {
                Some(ts.len() - 1)
            } else {
                None
            },
        }
    }
}

/// The views of units with the purpose their dependencies are built for.
pub open spec fn pairs_view(v: Seq<(Unit, ProfileFor)>) -> Seq<(UnitView, ProfileFor)> {
    v.map_values(|x: (Unit, ProfileFor)| (x.0@, x.1))
}

/// No unit, or the one unit.
pub open spec fn opt_seq(o: Option<(UnitView, ProfileFor)>) -> Seq<(UnitView, ProfileFor)> {
    match o {
        Some(x) => seq![x],
        None => Seq::empty(),
    }
}

/// For each package (of the first of `deps`) that one of its declarations
/// makes the unit depend on, and that has a library: the unit of that
/// library, in the mode the unit's dependencies take, for `profile_for`.
pub open spec fn dep_lib_units(
    b: BuildContext,
    u: UnitView,
    feats: Seq<Seq<char>>,
    deps: Seq<(nat, Seq<DepEdgeView>)>,
    profile_for: ProfileFor,
) -> Seq<(UnitView, ProfileFor)>
    decreases deps.len(),
{
    if deps.len() == 0 {
        Seq::empty()
    } else {
        let prev = dep_lib_units(b, u, feats, deps.drop_last(), profile_for);
        let d = deps.last();
        let ts = targets_view(b.packages[d.0 as int].targets@);
        if any_edge_used(unit_targets(b, u)[u.target as int], u.mode, u.kind, feats, d.1) {
            match first_lib(ts) {
                Some(l) => prev.push(
                    (
                        new_unit_spec(b, d.0, l as nat, profile_for, kind_for(u.kind, ts[l]), dep_mode(u.mode, ts[l])),
                        profile_for,
                    ),
                ),
                None => prev,
            }
        } else {
            prev
        }
    }
}

/// The features a target requires, by position.
pub open spec fn required_at(rp: ResolvedView, t: int) -> Option<Seq<Seq<char>>> {
    if 0 <= t < rp.required_features.len() {
        rp.required_features[t]
    } else {
        None
    }
}

/// Whether the feature is among the activated ones.
pub open spec fn activated(feats: Seq<Seq<char>>, f: Seq<char>) -> bool {
    feats.contains(f)
}

/// Whether every required feature is activated.
pub open spec fn reqs_met(req: Option<Seq<Seq<char>>>, feats: Seq<Seq<char>>) -> bool {
    match req {
        Some(fs) => forall|k: int| 0 <= k < fs.len() ==> #[trigger] activated(feats, fs[k]),
        None => true,
    }
}

/// The builds of the binaries (of the first `n` targets of the unit's
/// package) whose required features are all activated.
pub open spec fn test_bin_units(b: BuildContext, u: UnitView, rp: ResolvedView, n: nat) -> Seq<(UnitView, ProfileFor)>
    decreases n,
{
    if n == 0 {
        Seq::empty()
    } else {
        let prev = test_bin_units(b, u, rp, (n - 1) as nat);
        let t = unit_targets(b, u)[n - 1];
        if t.kind is Bin && reqs_met(required_at(rp, n - 1), rp.features) {
            prev.push(
                (new_unit_spec(b, u.pkg, (n - 1) as nat, ProfileFor::Any, kind_for(u.kind, t), CompileMode::Build), ProfileFor::Any),
            )
        } else {
            prev
        }
    }
}

/// To run a build script, its compilation: for the host, in build mode,
/// with the profile of build scripts.
pub open spec fn custom_build_deps_spec(b: BuildContext, u: UnitView) -> Seq<(UnitView, ProfileFor)> {
    seq![(new_unit_spec(b, u.pkg, u.target, ProfileFor::CustomBuild, Kind::Host, CompileMode::Build), ProfileFor::CustomBuild)]
}

/// Whether the declaration is a normal one for the platform a unit of
/// `kind` is built for.
pub open spec fn normal_on(e: DepEdgeView, kind: Kind) -> bool {
    e.kind == DepKind::Normal && platform_ok(e, kind)
}

/// Whether some declaration is a normal one for the platform.
pub open spec fn any_normal(es: Seq<DepEdgeView>, kind: Kind) -> bool {
    exists|k: int| 0 <= k < es.len() && #[trigger] normal_on(es[k], kind)
}

/// For each package (of the first of `deps`) that a normal declaration for
/// the unit's platform names, and that has a library: the build of that
/// library, and its documentation as well when the unit documents
/// dependencies.
pub open spec fn doc_dep_units(b: BuildContext, u: UnitView, deps: Seq<(nat, Seq<DepEdgeView>)>) -> Seq<(UnitView, ProfileFor)>
    decreases deps.len(),
{
    if deps.len() == 0 {
        Seq::empty()
    } else {
        let prev = doc_dep_units(b, u, deps.drop_last());
        let d = deps.last();
        let ts = targets_view(b.packages[d.0 as int].targets@);
        if any_normal(d.1, u.kind) {
            match first_lib(ts) {
                Some(l) => {
                    let lib_unit = (
                        new_unit_spec(b, d.0, l as nat, ProfileFor::Any, kind_for(u.kind, ts[l]), dep_mode(u.mode, ts[l])),
                        ProfileFor::Any,
                    );
                    let doc_unit = (
                        new_unit_spec(b, d.0, l as nat, ProfileFor::Any, kind_for(u.kind, ts[l]), u.mode),
                        ProfileFor::Any,
                    );
                    if u.mode == (CompileMode::Doc { deps: true }) {
                        prev.push(lib_unit).push(doc_unit)
                    } else {
                        prev.push(lib_unit)
                    }
                },
                None => prev,
            }
        } else {
            prev
        }
    }
}

/// To document a unit's package: its dependencies' libraries (see
/// `doc_dep_units`), its build script run, and for a binary its own
/// library.
pub open spec fn doc_deps_spec(b: BuildContext, r: Seq<ResolvedView>, u: UnitView) -> Seq<(UnitView, ProfileFor)> {
    let a = doc_dep_units(b, u, r[u.pkg as int].deps) + opt_seq(dep_build_script_spec(b, u));
    if unit_targets(b, u)[u.target as int].kind is Bin {
        a + opt_seq(maybe_lib_spec(b, u, ProfileFor::Any))
    } else {
        a
    }
}

/// The units a unit depends on, each with the purpose its own dependencies
/// are built for: a build script run needs its compilation; documentation
/// (not doc tests) needs what `doc_deps_spec` says; anything else needs
/// the libraries of the packages its declarations name (see
/// `dep_lib_units`), then, unless it is a build script, the run of its
/// package's build script, then, unless it is a library (and not a doc
/// test), its package's library, and for a test or benchmark run (not a
/// check) the binaries of its package whose features are activated.
pub open spec fn compute_deps_spec(b: BuildContext, r: Seq<ResolvedView>, u: UnitView, profile_for: ProfileFor) -> Seq<
    (UnitView, ProfileFor),
> {
    let t = unit_targets(b, u)[u.target as int];
    let rp = r[u.pkg as int];
    if u.mode == CompileMode::RunCustomBuild {
        custom_build_deps_spec(b, u)
    } else if u.mode is Doc && !any_test(u.mode) {
        doc_deps_spec(b, r, u)
    } else {
        let libs = dep_lib_units(b, u, rp.features, rp.deps, profile_for);
        if t.kind is CustomBuild {
            libs
        } else {
            let a = libs + opt_seq(dep_build_script_spec(b, u));
            if t.kind is Lib && u.mode != CompileMode::Doctest {
                a
            } else {
                let c = a + opt_seq(maybe_lib_spec(b, u, profile_for));
                if !(u.mode is Check) && any_test(u.mode) && (t.kind is Test || t.kind is Bench) {
                    c + test_bin_units(b, u, rp, unit_targets(b, u).len())
                } else {
                    c
                }
            }
        }
    }
}

/// Once the first `n` targets hold a library, the first of them is the
/// first of all.
proof fn lemma_first_lib_prefix(ts: Seq<TargetView>, n: nat)
    requires
        n <= ts.len(),
        first_lib(ts.take(n as int)) is Some,
    ensures
        first_lib(ts) == first_lib(ts.take(n as int)),
    decreases ts.len() - n,
{
    if n < ts.len() {
        assert(ts.take(n + 1int).drop_last() =~= ts.take(n as int));
        lemma_first_lib_prefix(ts, n + 1);
    } else {
        assert(ts.take(n as int) =~= ts);
    }
}

/// A found library is in range.
proof fn lemma_first_lib_in_range(ts: Seq<TargetView>)
    ensures
        first_lib(ts) matches Some(i) ==> 0 <= i < ts.len() && ts[i].kind is Lib,
    decreases ts.len(),
{
    if ts.len() > 0 {
        lemma_first_lib_in_range(ts.drop_last());
    }
}

/// The position of the first library target.
fn find_lib(ts: &Vec<Target>) -> (r: Option<usize>)
    ensures
        r matches Some(i) ==> i < ts@.len() && first_lib(targets_view(ts@)) == Some(i as int),
        r is None ==> first_lib(targets_view(ts@)) is None,
{
    let ghost tv = targets_view(ts@);
    let mut i: usize = 0;
    while i < ts.len()
        invariant
            i <= ts@.len(),
            tv == targets_view(ts@),
            first_lib(tv.take(i as int)) is None,
        decreases ts.len() - i,
    {
        assert(tv.take(i + 1).drop_last() =~= tv.take(i as int));
        assert(tv.take(i + 1).last() == ts@[i as int]@);
        if ts[i].is_lib() {
            proof {
                lemma_first_lib_prefix(tv, (i + 1) as nat);
            }
            return Some(i);
        }
        i = i + 1;
    }
    assert(tv.take(ts@.len() as int) =~= tv);
    None
}

/// Whether the declaration is used (see `edge_used`).
fn uses_edge(t: &Target, mode: CompileMode, kind: Kind, feats: &Vec<String>, e: &DepEdge) -> (r: bool)
    ensures
        r == edge_used(t@, mode, kind, strs(feats@), e@),
{
    if t.is_custom_build() != (e.kind == DepKind::Build) {
        return false;
    }
    if e.kind == DepKind::Development && !t.is_test() && !t.is_example() && !mode.is_any_test() {
        return false;
    }
    let on = if kind == Kind::Host {
        e.on_host
    } else {
        e.on_target
    };
    if !on {
        return false;
    }
    if e.optional && !contains_string(feats, &e.name_in_toml) {
        return false;
    }
    true
}

/// Whether some declaration is used (see `any_edge_used`).
fn uses_any_edge(t: &Target, mode: CompileMode, kind: Kind, feats: &Vec<String>, es: &Vec<DepEdge>) -> (r: bool)
    ensures
        r == any_edge_used(t@, mode, kind, strs(feats@), edges_view(es@)),
{
    let ghost ev = edges_view(es@);
    let mut i: usize = 0;
    while i < es.len()
        invariant
            i <= es@.len(),
            ev == edges_view(es@),
            forall|k: int| 0 <= k < i ==> !#[trigger] edge_used(t@, mode, kind, strs(feats@), ev[k]),
        decreases es.len() - i,
    {
        if uses_edge(t, mode, kind, feats, &es[i]) {
            assert(edge_used(t@, mode, kind, strs(feats@), ev[i as int]));
            return true;
        }
        i = i + 1;
    }
    false
}

/// Whether some declaration is a normal one for the platform a unit of
/// `kind` is built for.
fn has_normal_edge(kind: Kind, es: &Vec<DepEdge>) -> (r: bool)
    ensures
        r == any_normal(edges_view(es@), kind),
{
    let ghost ev = edges_view(es@);
    let mut i: usize = 0;
    while i < es.len()
        invariant
            i <= es@.len(),
            ev == edges_view(es@),
            forall|k: int| 0 <= k < i ==> !#[trigger] normal_on(ev[k], kind),
        decreases es.len() - i,
    {
        let on = if kind == Kind::Host {
            es[i].on_host
        } else {
            es[i].on_target
        };
        assert(ev[i as int] == es@[i as int]@);
        if es[i].kind == DepKind::Normal && on {
            assert(normal_on(ev[i as int], kind));
            return true;
        }
        i = i + 1;
    }
    false
}

/// Pushing onto a list of units pushes the views.
proof fn lemma_pairs_push(v: Seq<(Unit, ProfileFor)>, x: (Unit, ProfileFor))
    ensures
        pairs_view(v.push(x)) == pairs_view(v).push((x.0@, x.1)),
{
    assert(pairs_view(v.push(x)) =~= pairs_view(v).push((x.0@, x.1)));
}

/// Appending lists of units appends the views.
proof fn lemma_pairs_add(v: Seq<(Unit, ProfileFor)>, w: Seq<(Unit, ProfileFor)>)
    ensures
        pairs_view(v + w) == pairs_view(v) + pairs_view(w),
{
    assert(pairs_view(v + w) =~= pairs_view(v) + pairs_view(w));
}

/// Appends the unit, if any.
fn push_opt_unit(out: &mut Vec<(Unit, ProfileFor)>, o: Option<(Unit, ProfileFor)>)
    ensures
        pairs_view(final(out)@) == pairs_view(old(out)@) + opt_seq(
            match o {
                Some(x) => Some((x.0@, x.1)),
                None => None,
            },
        ),
{
    match o {
        Some(x) => {
            proof {
                lemma_pairs_push(out@, x);
            }
            out.push(x);
            assert(pairs_view(old(out)@).push((x.0@, x.1)) =~= pairs_view(old(out)@) + seq![(x.0@, x.1)]);
        },
        None => {
            assert(pairs_view(out@) =~= pairs_view(out@) + Seq::<(UnitView, ProfileFor)>::empty());
        },
    }
}

/// Whether the resolved package names only packages of the build.
pub open spec fn deps_in_range(b: BuildContext, rp: ResolvedView) -> bool {
    forall|k: int| 0 <= k < rp.deps.len() ==> #[trigger] rp.deps[k].0 < b.packages.len()
}

/// The libraries of the packages the unit's declarations name (see
/// `dep_lib_units`).
fn dep_libs(unit: &Unit, b: &BuildContext, rp: &ResolvedPackage, profile_for: ProfileFor) -> (out: Vec<(Unit, ProfileFor)>)
    requires
        unit_ok(*b, unit@),
        profiles_apply(*b),
        deps_in_range(*b, rp@),
    ensures
        pairs_view(out@) == dep_lib_units(*b, unit@, rp@.features, rp@.deps, profile_for),
{
    let t = &b.packages[unit.pkg].targets[unit.target];
    assert(unit_targets(*b, unit@)[unit.target as int] == t@);
    let ghost dv = rp@.deps;
    let mut out: Vec<(Unit, ProfileFor)> = Vec::new();
    let mut i: usize = 0;
    while i < rp.deps.len()
        invariant
            i <= rp.deps@.len(),
            dv == rp@.deps,
            unit_ok(*b, unit@),
            profiles_apply(*b),
            deps_in_range(*b, rp@),
            t@ == unit_targets(*b, unit@)[unit.target as int],
            pairs_view(out@) == dep_lib_units(*b, unit@, rp@.features, dv.take(i as int), profile_for),
        decreases rp.deps.len() - i,
    {
        let d = &rp.deps[i];
        assert(dv.take(i + 1).drop_last() =~= dv.take(i as int));
        assert(dv.take(i + 1).last() == dv[i as int]);
        assert(dv[i as int] == (d.0 as nat, edges_view(d.1@)));
        assert(dv[i as int].0 < b.packages@.len());
        if uses_any_edge(t, unit.mode, unit.kind, &rp.features, &d.1) {
            let dp = d.0;
            let ts = &b.packages[dp].targets;
            match find_lib(ts) {
                Some(l) => {
                    let lt = &ts[l];
                    assert(targets_view(ts@)[l as int] == lt@);
                    let mode = check_or_build_mode(unit.mode, lt);
                    let kind = unit.kind.for_target(lt);
                    let nu = new_unit(b, dp, l, profile_for, kind, mode);
                    proof {
                        lemma_pairs_push(out@, (nu, profile_for));
                    }
                    out.push((nu, profile_for));
                },
                None => {},
            }
        }
        i = i + 1;
    }
    assert(dv.take(rp.deps@.len() as int) =~= dv);
    out
}

/// A required feature that is not activated leaves the requirement unmet.
proof fn lemma_unmet(fs: Seq<Seq<char>>, feats: Seq<Seq<char>>, i: int)
    requires
        0 <= i < fs.len(),
        !feats.contains(fs[i]),
    ensures
        !reqs_met(Some(fs), feats),
{
    let o: Option<Seq<Seq<char>>> = Some(fs);
    assert(o->0 == fs);
    assert(!activated(feats, fs[i]));
}

/// Whether every required feature is activated (see `reqs_met`).
fn features_met(req: &Option<Vec<String>>, feats: &Vec<String>) -> (r: bool)
    ensures
        r == reqs_met(req_view(*req), strs(feats@)),
{
    match req {
        Some(fs) => {
            assert(req_view(*req) == Some(strs(fs@)));
            assert(strs(fs@).len() == fs@.len());
            let mut i: usize = 0;
            while i < fs.len()
                invariant
                    i <= fs@.len(),
                    req_view(*req) == Some(strs(fs@)),
                    forall|k: int| 0 <= k < i ==> #[trigger] activated(strs(feats@), strs(fs@)[k]),
                decreases fs.len() - i,
            {
                if !contains_string(feats, &fs[i]) {
                    assert(strs(fs@)[i as int] == fs@[i as int]@);
                    proof {
                        lemma_unmet(strs(fs@), strs(feats@), i as int);
                    }
                    return false;
                }
                assert(strs(fs@)[i as int] == fs@[i as int]@);
                i = i + 1;
            }
            true
        },
        None => true,
    }
}

/// The builds of the package's binaries whose features are activated
/// (see `test_bin_units`).
fn test_bins(unit: &Unit, b: &BuildContext, rp: &ResolvedPackage) -> (out: Vec<(Unit, ProfileFor)>)
    requires
        unit_ok(*b, unit@),
        profiles_apply(*b),
    ensures
        pairs_view(out@) == test_bin_units(*b, unit@, rp@, unit_targets(*b, unit@).len()),
{
    let ts = &b.packages[unit.pkg].targets;
    let mut out: Vec<(Unit, ProfileFor)> = Vec::new();
    let mut j: usize = 0;
    while j < ts.len()
        invariant
            j <= ts@.len(),
            ts@ == b.packages@[unit.pkg as int].targets@,
            unit_ok(*b, unit@),
            profiles_apply(*b),
            pairs_view(out@) == test_bin_units(*b, unit@, rp@, j as nat),
        decreases ts.len() - j,
    {
        let t = &ts[j];
        assert(unit_targets(*b, unit@)[j as int] == t@);
        if t.is_bin() {
            let req: Option<Vec<String>> = None;
            let met = if j < rp.required_features.len() {
                assert(required_at(rp@, j as int) == req_view(rp.required_features@[j as int]));
                features_met(&rp.required_features[j], &rp.features)
            } else {
                assert(required_at(rp@, j as int) == req_view(req));
                features_met(&req, &rp.features)
            };
            if met {
                let kind = unit.kind.for_target(t);
                let nu = new_unit(b, unit.pkg, j, ProfileFor::Any, kind, CompileMode::Build);
                proof {
                    lemma_pairs_push(out@, (nu, ProfileFor::Any));
                }
                out.push((nu, ProfileFor::Any));
            }
        }
        j = j + 1;
    }
    out
}

/// The dependencies of a build script run: its compilation (see
/// `custom_build_deps_spec`).
pub fn compute_deps_custom_build(unit: &Unit, b: &BuildContext) -> (out: Vec<(Unit, ProfileFor)>)
    requires
        unit.pkg < b.packages@.len(),
        profiles_apply(*b),
    ensures
        pairs_view(out@) == custom_build_deps_spec(*b, unit@),
{
    let u = new_unit(b, unit.pkg, unit.target, ProfileFor::CustomBuild, Kind::Host, CompileMode::Build);
    let out = vec![(u, ProfileFor::CustomBuild)];
    assert(pairs_view(out@) =~= custom_build_deps_spec(*b, unit@));
    out
}

/// The dependencies of documenting a unit's package (see `doc_deps_spec`).
pub fn compute_deps_doc(unit: &Unit, b: &BuildContext, r: &Vec<ResolvedPackage>) -> (out: Vec<(Unit, ProfileFor)>)
    requires
        unit_ok(*b, unit@),
        profiles_apply(*b),
        resolve_ok(*b, resolve_view(r@)),
    ensures
        pairs_view(out@) == doc_deps_spec(*b, resolve_view(r@), unit@),
{
    let rp = &r[unit.pkg];
    assert(resolve_view(r@)[unit.pkg as int] == rp@);
    let ghost dv = rp@.deps;
    let mut out: Vec<(Unit, ProfileFor)> = Vec::new();
    let mut i: usize = 0;
    while i < rp.deps.len()
        invariant
            i <= rp.deps@.len(),
            dv == rp@.deps,
            rp@ == resolve_view(r@)[unit.pkg as int],
            unit_ok(*b, unit@),
            profiles_apply(*b),
            resolve_ok(*b, resolve_view(r@)),
            pairs_view(out@) == doc_dep_units(*b, unit@, dv.take(i as int)),
        decreases rp.deps.len() - i,
    {
        let d = &rp.deps[i];
        assert(dv.take(i + 1).drop_last() =~= dv.take(i as int));
        assert(dv.take(i + 1).last() == dv[i as int]);
        assert(dv[i as int] == (d.0 as nat, edges_view(d.1@)));
        assert(resolve_view(r@)[unit.pkg as int].deps[i as int].0 < b.packages@.len());
        if has_normal_edge(unit.kind, &d.1) {
            let dp = d.0;
            let ts = &b.packages[dp].targets;
            match find_lib(ts) {
                Some(l) => {
                    let lt = &ts[l];
                    assert(targets_view(ts@)[l as int] == lt@);
                    let mode = check_or_build_mode(unit.mode, lt);
                    let kind = unit.kind.for_target(lt);
                    let lib_unit = new_unit(b, dp, l, ProfileFor::Any, kind, mode);
                    proof {
                        lemma_pairs_push(out@, (lib_unit, ProfileFor::Any));
                    }
                    out.push((lib_unit, ProfileFor::Any));
                    match unit.mode {
                        CompileMode::Doc { deps: true } => {
                            let doc_unit = new_unit(b, dp, l, ProfileFor::Any, kind, unit.mode);
                            proof {
                                lemma_pairs_push(out@, (doc_unit, ProfileFor::Any));
                            }
                            out.push((doc_unit, ProfileFor::Any));
                        },
                        _ => {},
                    }
                },
                None => {},
            }
        }
        i = i + 1;
    }
    assert(dv.take(rp.deps@.len() as int) =~= dv);
    push_opt_unit(&mut out, dep_build_script(unit, b));
    let t = &b.packages[unit.pkg].targets[unit.target];
    assert(unit_targets(*b, unit@)[unit.target as int] == t@);
    if t.is_bin() {
        push_opt_unit(&mut out, maybe_lib(unit, b, ProfileFor::Any));
    }
    out
}

/// The units a unit depends on, each with the purpose its own dependencies
/// are built for (see `compute_deps_spec`).
pub fn compute_deps(unit: &Unit, b: &BuildContext, r: &Vec<ResolvedPackage>, profile_for: ProfileFor) -> (out: Vec<(Unit, ProfileFor)>)
    requires
        unit_ok(*b, unit@),
        profiles_apply(*b),
        resolve_ok(*b, resolve_view(r@)),
    ensures
        pairs_view(out@) == compute_deps_spec(*b, resolve_view(r@), unit@, profile_for),
{
    if unit.mode == CompileMode::RunCustomBuild {
        return compute_deps_custom_build(unit, b);
    } else if unit.mode.is_doc() && !unit.mode.is_any_test() {
        return compute_deps_doc(unit, b, r);
    }
    let rp = &r[unit.pkg];
    assert(resolve_view(r@)[unit.pkg as int] == rp@);
    assert(deps_in_range(*b, rp@));
    let mut out = dep_libs(unit, b, rp, profile_for);
    let t = &b.packages[unit.pkg].targets[unit.target];
    assert(unit_targets(*b, unit@)[unit.target as int] == t@);
    if t.is_custom_build() {
        return out;
    }
    push_opt_unit(&mut out, dep_build_script(unit, b));
    if t.is_lib() && unit.mode != CompileMode::Doctest {
        return out;
    }
    push_opt_unit(&mut out, maybe_lib(unit, b, profile_for));
    if !unit.mode.is_check() && unit.mode.is_any_test() && (t.is_test() || t.is_bench()) {
        let mut bins = test_bins(unit, b, rp);
        proof {
            lemma_pairs_add(out@, bins@);
        }
        out.append(&mut bins);
    }
    out
}

/// Whether every unit of the list is a target of one of the build's
/// packages.
pub open spec fn all_units_ok(b: BuildContext, s: Seq<(UnitView, ProfileFor)>) -> bool {
    forall|j: int| 0 <= j < s.len() ==> unit_ok(b, #[trigger] s[j].0)
}

/// Lists of such units stay so when joined.
proof fn lemma_all_ok_add(b: BuildContext, s: Seq<(UnitView, ProfileFor)>, t: Seq<(UnitView, ProfileFor)>)
    requires
        all_units_ok(b, s),
        all_units_ok(b, t),
    ensures
        all_units_ok(b, s + t),
{
    assert forall|j: int| 0 <= j < (s + t).len() implies unit_ok(b, #[trigger] (s + t)[j].0) by {
        if j < s.len() {
            assert((s + t)[j] == s[j]);
        } else {
            assert((s + t)[j] == t[j - s.len()]);
        }
    }
}

/// The libraries of the named packages are targets of the build.
proof fn lemma_dep_libs_ok(
    b: BuildContext,
    u: UnitView,
    feats: Seq<Seq<char>>,
    deps: Seq<(nat, Seq<DepEdgeView>)>,
    profile_for: ProfileFor,
)
    requires
        forall|k: int| 0 <= k < deps.len() ==> #[trigger] deps[k].0 < b.packages.len(),
    ensures
        all_units_ok(b, dep_lib_units(b, u, feats, deps, profile_for)),
    decreases deps.len(),
{
    if deps.len() > 0 {
        let prev = deps.drop_last();
        assert forall|k: int| 0 <= k < prev.len() implies #[trigger] prev[k].0 < b.packages.len() by {
            assert(prev[k] == deps[k]);
        }
        lemma_dep_libs_ok(b, u, feats, prev, profile_for);
        let d = deps.last();
        assert(d == deps[deps.len() - 1]);
        lemma_first_lib_in_range(targets_view(b.packages[d.0 as int].targets@));
    }
}

/// The binaries among the first `n` targets are targets of the build.
proof fn lemma_test_bins_ok(b: BuildContext, u: UnitView, rp: ResolvedView, n: nat)
    requires
        u.pkg < b.packages.len(),
        n <= unit_targets(b, u).len(),
    ensures
        all_units_ok(b, test_bin_units(b, u, rp, n)),
    decreases n,
{
    if n > 0 {
        lemma_test_bins_ok(b, u, rp, (n - 1) as nat);
    }
}

/// The documented dependencies are targets of the build.
proof fn lemma_doc_units_ok(b: BuildContext, u: UnitView, deps: Seq<(nat, Seq<DepEdgeView>)>)
    requires
        forall|k: int| 0 <= k < deps.len() ==> #[trigger] deps[k].0 < b.packages.len(),
    ensures
        all_units_ok(b, doc_dep_units(b, u, deps)),
    decreases deps.len(),
{
    if deps.len() > 0 {
        let prev = deps.drop_last();
        assert forall|k: int| 0 <= k < prev.len() implies #[trigger] prev[k].0 < b.packages.len() by {
            assert(prev[k] == deps[k]);
        }
        lemma_doc_units_ok(b, u, prev);
        let d = deps.last();
        assert(d == deps[deps.len() - 1]);
        lemma_first_lib_in_range(targets_view(b.packages[d.0 as int].targets@));
    }
}

/// The build script run and the library of the unit's own package are
/// targets of the build.
proof fn lemma_own_units_ok(b: BuildContext, u: UnitView, profile_for: ProfileFor)
    requires
        unit_ok(b, u),
    ensures
        all_units_ok(b, opt_seq(dep_build_script_spec(b, u))),
        all_units_ok(b, opt_seq(maybe_lib_spec(b, u, profile_for))),
{
    lemma_first_in_range(unit_targets(b, u));
}

/// Every unit that a unit of the build depends on is itself a target of
/// one of the build's packages: the unit graph never leaves the build.
pub proof fn lemma_deps_stay_in_build(b: BuildContext, r: Seq<ResolvedView>, u: UnitView, profile_for: ProfileFor)
    requires
        unit_ok(b, u),
        resolve_ok(b, r),
    ensures
        all_units_ok(b, compute_deps_spec(b, r, u, profile_for)),
{
    let rp = r[u.pkg as int];
    assert forall|k: int| 0 <= k < rp.deps.len() implies #[trigger] rp.deps[k].0 < b.packages.len() by {
        assert(r[u.pkg as int].deps[k].0 < b.packages.len());
    }
    lemma_own_units_ok(b, u, profile_for);
    lemma_own_units_ok(b, u, ProfileFor::Any);
    if u.mode == CompileMode::RunCustomBuild {
    } else if u.mode is Doc && !any_test(u.mode) {
        lemma_doc_units_ok(b, u, rp.deps);
        lemma_all_ok_add(b, doc_dep_units(b, u, rp.deps), opt_seq(dep_build_script_spec(b, u)));
        lemma_all_ok_add(
            b,
            doc_dep_units(b, u, rp.deps) + opt_seq(dep_build_script_spec(b, u)),
            opt_seq(maybe_lib_spec(b, u, ProfileFor::Any)),
        );
    } else {
        let libs = dep_lib_units(b, u, rp.features, rp.deps, profile_for);
        lemma_dep_libs_ok(b, u, rp.features, rp.deps, profile_for);
        let a = libs + opt_seq(dep_build_script_spec(b, u));
        lemma_all_ok_add(b, libs, opt_seq(dep_build_script_spec(b, u)));
        let c = a + opt_seq(maybe_lib_spec(b, u, profile_for));
        lemma_all_ok_add(b, a, opt_seq(maybe_lib_spec(b, u, profile_for)));
        lemma_test_bins_ok(b, u, rp, unit_targets(b, u).len());
        lemma_all_ok_add(b, c, test_bin_units(b, u, rp, unit_targets(b, u).len()));
    }
}

} // verus!
