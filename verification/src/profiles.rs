//! Compilation profiles: the built-in settings of each profile, the
//! `[profile]` tables of the manifest and of the configuration layered over
//! them, and the choice of the profile of a unit.
//!
//! The precedence of the layers is (last applied wins):
//! the built-in defaults, then `[profile.NAME]`, its `build-override` (for
//! build scripts and their dependencies), its `overrides."*"` (for packages
//! outside the workspace), its override for the package, and then the same
//! four layers again from the configuration.
use vstd::prelude::*;
use crate::compile_mode::{any_test, CompileMode};
use crate::package_id_spec::{spec_matches, PackageId, PackageIdSpec, PackageIdView};
use crate::text::{chars_of, clone_opt_string, eq_opt_string, opt_str, push_str, string_from, string_of, strs};

verus! {

/// The link-time-optimization setting.
#[derive(Debug, Hash)]
pub enum Lto {
    /// `false`: no LTO; `true`: "fat" LTO.
    Bool(bool),
    /// A named setting such as `thin`.
    Named(String),
}

/// The mathematical value of an `Lto`.
pub enum LtoView {
    Bool(bool),
    Named(Seq<char>),
}

impl View for Lto {
    type V = LtoView;

    open spec fn view(&self) -> LtoView {
        match self {
            Lto::Bool(b) => LtoView::Bool(*b),
            Lto::Named(n) => LtoView::Named(n@),
        }
    }
}

impl Lto {
    /// A copy of the setting.
    pub fn duplicate(&self) -> (r: Lto)
        ensures
            r@ == self@,
    {
        match self {
            Lto::Bool(b) => Lto::Bool(*b),
            Lto::Named(n) => Lto::Named(string_from(n.as_str())),
        }
    }

    /// Whether two settings are equal.
    pub fn same(&self, other: &Lto) -> (r: bool)
        ensures
            r == (self@ == other@),
    {
        match (self, other) {
            (Lto::Bool(a), Lto::Bool(b)) => *a == *b,
            (Lto::Named(a), Lto::Named(b)) => a.eq(b),
            _ => false,
        }
    }
}

/// The settings that select the compiler flags of a target.
#[derive(Debug, Hash)]
pub struct Profile {
    pub name: &'static str,
    pub opt_level: String,
    pub lto: Lto,
    /// `None`: the compiler's default.
    pub codegen_units: Option<u32>,
    pub debuginfo: Option<u32>,
    pub debug_assertions: bool,
    pub overflow_checks: bool,
    pub rpath: bool,
    pub incremental: bool,
    pub panic: Option<String>,
}

/// The mathematical value of a `Profile`.
pub struct ProfileView {
    pub name: Seq<char>,
    pub opt_level: Seq<char>,
    pub lto: LtoView,
    pub codegen_units: Option<u32>,
    pub debuginfo: Option<u32>,
    pub debug_assertions: bool,
    pub overflow_checks: bool,
    pub rpath: bool,
    pub incremental: bool,
    pub panic: Option<Seq<char>>,
}

impl View for Profile {
    type V = ProfileView;

    open spec fn view(&self) -> ProfileView {
        ProfileView {
            name: self.name@,
            opt_level: self.opt_level@,
            lto: self.lto@,
            codegen_units: self.codegen_units,
            debuginfo: self.debuginfo,
            debug_assertions: self.debug_assertions,
            overflow_checks: self.overflow_checks,
            rpath: self.rpath,
            incremental: self.incremental,
            panic: opt_str(self.panic),
        }
    }
}

/// What two profiles are compared by: every setting but the name, which
/// does not affect compilation.
pub open spec fn comparable(p: ProfileView) -> ProfileView {
    ProfileView { name: Seq::empty(), ..p }
}

/// The settings every profile starts from.
pub open spec fn default_view() -> ProfileView {
    ProfileView {
        name: ""@,
        opt_level: "0"@,
        lto: LtoView::Bool(false),
        codegen_units: None,
        debuginfo: None,
        debug_assertions: false,
        overflow_checks: false,
        rpath: false,
        incremental: false,
        panic: None,
    }
}

/// The built-in `dev` profile: full debug info, debug assertions, overflow
/// checks and incremental compilation.
pub open spec fn dev_view() -> ProfileView {
    ProfileView {
        name: "dev"@,
        debuginfo: Some(2),
        debug_assertions: true,
        overflow_checks: true,
        incremental: true,
        ..default_view()
    }
}

/// The built-in `release` profile: optimization level 3.
pub open spec fn release_view() -> ProfileView {
    ProfileView { name: "release"@, opt_level: "3"@, ..default_view() }
}

impl Default for Profile {
    fn default() -> (r: Profile)
        ensures
            r@ == default_view(),
    {
        Profile {
            name: "",
            opt_level: string_from("0"),
            lto: Lto::Bool(false),
            codegen_units: None,
            debuginfo: None,
            debug_assertions: false,
            overflow_checks: false,
            rpath: false,
            incremental: false,
            panic: None,
        }
    }
}

impl Profile {
    /// The built-in `dev` profile.
    pub fn default_dev() -> (r: Profile)
        ensures
            r@ == dev_view(),
    {
        Profile {
            name: "dev",
            debuginfo: Some(2),
            debug_assertions: true,
            overflow_checks: true,
            incremental: true,
            ..Profile::default()
        }
    }

    /// The built-in `release` profile.
    pub fn default_release() -> (r: Profile)
        ensures
            r@ == release_view(),
    {
        Profile { name: "release", opt_level: string_from("3"), ..Profile::default() }
    }

    /// The built-in `test` profile: the `dev` settings.
    pub fn default_test() -> (r: Profile)
        ensures
            r@ == (ProfileView { name: "test"@, ..dev_view() }),
    {
        Profile { name: "test", ..Profile::default_dev() }
    }

    /// The built-in `bench` profile: the `release` settings.
    pub fn default_bench() -> (r: Profile)
        ensures
            r@ == (ProfileView { name: "bench"@, ..release_view() }),
    {
        Profile { name: "bench", ..Profile::default_release() }
    }

    /// The built-in `doc` profile: the `dev` settings.
    pub fn default_doc() -> (r: Profile)
        ensures
            r@ == (ProfileView { name: "doc"@, ..dev_view() }),
    {
        Profile { name: "doc", ..Profile::default_dev() }
    }

    /// A copy of the profile.
    pub fn duplicate(&self) -> (r: Profile)
        ensures
            r@ == self@,
    {
        Profile {
            name: self.name,
            opt_level: string_from(self.opt_level.as_str()),
            lto: self.lto.duplicate(),
            codegen_units: self.codegen_units,
            debuginfo: self.debuginfo,
            debug_assertions: self.debug_assertions,
            overflow_checks: self.overflow_checks,
            rpath: self.rpath,
            incremental: self.incremental,
            panic: clone_opt_string(&self.panic),
        }
    }

    /// Whether two profiles have the same settings; the names are not
    /// compared.
    pub fn same_settings(&self, other: &Profile) -> (r: bool)
        ensures
            r == (comparable(self@) == comparable(other@)),
    {
        let r = self.opt_level.eq(&other.opt_level) && self.lto.same(&other.lto)
            && self.codegen_units == other.codegen_units && self.debuginfo == other.debuginfo
            && self.debug_assertions == other.debug_assertions && self.overflow_checks
            == other.overflow_checks && self.rpath == other.rpath && self.incremental
            == other.incremental && eq_opt_string(&self.panic, &other.panic);
        proof {
            if r {
                assert(comparable(self@) == comparable(other@));
            }
        }
        r
    }

    /// `Profile(NAME)`.
    pub fn to_string(&self) -> (r: String)
        ensures
            r@ == "Profile("@ + self@.name + ")"@,
    {
        let mut out = chars_of("Profile(");
        push_str(&mut out, self.name);
        push_str(&mut out, ")");
        string_of(&out)
    }
}

impl PartialEq for Profile {
    fn eq(&self, other: &Profile) -> (r: bool) {
        self.same_settings(other)
    }
}

impl Eq for Profile {
}

impl vstd::std_specs::cmp::PartialEqSpecImpl for Profile {
    open spec fn obeys_eq_spec() -> bool {
        true
    }

    open spec fn eq_spec(&self, other: &Profile) -> bool {
        comparable(self@) == comparable(other@)
    }
}

/// A setting that is either a string or a boolean (`lto`).
#[derive(Debug)]
pub enum StringOrBool {
    String(String),
    Bool(bool),
}

/// A setting that is either a number or a boolean (`debug`).
#[derive(Debug)]
pub enum U32OrBool {
    U32(u32),
    Bool(bool),
}

/// The key of a profile override: a package id specification, or `"*"`
/// for every package outside the workspace.
#[derive(Debug)]
pub enum ProfilePackageSpec {
    Spec(PackageIdSpec),
    All,
}

/// A `[profile.NAME]` table as written in a manifest or a configuration
/// file; an absent key is `None`.
#[derive(Debug)]
pub struct TomlProfile {
    pub opt_level: Option<String>,
    pub lto: Option<StringOrBool>,
    pub codegen_units: Option<u32>,
    pub debug: Option<U32OrBool>,
    pub debug_assertions: Option<bool>,
    pub rpath: Option<bool>,
    pub panic: Option<String>,
    pub overflow_checks: Option<bool>,
    pub incremental: Option<bool>,
    /// The per-package overrides, in the order of their keys.
    pub overrides: Option<Vec<(ProfilePackageSpec, TomlProfile)>>,
    pub build_override: Option<Box<TomlProfile>>,
}

impl Default for TomlProfile {
    fn default() -> (r: TomlProfile)
        ensures
            r.opt_level is None,
            r.lto is None,
            r.codegen_units is None,
            r.debug is None,
            r.debug_assertions is None,
            r.rpath is None,
            r.panic is None,
            r.overflow_checks is None,
            r.incremental is None,
            r.overrides is None,
            r.build_override is None,
    {
        TomlProfile {
            opt_level: None,
            lto: None,
            codegen_units: None,
            debug: None,
            debug_assertions: None,
            rpath: None,
            panic: None,
            overflow_checks: None,
            incremental: None,
            overrides: None,
            build_override: None,
        }
    }
}

/// The `[profile]` tables of a manifest.
#[derive(Debug)]
pub struct TomlProfiles {
    pub dev: Option<TomlProfile>,
    pub release: Option<TomlProfile>,
    pub test: Option<TomlProfile>,
    pub bench: Option<TomlProfile>,
    pub doc: Option<TomlProfile>,
}

/// `p` with the settings that `t` gives replacing its own.
pub open spec fn merge_spec(p: ProfileView, t: TomlProfile) -> ProfileView {
    ProfileView {
        name: p.name,
        opt_level: match t.opt_level {
            Some(o) => o@,
            None => p.opt_level,
        },
        lto: match t.lto {
            Some(StringOrBool::Bool(b)) => LtoView::Bool(b),
            Some(StringOrBool::String(n)) => LtoView::Named(n@),
            None => p.lto,
        },
        codegen_units: if t.codegen_units is Some {
            t.codegen_units
        } else {
            p.codegen_units
        },
        debuginfo: match t.debug {
            Some(U32OrBool::U32(d)) => Some(d),
            Some(U32OrBool::Bool(true)) => Some(2),
            Some(U32OrBool::Bool(false)) => None,
            None => p.debuginfo,
        },
        debug_assertions: match t.debug_assertions {
            Some(b) => b,
            None => p.debug_assertions,
        },
        overflow_checks: match t.overflow_checks {
            Some(b) => b,
            None => p.overflow_checks,
        },
        rpath: match t.rpath {
            Some(b) => b,
            None => p.rpath,
        },
        incremental: match t.incremental {
            Some(b) => b,
            None => p.incremental,
        },
        panic: match t.panic {
            Some(s) => Some(s@),
            None => p.panic,
        },
    }
}

/// `p` with the layers merged into it, first to last.
pub open spec fn merge_all(p: ProfileView, layers: Seq<TomlProfile>) -> ProfileView
    decreases layers.len(),
{
    if layers.len() == 0 {
        p
    } else {
        merge_spec(merge_all(p, layers.drop_last()), layers.last())
    }
}

/// Whether an override key selects the package.
pub open spec fn key_matches(k: ProfilePackageSpec, id: PackageIdView) -> bool {
    match k {
        ProfilePackageSpec::Spec(s) => spec_matches(s@, id),
        ProfilePackageSpec::All => false,
    }
}

/// Whether at most one override key selects the package.
pub open spec fn unique_match(ov: Seq<(ProfilePackageSpec, TomlProfile)>, id: PackageIdView) -> bool {
    forall|i: int, j: int|
        0 <= i < ov.len() && 0 <= j < ov.len() && #[trigger] key_matches(ov[i].0, id)
            && #[trigger] key_matches(ov[j].0, id) ==> i == j
}

/// Whether a table can be applied for the package: its overrides select
/// it at most once.
pub open spec fn overrides_ok(t: TomlProfile, pkg: Option<PackageIdView>) -> bool {
    match (t.overrides, pkg) {
        (Some(ov), Some(id)) => unique_match(ov@, id),
        _ => true,
    }
}

/// Whether `i` is the first `"*"` override.
pub open spec fn first_all(ov: Seq<(ProfilePackageSpec, TomlProfile)>, i: int) -> bool {
    &&& 0 <= i < ov.len()
    &&& ov[i].0 is All
    &&& forall|j: int| 0 <= j < i ==> !(#[trigger] ov[j].0 is All)
}

/// The `"*"` override, if there is one.
pub open spec fn all_override(ov: Seq<(ProfilePackageSpec, TomlProfile)>) -> Option<TomlProfile> {
    if exists|i: int| first_all(ov, i) {
        Some(ov[choose|i: int| first_all(ov, i)].1)
    } else {
        None
    }
}

/// The override that selects the package, if there is one.
pub open spec fn pkg_override(ov: Seq<(ProfilePackageSpec, TomlProfile)>, id: PackageIdView) -> Option<TomlProfile> {
    if exists|i: int| 0 <= i < ov.len() && #[trigger] key_matches(ov[i].0, id) {
        Some(ov[choose|i: int| 0 <= i < ov.len() && #[trigger] key_matches(ov[i].0, id)].1)
    } else {
        None
    }
}

/// The optional table as a list of zero or one layers.
pub open spec fn opt_layer(t: Option<TomlProfile>) -> Seq<TomlProfile> {
    match t {
        Some(x) => seq![x],
        None => Seq::empty(),
    }
}

/// The layers that one table applies, in order: the table itself, its
/// `build-override` for build scripts, its `"*"` override for packages
/// outside the workspace, and the override that selects the package.
pub open spec fn toml_layers(
    pkg: Option<PackageIdView>,
    is_member: bool,
    profile_for: ProfileFor,
    t: TomlProfile,
) -> Seq<TomlProfile> {
    let bo = if profile_for == ProfileFor::CustomBuild {
        match t.build_override {
            Some(b) => seq![*b],
            None => Seq::empty(),
        }
    } else {
        Seq::empty()
    };
    let ovs = match t.overrides {
        None => Seq::empty(),
        Some(ov) => {
            let all = if !is_member {
                opt_layer(all_override(ov@))
            } else {
                Seq::empty()
            };
            let named = match pkg {
                Some(id) => opt_layer(pkg_override(ov@, id)),
                None => Seq::empty(),
            };
            all + named
        },
    };
    seq![t] + bo + ovs
}

/// The view of an optional package id.
pub open spec fn pkg_view(p: Option<&PackageId>) -> Option<PackageIdView> {
    match p {
        Some(id) => Some(id@),
        None => None,
    }
}

/// Merging one more layer.
pub proof fn lemma_merge_all_push(p: ProfileView, ls: Seq<TomlProfile>, t: TomlProfile)
    ensures
        merge_all(p, ls.push(t)) == merge_spec(merge_all(p, ls), t),
{
    assert(ls.push(t).drop_last() =~= ls);
}

/// Merging two lists of layers one after the other is merging their
/// concatenation.
pub proof fn lemma_merge_all_concat(p: ProfileView, a: Seq<TomlProfile>, b: Seq<TomlProfile>)
    ensures
        merge_all(p, a + b) == merge_all(merge_all(p, a), b),
    decreases b.len(),
{
    if b.len() == 0 {
        assert(a + b =~= a);
    } else {
        lemma_merge_all_concat(p, a, b.drop_last());
        assert((a + b).drop_last() =~= a + b.drop_last());
        assert((a + b).last() == b.last());
    }
}

/// Replaces the settings of `profile` with those that `toml` gives.
pub fn merge_profile(profile: &mut Profile, toml: &TomlProfile)
    ensures
        final(profile)@ == merge_spec(old(profile)@, *toml),
{
    let opt_level = match &toml.opt_level {
        Some(o) => string_from(o.as_str()),
        None => string_from(profile.opt_level.as_str()),
    };
    let lto = match &toml.lto {
        Some(StringOrBool::Bool(b)) => Lto::Bool(*b),
        Some(StringOrBool::String(n)) => Lto::Named(string_from(n.as_str())),
        None => profile.lto.duplicate(),
    };
    let codegen_units = if toml.codegen_units.is_some() {
        toml.codegen_units
    } else {
        profile.codegen_units
    };
    let debuginfo = match &toml.debug {
        Some(U32OrBool::U32(d)) => Some(*d),
        Some(U32OrBool::Bool(b)) => if *b {
            Some(2)
        } else {
            None
        },
        None => profile.debuginfo,
    };
    let panic = match &toml.panic {
        Some(s) => Some(string_from(s.as_str())),
        None => clone_opt_string(&profile.panic),
    };
    let merged = Profile {
        name: profile.name,
        opt_level,
        lto,
        codegen_units,
        debuginfo,
        debug_assertions: match toml.debug_assertions {
            Some(b) => b,
            None => profile.debug_assertions,
        },
        overflow_checks: match toml.overflow_checks {
            Some(b) => b,
            None => profile.overflow_checks,
        },
        rpath: match toml.rpath {
            Some(b) => b,
            None => profile.rpath,
        },
        incremental: match toml.incremental {
            Some(b) => b,
            None => profile.incremental,
        },
        panic,
    };
    *profile = merged;
}

/// The index of the first `"*"` override.
fn find_all_override(ov: &Vec<(ProfilePackageSpec, TomlProfile)>) -> (r: Option<usize>)
    ensures
        match r {
            Some(i) => first_all(ov@, i as int),
            None => forall|j: int| 0 <= j < ov@.len() ==> !(#[trigger] ov@[j].0 is All),
        },
{
    let mut i: usize = 0;
    while i < ov.len()
        invariant
            i <= ov@.len(),
            forall|j: int| 0 <= j < i ==> !(#[trigger] ov@[j].0 is All),
        decreases ov.len() - i,
    {
        match &ov[i].0 {
            ProfilePackageSpec::All => {
                return Some(i);
            },
            ProfilePackageSpec::Spec(_) => {},
        }
        i = i + 1;
    }
    None
}

/// The index of an override that selects the package.
fn find_pkg_override(ov: &Vec<(ProfilePackageSpec, TomlProfile)>, id: &PackageId) -> (r: Option<usize>)
    ensures
        match r {
            Some(i) => i < ov@.len() && key_matches(ov@[i as int].0, id@),
            None => forall|j: int| 0 <= j < ov@.len() ==> !(#[trigger] key_matches(ov@[j].0, id@)),
        },
{
    let mut i: usize = 0;
    while i < ov.len()
        invariant
            i <= ov@.len(),
            forall|j: int| 0 <= j < i ==> !(#[trigger] key_matches(ov@[j].0, id@)),
        decreases ov.len() - i,
    {
        match &ov[i].0 {
            ProfilePackageSpec::Spec(s) => {
                if s.matches(id) {
                    return Some(i);
                }
            },
            ProfilePackageSpec::All => {},
        }
        i = i + 1;
    }
    None
}

/// The first `"*"` override is the one `all_override` names.
proof fn lemma_first_all_unique(ov: Seq<(ProfilePackageSpec, TomlProfile)>, i: int)
    requires
        first_all(ov, i),
    ensures
        all_override(ov) == Some(ov[i].1),
{
    let k = choose|k: int| first_all(ov, k);
    assert(first_all(ov, k));
    if k < i {
        assert(!(ov[k].0 is All));
    } else if i < k {
        assert(!(ov[i].0 is All));
    }
}

/// Applies one table to the profile of a unit of the package `pkg_id`:
/// the table, then the layers it selects (see `toml_layers`).
pub fn merge_toml(
    pkg_id: Option<&PackageId>,
    is_member: bool,
    profile_for: ProfileFor,
    profile: &mut Profile,
    toml: &TomlProfile,
)
    requires
        overrides_ok(*toml, pkg_view(pkg_id)),
    ensures
        final(profile)@ == merge_all(old(profile)@, toml_layers(pkg_view(pkg_id), is_member, profile_for, *toml)),
{
    let ghost p0 = profile@;
    merge_profile(profile, toml);
    let ghost mut ls: Seq<TomlProfile> = seq![*toml];
    proof {
        lemma_merge_all_push(p0, Seq::empty(), *toml);
        assert(Seq::<TomlProfile>::empty().push(*toml) =~= ls);
    }
    if profile_for == ProfileFor::CustomBuild {
        match &toml.build_override {
            Some(b) => {
                merge_profile(profile, b);
                proof {
                    lemma_merge_all_push(p0, ls, **b);
                    ls = ls.push(**b);
                }
            },
            None => {},
        }
    }
    let ghost ls1 = ls;
    assert(ls1 =~= seq![*toml] + (if profile_for == ProfileFor::CustomBuild {
        match toml.build_override {
            Some(b) => seq![*b],
            None => Seq::<TomlProfile>::empty(),
        }
    } else {
        Seq::<TomlProfile>::empty()
    }));
    match &toml.overrides {
        Some(ov) => {
            if !is_member {
                match find_all_override(ov) {
                    Some(i) => {
                        merge_profile(profile, &ov[i].1);
                        proof {
                            lemma_first_all_unique(ov@, i as int);
                            lemma_merge_all_push(p0, ls, ov@[i as int].1);
                            ls = ls.push(ov@[i as int].1);
                        }
                    },
                    None => {
                        assert(!exists|k: int| first_all(ov@, k));
                    },
                }
            }
            let ghost ls2 = ls;
            assert(ls2 =~= ls1 + (if !is_member {
                opt_layer(all_override(ov@))
            } else {
                Seq::<TomlProfile>::empty()
            }));
            match pkg_id {
                Some(id) => {
                    match find_pkg_override(ov, id) {
                        Some(i) => {
                            merge_profile(profile, &ov[i].1);
                            proof {
                                let k = choose|k: int| 0 <= k < ov@.len() && #[trigger] key_matches(ov@[k].0, id@);
                                assert(k == i);
                                lemma_merge_all_push(p0, ls, ov@[i as int].1);
                                ls = ls.push(ov@[i as int].1);
                            }
                        },
                        None => {},
                    }
                    assert(ls =~= ls2 + opt_layer(pkg_override(ov@, id@)));
                },
                None => {},
            }
            assert(ls =~= toml_layers(pkg_view(pkg_id), is_member, profile_for, *toml));
        },
        None => {
            assert(ls =~= toml_layers(pkg_view(pkg_id), is_member, profile_for, *toml));
        },
    }
}

/// The purpose of a unit, which selects some profile settings.
#[derive(Clone, Copy, Debug, PartialEq, Eq, Structural, Hash)]
pub enum ProfileFor {
    /// A general-purpose target.
    Any,
    /// A build script or one of its dependencies: `build-override`
    /// applies.
    CustomBuild,
    /// A dependency of a test or benchmark: `panic` is not set.
    TestDependency,
}

impl ProfileFor {
    /// Every purpose, in declaration order.
    pub fn all_values() -> (r: Vec<ProfileFor>)
        ensures
            r@ == seq![ProfileFor::Any, ProfileFor::CustomBuild, ProfileFor::TestDependency],
    {
        let mut v = Vec::new();
        v.push(ProfileFor::Any);
        v.push(ProfileFor::CustomBuild);
        v.push(ProfileFor::TestDependency);
        v
    }
}

/// One profile with its tables: the built-in settings, the table of the
/// manifest and the table of the configuration, applied in that order.
#[derive(Debug)]
pub struct ProfileMaker {
    /// The built-in settings.
    pub default: Profile,
    /// The table of the manifest.
    pub toml: Option<TomlProfile>,
    /// The table of the configuration.
    pub config: Option<TomlProfile>,
}

/// The layers an optional table applies.
pub open spec fn opt_toml_layers(
    pkg: Option<PackageIdView>,
    is_member: bool,
    profile_for: ProfileFor,
    t: Option<TomlProfile>,
) -> Seq<TomlProfile> {
    match t {
        Some(x) => toml_layers(pkg, is_member, profile_for, x),
        None => Seq::empty(),
    }
}

/// Every layer a profile applies, in order: those of the manifest, then
/// those of the configuration.
pub open spec fn maker_layers(
    m: ProfileMaker,
    pkg: Option<PackageIdView>,
    is_member: bool,
    profile_for: ProfileFor,
) -> Seq<TomlProfile> {
    opt_toml_layers(pkg, is_member, profile_for, m.toml) + opt_toml_layers(
        pkg,
        is_member,
        profile_for,
        m.config,
    )
}

/// Whether both tables of a profile can be applied for the package.
pub open spec fn maker_ok(m: ProfileMaker, pkg: Option<PackageIdView>) -> bool {
    &&& (m.toml matches Some(t) ==> overrides_ok(t, pkg))
    &&& (m.config matches Some(t) ==> overrides_ok(t, pkg))
}

/// The profile a maker gives.
pub open spec fn maker_profile(
    m: ProfileMaker,
    pkg: Option<PackageIdView>,
    is_member: bool,
    profile_for: ProfileFor,
) -> ProfileView {
    merge_all(m.default@, maker_layers(m, pkg, is_member, profile_for))
}

impl ProfileMaker {
    /// The profile of a unit of the package (`None`: no particular
    /// package): the built-in settings with every layer applied.
    pub fn get_profile(&self, pkg_id: Option<&PackageId>, is_member: bool, profile_for: ProfileFor) -> (r: Profile)
        requires
            maker_ok(*self, pkg_view(pkg_id)),
        ensures
            r@ == maker_profile(*self, pkg_view(pkg_id), is_member, profile_for),
    {
        let mut profile = self.default.duplicate();
        let ghost a = opt_toml_layers(pkg_view(pkg_id), is_member, profile_for, self.toml);
        let ghost b = opt_toml_layers(pkg_view(pkg_id), is_member, profile_for, self.config);
        match &self.toml {
            Some(toml) => {
                merge_toml(pkg_id, is_member, profile_for, &mut profile, toml);
            },
            None => {},
        }
        assert(profile@ == merge_all(self.default@, a));
        let ghost mid = profile@;
        match &self.config {
            Some(toml) => {
                merge_toml(pkg_id, is_member, profile_for, &mut profile, toml);
            },
            None => {},
        }
        assert(profile@ == merge_all(mid, b));
        proof {
            lemma_merge_all_concat(self.default@, a, b);
        }
        profile
    }
}

/// The profiles of a workspace.
#[derive(Debug)]
pub struct Profiles {
    pub dev: ProfileMaker,
    pub release: ProfileMaker,
    pub test: ProfileMaker,
    pub bench: ProfileMaker,
    pub doc: ProfileMaker,
}

/// The profile that a mode uses, in release mode or not.
pub open spec fn maker_for(p: Profiles, mode: CompileMode, release: bool) -> ProfileMaker {
    match mode {
        CompileMode::Test => if release {
            p.bench
        } else {
            p.test
        },
        CompileMode::Build | CompileMode::Check { .. } | CompileMode::Doctest
        | CompileMode::RunCustomBuild => if release {
            p.release
        } else {
            p.dev
        },
        CompileMode::Bench => p.bench,
        CompileMode::Doc { .. } | CompileMode::Docscrape => p.doc,
    }
}

/// The profile of a unit: that of its profile, without a `panic` setting
/// for tests, benchmarks and their dependencies.
pub open spec fn unit_profile(
    p: Profiles,
    pkg: PackageIdView,
    is_member: bool,
    profile_for: ProfileFor,
    mode: CompileMode,
    release: bool,
) -> ProfileView {
    let q = maker_profile(maker_for(p, mode, release), Some(pkg), is_member, profile_for);
    if profile_for == ProfileFor::TestDependency || any_test(mode) {
        ProfileView { panic: None, ..q }
    } else {
        q
    }
}

impl Profiles {
    /// The profiles from the tables of the manifest and the `dev` and
    /// `release` tables of the configuration.
    pub fn new(
        profiles: Option<TomlProfiles>,
        config_dev: Option<TomlProfile>,
        config_release: Option<TomlProfile>,
    ) -> (r: Profiles)
        ensures
            r.dev.default@ == dev_view(),
            r.release.default@ == release_view(),
            r.test.default@ == (ProfileView { name: "test"@, ..dev_view() }),
            r.bench.default@ == (ProfileView { name: "bench"@, ..release_view() }),
            r.doc.default@ == (ProfileView { name: "doc"@, ..dev_view() }),
            r.dev.config == config_dev,
            r.release.config == config_release,
            r.test.config is None,
            r.bench.config is None,
            r.doc.config is None,
            match profiles {
                Some(t) => r.dev.toml == t.dev && r.release.toml == t.release && r.test.toml == t.test
                    && r.bench.toml == t.bench && r.doc.toml == t.doc,
                None => r.dev.toml is None && r.release.toml is None && r.test.toml is None
                    && r.bench.toml is None && r.doc.toml is None,
            },
    {
        let (dev, release, test, bench, doc) = match profiles {
            Some(t) => (t.dev, t.release, t.test, t.bench, t.doc),
            None => (None, None, None, None, None),
        };
        Profiles {
            dev: ProfileMaker { default: Profile::default_dev(), toml: dev, config: config_dev },
            release: ProfileMaker {
                default: Profile::default_release(),
                toml: release,
                config: config_release,
            },
            test: ProfileMaker { default: Profile::default_test(), toml: test, config: None },
            bench: ProfileMaker { default: Profile::default_bench(), toml: bench, config: None },
            doc: ProfileMaker { default: Profile::default_doc(), toml: doc, config: None },
        }
    }

    /// The profile of a unit of the package in the given mode.
    pub fn get_profile(
        &self,
        pkg_id: &PackageId,
        is_member: bool,
        profile_for: ProfileFor,
        mode: CompileMode,
        release: bool,
    ) -> (r: Profile)
        requires
            maker_ok(maker_for(*self, mode, release), Some(pkg_id@)),
        ensures
            r@ == unit_profile(*self, pkg_id@, is_member, profile_for, mode, release),
    {
        let maker = match mode {
            CompileMode::Test => if release {
                &self.bench
            } else {
                &self.test
            },
            CompileMode::Build | CompileMode::Check { .. } | CompileMode::Doctest
            | CompileMode::RunCustomBuild => if release {
                &self.release
            } else {
                &self.dev
            },
            CompileMode::Bench => &self.bench,
            CompileMode::Doc { .. } | CompileMode::Docscrape => &self.doc,
        };
        let mut profile = maker.get_profile(Some(pkg_id), is_member, profile_for);
        if profile_for == ProfileFor::TestDependency || mode.is_any_test() {
            profile.panic = None;
        }
        profile
    }

    /// The stripped-down profile of running a build script: only the debug
    /// info and the optimization level of the profile of the unit it
    /// builds for are kept.
    pub fn get_profile_run_custom_build(&self, for_unit_profile: &Profile) -> (r: Profile)
        ensures
            r@ == (ProfileView {
                debuginfo: for_unit_profile@.debuginfo,
                opt_level: for_unit_profile@.opt_level,
                ..default_view()
            }),
    {
        let mut result = Profile::default();
        result.debuginfo = for_unit_profile.debuginfo;
        result.opt_level = string_from(for_unit_profile.opt_level.as_str());
        result
    }

    /// The generic profile of a build, for no particular package: that of
    /// `release` or of `dev`, for a workspace member.
    pub fn base_profile(&self, release: bool) -> (r: Profile)
        ensures
            r@ == maker_profile(
                if release {
                    self.release
                } else {
                    self.dev
                },
                None,
                true,
                ProfileFor::Any,
            ),
    {
        if release {
            self.release.get_profile(None, true, ProfileFor::Any)
        } else {
            self.dev.get_profile(None, true, ProfileFor::Any)
        }
    }
}

/// A layer that sets the optimization level decides it, unless a later
/// layer sets it again.
pub proof fn lemma_last_opt_level_wins(p: ProfileView, ls: Seq<TomlProfile>, k: int)
    requires
        0 <= k < ls.len(),
        ls[k].opt_level is Some,
        forall|j: int| k < j < ls.len() ==> (#[trigger] ls[j]).opt_level is None,
    ensures
        merge_all(p, ls).opt_level == ls[k].opt_level.unwrap()@,
    decreases ls.len(),
{
    if k < ls.len() - 1 {
        let d = ls.drop_last();
        assert forall|j: int| k < j < d.len() implies (#[trigger] d[j]).opt_level is None by {
            assert(d[j] == ls[j]);
        }
        lemma_last_opt_level_wins(p, d, k);
        assert(ls[ls.len() - 1].opt_level is None);
    }
}

/// When no layer sets the optimization level, the starting one stays.
pub proof fn lemma_unset_opt_level_kept(p: ProfileView, ls: Seq<TomlProfile>)
    requires
        forall|j: int| 0 <= j < ls.len() ==> (#[trigger] ls[j]).opt_level is None,
    ensures
        merge_all(p, ls).opt_level == p.opt_level,
    decreases ls.len(),
{
    if ls.len() > 0 {
        let d = ls.drop_last();
        assert forall|j: int| 0 <= j < d.len() implies (#[trigger] d[j]).opt_level is None by {
            assert(d[j] == ls[j]);
        }
        lemma_unset_opt_level_kept(p, d);
        assert(ls[ls.len() - 1].opt_level is None);
    }
}

/// A layer that sets the `panic` strategy decides it, unless a later layer
/// sets it again.
pub proof fn lemma_last_panic_wins(p: ProfileView, ls: Seq<TomlProfile>, k: int)
    requires
        0 <= k < ls.len(),
        ls[k].panic is Some,
        forall|j: int| k < j < ls.len() ==> (#[trigger] ls[j]).panic is None,
    ensures
        merge_all(p, ls).panic == Some(ls[k].panic.unwrap()@),
    decreases ls.len(),
{
    if k < ls.len() - 1 {
        let d = ls.drop_last();
        assert forall|j: int| k < j < d.len() implies (#[trigger] d[j]).panic is None by {
            assert(d[j] == ls[j]);
        }
        lemma_last_panic_wins(p, d, k);
        assert(ls[ls.len() - 1].panic is None);
    }
}

/// Whether a table sets none of the profile settings.
pub open spec fn sets_nothing(t: TomlProfile) -> bool {
    &&& t.opt_level is None
    &&& t.lto is None
    &&& t.codegen_units is None
    &&& t.debug is None
    &&& t.debug_assertions is None
    &&& t.rpath is None
    &&& t.panic is None
    &&& t.overflow_checks is None
    &&& t.incremental is None
}

/// Merging a table that sets nothing leaves the profile as it was.
pub proof fn lemma_merge_nothing(p: ProfileView, t: TomlProfile)
    requires
        sets_nothing(t),
    ensures
        merge_spec(p, t) == p,
{
}

/// Merging the same table twice gives what merging it once gives.
pub proof fn lemma_merge_idempotent(p: ProfileView, t: TomlProfile)
    ensures
        merge_spec(merge_spec(p, t), t) == merge_spec(p, t),
{
}

/// The configuration takes precedence over the manifest: when the
/// configuration's table sets the optimization level and none of the
/// layers it selects after itself does, its setting is the one of the
/// profile, whatever the manifest says.
pub proof fn lemma_config_opt_level_wins(
    m: ProfileMaker,
    pkg: Option<PackageIdView>,
    is_member: bool,
    profile_for: ProfileFor,
)
    requires
        m.config matches Some(c) && c.opt_level is Some,
        forall|j: int|
            1 <= j < toml_layers(pkg, is_member, profile_for, m.config.unwrap()).len() ==> (
            #[trigger] toml_layers(pkg, is_member, profile_for, m.config.unwrap())[j]).opt_level is None,
    ensures
        maker_profile(m, pkg, is_member, profile_for).opt_level == m.config.unwrap().opt_level.unwrap()@,
{
    let a = opt_toml_layers(pkg, is_member, profile_for, m.toml);
    let b = toml_layers(pkg, is_member, profile_for, m.config.unwrap());
    let ls = maker_layers(m, pkg, is_member, profile_for);
    assert(ls == a + b);
    assert(b[0] == m.config.unwrap());
    assert(ls[a.len() as int] == b[0]);
    assert forall|j: int| a.len() < j < ls.len() implies (#[trigger] ls[j]).opt_level is None by {
        assert(ls[j] == b[j - a.len()]);
    }
    lemma_last_opt_level_wins(m.default@, ls, a.len() as int);
}

/// Tests, benchmarks and their dependencies never get a `panic` setting.
pub proof fn lemma_no_panic_for_tests(
    p: Profiles,
    pkg: PackageIdView,
    is_member: bool,
    profile_for: ProfileFor,
    mode: CompileMode,
    release: bool,
)
    requires
        profile_for == ProfileFor::TestDependency || any_test(mode),
    ensures
        unit_profile(p, pkg, is_member, profile_for, mode, release).panic is None,
{
}

/// The indices below `n` that satisfy `pred`, in increasing order.
pub open spec fn indices_where(n: nat, pred: spec_fn(int) -> bool) -> Seq<usize>
    decreases n,
{
    if n == 0 {
        Seq::empty()
    } else {
        indices_where((n - 1) as nat, pred) + if pred(n - 1) {
            seq![(n - 1) as usize]
        } else {
            Seq::empty()
        }
    }
}

/// What `indices_where` holds: exactly the indices below `n` that satisfy
/// the predicate.
pub proof fn lemma_indices_where(n: nat, pred: spec_fn(int) -> bool)
    requires
        n <= usize::MAX + 1,
    ensures
        forall|k: int| 0 <= k < indices_where(n, pred).len() ==> {
            let i = #[trigger] indices_where(n, pred)[k];
            i < n && pred(i as int)
        },
        forall|i: int| 0 <= i < n && pred(i) ==> #[trigger] indices_where(n, pred).contains(i as usize),
        indices_where(n, pred).len() <= n,
    decreases n,
{
    if n > 0 {
        lemma_indices_where((n - 1) as nat, pred);
        let a = indices_where((n - 1) as nat, pred);
        let w = indices_where(n, pred);
        assert forall|k: int| 0 <= k < w.len() implies {
            let i = #[trigger] w[k];
            i < n && pred(i as int)
        } by {
            if k < a.len() {
                assert(w[k] == a[k]);
            }
        }
        assert forall|i: int| 0 <= i < n && pred(i) implies #[trigger] w.contains(i as usize) by {
            if i < n - 1 {
                assert(a.contains(i as usize));
                let k = choose|k: int| 0 <= k < a.len() && a[k] == i as usize;
                assert(w[k] == a[k]);
            } else {
                assert(w[a.len() as int] == (n - 1) as usize);
            }
        }
    }
}

/// Two predicates that agree below `n` select the same indices.
pub proof fn lemma_indices_where_ext(n: nat, f: spec_fn(int) -> bool, g: spec_fn(int) -> bool)
    requires
        forall|i: int| 0 <= i < n ==> #[trigger] f(i) == g(i),
    ensures
        indices_where(n, f) == indices_where(n, g),
    decreases n,
{
    if n > 0 {
        lemma_indices_where_ext((n - 1) as nat, f, g);
        assert(f(n - 1) == g(n - 1));
    }
}

/// The indices of the overrides that select the package.
pub open spec fn matching_overrides_spec(ov: Seq<(ProfilePackageSpec, TomlProfile)>, id: PackageIdView) -> Seq<usize> {
    indices_where(ov.len(), |i: int| key_matches(ov[i].0, id))
}

/// When at most one index of the overrides selects the package, the
/// overrides can be applied for it.
pub proof fn lemma_single_match_unique(ov: Seq<(ProfilePackageSpec, TomlProfile)>, id: PackageIdView)
    requires
        ov.len() <= usize::MAX,
        matching_overrides_spec(ov, id).len() <= 1,
    ensures
        unique_match(ov, id),
{
    let pred = |i: int| key_matches(ov[i].0, id);
    lemma_indices_where(ov.len(), pred);
    let w = indices_where(ov.len(), pred);
    assert forall|i: int, j: int|
        0 <= i < ov.len() && 0 <= j < ov.len() && #[trigger] key_matches(ov[i].0, id)
            && #[trigger] key_matches(ov[j].0, id) implies i == j by {
        assert(pred(i));
        assert(pred(j));
        assert(w.contains(i as usize));
        assert(w.contains(j as usize));
        let a = choose|a: int| 0 <= a < w.len() && w[a] == i as usize;
        let b = choose|b: int| 0 <= b < w.len() && w[b] == j as usize;
        assert(a == 0 && b == 0);
    }
}

/// The indices of the overrides that select the package.
fn matching_overrides(ov: &Vec<(ProfilePackageSpec, TomlProfile)>, id: &PackageId) -> (r: Vec<usize>)
    ensures
        r@ == matching_overrides_spec(ov@, id@),
{
    let mut r: Vec<usize> = Vec::new();
    let mut i: usize = 0;
    while i < ov.len()
        invariant
            i <= ov@.len(),
            r@ == indices_where(i as nat, |i: int| key_matches(ov@[i].0, id@)),
        decreases ov.len() - i,
    {
        let m = match &ov[i].0 {
            ProfilePackageSpec::Spec(s) => s.matches(id),
            ProfilePackageSpec::All => false,
        };
        assert(m == key_matches(ov@[i as int].0, id@));
        if m {
            r.push(i);
        }
        i = i + 1;
        assert(r@ =~= indices_where(i as nat, |i: int| key_matches(ov@[i].0, id@)));
    }
    r
}

/// The indices of the packages with the given name.
fn packages_named(packages: &[PackageId], name: &String) -> (r: Vec<usize>)
    ensures
        r@ == indices_where(packages@.len(), |q: int| packages@[q]@.name == name@),
{
    let mut r: Vec<usize> = Vec::new();
    let mut i: usize = 0;
    while i < packages.len()
        invariant
            i <= packages@.len(),
            r@ == indices_where(i as nat, |q: int| packages@[q]@.name == name@),
        decreases packages.len() - i,
    {
        if packages[i].name.eq(name) {
            r.push(i);
        }
        i = i + 1;
        assert(r@ =~= indices_where(i as nat, |q: int| packages@[q]@.name == name@));
    }
    r
}

/// Why the overrides of a profile cannot be applied to a set of packages.
#[derive(Debug)]
pub enum OverrideError {
    /// The package at index `package` is selected by the overrides at the
    /// indices `specs` (two or more, in order).
    MultipleOverrides { package: usize, specs: Vec<usize> },
}

/// An override that selects no package: its index, and the indices of the
/// packages with the name it gives (only their version or URL differ).
#[derive(Debug)]
pub struct UnmatchedOverride {
    pub spec: usize,
    pub same_name: Vec<usize>,
}

/// Whether the override at index `i` names a package that none of the
/// packages matches.
pub open spec fn unmatched(ov: Seq<(ProfilePackageSpec, TomlProfile)>, pkgs: Seq<PackageIdView>, i: int) -> bool {
    match ov[i].0 {
        ProfilePackageSpec::Spec(s) => forall|q: int| 0 <= q < pkgs.len() ==> !spec_matches(s@, #[trigger] pkgs[q]),
        ProfilePackageSpec::All => false,
    }
}

/// The report on an unmatched override: its index and the packages with
/// its name.
pub open spec fn unmatched_report(ov: Seq<(ProfilePackageSpec, TomlProfile)>, pkgs: Seq<PackageIdView>, i: usize) -> (usize, Seq<usize>) {
    let name = match ov[i as int].0 {
        ProfilePackageSpec::Spec(s) => s@.name,
        ProfilePackageSpec::All => Seq::empty(),
    };
    (i, indices_where(pkgs.len(), |q: int| pkgs[q].name == name))
}

/// The views of the package ids.
pub open spec fn ids_view(ids: Seq<PackageId>) -> Seq<PackageIdView> {
    ids.map_values(|p: PackageId| p@)
}

/// Whether the package at index `p` is the first one selected by several
/// overrides.
pub open spec fn is_first_multi(ov: Seq<(ProfilePackageSpec, TomlProfile)>, pkgs: Seq<PackageIdView>, p: int) -> bool {
    &&& 0 <= p < pkgs.len()
    &&& matching_overrides_spec(ov, pkgs[p]).len() >= 2
    &&& forall|q: int| 0 <= q < p ==> #[trigger] matching_overrides_spec(ov, pkgs[q]).len() <= 1
}

/// What `check_overrides` gives: the first package selected by several
/// overrides with those overrides, or else the reports on the overrides
/// that select no package, in order.
pub open spec fn check_result(ov: Seq<(ProfilePackageSpec, TomlProfile)>, pkgs: Seq<PackageIdView>) -> Result<Seq<(usize, Seq<usize>)>, (usize, Seq<usize>)> {
    if exists|p: int| is_first_multi(ov, pkgs, p) {
        let p = choose|p: int| is_first_multi(ov, pkgs, p);
        Err((p as usize, matching_overrides_spec(ov, pkgs[p])))
    } else {
        Ok(indices_where(ov.len(), |i: int| unmatched(ov, pkgs, i)).map_values(
            |i: usize| unmatched_report(ov, pkgs, i),
        ))
    }
}

/// The view of the outcome of `check_overrides`.
pub open spec fn check_view(r: Result<Vec<UnmatchedOverride>, OverrideError>) -> Result<Seq<(usize, Seq<usize>)>, (usize, Seq<usize>)> {
    match r {
        Ok(v) => Ok(v@.map_values(|u: UnmatchedOverride| (u.spec, u.same_name@))),
        Err(OverrideError::MultipleOverrides { package, specs }) => Err((package, specs@)),
    }
}

/// Checks the overrides of a profile against the packages being built:
/// no package may be selected by two overrides, and the overrides that
/// select no package are reported.
pub fn check_overrides(ov: &Vec<(ProfilePackageSpec, TomlProfile)>, packages: &[PackageId]) -> (r: Result<Vec<UnmatchedOverride>, OverrideError>)
    ensures
        check_view(r) == check_result(ov@, ids_view(packages@)),
{
    let ghost pkgs = ids_view(packages@);
    let mut q: usize = 0;
    while q < packages.len()
        invariant
            q <= packages@.len(),
            pkgs == ids_view(packages@),
            forall|k: int| 0 <= k < q ==> #[trigger] matching_overrides_spec(ov@, pkgs[k]).len() <= 1,
        decreases packages.len() - q,
    {
        let m = matching_overrides(ov, &packages[q]);
        assert(pkgs[q as int] == packages@[q as int]@);
        if m.len() >= 2 {
            proof {
                assert(is_first_multi(ov@, pkgs, q as int));
                let k = choose|k: int| is_first_multi(ov@, pkgs, k);
                if k < q {
                    assert(matching_overrides_spec(ov@, pkgs[k]).len() <= 1);
                } else if k > q {
                    assert(matching_overrides_spec(ov@, pkgs[q as int]).len() <= 1);
                }
            }
            return Err(OverrideError::MultipleOverrides { package: q, specs: m });
        }
        q = q + 1;
    }
    let mut reports: Vec<UnmatchedOverride> = Vec::new();
    let mut i: usize = 0;
    while i < ov.len()
        invariant
            i <= ov@.len(),
            pkgs == ids_view(packages@),
            reports@.map_values(|u: UnmatchedOverride| (u.spec, u.same_name@)) == indices_where(i as nat, |i: int| unmatched(ov@, pkgs, i)).map_values(
                |k: usize| unmatched_report(ov@, pkgs, k),
            ),
        decreases ov.len() - i,
    {
        match &ov[i].0 {
            ProfilePackageSpec::Spec(s) => {
                let mut hit = false;
                let mut k: usize = 0;
                while k < packages.len()
                    invariant
                        k <= packages@.len(),
                        pkgs == ids_view(packages@),
                        hit == exists|j: int| 0 <= j < k && spec_matches(s@, #[trigger] pkgs[j]),
                    decreases packages.len() - k,
                {
                    assert(pkgs[k as int] == packages@[k as int]@);
                    if s.matches(&packages[k]) {
                        hit = true;
                    }
                    k = k + 1;
                }
                assert(unmatched(ov@, pkgs, i as int) == !hit);
                if !hit {
                    let name = string_from(s.name());
                    let same = packages_named(packages, &name);
                    proof {
                        lemma_indices_where_ext(
                            packages@.len(),
                            |q: int| packages@[q]@.name == s@.name,
                            |q: int| pkgs[q].name == s@.name,
                        );
                    }
                    let ghost before = reports@;
                    reports.push(UnmatchedOverride { spec: i, same_name: same });
                    assert(reports@.map_values(|u: UnmatchedOverride| (u.spec, u.same_name@)) =~= before.map_values(
                        |u: UnmatchedOverride| (u.spec, u.same_name@)).push(unmatched_report(ov@, pkgs, i)));
                }
            },
            ProfilePackageSpec::All => {
                assert(!unmatched(ov@, pkgs, i as int));
            },
        }
        i = i + 1;
        assert(indices_where(i as nat, |i: int| unmatched(ov@, pkgs, i)).map_values(|k: usize| unmatched_report(ov@, pkgs, k)) =~= indices_where(
            (i - 1) as nat, |i: int| unmatched(ov@, pkgs, i)).map_values(|k: usize| unmatched_report(ov@, pkgs, k)) + if unmatched(ov@, pkgs, i - 1) {
            seq![unmatched_report(ov@, pkgs, (i - 1) as usize)]
        } else {
            Seq::empty()
        });
    }
    assert(!exists|p: int| is_first_multi(ov@, pkgs, p));
    Ok(reports)
}

/// What checking one optional table gives.
pub open spec fn table_check(t: Option<TomlProfile>, pkgs: Seq<PackageIdView>) -> Result<Seq<(usize, Seq<usize>)>, (usize, Seq<usize>)> {
    match t {
        Some(x) => match x.overrides {
            Some(ov) => check_result(ov@, pkgs),
            None => Ok(Seq::empty()),
        },
        None => Ok(Seq::empty()),
    }
}

/// What checking both tables of a profile gives: the first error, or else
/// the reports on the manifest's unmatched overrides (those of the
/// configuration are not reported).
pub open spec fn validate_result(m: ProfileMaker, pkgs: Seq<PackageIdView>) -> Result<Seq<(usize, Seq<usize>)>, (usize, Seq<usize>)> {
    match table_check(m.toml, pkgs) {
        Err(e) => Err(e),
        Ok(w) => match table_check(m.config, pkgs) {
            Err(e) => Err(e),
            Ok(_) => Ok(w),
        },
    }
}

/// Checks one optional table against the packages.
fn check_table(t: &Option<TomlProfile>, packages: &[PackageId]) -> (r: Result<Vec<UnmatchedOverride>, OverrideError>)
    ensures
        check_view(r) == table_check(*t, ids_view(packages@)),
{
    match t {
        Some(x) => match &x.overrides {
            Some(ov) => check_overrides(ov, packages),
            None => {
                let v: Vec<UnmatchedOverride> = Vec::new();
                assert(v@.map_values(|u: UnmatchedOverride| (u.spec, u.same_name@)) =~= Seq::empty());
                Ok(v)
            },
        },
        None => {
            let v: Vec<UnmatchedOverride> = Vec::new();
            assert(v@.map_values(|u: UnmatchedOverride| (u.spec, u.same_name@)) =~= Seq::empty());
            Ok(v)
        },
    }
}

impl ProfileMaker {
    /// Checks the overrides of both tables against the packages being
    /// built; the manifest's overrides that select no package are
    /// reported.
    pub fn validate_packages(&self, packages: &[PackageId]) -> (r: Result<Vec<UnmatchedOverride>, OverrideError>)
        ensures
            check_view(r) == validate_result(*self, ids_view(packages@)),
    {
        let w = check_table(&self.toml, packages);
        match w {
            Err(e) => Err(e),
            Ok(w) => {
                let c = check_table(&self.config, packages);
                match c {
                    Err(e) => Err(e),
                    Ok(_) => Ok(w),
                }
            },
        }
    }
}

/// After a successful check of a table, every package's overrides select
/// it at most once.
proof fn lemma_check_ok_unique(t: Option<TomlProfile>, pkgs: Seq<PackageIdView>, q: int)
    requires
        table_check(t, pkgs) is Ok,
        0 <= q < pkgs.len(),
        t matches Some(x) && x.overrides matches Some(ov) ==> ov@.len() <= usize::MAX,
    ensures
        t matches Some(x) ==> overrides_ok(x, Some(pkgs[q])),
{
    if let Some(x) = t {
        if let Some(ov) = x.overrides {
            if matching_overrides_spec(ov@, pkgs[q]).len() > 1 {
                lemma_least_multi(ov@, pkgs, q);
                assert(exists|p: int| is_first_multi(ov@, pkgs, p));
            }
            lemma_single_match_unique(ov@, pkgs[q]);
        }
    }
}

/// Below a package selected by several overrides there is a first one.
proof fn lemma_least_multi(ov: Seq<(ProfilePackageSpec, TomlProfile)>, pkgs: Seq<PackageIdView>, q: int)
    requires
        0 <= q < pkgs.len(),
        matching_overrides_spec(ov, pkgs[q]).len() >= 2,
    ensures
        exists|p: int| is_first_multi(ov, pkgs, p),
    decreases q,
{
    if forall|r: int| 0 <= r < q ==> #[trigger] matching_overrides_spec(ov, pkgs[r]).len() <= 1 {
        assert(is_first_multi(ov, pkgs, q));
    } else {
        let r = choose|r: int| 0 <= r < q && !(#[trigger] matching_overrides_spec(ov, pkgs[r]).len() <= 1);
        lemma_least_multi(ov, pkgs, r);
    }
}

/// A profile whose tables pass the check against the packages can be
/// applied to each of them: no package is selected by two overrides.
pub proof fn lemma_validated_maker_applies(m: ProfileMaker, pkgs: Seq<PackageIdView>, q: int)
    requires
        validate_result(m, pkgs) is Ok,
        0 <= q < pkgs.len(),
        m.toml matches Some(x) && x.overrides matches Some(ov) ==> ov@.len() <= usize::MAX,
        m.config matches Some(x) && x.overrides matches Some(ov) ==> ov@.len() <= usize::MAX,
    ensures
        maker_ok(m, Some(pkgs[q])),
{
    lemma_check_ok_unique(m.toml, pkgs, q);
    lemma_check_ok_unique(m.config, pkgs, q);
}

/// The keys a profile table may hold.
pub open spec fn profile_keys() -> Seq<Seq<char>> {
    seq![
        "opt-level"@,
        "lto"@,
        "codegen-units"@,
        "debug"@,
        "debug-assertions"@,
        "rpath"@,
        "panic"@,
        "overflow-checks"@,
        "incremental"@,
        "overrides"@,
        "build-override"@,
    ]
}

/// A profile table of the configuration files as the checks read it: its
/// keys, each with where it was defined; its `build-override` table, when
/// that is a table; and, for each entry of its `overrides` table, that
/// entry's table, when it is one.
#[derive(Debug)]
pub struct ConfigProfileTable {
    pub keys: Vec<(String, String)>,
    pub build_override: Option<Vec<(String, String)>>,
    pub overrides: Vec<Option<Vec<(String, String)>>>,
}

/// A profile of the configuration files: its name, where it was defined,
/// and its table (none when the value is not a table).
#[derive(Debug)]
pub struct ConfigProfile {
    pub name: String,
    pub definition: String,
    pub table: Option<ConfigProfileTable>,
}

/// The views of keys with where they were defined.
pub open spec fn keys_view(v: Seq<(String, String)>) -> Seq<(Seq<char>, Seq<char>)> {
    v.map_values(|k: (String, String)| (k.0@, k.1@))
}

/// The warnings for the first `n` keys that a profile table may not
/// hold.
pub open spec fn key_warnings(keys: Seq<(Seq<char>, Seq<char>)>, n: nat) -> Seq<Seq<char>>
    decreases n,
{
    if n == 0 {
        Seq::empty()
    } else {
        let prev = key_warnings(keys, (n - 1) as nat);
        let k = keys[n - 1];
        if profile_keys().contains(k.0) {
            prev
        } else {
            prev.push("unused profile key `"@ + k.0 + "` in config `"@ + k.1 + "`"@)
        }
    }
}

/// All warnings for the keys (see `key_warnings`).
pub open spec fn keys_warnings(keys: Seq<(Seq<char>, Seq<char>)>) -> Seq<Seq<char>> {
    key_warnings(keys, keys.len())
}

/// The warnings for the tables of the first `n` overrides.
pub open spec fn override_warnings(os: Seq<Option<Vec<(String, String)>>>, n: nat) -> Seq<Seq<char>>
    decreases n,
{
    if n == 0 {
        Seq::empty()
    } else {
        override_warnings(os, (n - 1) as nat) + match os[n - 1] {
            Some(t) => keys_warnings(keys_view(t@)),
            None => Seq::empty(),
        }
    }
}

/// The warnings for a profile table: its own keys, then those of its
/// `build-override` table, then those of its overrides.
pub open spec fn table_warnings(t: ConfigProfileTable) -> Seq<Seq<char>> {
    keys_warnings(keys_view(t.keys@)) + (match t.build_override {
        Some(b) => keys_warnings(keys_view(b@)),
        None => Seq::empty(),
    }) + override_warnings(t.overrides@, t.overrides@.len())
}

/// The warnings for the names of the first `n` profiles: only `dev` and
/// `release` are supported.
pub open spec fn name_warnings(ps: Seq<ConfigProfile>, n: nat) -> Seq<Seq<char>>
    decreases n,
{
    if n == 0 {
        Seq::empty()
    } else {
        let prev = name_warnings(ps, (n - 1) as nat);
        let p = ps[n - 1];
        if p.name@ == "dev"@ || p.name@ == "release"@ {
            prev
        } else {
            prev.push("profile `"@ + p.name@ + "` in config `"@ + p.definition@ + "` is not supported"@)
        }
    }
}

/// The warnings for the tables of the first `n` profiles.
pub open spec fn tables_warnings(ps: Seq<ConfigProfile>, n: nat) -> Seq<Seq<char>>
    decreases n,
{
    if n == 0 {
        Seq::empty()
    } else {
        tables_warnings(ps, (n - 1) as nat) + match ps[n - 1].table {
            Some(t) => table_warnings(t),
            None => Seq::empty(),
        }
    }
}

/// The warnings for the profiles of the configuration files (their table
/// defined at `definition`): without the option that enables them, one
/// that says so; otherwise one for each profile other than `dev` and
/// `release`, then one for each key a profile table may not hold.
pub open spec fn config_warnings(definition: Seq<char>, ps: Seq<ConfigProfile>, enabled: bool) -> Seq<Seq<char>> {
    if !enabled {
        seq!["profile in config `"@ + definition + "` requires `-Z config-profile` command-line option"@]
    } else {
        name_warnings(ps, ps.len()) + tables_warnings(ps, ps.len())
    }
}

/// The warning text: the parts in order.
fn concat5(a: &str, b: &str, c: &str, d: &str, e: &str) -> (r: String)
    ensures
        r@ == a@ + b@ + c@ + d@ + e@,
{
    let mut v = chars_of(a);
    push_str(&mut v, b);
    push_str(&mut v, c);
    push_str(&mut v, d);
    push_str(&mut v, e);
    string_of(&v)
}

/// Whether a profile table may hold the key.
fn is_profile_key(k: &str) -> (r: bool)
    ensures
        r == profile_keys().contains(k@),
{
    let known = vec![
        "opt-level",
        "lto",
        "codegen-units",
        "debug",
        "debug-assertions",
        "rpath",
        "panic",
        "overflow-checks",
        "incremental",
        "overrides",
        "build-override",
    ];
    let ghost kv = known@.map_values(|s: &str| s@);
    assert(kv =~= profile_keys());
    let key = k.to_string();
    let mut i: usize = 0;
    while i < known.len()
        invariant
            i <= known@.len(),
            kv == known@.map_values(|s: &str| s@),
            kv == profile_keys(),
            key@ == k@,
            forall|j: int| 0 <= j < i ==> kv[j] != k@,
        decreases known.len() - i,
    {
        let other = known[i].to_string();
        if key.eq(&other) {
            assert(kv[i as int] == k@);
            return true;
        }
        i = i + 1;
    }
    false
}

/// Appends the warnings for the keys (see `keys_warnings`).
fn warn_keys(keys: &Vec<(String, String)>, warnings: &mut Vec<String>)
    ensures
        strs(final(warnings)@) == strs(old(warnings)@) + keys_warnings(keys_view(keys@)),
{
    let ghost kv = keys_view(keys@);
    let mut i: usize = 0;
    while i < keys.len()
        invariant
            i <= keys@.len(),
            kv == keys_view(keys@),
            strs(warnings@) == strs(old(warnings)@) + key_warnings(kv, i as nat),
        decreases keys.len() - i,
    {
        assert(kv[i as int] == (keys@[i as int].0@, keys@[i as int].1@));
        if !is_profile_key(keys[i].0.as_str()) {
            let ghost before = strs(warnings@);
            let w = concat5("unused profile key `", keys[i].0.as_str(), "` in config `", keys[i].1.as_str(), "`");
            warnings.push(w);
            assert(strs(warnings@) =~= before.push(w@));
        }
        i = i + 1;
    }
}

/// Appends the warnings for a profile table (see `table_warnings`).
fn warn_table(t: &ConfigProfileTable, warnings: &mut Vec<String>)
    ensures
        strs(final(warnings)@) == strs(old(warnings)@) + table_warnings(*t),
{
    warn_keys(&t.keys, warnings);
    let ghost w1 = strs(warnings@);
    match &t.build_override {
        Some(b) => {
            warn_keys(b, warnings);
        },
        None => {},
    }
    let ghost w2 = strs(warnings@);
    let mut i: usize = 0;
    while i < t.overrides.len()
        invariant
            i <= t.overrides@.len(),
            strs(warnings@) == w2 + override_warnings(t.overrides@, i as nat),
        decreases t.overrides.len() - i,
    {
        match &t.overrides[i] {
            Some(o) => {
                warn_keys(o, warnings);
            },
            None => {},
        }
        i = i + 1;
    }
    assert(strs(warnings@) =~= strs(old(warnings)@) + table_warnings(*t));
}

/// Checks the profiles of the configuration files (their table defined at
/// `definition`) and appends the warnings (see `config_warnings`);
/// `enabled` says whether the command line enables them.
pub fn validate_config(definition: &str, profiles: &Vec<ConfigProfile>, enabled: bool, warnings: &mut Vec<String>)
    ensures
        strs(final(warnings)@) == strs(old(warnings)@) + config_warnings(definition@, profiles@, enabled),
{
    if !enabled {
        let mut v = chars_of("profile in config `");
        push_str(&mut v, definition);
        push_str(&mut v, "` requires `-Z config-profile` command-line option");
        let w = string_of(&v);
        let ghost before = strs(warnings@);
        warnings.push(w);
        assert(strs(warnings@) =~= before + config_warnings(definition@, profiles@, enabled));
        return;
    }
    let ghost w0 = strs(warnings@);
    let mut i: usize = 0;
    while i < profiles.len()
        invariant
            i <= profiles@.len(),
            strs(warnings@) == w0 + name_warnings(profiles@, i as nat),
        decreases profiles.len() - i,
    {
        let p = &profiles[i];
        let dev = "dev".to_string();
        let release = "release".to_string();
        if !(p.name.eq(&dev) || p.name.eq(&release)) {
            let ghost before = strs(warnings@);
            let w = concat5("profile `", p.name.as_str(), "` in config `", p.definition.as_str(), "` is not supported");
            warnings.push(w);
            assert(strs(warnings@) =~= before.push(w@));
        }
        i = i + 1;
    }
    let ghost w1 = strs(warnings@);
    let mut j: usize = 0;
    while j < profiles.len()
        invariant
            j <= profiles@.len(),
            strs(warnings@) == w1 + tables_warnings(profiles@, j as nat),
        decreases profiles.len() - j,
    {
        match &profiles[j].table {
            Some(t) => {
                warn_table(t, warnings);
            },
            None => {},
        }
        j = j + 1;
    }
    assert(strs(warnings@) =~= w0 + config_warnings(definition@, profiles@, enabled));
}


/// A profile table decides each setting it gives and leaves every other
/// setting of the profile as it was; the profile keeps its name.
pub proof fn lemma_table_decides_its_settings(p: ProfileView, t: TomlProfile)
    ensures
        merge_spec(p, t).name == p.name,
        t.overflow_checks matches Some(b) ==> merge_spec(p, t).overflow_checks == b,
        t.overflow_checks is None ==> merge_spec(p, t).overflow_checks == p.overflow_checks,
        t.debug_assertions matches Some(b) ==> merge_spec(p, t).debug_assertions == b,
        t.debug_assertions is None ==> merge_spec(p, t).debug_assertions == p.debug_assertions,
        t.rpath matches Some(b) ==> merge_spec(p, t).rpath == b,
        t.rpath is None ==> merge_spec(p, t).rpath == p.rpath,
        t.incremental matches Some(b) ==> merge_spec(p, t).incremental == b,
        t.incremental is None ==> merge_spec(p, t).incremental == p.incremental,
        t.opt_level matches Some(o) ==> merge_spec(p, t).opt_level == o@,
        t.opt_level is None ==> merge_spec(p, t).opt_level == p.opt_level,
        t.codegen_units is Some ==> merge_spec(p, t).codegen_units == t.codegen_units,
        t.codegen_units is None ==> merge_spec(p, t).codegen_units == p.codegen_units,
        t.panic matches Some(s) ==> merge_spec(p, t).panic == Some(s@),
        t.panic is None ==> merge_spec(p, t).panic == p.panic,
        t.lto is None ==> merge_spec(p, t).lto == p.lto,
        t.lto matches Some(StringOrBool::Bool(b)) ==> merge_spec(p, t).lto == LtoView::Bool(b),
        t.debug is None ==> merge_spec(p, t).debuginfo == p.debuginfo,
        t.debug matches Some(U32OrBool::U32(d)) ==> merge_spec(p, t).debuginfo == Some(d),
{
}

/// Of two tables merged in turn, the later one decides each setting it
/// gives: the earlier table's overflow checks and debug assertions count
/// only where the later one is silent.
pub proof fn lemma_later_table_wins(p: ProfileView, t1: TomlProfile, t2: TomlProfile)
    ensures
        t2.overflow_checks matches Some(b) ==> merge_spec(merge_spec(p, t1), t2).overflow_checks == b,
        t2.overflow_checks is None ==> (t1.overflow_checks matches Some(b) ==> merge_spec(merge_spec(p, t1), t2).overflow_checks == b),
        t2.debug_assertions matches Some(b) ==> merge_spec(merge_spec(p, t1), t2).debug_assertions == b,
        t2.debug_assertions is None ==> (t1.debug_assertions matches Some(b) ==> merge_spec(merge_spec(p, t1), t2).debug_assertions == b),
{
}

} // verus!
