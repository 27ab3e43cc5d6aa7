//! What the compiler driver decides for a unit: the platform it is built
//! for, the arguments given to `rustc`, the runtime library search path,
//! and the check that a native library is linked only once.
use vstd::prelude::*;
use crate::compile_mode::{any_test, CompileMode};
use crate::package_id_spec::{same_package, PackageId, PackageIdView};
use crate::custom_build::{BuildOutputView, BuildScriptOutputs, BuildScripts};
use crate::manifest::{underscored, LibKind, Target, TargetKindView, TargetView};
use crate::profiles::{Lto, LtoView, Profile, ProfileView};
use crate::text::{
    chars_of, concat_str, push_str, dec, dec_chars, eq_str, extend_strings, push_string, split_once, split_once_chars, string_from,
    string_of, strs,
};

verus! {

/// Whether a unit is built for the host or for the target platform; the
/// two are the same unless cross-compiling.
#[derive(Clone, Copy, Debug, PartialEq, Eq, Structural, Hash, PartialOrd, Ord)]
pub enum Kind {
    Host,
    Target,
}

impl Kind {
    /// The kind of a dependency that is `target`: once on the host, always
    /// on the host; a target unit moves to the host for a target built for
    /// the host (a plugin or a procedural macro).
    pub fn for_target(&self, target: &Target) -> (r: Kind)
        ensures
            r == if *self == Kind::Target && !target@.for_host {
                Kind::Target
            } else {
                Kind::Host
            },
    {
        match self {
            Kind::Host => Kind::Host,
            Kind::Target => if target.for_host() {
                Kind::Host
            } else {
                Kind::Target
            },
        }
    }
}

/// The platforms a unit is needed for.
#[derive(Clone, Copy, Debug, PartialEq, Eq, Structural)]
pub enum Platform {
    Target,
    Plugin,
    PluginAndTarget,
}

/// The platforms that two requirements together need.
pub open spec fn combine_spec(a: Platform, b: Platform) -> Platform {
    if a == Platform::Target && b == Platform::Target {
        Platform::Target
    } else if a == Platform::Plugin && b == Platform::Plugin {
        Platform::Plugin
    } else {
        Platform::PluginAndTarget
    }
}

/// Whether the platforms hold the kind.
pub open spec fn includes_spec(p: Platform, k: Kind) -> bool {
    match p {
        Platform::PluginAndTarget => true,
        Platform::Target => k == Kind::Target,
        Platform::Plugin => k == Kind::Host,
    }
}

impl Platform {
    /// The platforms that this and `other` together need.
    pub fn combine(self, other: Platform) -> (r: Platform)
        ensures
            r == combine_spec(self, other),
    {
        match (self, other) {
            (Platform::Target, Platform::Target) => Platform::Target,
            (Platform::Plugin, Platform::Plugin) => Platform::Plugin,
            _ => Platform::PluginAndTarget,
        }
    }

    /// Whether a unit of this kind is needed.
    pub fn includes(self, kind: Kind) -> (r: bool)
        ensures
            r == includes_spec(self, kind),
    {
        match (self, kind) {
            (Platform::PluginAndTarget, _) | (Platform::Target, Kind::Target) | (
                Platform::Plugin,
                Kind::Host,
            ) => true,
            _ => false,
        }
    }

    /// The kinds needed, target first.
    pub fn each_kind(self) -> (r: Vec<Kind>)
        ensures
            r@ == match self {
                Platform::Target => seq![Kind::Target],
                Platform::Plugin => seq![Kind::Host],
                Platform::PluginAndTarget => seq![Kind::Target, Kind::Host],
            },
    {
        let mut v = Vec::new();
        match self {
            Platform::Target => v.push(Kind::Target),
            Platform::Plugin => v.push(Kind::Host),
            Platform::PluginAndTarget => {
                v.push(Kind::Target);
                v.push(Kind::Host);
            },
        }
        v
    }
}

/// Combining requirements is commutative, associative and idempotent.
pub proof fn lemma_combine_laws(a: Platform, b: Platform, c: Platform)
    ensures
        combine_spec(a, b) == combine_spec(b, a),
        combine_spec(combine_spec(a, b), c) == combine_spec(a, combine_spec(b, c)),
        combine_spec(a, a) == a,
{
}

/// The combination needs exactly the kinds that either requirement needs.
pub proof fn lemma_combine_includes(a: Platform, b: Platform, k: Kind)
    ensures
        includes_spec(combine_spec(a, b), k) == (includes_spec(a, k) || includes_spec(b, k)),
{
}

/// `each_kind` lists exactly the kinds that `includes` accepts.
pub proof fn lemma_each_kind_includes(p: Platform, k: Kind)
    ensures
        includes_spec(p, k) == (match p {
            Platform::Target => seq![Kind::Target],
            Platform::Plugin => seq![Kind::Host],
            Platform::PluginAndTarget => seq![Kind::Target, Kind::Host],
        }).contains(k),
{
    let s = match p {
        Platform::Target => seq![Kind::Target],
        Platform::Plugin => seq![Kind::Host],
        Platform::PluginAndTarget => seq![Kind::Target, Kind::Host],
    };
    if includes_spec(p, k) {
        if p == Platform::PluginAndTarget && k == Kind::Host {
            assert(s[1] == k);
        } else {
            assert(s[0] == k);
        }
    }
}

/// The characters that `char::to_uppercase` yields for `c`.
pub uninterp spec fn uppercase_of(c: char) -> Seq<char>;

/// Calls `char::to_uppercase`; the result is named (`uppercase_of`). As the
/// documentation shows for ASCII, lower-case letters map to their
/// upper-case letter and every other ASCII character to itself.
#[verifier::external_body]
fn uppercase_char(c: char) -> (r: Vec<char>)
    ensures
        r@ == uppercase_of(c),
        ('a' <= c && c <= 'z') ==> r@ == seq![((c as u32) - 32) as char],
        (c <= '\u{7f}' && !('a' <= c && c <= 'z')) ==> r@ == seq![c],
{
    c.to_uppercase().collect()
}

/// The environment-variable form of a name: upper-cased, with `-` as `_`.
pub open spec fn envify_spec(s: Seq<char>) -> Seq<char>
    decreases s.len(),
{
    if s.len() == 0 {
        Seq::empty()
    } else {
        envify_spec(s.drop_last()) + uppercase_of(s.last()).map_values(
            |c: char|
                if c == '-' {
                    '_'
                } else {
                    c
                },
        )
    }
}

/// The environment-variable form of a name: every character upper-cased,
/// and `-` replaced by `_`.
pub fn envify(s: &str) -> (r: String)
    ensures
        r@ == envify_spec(s@),
{
    let v = chars_of(s);
    let mut out: Vec<char> = Vec::new();
    let mut i: usize = 0;
    while i < v.len()
        invariant
            i <= v.len(),
            out@ == envify_spec(v@.subrange(0, i as int)),
        decreases v.len() - i,
    {
        let u = uppercase_char(v[i]);
        let ghost before = out@;
        let mut j: usize = 0;
        while j < u.len()
            invariant
                j <= u.len(),
                out@ == before + u@.subrange(0, j as int).map_values(
                    |c: char|
                        if c == '-' {
                            '_'
                        } else {
                            c
                        },
                ),
            decreases u.len() - j,
        {
            let c = u[j];
            out.push(if c == '-' { '_' } else { c });
            j = j + 1;
            assert(u@.subrange(0, j as int).map_values(
                |c: char|
                    if c == '-' {
                        '_'
                    } else {
                        c
                    },
            ) =~= u@.subrange(0, j - 1).map_values(
                |c: char|
                    if c == '-' {
                        '_'
                    } else {
                        c
                    },
            ).push(if c == '-' { '_' } else { c }));
        }
        assert(u@.subrange(0, u@.len() as int) =~= u@);
        assert(v@.subrange(0, i + 1).drop_last() =~= v@.subrange(0, i as int));
        i = i + 1;
    }
    assert(v@.subrange(0, v@.len() as int) =~= v@);
    string_of(&out)
}

/// Whether the path `p` starts with the path `base`, comparing whole
/// components, as `std::path::Path::starts_with` decides it.
pub uninterp spec fn path_starts_with(p: Seq<char>, base: Seq<char>) -> bool;

/// Calls `std::path::Path::starts_with`; the result is named
/// (`path_starts_with`).
#[verifier::external_body]
fn path_has_prefix(p: &str, base: &str) -> (r: bool)
    ensures
        r == path_starts_with(p@, base@),
{
    std::path::Path::new(p).starts_with(base)
}

/// Whether `k` is one of the kinds a `-L` entry can be prefixed with.
pub open spec fn search_kind(k: Seq<char>) -> bool {
    k == "native"@ || k == "crate"@ || k == "dependency"@ || k == "framework"@ || k == "all"@
}

/// The directory of a `-L` entry: what follows `KIND=` for a known kind,
/// otherwise the whole entry.
pub open spec fn search_dir(s: Seq<char>) -> Seq<char> {
    match split_once(s, '=') {
        (k, Some(rest)) => if search_kind(k) {
            rest
        } else {
            s
        },
        (_, None) => s,
    }
}

/// The entry kept for the runtime search path, if any: its directory when
/// it lies inside the output directory.
pub open spec fn kept_search_dir(root_output: Seq<char>) -> spec_fn(Seq<char>) -> Option<Seq<char>> {
    |s: Seq<char>|
        if path_starts_with(search_dir(s), root_output) {
            Some(search_dir(s))
        } else {
            None
        }
}

/// Whether the text equals one of the known `-L` kinds.
fn is_search_kind(k: &Vec<char>) -> (r: bool)
    ensures
        r == search_kind(k@),
{
    eq_str(k, "native") || eq_str(k, "crate") || eq_str(k, "dependency") || eq_str(k, "framework")
        || eq_str(k, "all")
}

/// The directory of a `-L` entry.
fn search_dir_of(s: &String) -> (r: String)
    ensures
        r@ == search_dir(s@),
{
    let v = chars_of(s.as_str());
    let (k, rest) = split_once_chars(&v, '=');
    match rest {
        Some(r) => if is_search_kind(&k) {
            string_of(&r)
        } else {
            s.clone()
        },
        None => s.clone(),
    }
}

/// The directories of the `-L` entries that lie inside the output
/// directory, in order, with their `KIND=` prefixes removed; the others
/// would risk clashing with system libraries at run time.
pub fn filter_dynamic_search_path(paths: &Vec<String>, root_output: &str) -> (r: Vec<String>)
    ensures
        strs(r@) == strs(paths@).filter_map(kept_search_dir(root_output@)),
{
    let mut out: Vec<String> = Vec::new();
    let mut i: usize = 0;
    while i < paths.len()
        invariant
            i <= paths@.len(),
            strs(out@) == strs(paths@).take(i as int).filter_map(kept_search_dir(root_output@)),
        decreases paths.len() - i,
    {
        let dir = search_dir_of(&paths[i]);
        proof {
            strs(paths@).lemma_filter_map_take_succ(kept_search_dir(root_output@), i as int);
        }
        if path_has_prefix(dir.as_str(), root_output) {
            let ghost before = out@;
            out.push(dir);
            assert(strs(out@) =~= strs(before).push(dir@));
        }
        i = i + 1;
    }
    assert(strs(paths@).take(paths@.len() as int) =~= strs(paths@));
    out
}

/// How the compiler is asked to color its messages.
#[derive(Clone, Copy, Debug, PartialEq, Eq, Structural)]
pub enum ColorChoice {
    Always,
    Never,
    /// Left to the compiler.
    CargoAuto,
}

/// What the build gives for the arguments of one unit besides its target,
/// profile, mode and kind.
#[derive(Debug)]
pub struct BaseArgsContext {
    /// The source path argument (see `path_args`).
    pub path_arg: String,
    pub color: ColorChoice,
    /// Whether messages are wanted as JSON.
    pub json_messages: bool,
    /// Whether the workspace has a member other than the unit's package.
    pub other_members: bool,
    /// Whether the unit is linked into a compiler plugin.
    pub used_in_plugin: bool,
    /// Extra arguments given for this unit on the command line.
    pub extra_args: Option<Vec<String>>,
    /// The activated features of the package, sorted.
    pub features: Vec<String>,
    /// The metadata hash of the unit's outputs, if they have one.
    pub metadata: Option<String>,
    /// The short hash used as metadata otherwise.
    pub short_hash: String,
    pub out_dir: String,
    /// The `--target` requested, if any.
    pub requested_target: Option<String>,
    /// The archiver and the linker configured for the unit's kind.
    pub ar: Option<String>,
    pub linker: Option<String>,
    /// The arguments that select incremental compilation.
    pub incremental_args: Vec<String>,
}

/// `--crate-type T` for each crate type.
pub open spec fn crate_type_args(types: Seq<Seq<char>>) -> Seq<Seq<char>>
    decreases types.len(),
{
    if types.len() == 0 {
        Seq::empty()
    } else {
        crate_type_args(types.drop_last()) + seq!["--crate-type"@, types.last()]
    }
}

/// `--cfg feature="F"` for each feature.
pub open spec fn feature_args(fs: Seq<Seq<char>>) -> Seq<Seq<char>>
    decreases fs.len(),
{
    if fs.len() == 0 {
        Seq::empty()
    } else {
        feature_args(fs.drop_last()) + seq!["--cfg"@, "feature=\""@ + fs.last() + "\""@]
    }
}

/// `KEY PREFIXVALUE` when there is a value.
pub open spec fn opt_args(key: Seq<char>, prefix: Seq<char>, v: Option<String>) -> Seq<Seq<char>> {
    match v {
        Some(s) => seq![key, prefix + s@],
        None => Seq::empty(),
    }
}

/// The flags for debug assertions and overflow checks: only what differs
/// from what the optimization level implies (overflow checks follow debug
/// assertions, which are on at level `0` only).
pub open spec fn check_args(opt_zero: bool, debug_assertions: bool, overflow_checks: bool) -> Seq<Seq<char>> {
    if !opt_zero {
        if debug_assertions {
            seq!["-C"@, "debug-assertions=on"@] + if !overflow_checks {
                seq!["-C"@, "overflow-checks=off"@]
            } else {
                Seq::empty()
            }
        } else if overflow_checks {
            seq!["-C"@, "overflow-checks=on"@]
        } else {
            Seq::empty()
        }
    } else if !debug_assertions {
        seq!["-C"@, "debug-assertions=off"@] + if overflow_checks {
            seq!["-C"@, "overflow-checks=on"@]
        } else {
            Seq::empty()
        }
    } else if !overflow_checks {
        seq!["-C"@, "overflow-checks=off"@]
    } else {
        Seq::empty()
    }
}

/// Whether link-time optimization may be used for the target.
pub open spec fn can_lto_spec(t: TargetView) -> bool {
    match t.kind {
        TargetKindView::Lib(k) => k == seq![LibKind::StaticLib],
        _ => true,
    }
}

/// `--color` with the choice, unless left to the compiler.
pub open spec fn color_args(c: ColorChoice) -> Seq<Seq<char>> {
    match c {
        ColorChoice::Always => seq!["--color"@, "always"@],
        ColorChoice::Never => seq!["--color"@, "never"@],
        ColorChoice::CargoAuto => Seq::empty(),
    }
}

/// The flags if the condition holds.
pub open spec fn when(b: bool, s: Seq<Seq<char>>) -> Seq<Seq<char>> {
    if b {
        s
    } else {
        Seq::empty()
    }
}

/// Whether the unit prefers dynamic linking: a target for the host that
/// is not a build script, or a `dylib` in a workspace with other members.
pub open spec fn prefer_dynamic(t: TargetView, types: Seq<Seq<char>>, c: BaseArgsContext) -> bool {
    (t.for_host && !(t.kind is CustomBuild)) || (types.contains("dylib"@) && c.other_members)
}

/// `-C panic=P` when a strategy is set and the unit is not linked into a
/// plugin.
pub open spec fn panic_args(p: ProfileView, c: BaseArgsContext) -> Seq<Seq<char>> {
    match p.panic {
        Some(x) => when(!c.used_in_plugin, seq!["-C"@, "panic="@ + x]),
        None => Seq::empty(),
    }
}

/// The LTO flags, for targets that allow LTO and are not built for the
/// host.
pub open spec fn lto_args(t: TargetView, p: ProfileView) -> Seq<Seq<char>> {
    if can_lto_spec(t) && !t.for_host {
        match p.lto {
            LtoView::Bool(false) => Seq::empty(),
            LtoView::Bool(true) => seq!["-C"@, "lto"@],
            LtoView::Named(s) => seq!["-C"@, "lto="@ + s],
        }
    } else {
        Seq::empty()
    }
}

/// `-C KEY=N` when there is a number.
pub open spec fn num_args(key: Seq<char>, n: Option<u32>) -> Seq<Seq<char>> {
    match n {
        Some(d) => seq!["-C"@, key + dec(d as nat)],
        None => Seq::empty(),
    }
}

/// The arguments of the first half: names, paths, message format, crate
/// types, emitted files and code generation.
pub open spec fn base_args_head(
    t: TargetView,
    p: ProfileView,
    mode: CompileMode,
    types: Seq<Seq<char>>,
    c: BaseArgsContext,
) -> Seq<Seq<char>> {
    seq!["--crate-name"@, underscored(t.name), c.path_arg@] + color_args(c.color) + when(
        c.json_messages,
        seq!["--error-format"@, "json"@],
    ) + when(!any_test(mode), crate_type_args(types)) + (if mode is Check {
        seq!["--emit=dep-info,metadata"@]
    } else {
        seq!["--emit=dep-info,link"@]
    }) + when(prefer_dynamic(t, types, c), seq!["-C"@, "prefer-dynamic"@]) + when(
        p.opt_level != "0"@,
        seq!["-C"@, "opt-level="@ + p.opt_level],
    ) + panic_args(p, c) + lto_args(t, p) + num_args("codegen-units="@, p.codegen_units)
        + num_args("debuginfo="@, p.debuginfo)
}

/// `--test` for a test with a harness, `--cfg test` for one without.
pub open spec fn harness_args(t: TargetView, mode: CompileMode) -> Seq<Seq<char>> {
    if any_test(mode) && t.harness {
        seq!["--test"@]
    } else if any_test(mode) {
        seq!["--cfg"@, "test"@]
    } else {
        Seq::empty()
    }
}

/// The metadata flags.
pub open spec fn meta_args(c: BaseArgsContext) -> Seq<Seq<char>> {
    match c.metadata {
        Some(m) => seq!["-C"@, "metadata="@ + m@, "-C"@, "extra-filename=-"@ + m@],
        None => seq!["-C"@, "metadata="@ + c.short_hash@],
    }
}

/// The extra arguments, if any.
pub open spec fn extra_args(c: BaseArgsContext) -> Seq<Seq<char>> {
    match c.extra_args {
        Some(a) => strs(a@),
        None => Seq::empty(),
    }
}

/// The arguments of the second half: extra arguments, checks, test mode,
/// features, metadata and output locations.
pub open spec fn base_args_tail(
    t: TargetView,
    p: ProfileView,
    mode: CompileMode,
    kind: Kind,
    c: BaseArgsContext,
) -> Seq<Seq<char>> {
    extra_args(c) + check_args(p.opt_level == "0"@, p.debug_assertions, p.overflow_checks)
        + harness_args(t, mode) + feature_args(strs(c.features@)) + meta_args(c) + when(
        p.rpath,
        seq!["-C"@, "rpath"@],
    ) + seq!["--out-dir"@, c.out_dir@] + when(
        kind == Kind::Target,
        opt_args("--target"@, Seq::empty(), c.requested_target),
    ) + opt_args("-C"@, "ar="@, c.ar) + opt_args("-C"@, "linker="@, c.linker) + strs(
        c.incremental_args@,
    )
}

/// The arguments `rustc` gets for a unit, before those of its
/// dependencies.
pub open spec fn base_args_spec(
    t: TargetView,
    p: ProfileView,
    mode: CompileMode,
    kind: Kind,
    types: Seq<Seq<char>>,
    c: BaseArgsContext,
) -> Seq<Seq<char>> {
    base_args_head(t, p, mode, types, c) + base_args_tail(t, p, mode, kind, c)
}

/// Appends the strings if the condition holds.
fn push_when(out: &mut Vec<String>, b: bool, a: &str, x: &str)
    ensures
        strs(final(out)@) == strs(old(out)@) + when(b, seq![a@, x@]),
{
    let ghost o = strs(out@);
    if b {
        push_string(out, a);
        push_string(out, x);
    }
    assert(strs(out@) =~= o + when(b, seq![a@, x@]));
}

/// Appends `-C KEY=N` when there is a number.
fn push_num(out: &mut Vec<String>, key: &str, n: Option<u32>)
    ensures
        strs(final(out)@) == strs(old(out)@) + num_args(key@, n),
{
    let ghost o = strs(out@);
    match n {
        Some(d) => {
            push_string(out, "-C");
            let ds = string_of(&dec_chars(d as u64));
            let a = concat_str(key, ds.as_str());
            push_string(out, a.as_str());
        },
        None => {},
    }
    assert(strs(out@) =~= o + num_args(key@, n));
}

/// Appends the color flags.
fn push_color(out: &mut Vec<String>, c: ColorChoice)
    ensures
        strs(final(out)@) == strs(old(out)@) + color_args(c),
{
    let ghost o = strs(out@);
    match c {
        ColorChoice::Always => {
            push_string(out, "--color");
            push_string(out, "always");
        },
        ColorChoice::Never => {
            push_string(out, "--color");
            push_string(out, "never");
        },
        ColorChoice::CargoAuto => {},
    }
    assert(strs(out@) =~= o + color_args(c));
}

/// Appends the panic flags.
fn push_panic(out: &mut Vec<String>, profile: &Profile, c: &BaseArgsContext)
    ensures
        strs(final(out)@) == strs(old(out)@) + panic_args(profile@, *c),
{
    let ghost o = strs(out@);
    match &profile.panic {
        Some(x) => {
            let a = concat_str("panic=", x.as_str());
            push_when(out, !c.used_in_plugin, "-C", a.as_str());
        },
        None => {},
    }
    assert(strs(out@) =~= o + panic_args(profile@, *c));
}

/// Appends the LTO flags.
fn push_lto(out: &mut Vec<String>, target: &Target, profile: &Profile)
    ensures
        strs(final(out)@) == strs(old(out)@) + lto_args(target@, profile@),
{
    let ghost o = strs(out@);
    if target.can_lto() && !target.for_host() {
        match &profile.lto {
            Lto::Bool(false) => {},
            Lto::Bool(true) => {
                push_string(out, "-C");
                push_string(out, "lto");
            },
            Lto::Named(s) => {
                push_string(out, "-C");
                let a = concat_str("lto=", s.as_str());
                push_string(out, a.as_str());
            },
        }
    }
    assert(strs(out@) =~= o + lto_args(target@, profile@));
}

/// Appends `--crate-type T` for each crate type.
fn push_crate_types(out: &mut Vec<String>, types: &Vec<String>)
    ensures
        strs(final(out)@) == strs(old(out)@) + crate_type_args(strs(types@)),
{
    let ghost o = strs(out@);
    let mut i: usize = 0;
    while i < types.len()
        invariant
            i <= types.len(),
            strs(out@) == o + crate_type_args(strs(types@).take(i as int)),
        decreases types.len() - i,
    {
        push_string(out, "--crate-type");
        push_string(out, types[i].as_str());
        assert(strs(types@).take(i + 1).drop_last() =~= strs(types@).take(i as int));
        i = i + 1;
    }
    assert(strs(types@).take(types@.len() as int) =~= strs(types@));
}

/// Appends `--cfg feature="F"` for each feature.
fn push_features(out: &mut Vec<String>, fs: &Vec<String>)
    ensures
        strs(final(out)@) == strs(old(out)@) + feature_args(strs(fs@)),
{
    let ghost o = strs(out@);
    let mut i: usize = 0;
    while i < fs.len()
        invariant
            i <= fs.len(),
            strs(out@) == o + feature_args(strs(fs@).take(i as int)),
        decreases fs.len() - i,
    {
        push_string(out, "--cfg");
        let a = concat_str("feature=\"", fs[i].as_str());
        let b = concat_str(a.as_str(), "\"");
        push_string(out, b.as_str());
        assert(strs(fs@).take(i + 1).drop_last() =~= strs(fs@).take(i as int));
        i = i + 1;
    }
    assert(strs(fs@).take(fs@.len() as int) =~= strs(fs@));
}

/// Appends `KEY PREFIXVALUE` when there is a value.
fn push_opt(out: &mut Vec<String>, key: &str, prefix: &str, v: &Option<String>)
    ensures
        strs(final(out)@) == strs(old(out)@) + opt_args(key@, prefix@, *v),
{
    match v {
        Some(s) => {
            push_string(out, key);
            let j = concat_str(prefix, s.as_str());
            push_string(out, j.as_str());
        },
        None => {},
    }
}

/// Appends a list of strings.
fn push_all_strings(out: &mut Vec<String>, v: &Vec<String>)
    ensures
        strs(final(out)@) == strs(old(out)@) + strs(v@),
{
    let ghost o = strs(out@);
    let mut i: usize = 0;
    while i < v.len()
        invariant
            i <= v.len(),
            strs(out@) == o + strs(v@).take(i as int),
        decreases v.len() - i,
    {
        push_string(out, v[i].as_str());
        assert(strs(v@).take(i + 1) =~= strs(v@).take(i as int).push(v@[i as int]@));
        i = i + 1;
    }
    assert(strs(v@).take(v@.len() as int) =~= strs(v@));
}

/// Whether the list holds `dylib`.
fn has_dylib(types: &Vec<String>) -> (r: bool)
    ensures
        r == strs(types@).contains("dylib"@),
{
    let d = string_from("dylib");
    let mut i: usize = 0;
    while i < types.len()
        invariant
            i <= types.len(),
            d@ == "dylib"@,
            forall|j: int| 0 <= j < i ==> types@[j]@ != "dylib"@,
        decreases types.len() - i,
    {
        if types[i].eq(&d) {
            assert(strs(types@)[i as int] == "dylib"@);
            return true;
        }
        i = i + 1;
    }
    assert forall|j: int| 0 <= j < strs(types@).len() implies strs(types@)[j] != "dylib"@ by {
        assert(strs(types@)[j] == types@[j]@);
    }
    false
}

/// The first half of the arguments.
fn head_args(
    target: &Target,
    profile: &Profile,
    mode: CompileMode,
    crate_types: &Vec<String>,
    c: &BaseArgsContext,
) -> (r: Vec<String>)
    ensures
        strs(r@) == base_args_head(target@, profile@, mode, strs(crate_types@), *c),
{
    let mut out: Vec<String> = Vec::new();
    push_string(&mut out, "--crate-name");
    let name = target.crate_name();
    push_string(&mut out, name.as_str());
    push_string(&mut out, c.path_arg.as_str());
    assert(strs(out@) =~= seq!["--crate-name"@, underscored(target@.name), c.path_arg@]);
    push_color(&mut out, c.color);
    push_when(&mut out, c.json_messages, "--error-format", "json");
    let ghost o = strs(out@);
    if !mode.is_any_test() {
        push_crate_types(&mut out, crate_types);
    }
    assert(strs(out@) =~= o + when(!any_test(mode), crate_type_args(strs(crate_types@))));
    let ghost o2 = strs(out@);
    if mode.is_check() {
        push_string(&mut out, "--emit=dep-info,metadata");
    } else {
        push_string(&mut out, "--emit=dep-info,link");
    }
    assert(strs(out@) =~= o2 + (if mode is Check {
        seq!["--emit=dep-info,metadata"@]
    } else {
        seq!["--emit=dep-info,link"@]
    }));
    let prefer = (target.for_host() && !target.is_custom_build()) || (has_dylib(crate_types)
        && c.other_members);
    push_when(&mut out, prefer, "-C", "prefer-dynamic");
    let zero = eq_str(&chars_of(profile.opt_level.as_str()), "0");
    let opt = concat_str("opt-level=", profile.opt_level.as_str());
    push_when(&mut out, !zero, "-C", opt.as_str());
    push_panic(&mut out, profile, c);
    push_lto(&mut out, target, profile);
    push_num(&mut out, "codegen-units=", profile.codegen_units);
    push_num(&mut out, "debuginfo=", profile.debuginfo);
    out
}

/// Appends the check flags.
fn push_checks(out: &mut Vec<String>, zero: bool, da: bool, oc: bool)
    ensures
        strs(final(out)@) == strs(old(out)@) + check_args(zero, da, oc),
{
    let ghost o = strs(out@);
    if !zero {
        if da {
            push_string(out, "-C");
            push_string(out, "debug-assertions=on");
            if !oc {
                push_string(out, "-C");
                push_string(out, "overflow-checks=off");
            }
        } else if oc {
            push_string(out, "-C");
            push_string(out, "overflow-checks=on");
        }
    } else if !da {
        push_string(out, "-C");
        push_string(out, "debug-assertions=off");
        if oc {
            push_string(out, "-C");
            push_string(out, "overflow-checks=on");
        }
    } else if !oc {
        push_string(out, "-C");
        push_string(out, "overflow-checks=off");
    }
    assert(strs(out@) =~= o + check_args(zero, da, oc));
}

/// Appends the test-harness flags.
fn push_harness(out: &mut Vec<String>, target: &Target, mode: CompileMode)
    ensures
        strs(final(out)@) == strs(old(out)@) + harness_args(target@, mode),
{
    let ghost o = strs(out@);
    let test = mode.is_any_test();
    if test && target.harness() {
        push_string(out, "--test");
    } else if test {
        push_string(out, "--cfg");
        push_string(out, "test");
    }
    assert(strs(out@) =~= o + harness_args(target@, mode));
}

/// Appends the metadata flags.
fn push_meta(out: &mut Vec<String>, c: &BaseArgsContext)
    ensures
        strs(final(out)@) == strs(old(out)@) + meta_args(*c),
{
    let ghost o = strs(out@);
    match &c.metadata {
        Some(m) => {
            push_string(out, "-C");
            let a = concat_str("metadata=", m.as_str());
            push_string(out, a.as_str());
            push_string(out, "-C");
            let b = concat_str("extra-filename=-", m.as_str());
            push_string(out, b.as_str());
        },
        None => {
            push_string(out, "-C");
            let a = concat_str("metadata=", c.short_hash.as_str());
            push_string(out, a.as_str());
        },
    }
    assert(strs(out@) =~= o + meta_args(*c));
}

/// The second half of the arguments.
fn tail_args(target: &Target, profile: &Profile, mode: CompileMode, kind: Kind, c: &BaseArgsContext) -> (r: Vec<String>)
    ensures
        strs(r@) == base_args_tail(target@, profile@, mode, kind, *c),
{
    let mut out: Vec<String> = Vec::new();
    match &c.extra_args {
        Some(a) => push_all_strings(&mut out, a),
        None => {},
    }
    assert(strs(out@) =~= extra_args(*c));
    let zero = eq_str(&chars_of(profile.opt_level.as_str()), "0");
    push_checks(&mut out, zero, profile.debug_assertions, profile.overflow_checks);
    push_harness(&mut out, target, mode);
    push_features(&mut out, &c.features);
    push_meta(&mut out, c);
    push_when(&mut out, profile.rpath, "-C", "rpath");
    push_string(&mut out, "--out-dir");
    push_string(&mut out, c.out_dir.as_str());
    let ghost o = strs(out@);
    if kind == Kind::Target {
        push_opt(&mut out, "--target", "", &c.requested_target);
    }
    proof {
        reveal_strlit("");
    }
    assert(strs(out@) =~= o + when(kind == Kind::Target, opt_args("--target"@, Seq::empty(), c.requested_target)));
    push_opt(&mut out, "-C", "ar=", &c.ar);
    push_opt(&mut out, "-C", "linker=", &c.linker);
    push_all_strings(&mut out, &c.incremental_args);
    out
}

/// The arguments `rustc` gets for a unit, before those of its
/// dependencies: crate name and source, message format, crate types (not
/// for tests), emitted files, code-generation settings from the profile,
/// test mode, features, metadata, output directory, target, archiver,
/// linker and incremental-compilation arguments.
pub fn build_base_args(
    target: &Target,
    profile: &Profile,
    mode: CompileMode,
    kind: Kind,
    crate_types: &Vec<String>,
    c: &BaseArgsContext,
) -> (r: Vec<String>)
    requires
        mode != CompileMode::RunCustomBuild,
    ensures
        strs(r@) == base_args_spec(target@, profile@, mode, kind, strs(crate_types@), *c),
{
    let mut out = head_args(target, profile, mode, crate_types, c);
    let t = tail_args(target, profile, mode, kind, c);
    extend_strings(&mut out, t);
    out
}

/// The native libraries linked so far and the packages already checked.
#[derive(Debug)]
pub struct Links {
    validated: Vec<PackageId>,
    links: Vec<(String, PackageId)>,
}

/// The mathematical value of `Links`: the checked packages, and for each
/// linked library the package that links it, in the order they came.
pub struct LinksView {
    pub validated: Seq<PackageIdView>,
    pub links: Seq<(Seq<char>, PackageIdView)>,
}

impl View for Links {
    type V = LinksView;

    closed spec fn view(&self) -> LinksView {
        LinksView {
            validated: self.validated@.map_values(|p: PackageId| p@),
            links: self.links@.map_values(|e: (String, PackageId)| (e.0@, e.1@)),
        }
    }
}

/// Why a package may not link its native library.
#[derive(Debug)]
pub enum LinksError {
    /// Another package already links the library.
    MultipleLinks { lib: String, prev: PackageId, pkg: PackageId },
    /// The package links a library but has no build script.
    NoBuildScript { pkg: PackageId, lib: String },
}

/// The mathematical value of the outcome of `Links::validate`.
pub enum LinksOutcome {
    Accepted,
    MultipleLinks(Seq<char>, PackageIdView, PackageIdView),
    NoBuildScript(PackageIdView, Seq<char>),
}

/// The view of the outcome of `Links::validate`.
pub open spec fn links_outcome(r: Result<(), LinksError>) -> LinksOutcome {
    match r {
        Ok(()) => LinksOutcome::Accepted,
        Err(LinksError::MultipleLinks { lib, prev, pkg }) => LinksOutcome::MultipleLinks(lib@, prev@, pkg@),
        Err(LinksError::NoBuildScript { pkg, lib }) => LinksOutcome::NoBuildScript(pkg@, lib@),
    }
}

/// Whether the package was checked already.
pub open spec fn was_validated(v: Seq<PackageIdView>, p: PackageIdView) -> bool {
    exists|i: int| 0 <= i < v.len() && same_package(#[trigger] v[i], p)
}

/// Whether entry `i` is the first one for the library.
pub open spec fn first_link(l: Seq<(Seq<char>, PackageIdView)>, lib: Seq<char>, i: int) -> bool {
    &&& 0 <= i < l.len()
    &&& l[i].0 == lib
    &&& forall|j: int| 0 <= j < i ==> (#[trigger] l[j]).0 != lib
}

/// The package that links the library, if any.
pub open spec fn link_owner(l: Seq<(Seq<char>, PackageIdView)>, lib: Seq<char>) -> Option<PackageIdView> {
    if exists|i: int| first_link(l, lib, i) {
        Some(l[choose|i: int| first_link(l, lib, i)].1)
    } else {
        None
    }
}

/// What checking a package does: nothing for a package checked already;
/// otherwise the package is recorded as checked, and if it links a library
/// that another package links, or has no build script, that is the error;
/// else the library is recorded as linked by it.
pub open spec fn validate_spec(
    s: LinksView,
    pkg: PackageIdView,
    lib: Option<Seq<char>>,
    has_custom_build: bool,
) -> (LinksView, LinksOutcome) {
    if was_validated(s.validated, pkg) {
        (s, LinksOutcome::Accepted)
    } else {
        let s1 = LinksView { validated: s.validated.push(pkg), ..s };
        match lib {
            None => (s1, LinksOutcome::Accepted),
            Some(l) => match link_owner(s.links, l) {
                Some(prev) => (s1, LinksOutcome::MultipleLinks(l, prev, pkg)),
                None => if !has_custom_build {
                    (s1, LinksOutcome::NoBuildScript(pkg, l))
                } else {
                    (LinksView { links: s.links.push((l, pkg)), ..s1 }, LinksOutcome::Accepted)
                },
            },
        }
    }
}

/// The first entry for the library is the one `link_owner` names.
proof fn lemma_first_link(l: Seq<(Seq<char>, PackageIdView)>, lib: Seq<char>, i: int)
    requires
        first_link(l, lib, i),
    ensures
        link_owner(l, lib) == Some(l[i].1),
{
    let k = choose|k: int| first_link(l, lib, k);
    assert(first_link(l, lib, k));
    if k < i {
        assert(l[k].0 != lib);
    } else if i < k {
        assert(l[i].0 != lib);
    }
}

/// A library with an entry has a first entry.
proof fn lemma_some_first_link(l: Seq<(Seq<char>, PackageIdView)>, lib: Seq<char>, j: int)
    requires
        0 <= j < l.len(),
        l[j].0 == lib,
    ensures
        exists|i: int| first_link(l, lib, i),
    decreases j,
{
    if forall|k: int| 0 <= k < j ==> (#[trigger] l[k]).0 != lib {
        assert(first_link(l, lib, j));
    } else {
        let k = choose|k: int| 0 <= k < j && (#[trigger] l[k]).0 == lib;
        lemma_some_first_link(l, lib, k);
    }
}

impl Links {
    /// No library linked and no package checked.
    pub fn new() -> (r: Links)
        ensures
            r@.validated == Seq::<PackageIdView>::empty(),
            r@.links == Seq::<(Seq<char>, PackageIdView)>::empty(),
    {
        let r = Links { validated: Vec::new(), links: Vec::new() };
        assert(r@.validated =~= Seq::<PackageIdView>::empty());
        assert(r@.links =~= Seq::<(Seq<char>, PackageIdView)>::empty());
        r
    }

    /// Checks the package of a unit, which links the native library `links`
    /// if any and has a build script when `has_custom_build`: a native
    /// library can be linked by one package only, and only from a build
    /// script.
    pub fn validate(&mut self, pkg: &PackageId, links: Option<&str>, has_custom_build: bool) -> (r: Result<(), LinksError>)
        ensures
            (final(self)@, links_outcome(r)) == validate_spec(
                old(self)@,
                pkg@,
                match links {
                    Some(l) => Some(l@),
                    None => None,
                },
                has_custom_build,
            ),
    {
        let ghost s = self@;
        let mut i: usize = 0;
        while i < self.validated.len()
            invariant
                i <= self.validated@.len(),
                s == self@,
                forall|j: int| 0 <= j < i ==> !same_package(#[trigger] s.validated[j], pkg@),
            decreases self.validated.len() - i,
        {
            assert(s.validated[i as int] == self.validated@[i as int]@);
            if self.validated[i].same(pkg) {
                return Ok(());
            }
            i = i + 1;
        }
        self.validated.push(pkg.duplicate());
        assert(self@.validated =~= s.validated.push(pkg@));
        assert(self@.links =~= s.links);
        let lib = match links {
            Some(l) => l,
            None => {
                return Ok(());
            },
        };
        assert(!was_validated(s.validated, pkg@));
        let lib_s = string_from(lib);
        let ghost s1 = LinksView { validated: s.validated.push(pkg@), ..s };
        assert(self@ == s1);
        let mut j: usize = 0;
        while j < self.links.len()
            invariant
                j <= self.links@.len(),
                self@ == s1,
                s1 == (LinksView { validated: s.validated.push(pkg@), ..s }),
                !was_validated(s.validated, pkg@),
                links == Some(lib),
                s == old(self)@,
                lib_s@ == lib@,
                forall|k: int| 0 <= k < j ==> (#[trigger] s.links[k]).0 != lib@,
            decreases self.links.len() - j,
        {
            assert(s.links[j as int] == (self.links@[j as int].0@, self.links@[j as int].1@));
            if self.links[j].0.eq(&lib_s) {
                proof {
                    assert(s.links[j as int].0 == lib@);
                    assert(first_link(s.links, lib@, j as int));
                    lemma_first_link(s.links, lib@, j as int);
                }
                return Err(LinksError::MultipleLinks {
                    lib: lib_s,
                    prev: self.links[j].1.duplicate(),
                    pkg: pkg.duplicate(),
                });
            }
            j = j + 1;
        }
        assert(!exists|k: int| first_link(s.links, lib@, k));
        if !has_custom_build {
            return Err(LinksError::NoBuildScript { pkg: pkg.duplicate(), lib: lib_s });
        }
        self.links.push((lib_s, pkg.duplicate()));
        assert(self@.links =~= s.links.push((lib@, pkg@)));
        Ok(())
    }
}

/// A native library is linked by one package only: once a package has
/// linked a library, any other package that has not been checked yet and
/// links the same library is refused, naming the first.
pub proof fn lemma_links_once(
    s: LinksView,
    p1: PackageIdView,
    p2: PackageIdView,
    lib: Seq<char>,
    has_build: bool,
)
    requires
        validate_spec(s, p1, Some(lib), true).1 == LinksOutcome::Accepted,
        !was_validated(s.validated, p1),
        !was_validated(s.validated, p2),
        !same_package(p1, p2),
    ensures
        validate_spec(validate_spec(s, p1, Some(lib), true).0, p2, Some(lib), has_build).1
            == LinksOutcome::MultipleLinks(lib, p1, p2),
{
    let s1 = validate_spec(s, p1, Some(lib), true).0;
    assert(link_owner(s.links, lib) is None);
    assert(s1.links == s.links.push((lib, p1)));
    if was_validated(s1.validated, p2) {
        let i = choose|i: int| 0 <= i < s1.validated.len() && same_package(#[trigger] s1.validated[i], p2);
        if i < s.validated.len() {
            assert(s1.validated[i] == s.validated[i]);
        }
    }
    assert(!exists|k: int| first_link(s.links, lib, k));
    assert forall|j: int| 0 <= j < s.links.len() implies (#[trigger] s1.links[j]).0 != lib by {
        assert(s1.links[j] == s.links[j]);
        if s.links[j].0 == lib {
            lemma_some_first_link(s.links, lib, j);
        }
    }
    assert(first_link(s1.links, lib, s.links.len() as int));
    lemma_first_link(s1.links, lib, s.links.len() as int);
}


/// `flag value` for each value, in order.
pub open spec fn flag_pairs(flag: Seq<char>, vs: Seq<Seq<char>>) -> Seq<Seq<char>>
    decreases vs.len(),
{
    if vs.len() == 0 {
        Seq::empty()
    } else {
        flag_pairs(flag, vs.drop_last()) + seq![flag, vs.last()]
    }
}

/// The arguments a build script output gives the compiler: `-L` for each
/// library path; for the unit's own package, also `--cfg` for each cfg and,
/// when the unit passes them, `-l` for each library.
pub open spec fn output_args(o: BuildOutputView, own: bool, pass_l_flag: bool) -> Seq<Seq<char>> {
    flag_pairs("-L"@, o.library_paths) + if own {
        flag_pairs("--cfg"@, o.cfgs) + if pass_l_flag {
            flag_pairs("-l"@, o.library_links)
        } else {
            Seq::empty()
        }
    } else {
        Seq::empty()
    }
}

/// The native-library arguments of a unit from the outputs of the build
/// script runs it links, in order; the first run whose output is missing
/// is an error.
pub open spec fn native_args_spec(
    outs: Map<u64, BuildOutputView>,
    to_link: Seq<(PackageIdView, u64)>,
    pass_l_flag: bool,
    current: PackageIdView,
) -> Result<Seq<Seq<char>>, (PackageIdView, u64)>
    decreases to_link.len(),
{
    if to_link.len() == 0 {
        Ok(Seq::empty())
    } else {
        match native_args_spec(outs, to_link.drop_last(), pass_l_flag, current) {
            Err(e) => Err(e),
            Ok(acc) => {
                let (id, m) = to_link.last();
                if outs.contains_key(m) {
                    Ok(acc + output_args(outs[m], same_package(id, current), pass_l_flag))
                } else {
                    Err((id, m))
                }
            },
        }
    }
}

/// Once a run's output is missing, later runs change nothing.
proof fn lemma_native_args_err(
    outs: Map<u64, BuildOutputView>,
    to_link: Seq<(PackageIdView, u64)>,
    pass_l_flag: bool,
    current: PackageIdView,
    n: nat,
)
    requires
        n <= to_link.len(),
        native_args_spec(outs, to_link.take(n as int), pass_l_flag, current) is Err,
    ensures
        native_args_spec(outs, to_link, pass_l_flag, current) == native_args_spec(outs, to_link.take(n as int), pass_l_flag, current),
    decreases to_link.len() - n,
{
    if n < to_link.len() {
        assert(to_link.take(n + 1int).drop_last() =~= to_link.take(n as int));
        lemma_native_args_err(outs, to_link, pass_l_flag, current, n + 1);
    } else {
        assert(to_link.take(n as int) =~= to_link);
    }
}

/// Appends `flag value` for each value.
fn push_flag_pairs(out: &mut Vec<String>, flag: &str, vs: &Vec<String>)
    ensures
        strs(final(out)@) == strs(old(out)@) + flag_pairs(flag@, strs(vs@)),
{
    let ghost o = strs(out@);
    let mut i: usize = 0;
    while i < vs.len()
        invariant
            i <= vs@.len(),
            strs(out@) == o + flag_pairs(flag@, strs(vs@).take(i as int)),
        decreases vs.len() - i,
    {
        assert(strs(vs@).take(i + 1).drop_last() =~= strs(vs@).take(i as int));
        assert(strs(vs@).take(i + 1).last() == vs@[i as int]@);
        let ghost before = strs(out@);
        out.push(string_from(flag));
        out.push(vs[i].clone());
        assert(strs(out@) =~= before + seq![flag@, vs@[i as int]@]);
        i = i + 1;
    }
    assert(strs(vs@).take(vs@.len() as int) =~= strs(vs@));
}

/// The native-library arguments of a unit (see `native_args_spec`);
/// `pass_l_flag` tells whether it passes `-l` flags.
pub fn native_dep_args(
    outputs: &BuildScriptOutputs,
    scripts: &BuildScripts,
    pass_l_flag: bool,
    current_id: &PackageId,
) -> (r: Result<Vec<String>, (PackageId, u64)>)
    ensures
        ({
            let tl = scripts.to_link@.map_values(|k: (PackageId, u64)| (k.0@, k.1));
            match r {
                Ok(v) => native_args_spec(outputs@, tl, pass_l_flag, current_id@) == Ok::<Seq<Seq<char>>, (PackageIdView, u64)>(strs(v@)),
                Err(e) => native_args_spec(outputs@, tl, pass_l_flag, current_id@) == Err::<Seq<Seq<char>>, (PackageIdView, u64)>((e.0@, e.1)),
            }
        }),
{
    let ghost tl = scripts.to_link@.map_values(|k: (PackageId, u64)| (k.0@, k.1));
    let mut out: Vec<String> = Vec::new();
    let mut i: usize = 0;
    assert(tl.take(0) =~= Seq::<(PackageIdView, u64)>::empty());
    assert(strs(out@) =~= Seq::<Seq<char>>::empty());
    while i < scripts.to_link.len()
        invariant
            i <= scripts.to_link@.len(),
            tl == scripts.to_link@.map_values(|k: (PackageId, u64)| (k.0@, k.1)),
            native_args_spec(outputs@, tl.take(i as int), pass_l_flag, current_id@) == Ok::<Seq<Seq<char>>, (PackageIdView, u64)>(strs(out@)),
        decreases scripts.to_link.len() - i,
    {
        let (id, meta) = (&scripts.to_link[i].0, scripts.to_link[i].1);
        assert(tl.take(i + 1).drop_last() =~= tl.take(i as int));
        assert(tl.take(i + 1).last() == (id@, meta));
        match outputs.get(meta) {
            None => {
                proof {
                    lemma_native_args_err(outputs@, tl, pass_l_flag, current_id@, (i + 1) as nat);
                }
                return Err((id.duplicate(), meta));
            },
            Some(o) => {
                let ghost before = strs(out@);
                push_flag_pairs(&mut out, "-L", &o.library_paths);
                if id.same(current_id) {
                    push_flag_pairs(&mut out, "--cfg", &o.cfgs);
                    if pass_l_flag {
                        push_flag_pairs(&mut out, "-l", &o.library_links);
                    }
                }
                assert(strs(out@) =~= before + output_args(o@, same_package(id@, current_id@), pass_l_flag));
            },
        }
        i = i + 1;
    }
    assert(tl.take(scripts.to_link@.len() as int) =~= tl);
    Ok(out)
}

/// The environment a unit's compilation gets from the output of its own
/// build script run, if there is one.
pub fn custom_env(outputs: &BuildScriptOutputs, run: Option<u64>) -> (r: Vec<(String, String)>)
    ensures
        crate::custom_build::pairs(r@) == match run {
            Some(m) => if outputs@.contains_key(m) {
                outputs@[m].env
            } else {
                Seq::empty()
            },
            None => Seq::empty(),
        },
{
    let mut out: Vec<(String, String)> = Vec::new();
    match run {
        Some(m) => match outputs.get(m) {
            Some(o) => {
                let mut i: usize = 0;
                while i < o.env.len()
                    invariant
                        i <= o.env@.len(),
                        crate::custom_build::pairs(out@) == crate::custom_build::pairs(o.env@).take(i as int),
                    decreases o.env.len() - i,
                {
                    let ghost before = out@;
                    out.push((o.env[i].0.clone(), o.env[i].1.clone()));
                    assert(crate::custom_build::pairs(out@) =~= crate::custom_build::pairs(before).push(
                        (o.env@[i as int].0@, o.env@[i as int].1@),
                    ));
                    assert(crate::custom_build::pairs(o.env@).take(i + 1) =~= crate::custom_build::pairs(o.env@).take(
                        i as int,
                    ).push((o.env@[i as int].0@, o.env@[i as int].1@)));
                    i = i + 1;
                }
                assert(crate::custom_build::pairs(o.env@).take(o.env@.len() as int) =~= crate::custom_build::pairs(o.env@));
            },
            None => {},
        },
        None => {},
    }
    proof {
        if run is None || !outputs@.contains_key(run->Some_0) {
            assert(crate::custom_build::pairs(out@) =~= Seq::<(Seq<char>, Seq<char>)>::empty());
        }
    }
    out
}

/// The lint cap of a unit: none for packages whose warnings are shown and
/// that come from a path; `warn` for other packages whose warnings are
/// shown; `allow` for those whose warnings are not.
pub open spec fn cap_lints_spec(show_warnings: bool, is_path: bool) -> Seq<Seq<char>> {
    if !show_warnings {
        seq!["--cap-lints"@, "allow"@]
    } else if !is_path {
        seq!["--cap-lints"@, "warn"@]
    } else {
        Seq::empty()
    }
}

/// The lint-capping arguments of a unit (see `cap_lints_spec`).
pub fn cap_lints_args(show_warnings: bool, is_path: bool) -> (r: Vec<String>)
    ensures
        strs(r@) == cap_lints_spec(show_warnings, is_path),
{
    let mut out: Vec<String> = Vec::new();
    if !show_warnings {
        out.push(string_from("--cap-lints"));
        out.push(string_from("allow"));
        assert(strs(out@) =~= seq!["--cap-lints"@, "allow"@]);
    } else if !is_path {
        out.push(string_from("--cap-lints"));
        out.push(string_from("warn"));
        assert(strs(out@) =~= seq!["--cap-lints"@, "warn"@]);
    } else {
        assert(strs(out@) =~= Seq::<Seq<char>>::empty());
    }
    out
}

/// Whether a unit passes `-l` flags: a library does, and so does any target
/// of a package without a library.
pub fn pass_l_flag(target: &Target, pkg_targets: &Vec<Target>) -> (r: bool)
    ensures
        r == (target@.kind is Lib || forall|i: int| 0 <= i < pkg_targets@.len() ==> !(pkg_targets@[i]@.kind is Lib)),
{
    if target.is_lib() {
        return true;
    }
    let mut i: usize = 0;
    while i < pkg_targets.len()
        invariant
            i <= pkg_targets@.len(),
            !(target@.kind is Lib),
            forall|k: int| 0 <= k < i ==> !(pkg_targets@[k]@.kind is Lib),
        decreases pkg_targets.len() - i,
    {
        if pkg_targets[i].is_lib() {
            assert(pkg_targets@[i as int]@.kind is Lib);
            return false;
        }
        i = i + 1;
    }
    true
}

/// A dependency of a unit as the unit's compiler arguments read it: its
/// mode, whether its target is linkable and whether it is a library, its
/// crate name, its directory (where a build script run puts its output,
/// or where a compiled unit puts its files), the name the unit refers to
/// it by, and the names of its files that can be linked.
#[derive(Debug)]
pub struct DepArgsUnit {
    pub mode: CompileMode,
    pub linkable: bool,
    pub is_lib: bool,
    pub crate_name: String,
    pub dir: String,
    pub extern_name: String,
    pub linkable_files: Vec<String>,
}

/// What the dependencies add to a unit's compiler invocation: arguments,
/// environment, and a warning.
#[derive(Debug)]
pub struct DepArgs {
    pub args: Vec<String>,
    pub env: Vec<(String, String)>,
    pub warning: Option<String>,
}

/// Whether the dependency is linked: a linkable target not documented.
pub open spec fn links_dep(d: DepArgsUnit) -> bool {
    d.linkable && !(d.mode is Doc)
}

/// The `--extern` arguments for the first `n` files of a linked
/// dependency: its name, `=`, its directory, the separator and the file.
pub open spec fn extern_args(d: DepArgsUnit, sep: char, n: nat) -> Seq<Seq<char>>
    decreases n,
{
    if n == 0 {
        Seq::empty()
    } else {
        extern_args(d, sep, (n - 1) as nat) + seq![
            "--extern"@,
            d.extern_name@ + "="@ + d.dir@ + seq![sep] + d.linkable_files@[n - 1]@,
        ]
    }
}

/// The `--extern` arguments of the first `n` dependencies.
pub open spec fn deps_extern_args(ds: Seq<DepArgsUnit>, sep: char, n: nat) -> Seq<Seq<char>>
    decreases n,
{
    if n == 0 {
        Seq::empty()
    } else {
        deps_extern_args(ds, sep, (n - 1) as nat) + if links_dep(ds[n - 1]) {
            extern_args(ds[n - 1], sep, ds[n - 1].linkable_files@.len())
        } else {
            Seq::empty()
        }
    }
}

/// The `OUT_DIR` of the build script runs among the first `n`
/// dependencies, in order.
pub open spec fn deps_out_dirs(ds: Seq<DepArgsUnit>, n: nat) -> Seq<(Seq<char>, Seq<char>)>
    decreases n,
{
    if n == 0 {
        Seq::empty()
    } else {
        deps_out_dirs(ds, (n - 1) as nat) + if ds[n - 1].mode == CompileMode::RunCustomBuild {
            seq![("OUT_DIR"@, ds[n - 1].dir@)]
        } else {
            Seq::empty()
        }
    }
}

/// The first of the first `n` dependencies that is a library not
/// documented, if any.
pub open spec fn first_lib_dep(ds: Seq<DepArgsUnit>, n: nat) -> Option<int>
    decreases n,
{
    if n == 0 {
        None
    } else {
        match first_lib_dep(ds, (n - 1) as nat) {
            Some(i) => Some(i),
            None => if ds[n - 1].is_lib && !(ds[n - 1].mode is Doc) {
                Some(n - 1)
            } else {
                None
            },
        }
    }
}

/// The warning when no dependency is linked but one is a library: the
/// compiler may fail on an `extern crate` of it.
pub open spec fn no_linkable_warning(ds: Seq<DepArgsUnit>, crate_name: Seq<char>) -> Option<Seq<char>> {
    if exists|k: int| 0 <= k < ds.len() && #[trigger] links_dep(ds[k]) {
        None
    } else {
        match first_lib_dep(ds, ds.len()) {
            Some(i) => {
                let dep = ds[i].crate_name@;
                Some(
                    "The package `"@ + dep + "` provides no linkable target. The compiler might raise an error while compiling `"@
                        + crate_name
                        + "`. Consider adding 'dylib' or 'rlib' to key `crate-type` in `"@ + dep
                        + "`'s Cargo.toml. This warning might turn into a hard error in the future."@,
                )
            },
            None => None,
        }
    }
}

/// The arguments the dependencies give a unit of `kind`: where to find
/// dependencies (the unit's own dependency directory, and for a target
/// unit the host's as well), then an `--extern` for each file of each
/// linked dependency.
pub open spec fn deps_args_spec(kind: Kind, deps_dir: Seq<char>, host_deps: Seq<char>, ds: Seq<DepArgsUnit>, sep: char) -> Seq<
    Seq<char>,
> {
    seq!["-L"@, "dependency="@ + deps_dir] + (if kind == Kind::Target {
        seq!["-L"@, "dependency="@ + host_deps]
    } else {
        Seq::empty()
    }) + deps_extern_args(ds, sep, ds.len())
}

/// Appends a copy of the text.
fn push_text(out: &mut Vec<String>, s: &str)
    ensures
        strs(final(out)@) == strs(old(out)@).push(s@),
{
    let t = s.to_string();
    out.push(t);
    assert(strs(out@) =~= strs(old(out)@).push(s@));
}

/// Appends the text made of the parts.
fn push_joined(out: &mut Vec<String>, parts: &Vec<char>)
    ensures
        strs(final(out)@) == strs(old(out)@).push(parts@),
{
    let s = string_of(parts);
    out.push(s);
    assert(strs(out@) =~= strs(old(out)@).push(parts@));
}

/// What the dependencies add to a unit's compiler invocation (see
/// `deps_args_spec`, `deps_out_dirs` and `no_linkable_warning`); `sep` is
/// the platform's path separator.
pub fn build_deps_args(kind: Kind, deps_dir: &str, host_deps: &str, crate_name: &str, deps: &Vec<DepArgsUnit>, sep: char) -> (r: DepArgs)
    ensures
        strs(r.args@) == deps_args_spec(kind, deps_dir@, host_deps@, deps@, sep),
        r.env@.map_values(|p: (String, String)| (p.0@, p.1@)) == deps_out_dirs(deps@, deps@.len()),
        match no_linkable_warning(deps@, crate_name@) {
            Some(w) => r.warning matches Some(m) && m@ == w,
            None => r.warning is None,
        },
{
    let mut args: Vec<String> = Vec::new();
    push_text(&mut args, "-L");
    let mut d = chars_of("dependency=");
    push_str(&mut d, deps_dir);
    push_joined(&mut args, &d);
    assert(strs(args@) =~= seq!["-L"@, "dependency="@ + deps_dir@]);
    if kind == Kind::Target {
        let ghost before = strs(args@);
        push_text(&mut args, "-L");
        let mut h = chars_of("dependency=");
        push_str(&mut h, host_deps);
        push_joined(&mut args, &h);
        assert(strs(args@) =~= before + seq!["-L"@, "dependency="@ + host_deps@]);
    }
    assert(strs(args@) =~= seq!["-L"@, "dependency="@ + deps_dir@] + (if kind == Kind::Target {
        seq!["-L"@, "dependency="@ + host_deps@]
    } else {
        Seq::empty()
    }));
    let ghost a0 = strs(args@);
    // whether a dependency is linked, and the first library not documented
    let mut any_linked = false;
    let mut first_lib: Option<usize> = None;
    let mut env: Vec<(String, String)> = Vec::new();
    let mut i: usize = 0;
    while i < deps.len()
        invariant
            i <= deps@.len(),
            strs(args@) == a0 + deps_extern_args(deps@, sep, i as nat),
            env@.map_values(|p: (String, String)| (p.0@, p.1@)) == deps_out_dirs(deps@, i as nat),
            any_linked == exists|k: int| 0 <= k < i && #[trigger] links_dep(deps@[k]),
            first_lib_dep(deps@, i as nat) == match first_lib {
                Some(k) => Some(k as int),
                None => None::<int>,
            },
            first_lib matches Some(k) ==> k < i,
        decreases deps.len() - i,
    {
        let dep = &deps[i];
        if first_lib.is_none() && dep.is_lib && !dep.mode.is_doc() {
            first_lib = Some(i);
        }
        if dep.mode == CompileMode::RunCustomBuild {
            let ghost before = env@.map_values(|p: (String, String)| (p.0@, p.1@));
            env.push(("OUT_DIR".to_string(), dep.dir.clone()));
            assert(env@.map_values(|p: (String, String)| (p.0@, p.1@)) =~= before.push(("OUT_DIR"@, dep.dir@)));
        } else {
            assert(env@.map_values(|p: (String, String)| (p.0@, p.1@)) =~= deps_out_dirs(deps@, (i + 1) as nat));
        }
        let ghost b0 = strs(args@);
        if dep.linkable && !dep.mode.is_doc() {
            any_linked = true;
            let mut j: usize = 0;
            while j < dep.linkable_files.len()
                invariant
                    j <= dep.linkable_files@.len(),
                    strs(args@) == b0 + extern_args(*dep, sep, j as nat),
                decreases dep.linkable_files.len() - j,
            {
                let ghost before = strs(args@);
                push_text(&mut args, "--extern");
                let mut v = chars_of(dep.extern_name.as_str());
                push_str(&mut v, "=");
                push_str(&mut v, dep.dir.as_str());
                v.push(sep);
                push_str(&mut v, dep.linkable_files[j].as_str());
                assert(v@ =~= dep.extern_name@ + "="@ + dep.dir@ + seq![sep] + dep.linkable_files@[j as int]@);
                push_joined(&mut args, &v);
                assert(strs(args@) =~= before + seq![
                    "--extern"@,
                    dep.extern_name@ + "="@ + dep.dir@ + seq![sep] + dep.linkable_files@[j as int]@,
                ]);
                j = j + 1;
            }
            assert(links_dep(deps@[i as int]));
        }
        assert(strs(args@) =~= a0 + deps_extern_args(deps@, sep, (i + 1) as nat));
        i = i + 1;
    }
    let warning = if any_linked {
        None
    } else {
        match first_lib {
            Some(k) => {
                assert(!(exists|m: int| 0 <= m < deps@.len() && #[trigger] links_dep(deps@[m])));
                assert(first_lib_dep(deps@, deps@.len()) == Some(k as int));
                let dep_name = deps[k].crate_name.as_str();
                let mut w = chars_of("The package `");
                push_str(&mut w, dep_name);
                push_str(&mut w, "` provides no linkable target. The compiler might raise an error while compiling `");
                push_str(&mut w, crate_name);
                push_str(&mut w, "`. Consider adding 'dylib' or 'rlib' to key `crate-type` in `");
                push_str(&mut w, dep_name);
                push_str(&mut w, "`'s Cargo.toml. This warning might turn into a hard error in the future.");
                assert(w@ =~= no_linkable_warning(deps@, crate_name@)->0);
                Some(string_of(&w))
            },
            None => None,
        }
    };
    DepArgs { args, env, warning }
}

/// Whether the path is absolute, as `std::path::Path::is_absolute`
/// decides it on the platform the tool is built for.
pub uninterp spec fn path_absolute(p: Seq<char>) -> bool;

/// What remains of the path `p` after the leading path `base`, as
/// `std::path::Path::strip_prefix` gives it (whole components), written
/// out; none when `base` does not lead `p`.
pub uninterp spec fn path_relative_to(p: Seq<char>, base: Seq<char>) -> Option<Seq<char>>;

/// Calls `std::path::Path::is_absolute`; the result is named
/// (`path_absolute`).
#[verifier::external_body]
fn is_absolute_path(p: &str) -> (r: bool)
    ensures
        r == path_absolute(p@),
{
    std::path::Path::new(p).is_absolute()
}

/// Calls `std::path::Path::strip_prefix` and writes the rest out; the
/// result is named (`path_relative_to`).
#[verifier::external_body]
fn strip_path_prefix(p: &str, base: &str) -> (r: Option<String>)
    ensures
        match path_relative_to(p@, base@) {
            Some(x) => r matches Some(s) && s@ == x,
            None => r is None,
        },
{
    std::path::Path::new(p).strip_prefix(base).ok().and_then(|q| q.to_str()).map(|q| q.to_string())
}

/// The path of a target's source to hand to the compiler, and the
/// directory to run it in: relative to the workspace root when the source
/// lies under it, from the root; otherwise the source as given, from the
/// package's root.
pub fn path_args(ws_root: &str, src: &str, pkg_root: &str) -> (r: (String, String))
    requires
        path_absolute(src@),
    ensures
        match path_relative_to(src@, ws_root@) {
            Some(rel) => r.0@ == rel && r.1@ == ws_root@,
            None => r.0@ == src@ && r.1@ == pkg_root@,
        },
{
    match strip_path_prefix(src, ws_root) {
        Some(rel) => (rel, ws_root.to_string()),
        None => (src.to_string(), pkg_root.to_string()),
    }
}

/// The arguments of `path_args` when the source path is absolute, as
/// compiling requires; `None` for a relative one.
pub fn checked_path_args(ws_root: &str, src: &str, pkg_root: &str) -> (r: Option<(String, String)>)
    ensures
        !path_absolute(src@) ==> r is None,
        path_absolute(src@) ==> (r matches Some(x) && match path_relative_to(src@, ws_root@) {
            Some(rel) => x.0@ == rel && x.1@ == ws_root@,
            None => x.0@ == src@ && x.1@ == pkg_root@,
        }),
{
    if is_absolute_path(src) {
        Some(path_args(ws_root, src, pkg_root))
    } else {
        None
    }
}


/// The setting that the last `-C flag=on` or `-C flag=off` among the
/// arguments gives a flag, if any (as the compiler reads its arguments,
/// the last setting of a flag wins); `on` and `off` are the two spellings.
pub open spec fn flag_setting(args: Seq<Seq<char>>, on: Seq<char>, off: Seq<char>) -> Option<bool>
    decreases args.len(),
{
    if args.len() < 2 {
        None
    } else if args[args.len() - 2] == "-C"@ && args[args.len() - 1] == on {
        Some(true)
    } else if args[args.len() - 2] == "-C"@ && args[args.len() - 1] == off {
        Some(false)
    } else {
        flag_setting(args.drop_last(), on, off)
    }
}

/// Whether the compiler builds with debug assertions under the arguments:
/// as they set it, else on exactly at optimization level `0`.
pub open spec fn effective_debug_assertions(args: Seq<Seq<char>>, opt_zero: bool) -> bool {
    match flag_setting(args, "debug-assertions=on"@, "debug-assertions=off"@) {
        Some(b) => b,
        None => opt_zero,
    }
}

/// Whether the compiler builds with overflow checks under the arguments:
/// as they set it, else as debug assertions are.
pub open spec fn effective_overflow_checks(args: Seq<Seq<char>>, opt_zero: bool) -> bool {
    match flag_setting(args, "overflow-checks=on"@, "overflow-checks=off"@) {
        Some(b) => b,
        None => effective_debug_assertions(args, opt_zero),
    }
}

/// The check flags make the compiler build with exactly the profile's
/// debug assertions and overflow checks, whatever the optimization level.
pub proof fn lemma_check_args_give_profile_checks(opt_zero: bool, debug_assertions: bool, overflow_checks: bool)
    ensures
        effective_debug_assertions(check_args(opt_zero, debug_assertions, overflow_checks), opt_zero) == debug_assertions,
        effective_overflow_checks(check_args(opt_zero, debug_assertions, overflow_checks), opt_zero) == overflow_checks,
{
    let c = "-C"@;
    let da_on = "debug-assertions=on"@;
    let da_off = "debug-assertions=off"@;
    let oc_on = "overflow-checks=on"@;
    let oc_off = "overflow-checks=off"@;
    reveal_strlit("-C");
    reveal_strlit("debug-assertions=on");
    reveal_strlit("debug-assertions=off");
    reveal_strlit("overflow-checks=on");
    reveal_strlit("overflow-checks=off");
    assert(c.len() == 2 && da_on.len() == 19 && da_off.len() == 20 && oc_on.len() == 18 && oc_off.len() == 19);
    assert(da_on[0] != oc_off[0]);
    assert(da_on != oc_off);
    let a = check_args(opt_zero, debug_assertions, overflow_checks);
    let z = opt_zero;
    let d = debug_assertions;
    let o = overflow_checks;
    if !z && d && !o {
        assert(a =~= seq![c, da_on, c, oc_off]);
        assert(a.drop_last() =~= seq![c, da_on, c]);
        assert(a.drop_last().drop_last() =~= seq![c, da_on]);
        assert(flag_setting(a.drop_last().drop_last(), da_on, da_off) == Some(true));
        assert(flag_setting(a.drop_last(), da_on, da_off) == Some(true));
    } else if !z && d && o {
        assert(a =~= seq![c, da_on]);
        assert(flag_setting(a.drop_last(), oc_on, oc_off) is None);
    } else if !z && !d && o {
        assert(a =~= seq![c, oc_on]);
        assert(flag_setting(a.drop_last(), da_on, da_off) is None);
    } else if !z && !d && !o {
        assert(a =~= Seq::<Seq<char>>::empty());
    } else if z && !d && o {
        assert(a =~= seq![c, da_off, c, oc_on]);
        assert(a.drop_last() =~= seq![c, da_off, c]);
        assert(a.drop_last().drop_last() =~= seq![c, da_off]);
        assert(flag_setting(a.drop_last().drop_last(), da_on, da_off) == Some(false));
        assert(flag_setting(a.drop_last(), da_on, da_off) == Some(false));
    } else if z && !d && !o {
        assert(a =~= seq![c, da_off]);
        assert(flag_setting(a.drop_last(), oc_on, oc_off) is None);
    } else if z && d && !o {
        assert(a =~= seq![c, oc_off]);
        assert(flag_setting(a.drop_last(), da_on, da_off) is None);
    } else {
        assert(a =~= Seq::<Seq<char>>::empty());
    }
}

} // verus!
