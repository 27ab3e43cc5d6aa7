//! What a build script is run with: the environment variables that tell it
//! about the build, the `DEP_*` variables from the scripts of the native
//! libraries it depends on, and the source of a generated `metabuild`
//! script.
use vstd::prelude::*;
use crate::compiler::{envify, envify_spec};
use crate::custom_build::{pairs, BuildOutput, BuildOutputView, BuildScriptOutputs};
use crate::profiles::{Profile, ProfileView};
use crate::text::{chars_of, concat_str, dec, dec_chars, push_all, push_str, string_from, string_of, strs};

verus! {

/// A `cfg` of the target: a name, or a key with a value.
#[derive(Debug)]
pub enum Cfg {
    Name(String),
    KeyPair(String, String),
}

/// The key of a `cfg`.
pub open spec fn cfg_key(c: Cfg) -> Seq<char> {
    match c {
        Cfg::Name(n) => n@,
        Cfg::KeyPair(k, _) => k@,
    }
}

/// The keys of the `cfg`s in the order they first appear.
pub open spec fn cfg_keys(cs: Seq<Cfg>) -> Seq<Seq<char>>
    decreases cs.len(),
{
    if cs.len() == 0 {
        Seq::empty()
    } else {
        let ks = cfg_keys(cs.drop_last());
        if ks.contains(cfg_key(cs.last())) {
            ks
        } else {
            ks.push(cfg_key(cs.last()))
        }
    }
}

/// Whether the key appears as a plain name.
pub open spec fn cfg_named(cs: Seq<Cfg>, k: Seq<char>) -> bool {
    exists|i: int| 0 <= i < cs.len() && cs[i] is Name && cfg_key(#[trigger] cs[i]) == k
}

/// The values of the key, in order.
pub open spec fn cfg_values(cs: Seq<Cfg>, k: Seq<char>) -> Seq<Seq<char>> {
    cs.filter_map(
        |c: Cfg|
            match c {
                Cfg::KeyPair(k2, v) => if k2@ == k {
                    Some(v@)
                } else {
                    None
                },
                _ => None,
            },
    )
}

/// The texts joined with commas.
pub open spec fn join_commas(s: Seq<Seq<char>>) -> Seq<char>
    decreases s.len(),
{
    if s.len() == 0 {
        Seq::empty()
    } else if s.len() == 1 {
        s[0]
    } else {
        join_commas(s.drop_last()) + seq![','] + s.last()
    }
}

/// The value of a key: empty when it appears as a plain name, otherwise its
/// values joined with commas.
pub open spec fn cfg_value(cs: Seq<Cfg>, k: Seq<char>) -> Seq<char> {
    if cfg_named(cs, k) {
        Seq::empty()
    } else {
        join_commas(cfg_values(cs, k))
    }
}

/// The `CARGO_CFG_*` variables: one per key but `debug_assertions` (which
/// is always on when the compiler is asked, and misleading).
pub open spec fn cfg_env(cs: Seq<Cfg>) -> Seq<(Seq<char>, Seq<char>)> {
    cfg_keys(cs).filter_map(|k: Seq<char>| cfg_entry(cs, k))
}

/// The variable of one key, if it gets one.
pub open spec fn cfg_entry(cs: Seq<Cfg>, k: Seq<char>) -> Option<(Seq<char>, Seq<char>)> {
    if k != "debug_assertions"@ {
        Some(("CARGO_CFG_"@ + envify_spec(k), cfg_value(cs, k)))
    } else {
        None
    }
}

/// A key of the `cfg`s seen so far: whether it appeared as a name, and its
/// values in order.
struct CfgEntry {
    key: String,
    named: bool,
    values: Vec<String>,
}

/// Whether the entries describe the first `cs` `cfg`s.
spec fn entries_ok(es: Seq<CfgEntry>, cs: Seq<Cfg>) -> bool {
    &&& es.map_values(|e: CfgEntry| e.key@) == cfg_keys(cs)
    &&& forall|m: int| 0 <= m < es.len() ==> (#[trigger] es[m]).named == cfg_named(cs, es[m].key@)
    &&& forall|m: int| 0 <= m < es.len() ==> !(#[trigger] es[m]).named ==> strs(es[m].values@) == cfg_values(cs, es[m].key@)
}

/// The keys found first are unique.
proof fn lemma_cfg_keys_no_dup(cs: Seq<Cfg>)
    ensures
        cfg_keys(cs).no_duplicates(),
    decreases cs.len(),
{
    if cs.len() > 0 {
        lemma_cfg_keys_no_dup(cs.drop_last());
    }
}

/// A key is found first exactly when some `cfg` has it.
proof fn lemma_cfg_keys_contains(cs: Seq<Cfg>, k: Seq<char>)
    ensures
        cfg_keys(cs).contains(k) <==> exists|i: int| 0 <= i < cs.len() && cfg_key(#[trigger] cs[i]) == k,
    decreases cs.len(),
{
    if cs.len() > 0 {
        let d = cs.drop_last();
        lemma_cfg_keys_contains(d, k);
        if exists|i: int| 0 <= i < cs.len() && cfg_key(#[trigger] cs[i]) == k {
            let i = choose|i: int| 0 <= i < cs.len() && cfg_key(#[trigger] cs[i]) == k;
            if i < cs.len() - 1 {
                assert(d[i] == cs[i]);
            } else {
                let ks = cfg_keys(d);
                if !ks.contains(k) {
                    assert(ks.push(k)[ks.len() as int] == k);
                }
            }
        }
        if cfg_keys(cs).contains(k) && !cfg_keys(d).contains(k) {
            assert(cfg_key(cs[cs.len() - 1]) == k);
        }
        if cfg_keys(d).contains(k) {
            let i = choose|i: int| 0 <= i < d.len() && cfg_key(#[trigger] d[i]) == k;
            assert(cs[i] == d[i]);
            let ks = cfg_keys(d);
            if !ks.contains(cfg_key(cs.last())) {
                let j = choose|j: int| 0 <= j < ks.len() && ks[j] == k;
                assert(ks.push(cfg_key(cs.last()))[j] == k);
            }
        }
    }
}

/// The index of the entry with the key.
fn find_entry(es: &Vec<CfgEntry>, k: &String) -> (r: Option<usize>)
    ensures
        r matches Some(j) ==> j < es@.len() && es@[j as int].key@ == k@,
        r is None ==> forall|m: int| 0 <= m < es@.len() ==> (#[trigger] es@[m]).key@ != k@,
{
    let mut j: usize = 0;
    while j < es.len()
        invariant
            j <= es@.len(),
            forall|m: int| 0 <= m < j ==> (#[trigger] es@[m]).key@ != k@,
        decreases es.len() - j,
    {
        if es[j].key.eq(k) {
            return Some(j);
        }
        j = j + 1;
    }
    None
}

/// A copy of a cfg's key.
fn key_of(c: &Cfg) -> (r: String)
    ensures
        r@ == cfg_key(*c),
{
    match c {
        Cfg::Name(n) => n.clone(),
        Cfg::KeyPair(k, _) => k.clone(),
    }
}

/// The entries of the `cfg`s: each key in order of first appearance.
fn cfg_entries(cfgs: &Vec<Cfg>) -> (r: Vec<CfgEntry>)
    ensures
        entries_ok(r@, cfgs@),
{
    let mut es: Vec<CfgEntry> = Vec::new();
    let mut i: usize = 0;
    proof {
        assert(cfgs@.take(0) =~= Seq::<Cfg>::empty());
        assert(es@.map_values(|e: CfgEntry| e.key@) =~= cfg_keys(cfgs@.take(0)));
    }
    while i < cfgs.len()
        invariant
            i <= cfgs@.len(),
            entries_ok(es@, cfgs@.take(i as int)),
        decreases cfgs.len() - i,
    {
        let ghost pre = cfgs@.take(i as int);
        let ghost post = cfgs@.take(i + 1);
        let c = &cfgs[i];
        assert(post.drop_last() =~= pre);
        assert(post.last() == *c);
        assert(post =~= pre.push(*c));
        let k = key_of(c);
        let ghost es0 = es@;
        proof {
            lemma_cfg_keys_contains(pre, k@);
        }
        let j = match find_entry(&es, &k) {
            Some(j) => {
                proof {
                    assert(es0.map_values(|e: CfgEntry| e.key@)[j as int] == k@);
                    assert(cfg_keys(pre).contains(k@));
                    assert(cfg_keys(post) == cfg_keys(pre));
                }
                j
            },
            None => {
                proof {
                    assert forall|m: int| 0 <= m < cfg_keys(pre).len() implies cfg_keys(pre)[m] != k@ by {
                        assert(es0.map_values(|e: CfgEntry| e.key@)[m] == es0[m].key@);
                    }
                    assert(!cfg_keys(pre).contains(k@));
                    assert(!cfg_named(pre, k@));
                    assert(cfg_values(pre, k@) =~= Seq::<Seq<char>>::empty()) by {
                        lemma_no_values(pre, k@);
                    }
                }
                es.push(CfgEntry { key: k.clone(), named: false, values: Vec::new() });
                proof {
                    assert(es@.map_values(|e: CfgEntry| e.key@) =~= cfg_keys(pre).push(k@));
                    assert(strs(es@[es@.len() - 1].values@) =~= Seq::<Seq<char>>::empty());
                    assert(cfg_keys(post) == cfg_keys(pre).push(k@));
                    assert forall|m: int| 0 <= m < es@.len() implies (#[trigger] es@[m]).named == cfg_named(pre, es@[m].key@) && (!es@[m].named ==> strs(es@[m].values@) == cfg_values(pre, es@[m].key@)) by {
                        if m < es0.len() {
                            assert(es@[m] == es0[m]);
                        }
                    }
                }
                es.len() - 1
            },
        };
        let ghost es1 = es@;
        let old_e = es.remove(j);
        let new_e = match c {
            Cfg::Name(_) => CfgEntry { key: old_e.key, named: true, values: old_e.values },
            Cfg::KeyPair(_, v) => if old_e.named {
                old_e
            } else {
                let mut vs = old_e.values;
                let ghost ov = vs@;
                vs.push(v.clone());
                assert(strs(vs@) =~= strs(ov).push(v@));
                CfgEntry { key: old_e.key, named: false, values: vs }
            },
        };
        es.insert(j, new_e);
        proof {
            assert(es@ =~= es1.update(j as int, es@[j as int]));
            lemma_entries_step(es1, es@, j as int, pre, *c);
        }
        i = i + 1;
    }
    assert(cfgs@.take(cfgs@.len() as int) =~= cfgs@);
    es
}

/// A key that no `cfg` has has no values.
proof fn lemma_no_values(cs: Seq<Cfg>, k: Seq<char>)
    requires
        forall|i: int| 0 <= i < cs.len() ==> cfg_key(#[trigger] cs[i]) != k,
    ensures
        cfg_values(cs, k) =~= Seq::<Seq<char>>::empty(),
    decreases cs.len(),
{
    if cs.len() > 0 {
        let d = cs.drop_last();
        assert forall|i: int| 0 <= i < d.len() implies cfg_key(#[trigger] d[i]) != k by {
            assert(d[i] == cs[i]);
        }
        lemma_no_values(d, k);
        assert(cfg_key(cs[cs.len() - 1]) != k);
    }
}

/// One more `cfg` processed keeps the entries right.
proof fn lemma_entries_step(es1: Seq<CfgEntry>, es2: Seq<CfgEntry>, j: int, pre: Seq<Cfg>, c: Cfg)
    requires
        0 <= j < es1.len(),
        es2.len() == es1.len(),
        forall|m: int| 0 <= m < es1.len() && m != j ==> es2[m] == es1[m],
        es1[j].key@ == cfg_key(c),
        es2[j].key@ == es1[j].key@,
        es1.map_values(|e: CfgEntry| e.key@) == cfg_keys(pre) || es1.map_values(|e: CfgEntry| e.key@) == cfg_keys(
            pre,
        ).push(cfg_key(c)),
        es1.map_values(|e: CfgEntry| e.key@) == cfg_keys(pre.push(c)),
        forall|m: int| 0 <= m < es1.len() ==> (#[trigger] es1[m]).named == cfg_named(pre, es1[m].key@),
        forall|m: int| 0 <= m < es1.len() ==> !(#[trigger] es1[m]).named ==> strs(es1[m].values@) == cfg_values(pre, es1[m].key@),
        c is Name ==> es2[j].named,
        c matches Cfg::KeyPair(_, v) ==> (es2[j].named == es1[j].named && (!es1[j].named ==> strs(es2[j].values@) == strs(es1[j].values@).push(v@))),
    ensures
        entries_ok(es2, pre.push(c)),
{
    let post = pre.push(c);
    assert(post.drop_last() =~= pre);
    assert(es2.map_values(|e: CfgEntry| e.key@) =~= es1.map_values(|e: CfgEntry| e.key@)) by {
        assert forall|m: int| 0 <= m < es1.len() implies es2[m].key@ == es1[m].key@ by {
            if m != j {
                assert(es2[m] == es1[m]);
            }
        }
    }
    lemma_cfg_keys_no_dup(post);
    assert forall|m: int| 0 <= m < es2.len() implies (#[trigger] es2[m]).named == cfg_named(post, es2[m].key@) && (
    !es2[m].named ==> strs(es2[m].values@) == cfg_values(post, es2[m].key@)) by {
        let k = es2[m].key@;
        assert(cfg_named(post, k) == (cfg_named(pre, k) || (c is Name && cfg_key(c) == k))) by {
            if cfg_named(post, k) {
                let i = choose|i: int| 0 <= i < post.len() && post[i] is Name && cfg_key(#[trigger] post[i]) == k;
                if i < pre.len() {
                    assert(post[i] == pre[i]);
                }
            }
            if cfg_named(pre, k) {
                let i = choose|i: int| 0 <= i < pre.len() && pre[i] is Name && cfg_key(#[trigger] pre[i]) == k;
                assert(post[i] == pre[i]);
            }
            if c is Name && cfg_key(c) == k {
                assert(post[pre.len() as int] == c);
            }
        }
        if m != j {
            assert(es2[m] == es1[m]);
            let ks = es1.map_values(|e: CfgEntry| e.key@);
            assert(ks[m] == k);
            assert(ks[j] == cfg_key(c));
            assert(k != cfg_key(c));
        }
    }
}

/// The texts joined with commas.
fn join_with_commas(v: &Vec<String>) -> (r: String)
    ensures
        r@ == join_commas(strs(v@)),
{
    let mut out: Vec<char> = Vec::new();
    let mut i: usize = 0;
    while i < v.len()
        invariant
            i <= v@.len(),
            out@ == join_commas(strs(v@).take(i as int)),
        decreases v.len() - i,
    {
        let ghost t = strs(v@).take(i + 1);
        assert(t.drop_last() =~= strs(v@).take(i as int));
        assert(t.last() == v@[i as int]@);
        if i > 0 {
            out.push(',');
        } else {
            assert(t =~= seq![v@[0]@]);
        }
        push_str(&mut out, v[i].as_str());
        i = i + 1;
    }
    assert(strs(v@).take(v@.len() as int) =~= strs(v@));
    string_of(&out)
}

/// The `CARGO_CFG_*` variables of the target's `cfg`s (see `cfg_env`).
pub fn cfg_env_vars(cfgs: &Vec<Cfg>) -> (r: Vec<(String, String)>)
    ensures
        pairs(r@) == cfg_env(cfgs@),
{
    let es = cfg_entries(cfgs);
    let ghost ks = cfg_keys(cfgs@);
    let ghost f = |k: Seq<char>| cfg_entry(cfgs@, k);
    let mut out: Vec<(String, String)> = Vec::new();
    let mut m: usize = 0;
    while m < es.len()
        invariant
            m <= es@.len(),
            entries_ok(es@, cfgs@),
            ks == cfg_keys(cfgs@),
            pairs(out@) == ks.take(m as int).filter_map(|k: Seq<char>| cfg_entry(cfgs@, k)),
        decreases es.len() - m,
    {
        proof {
            assert(es@.map_values(|e: CfgEntry| e.key@)[m as int] == es@[m as int].key@);
            ks.lemma_filter_map_take_succ(|k: Seq<char>| cfg_entry(cfgs@, k), m as int);
        }
        let e = &es[m];
        let skip = crate::text::eq_str(&chars_of(e.key.as_str()), "debug_assertions");
        if !skip {
            let name = concat_str("CARGO_CFG_", envify(e.key.as_str()).as_str());
            let value = if e.named {
                string_from("")
            } else {
                join_with_commas(&e.values)
            };
            proof {
                reveal_strlit("");
            }
            assert(ks[m as int] == e.key@);
            assert(e.named == cfg_named(cfgs@, e.key@));
            assert(cfg_entry(cfgs@, ks[m as int]) == Some((name@, value@)));
            let ghost before = out@;
            out.push((name, value));
            assert(pairs(out@) =~= pairs(before).push((name@, value@)));
        } else {
            assert(ks[m as int] == e.key@);
            assert(cfg_entry(cfgs@, ks[m as int]) is None);
        }
        m = m + 1;
    }
    proof {
        assert(es@.map_values(|e: CfgEntry| e.key@).len() == es@.len());
        assert(ks.take(ks.len() as int) =~= ks);
    }
    out
}

/// What the build gives for the environment of a build script, besides
/// the profile of the package's library.
#[derive(Debug)]
pub struct ScriptEnvContext {
    pub out_dir: String,
    pub manifest_dir: String,
    pub jobs: u32,
    pub target: String,
    pub host: String,
    pub rustc: String,
    pub rustdoc: String,
    /// The linker configured for the target, if any.
    pub linker: Option<String>,
    /// The native library the package links, if any.
    pub links: Option<String>,
    /// The enabled features of the package.
    pub features: Vec<String>,
    /// The `cfg`s of the target platform.
    pub cfgs: Vec<Cfg>,
}

/// `CARGO_FEATURE_<NAME>=1` for each feature.
pub open spec fn feature_env(fs: Seq<Seq<char>>) -> Seq<(Seq<char>, Seq<char>)> {
    fs.map_values(|f: Seq<char>| ("CARGO_FEATURE_"@ + envify_spec(f), "1"@))
}

/// The variable if there is a value.
pub open spec fn opt_var(name: Seq<char>, v: Option<String>) -> Seq<(Seq<char>, Seq<char>)> {
    match v {
        Some(x) => seq![(name, x@)],
        None => Seq::empty(),
    }
}

/// The environment a build script is run with, in the order it is set:
/// the output and manifest directories, the number of jobs, the target,
/// whether debug info is on, the optimization level, the profile (`release`
/// or `debug`), the host, the compiler and `rustdoc`, the linker and the
/// linked library if any, the features and the `cfg`s.
pub open spec fn script_env_spec(c: ScriptEnvContext, p: ProfileView, release: bool) -> Seq<(Seq<char>, Seq<char>)> {
    seq![
        ("OUT_DIR"@, c.out_dir@),
        ("CARGO_MANIFEST_DIR"@, c.manifest_dir@),
        ("NUM_JOBS"@, dec(c.jobs as nat)),
        ("TARGET"@, c.target@),
        ("DEBUG"@, if p.debuginfo matches Some(d) && d != 0 {
            "true"@
        } else {
            "false"@
        }),
        ("OPT_LEVEL"@, p.opt_level),
        ("PROFILE"@, if release {
            "release"@
        } else {
            "debug"@
        }),
        ("HOST"@, c.host@),
        ("RUSTC"@, c.rustc@),
        ("RUSTDOC"@, c.rustdoc@),
    ] + opt_var("RUSTC_LINKER"@, c.linker) + opt_var("CARGO_MANIFEST_LINKS"@, c.links) + feature_env(
        strs(c.features@),
    ) + cfg_env(c.cfgs@)
}

/// Appends a variable.
fn push_var(out: &mut Vec<(String, String)>, name: &str, value: &str)
    ensures
        pairs(final(out)@) == pairs(old(out)@).push((name@, value@)),
{
    let ghost before = out@;
    out.push((string_from(name), string_from(value)));
    assert(pairs(out@) =~= pairs(before).push((name@, value@)));
}

/// Appends a list of variables.
fn push_vars(out: &mut Vec<(String, String)>, vars: Vec<(String, String)>)
    ensures
        pairs(final(out)@) == pairs(old(out)@) + pairs(vars@),
{
    let ghost o = pairs(out@);
    let mut i: usize = 0;
    while i < vars.len()
        invariant
            i <= vars@.len(),
            pairs(out@) == o + pairs(vars@).take(i as int),
        decreases vars.len() - i,
    {
        push_var(out, vars[i].0.as_str(), vars[i].1.as_str());
        assert(pairs(vars@).take(i + 1) =~= pairs(vars@).take(i as int).push((vars@[i as int].0@, vars@[i as int].1@)));
        i = i + 1;
    }
    assert(pairs(vars@).take(vars@.len() as int) =~= pairs(vars@));
}

/// The environment a build script is run with (see `script_env_spec`);
/// `release` tells whether the profile is a release one.
pub fn build_script_env(c: &ScriptEnvContext, profile: &Profile, release: bool) -> (r: Vec<(String, String)>)
    ensures
        pairs(r@) == script_env_spec(*c, profile@, release),
{
    let mut out: Vec<(String, String)> = Vec::new();
    push_var(&mut out, "OUT_DIR", c.out_dir.as_str());
    push_var(&mut out, "CARGO_MANIFEST_DIR", c.manifest_dir.as_str());
    let jobs = string_of(&dec_chars(c.jobs as u64));
    push_var(&mut out, "NUM_JOBS", jobs.as_str());
    push_var(&mut out, "TARGET", c.target.as_str());
    let debug = match profile.debuginfo {
        Some(d) => d != 0,
        None => false,
    };
    push_var(&mut out, "DEBUG", if debug { "true" } else { "false" });
    push_var(&mut out, "OPT_LEVEL", profile.opt_level.as_str());
    push_var(&mut out, "PROFILE", if release { "release" } else { "debug" });
    push_var(&mut out, "HOST", c.host.as_str());
    push_var(&mut out, "RUSTC", c.rustc.as_str());
    push_var(&mut out, "RUSTDOC", c.rustdoc.as_str());
    let ghost base = pairs(out@);
    match &c.linker {
        Some(l) => push_var(&mut out, "RUSTC_LINKER", l.as_str()),
        None => {},
    }
    assert(pairs(out@) =~= base + opt_var("RUSTC_LINKER"@, c.linker));
    let ghost base2 = pairs(out@);
    match &c.links {
        Some(l) => push_var(&mut out, "CARGO_MANIFEST_LINKS", l.as_str()),
        None => {},
    }
    assert(pairs(out@) =~= base2 + opt_var("CARGO_MANIFEST_LINKS"@, c.links));
    let ghost base3 = pairs(out@);
    let mut i: usize = 0;
    while i < c.features.len()
        invariant
            i <= c.features@.len(),
            pairs(out@) == base3 + feature_env(strs(c.features@).take(i as int)),
        decreases c.features.len() - i,
    {
        let name = concat_str("CARGO_FEATURE_", envify(c.features[i].as_str()).as_str());
        push_var(&mut out, name.as_str(), "1");
        assert(feature_env(strs(c.features@).take(i + 1)) =~= feature_env(strs(c.features@).take(i as int)).push(
            (name@, "1"@),
        ));
        i = i + 1;
    }
    assert(strs(c.features@).take(c.features@.len() as int) =~= strs(c.features@));
    let cv = cfg_env_vars(&c.cfgs);
    push_vars(&mut out, cv);
    out
}

/// The `DEP_<LIB>_<KEY>` variables from the outputs of the scripts of the
/// native libraries the package depends on (name and metadata hash of
/// each), or the first hash that has no output.
pub open spec fn dep_env_spec(deps: Seq<(Seq<char>, u64)>, outs: Map<u64, BuildOutputView>) -> Result<Seq<(Seq<char>, Seq<char>)>, u64>
    decreases deps.len(),
{
    if deps.len() == 0 {
        Ok(Seq::empty())
    } else {
        match dep_env_spec(deps.drop_last(), outs) {
            Err(e) => Err(e),
            Ok(acc) => {
                let (name, meta) = deps.last();
                if outs.contains_key(meta) {
                    Ok(acc + outs[meta].metadata.map_values(
                        |kv: (Seq<char>, Seq<char>)|
                            ("DEP_"@ + envify_spec(name) + "_"@ + envify_spec(kv.0), kv.1),
                    ))
                } else {
                    Err(meta)
                }
            },
        }
    }
}

/// Once a dependency's output is missing, later ones change nothing.
proof fn lemma_dep_env_err(deps: Seq<(Seq<char>, u64)>, outs: Map<u64, BuildOutputView>, n: nat)
    requires
        n <= deps.len(),
        dep_env_spec(deps.take(n as int), outs) is Err,
    ensures
        dep_env_spec(deps, outs) == dep_env_spec(deps.take(n as int), outs),
    decreases deps.len() - n,
{
    if n < deps.len() {
        assert(deps.take(n + 1int).drop_last() =~= deps.take(n as int));
        lemma_dep_env_err(deps, outs, n + 1);
    } else {
        assert(deps.take(n as int) =~= deps);
    }
}

/// The views of the native-library dependencies.
pub open spec fn lib_deps_view(v: Seq<(String, u64)>) -> Seq<(Seq<char>, u64)> {
    v.map_values(|d: (String, u64)| (d.0@, d.1))
}

/// The `DEP_*` variables of a build script (see `dep_env_spec`).
pub fn dep_env(lib_deps: &Vec<(String, u64)>, outputs: &BuildScriptOutputs) -> (r: Result<Vec<(String, String)>, u64>)
    ensures
        match r {
            Ok(v) => dep_env_spec(lib_deps_view(lib_deps@), outputs@) == Ok::<Seq<(Seq<char>, Seq<char>)>, u64>(pairs(v@)),
            Err(m) => dep_env_spec(lib_deps_view(lib_deps@), outputs@) == Err::<Seq<(Seq<char>, Seq<char>)>, u64>(m),
        },
{
    let ghost dv = lib_deps_view(lib_deps@);
    let mut out: Vec<(String, String)> = Vec::new();
    let mut i: usize = 0;
    assert(dv.take(0) =~= Seq::<(Seq<char>, u64)>::empty());
    assert(pairs(out@) =~= Seq::<(Seq<char>, Seq<char>)>::empty());
    while i < lib_deps.len()
        invariant
            i <= lib_deps@.len(),
            dv == lib_deps_view(lib_deps@),
            dep_env_spec(dv.take(i as int), outputs@) == Ok::<Seq<(Seq<char>, Seq<char>)>, u64>(pairs(out@)),
        decreases lib_deps.len() - i,
    {
        let (name, meta) = (&lib_deps[i].0, lib_deps[i].1);
        assert(dv.take(i + 1).drop_last() =~= dv.take(i as int));
        assert(dv.take(i + 1).last() == (name@, meta));
        match outputs.get(meta) {
            None => {
                proof {
                    lemma_dep_env_err(dv, outputs@, (i + 1) as nat);
                }
                return Err(meta);
            },
            Some(o) => {
                let lib = envify(name.as_str());
                let prefix = concat_str("DEP_", lib.as_str());
                let prefix = concat_str(prefix.as_str(), "_");
                let ghost before = pairs(out@);
                let mut j: usize = 0;
                while j < o.metadata.len()
                    invariant
                        j <= o.metadata@.len(),
                        prefix@ == "DEP_"@ + envify_spec(name@) + "_"@,
                        pairs(out@) == before + pairs(o.metadata@).take(j as int).map_values(
                            |kv: (Seq<char>, Seq<char>)|
                                ("DEP_"@ + envify_spec(name@) + "_"@ + envify_spec(kv.0), kv.1),
                        ),
                    decreases o.metadata.len() - j,
                {
                    let key = concat_str(prefix.as_str(), envify(o.metadata[j].0.as_str()).as_str());
                    push_var(&mut out, key.as_str(), o.metadata[j].1.as_str());
                    assert(pairs(o.metadata@).take(j + 1) =~= pairs(o.metadata@).take(j as int).push(
                        (o.metadata@[j as int].0@, o.metadata@[j as int].1@),
                    ));
                    j = j + 1;
                    assert(pairs(out@) =~= before + pairs(o.metadata@).take(j as int).map_values(
                        |kv: (Seq<char>, Seq<char>)|
                            ("DEP_"@ + envify_spec(name@) + "_"@ + envify_spec(kv.0), kv.1),
                    ));
                }
                assert(pairs(o.metadata@).take(o.metadata@.len() as int) =~= pairs(o.metadata@));
            },
        }
        i = i + 1;
    }
    assert(dv.take(lib_deps@.len() as int) =~= dv);
    Ok(out)
}

/// The crate name of the first available dependency with the package
/// name, if any.
pub open spec fn crate_of(avail: Seq<(Seq<char>, Seq<char>)>, name: Seq<char>) -> Option<Seq<char>>
    decreases avail.len(),
{
    if avail.len() == 0 {
        None
    } else {
        match crate_of(avail.drop_last(), name) {
            Some(c) => Some(c),
            None => if avail.last().0 == name {
                Some(avail.last().1)
            } else {
                None
            },
        }
    }
}

/// `use D;` lines, one per crate.
pub open spec fn use_lines(ds: Seq<Seq<char>>) -> Seq<char>
    decreases ds.len(),
{
    if ds.len() == 0 {
        Seq::empty()
    } else {
        use_lines(ds.drop_last()) + "use "@ + ds.last() + ";\n"@
    }
}

/// `    D::metabuild();` lines, one per crate.
pub open spec fn call_lines(ds: Seq<Seq<char>>) -> Seq<char>
    decreases ds.len(),
{
    if ds.len() == 0 {
        Seq::empty()
    } else {
        call_lines(ds.drop_last()) + "    "@ + ds.last() + "::metabuild();\n"@
    }
}

/// The source of a `metabuild` script: the crates of the listed packages
/// that are available as dependencies (package name and crate name of
/// each), each imported and its `metabuild` function called from `main`.
pub open spec fn metabuild_spec(deps: Seq<Seq<char>>, avail: Seq<(Seq<char>, Seq<char>)>) -> Seq<char> {
    let md = deps.filter_map(|n: Seq<char>| crate_of(avail, n));
    use_lines(md) + "fn main() {\n"@ + call_lines(md) + "}\n"@
}

/// The crate name of the first available dependency with the package name.
fn find_crate(avail: &Vec<(String, String)>, name: &String) -> (r: Option<String>)
    ensures
        match r {
            Some(c) => crate_of(pairs(avail@), name@) == Some(c@),
            None => crate_of(pairs(avail@), name@) is None,
        },
{
    let ghost av = pairs(avail@);
    let mut i: usize = 0;
    while i < avail.len()
        invariant
            i <= avail@.len(),
            av == pairs(avail@),
            crate_of(av.take(i as int), name@) is None,
        decreases avail.len() - i,
    {
        assert(av.take(i + 1).drop_last() =~= av.take(i as int));
        assert(av.take(i + 1).last() == (avail@[i as int].0@, avail@[i as int].1@));
        if avail[i].0.eq(name) {
            proof {
                lemma_crate_of_prefix(av, name@, (i + 1) as nat);
            }
            return Some(avail[i].1.clone());
        }
        i = i + 1;
    }
    assert(av.take(avail@.len() as int) =~= av);
    None
}

/// Once found among the first dependencies, a crate is the one found.
proof fn lemma_crate_of_prefix(av: Seq<(Seq<char>, Seq<char>)>, name: Seq<char>, n: nat)
    requires
        n <= av.len(),
        crate_of(av.take(n as int), name) is Some,
    ensures
        crate_of(av, name) == crate_of(av.take(n as int), name),
    decreases av.len() - n,
{
    if n < av.len() {
        assert(av.take(n + 1int).drop_last() =~= av.take(n as int));
        lemma_crate_of_prefix(av, name, n + 1);
    } else {
        assert(av.take(n as int) =~= av);
    }
}

/// The source of a `metabuild` script (see `metabuild_spec`).
pub fn metabuild_source(deps: &Vec<String>, available: &Vec<(String, String)>) -> (r: String)
    ensures
        r@ == metabuild_spec(strs(deps@), pairs(available@)),
{
    let ghost f = |n: Seq<char>| crate_of(pairs(available@), n);
    let mut md: Vec<String> = Vec::new();
    let mut i: usize = 0;
    while i < deps.len()
        invariant
            i <= deps@.len(),
            strs(md@) == strs(deps@).take(i as int).filter_map(|n: Seq<char>| crate_of(pairs(available@), n)),
        decreases deps.len() - i,
    {
        proof {
            strs(deps@).lemma_filter_map_take_succ(|n: Seq<char>| crate_of(pairs(available@), n), i as int);
        }
        match find_crate(available, &deps[i]) {
            Some(c) => {
                let ghost before = md@;
                md.push(c);
                assert(strs(md@) =~= strs(before).push(c@));
            },
            None => {},
        }
        i = i + 1;
    }
    assert(strs(deps@).take(deps@.len() as int) =~= strs(deps@));
    let ghost mv = strs(md@);
    let mut out: Vec<char> = Vec::new();
    let mut j: usize = 0;
    while j < md.len()
        invariant
            j <= md@.len(),
            mv == strs(md@),
            out@ == use_lines(mv.take(j as int)),
        decreases md.len() - j,
    {
        assert(mv.take(j + 1).drop_last() =~= mv.take(j as int));
        assert(mv.take(j + 1).last() == md@[j as int]@);
        push_str(&mut out, "use ");
        push_str(&mut out, md[j].as_str());
        push_str(&mut out, ";\n");
        j = j + 1;
    }
    assert(mv.take(md@.len() as int) =~= mv);
    push_str(&mut out, "fn main() {\n");
    let ghost head = out@;
    let mut calls: Vec<char> = Vec::new();
    let mut j: usize = 0;
    while j < md.len()
        invariant
            j <= md@.len(),
            mv == strs(md@),
            calls@ == call_lines(mv.take(j as int)),
        decreases md.len() - j,
    {
        assert(mv.take(j + 1).drop_last() =~= mv.take(j as int));
        assert(mv.take(j + 1).last() == md@[j as int]@);
        push_str(&mut calls, "    ");
        push_str(&mut calls, md[j].as_str());
        push_str(&mut calls, "::metabuild();\n");
        j = j + 1;
    }
    assert(mv.take(md@.len() as int) =~= mv);
    push_all(&mut out, &calls);
    push_str(&mut out, "}\n");
    string_of(&out)
}

/// Records, for a script run, an output holding only warnings.
pub fn insert_warnings_in_build_outputs(outputs: &mut BuildScriptOutputs, metadata_hash: u64, warnings: Vec<String>)
    requires
        !old(outputs)@.contains_key(metadata_hash),
    ensures
        final(outputs)@ == old(outputs)@.insert(
            metadata_hash,
            BuildOutputView {
                library_paths: Seq::empty(),
                library_links: Seq::empty(),
                linker_args: Seq::empty(),
                cfgs: Seq::empty(),
                env: Seq::empty(),
                metadata: Seq::empty(),
                rerun_if_changed: Seq::empty(),
                rerun_if_env_changed: Seq::empty(),
                warnings: strs(warnings@),
            },
        ),
{
    let out = BuildOutput {
        library_paths: Vec::new(),
        library_links: Vec::new(),
        linker_args: Vec::new(),
        cfgs: Vec::new(),
        env: Vec::new(),
        metadata: Vec::new(),
        rerun_if_changed: Vec::new(),
        rerun_if_env_changed: Vec::new(),
        warnings,
    };
    assert(out@.library_paths =~= Seq::empty());
    assert(out@.library_links =~= Seq::empty());
    assert(out@.linker_args =~= Seq::empty());
    assert(out@.cfgs =~= Seq::empty());
    assert(out@.env =~= Seq::empty());
    assert(out@.metadata =~= Seq::empty());
    assert(out@.rerun_if_changed =~= Seq::empty());
    assert(out@.rerun_if_env_changed =~= Seq::empty());
    outputs.insert(metadata_hash, out);
}

} // verus!
