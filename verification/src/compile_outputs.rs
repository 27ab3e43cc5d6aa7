//! What a finished compilation reports for running and testing its units:
//! the test executables, the binaries, the `OUT_DIR` of build scripts that
//! libraries see, the dependencies of documentation tests, the `cfg`s of
//! each package, and the flags of its documentation.
use vstd::prelude::*;
use crate::compile_mode::CompileMode;
use crate::text::strs;

verus! {

/// A file a unit wrote: its path, where a binary of it is copied, whether
/// it holds only debug information, and whether it is an rlib.
#[derive(Debug)]
pub struct OutputInfo {
    pub path: String,
    pub bin_dst: String,
    pub debuginfo: bool,
    pub rlib: bool,
}

/// A dependency of a unit as the results read it: its package (by
/// position), whether it runs a build script (and the directory of that
/// script's output), whether it is a library built in build mode, whether
/// it is built for the host, the name the unit refers to it by, and its
/// files.
#[derive(Debug)]
pub struct UnitDep {
    pub pkg: usize,
    pub run_custom_build: bool,
    pub out_dir: String,
    pub lib_build: bool,
    pub for_host: bool,
    pub extern_name: String,
    pub outputs: Vec<OutputInfo>,
}

/// A unit as the results read it: its package (by position), its target's
/// name, whether the target is a binary (or a binary example), whether it
/// is a library, its mode, its files, its dependencies, the features of
/// its package, and its documentation flags.
#[derive(Debug)]
pub struct UnitOutputs {
    pub pkg: usize,
    pub target_name: String,
    pub is_bin: bool,
    pub is_lib: bool,
    pub mode: CompileMode,
    pub outputs: Vec<OutputInfo>,
    pub deps: Vec<UnitDep>,
    pub features: Vec<String>,
    pub rustdocflags: Vec<String>,
}

/// What the compilation reports: test executables (package, target name,
/// path); binaries; for each package, the variables its processes get;
/// for each documentation test unit (by position), the crates it links
/// (name, path), sorted; for each package, its `cfg`s; for each package,
/// its documentation flags. Each package is listed once.
#[derive(Debug)]
pub struct CompilationSummary {
    pub tests: Vec<(usize, String, String)>,
    pub binaries: Vec<String>,
    pub extra_env: Vec<(usize, Vec<(String, String)>)>,
    pub to_doc_test: Vec<(usize, Vec<(String, String)>)>,
    pub cfgs: Vec<(usize, Vec<String>)>,
    pub rustdocflags: Vec<(usize, Vec<String>)>,
}

/// A text pair as a value.
pub type TextPair = (Seq<char>, Seq<char>);

/// The mathematical value of a `CompilationSummary`.
pub struct CompilationView {
    pub tests: Seq<(nat, Seq<char>, Seq<char>)>,
    pub binaries: Seq<Seq<char>>,
    pub extra_env: Seq<(nat, Seq<TextPair>)>,
    pub to_doc_test: Seq<(nat, Seq<TextPair>)>,
    pub cfgs: Seq<(nat, Seq<Seq<char>>)>,
    pub rustdocflags: Seq<(nat, Seq<Seq<char>>)>,
}

/// The views of test executables.
pub open spec fn tests_view(v: Seq<(usize, String, String)>) -> Seq<(nat, Seq<char>, Seq<char>)> {
    v.map_values(|t: (usize, String, String)| (t.0 as nat, t.1@, t.2@))
}

/// The views of text pairs.
pub open spec fn tp_view(v: Seq<(String, String)>) -> Seq<TextPair> {
    v.map_values(|p: (String, String)| (p.0@, p.1@))
}

/// The views of per-package lists of text pairs.
pub open spec fn keyed_pairs_view(v: Seq<(usize, Vec<(String, String)>)>) -> Seq<(nat, Seq<TextPair>)> {
    v.map_values(|e: (usize, Vec<(String, String)>)| (e.0 as nat, tp_view(e.1@)))
}

/// The views of per-package lists of texts.
pub open spec fn keyed_texts_view(v: Seq<(usize, Vec<String>)>) -> Seq<(nat, Seq<Seq<char>>)> {
    v.map_values(|e: (usize, Vec<String>)| (e.0 as nat, strs(e.1@)))
}

impl View for CompilationSummary {
    type V = CompilationView;

    open spec fn view(&self) -> CompilationView {
        CompilationView {
            tests: tests_view(self.tests@),
            binaries: strs(self.binaries@),
            extra_env: keyed_pairs_view(self.extra_env@),
            to_doc_test: keyed_pairs_view(self.to_doc_test@),
            cfgs: keyed_texts_view(self.cfgs@),
            rustdocflags: keyed_texts_view(self.rustdocflags@),
        }
    }
}

/// The position of the first of the keys equal to `k`.
pub open spec fn first_key(keys: Seq<nat>, k: nat) -> Option<int>
    decreases keys.len(),
{
    if keys.len() == 0 {
        None
    } else {
        match first_key(keys.drop_last(), k) {
            Some(i) => Some(i),
            None => if keys.last() == k {
                Some(keys.len() - 1)
            } else {
                None
            },
        }
    }
}

/// The position of the first entry with the key.
pub open spec fn key_pos<T>(l: Seq<(nat, T)>, k: nat) -> Option<int> {
    first_key(l.map_values(|e: (nat, T)| e.0), k)
}

/// The entry for the key, added with `v` unless there is one.
pub open spec fn or_insert<T>(l: Seq<(nat, T)>, k: nat, v: T) -> Seq<(nat, T)> {
    match key_pos(l, k) {
        Some(_) => l,
        None => l.push((k, v)),
    }
}

/// `x` added at the end of the key's list (made if missing).
pub open spec fn push_at<T>(l: Seq<(nat, Seq<T>)>, k: nat, x: T) -> Seq<(nat, Seq<T>)> {
    match key_pos(l, k) {
        Some(i) => l.update(i, (k, l[i].1.push(x))),
        None => l.push((k, seq![x])),
    }
}

/// `x` added to the key's list (made if missing) unless it holds it.
pub open spec fn add_at(l: Seq<(nat, Seq<Seq<char>>)>, k: nat, x: Seq<char>) -> Seq<(nat, Seq<Seq<char>>)> {
    match key_pos(l, k) {
        Some(i) => if l[i].1.contains(x) {
            l
        } else {
            l.update(i, (k, l[i].1.push(x)))
        },
        None => l.push((k, seq![x])),
    }
}

/// Whether `a` comes before `b` or equals it, character by character.
pub open spec fn text_le(a: Seq<char>, b: Seq<char>) -> bool
    decreases a.len(),
{
    if a.len() == 0 {
        true
    } else if b.len() == 0 {
        false
    } else if a[0] != b[0] {
        a[0] < b[0]
    } else {
        text_le(a.drop_first(), b.drop_first())
    }
}

/// The order of pairs: by the first text, then the second.
pub open spec fn pair_le(x: TextPair, y: TextPair) -> bool {
    if x.0 != y.0 {
        text_le(x.0, y.0)
    } else {
        text_le(x.1, y.1)
    }
}

/// Whether the pairs are in order.
pub open spec fn pairs_sorted(s: Seq<TextPair>) -> bool {
    forall|i: int, j: int| 0 <= i < j < s.len() ==> pair_le(#[trigger] s[i], #[trigger] s[j])
}

/// Any two texts are ordered one way or the other.
proof fn lemma_text_le_total(a: Seq<char>, b: Seq<char>)
    ensures
        text_le(a, b) || text_le(b, a),
    decreases a.len(),
{
    if a.len() > 0 && b.len() > 0 && a[0] == b[0] {
        lemma_text_le_total(a.drop_first(), b.drop_first());
    }
}

/// Texts ordered both ways are equal.
proof fn lemma_text_le_antisym(a: Seq<char>, b: Seq<char>)
    requires
        text_le(a, b),
        text_le(b, a),
    ensures
        a == b,
    decreases a.len(),
{
    if a.len() > 0 && b.len() > 0 {
        lemma_text_le_antisym(a.drop_first(), b.drop_first());
        assert(a =~= seq![a[0]] + a.drop_first());
        assert(b =~= seq![b[0]] + b.drop_first());
    }
}

/// The order of texts is transitive.
proof fn lemma_text_le_trans(a: Seq<char>, b: Seq<char>, c: Seq<char>)
    requires
        text_le(a, b),
        text_le(b, c),
    ensures
        text_le(a, c),
    decreases a.len(),
{
    if a.len() > 0 && b.len() > 0 && c.len() > 0 && a[0] == b[0] && b[0] == c[0] {
        lemma_text_le_trans(a.drop_first(), b.drop_first(), c.drop_first());
    }
}

/// Any two pairs are ordered one way or the other.
proof fn lemma_pair_le_total(x: TextPair, y: TextPair)
    ensures
        pair_le(x, y) || pair_le(y, x),
{
    lemma_text_le_total(x.0, y.0);
    lemma_text_le_total(x.1, y.1);
}

/// The order of pairs is transitive.
proof fn lemma_pair_le_trans(x: TextPair, y: TextPair, z: TextPair)
    requires
        pair_le(x, y),
        pair_le(y, z),
    ensures
        pair_le(x, z),
{
    if x.0 != y.0 && y.0 != z.0 {
        lemma_text_le_trans(x.0, y.0, z.0);
        if x.0 == z.0 {
            lemma_text_le_antisym(x.0, y.0);
        }
    } else if x.0 != y.0 {
        assert(y.0 == z.0);
    } else if y.0 != z.0 {
        assert(x.0 == y.0);
    } else {
        lemma_text_le_trans(x.1, y.1, z.1);
    }
}

/// Whether `a` comes before `b` or equals it (see `text_le`).
fn text_le_exec(a: &str, b: &str) -> (r: bool)
    ensures
        r == text_le(a@, b@),
{
    let av = crate::text::chars_of(a);
    let bv = crate::text::chars_of(b);
    assert(av@.skip(0) =~= av@ && bv@.skip(0) =~= bv@);
    let mut i: usize = 0;
    while i < av.len() && i < bv.len()
        invariant
            av@ == a@,
            bv@ == b@,
            i <= av@.len(),
            i <= bv@.len(),
            text_le(av@, bv@) == text_le(av@.skip(i as int), bv@.skip(i as int)),
        decreases av.len() - i,
    {
        let ghost sa = av@.skip(i as int);
        let ghost sb = bv@.skip(i as int);
        assert(sa[0] == av@[i as int] && sb[0] == bv@[i as int]);
        if av[i] != bv[i] {
            return av[i] < bv[i];
        }
        assert(sa.drop_first() =~= av@.skip(i + 1));
        assert(sb.drop_first() =~= bv@.skip(i + 1));
        i = i + 1;
    }
    if i < av.len() {
        assert(av@.skip(i as int).len() > 0 && bv@.skip(i as int).len() == 0);
        false
    } else {
        assert(av@.skip(i as int).len() == 0);
        true
    }
}

/// Whether `x` comes before `y` or equals it (see `pair_le`).
fn pair_le_exec(x: &(String, String), y: &(String, String)) -> (r: bool)
    ensures
        r == pair_le((x.0@, x.1@), (y.0@, y.1@)),
{
    if !x.0.eq(&y.0) {
        text_le_exec(x.0.as_str(), y.0.as_str())
    } else {
        text_le_exec(x.1.as_str(), y.1.as_str())
    }
}

/// The pairs sorted: in order, holding the same pairs as many times.
fn sort_pairs(v: Vec<(String, String)>) -> (r: Vec<(String, String)>)
    ensures
        pairs_sorted(tp_view(r@)),
        tp_view(r@).to_multiset() == tp_view(v@).to_multiset(),
{
    broadcast use vstd::seq_lib::to_multiset_insert, vstd::seq_lib::to_multiset_build;
    let mut out: Vec<(String, String)> = Vec::new();
    assert(tp_view(out@) =~= tp_view(v@).take(0));
    let mut k: usize = 0;
    while k < v.len()
        invariant
            k <= v@.len(),
            pairs_sorted(tp_view(out@)),
            tp_view(out@).to_multiset() == tp_view(v@).take(k as int).to_multiset(),
        decreases v.len() - k,
    {
        let x = (v[k].0.clone(), v[k].1.clone());
        let ghost xv = (x.0@, x.1@);
        let ghost o = tp_view(out@);
        let mut p: usize = 0;
        while p < out.len()
            invariant
                p <= out@.len(),
                o == tp_view(out@),
                xv == (x.0@, x.1@),
                forall|i: int| 0 <= i < p ==> pair_le(#[trigger] o[i], xv),
            ensures
                p <= out@.len(),
                forall|i: int| 0 <= i < p ==> pair_le(#[trigger] o[i], xv),
                p < out@.len() ==> !pair_le(o[p as int], xv),
            decreases out.len() - p,
        {
            assert(o[p as int] == (out@[p as int].0@, out@[p as int].1@));
            if !pair_le_exec(&out[p], &x) {
                break;
            }
            p = p + 1;
        }
        proof {
            if p < out@.len() {
                assert(o[p as int] == (out@[p as int].0@, out@[p as int].1@));
                lemma_pair_le_total(o[p as int], xv);
                assert(pair_le(xv, o[p as int]));
            }
        }
        out.insert(p, x);
        proof {
            let n = tp_view(out@);
            assert(n =~= o.insert(p as int, xv));
            assert forall|i: int, j: int| 0 <= i < j < n.len() implies pair_le(#[trigger] n[i], #[trigger] n[j]) by {
                if j < p {
                    assert(n[i] == o[i] && n[j] == o[j]);
                } else if j == p {
                    assert(n[i] == o[i]);
                } else if i == p {
                    assert(n[j] == o[j - 1]);
                    if j - 1 > p {
                        lemma_pair_le_trans(xv, o[p as int], o[j - 1]);
                    }
                } else if i < p {
                    assert(n[i] == o[i] && n[j] == o[j - 1]);
                } else {
                    assert(n[i] == o[i - 1] && n[j] == o[j - 1]);
                }
            }
            assert(tp_view(v@).take(k + 1) =~= tp_view(v@).take(k as int).push(xv));
            vstd::seq_lib::to_multiset_insert(o, p as int, xv);
            vstd::seq_lib::to_multiset_build(tp_view(v@).take(k as int), xv);
        }
        k = k + 1;
    }
    assert(tp_view(v@).take(v@.len() as int) =~= tp_view(v@));
    out
}

/// A found key is in range and equal to `k`.
proof fn lemma_first_key(keys: Seq<nat>, k: nat)
    ensures
        first_key(keys, k) matches Some(i) ==> 0 <= i < keys.len() && keys[i] == k,
    decreases keys.len(),
{
    if keys.len() > 0 {
        lemma_first_key(keys.drop_last(), k);
    }
}

/// The keys of an entry list.
pub open spec fn usize_keys<V>(v: Seq<(usize, V)>) -> Seq<nat> {
    v.map_values(|e: (usize, V)| e.0 as nat)
}

/// The position of the first entry with the key (see `first_key`).
fn find_key_pos<V>(v: &Vec<(usize, V)>, k: usize) -> (r: Option<usize>)
    ensures
        match first_key(usize_keys(v@), k as nat) {
            Some(i) => r == Some(i as usize) && i < v@.len(),
            None => r is None,
        },
        r matches Some(i) ==> (i < v@.len() && v@[i as int].0 == k && first_key(usize_keys(v@), k as nat) == Some(
            i as int,
        )),
{
    let ghost ks = usize_keys(v@);
    let mut i: usize = 0;
    while i < v.len()
        invariant
            i <= v@.len(),
            ks == usize_keys(v@),
            first_key(ks.take(i as int), k as nat) is None,
        decreases v.len() - i,
    {
        assert(ks.take(i + 1).drop_last() =~= ks.take(i as int));
        if v[i].0 == k {
            proof {
                assert(ks.take(i + 1).last() == k as nat);
                lemma_first_key_prefix(ks, k as nat, (i + 1) as nat);
            }
            return Some(i);
        }
        i = i + 1;
    }
    assert(ks.take(v@.len() as int) =~= ks);
    None
}

/// Once a key is among the first `n`, the first of them is the first of
/// all.
proof fn lemma_first_key_prefix(keys: Seq<nat>, k: nat, n: nat)
    requires
        n <= keys.len(),
        first_key(keys.take(n as int), k) is Some,
    ensures
        first_key(keys, k) == first_key(keys.take(n as int), k),
    decreases keys.len() - n,
{
    if n < keys.len() {
        assert(keys.take(n + 1int).drop_last() =~= keys.take(n as int));
        lemma_first_key_prefix(keys, k, n + 1);
    } else {
        assert(keys.take(n as int) =~= keys);
    }
}

/// The `cfg` of a feature.
pub open spec fn feature_cfg(f: Seq<char>) -> Seq<char> {
    "feature=\""@ + f + "\""@
}

/// The texts added one by one to `s`, each unless already there.
pub open spec fn add_all_new(s: Seq<Seq<char>>, xs: Seq<Seq<char>>) -> Seq<Seq<char>>
    decreases xs.len(),
{
    if xs.len() == 0 {
        s
    } else {
        let t = add_all_new(s, xs.drop_last());
        if t.contains(xs.last()) {
            t
        } else {
            t.push(xs.last())
        }
    }
}

/// The test executables of a unit built in test mode: each of its files
/// but those of debug information, with its package and target name.
pub open spec fn unit_tests(u: UnitOutputs, n: nat) -> Seq<(nat, Seq<char>, Seq<char>)>
    decreases n,
{
    if n == 0 {
        Seq::empty()
    } else {
        let prev = unit_tests(u, (n - 1) as nat);
        let o = u.outputs@[n - 1];
        if o.debuginfo {
            prev
        } else {
            prev.push((u.pkg as nat, u.target_name@, o.path@))
        }
    }
}

/// The binaries of a unit: where each of its files but those of debug
/// information is copied.
pub open spec fn unit_bins(u: UnitOutputs, n: nat) -> Seq<Seq<char>>
    decreases n,
{
    if n == 0 {
        Seq::empty()
    } else {
        let prev = unit_bins(u, (n - 1) as nat);
        let o = u.outputs@[n - 1];
        if o.debuginfo {
            prev
        } else {
            prev.push(o.bin_dst@)
        }
    }
}

/// The variables a library unit's build script dependencies give their
/// packages: `OUT_DIR`, the directory of the script's output.
pub open spec fn unit_env(env: Seq<(nat, Seq<TextPair>)>, ds: Seq<UnitDep>, n: nat) -> Seq<(nat, Seq<TextPair>)>
    decreases n,
{
    if n == 0 {
        env
    } else {
        let prev = unit_env(env, ds, (n - 1) as nat);
        let d = ds[n - 1];
        if d.run_custom_build {
            push_at(prev, d.pkg as nat, ("OUT_DIR"@, d.out_dir@))
        } else {
            prev
        }
    }
}

/// The crates a documentation test links from its dependencies that are
/// libraries built in build mode: their rlibs, or all their files when
/// built for the host, each with the name the unit refers to it by.
pub open spec fn dep_doctest_files(d: UnitDep, n: nat) -> Seq<TextPair>
    decreases n,
{
    if n == 0 {
        Seq::empty()
    } else {
        let prev = dep_doctest_files(d, (n - 1) as nat);
        let o = d.outputs@[n - 1];
        if o.rlib || d.for_host {
            prev.push((d.extern_name@, o.path@))
        } else {
            prev
        }
    }
}

/// The crates a documentation test links (see `dep_doctest_files`), in
/// dependency order.
pub open spec fn doctest_files(ds: Seq<UnitDep>, n: nat) -> Seq<TextPair>
    decreases n,
{
    if n == 0 {
        Seq::empty()
    } else {
        doctest_files(ds, (n - 1) as nat) + if ds[n - 1].lib_build {
            dep_doctest_files(ds[n - 1], ds[n - 1].outputs@.len())
        } else {
            Seq::empty()
        }
    }
}

/// The feature `cfg`s of a package (each once).
pub open spec fn features_cfgs(fs: Seq<String>) -> Seq<Seq<char>> {
    add_all_new(Seq::empty(), strs(fs).map_values(|f: Seq<char>| feature_cfg(f)))
}

/// The report after one more unit (documentation tests aside): its test
/// executables or binaries, the `OUT_DIR` its build script dependencies
/// give when it is a library, its package's feature `cfg`s and
/// documentation flags the first time they are not empty.
pub open spec fn unit_step(acc: CompilationView, u: UnitOutputs) -> CompilationView {
    let n = u.outputs@.len();
    CompilationView {
        tests: if u.mode == CompileMode::Test {
            acc.tests + unit_tests(u, n)
        } else {
            acc.tests
        },
        binaries: if u.mode != CompileMode::Test && u.is_bin {
            acc.binaries + unit_bins(u, n)
        } else {
            acc.binaries
        },
        extra_env: if u.is_lib {
            unit_env(acc.extra_env, u.deps@, u.deps@.len())
        } else {
            acc.extra_env
        },
        to_doc_test: acc.to_doc_test,
        cfgs: if u.features@.len() > 0 {
            or_insert(acc.cfgs, u.pkg as nat, features_cfgs(u.features@))
        } else {
            acc.cfgs
        },
        rustdocflags: if u.rustdocflags@.len() > 0 {
            or_insert(acc.rustdocflags, u.pkg as nat, strs(u.rustdocflags@))
        } else {
            acc.rustdocflags
        },
    }
}

/// The report after the first `n` units (documentation tests aside).
pub open spec fn collect_upto(us: Seq<UnitOutputs>, n: nat) -> CompilationView
    decreases n,
{
    if n == 0 {
        CompilationView {
            tests: Seq::empty(),
            binaries: Seq::empty(),
            extra_env: Seq::empty(),
            to_doc_test: Seq::empty(),
            cfgs: Seq::empty(),
            rustdocflags: Seq::empty(),
        }
    } else {
        unit_step(collect_upto(us, (n - 1) as nat), us[n - 1])
    }
}

/// The `cfg`s a package gets from its build script run, added to those it
/// has (each once; an entry is made even for none).
pub open spec fn extend_at(l: Seq<(nat, Seq<Seq<char>>)>, k: nat, xs: Seq<Seq<char>>) -> Seq<(nat, Seq<Seq<char>>)> {
    let m = or_insert(l, k, Seq::<Seq<char>>::empty());
    let i = key_pos(m, k)->0;
    m.update(i, (k, add_all_new(m[i].1, xs)))
}

/// The `cfg`s after those of the first `n` build script outputs.
pub open spec fn script_cfgs(l: Seq<(nat, Seq<Seq<char>>)>, outs: Seq<(usize, Vec<String>)>, n: nat) -> Seq<(nat, Seq<Seq<char>>)>
    decreases n,
{
    if n == 0 {
        l
    } else {
        extend_at(script_cfgs(l, outs, (n - 1) as nat), outs[n - 1].0 as nat, strs(outs[n - 1].1@))
    }
}

/// The positions of the documentation test units among the first `n`.
pub open spec fn doctest_units(us: Seq<UnitOutputs>, n: nat) -> Seq<nat>
    decreases n,
{
    if n == 0 {
        Seq::empty()
    } else if us[n - 1].mode == CompileMode::Doctest {
        doctest_units(us, (n - 1) as nat).push((n - 1) as nat)
    } else {
        doctest_units(us, (n - 1) as nat)
    }
}

/// The keys of a view list are those of the list.
proof fn lemma_pairs_keys(l: Seq<(usize, Vec<(String, String)>)>)
    ensures
        keyed_pairs_view(l).map_values(|e: (nat, Seq<TextPair>)| e.0) == usize_keys(l),
{
    assert(keyed_pairs_view(l).map_values(|e: (nat, Seq<TextPair>)| e.0) =~= usize_keys(l));
}

/// The keys of a view list are those of the list.
proof fn lemma_texts_keys(l: Seq<(usize, Vec<String>)>)
    ensures
        keyed_texts_view(l).map_values(|e: (nat, Seq<Seq<char>>)| e.0) == usize_keys(l),
{
    assert(keyed_texts_view(l).map_values(|e: (nat, Seq<Seq<char>>)| e.0) =~= usize_keys(l));
}

/// Adds a pair at the end of the key's list (see `push_at`).
fn push_pair_at(l: &mut Vec<(usize, Vec<(String, String)>)>, k: usize, x: (String, String))
    ensures
        keyed_pairs_view(final(l)@) == push_at(keyed_pairs_view(old(l)@), k as nat, (x.0@, x.1@)),
{
    proof {
        lemma_pairs_keys(l@);
    }
    let ghost o = keyed_pairs_view(l@);
    match find_key_pos(l, k) {
        Some(i) => {
            proof {
                lemma_first_key(usize_keys(l@), k as nat);
            }
            let ghost lb = l@;
            let mut e = l.remove(i);
            assert(e == lb[i as int]);
            let ghost before = tp_view(e.1@);
            e.1.push(x);
            assert(tp_view(e.1@) =~= before.push((x.0@, x.1@)));
            let ghost ev = e;
            l.insert(i, e);
            assert(l@ =~= lb.update(i as int, ev));
            assert(keyed_pairs_view(l@) =~= o.update(i as int, (k as nat, o[i as int].1.push((x.0@, x.1@)))));
        },
        None => {
            let ghost xv = (x.0@, x.1@);
            let v1 = vec![x];
            assert(tp_view(v1@) =~= seq![xv]);
            l.push((k, v1));
            assert(keyed_pairs_view(l@) =~= o.push((k as nat, seq![xv])));
        },
    }
}

/// Adds the texts to `s`, each unless already there (see `add_all_new`).
fn add_texts(s: &mut Vec<String>, xs: &Vec<String>)
    ensures
        strs(final(s)@) == add_all_new(strs(old(s)@), strs(xs@)),
{
    let mut i: usize = 0;
    while i < xs.len()
        invariant
            i <= xs@.len(),
            strs(s@) == add_all_new(strs(old(s)@), strs(xs@).take(i as int)),
        decreases xs.len() - i,
    {
        let ghost t = strs(xs@).take(i + 1);
        assert(t.drop_last() =~= strs(xs@).take(i as int));
        assert(t.last() == xs@[i as int]@);
        if !crate::text::contains_string(s, &xs[i]) {
            let ghost before = strs(s@);
            s.push(xs[i].clone());
            assert(strs(s@) =~= before.push(xs@[i as int]@));
        }
        i = i + 1;
    }
    assert(strs(xs@).take(xs@.len() as int) =~= strs(xs@));
}

/// The entry for the key, added with `v` unless there is one (see
/// `or_insert`).
fn or_insert_texts(l: &mut Vec<(usize, Vec<String>)>, k: usize, v: Vec<String>)
    ensures
        keyed_texts_view(final(l)@) == or_insert(keyed_texts_view(old(l)@), k as nat, strs(v@)),
{
    proof {
        lemma_texts_keys(l@);
    }
    let ghost o = keyed_texts_view(l@);
    match find_key_pos(l, k) {
        Some(_) => {},
        None => {
            let ghost vv = strs(v@);
            l.push((k, v));
            assert(keyed_texts_view(l@) =~= o.push((k as nat, vv)));
        },
    }
}

/// Adds the texts to the key's entry, made if missing (see `extend_at`).
fn extend_texts_at(l: &mut Vec<(usize, Vec<String>)>, k: usize, xs: &Vec<String>)
    ensures
        keyed_texts_view(final(l)@) == extend_at(keyed_texts_view(old(l)@), k as nat, strs(xs@)),
{
    let ghost l0 = keyed_texts_view(l@);
    let empty: Vec<String> = Vec::new();
    assert(strs(empty@) =~= Seq::<Seq<char>>::empty());
    or_insert_texts(l, k, empty);
    let ghost m = keyed_texts_view(l@);
    proof {
        lemma_texts_keys(l@);
    }
    let found = find_key_pos(l, k);
    if found.is_none() {
        proof {
            lemma_or_insert_has_key(l0, k as nat, Seq::<Seq<char>>::empty());
        }
        return;
    }
    let i = found.unwrap();
    proof {
        lemma_first_key(usize_keys(l@), k as nat);
    }
    let ghost lb = l@;
    assert(first_key(usize_keys(lb), k as nat) == Some(i as int));
    assert(usize_keys(lb)[i as int] == lb[i as int].0 as nat);
    let mut e = l.remove(i);
    assert(e == lb[i as int]);
    assert(m[i as int] == (e.0 as nat, strs(e.1@)));
    assert(usize_keys(lb)[i as int] == k as nat);
    assert(e.0 == k);
    add_texts(&mut e.1, xs);
    let ghost ev = e;
    assert(ev.0 == k);
    l.insert(i, e);
    assert(l@ =~= lb.update(i as int, ev));
    assert(keyed_texts_view(l@) =~= m.update(i as int, (k as nat, add_all_new(m[i as int].1, strs(xs@)))));
}

/// After `or_insert`, the key has an entry.
proof fn lemma_or_insert_has_key<T>(l: Seq<(nat, T)>, k: nat, v: T)
    ensures
        key_pos(or_insert(l, k, v), k) is Some,
{
    if key_pos(l, k) is None {
        let m = l.push((k, v));
        let lk = l.map_values(|e: (nat, T)| e.0);
        let mk = m.map_values(|e: (nat, T)| e.0);
        assert(mk.drop_last() =~= lk);
        assert(mk.last() == k);
    }
}

/// Appends the unit's test executables (see `unit_tests`).
fn push_unit_tests(tests: &mut Vec<(usize, String, String)>, u: &UnitOutputs)
    ensures
        tests_view(final(tests)@) == tests_view(old(tests)@) + unit_tests(*u, u.outputs@.len()),
{
    let mut i: usize = 0;
    while i < u.outputs.len()
        invariant
            i <= u.outputs@.len(),
            tests_view(tests@) == tests_view(old(tests)@) + unit_tests(*u, i as nat),
        decreases u.outputs.len() - i,
    {
        let o = &u.outputs[i];
        if !o.debuginfo {
            let ghost before = tests_view(tests@);
            tests.push((u.pkg, u.target_name.clone(), o.path.clone()));
            assert(tests_view(tests@) =~= before.push((u.pkg as nat, u.target_name@, o.path@)));
        }
        i = i + 1;
    }
}

/// Appends the unit's binaries (see `unit_bins`).
fn push_unit_bins(bins: &mut Vec<String>, u: &UnitOutputs)
    ensures
        strs(final(bins)@) == strs(old(bins)@) + unit_bins(*u, u.outputs@.len()),
{
    let mut i: usize = 0;
    while i < u.outputs.len()
        invariant
            i <= u.outputs@.len(),
            strs(bins@) == strs(old(bins)@) + unit_bins(*u, i as nat),
        decreases u.outputs.len() - i,
    {
        let o = &u.outputs[i];
        if !o.debuginfo {
            let ghost before = strs(bins@);
            bins.push(o.bin_dst.clone());
            assert(strs(bins@) =~= before.push(o.bin_dst@));
        }
        i = i + 1;
    }
}

/// Adds the `OUT_DIR` of the unit's build script dependencies (see
/// `unit_env`).
fn push_unit_env(env: &mut Vec<(usize, Vec<(String, String)>)>, u: &UnitOutputs)
    ensures
        keyed_pairs_view(final(env)@) == unit_env(keyed_pairs_view(old(env)@), u.deps@, u.deps@.len()),
{
    let mut i: usize = 0;
    while i < u.deps.len()
        invariant
            i <= u.deps@.len(),
            keyed_pairs_view(env@) == unit_env(keyed_pairs_view(old(env)@), u.deps@, i as nat),
        decreases u.deps.len() - i,
    {
        let d = &u.deps[i];
        if d.run_custom_build {
            push_pair_at(env, d.pkg, ("OUT_DIR".to_string(), d.out_dir.clone()));
        }
        i = i + 1;
    }
}

/// The crates a documentation test links, in dependency order (see
/// `doctest_files`).
fn doctest_pairs(u: &UnitOutputs) -> (r: Vec<(String, String)>)
    ensures
        tp_view(r@) == doctest_files(u.deps@, u.deps@.len()),
{
    let mut out: Vec<(String, String)> = Vec::new();
    let mut i: usize = 0;
    while i < u.deps.len()
        invariant
            i <= u.deps@.len(),
            tp_view(out@) == doctest_files(u.deps@, i as nat),
        decreases u.deps.len() - i,
    {
        let d = &u.deps[i];
        if d.lib_build {
            let ghost base = tp_view(out@);
            let mut j: usize = 0;
            while j < d.outputs.len()
                invariant
                    j <= d.outputs@.len(),
                    tp_view(out@) == base + dep_doctest_files(*d, j as nat),
                decreases d.outputs.len() - j,
            {
                let o = &d.outputs[j];
                if o.rlib || d.for_host {
                    let ghost before = tp_view(out@);
                    out.push((d.extern_name.clone(), o.path.clone()));
                    assert(tp_view(out@) =~= before.push((d.extern_name@, o.path@)));
                }
                j = j + 1;
            }
        } else {
            assert(tp_view(out@) =~= doctest_files(u.deps@, i as nat) + Seq::<TextPair>::empty());
        }
        i = i + 1;
    }
    out
}

/// The feature `cfg`s of a package, each once (see `features_cfgs`).
fn feature_cfgs(fs: &Vec<String>) -> (r: Vec<String>)
    ensures
        strs(r@) == features_cfgs(fs@),
{
    let mut formatted: Vec<String> = Vec::new();
    let ghost fv = strs(fs@).map_values(|f: Seq<char>| feature_cfg(f));
    let mut i: usize = 0;
    while i < fs.len()
        invariant
            i <= fs@.len(),
            fv == strs(fs@).map_values(|f: Seq<char>| feature_cfg(f)),
            strs(formatted@) == fv.take(i as int),
        decreases fs.len() - i,
    {
        let mut v = crate::text::chars_of("feature=\"");
        crate::text::push_str(&mut v, fs[i].as_str());
        crate::text::push_str(&mut v, "\"");
        let t = crate::text::string_of(&v);
        let ghost before = strs(formatted@);
        formatted.push(t);
        assert(strs(formatted@) =~= before.push(feature_cfg(fs@[i as int]@)));
        assert(fv.take(i + 1) =~= fv.take(i as int).push(fv[i as int]));
        i = i + 1;
    }
    assert(fv.take(fs@.len() as int) =~= fv);
    let mut out: Vec<String> = Vec::new();
    assert(strs(out@) =~= Seq::<Seq<char>>::empty());
    add_texts(&mut out, &formatted);
    out
}

/// What a finished compilation reports (see `CompilationSummary`): for
/// the units in order, what `collect_upto` says, with the `cfg`s of the
/// build script outputs (`script_outputs`: package and `cfg`s, in order)
/// added after; and for each documentation test unit, in order, the
/// crates it links (see `doctest_files`), sorted.
pub fn collect_compilation(units: &Vec<UnitOutputs>, script_outputs: &Vec<(usize, Vec<String>)>) -> (r: CompilationSummary)
    ensures
        r@.tests == collect_upto(units@, units@.len()).tests,
        r@.binaries == collect_upto(units@, units@.len()).binaries,
        r@.extra_env == collect_upto(units@, units@.len()).extra_env,
        r@.rustdocflags == collect_upto(units@, units@.len()).rustdocflags,
        r@.cfgs == script_cfgs(collect_upto(units@, units@.len()).cfgs, script_outputs@, script_outputs@.len()),
        r@.to_doc_test.len() == doctest_units(units@, units@.len()).len(),
        forall|k: int|
            0 <= k < r@.to_doc_test.len() ==> {
                let u = #[trigger] r@.to_doc_test[k].0;
                &&& u == doctest_units(units@, units@.len())[k]
                &&& pairs_sorted(r@.to_doc_test[k].1)
                &&& r@.to_doc_test[k].1.to_multiset() == doctest_files(
                    units@[u as int].deps@,
                    units@[u as int].deps@.len(),
                ).to_multiset()
            },
{
    let mut tests: Vec<(usize, String, String)> = Vec::new();
    let mut binaries: Vec<String> = Vec::new();
    let mut extra_env: Vec<(usize, Vec<(String, String)>)> = Vec::new();
    let mut to_doc_test: Vec<(usize, Vec<(String, String)>)> = Vec::new();
    let mut cfgs: Vec<(usize, Vec<String>)> = Vec::new();
    let mut rustdocflags: Vec<(usize, Vec<String>)> = Vec::new();
    assert(tests_view(tests@) =~= Seq::<(nat, Seq<char>, Seq<char>)>::empty());
    assert(strs(binaries@) =~= Seq::<Seq<char>>::empty());
    assert(keyed_pairs_view(extra_env@) =~= Seq::<(nat, Seq<TextPair>)>::empty());
    assert(keyed_texts_view(cfgs@) =~= Seq::<(nat, Seq<Seq<char>>)>::empty());
    assert(keyed_texts_view(rustdocflags@) =~= Seq::<(nat, Seq<Seq<char>>)>::empty());
    let mut i: usize = 0;
    while i < units.len()
        invariant
            i <= units@.len(),
            tests_view(tests@) == collect_upto(units@, i as nat).tests,
            strs(binaries@) == collect_upto(units@, i as nat).binaries,
            keyed_pairs_view(extra_env@) == collect_upto(units@, i as nat).extra_env,
            keyed_texts_view(cfgs@) == collect_upto(units@, i as nat).cfgs,
            keyed_texts_view(rustdocflags@) == collect_upto(units@, i as nat).rustdocflags,
            to_doc_test@.len() == doctest_units(units@, i as nat).len(),
            forall|k: int|
                0 <= k < to_doc_test@.len() ==> {
                    let u = #[trigger] to_doc_test@[k].0;
                    &&& u as nat == doctest_units(units@, i as nat)[k]
                    &&& u < units@.len()
                    &&& pairs_sorted(tp_view(to_doc_test@[k].1@))
                    &&& tp_view(to_doc_test@[k].1@).to_multiset() == doctest_files(
                        units@[u as int].deps@,
                        units@[u as int].deps@.len(),
                    ).to_multiset()
                },
        decreases units.len() - i,
    {
        let u = &units[i];
        if u.mode == CompileMode::Test {
            push_unit_tests(&mut tests, u);
        } else if u.is_bin {
            push_unit_bins(&mut binaries, u);
        }
        if u.is_lib {
            push_unit_env(&mut extra_env, u);
        }
        if u.mode == CompileMode::Doctest {
            let deps = sort_pairs(doctest_pairs(u));
            let ghost before = to_doc_test@;
            to_doc_test.push((i, deps));
            assert forall|k: int| 0 <= k < to_doc_test@.len() implies {
                let x = #[trigger] to_doc_test@[k].0;
                &&& x as nat == doctest_units(units@, (i + 1) as nat)[k]
                &&& x < units@.len()
                &&& pairs_sorted(tp_view(to_doc_test@[k].1@))
                &&& tp_view(to_doc_test@[k].1@).to_multiset() == doctest_files(
                    units@[x as int].deps@,
                    units@[x as int].deps@.len(),
                ).to_multiset()
            } by {
                if k < before.len() {
                    assert(to_doc_test@[k] == before[k]);
                }
            }
        }
        if u.features.len() > 0 {
            let fc = feature_cfgs(&u.features);
            or_insert_texts(&mut cfgs, u.pkg, fc);
        }
        if u.rustdocflags.len() > 0 {
            let flags = crate::text::copy_strings(&u.rustdocflags);
            or_insert_texts(&mut rustdocflags, u.pkg, flags);
        }
        i = i + 1;
    }
    let ghost c0 = keyed_texts_view(cfgs@);
    let mut j: usize = 0;
    while j < script_outputs.len()
        invariant
            j <= script_outputs@.len(),
            keyed_texts_view(cfgs@) == script_cfgs(c0, script_outputs@, j as nat),
        decreases script_outputs.len() - j,
    {
        extend_texts_at(&mut cfgs, script_outputs[j].0, &script_outputs[j].1);
        j = j + 1;
    }
    CompilationSummary { tests, binaries, extra_env, to_doc_test, cfgs, rustdocflags }
}

} // verus!
