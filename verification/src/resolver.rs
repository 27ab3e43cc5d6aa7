//! Checks on a finished resolution: no package may depend on itself through
//! the dependencies it needs to be built (development dependencies do not
//! count, as a package's tests may use a package that uses it), and the
//! packages must stay different as the lock file writes them.
use vstd::prelude::*;
use crate::text::strs;

verus! {

/// The graph of a resolution: for each package (by position), the packages
/// it depends on, each with whether the dependency is transitive (not only
/// for development), and the package that replaces each package, if any.
#[derive(Debug)]
pub struct ResolveGraph {
    pub deps: Vec<Vec<(usize, bool)>>,
    pub replacements: Vec<Option<usize>>,
}

impl ResolveGraph {
    /// The number of packages.
    pub open spec fn size(&self) -> nat {
        self.deps@.len()
    }

    /// The `k`-th dependency of package `a`.
    pub open spec fn dep(&self, a: int, k: int) -> (usize, bool) {
        self.deps@[a]@[k]
    }

    /// Whether the graph speaks only of its own packages.
    pub open spec fn well_formed(&self) -> bool {
        &&& self.replacements@.len() == self.deps@.len()
        &&& forall|a: int, k: int|
            0 <= a < self.size() && 0 <= k < self.deps@[a]@.len() ==> #[trigger] self.dep(a, k).0 < self.size()
        &&& forall|a: int|
            0 <= a < self.size() ==> (#[trigger] self.replacements@[a] matches Some(r) ==> r < self.size())
    }

    /// Whether `b` is the package that the `k`-th dependency of `a` names,
    /// or the one that replaces it, through a transitive dependency.
    pub open spec fn step_at(&self, a: int, k: int, b: int) -> bool {
        &&& 0 <= k < self.deps@[a]@.len()
        &&& self.dep(a, k).1
        &&& (self.dep(a, k).0 == b || (self.replacements@[self.dep(a, k).0 as int] matches Some(r) && r == b))
    }

    /// Whether `a` needs `b` directly: a transitive dependency of `a` names
    /// `b` or a package that `b` replaces.
    pub open spec fn needs(&self, a: int, b: int) -> bool {
        exists|k: int| #[trigger] self.step_at(a, k, b)
    }

    /// Whether each package of the path needs the next.
    pub open spec fn chain(&self, p: Seq<usize>) -> bool {
        forall|i: int| 0 <= i < p.len() - 1 ==> #[trigger] self.needs(p[i] as int, p[i + 1] as int)
    }

    /// Whether `x` needs itself through a path of packages each needing
    /// the next: a cycle of the packages' build dependencies.
    pub open spec fn on_cycle(&self, x: int) -> bool {
        exists|p: Seq<usize>| p.len() >= 1 && p[0] == x && self.chain(p) && #[trigger] self.needs(p.last() as int, x)
    }

    /// Whether every dependency is transitive: no package of the graph has
    /// a development-only dependency.
    pub open spec fn all_transitive(&self) -> bool {
        forall|a: int, k: int|
            0 <= a < self.size() && 0 <= k < self.deps@[a]@.len() ==> #[trigger] self.dep(a, k).1
    }
}

/// The number of packages not checked yet.
pub open spec fn unchecked(s: Seq<bool>) -> nat
    decreases s.len(),
{
    if s.len() == 0 {
        0
    } else {
        unchecked(s.drop_last()) + if s.last() {
            0nat
        } else {
            1nat
        }
    }
}

/// Whether every package checked before is still checked after.
pub open spec fn grows(before: Seq<bool>, after: Seq<bool>) -> bool {
    &&& after.len() == before.len()
    &&& forall|j: int| 0 <= j < before.len() && #[trigger] before[j] ==> after[j]
}

/// Checking more packages leaves fewer unchecked; checking a new one
/// leaves strictly fewer.
proof fn lemma_unchecked_shrinks(before: Seq<bool>, after: Seq<bool>)
    requires
        grows(before, after),
    ensures
        unchecked(after) <= unchecked(before),
        (exists|j: int| 0 <= j < before.len() && !before[j] && #[trigger] after[j]) ==> unchecked(after) < unchecked(before),
    decreases before.len(),
{
    if before.len() > 0 {
        let b = before.drop_last();
        let a = after.drop_last();
        assert(grows(b, a)) by {
            assert forall|j: int| 0 <= j < b.len() && #[trigger] b[j] implies a[j] by {
                assert(before[j]);
            }
        }
        lemma_unchecked_shrinks(b, a);
        if exists|j: int| 0 <= j < before.len() && !before[j] && #[trigger] after[j] {
            let j = choose|j: int| 0 <= j < before.len() && !before[j] && #[trigger] after[j];
            if j < before.len() - 1 {
                assert(!b[j] && a[j]);
            }
        }
    }
}

/// Marks one more package as checked.
proof fn lemma_unchecked_mark(s: Seq<bool>, j: int)
    requires
        0 <= j < s.len(),
        !s[j],
    ensures
        unchecked(s.update(j, true)) < unchecked(s),
        grows(s, s.update(j, true)),
{
    assert(grows(s, s.update(j, true)));
    assert(s.update(j, true)[j]);
    lemma_unchecked_shrinks(s, s.update(j, true));
}

/// A path that meets `x` again, closed by an edge back to it, makes a
/// cycle through `x`.
proof fn lemma_cycle_from_path(g: &ResolveGraph, p: Seq<usize>, j: int, x: int)
    requires
        g.chain(p),
        0 <= j < p.len(),
        p[j] == x,
        g.needs(p.last() as int, x),
    ensures
        g.on_cycle(x),
{
    let q = p.subrange(j, p.len() as int);
    assert forall|i: int| 0 <= i < q.len() - 1 implies #[trigger] g.needs(q[i] as int, q[i + 1] as int) by {
        assert(q[i] == p[i + j]);
        assert(q[i + 1] == p[i + j + 1]);
        assert(g.needs(p[i + j] as int, p[i + j + 1] as int));
    }
    assert(q.last() == p.last());
    assert(q.len() >= 1 && q[0] == x && g.chain(q) && g.needs(q.last() as int, x));
}

/// Whether the path holds the package.
fn path_holds(p: &Vec<usize>, x: usize) -> (r: Option<usize>)
    ensures
        r matches Some(j) ==> j < p@.len() && p@[j as int] == x,
        r is None ==> !p@.contains(x),
{
    let mut i: usize = 0;
    while i < p.len()
        invariant
            i <= p@.len(),
            forall|k: int| 0 <= k < i ==> p@[k] != x,
        decreases p.len() - i,
    {
        if p[i] == x {
            return Some(i);
        }
        i = i + 1;
    }
    None
}

/// Whether the package needs itself directly: a transitive dependency of
/// it names it or a package it replaces.
pub open spec fn self_dep(g: &ResolveGraph, x: int) -> bool {
    g.needs(x, x)
}

/// Whether the path holds the package.
spec fn on_path(p: Seq<usize>, x: int) -> bool {
    exists|i: int| 0 <= i < p.len() && p[i] as int == x
}

/// Whether the package is checked and off the path: its visit is over.
spec fn done_at(g: &ResolveGraph, c: Seq<bool>, p: Seq<usize>, x: int) -> bool {
    0 <= x < g.size() && c[x] && !on_path(p, x)
}

/// Whether each package whose visit is over has a rank below the clock and
/// needs only packages whose visit is over, each of lower rank.
spec fn ranked(g: &ResolveGraph, c: Seq<bool>, p: Seq<usize>, rank: Seq<int>, clock: int) -> bool {
    &&& rank.len() == g.size()
    &&& forall|x: int| #[trigger]
        done_at(g, c, p, x) ==> rank[x] < clock && forall|y: int| #[trigger]
            g.needs(x, y) ==> done_at(g, c, p, y) && rank[y] < rank[x]
}

/// Whether the `m`-th dependency of `id`, and the package that replaces it,
/// are visited, each with a rank below the clock.
spec fn covered(g: &ResolveGraph, c: Seq<bool>, p: Seq<usize>, rank: Seq<int>, clock: int, id: int, m: int) -> bool {
    let d = g.dep(id, m).0 as int;
    &&& done_at(g, c, p, d)
    &&& rank[d] < clock
    &&& (g.replacements@[d] matches Some(r) ==> done_at(g, c, p, r as int) && rank[r as int] < clock)
}

/// Along a path of packages each needing the next, starting at a package
/// whose visit is over, the rank falls at each step.
proof fn lemma_chain_descends(g: &ResolveGraph, c: Seq<bool>, rank: Seq<int>, clock: int, p: Seq<usize>, i: int)
    requires
        ranked(g, c, Seq::<usize>::empty(), rank, clock),
        g.chain(p),
        p.len() >= 1,
        done_at(g, c, Seq::<usize>::empty(), p[0] as int),
        0 <= i < p.len(),
    ensures
        done_at(g, c, Seq::<usize>::empty(), p[i] as int),
        rank[p[i] as int] <= rank[p[0] as int] - i,
    decreases i,
{
    if i > 0 {
        let j = i - 1;
        lemma_chain_descends(g, c, rank, clock, p, j);
        assert(g.needs(p[j] as int, p[j + 1] as int));
        assert(p[j + 1] == p[i]);
    }
}

/// Once every package is visited with ranks as above, no package is on a
/// cycle.
proof fn lemma_ranked_acyclic(g: &ResolveGraph, c: Seq<bool>, rank: Seq<int>, clock: int, x: int)
    requires
        ranked(g, c, Seq::<usize>::empty(), rank, clock),
        c.len() == g.size(),
        forall|j: int| 0 <= j < g.size() ==> #[trigger] c[j],
        0 <= x < g.size(),
    ensures
        !g.on_cycle(x),
{
    if g.on_cycle(x) {
        let p = choose|p: Seq<usize>| p.len() >= 1 && p[0] == x && g.chain(p) && #[trigger] g.needs(p.last() as int, x);
        assert(c[x]);
        assert(done_at(g, c, Seq::<usize>::empty(), p[0] as int));
        lemma_chain_descends(g, c, rank, clock, p, p.len() - 1);
        let l = p.last() as int;
        assert(done_at(g, c, Seq::<usize>::empty(), l));
        assert(g.needs(l, x));
    }
}

/// Visits a package and, the first time, all it depends on, following
/// the path of packages each needing the next (a development dependency
/// starts a new path). Meeting a package of the path again is a cycle.
/// Where every dependency is transitive, the path is the whole stack of
/// visits, and the ranks given to finished visits show that no package
/// whose visit is over is on a cycle.
fn visit(
    g: &ResolveGraph,
    id: usize,
    path: &mut Vec<usize>,
    checked: &mut Vec<bool>,
    Ghost(rank): Ghost<Seq<int>>,
    Ghost(clock): Ghost<int>,
) -> (res: (Result<(), usize>, Ghost<(Seq<int>, int)>))
    requires
        g.well_formed(),
        id < g.size(),
        old(checked)@.len() == g.size(),
        g.chain(old(path)@),
        forall|k: int| 0 <= k < old(path)@.len() ==> #[trigger] old(path)@[k] < g.size(),
        old(path)@.len() > 0 ==> g.needs(old(path)@.last() as int, id as int),
        g.all_transitive() ==> ranked(g, old(checked)@, old(path)@, rank, clock),
    ensures
        grows(old(checked)@, final(checked)@),
        res.0 matches Err(x) ==> x < g.size() && g.on_cycle(x as int),
        old(path)@.contains(id) ==> res.0 is Err,
        res.0 is Ok ==> final(path)@ == old(path)@,
        res.0 is Ok ==> final(checked)@[id as int],
        res.0 is Ok ==> forall|j: int|
            0 <= j < g.size() && !old(checked)@[j] && #[trigger] final(checked)@[j] ==> !self_dep(g, j),
        g.all_transitive() && res.0 is Ok ==> ranked(g, final(checked)@, old(path)@, res.1@.0, res.1@.1),
        g.all_transitive() && res.0 is Ok ==> clock <= res.1@.1,
        g.all_transitive() && res.0 is Ok ==> done_at(g, final(checked)@, old(path)@, id as int),
        g.all_transitive() && res.0 is Ok ==> forall|x: int| #[trigger]
            done_at(g, old(checked)@, old(path)@, x) ==> res.1@.0[x] == rank[x],
    decreases unchecked(old(checked)@),
{
    match path_holds(path, id) {
        Some(j) => {
            proof {
                lemma_cycle_from_path(g, path@, j as int, id as int);
            }
            return (Err(id), Ghost((rank, clock)));
        },
        None => {},
    }
    let ghost p0 = path@;
    let ghost c0 = checked@;
    let ghost mut rk = rank;
    let ghost mut ck = clock;
    path.push(id);
    assert(g.chain(path@)) by {
        assert forall|i: int| 0 <= i < path@.len() - 1 implies #[trigger] g.needs(path@[i] as int, path@[i + 1] as int) by {
            if i < p0.len() - 1 {
                assert(path@[i] == p0[i] && path@[i + 1] == p0[i + 1]);
                assert(g.needs(p0[i] as int, p0[i + 1] as int));
            } else {
                assert(path@[i] == p0.last() && path@[i + 1] == id);
            }
        }
    }
    if !checked[id] {
        checked.set(id, true);
        proof {
            lemma_unchecked_mark(c0, id as int);
            if g.all_transitive() {
                lemma_ranked_enter(g, c0, p0, rank, clock, id);
            }
        }
        let n = g.deps[id].len();
        let mut k: usize = 0;
        while k < n
            invariant
                g.well_formed(),
                id < g.size(),
                n == g.deps@[id as int]@.len(),
                k <= n,
                !p0.contains(id),
                !c0[id as int],
                c0 == old(checked)@,
                path@ == p0.push(id),
                g.chain(path@),
                forall|m: int| 0 <= m < path@.len() ==> #[trigger] path@[m] < g.size(),
                grows(c0, checked@),
                checked@.len() == g.size(),
                checked@[id as int],
                unchecked(checked@) < unchecked(c0),
                forall|m: int| 0 <= m < k ==> !#[trigger] g.step_at(id as int, m, id as int),
                forall|j: int|
                    0 <= j < g.size() && j != id && !c0[j] && #[trigger] checked@[j] ==> !self_dep(g, j),
                g.all_transitive() ==> ranked(g, checked@, path@, rk, ck),
                g.all_transitive() ==> clock <= ck,
                g.all_transitive() ==> forall|x: int| #[trigger] done_at(g, c0, p0, x) ==> rk[x] == rank[x],
                g.all_transitive() ==> forall|m: int| 0 <= m < k ==> #[trigger] covered(g, checked@, path@, rk, ck, id as int, m),
            decreases n - k,
        {
            let (d, transitive) = g.deps[id][k];
            assert(g.dep(id as int, k as int) == (d, transitive));
            assert(d < g.size());
            let ghost cb = checked@;
            let ghost rb = rk;
            let ghost kb = ck;
            let mut fresh: Vec<usize> = Vec::new();
            assert(path@[p0.len() as int] == id);
            let (r1, Ghost(after1)) = if transitive {
                assert(g.step_at(id as int, k as int, d as int));
                visit(g, d, path, checked, Ghost(rk), Ghost(ck))
            } else {
                visit(g, d, &mut fresh, checked, Ghost(rk), Ghost(ck))
            };
            match r1 {
                Err(x) => {
                    return (Err(x), Ghost((rk, ck)));
                },
                Ok(()) => {},
            }
            proof {
                lemma_unchecked_shrinks(cb, checked@);
                if g.all_transitive() {
                    rk = after1.0;
                    ck = after1.1;
                    lemma_ranked_keeps(g, cb, checked@, path@, rb, kb, rk, ck, id, k as int, c0, p0, rank);
                }
            }
            assert(path@[p0.len() as int] == id);
            let ghost cm = checked@;
            let ghost rm = rk;
            let ghost km = ck;
            match g.replacements[d] {
                Some(rep) => {
                    assert(rep < g.size());
                    let (r2, Ghost(after2)) = if transitive {
                        assert(g.step_at(id as int, k as int, rep as int));
                        visit(g, rep, path, checked, Ghost(rk), Ghost(ck))
                    } else {
                        let mut fresh2: Vec<usize> = Vec::new();
                        visit(g, rep, &mut fresh2, checked, Ghost(rk), Ghost(ck))
                    };
                    match r2 {
                        Err(x) => {
                            return (Err(x), Ghost((rk, ck)));
                        },
                        Ok(()) => {},
                    }
                    proof {
                        lemma_unchecked_shrinks(cm, checked@);
                        if g.all_transitive() {
                            rk = after2.0;
                            ck = after2.1;
                            lemma_ranked_keeps(g, cm, checked@, path@, rm, km, rk, ck, id, k as int, c0, p0, rank);
                        }
                    }
                },
                None => {},
            }
            proof {
                if g.all_transitive() {
                    assert(covered(g, checked@, path@, rk, ck, id as int, k as int));
                }
            }
            k = k + 1;
        }
        proof {
            assert forall|j: int|
                0 <= j < g.size() && !old(checked)@[j] && #[trigger] checked@[j] implies !self_dep(g, j) by {
                if j == id {
                    if self_dep(g, j) {
                        let m = choose|m: int| #[trigger] g.step_at(id as int, m, id as int);
                        assert(g.step_at(id as int, m, id as int));
                    }
                }
            }
            if g.all_transitive() {
                lemma_ranked_leave(g, checked@, p0, rk, ck, id, c0, rank);
                rk = rk.update(id as int, ck);
                ck = ck + 1;
            }
        }
    }
    path.pop();
    assert(path@ =~= p0);
    (Ok(()), Ghost((rk, ck)))
}

/// A package is on a path with one more package pushed when it is that
/// package or on the path before.
proof fn lemma_on_path_push(p: Seq<usize>, v: usize, x: int)
    ensures
        on_path(p.push(v), x) <==> (on_path(p, x) || x == v as int),
{
    let q = p.push(v);
    if on_path(q, x) {
        let i = choose|i: int| 0 <= i < q.len() && q[i] as int == x;
        if i < p.len() {
            assert(p[i] == q[i]);
        }
    }
    if on_path(p, x) {
        let i = choose|i: int| 0 <= i < p.len() && p[i] as int == x;
        assert(q[i] == p[i]);
    }
    if x == v as int {
        assert(q[p.len() as int] == v);
    }
}

/// Entering an unchecked package keeps the ranks: no finished visit needs
/// it, since finished visits need only checked packages.
proof fn lemma_ranked_enter(g: &ResolveGraph, c0: Seq<bool>, p0: Seq<usize>, rank: Seq<int>, clock: int, id: usize)
    requires
        ranked(g, c0, p0, rank, clock),
        id < g.size(),
        c0.len() == g.size(),
        !c0[id as int],
    ensures
        ranked(g, c0.update(id as int, true), p0.push(id), rank, clock),
{
    let c1 = c0.update(id as int, true);
    let p1 = p0.push(id);
    assert forall|x: int| #[trigger] done_at(g, c1, p1, x) implies rank[x] < clock && forall|y: int| #[trigger]
        g.needs(x, y) ==> done_at(g, c1, p1, y) && rank[y] < rank[x] by {
        lemma_on_path_push(p0, id, x);
        assert(done_at(g, c0, p0, x));
        assert forall|y: int| #[trigger] g.needs(x, y) implies done_at(g, c1, p1, y) && rank[y] < rank[x] by {
            assert(done_at(g, c0, p0, y));
            lemma_on_path_push(p0, id, y);
        }
    }
}

/// A visit from a package on the path keeps the ranks of the visits
/// finished before, and leaves the dependencies visited before visited,
/// below the clock.
proof fn lemma_ranked_keeps(
    g: &ResolveGraph,
    cb: Seq<bool>,
    ca: Seq<bool>,
    path: Seq<usize>,
    rb: Seq<int>,
    kb: int,
    ra: Seq<int>,
    ka: int,
    id: usize,
    k: int,
    c0: Seq<bool>,
    p0: Seq<usize>,
    rank: Seq<int>,
)
    requires
        grows(cb, ca),
        kb <= ka,
        path == p0.push(id),
        id < g.size(),
        cb.len() == g.size(),
        forall|x: int| #[trigger] done_at(g, cb, path, x) ==> ra[x] == rb[x],
        forall|x: int| #[trigger] done_at(g, c0, p0, x) ==> rb[x] == rank[x],
        forall|m: int| 0 <= m < k ==> #[trigger] covered(g, cb, path, rb, kb, id as int, m),
        grows(c0, cb),
        !c0[id as int],
    ensures
        forall|x: int| #[trigger] done_at(g, c0, p0, x) ==> ra[x] == rank[x],
        forall|m: int| 0 <= m < k ==> #[trigger] covered(g, ca, path, ra, ka, id as int, m),
{
    assert forall|x: int| #[trigger] done_at(g, c0, p0, x) implies ra[x] == rank[x] by {
        assert(cb[x]);
        lemma_on_path_push(p0, id, x);
        assert(done_at(g, cb, path, x));
    }
    assert forall|m: int| 0 <= m < k implies #[trigger] covered(g, ca, path, ra, ka, id as int, m) by {
        assert(covered(g, cb, path, rb, kb, id as int, m));
        let d = g.dep(id as int, m).0 as int;
        assert(done_at(g, cb, path, d));
        assert(ca[d]);
        assert(done_at(g, ca, path, d));
        match g.replacements@[d] {
            Some(r) => {
                assert(done_at(g, cb, path, r as int));
                assert(ca[r as int]);
                assert(done_at(g, ca, path, r as int));
            },
            None => {},
        }
    }
}

/// Leaving a package whose dependencies are all visited: it gets the
/// clock as its rank, and the ranks hold with the package off the path.
proof fn lemma_ranked_leave(g: &ResolveGraph, c: Seq<bool>, p0: Seq<usize>, rk: Seq<int>, ck: int, id: usize, c0: Seq<bool>, rank: Seq<int>)
    requires
        g.well_formed(),
        g.all_transitive(),
        id < g.size(),
        c.len() == g.size(),
        c[id as int],
        !p0.contains(id),
        !c0[id as int],
        ranked(g, c, p0.push(id), rk, ck),
        forall|m: int| 0 <= m < g.deps@[id as int]@.len() ==> #[trigger] covered(g, c, p0.push(id), rk, ck, id as int, m),
        forall|x: int| #[trigger] done_at(g, c0, p0, x) ==> rk[x] == rank[x],
    ensures
        ranked(g, c, p0, rk.update(id as int, ck), ck + 1),
        done_at(g, c, p0, id as int),
        forall|x: int| #[trigger] done_at(g, c0, p0, x) ==> rk.update(id as int, ck)[x] == rank[x],
{
    let p1 = p0.push(id);
    let r2 = rk.update(id as int, ck);
    let n = id as int;
    assert(!on_path(p0, n)) by {
        if on_path(p0, n) {
            let i = choose|i: int| 0 <= i < p0.len() && p0[i] as int == n;
            assert(p0[i] == id);
        }
    }
    assert forall|x: int| #[trigger] done_at(g, c, p0, x) implies r2[x] < ck + 1 && forall|y: int| #[trigger]
        g.needs(x, y) ==> done_at(g, c, p0, y) && r2[y] < r2[x] by {
        lemma_on_path_push(p0, id, x);
        if x == n {
            assert forall|y: int| #[trigger] g.needs(x, y) implies done_at(g, c, p0, y) && r2[y] < r2[x] by {
                let m = choose|m: int| #[trigger] g.step_at(n, m, y);
                assert(covered(g, c, p1, rk, ck, n, m));
                let d = g.dep(n, m).0 as int;
                assert(done_at(g, c, p1, d));
                if y != d {
                    assert(g.replacements@[d] matches Some(r) && r == y);
                }
                assert(done_at(g, c, p1, y));
                lemma_on_path_push(p0, id, y);
            }
        } else {
            assert(done_at(g, c, p1, x));
            assert forall|y: int| #[trigger] g.needs(x, y) implies done_at(g, c, p0, y) && r2[y] < r2[x] by {
                assert(done_at(g, c, p1, y));
                lemma_on_path_push(p0, id, y);
            }
        }
    }
    assert forall|x: int| #[trigger] done_at(g, c0, p0, x) implies r2[x] == rank[x] by {
        assert(x != n);
    }
}

/// Checks that no package depends on itself through the dependencies it
/// needs to be built, visiting the packages in order. An error names a
/// package on such a cycle; a package that needs itself directly is always
/// found, and where no dependency is for development only, every cycle is.
pub fn check_cycles(g: &ResolveGraph) -> (r: Result<(), usize>)
    requires
        g.well_formed(),
    ensures
        r matches Err(x) ==> x < g.size() && g.on_cycle(x as int),
        (forall|x: int| 0 <= x < g.size() ==> !g.on_cycle(x)) ==> r is Ok,
        r is Ok ==> forall|x: int| 0 <= x < g.size() ==> !#[trigger] self_dep(g, x),
        g.all_transitive() ==> (r is Ok <==> forall|x: int| 0 <= x < g.size() ==> !g.on_cycle(x)),
{
    let n = g.deps.len();
    let mut checked: Vec<bool> = Vec::new();
    let mut i: usize = 0;
    while i < n
        invariant
            i <= n,
            n == g.size(),
            checked@.len() == i,
            forall|j: int| 0 <= j < i ==> !#[trigger] checked@[j],
        decreases n - i,
    {
        checked.push(false);
        i = i + 1;
    }
    let ghost mut rank: Seq<int> = Seq::new(n as nat, |j: int| 0int);
    let ghost mut clock: int = 0;
    assert(ranked(g, checked@, Seq::<usize>::empty(), rank, clock)) by {
        assert forall|x: int| #[trigger] done_at(g, checked@, Seq::<usize>::empty(), x) implies false by {
            assert(!checked@[x]);
        }
    }
    let mut pkg: usize = 0;
    while pkg < n
        invariant
            g.well_formed(),
            n == g.size(),
            pkg <= n,
            checked@.len() == n,
            forall|j: int| 0 <= j < pkg ==> #[trigger] checked@[j],
            forall|j: int| 0 <= j < n && #[trigger] checked@[j] ==> !self_dep(g, j),
            g.all_transitive() ==> ranked(g, checked@, Seq::<usize>::empty(), rank, clock),
        decreases n - pkg,
    {
        if !checked[pkg] {
            let mut path: Vec<usize> = Vec::new();
            let ghost c0 = checked@;
            assert(path@ =~= Seq::<usize>::empty());
            let (res, Ghost(after)) = visit(g, pkg, &mut path, &mut checked, Ghost(rank), Ghost(clock));
            match res {
                Err(x) => {
                    return Err(x);
                },
                Ok(()) => {},
            }
            proof {
                rank = after.0;
                clock = after.1;
            }
            assert(forall|j: int| 0 <= j < n && #[trigger] checked@[j] ==> !self_dep(g, j)) by {
                assert forall|j: int| 0 <= j < n && #[trigger] checked@[j] implies !self_dep(g, j) by {
                    if !c0[j] {
                    } else {
                        assert(c0[j]);
                    }
                }
            }
            assert forall|j: int| 0 <= j <= pkg implies #[trigger] checked@[j] by {
                if j < pkg {
                    assert(c0[j]);
                }
            }
        }
        pkg = pkg + 1;
    }
    assert forall|x: int| 0 <= x < g.size() implies !#[trigger] self_dep(g, x) by {
        assert(checked@[x]);
    }
    proof {
        if g.all_transitive() {
            assert forall|x: int| 0 <= x < g.size() implies !g.on_cycle(x) by {
                lemma_ranked_acyclic(g, checked@, rank, clock, x);
            }
        }
    }
    Ok(())
}

/// Whether the first `n` encodings are all different.
pub open spec fn distinct_upto(enc: Seq<Seq<char>>, n: int) -> bool {
    forall|a: int, b: int| 0 <= a < b < n ==> #[trigger] enc[a] != #[trigger] enc[b]
}

/// Checks that the packages stay different when written to the lock file,
/// which keeps less of a package id than the id itself (`encoded` holds
/// each package's written form). An error names, for the first package
/// whose form an earlier one has, that earlier package and itself.
pub fn check_duplicate_pkgs_in_lockfile(encoded: &Vec<String>) -> (r: Result<(), (usize, usize)>)
    ensures
        r is Ok <==> distinct_upto(strs(encoded@), encoded@.len() as int),
        r matches Err((j, i)) ==> j < i < encoded@.len() && encoded@[j as int]@ == encoded@[i as int]@ && distinct_upto(
            strs(encoded@),
            i as int,
        ),
{
    let ghost enc = strs(encoded@);
    let mut i: usize = 0;
    while i < encoded.len()
        invariant
            i <= encoded@.len(),
            enc == strs(encoded@),
            distinct_upto(enc, i as int),
        decreases encoded.len() - i,
    {
        let mut j: usize = 0;
        while j < i
            invariant
                j <= i < encoded@.len(),
                enc == strs(encoded@),
                distinct_upto(enc, i as int),
                forall|a: int| 0 <= a < j ==> enc[a] != enc[i as int],
            decreases i - j,
        {
            assert(enc[j as int] == encoded@[j as int]@ && enc[i as int] == encoded@[i as int]@);
            if encoded[j].eq(&encoded[i]) {
                proof {
                    if distinct_upto(enc, encoded@.len() as int) {
                        assert(enc[j as int] != enc[i as int]);
                    }
                }
                return Err((j, i));
            }
            j = j + 1;
        }
        proof {
            assert forall|a: int, b: int| 0 <= a < b < i + 1 implies #[trigger] enc[a] != #[trigger] enc[b] by {
                if b < i {
                    assert(distinct_upto(enc, i as int));
                }
            }
        }
        i = i + 1;
    }
    Ok(())
}

} // verus!
