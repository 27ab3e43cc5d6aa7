//! The resolver's cache of conflicts: for each dependency, the sets of
//! activated packages under which it is known not to resolve, stored in a
//! trie so that the sets contained in the set of active packages are found
//! quickly.
//!
//! Package ids and dependencies are given as numbers, each standing for
//! one package id or dependency of the resolver; a conflict set is a list
//! of pairs (package, reason) ordered by package, as a `BTreeMap` keeps
//! them.
use vstd::prelude::*;

verus! {

/// A trie of conflict sets.
#[derive(Debug)]
pub enum ConflictStore {
    /// A stored set.
    Leaf(Vec<(u64, u64)>),
    /// For each package, the sets that hold it (and the packages on the
    /// path to this node).
    Node(Vec<(u64, ConflictStore)>),
}

/// The packages of a conflict set, in order.
pub open spec fn keys_of(c: Seq<(u64, u64)>) -> Seq<u64> {
    c.map_values(|p: (u64, u64)| p.0)
}

/// Whether `a` is a prefix of `b`.
pub open spec fn is_prefix(a: Seq<u64>, b: Seq<u64>) -> bool {
    a.len() <= b.len() && b.take(a.len() as int) == a
}

/// The sets stored in the trie, in order.
pub open spec fn leaves(s: ConflictStore) -> Seq<Seq<(u64, u64)>>
    decreases s, 0int,
{
    match s {
        ConflictStore::Leaf(x) => seq![x@],
        ConflictStore::Node(v) => leaves_list(v@),
    }
}

/// The sets stored under the children, in order.
pub open spec fn leaves_list(cs: Seq<(u64, ConflictStore)>) -> Seq<Seq<(u64, u64)>>
    decreases cs, 1int,
{
    if cs.len() == 0 {
        Seq::empty()
    } else {
        leaves_list(cs.drop_last()) + leaves(cs.last().1)
    }
}

/// Whether the trie stores the set.
pub open spec fn has_leaf(s: ConflictStore, c: Seq<(u64, u64)>) -> bool {
    leaves(s).contains(c)
}

/// Whether the trie at `path` is well formed: a set is stored at the path
/// of its packages, and a node has one child per package.
pub open spec fn wf(s: ConflictStore, path: Seq<u64>) -> bool
    decreases s, 0int,
{
    match s {
        ConflictStore::Leaf(x) => keys_of(x@) == path,
        ConflictStore::Node(v) => wf_list(v@, path) && distinct_keys(v@),
    }
}

/// Whether every child is well formed at the path extended by its key.
pub open spec fn wf_list(cs: Seq<(u64, ConflictStore)>, path: Seq<u64>) -> bool
    decreases cs, 1int,
{
    if cs.len() == 0 {
        true
    } else {
        wf_list(cs.drop_last(), path) && wf(cs.last().1, path.push(cs.last().0))
    }
}

/// Whether the children have distinct keys.
pub open spec fn distinct_keys(cs: Seq<(u64, ConflictStore)>) -> bool {
    forall|i: int, j: int|
        0 <= i < cs.len() && 0 <= j < cs.len() && (#[trigger] cs[i]).0 == (#[trigger] cs[j]).0 ==> i == j
}

/// A set is stored under the children exactly when it is stored under one
/// of them.
pub proof fn lemma_leaves_list(cs: Seq<(u64, ConflictStore)>, c: Seq<(u64, u64)>)
    ensures
        leaves_list(cs).contains(c) <==> exists|i: int| 0 <= i < cs.len() && #[trigger] leaves(cs[i].1).contains(c),
    decreases cs.len(),
{
    if cs.len() > 0 {
        let d = cs.drop_last();
        lemma_leaves_list(d, c);
        let a = leaves_list(d);
        let b = leaves(cs.last().1);
        if leaves_list(cs).contains(c) {
            let k = choose|k: int| 0 <= k < leaves_list(cs).len() && leaves_list(cs)[k] == c;
            if k < a.len() {
                assert(a[k] == c);
                let i = choose|i: int| 0 <= i < d.len() && #[trigger] leaves(d[i].1).contains(c);
                assert(d[i] == cs[i]);
            } else {
                assert(b[k - a.len()] == c);
                assert(leaves(cs[cs.len() - 1].1).contains(c));
            }
        }
        if exists|i: int| 0 <= i < cs.len() && #[trigger] leaves(cs[i].1).contains(c) {
            let i = choose|i: int| 0 <= i < cs.len() && #[trigger] leaves(cs[i].1).contains(c);
            if i < cs.len() - 1 {
                assert(d[i] == cs[i]);
                assert(a.contains(c));
                let k = choose|k: int| 0 <= k < a.len() && a[k] == c;
                assert(leaves_list(cs)[k] == c);
            } else {
                let k = choose|k: int| 0 <= k < b.len() && b[k] == c;
                assert(leaves_list(cs)[a.len() + k] == c);
            }
        }
    }
}

/// The children are well formed exactly when each one is.
pub proof fn lemma_wf_list(cs: Seq<(u64, ConflictStore)>, path: Seq<u64>)
    ensures
        wf_list(cs, path) <==> forall|i: int| 0 <= i < cs.len() ==> #[trigger] wf(cs[i].1, path.push(cs[i].0)),
    decreases cs.len(),
{
    if cs.len() > 0 {
        let d = cs.drop_last();
        lemma_wf_list(d, path);
        if wf_list(cs, path) {
            assert forall|i: int| 0 <= i < cs.len() implies #[trigger] wf(cs[i].1, path.push(cs[i].0)) by {
                if i < cs.len() - 1 {
                    assert(d[i] == cs[i]);
                }
            }
        }
        if forall|i: int| 0 <= i < cs.len() ==> #[trigger] wf(cs[i].1, path.push(cs[i].0)) {
            assert forall|i: int| 0 <= i < d.len() implies #[trigger] wf(d[i].1, path.push(d[i].0)) by {
                assert(d[i] == cs[i]);
                assert(wf(cs[i].1, path.push(cs[i].0)));
            }
            assert(wf(cs[cs.len() - 1].1, path.push(cs[cs.len() - 1].0)));
        }
    }
}

/// A set stored in a well-formed trie at `path` has `path` as the start of
/// its packages, and goes on past it below a node.
pub proof fn lemma_leaf_path(s: ConflictStore, path: Seq<u64>, c: Seq<(u64, u64)>)
    requires
        wf(s, path),
        has_leaf(s, c),
    ensures
        is_prefix(path, keys_of(c)),
        s is Node ==> keys_of(c).len() > path.len(),
    decreases s,
{
    match s {
        ConflictStore::Leaf(x) => {
            assert(leaves(s)[0] == x@);
            assert(c == x@);
            assert(keys_of(c).take(path.len() as int) =~= path);
        },
        ConflictStore::Node(v) => {
            lemma_leaves_list(v@, c);
            lemma_wf_list(v@, path);
            let i = choose|i: int| 0 <= i < v@.len() && #[trigger] leaves(v@[i].1).contains(c);
            assert(wf(v@[i].1, path.push(v@[i].0)));
            lemma_leaf_path(v@[i].1, path.push(v@[i].0), c);
            assert(keys_of(c).take(path.len() as int) =~= keys_of(c).take(path.len() + 1int).take(
                path.len() as int,
            ));
            assert(path.push(v@[i].0).take(path.len() as int) =~= path);
        },
    }
}

/// Whether every package of the set is active.
pub open spec fn all_active(c: Seq<(u64, u64)>, active: Seq<u64>) -> bool {
    forall|k: int| 0 <= k < c.len() ==> active.contains(#[trigger] c[k].0)
}

/// Whether the set holds the package that must be in it, if one must.
pub open spec fn filter_ok(c: Seq<(u64, u64)>, must_contain: Option<u64>) -> bool {
    must_contain matches Some(p) ==> keys_of(c).contains(p)
}

/// Whether the trie stores a set whose packages are all active and that
/// passes the filter.
pub open spec fn detects(s: ConflictStore, active: Seq<u64>, must_contain: Option<u64>) -> bool {
    exists|c: Seq<(u64, u64)>| #[trigger] has_leaf(s, c) && all_active(c, active) && filter_ok(c, must_contain)
}

/// Whether the list holds the value.
fn contains_u64(v: &Vec<u64>, x: u64) -> (r: bool)
    ensures
        r == v@.contains(x),
{
    let mut i: usize = 0;
    while i < v.len()
        invariant
            i <= v@.len(),
            forall|j: int| 0 <= j < i ==> v@[j] != x,
        decreases v.len() - i,
    {
        if v[i] == x {
            return true;
        }
        i = i + 1;
    }
    false
}

/// A copy of a conflict set.
fn clone_set(c: &Vec<(u64, u64)>) -> (r: Vec<(u64, u64)>)
    ensures
        r@ == c@,
{
    let mut out: Vec<(u64, u64)> = Vec::new();
    let mut i: usize = 0;
    while i < c.len()
        invariant
            i <= c@.len(),
            out@ == c@.take(i as int),
        decreases c.len() - i,
    {
        out.push(c[i]);
        i = i + 1;
        assert(out@ =~= c@.take(i as int));
    }
    assert(c@.take(c@.len() as int) =~= c@);
    out
}

/// Whether the set holds the package.
fn set_contains(c: &Vec<(u64, u64)>, p: u64) -> (r: bool)
    ensures
        r == keys_of(c@).contains(p),
{
    let mut i: usize = 0;
    while i < c.len()
        invariant
            i <= c@.len(),
            forall|j: int| 0 <= j < i ==> c@[j].0 != p,
        decreases c.len() - i,
    {
        if c[i].0 == p {
            assert(keys_of(c@)[i as int] == p);
            return true;
        }
        i = i + 1;
    }
    assert forall|j: int| 0 <= j < keys_of(c@).len() implies keys_of(c@)[j] != p by {
        assert(keys_of(c@)[j] == c@[j].0);
    }
    false
}

/// A stored set at or below `s` whose packages are active and that passes
/// the filter; `None` when there is none. The packages on the path to `s`
/// are active.
fn find_in(s: &ConflictStore, active: &Vec<u64>, must_contain: Option<u64>, Ghost(path): Ghost<Seq<u64>>) -> (r: Option<Vec<(u64, u64)>>)
    requires
        wf(*s, path),
        forall|k: int| 0 <= k < path.len() ==> active@.contains(#[trigger] path[k]),
    ensures
        r matches Some(c) ==> has_leaf(*s, c@) && all_active(c@, active@) && filter_ok(c@, must_contain),
        r is None ==> !detects(*s, active@, must_contain),
    decreases s,
{
    match s {
        ConflictStore::Leaf(x) => {
            proof {
                assert forall|k: int| 0 <= k < x@.len() implies active@.contains(#[trigger] x@[k].0) by {
                    assert(keys_of(x@)[k] == x@[k].0);
                    assert(path[k] == x@[k].0);
                }
            }
            let ok = match must_contain {
                Some(p) => set_contains(x, p),
                None => true,
            };
            if ok {
                assert(leaves(*s)[0] == x@);
                Some(clone_set(x))
            } else {
                proof {
                    assert forall|c: Seq<(u64, u64)>| #[trigger] has_leaf(*s, c) implies !filter_ok(c, must_contain) by {
                        assert(leaves(*s) == seq![x@]);
                    }
                }
                None
            }
        },
        ConflictStore::Node(v) => {
            proof {
                lemma_wf_list(v@, path);
            }
            let mut i: usize = 0;
            while i < v.len()
                invariant
                    i <= v@.len(),
                    *s == ConflictStore::Node(*v),
                    wf(*s, path),
                    forall|k: int| 0 <= k < path.len() ==> active@.contains(#[trigger] path[k]),
                    forall|j: int| 0 <= j < v@.len() ==> #[trigger] wf(v@[j].1, path.push(v@[j].0)),
                    forall|j: int|
                        0 <= j < i ==> !detects(#[trigger] v@[j].1, active@, must_contain),
                decreases v.len() - i,
            {
                let ghost child_path = path.push(v@[i as int].0);
                assert(wf(v@[i as int].1, child_path));
                if contains_u64(active, v[i].0) {
                    assert forall|k: int| 0 <= k < child_path.len() implies active@.contains(#[trigger] child_path[k]) by {
                        if k < path.len() {
                            assert(child_path[k] == path[k]);
                        }
                    }
                    let found = find_in(&v[i].1, active, must_contain, Ghost(child_path));
                    match found {
                        Some(c) => {
                            proof {
                                lemma_leaves_list(v@, c@);
                            }
                            return Some(c);
                        },
                        None => {},
                    }
                } else {
                    proof {
                        assert forall|c: Seq<(u64, u64)>|
                            #[trigger] has_leaf(v@[i as int].1, c) implies !all_active(c, active@) by {
                            lemma_leaf_path(v@[i as int].1, child_path, c);
                            assert(keys_of(c).take(child_path.len() as int) == child_path);
                            assert(child_path[path.len() as int] == v@[i as int].0);
                            assert(keys_of(c).take(child_path.len() as int)[path.len() as int]
                                == keys_of(c)[path.len() as int]);
                            assert(keys_of(c)[path.len() as int] == v@[i as int].0);
                            assert(c[path.len() as int].0 == v@[i as int].0);
                        }
                    }
                }
                i = i + 1;
            }
            proof {
                assert forall|c: Seq<(u64, u64)>|
                    #[trigger] has_leaf(*s, c) && all_active(c, active@) implies !filter_ok(c, must_contain) by {
                    lemma_leaves_list(v@, c);
                    let j = choose|j: int| 0 <= j < v@.len() && #[trigger] leaves(v@[j].1).contains(c);
                    assert(has_leaf(v@[j].1, c));
                    assert(!detects(v@[j].1, active@, must_contain));
                }
            }
            None
        },
    }
}

/// Whether the trie stores a set whose packages are a proper prefix of
/// `k`, that is, a subset of `k` that is found first.
pub open spec fn blocked(s: ConflictStore, k: Seq<u64>) -> bool {
    exists|c: Seq<(u64, u64)>| #[trigger] has_leaf(s, c) && is_prefix(keys_of(c), k) && keys_of(c).len() < k.len()
}

/// Whether the set is stored after `con` is inserted: nothing changes when
/// a set of a proper prefix of its packages is stored; otherwise the sets
/// that have its packages as a prefix are replaced by it.
pub open spec fn inserted(s: ConflictStore, con: Seq<(u64, u64)>, c: Seq<(u64, u64)>) -> bool {
    if blocked(s, keys_of(con)) {
        has_leaf(s, c)
    } else {
        (has_leaf(s, c) && !is_prefix(keys_of(con), keys_of(c))) || c == con
    }
}

/// A set stored under child `m` of a well-formed node at `path` goes
/// through the child's key.
proof fn lemma_child_leaf(v: Seq<(u64, ConflictStore)>, path: Seq<u64>, m: int, c: Seq<(u64, u64)>)
    requires
        wf_list(v, path),
        0 <= m < v.len(),
        has_leaf(v[m].1, c),
    ensures
        keys_of(c).len() > path.len(),
        keys_of(c)[path.len() as int] == v[m].0,
        is_prefix(path, keys_of(c)),
{
    lemma_wf_list(v, path);
    let cp = path.push(v[m].0);
    assert(wf(v[m].1, cp));
    lemma_leaf_path(v[m].1, cp, c);
    assert(keys_of(c).take(cp.len() as int) == cp);
    assert(cp[path.len() as int] == v[m].0);
    assert(keys_of(c).take(cp.len() as int)[path.len() as int] == keys_of(c)[path.len() as int]);
    assert(keys_of(c).take(path.len() as int) =~= keys_of(c).take(cp.len() as int).take(path.len() as int));
    assert(cp.take(path.len() as int) =~= path);
}

/// The index of the child for the package, if any.
fn find_child(v: &Vec<(u64, ConflictStore)>, key: u64) -> (r: Option<usize>)
    ensures
        r matches Some(j) ==> j < v@.len() && v@[j as int].0 == key,
        r is None ==> forall|m: int| 0 <= m < v@.len() ==> (#[trigger] v@[m]).0 != key,
{
    let mut j: usize = 0;
    while j < v.len()
        invariant
            j <= v@.len(),
            forall|m: int| 0 <= m < j ==> (#[trigger] v@[m]).0 != key,
        decreases v.len() - j,
    {
        if v[j].0 == key {
            return Some(j);
        }
        j = j + 1;
    }
    None
}

/// Inserts `con`, whose packages are `keys`, into the trie `s` at the path
/// of the first `i` of them.
fn insert_store(s: ConflictStore, keys: &Vec<u64>, i: usize, con: Vec<(u64, u64)>) -> (r: ConflictStore)
    requires
        i <= keys@.len(),
        wf(s, keys@.take(i as int)),
        keys_of(con@) == keys@,
    ensures
        wf(r, keys@.take(i as int)),
        forall|c: Seq<(u64, u64)>| #[trigger] has_leaf(r, c) <==> inserted(s, con@, c),
    decreases keys@.len() - i,
{
    let ghost path = keys@.take(i as int);
    let ghost k = keys@;
    if i == keys.len() {
        assert(path =~= k);
        let ghost cs = con@;
        let r = ConflictStore::Leaf(con);
        proof {
            assert(leaves(r) == seq![cs]);
            assert forall|c: Seq<(u64, u64)>| #[trigger] has_leaf(s, c) implies is_prefix(k, keys_of(c)) by {
                lemma_leaf_path(s, path, c);
            }
            assert(!blocked(s, k));
            assert forall|c: Seq<(u64, u64)>| #[trigger] has_leaf(r, c) <==> inserted(s, cs, c) by {
                if has_leaf(r, c) {
                    assert(leaves(r)[0] == cs);
                    let q = choose|q: int| 0 <= q < leaves(r).len() && leaves(r)[q] == c;
                    assert(q == 0);
                }
                if c == cs {
                    assert(leaves(r)[0] == c);
                }
            }
        }
        return r;
    }
    match s {
        ConflictStore::Leaf(x) => {
            let r = ConflictStore::Leaf(x);
            proof {
                assert(leaves(r)[0] == x@);
                assert(has_leaf(r, x@));
                assert(keys_of(x@) == path);
                assert(is_prefix(keys_of(x@), k)) by {
                    assert(k.take(path.len() as int) =~= path);
                }
                assert(blocked(r, k));
            }
            r
        },
        ConflictStore::Node(v) => {
            let ghost old_v = v@;
            let ghost old_vec = v;
            proof {
                lemma_wf_list(old_v, path);
            }
            let key = keys[i];
            let ghost cp = keys@.take(i + 1);
            assert(cp =~= path.push(key));
            let found = find_child(&v, key);
            let mut v = v;
            if let Some(j) = found {
                let (kk, child) = v.remove(j);
                assert(kk == key);
                assert(wf(child, cp));
                let ghost child0 = child;
                let nc = insert_store(child, keys, i + 1, con);
                v.insert(j, (kk, nc));
                assert(v@ =~= old_v.update(j as int, (key, nc)));
                let ghost new_vec = v;
                let r = ConflictStore::Node(v);
                proof {
                    lemma_insert_found(old_vec, new_vec, path, j as int, key, child0, nc, k, con@);
                }
                r
            } else {
                let empty: Vec<(u64, ConflictStore)> = Vec::new();
                let ghost e = ConflictStore::Node(empty);
                proof {
                    assert(wf_list(empty@, cp));
                    assert(distinct_keys(empty@));
                    assert(leaves(e) =~= Seq::<Seq<(u64, u64)>>::empty());
                }
                let nc = insert_store(ConflictStore::Node(empty), keys, i + 1, con);
                v.push((key, nc));
                assert(v@ =~= old_v.push((key, nc)));
                let ghost new_vec = v;
                let r = ConflictStore::Node(v);
                proof {
                    lemma_insert_new(old_vec, new_vec, path, key, e, nc, k, con@);
                }
                r
            }
        },
    }
}

/// The case of `insert_store` where the node has a child for the next
/// package.
proof fn lemma_insert_found(
    old_vec: Vec<(u64, ConflictStore)>,
    new_vec: Vec<(u64, ConflictStore)>,
    path: Seq<u64>,
    j: int,
    key: u64,
    child: ConflictStore,
    nc: ConflictStore,
    k: Seq<u64>,
    con: Seq<(u64, u64)>,
)
    requires
        wf_list(old_vec@, path),
        distinct_keys(old_vec@),
        0 <= j < old_vec@.len(),
        old_vec@[j] == (key, child),
        new_vec@ == old_vec@.update(j, (key, nc)),
        path.len() < k.len(),
        path == k.take(path.len() as int),
        key == k[path.len() as int],
        keys_of(con) == k,
        wf(nc, path.push(key)),
        forall|c: Seq<(u64, u64)>| #[trigger] has_leaf(nc, c) <==> inserted(child, con, c),
    ensures
        wf(ConflictStore::Node(new_vec), path),
        forall|c: Seq<(u64, u64)>|
            #[trigger] has_leaf(ConflictStore::Node(new_vec), c) <==> inserted(
                ConflictStore::Node(old_vec),
                con,
                c,
            ),
{
    let old_v = old_vec@;
    let nv = new_vec@;
    let s = ConflictStore::Node(old_vec);
    let r = ConflictStore::Node(new_vec);
    lemma_wf_list(old_v, path);
    lemma_wf_list(nv, path);
    assert forall|m: int| 0 <= m < nv.len() implies #[trigger] wf(nv[m].1, path.push(nv[m].0)) by {
        if m != j {
            assert(nv[m] == old_v[m]);
        }
    }
    assert(distinct_keys(nv)) by {
        assert forall|a: int, b: int|
            0 <= a < nv.len() && 0 <= b < nv.len() && (#[trigger] nv[a]).0 == (#[trigger] nv[b]).0 implies a == b by {
            assert(old_v[a].0 == nv[a].0);
            assert(old_v[b].0 == nv[b].0);
        }
    }
    // Leaves of `s` that have the next package at the position of `key`
    // lie in child `j`.
    assert forall|c: Seq<(u64, u64)>|
        #[trigger] has_leaf(s, c) && keys_of(c).len() > path.len() && keys_of(c)[path.len() as int] == key
            implies has_leaf(child, c) by {
        lemma_leaves_list(old_v, c);
        let m = choose|m: int| 0 <= m < old_v.len() && #[trigger] leaves(old_v[m].1).contains(c);
        lemma_child_leaf(old_v, path, m, c);
        assert(old_v[m].0 == key);
        assert(m == j);
    }
    assert(has_leaf(child, Seq::empty()) ==> true);
    // The leaves of `r` are those of the other children and of `nc`.
    assert forall|c: Seq<(u64, u64)>|
        #[trigger] has_leaf(r, c) <==> (has_leaf(nc, c) || exists|m: int|
            0 <= m < old_v.len() && m != j && #[trigger] has_leaf(old_v[m].1, c)) by {
        lemma_leaves_list(nv, c);
        if has_leaf(r, c) {
            let m = choose|m: int| 0 <= m < nv.len() && #[trigger] leaves(nv[m].1).contains(c);
            if m != j {
                assert(nv[m] == old_v[m]);
                assert(has_leaf(old_v[m].1, c));
            }
        }
        if has_leaf(nc, c) {
            assert(leaves(nv[j].1).contains(c));
        }
        if exists|m: int| 0 <= m < old_v.len() && m != j && #[trigger] has_leaf(old_v[m].1, c) {
            let m = choose|m: int| 0 <= m < old_v.len() && m != j && #[trigger] has_leaf(old_v[m].1, c);
            assert(nv[m] == old_v[m]);
            assert(leaves(nv[m].1).contains(c));
        }
    }
    assert forall|c: Seq<(u64, u64)>|
        #[trigger] has_leaf(s, c) <==> (has_leaf(child, c) || exists|m: int|
            0 <= m < old_v.len() && m != j && #[trigger] has_leaf(old_v[m].1, c)) by {
        lemma_leaves_list(old_v, c);
        if has_leaf(s, c) {
            let m = choose|m: int| 0 <= m < old_v.len() && #[trigger] leaves(old_v[m].1).contains(c);
            assert(has_leaf(old_v[m].1, c));
        }
        if has_leaf(child, c) {
            assert(leaves(old_v[j].1).contains(c));
        }
    }
    // The other children hold no set through `key`.
    assert forall|c: Seq<(u64, u64)>, m: int|
        0 <= m < old_v.len() && m != j && #[trigger] has_leaf(old_v[m].1, c) implies !is_prefix(k, keys_of(c))
            && !(is_prefix(keys_of(c), k) && keys_of(c).len() < k.len()) by {
        lemma_child_leaf(old_v, path, m, c);
        assert(old_v[m].0 != key);
        if is_prefix(k, keys_of(c)) {
            assert(keys_of(c).take(k.len() as int)[path.len() as int] == keys_of(c)[path.len() as int]);
        }
        if is_prefix(keys_of(c), k) && keys_of(c).len() < k.len() {
            assert(k.take(keys_of(c).len() as int)[path.len() as int] == k[path.len() as int]);
        }
    }
    assert(blocked(s, k) == blocked(child, k)) by {
        if blocked(s, k) {
            let c = choose|c: Seq<(u64, u64)>| #[trigger] has_leaf(s, c) && is_prefix(keys_of(c), k) && keys_of(c).len() < k.len();
            lemma_leaves_list(old_v, c);
            let m = choose|m: int| 0 <= m < old_v.len() && #[trigger] leaves(old_v[m].1).contains(c);
            assert(has_leaf(old_v[m].1, c));
            assert(m == j);
        }
        if blocked(child, k) {
            let c = choose|c: Seq<(u64, u64)>| #[trigger] has_leaf(child, c) && is_prefix(keys_of(c), k) && keys_of(c).len() < k.len();
            assert(has_leaf(s, c));
        }
    }
}

/// The case of `insert_store` where the node has no child for the next
/// package.
proof fn lemma_insert_new(
    old_vec: Vec<(u64, ConflictStore)>,
    new_vec: Vec<(u64, ConflictStore)>,
    path: Seq<u64>,
    key: u64,
    e: ConflictStore,
    nc: ConflictStore,
    k: Seq<u64>,
    con: Seq<(u64, u64)>,
)
    requires
        wf_list(old_vec@, path),
        distinct_keys(old_vec@),
        forall|m: int| 0 <= m < old_vec@.len() ==> (#[trigger] old_vec@[m]).0 != key,
        new_vec@ == old_vec@.push((key, nc)),
        leaves(e).len() == 0,
        path.len() < k.len(),
        path == k.take(path.len() as int),
        key == k[path.len() as int],
        keys_of(con) == k,
        wf(nc, path.push(key)),
        forall|c: Seq<(u64, u64)>| #[trigger] has_leaf(nc, c) <==> inserted(e, con, c),
    ensures
        wf(ConflictStore::Node(new_vec), path),
        forall|c: Seq<(u64, u64)>|
            #[trigger] has_leaf(ConflictStore::Node(new_vec), c) <==> inserted(
                ConflictStore::Node(old_vec),
                con,
                c,
            ),
{
    let old_v = old_vec@;
    let nv = new_vec@;
    let s = ConflictStore::Node(old_vec);
    let r = ConflictStore::Node(new_vec);
    lemma_wf_list(old_v, path);
    lemma_wf_list(nv, path);
    assert forall|m: int| 0 <= m < nv.len() implies #[trigger] wf(nv[m].1, path.push(nv[m].0)) by {
        if m < old_v.len() {
            assert(nv[m] == old_v[m]);
        }
    }
    assert(distinct_keys(nv)) by {
        assert forall|a: int, b: int|
            0 <= a < nv.len() && 0 <= b < nv.len() && (#[trigger] nv[a]).0 == (#[trigger] nv[b]).0 implies a == b by {
            if a < old_v.len() {
                assert(nv[a] == old_v[a]);
            }
            if b < old_v.len() {
                assert(nv[b] == old_v[b]);
            }
        }
    }
    assert forall|c: Seq<(u64, u64)>| !(#[trigger] has_leaf(e, c)) by {}
    assert(!blocked(e, k));
    assert forall|c: Seq<(u64, u64)>| #[trigger] has_leaf(s, c) implies !is_prefix(k, keys_of(c))
        && !(is_prefix(keys_of(c), k) && keys_of(c).len() < k.len()) by {
        lemma_leaves_list(old_v, c);
        let m = choose|m: int| 0 <= m < old_v.len() && #[trigger] leaves(old_v[m].1).contains(c);
        lemma_child_leaf(old_v, path, m, c);
        if is_prefix(k, keys_of(c)) {
            assert(keys_of(c).take(k.len() as int)[path.len() as int] == keys_of(c)[path.len() as int]);
        }
        if is_prefix(keys_of(c), k) && keys_of(c).len() < k.len() {
            assert(k.take(keys_of(c).len() as int)[path.len() as int] == k[path.len() as int]);
        }
    }
    assert(!blocked(s, k));
    assert forall|c: Seq<(u64, u64)>| #[trigger] has_leaf(r, c) <==> inserted(s, con, c) by {
        lemma_leaves_list(nv, c);
        lemma_leaves_list(old_v, c);
        if has_leaf(r, c) {
            let m = choose|m: int| 0 <= m < nv.len() && #[trigger] leaves(nv[m].1).contains(c);
            if m < old_v.len() {
                assert(nv[m] == old_v[m]);
                assert(leaves(old_v[m].1).contains(c));
            } else {
                assert(has_leaf(nc, c));
            }
        }
        if has_leaf(s, c) {
            let m = choose|m: int| 0 <= m < old_v.len() && #[trigger] leaves(old_v[m].1).contains(c);
            assert(nv[m] == old_v[m]);
            assert(leaves(nv[m].1).contains(c));
        }
        if c == con {
            assert(has_leaf(nc, c));
            assert(leaves(nv[old_v.len() as int].1).contains(c));
        }
    }
}

/// The first entry of the list with the key, if any.
pub open spec fn lookup<T>(v: Seq<(u64, T)>, key: u64) -> Option<T> {
    if exists|i: int| 0 <= i < v.len() && (#[trigger] v[i]).0 == key {
        Some(v[choose|i: int| 0 <= i < v.len() && (#[trigger] v[i]).0 == key].1)
    } else {
        None
    }
}

/// Whether the keys of the list are distinct.
pub open spec fn keys_distinct<T>(v: Seq<(u64, T)>) -> bool {
    forall|i: int, j: int| 0 <= i < v.len() && 0 <= j < v.len() && (#[trigger] v[i]).0 == (#[trigger] v[j]).0 ==> i == j
}

/// In a list with distinct keys, the entry with the key is the one
/// `lookup` gives.
proof fn lemma_lookup<T>(v: Seq<(u64, T)>, i: int)
    requires
        keys_distinct(v),
        0 <= i < v.len(),
    ensures
        lookup(v, v[i].0) == Some(v[i].1),
{
    let k = choose|k: int| 0 <= k < v.len() && (#[trigger] v[k]).0 == v[i].0;
    assert(v[k].0 == v[i].0);
}

/// Without an entry with the key, `lookup` gives nothing.
proof fn lemma_lookup_none<T>(v: Seq<(u64, T)>, key: u64)
    requires
        forall|i: int| 0 <= i < v.len() ==> (#[trigger] v[i]).0 != key,
    ensures
        lookup(v, key) is None,
{
}

/// Replacing an entry's value keeps the keys; the key now gives the new
/// value and the others what they gave.
proof fn lemma_lookup_update<T>(v: Seq<(u64, T)>, i: int, x: (u64, T))
    requires
        keys_distinct(v),
        0 <= i < v.len(),
        x.0 == v[i].0,
    ensures
        keys_distinct(v.update(i, x)),
        lookup(v.update(i, x), x.0) == Some(x.1),
        forall|d: u64| d != x.0 ==> #[trigger] lookup(v.update(i, x), d) == lookup(v, d),
{
    let w = v.update(i, x);
    assert forall|a: int, b: int| 0 <= a < w.len() && 0 <= b < w.len() && (#[trigger] w[a]).0 == (#[trigger] w[b]).0 implies a == b by {
        assert(v[a].0 == w[a].0);
        assert(v[b].0 == w[b].0);
    }
    lemma_lookup(w, i);
    assert forall|d: u64| d != x.0 implies #[trigger] lookup(w, d) == lookup(v, d) by {
        if exists|m: int| 0 <= m < v.len() && (#[trigger] v[m]).0 == d {
            let m = choose|m: int| 0 <= m < v.len() && (#[trigger] v[m]).0 == d;
            lemma_lookup(v, m);
            assert(w[m] == v[m]);
            lemma_lookup(w, m);
        } else {
            assert forall|m: int| 0 <= m < w.len() implies (#[trigger] w[m]).0 != d by {
                assert(w[m].0 == v[m].0);
            }
            lemma_lookup_none(w, d);
        }
    }
}

/// Adding an entry with a new key keeps the keys distinct; the key gives
/// the value and the others what they gave.
proof fn lemma_lookup_push<T>(v: Seq<(u64, T)>, x: (u64, T))
    requires
        keys_distinct(v),
        forall|i: int| 0 <= i < v.len() ==> (#[trigger] v[i]).0 != x.0,
    ensures
        keys_distinct(v.push(x)),
        lookup(v.push(x), x.0) == Some(x.1),
        forall|d: u64| d != x.0 ==> #[trigger] lookup(v.push(x), d) == lookup(v, d),
{
    let w = v.push(x);
    assert forall|a: int, b: int| 0 <= a < w.len() && 0 <= b < w.len() && (#[trigger] w[a]).0 == (#[trigger] w[b]).0 implies a == b by {
        if a < v.len() {
            assert(w[a] == v[a]);
        }
        if b < v.len() {
            assert(w[b] == v[b]);
        }
    }
    lemma_lookup(w, v.len() as int);
    assert forall|d: u64| d != x.0 implies #[trigger] lookup(w, d) == lookup(v, d) by {
        if exists|m: int| 0 <= m < v.len() && (#[trigger] v[m]).0 == d {
            let m = choose|m: int| 0 <= m < v.len() && (#[trigger] v[m]).0 == d;
            lemma_lookup(v, m);
            assert(w[m] == v[m]);
            lemma_lookup(w, m);
        } else {
            assert forall|m: int| 0 <= m < w.len() implies (#[trigger] w[m]).0 != d by {
                if m < v.len() {
                    assert(w[m] == v[m]);
                }
            }
            lemma_lookup_none(w, d);
        }
    }
}

/// Removing an entry keeps the keys distinct; its key gives nothing and
/// the others what they gave.
proof fn lemma_lookup_remove<T>(v: Seq<(u64, T)>, i: int)
    requires
        keys_distinct(v),
        0 <= i < v.len(),
    ensures
        keys_distinct(v.remove(i)),
        forall|m: int| 0 <= m < v.remove(i).len() ==> (#[trigger] v.remove(i)[m]).0 != v[i].0,
        forall|d: u64| d != v[i].0 ==> #[trigger] lookup(v.remove(i), d) == lookup(v, d),
{
    let w = v.remove(i);
    assert forall|m: int| 0 <= m < w.len() implies (#[trigger] w[m]).0 != v[i].0 by {
        if m < i {
            assert(w[m] == v[m]);
        } else {
            assert(w[m] == v[m + 1]);
        }
    }
    assert forall|a: int, b: int| 0 <= a < w.len() && 0 <= b < w.len() && (#[trigger] w[a]).0 == (#[trigger] w[b]).0 implies a == b by {
        let a2 = if a < i { a } else { a + 1 };
        let b2 = if b < i { b } else { b + 1 };
        assert(w[a] == v[a2]);
        assert(w[b] == v[b2]);
    }
    assert forall|d: u64| d != v[i].0 implies #[trigger] lookup(w, d) == lookup(v, d) by {
        if exists|m: int| 0 <= m < v.len() && (#[trigger] v[m]).0 == d {
            let m = choose|m: int| 0 <= m < v.len() && (#[trigger] v[m]).0 == d;
            lemma_lookup(v, m);
            assert(m != i);
            let m2 = if m < i { m } else { m - 1 };
            assert(w[m2] == v[m]);
            lemma_lookup(w, m2);
        } else {
            assert forall|m: int| 0 <= m < w.len() implies (#[trigger] w[m]).0 != d by {
                if m < i {
                    assert(w[m] == v[m]);
                } else {
                    assert(w[m] == v[m + 1]);
                }
            }
            lemma_lookup_none(w, d);
        }
    }
}

/// The index of the entry with the key, if any.
fn find_key<T>(v: &Vec<(u64, T)>, key: u64) -> (r: Option<usize>)
    ensures
        r matches Some(i) ==> i < v@.len() && v@[i as int].0 == key,
        r is None ==> forall|m: int| 0 <= m < v@.len() ==> (#[trigger] v@[m]).0 != key,
{
    let mut j: usize = 0;
    while j < v.len()
        invariant
            j <= v@.len(),
            forall|m: int| 0 <= m < j ==> (#[trigger] v@[m]).0 != key,
        decreases v.len() - j,
    {
        if v[j].0 == key {
            return Some(j);
        }
        j = j + 1;
    }
    None
}

/// The dependencies listed for the package, as a set, if any.
pub open spec fn lookup_set(v: Seq<(u64, Vec<u64>)>, pid: u64) -> Option<Set<u64>> {
    match lookup(v, pid) {
        Some(l) => Some(l@.to_set()),
        None => None,
    }
}

/// The set the package gets when `dep` is added to it.
pub open spec fn with_dep(old: Option<Set<u64>>, dep: u64) -> Set<u64> {
    match old {
        Some(s) => s.insert(dep),
        None => Set::empty().insert(dep),
    }
}

/// Whether every list of the index has no duplicates.
pub open spec fn lists_unique(v: Seq<(u64, Vec<u64>)>) -> bool {
    forall|i: int| 0 <= i < v.len() ==> (#[trigger] v[i]).1@.no_duplicates()
}

/// Records that the conflict sets of `dep` mention `pid`.
fn add_dep(idx: &mut Vec<(u64, Vec<u64>)>, pid: u64, dep: u64)
    requires
        keys_distinct(old(idx)@),
        lists_unique(old(idx)@),
    ensures
        keys_distinct(final(idx)@),
        lists_unique(final(idx)@),
        lookup_set(final(idx)@, pid) == Some(with_dep(lookup_set(old(idx)@, pid), dep)),
        forall|p: u64| p != pid ==> #[trigger] lookup_set(final(idx)@, p) == lookup_set(old(idx)@, p),
{
    let ghost o = idx@;
    match find_key(idx, pid) {
        Some(i) => {
            proof {
                lemma_lookup(o, i as int);
            }
            let (p, mut l) = idx.remove(i);
            let ghost l0 = l@;
            let present = contains_u64(&l, dep);
            if !present {
                l.push(dep);
                proof {
                    assert(l@ =~= l0.push(dep));
                    assert forall|a: u64| l@.to_set().contains(a) <==> l0.to_set().insert(dep).contains(a) by {
                        if a == dep {
                            assert(l@[l0.len() as int] == dep);
                        }
                        if l0.contains(a) {
                            let m = choose|m: int| 0 <= m < l0.len() && l0[m] == a;
                            assert(l@[m] == a);
                        }
                        if l@.contains(a) && a != dep {
                            let m = choose|m: int| 0 <= m < l@.len() && l@[m] == a;
                            assert(l0[m] == a);
                        }
                    }
                    assert(l@.to_set() =~= l0.to_set().insert(dep));
                }
            } else {
                proof {
                    assert(l@.to_set() =~= l0.to_set().insert(dep));
                }
            }
            idx.insert(i, (p, l));
            proof {
                assert(idx@ =~= o.update(i as int, (p, l)));
                lemma_lookup_update(o, i as int, (p, l));
                assert forall|m: int| 0 <= m < idx@.len() implies (#[trigger] idx@[m]).1@.no_duplicates() by {
                    if m != i {
                        assert(idx@[m] == o[m]);
                    }
                }
                assert forall|q: u64| q != pid implies #[trigger] lookup_set(idx@, q) == lookup_set(o, q) by {
                    assert(lookup(idx@, q) == lookup(o, q));
                }
            }
        },
        None => {
            let mut l: Vec<u64> = Vec::new();
            l.push(dep);
            proof {
                assert(l@ =~= seq![dep]);
                assert forall|a: u64| l@.to_set().contains(a) <==> Set::<u64>::empty().insert(dep).contains(a) by {
                    if a == dep {
                        assert(l@[0] == dep);
                    }
                }
                assert(l@.to_set() =~= Set::<u64>::empty().insert(dep));
                lemma_lookup_none(o, pid);
            }
            idx.push((pid, l));
            proof {
                assert(idx@ =~= o.push((pid, l)));
                lemma_lookup_push(o, (pid, l));
                assert forall|m: int| 0 <= m < idx@.len() implies (#[trigger] idx@[m]).1@.no_duplicates() by {
                    if m < o.len() {
                        assert(idx@[m] == o[m]);
                    }
                }
                assert forall|q: u64| q != pid implies #[trigger] lookup_set(idx@, q) == lookup_set(o, q) by {
                    assert(lookup(idx@, q) == lookup(o, q));
                }
            }
        },
    }
}


/// The cache of conflicts of the resolver: for each dependency, the trie
/// of the sets of packages under which it does not resolve; and for each
/// package, the dependencies whose sets mention it. Nothing is ever
/// removed: an entry is true whatever the history of the resolution.
#[derive(Debug)]
pub struct ConflictCache {
    con_from_dep: Vec<(u64, ConflictStore)>,
    dep_from_pid: Vec<(u64, Vec<u64>)>,
}

impl ConflictCache {
    /// The tries are well formed, and each dependency and package has one
    /// entry; the dependencies of a package are listed once.
    #[verifier::type_invariant]
    closed spec fn inv(self) -> bool {
        &&& keys_distinct(self.con_from_dep@)
        &&& keys_distinct(self.dep_from_pid@)
        &&& forall|i: int| 0 <= i < self.con_from_dep@.len() ==> wf(#[trigger] self.con_from_dep@[i].1, Seq::empty())
        &&& forall|i: int| 0 <= i < self.dep_from_pid@.len() ==> (#[trigger] self.dep_from_pid@[i]).1@.no_duplicates()
    }

    /// The trie of the dependency, if it has one.
    pub closed spec fn store(&self, dep: u64) -> Option<ConflictStore> {
        lookup(self.con_from_dep@, dep)
    }

    /// The dependencies whose conflict sets mention the package, if any.
    pub closed spec fn deps(&self, pid: u64) -> Option<Set<u64>> {
        match lookup(self.dep_from_pid@, pid) {
            Some(v) => Some(v@.to_set()),
            None => None,
        }
    }

    /// An empty cache.
    pub fn new() -> (r: ConflictCache)
        ensures
            forall|d: u64| r.store(d) is None,
            forall|p: u64| r.deps(p) is None,
    {
        ConflictCache { con_from_dep: Vec::new(), dep_from_pid: Vec::new() }
    }

    /// A known conflict set of the dependency whose packages are all
    /// active and that passes the filter; `None` when the cache knows none.
    pub fn find_conflicting(&self, active: &Vec<u64>, dep: u64, must_contain: Option<u64>) -> (r: Option<Vec<(u64, u64)>>)
        ensures
            r matches Some(c) ==> (self.store(dep) matches Some(s) && has_leaf(s, c@) && all_active(c@, active@)
                && filter_ok(c@, must_contain)),
            r is None ==> (self.store(dep) matches Some(s) ==> !detects(s, active@, must_contain)),
    {
        proof {
            use_type_invariant(self);
        }
        let mut i: usize = 0;
        while i < self.con_from_dep.len()
            invariant
                i <= self.con_from_dep@.len(),
                forall|m: int| 0 <= m < i ==> (#[trigger] self.con_from_dep@[m]).0 != dep,
            decreases self.con_from_dep.len() - i,
        {
            if self.con_from_dep[i].0 == dep {
                proof {
                    use_type_invariant(self);
                    lemma_lookup(self.con_from_dep@, i as int);
                    assert(wf(self.con_from_dep@[i as int].1, Seq::empty()));
                }
                return find_in(&self.con_from_dep[i].1, active, must_contain, Ghost(Seq::empty()));
            }
            i = i + 1;
        }
        None
    }

    /// A known conflict set of the dependency whose packages are all
    /// active.
    pub fn conflicting(&self, active: &Vec<u64>, dep: u64) -> (r: Option<Vec<(u64, u64)>>)
        ensures
            r matches Some(c) ==> (self.store(dep) matches Some(s) && has_leaf(s, c@) && all_active(c@, active@)),
            r is None ==> (self.store(dep) matches Some(s) ==> !detects(s, active@, None)),
    {
        self.find_conflicting(active, dep, None)
    }

    /// The dependencies whose conflict sets mention the package.
    pub fn dependencies_conflicting_with(&self, pid: u64) -> (r: Option<Vec<u64>>)
        ensures
            match r {
                Some(v) => self.deps(pid) == Some(v@.to_set()),
                None => self.deps(pid) is None,
            },
    {
        proof {
            use_type_invariant(self);
        }
        let mut i: usize = 0;
        while i < self.dep_from_pid.len()
            invariant
                i <= self.dep_from_pid@.len(),
                forall|m: int| 0 <= m < i ==> (#[trigger] self.dep_from_pid@[m]).0 != pid,
            decreases self.dep_from_pid.len() - i,
        {
            if self.dep_from_pid[i].0 == pid {
                proof {
                    use_type_invariant(self);
                    lemma_lookup(self.dep_from_pid@, i as int);
                }
                let v = self.dep_from_pid[i].1.clone();
                return Some(v);
            }
            i = i + 1;
        }
        None
    }

    /// Adds to the cache that `dep` does not resolve when all packages of
    /// `con` are active (see `inserted`); each of them then lists `dep`.
    pub fn insert(&mut self, dep: u64, con: &Vec<(u64, u64)>)
        ensures
            final(self).store(dep) is Some,
            insert_result(old(self).store(dep), final(self).store(dep).unwrap(), con@),
            forall|d: u64| d != dep ==> #[trigger] final(self).store(d) == old(self).store(d),
            forall|k: int| 0 <= k < con@.len() ==> #[trigger] final(self).deps(con@[k].0) == Some(
                with_dep(old(self).deps(con@[k].0), dep),
            ),
            forall|p: u64| !keys_of(con@).contains(p) ==> #[trigger] final(self).deps(p) == old(self).deps(p),
            insert_effect(*old(self), *final(self), dep, con@),
    {
        proof {
            use_type_invariant(&*self);
        }
        let ghost old_stores = self.con_from_dep@;
        let ghost old_index = self.dep_from_pid@;
        let mut stores: Vec<(u64, ConflictStore)> = Vec::new();
        std::mem::swap(&mut stores, &mut self.con_from_dep);
        let store = match find_key(&stores, dep) {
            Some(i) => {
                proof {
                    lemma_lookup(old_stores, i as int);
                    lemma_lookup_remove(old_stores, i as int);
                    assert(wf(old_stores[i as int].1, Seq::empty()));
                }
                let (_, st) = stores.remove(i);
                st
            },
            None => {
                proof {
                    lemma_lookup_none(old_stores, dep);
                }
                let empty: Vec<(u64, ConflictStore)> = Vec::new();
                proof {
                    assert(leaves(ConflictStore::Node(empty)) =~= Seq::<Seq<(u64, u64)>>::empty());
                    assert(wf_list(empty@, Seq::empty()));
                }
                ConflictStore::Node(empty)
            },
        };
        let ghost removed = stores@;
        let mut keys: Vec<u64> = Vec::new();
        let mut k: usize = 0;
        while k < con.len()
            invariant
                k <= con@.len(),
                keys@ == keys_of(con@).take(k as int),
            decreases con.len() - k,
        {
            keys.push(con[k].0);
            k = k + 1;
            assert(keys@ =~= keys_of(con@).take(k as int));
        }
        assert(keys@ =~= keys_of(con@));
        assert(keys@.take(0) =~= Seq::<u64>::empty());
        let new_store = insert_store(store, &keys, 0, clone_set(con));
        proof {
            assert forall|m: int| 0 <= m < removed.len() implies (#[trigger] removed[m]).0 != dep by {}
            lemma_lookup_push(removed, (dep, new_store));
        }
        stores.push((dep, new_store));
        self.con_from_dep = stores;
        let mut index: Vec<(u64, Vec<u64>)> = Vec::new();
        std::mem::swap(&mut index, &mut self.dep_from_pid);
        let mut k: usize = 0;
        while k < con.len()
            invariant
                k <= con@.len(),
                keys_distinct(index@),
                lists_unique(index@),
                forall|m: int| 0 <= m < k ==> #[trigger] lookup_set(index@, con@[m].0) == Some(
                    with_dep(lookup_set(old_index, con@[m].0), dep),
                ),
                forall|p: u64| !keys_of(con@).take(k as int).contains(p) ==> #[trigger] lookup_set(index@, p) == lookup_set(old_index, p),
            decreases con.len() - k,
        {
            let ghost before = index@;
            add_dep(&mut index, con[k].0, dep);
            proof {
                assert forall|m: int| 0 <= m < k + 1 implies #[trigger] lookup_set(index@, con@[m].0) == Some(
                    with_dep(lookup_set(old_index, con@[m].0), dep),
                ) by {
                    if con@[m].0 != con@[k as int].0 {
                    } else {
                        if m < k {
                        } else {
                            assert(keys_of(con@).take(k as int).contains(con@[k as int].0) ==> exists|q: int|
                                0 <= q < k && con@[q].0 == con@[k as int].0);
                        }
                    }
                }
                assert forall|p: u64| !keys_of(con@).take(k + 1).contains(p) implies #[trigger] lookup_set(index@, p)
                    == lookup_set(old_index, p) by {
                    assert(keys_of(con@).take(k + 1)[k as int] == con@[k as int].0);
                    if keys_of(con@).take(k as int).contains(p) {
                        let q = choose|q: int| 0 <= q < k && keys_of(con@).take(k as int)[q] == p;
                        assert(keys_of(con@).take(k + 1)[q] == p);
                    }
                }
            }
            k = k + 1;
        }
        assert(keys_of(con@).take(con@.len() as int) =~= keys_of(con@));
        let ghost fi = index@;
        self.dep_from_pid = index;
        proof {
            assert(self.dep_from_pid@ == fi);
            assert forall|k: int| 0 <= k < con@.len() implies #[trigger] self.deps(con@[k].0) == Some(
                with_dep(old(self).deps(con@[k].0), dep),
            ) by {
                assert(lookup_set(fi, con@[k].0) == Some(with_dep(lookup_set(old_index, con@[k].0), dep)));
            }
            assert forall|p: u64| !keys_of(con@).contains(p) implies #[trigger] self.deps(p) == old(self).deps(p) by {
                assert(lookup_set(fi, p) == lookup_set(old_index, p));
            }
        }
    }
}

/// What inserting gives: the store of `insert` for the dependency, from
/// its store before (if it had one).
pub open spec fn insert_result(old: Option<ConflictStore>, new: ConflictStore, con: Seq<(u64, u64)>) -> bool {
    forall|c: Seq<(u64, u64)>|
        #[trigger] has_leaf(new, c) <==> match old {
            Some(s) => inserted(s, con, c),
            None => c == con,
        }
}

/// Once a conflict set is inserted, whenever all its packages are active
/// the cache finds a conflict for the dependency (the set itself, or a
/// subset of it that was stored before).
pub proof fn lemma_insert_then_detect(
    old: Option<ConflictStore>,
    new: ConflictStore,
    con: Seq<(u64, u64)>,
    active: Seq<u64>,
)
    requires
        insert_result(old, new, con),
        forall|k: int| 0 <= k < con.len() ==> active.contains(#[trigger] con[k].0),
    ensures
        detects(new, active, None),
{
    let kk = keys_of(con);
    match old {
        Some(s) => {
            if blocked(s, kk) {
                let c = choose|c: Seq<(u64, u64)>| #[trigger] has_leaf(s, c) && is_prefix(keys_of(c), kk) && keys_of(c).len() < kk.len();
                assert(has_leaf(new, c));
                assert forall|m: int| 0 <= m < c.len() implies active.contains(#[trigger] c[m].0) by {
                    assert(keys_of(c)[m] == c[m].0);
                    assert(kk.take(keys_of(c).len() as int)[m] == kk[m]);
                    assert(kk[m] == con[m].0);
                }
            } else {
                assert(has_leaf(new, con));
            }
        },
        None => {
            assert(has_leaf(new, con));
        },
    }
}

/// Inserting never loses a conflict: if the cache found a conflict for
/// the dependency among the active packages before, it finds one after.
pub proof fn lemma_insert_keeps_detection(
    s: ConflictStore,
    new: ConflictStore,
    con: Seq<(u64, u64)>,
    active: Seq<u64>,
)
    requires
        insert_result(Some(s), new, con),
        detects(s, active, None),
    ensures
        detects(new, active, None),
{
    let kk = keys_of(con);
    let c0 = choose|c: Seq<(u64, u64)>| #[trigger] has_leaf(s, c) && all_active(c, active) && filter_ok(c, None);
    if blocked(s, kk) {
        assert(has_leaf(new, c0));
    } else if !is_prefix(kk, keys_of(c0)) {
        assert(has_leaf(new, c0));
    } else {
        assert(has_leaf(new, con));
        assert forall|m: int| 0 <= m < con.len() implies active.contains(#[trigger] con[m].0) by {
            assert(kk[m] == con[m].0);
            assert(keys_of(c0).take(kk.len() as int)[m] == keys_of(c0)[m]);
            assert(keys_of(c0)[m] == c0[m].0);
        }
        assert(all_active(con, active));
    }
}

/// What `insert` of `con` for `dep` makes of a cache (see its contract).
pub open spec fn insert_effect(old: ConflictCache, new: ConflictCache, dep: u64, con: Seq<(u64, u64)>) -> bool {
    &&& new.store(dep) is Some
    &&& insert_result(old.store(dep), new.store(dep).unwrap(), con)
    &&& forall|d: u64| d != dep ==> #[trigger] new.store(d) == old.store(d)
    &&& forall|k: int| 0 <= k < con.len() ==> #[trigger] new.deps(con[k].0) == Some(with_dep(old.deps(con[k].0), dep))
    &&& forall|p: u64| !keys_of(con).contains(p) ==> #[trigger] new.deps(p) == old.deps(p)
}

/// Whether the cache knows a conflict set of the dependency whose packages
/// are all active, so that `conflicting` finds one.
pub open spec fn remembers(c: ConflictCache, dep: u64, active: Seq<u64>) -> bool {
    c.store(dep) matches Some(s) && detects(s, active, None)
}

/// Whether the caches are the states of a history of inserts: each made
/// from the one before by inserting the step's conflict set for the
/// step's dependency.
pub open spec fn insert_history(cs: Seq<ConflictCache>, steps: Seq<(u64, Seq<(u64, u64)>)>) -> bool {
    &&& cs.len() == steps.len() + 1
    &&& forall|i: int| 0 <= i < steps.len() ==> #[trigger] insert_effect(cs[i], cs[i + 1], steps[i].0, steps[i].1)
}

/// After a history of inserts, a conflict set inserted at some step whose
/// packages are all active is remembered for its dependency (itself, or a
/// subset stored before), whatever was inserted before or after; so
/// `conflicting` then finds a set of active packages for it.
pub proof fn lemma_history_remembers(
    cs: Seq<ConflictCache>,
    steps: Seq<(u64, Seq<(u64, u64)>)>,
    i: int,
    active: Seq<u64>,
)
    requires
        insert_history(cs, steps),
        0 <= i < steps.len(),
        all_active(steps[i].1, active),
    ensures
        remembers(cs.last(), steps[i].0, active),
{
    let dep = steps[i].0;
    assert(insert_effect(cs[i], cs[i + 1], dep, steps[i].1));
    lemma_insert_then_detect(cs[i].store(dep), cs[i + 1].store(dep).unwrap(), steps[i].1, active);
    lemma_remembered_later(cs, steps, dep, active, i + 1);
}

/// What is remembered at a state stays remembered after later inserts.
proof fn lemma_remembered_later(
    cs: Seq<ConflictCache>,
    steps: Seq<(u64, Seq<(u64, u64)>)>,
    dep: u64,
    active: Seq<u64>,
    j: int,
)
    requires
        insert_history(cs, steps),
        0 <= j < cs.len(),
        remembers(cs[j], dep, active),
    ensures
        remembers(cs.last(), dep, active),
    decreases cs.len() - j,
{
    if j < cs.len() - 1 {
        assert(insert_effect(cs[j], cs[j + 1], steps[j].0, steps[j].1));
        if steps[j].0 == dep {
            lemma_insert_keeps_detection(
                cs[j].store(dep).unwrap(),
                cs[j + 1].store(dep).unwrap(),
                steps[j].1,
                active,
            );
        } else {
            assert(cs[j + 1].store(dep) == cs[j].store(dep));
        }
        lemma_remembered_later(cs, steps, dep, active, j + 1);
    }
}

/// A dependency never inserted, in a history that starts from an empty
/// cache, has no conflict sets: `conflicting` finds none for it.
pub proof fn lemma_history_unknown(cs: Seq<ConflictCache>, steps: Seq<(u64, Seq<(u64, u64)>)>, d: u64, n: int)
    requires
        insert_history(cs, steps),
        forall|x: u64| #[trigger] cs[0].store(x) is None,
        forall|i: int| 0 <= i < steps.len() ==> #[trigger] steps[i].0 != d,
        0 <= n < cs.len(),
    ensures
        cs[n].store(d) is None,
    decreases n,
{
    if n > 0 {
        let i = n - 1;
        lemma_history_unknown(cs, steps, d, i);
        assert(insert_effect(cs[i], cs[i + 1], steps[i].0, steps[i].1));
        assert(steps[i].0 != d);
        assert(cs[i + 1] == cs[n]);
    }
}

} // verus!
