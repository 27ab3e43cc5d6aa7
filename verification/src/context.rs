//! Output files of the units of a build: two units that write the same
//! file (or hard link, or exported copy) collide, and the build warns.
use vstd::prelude::*;

verus! {

/// A file a unit writes: its path, the hard link made to it (if any), and
/// where it is copied for `--out-dir` (if anywhere).
#[derive(Debug)]
pub struct OutputFile {
    pub path: String,
    pub hardlink: Option<String>,
    pub export_path: Option<String>,
}

/// A unit as the collision check reads it: the name of its target and the
/// files it writes. (Build script runs write no files of their own and are
/// left out by the caller.)
#[derive(Debug)]
pub struct OutputUnit {
    pub target_name: String,
    pub outputs: Vec<OutputFile>,
}

/// What kind of collision a path shows.
#[derive(Debug, Clone, Copy, PartialEq, Eq, Structural)]
pub enum CollisionKind {
    /// Two targets of the same name write the same file: their names
    /// should be unique.
    SameName,
    /// Targets of different names write the same file.
    Output,
    /// Two exported copies have the same path.
    Export,
}

/// A collision: the unit that wrote the path last before (`other`), the
/// unit that writes it now (`unit`), and the path.
#[derive(Debug)]
pub struct Collision {
    pub unit: usize,
    pub other: usize,
    pub path: String,
    pub kind: CollisionKind,
}

/// A path written: by which unit, and whether it is an exported copy.
pub type Written = (nat, Seq<char>, bool);

/// The paths one output file writes, in order: the file, its hard link,
/// its exported copy.
pub open spec fn file_paths(u: nat, f: OutputFile) -> Seq<Written> {
    seq![(u, f.path@, false)] + match f.hardlink {
        Some(h) => seq![(u, h@, false)],
        None => Seq::empty(),
    } + match f.export_path {
        Some(e) => seq![(u, e@, true)],
        None => Seq::empty(),
    }
}

/// The paths the first `n` files of a unit write.
pub open spec fn unit_paths(u: nat, fs: Seq<OutputFile>, n: nat) -> Seq<Written>
    decreases n,
{
    if n == 0 {
        Seq::empty()
    } else {
        unit_paths(u, fs, (n - 1) as nat) + file_paths(u, fs[n - 1])
    }
}

/// The paths the first `n` units write, in order.
pub open spec fn all_paths(us: Seq<OutputUnit>, n: nat) -> Seq<Written>
    decreases n,
{
    if n == 0 {
        Seq::empty()
    } else {
        all_paths(us, (n - 1) as nat) + unit_paths((n - 1) as nat, us[n - 1].outputs@, us[n - 1].outputs@.len())
    }
}

/// The position of the last of the first `k` writes of the path.
pub open spec fn last_write(ws: Seq<Written>, k: nat, path: Seq<char>) -> Option<nat>
    decreases k,
{
    if k == 0 {
        None
    } else if ws[k - 1].1 == path {
        Some((k - 1) as nat)
    } else {
        last_write(ws, (k - 1) as nat, path)
    }
}

/// The collisions among the first `k` writes: each write of a path written
/// before collides with the unit of the last such write.
pub open spec fn collisions_upto(us: Seq<OutputUnit>, ws: Seq<Written>, k: nat) -> Seq<(nat, nat, Seq<char>, CollisionKind)>
    decreases k,
{
    if k == 0 {
        Seq::empty()
    } else {
        let prev = collisions_upto(us, ws, (k - 1) as nat);
        let w = ws[k - 1];
        match last_write(ws, (k - 1) as nat, w.1) {
            Some(m) => {
                let other = ws[m as int].0;
                let kind = if w.2 {
                    CollisionKind::Export
                } else if us[w.0 as int].target_name@ == us[other as int].target_name@ {
                    CollisionKind::SameName
                } else {
                    CollisionKind::Output
                };
                prev.push((w.0, other, w.1, kind))
            },
            None => prev,
        }
    }
}

/// The views of collisions.
pub open spec fn collisions_view(v: Seq<Collision>) -> Seq<(nat, nat, Seq<char>, CollisionKind)> {
    v.map_values(|c: Collision| (c.unit as nat, c.other as nat, c.path@, c.kind))
}

/// The views of written paths.
pub open spec fn written_view(v: Seq<(usize, String, bool)>) -> Seq<Written> {
    v.map_values(|w: (usize, String, bool)| (w.0 as nat, w.1@, w.2))
}

/// The paths the units write, with the unit and whether it is an exported
/// copy (see `all_paths`).
fn written_paths(us: &Vec<OutputUnit>) -> (r: Vec<(usize, String, bool)>)
    ensures
        written_view(r@) == all_paths(us@, us@.len()),
{
    let mut out: Vec<(usize, String, bool)> = Vec::new();
    let mut i: usize = 0;
    while i < us.len()
        invariant
            i <= us@.len(),
            written_view(out@) == all_paths(us@, i as nat),
        decreases us.len() - i,
    {
        let fs = &us[i].outputs;
        let mut j: usize = 0;
        while j < fs.len()
            invariant
                i < us@.len(),
                j <= fs@.len(),
                fs@ == us@[i as int].outputs@,
                    written_view(out@) == all_paths(us@, i as nat) + unit_paths(i as nat, fs@, j as nat),
            decreases fs.len() - j,
        {
            let ghost before = written_view(out@);
            let file = &fs[j];
            out.push((i, file.path.clone(), false));
            match &file.hardlink {
                Some(h) => {
                    out.push((i, h.clone(), false));
                },
                None => {},
            }
            match &file.export_path {
                Some(e) => {
                    out.push((i, e.clone(), true));
                },
                None => {},
            }
            assert(written_view(out@) =~= before + file_paths(i as nat, fs@[j as int]));
            j = j + 1;
        }
        i = i + 1;
    }
    out
}

/// The position of the last of the first `k` writes of the path (see
/// `last_write`).
fn find_last_write(ws: &Vec<(usize, String, bool)>, k: usize, path: &String) -> (r: Option<usize>)
    requires
        k <= ws@.len(),
    ensures
        match last_write(written_view(ws@), k as nat, path@) {
            Some(m) => r == Some(m as usize),
            None => r is None,
        },
{
    let ghost v = written_view(ws@);
    let mut m: usize = k;
    while m > 0
        invariant
            m <= k <= ws@.len(),
            v == written_view(ws@),
            last_write(v, k as nat, path@) == last_write(v, m as nat, path@),
        decreases m,
    {
        assert(v[m - 1] == (ws@[m - 1].0 as nat, ws@[m - 1].1@, ws@[m - 1].2));
        if ws[m - 1].1.eq(path) {
            return Some(m - 1);
        }
        m = m - 1;
    }
    None
}

/// A found write comes before and writes the path.
proof fn lemma_last_write(ws: Seq<Written>, k: nat, path: Seq<char>)
    requires
        k <= ws.len(),
    ensures
        last_write(ws, k, path) matches Some(m) ==> m < k && ws[m as int].1 == path,
    decreases k,
{
    if k > 0 {
        lemma_last_write(ws, (k - 1) as nat, path);
    }
}

/// The collisions among the files the units write (see
/// `collisions_upto`), in the order the units and their files come.
pub fn find_collisions(us: &Vec<OutputUnit>) -> (r: Vec<Collision>)
    ensures
        collisions_view(r@) == collisions_upto(us@, all_paths(us@, us@.len()), all_paths(us@, us@.len()).len()),
{
    let ws = written_paths(us);
    let ghost v = written_view(ws@);
    proof {
        lemma_paths_in_range(us@, us@.len());
    }
    let mut out: Vec<Collision> = Vec::new();
    let mut k: usize = 0;
    while k < ws.len()
        invariant
            k <= ws@.len(),
            v == written_view(ws@),
            v == all_paths(us@, us@.len()),
            forall|j: int| 0 <= j < v.len() ==> #[trigger] v[j].0 < us@.len(),
            collisions_view(out@) == collisions_upto(us@, v, k as nat),
        decreases ws.len() - k,
    {
        assert(v[k as int] == (ws@[k as int].0 as nat, ws@[k as int].1@, ws@[k as int].2));
        match find_last_write(&ws, k, &ws[k].1) {
            Some(m) => {
                proof {
                    lemma_last_write(v, k as nat, v[k as int].1);
                }
                assert(v[m as int] == (ws@[m as int].0 as nat, ws@[m as int].1@, ws@[m as int].2));
                assert(v.len() == ws@.len());
                assert(v[k as int].0 < us@.len() && v[m as int].0 < us@.len());
                let u = ws[k].0;
                let other = ws[m].0;
                let kind = if ws[k].2 {
                    CollisionKind::Export
                } else if us[u].target_name.eq(&us[other].target_name) {
                    CollisionKind::SameName
                } else {
                    CollisionKind::Output
                };
                let ghost before = collisions_view(out@);
                out.push(Collision { unit: u, other, path: ws[k].1.clone(), kind });
                assert(collisions_view(out@) =~= before.push((u as nat, other as nat, ws@[k as int].1@, kind)));
            },
            None => {},
        }
        k = k + 1;
    }
    out
}

/// Every path written belongs to one of the units.
proof fn lemma_paths_in_range(us: Seq<OutputUnit>, n: nat)
    requires
        n <= us.len(),
    ensures
        forall|j: int| 0 <= j < all_paths(us, n).len() ==> #[trigger] all_paths(us, n)[j].0 < n,
    decreases n,
{
    if n > 0 {
        lemma_paths_in_range(us, (n - 1) as nat);
        let u = (n - 1) as nat;
        lemma_unit_paths_of(u, us[n - 1].outputs@, us[n - 1].outputs@.len());
        let a = all_paths(us, (n - 1) as nat);
        let b = unit_paths(u, us[n - 1].outputs@, us[n - 1].outputs@.len());
        assert forall|j: int| 0 <= j < (a + b).len() implies #[trigger] (a + b)[j].0 < n by {
            if j < a.len() {
                assert((a + b)[j] == a[j]);
            } else {
                assert((a + b)[j] == b[j - a.len()]);
            }
        }
    }
}

/// The paths a unit writes are all its own.
proof fn lemma_unit_paths_of(u: nat, fs: Seq<OutputFile>, n: nat)
    requires
        n <= fs.len(),
    ensures
        forall|j: int| 0 <= j < unit_paths(u, fs, n).len() ==> #[trigger] unit_paths(u, fs, n)[j].0 == u,
    decreases n,
{
    if n > 0 {
        lemma_unit_paths_of(u, fs, (n - 1) as nat);
        let a = unit_paths(u, fs, (n - 1) as nat);
        let b = file_paths(u, fs[n - 1]);
        assert forall|j: int| 0 <= j < (a + b).len() implies #[trigger] (a + b)[j].0 == u by {
            if j < a.len() {
                assert((a + b)[j] == a[j]);
            } else {
                assert((a + b)[j] == b[j - a.len()]);
            }
        }
    }
}

/// Whether the first `n` writes are all of different paths.
pub open spec fn paths_distinct(ws: Seq<Written>, n: nat) -> bool {
    forall|a: int, b: int| 0 <= a < b < n ==> #[trigger] ws[a].1 != #[trigger] ws[b].1
}

/// No earlier write of the path is found exactly when there is none.
proof fn lemma_last_write_none(ws: Seq<Written>, k: nat, path: Seq<char>)
    requires
        k <= ws.len(),
    ensures
        last_write(ws, k, path) is None <==> forall|m: int| 0 <= m < k ==> #[trigger] ws[m].1 != path,
    decreases k,
{
    if k > 0 {
        lemma_last_write_none(ws, (k - 1) as nat, path);
    }
}

/// The build warns of no collision exactly when the units write no path
/// twice; and each collision it reports is of a path that both units
/// write.
pub proof fn lemma_collisions_exactly_repeats(us: Seq<OutputUnit>, ws: Seq<Written>, n: nat)
    requires
        n <= ws.len(),
    ensures
        collisions_upto(us, ws, n).len() == 0 <==> paths_distinct(ws, n),
        forall|c: int| 0 <= c < collisions_upto(us, ws, n).len() ==> {
            let x = #[trigger] collisions_upto(us, ws, n)[c];
            exists|a: int, b: int| 0 <= a < b < n && ws[a] == (x.1, x.2, ws[a].2) && ws[b] == (x.0, x.2, ws[b].2)
        },
    decreases n,
{
    if n > 0 {
        let k = (n - 1) as nat;
        lemma_collisions_exactly_repeats(us, ws, k);
        lemma_last_write_none(ws, k, ws[k as int].1);
        lemma_last_write(ws, k, ws[k as int].1);
        let prev = collisions_upto(us, ws, k);
        let cur = collisions_upto(us, ws, n);
        if paths_distinct(ws, n) {
            assert(paths_distinct(ws, k));
            assert forall|m: int| 0 <= m < k implies #[trigger] ws[m].1 != ws[k as int].1 by {
                assert(ws[m].1 != ws[k as int].1);
            }
        }
        if cur.len() == 0 {
            assert forall|a: int, b: int| 0 <= a < b < n implies #[trigger] ws[a].1 != #[trigger] ws[b].1 by {
                if b < k {
                } else {
                    assert(ws[a].1 != ws[k as int].1);
                }
            }
        }
        assert forall|c: int| 0 <= c < cur.len() implies {
            let x = #[trigger] cur[c];
            exists|a: int, b: int| 0 <= a < b < n && ws[a] == (x.1, x.2, ws[a].2) && ws[b] == (x.0, x.2, ws[b].2)
        } by {
            if c < prev.len() {
                assert(cur[c] == prev[c]);
                let x = prev[c];
                let (a, b) = choose|a: int, b: int| 0 <= a < b < k && ws[a] == (x.1, x.2, ws[a].2) && ws[b] == (x.0, x.2, ws[b].2);
                assert(0 <= a < b < n);
            } else {
                let m = last_write(ws, k, ws[k as int].1)->0;
                assert(0 <= m < k);
                assert(ws[m as int] == (ws[m as int].0, ws[k as int].1, ws[m as int].2));
            }
        }
    }
}

} // verus!
