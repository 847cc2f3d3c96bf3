//! Connected groups of same-coloured cells on a board, and a breadth-first search that
//! collects them.
use vstd::prelude::*;
use crate::vectors::BVec;
use crate::board::{Board, has_key};
use crate::Sprite;

verus! {

/// `q` is one step up, down, left or right of `p`.
pub open spec fn step(p: BVec, q: BVec) -> bool {
    ||| q.x == p.x && (q.y == p.y + 1 || q.y == p.y - 1)
    ||| q.y == p.y && (q.x == p.x + 1 || q.x == p.x - 1)
}

/// `path` walks in single steps over cells of colour `c` of `m` (its first cell aside).
pub open spec fn is_path(m: Map<BVec, Sprite>, c: Sprite, path: Seq<BVec>) -> bool {
    &&& path.len() >= 1
    &&& forall|k: int|
        1 <= k < path.len() ==> m.contains_key(#[trigger] path[k]) && m[path[k]] == c && step(
            path[k - 1],
            path[k],
        )
}

/// `t` can be reached from `s` over cells of colour `c`.
pub open spec fn reach(m: Map<BVec, Sprite>, c: Sprite, s: BVec, t: BVec) -> bool {
    exists|path: Seq<BVec>| #[trigger] is_path(m, c, path) && path[0] == s && path.last() == t
}

/// The cells that can be reached from `s` over cells of colour `c`: the group of `s`.
pub open spec fn group(m: Map<BVec, Sprite>, c: Sprite, s: BVec) -> Set<BVec> {
    Set::new(|t: BVec| reach(m, c, s, t))
}

/// Every cell of `vis` lies far enough from the ends of `i32` to have four neighbours.
pub open spec fn coords_inner(p: BVec) -> bool {
    i32::MIN < p.x < i32::MAX && i32::MIN < p.y < i32::MAX
}

pub proof fn lemma_reach_self(m: Map<BVec, Sprite>, c: Sprite, s: BVec)
    ensures
        reach(m, c, s, s),
{
    let p = seq![s];
    assert(is_path(m, c, p));
}

pub proof fn lemma_reach_step(m: Map<BVec, Sprite>, c: Sprite, s: BVec, t: BVec, u: BVec)
    requires
        reach(m, c, s, t),
        step(t, u),
        m.contains_key(u),
        m[u] == c,
    ensures
        reach(m, c, s, u),
{
    let p = choose|p: Seq<BVec>| #[trigger] is_path(m, c, p) && p[0] == s && p.last() == t;
    let q = p.push(u);
    assert(is_path(m, c, q)) by {
        assert forall|k: int| 1 <= k < q.len() implies m.contains_key(#[trigger] q[k]) && m[q[k]]
            == c && step(q[k - 1], q[k]) by {
            if k < p.len() {
                assert(q[k] == p[k] && q[k - 1] == p[k - 1]);
            }
        }
    }
    assert(q[0] == s && q.last() == u);
}

/// Every cell of a path is reached from its first cell.
pub proof fn lemma_path_prefix(m: Map<BVec, Sprite>, c: Sprite, path: Seq<BVec>, k: int)
    requires
        is_path(m, c, path),
        0 <= k < path.len(),
    ensures
        reach(m, c, path[0], path[k]),
{
    let q = path.take(k + 1);
    assert(is_path(m, c, q)) by {
        assert forall|j: int| 1 <= j < q.len() implies m.contains_key(#[trigger] q[j]) && m[q[j]]
            == c && step(q[j - 1], q[j]) by {
            assert(q[j] == path[j] && q[j - 1] == path[j - 1]);
        }
    }
    assert(q[0] == path[0] && q.last() == path[k]);
}

/// A set holding `s` and closed under steps onto cells of colour `c` holds the group of `s`.
pub proof fn lemma_closed_holds_group(m: Map<BVec, Sprite>, c: Sprite, s: BVec, vis: Set<BVec>, t: BVec)
    requires
        vis.contains(s),
        forall|v: BVec, u: BVec|
            vis.contains(v) && #[trigger] step(v, u) && m.contains_key(u) && m[u] == c ==> vis.contains(u),
        reach(m, c, s, t),
    ensures
        vis.contains(t),
{
    let p = choose|p: Seq<BVec>| #[trigger] is_path(m, c, p) && p[0] == s && p.last() == t;
    lemma_closed_holds_path(m, c, vis, p, p.len() - 1);
}

proof fn lemma_closed_holds_path(m: Map<BVec, Sprite>, c: Sprite, vis: Set<BVec>, p: Seq<BVec>, k: int)
    requires
        is_path(m, c, p),
        vis.contains(p[0]),
        forall|v: BVec, u: BVec|
            vis.contains(v) && #[trigger] step(v, u) && m.contains_key(u) && m[u] == c ==> vis.contains(u),
        0 <= k < p.len(),
    ensures
        vis.contains(p[k]),
    decreases k,
{
    if k > 0 {
        lemma_closed_holds_path(m, c, vis, p, k - 1);
        assert(step(p[k - 1], p[k]) && m.contains_key(p[k]) && m[p[k]] == c);
    }
}

pub proof fn lemma_reach_trans(m: Map<BVec, Sprite>, c: Sprite, s: BVec, t: BVec, u: BVec)
    requires
        reach(m, c, s, t),
        reach(m, c, t, u),
    ensures
        reach(m, c, s, u),
{
    let p = choose|p: Seq<BVec>| #[trigger] is_path(m, c, p) && p[0] == s && p.last() == t;
    let q = choose|q: Seq<BVec>| #[trigger] is_path(m, c, q) && q[0] == t && q.last() == u;
    let r = p + q.skip(1);
    assert(is_path(m, c, r)) by {
        assert forall|k: int| 1 <= k < r.len() implies m.contains_key(#[trigger] r[k]) && m[r[k]]
            == c && step(r[k - 1], r[k]) by {
            if k < p.len() {
                assert(r[k] == p[k] && r[k - 1] == p[k - 1]);
            } else {
                assert(r[k] == q[k - p.len() + 1]);
                if k == p.len() {
                    assert(r[k - 1] == p.last());
                } else {
                    assert(r[k - 1] == q[k - p.len()]);
                }
            }
        }
    }
    if q.len() == 1 {
        assert(r =~= p);
    } else {
        assert(r.last() == q.last());
    }
}

pub proof fn lemma_reach_sym(m: Map<BVec, Sprite>, c: Sprite, s: BVec, t: BVec)
    requires
        reach(m, c, s, t),
        m.contains_key(s),
        m[s] == c,
    ensures
        reach(m, c, t, s),
{
    let p = choose|p: Seq<BVec>| #[trigger] is_path(m, c, p) && p[0] == s && p.last() == t;
    let n = p.len();
    let r = Seq::new(n, |k: int| p[n - 1 - k]);
    assert(is_path(m, c, r)) by {
        assert forall|k: int| 1 <= k < r.len() implies m.contains_key(#[trigger] r[k]) && m[r[k]]
            == c && step(r[k - 1], r[k]) by {
            let j = n - 1 - k;
            assert(r[k] == p[j]);
            assert(r[k - 1] == p[j + 1]);
            assert(step(p[j], p[j + 1]));
            if j >= 1 {
                assert(m.contains_key(p[j]) && m[p[j]] == c);
            }
        }
    }
    assert(r[0] == t && r.last() == s);
}

/// Whether `v` holds `x`.
pub fn vec_contains(v: &Vec<BVec>, x: &BVec) -> (r: bool)
    ensures
        r == v@.contains(*x),
{
    let mut i: usize = 0;
    while i < v.len()
        invariant
            i <= v@.len(),
            forall|j: int| 0 <= j < i ==> v@[j] != *x,
        decreases v@.len() - i,
    {
        if v[i] == *x {
            return true;
        }
        i = i + 1;
    }
    false
}

/// What the search keeps true of the cells it found.
#[verifier::opaque]
pub open spec fn search_inv(m: Map<BVec, Sprite>, c: Sprite, start: BVec, vis: Seq<BVec>) -> bool {
    &&& vis.len() >= 1
    &&& vis[0] == start
    &&& vis.no_duplicates()
    &&& forall|k: int| 1 <= k < vis.len() ==> m.contains_key(#[trigger] vis[k]) && m[vis[k]] == c
    &&& forall|k: int| 0 <= k < vis.len() ==> reach(m, c, start, #[trigger] vis[k])
}

/// Cells searched so far are closed under steps onto cells of colour `c`.
#[verifier::opaque]
pub open spec fn closed_upto(m: Map<BVec, Sprite>, c: Sprite, vis: Seq<BVec>, h: int) -> bool {
    forall|k: int, u: BVec|
        0 <= k < h && #[trigger] step(vis[k], u) && m.contains_key(u) && m[u] == c ==> vis.contains(u)
}

proof fn lemma_search_inv_at(m: Map<BVec, Sprite>, c: Sprite, start: BVec, vis: Seq<BVec>, k: int)
    requires
        search_inv(m, c, start, vis),
        0 <= k < vis.len(),
    ensures
        reach(m, c, start, vis[k]),
        k >= 1 ==> m.contains_key(vis[k]),
        vis[0] == start,
        vis.len() >= 1,
{
    reveal(search_inv);
}

fn visit(board: &Board, vis: &mut Vec<BVec>, nb: BVec, c: Sprite, Ghost(start): Ghost<BVec>, Ghost(from): Ghost<BVec>)
    requires
        board.wf(),
        search_inv(board@, c, start, old(vis)@),
        reach(board@, c, start, from),
        step(from, nb),
    ensures
        search_inv(board@, c, start, final(vis)@),
        final(vis)@ == old(vis)@ || final(vis)@ == old(vis)@.push(nb),
        final(vis)@.len() >= old(vis)@.len(),
        forall|j: int| 0 <= j < old(vis)@.len() ==> final(vis)@[j] == old(vis)@[j],
        forall|x: BVec| old(vis)@.contains(x) ==> final(vis)@.contains(x),
        board@.contains_key(nb) && board@[nb] == c ==> final(vis)@.contains(nb),
{
    proof { reveal(search_inv); }
    if board.get(&nb) == Some(c) && !vec_contains(vis, &nb) {
        proof {
            lemma_reach_step(board@, c, start, from, nb);
        }
        let ghost before = vis@;
        vis.push(nb);
        proof {
            assert forall|k: int| 1 <= k < vis@.len() implies board@.contains_key(#[trigger] vis@[k])
                && board@[vis@[k]] == c by {
                if k < before.len() {
                    assert(vis@[k] == before[k]);
                }
            }
            assert forall|k: int| 0 <= k < vis@.len() implies reach(board@, c, start, #[trigger] vis@[k]) by {
                if k < before.len() {
                    assert(vis@[k] == before[k]);
                }
            }
            assert(vis@[before.len() as int] == nb);
            assert forall|x: BVec| before.contains(x) implies vis@.contains(x) by {
                let j = choose|j: int| 0 <= j < before.len() && before[j] == x;
                assert(vis@[j] == x);
            }
        }
    }
}

proof fn lemma_search_closure(
    m: Map<BVec, Sprite>,
    c: Sprite,
    before: Seq<BVec>,
    vis: Seq<BVec>,
    h: int,
    current: BVec,
    n0: BVec,
    n1: BVec,
    n2: BVec,
    n3: BVec,
)
    requires
        0 <= h < before.len(),
        before[h] == current,
        vis.len() >= before.len(),
        forall|j: int| 0 <= j < before.len() ==> vis[j] == before[j],
        closed_upto(m, c, before, h),
        n0 == (BVec { x: current.x, y: (current.y + 1) as i32 }),
        n1 == (BVec { x: current.x, y: (current.y - 1) as i32 }),
        n2 == (BVec { x: (current.x + 1) as i32, y: current.y }),
        n3 == (BVec { x: (current.x - 1) as i32, y: current.y }),
        coords_inner(current),
        m.contains_key(n0) && m[n0] == c ==> vis.contains(n0),
        m.contains_key(n1) && m[n1] == c ==> vis.contains(n1),
        m.contains_key(n2) && m[n2] == c ==> vis.contains(n2),
        m.contains_key(n3) && m[n3] == c ==> vis.contains(n3),
    ensures
        closed_upto(m, c, vis, h + 1),
{
    reveal(closed_upto);
    assert forall|k: int, u: BVec|
        0 <= k < h + 1 && #[trigger] step(vis[k], u) && m.contains_key(u) && m[u] == c implies vis.contains(u) by {
        assert(vis[k] == before[k]);
        if k < h {
            assert(step(before[k], u));
            assert(before.contains(u));
            let j = choose|j: int| 0 <= j < before.len() && before[j] == u;
            assert(vis[j] == u);
        } else {
            assert(u == n0 || u == n1 || u == n2 || u == n3);
        }
    }
}

proof fn lemma_search_bound(
    entries: Seq<(BVec, Sprite)>,
    m: Map<BVec, Sprite>,
    c: Sprite,
    start: BVec,
    vis: Seq<BVec>,
    keys: Seq<BVec>,
)
    requires
        m == crate::board::cells_map(entries),
        search_inv(m, c, start, vis),
        keys == entries.map_values(|e: (BVec, Sprite)| e.0).push(start),
    ensures
        vis.len() <= entries.len() + 1,
{
    reveal(search_inv);
    assert(vis.to_set().subset_of(keys.to_set())) by {
        assert forall|x: BVec| vis.to_set().contains(x) implies keys.to_set().contains(x) by {
            let k = choose|k: int| 0 <= k < vis.len() && vis[k] == x;
            if k == 0 {
                assert(keys[keys.len() - 1] == start);
            } else {
                assert(m.contains_key(vis[k]));
                assert(has_key(entries, x));
                let i = choose|i: int| 0 <= i < entries.len() && (#[trigger] entries[i]).0 == x;
                assert(keys[i] == x);
            }
        }
    }
    vis.unique_seq_to_set();
    keys.lemma_cardinality_of_set();
    vstd::set_lib::lemma_len_subset(vis.to_set(), keys.to_set());
}

/// The group of `start` for colour `c` on `board`, found breadth first: `start` comes
/// first, and every cell comes once.
pub fn collect_group(board: &Board, start: BVec, c: Sprite) -> (vis: Vec<BVec>)
    requires
        board.wf(),
        coords_inner(start),
        forall|k: BVec| #[trigger] board@.contains_key(k) ==> coords_inner(k),
    ensures
        vis@.len() >= 1,
        vis@[0] == start,
        vis@.no_duplicates(),
        vis@.to_set() == group(board@, c, start),
        vis@.len() <= board.entries().len() + 1,
{
    let ghost m = board@;
    let ghost keys = board.entries().map_values(|e: (BVec, Sprite)| e.0).push(start);
    let mut vis: Vec<BVec> = Vec::new();
    vis.push(start);
    proof {
        lemma_reach_self(m, c, start);
        assert(vis@[0] == start);
        board.lemma_view();
        reveal(search_inv);
        reveal(closed_upto);
        assert(search_inv(m, c, start, vis@));
    }
    let mut h: usize = 0;
    while h < vis.len()
        invariant
            board.wf(),
            m == board@,
            coords_inner(start),
            forall|k: BVec| #[trigger] board@.contains_key(k) ==> coords_inner(k),
            search_inv(m, c, start, vis@),
            h <= vis@.len(),
            closed_upto(m, c, vis@, h as int),
            keys == board.entries().map_values(|e: (BVec, Sprite)| e.0).push(start),
            vis@.len() <= board.entries().len() + 1,
        decreases board.entries().len() + 1 - h,
    {
        let current = vis[h];
        proof {
            lemma_search_inv_at(m, c, start, vis@, h as int);
        }
        let ghost before = vis@;
        let n0 = current.add(&BVec::new(0, 1));
        let n1 = current.add(&BVec::new(0, -1));
        let n2 = current.add(&BVec::new(1, 0));
        let n3 = current.add(&BVec::new(-1, 0));
        visit(board, &mut vis, n0, c, Ghost(start), Ghost(current));
        visit(board, &mut vis, n1, c, Ghost(start), Ghost(current));
        visit(board, &mut vis, n2, c, Ghost(start), Ghost(current));
        visit(board, &mut vis, n3, c, Ghost(start), Ghost(current));
        proof {
            board.lemma_view();
            lemma_search_closure(m, c, before, vis@, h as int, current, n0, n1, n2, n3);
            lemma_search_bound(board.entries(), m, c, start, vis@, keys);
        }
        h = h + 1;
    }
    proof {
        reveal(search_inv);
        reveal(closed_upto);
        assert(vis@.to_set() =~= group(m, c, start)) by {
            assert forall|t: BVec| group(m, c, start).contains(t) implies vis@.to_set().contains(t) by {
                assert forall|v: BVec, u: BVec|
                    vis@.to_set().contains(v) && #[trigger] step(v, u) && m.contains_key(u) && m[u] == c
                        implies vis@.to_set().contains(u) by {
                    let k = choose|k: int| 0 <= k < vis@.len() && vis@[k] == v;
                    assert(step(vis@[k], u));
                }
                assert(vis@.to_set().contains(start)) by {
                    assert(vis@[0] == start);
                }
                lemma_closed_holds_group(m, c, start, vis@.to_set(), t);
            }
        }
    }
    vis
}

} // verus!
