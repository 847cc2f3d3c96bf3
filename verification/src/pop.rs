//! Popping: every group of four or more connected blobs of one colour leaves the board.
use vstd::prelude::*;
use crate::vectors::BVec;
use crate::board::{Board, has_key, keys_unique, cells_map, lemma_cells_map_at, lemma_cells_map_finite};
use crate::groups::{group, reach, is_path, step, lemma_reach_self, lemma_reach_sym, lemma_reach_trans, lemma_path_prefix};
use crate::Sprite;
use crate::buyo_game::{Tables, table_item, group_bonus_table};
use crate::groups::{collect_group, coords_inner};

verus! {

/// `p` pops: it holds a blob whose group has four or more cells.
pub open spec fn pops(m: Map<BVec, Sprite>, p: BVec) -> bool {
    &&& m.contains_key(p)
    &&& m[p] != Sprite::Wall
    &&& group(m, m[p], p).len() >= 4
}

/// What is left of the board `m` once the blobs that pop are gone.
pub open spec fn after_pop(m: Map<BVec, Sprite>) -> Map<BVec, Sprite> {
    Map::new(|p: BVec| m.contains_key(p) && !pops(m, p), |p: BVec| m[p])
}

/// Entry `i` is the first entry of a group of four or more blobs.
pub open spec fn first_big(e: Seq<(BVec, Sprite)>, m: Map<BVec, Sprite>, i: int) -> bool {
    &&& 0 <= i < e.len()
    &&& e[i].1 != Sprite::Wall
    &&& group(m, e[i].1, e[i].0).len() >= 4
    &&& forall|j: int| 0 <= j < i ==> !group(m, e[i].1, e[i].0).contains(#[trigger] e[j].0)
}

/// `p` lies in the group of a first entry before index `i`.
pub open spec fn removed_before(e: Seq<(BVec, Sprite)>, m: Map<BVec, Sprite>, i: int, p: BVec) -> bool {
    exists|j: int| 0 <= j < i && #[trigger] first_big(e, m, j) && group(m, e[j].1, e[j].0).contains(p)
}

/// The board once the groups of the first entries before index `i` are gone.
pub open spec fn remaining(e: Seq<(BVec, Sprite)>, m: Map<BVec, Sprite>, i: int) -> Map<BVec, Sprite> {
    Map::new(|p: BVec| m.contains_key(p) && !removed_before(e, m, i, p), |p: BVec| m[p])
}

/// The size of the group of entry `i`.
pub open spec fn group_size(e: Seq<(BVec, Sprite)>, m: Map<BVec, Sprite>, i: int) -> int {
    group(m, e[i].1, e[i].0).len() as int
}

/// The entries of `e` that are consistent with the map `m`.
pub open spec fn board_of(e: Seq<(BVec, Sprite)>, m: Map<BVec, Sprite>) -> bool {
    &&& keys_unique(e)
    &&& m == cells_map(e)
}

/// A cell reached from another lies on the board, in the colour of the walk.
pub proof fn lemma_member_color(m: Map<BVec, Sprite>, c: Sprite, s: BVec, t: BVec)
    requires
        reach(m, c, s, t),
        t != s,
    ensures
        m.contains_key(t),
        m[t] == c,
{
    let p = choose|p: Seq<BVec>| #[trigger] is_path(m, c, p) && p[0] == s && p.last() == t;
    assert(p.len() > 1);
    assert(p[p.len() - 1] == t);
}

/// Cells of one group have that same group.
pub proof fn lemma_same_group(m: Map<BVec, Sprite>, c: Sprite, s: BVec, t: BVec)
    requires
        m.contains_key(s),
        m[s] == c,
        reach(m, c, s, t),
    ensures
        group(m, c, t) == group(m, c, s),
{
    lemma_reach_sym(m, c, s, t);
    assert forall|x: BVec| group(m, c, t).contains(x) <==> group(m, c, s).contains(x) by {
        if reach(m, c, t, x) {
            lemma_reach_trans(m, c, s, t, x);
        }
        if reach(m, c, s, x) {
            lemma_reach_trans(m, c, t, s, x);
        }
    }
    assert(group(m, c, t) =~= group(m, c, s));
}

/// A walk on a part of a board is a walk on the board.
pub proof fn lemma_reach_sub(m1: Map<BVec, Sprite>, m2: Map<BVec, Sprite>, c: Sprite, s: BVec, t: BVec)
    requires
        forall|p: BVec| #[trigger] m1.contains_key(p) ==> m2.contains_key(p) && m2[p] == m1[p],
        reach(m1, c, s, t),
    ensures
        reach(m2, c, s, t),
{
    let p = choose|p: Seq<BVec>| #[trigger] is_path(m1, c, p) && p[0] == s && p.last() == t;
    assert(is_path(m2, c, p));
}

/// A cell removed before `i` that is on the board lies in the group of an earlier first
/// entry of its own colour.
pub proof fn lemma_removed_color(e: Seq<(BVec, Sprite)>, m: Map<BVec, Sprite>, i: int, p: BVec) -> (j: int)
    requires
        board_of(e, m),
        removed_before(e, m, i, p),
        m.contains_key(p),
    ensures
        0 <= j < i,
        first_big(e, m, j),
        e[j].1 == m[p],
        group(m, e[j].1, e[j].0).contains(p),
        m.contains_key(e[j].0),
        m[e[j].0] == e[j].1,
{
    let j = choose|j: int| 0 <= j < i && #[trigger] first_big(e, m, j) && group(m, e[j].1, e[j].0).contains(p);
    lemma_cells_map_at(e, j);
    if p != e[j].0 {
        lemma_member_color(m, e[j].1, e[j].0, p);
    }
    j
}

/// The least index at or before `k` whose cell lies in `g`.
pub proof fn lemma_min_index(e: Seq<(BVec, Sprite)>, g: Set<BVec>, k: int) -> (f: int)
    requires
        0 <= k < e.len(),
        g.contains(e[k].0),
    ensures
        0 <= f <= k,
        g.contains(e[f].0),
        forall|j: int| 0 <= j < f ==> !g.contains(#[trigger] e[j].0),
    decreases k,
{
    if exists|j: int| 0 <= j < k && g.contains(#[trigger] e[j].0) {
        let j = choose|j: int| 0 <= j < k && g.contains(#[trigger] e[j].0);
        lemma_min_index(e, g, j)
    } else {
        k
    }
}

/// A blob whose group has four or more cells lies in the group of a first entry, one of
/// its colour, at or before any entry of the group.
pub proof fn lemma_big_has_first(e: Seq<(BVec, Sprite)>, m: Map<BVec, Sprite>, k: int) -> (f: int)
    requires
        board_of(e, m),
        0 <= k < e.len(),
        e[k].1 != Sprite::Wall,
        group_size(e, m, k) >= 4,
    ensures
        0 <= f <= k,
        first_big(e, m, f),
        e[f].1 == e[k].1,
        group(m, e[f].1, e[f].0) == group(m, e[k].1, e[k].0),
{
    let c = e[k].1;
    let g = group(m, c, e[k].0);
    lemma_cells_map_at(e, k);
    lemma_reach_self(m, c, e[k].0);
    let f = lemma_min_index(e, g, k);
    lemma_cells_map_at(e, f);
    if e[f].0 != e[k].0 {
        lemma_member_color(m, c, e[k].0, e[f].0);
    }
    lemma_same_group(m, c, e[k].0, e[f].0);
    f
}

/// What is left stays on the board, unchanged.
pub proof fn lemma_remaining_sub(e: Seq<(BVec, Sprite)>, m: Map<BVec, Sprite>, i: int)
    ensures
        forall|p: BVec| #[trigger] remaining(e, m, i).contains_key(p) ==> m.contains_key(p)
            && m[p] == remaining(e, m, i)[p],
{
}

/// The group of a blob that is still there is its group on the full board.
pub proof fn lemma_group_stable(e: Seq<(BVec, Sprite)>, m: Map<BVec, Sprite>, i: int, k: int)
    requires
        board_of(e, m),
        0 <= k < e.len(),
        e[k].1 != Sprite::Wall,
        !removed_before(e, m, i, e[k].0),
    ensures
        group(remaining(e, m, i), e[k].1, e[k].0) == group(m, e[k].1, e[k].0),
{
    let b = e[k].0;
    let c = e[k].1;
    let cur = remaining(e, m, i);
    lemma_cells_map_at(e, k);
    lemma_remaining_sub(e, m, i);
    assert forall|t: BVec| group(cur, c, b).contains(t) <==> group(m, c, b).contains(t) by {
        if reach(cur, c, b, t) {
            lemma_reach_sub(cur, m, c, b, t);
        }
        if reach(m, c, b, t) {
            let p = choose|p: Seq<BVec>| #[trigger] is_path(m, c, p) && p[0] == b && p.last() == t;
            assert forall|q: int| 1 <= q < p.len() implies cur.contains_key(#[trigger] p[q]) && cur[p[q]]
                == c && step(p[q - 1], p[q]) by {
                if removed_before(e, m, i, p[q]) {
                    let j = lemma_removed_color(e, m, i, p[q]);
                    lemma_path_prefix(m, c, p, q);
                    lemma_reach_sym(m, c, b, p[q]);
                    lemma_reach_trans(m, c, e[j].0, p[q], b);
                    assert(removed_before(e, m, i, b));
                }
            }
            assert(is_path(cur, c, p));
        }
    }
    assert(group(cur, c, b) =~= group(m, c, b));
}

/// The group, on what is left, of a blob already removed is that blob alone; and its entry
/// is not a first entry.
pub proof fn lemma_group_removed(e: Seq<(BVec, Sprite)>, m: Map<BVec, Sprite>, i: int, k: int)
    requires
        board_of(e, m),
        0 <= k < e.len(),
        i <= k,
        e[k].1 != Sprite::Wall,
        removed_before(e, m, i, e[k].0),
    ensures
        group(remaining(e, m, i), e[k].1, e[k].0) == Set::<BVec>::empty().insert(e[k].0),
        !first_big(e, m, k),
{
    let b = e[k].0;
    let c = e[k].1;
    let cur = remaining(e, m, i);
    lemma_cells_map_at(e, k);
    let j = lemma_removed_color(e, m, i, b);
    lemma_reach_self(cur, c, b);
    assert forall|t: BVec| group(cur, c, b).contains(t) implies t == b by {
        let p = choose|p: Seq<BVec>| #[trigger] is_path(cur, c, p) && p[0] == b && p.last() == t;
        if p.len() > 1 {
            let u = p[1];
            assert(cur.contains_key(u) && cur[u] == c && step(b, u));
            lemma_remaining_sub(e, m, i);
            let one = seq![b, u];
            assert(is_path(m, c, one));
            assert(reach(m, c, b, u));
            lemma_reach_trans(m, c, e[j].0, b, u);
            assert(removed_before(e, m, i, u));
        }
    }
    assert(group(cur, c, b) =~= Set::<BVec>::empty().insert(b));
    lemma_reach_sym(m, c, e[j].0, b);
    assert(group(m, c, b).contains(e[j].0));
}

/// For a blob still there, its entry is a first entry exactly when its group is big.
pub proof fn lemma_first_big_iff(e: Seq<(BVec, Sprite)>, m: Map<BVec, Sprite>, i: int)
    requires
        board_of(e, m),
        0 <= i < e.len(),
        e[i].1 != Sprite::Wall,
        !removed_before(e, m, i, e[i].0),
    ensures
        first_big(e, m, i) <==> group_size(e, m, i) >= 4,
{
    if group_size(e, m, i) >= 4 && !first_big(e, m, i) {
        let f = lemma_big_has_first(e, m, i);
        if f < i {
            lemma_reach_self(m, e[i].1, e[i].0);
            assert(removed_before(e, m, i, e[i].0));
        }
    }
}

/// What is left after index `i + 1`.
pub proof fn lemma_remaining_next(e: Seq<(BVec, Sprite)>, m: Map<BVec, Sprite>, i: int)
    requires
        0 <= i < e.len(),
    ensures
        remaining(e, m, i + 1) == if first_big(e, m, i) {
            remaining(e, m, i).remove_keys(group(m, e[i].1, e[i].0))
        } else {
            remaining(e, m, i)
        },
{
    assert forall|p: BVec| removed_before(e, m, i + 1, p) <==> (removed_before(e, m, i, p) || (
    first_big(e, m, i) && group(m, e[i].1, e[i].0).contains(p))) by {
        if removed_before(e, m, i + 1, p) {
            let j = choose|j: int| 0 <= j < i + 1 && #[trigger] first_big(e, m, j) && group(m, e[j].1, e[j].0).contains(p);
            if j < i {
                assert(removed_before(e, m, i, p));
            }
        }
        if removed_before(e, m, i, p) {
            let j = choose|j: int| 0 <= j < i && #[trigger] first_big(e, m, j) && group(m, e[j].1, e[j].0).contains(p);
            assert(0 <= j < i + 1);
        }
        if first_big(e, m, i) && group(m, e[i].1, e[i].0).contains(p) {
            assert(0 <= i < i + 1);
        }
    }
    if first_big(e, m, i) {
        assert(remaining(e, m, i + 1) =~= remaining(e, m, i).remove_keys(group(m, e[i].1, e[i].0)));
    } else {
        assert(remaining(e, m, i + 1) =~= remaining(e, m, i));
    }
}

/// Once every entry is processed, what is gone is exactly the blobs that pop.
pub proof fn lemma_removed_all(e: Seq<(BVec, Sprite)>, m: Map<BVec, Sprite>, p: BVec)
    requires
        board_of(e, m),
        m.contains_key(p),
    ensures
        removed_before(e, m, e.len() as int, p) <==> pops(m, p),
{
    if removed_before(e, m, e.len() as int, p) {
        let j = lemma_removed_color(e, m, e.len() as int, p);
        if p != e[j].0 {
            lemma_same_group(m, e[j].1, e[j].0, p);
        }
    }
    if pops(m, p) {
        assert(has_key(e, p));
        let k = choose|k: int| 0 <= k < e.len() && (#[trigger] e[k]).0 == p;
        lemma_cells_map_at(e, k);
        let f = lemma_big_has_first(e, m, k);
        lemma_reach_self(m, e[k].1, p);
        assert(group(m, e[f].1, e[f].0).contains(p));
    }
}

/// Popping keeps the walls, so blobs left over still have a wall below them.
pub proof fn lemma_grounded_after_pop(a: Seq<(BVec, Sprite)>, b: Seq<(BVec, Sprite)>)
    requires
        keys_unique(a),
        keys_unique(b),
        crate::gravity::grounded(a),
        cells_map(b) == after_pop(cells_map(a)),
    ensures
        crate::gravity::grounded(b),
{
    let ma = cells_map(a);
    let mb = cells_map(b);
    assert forall|i: int| 0 <= i < b.len() && (#[trigger] b[i]).1 != Sprite::Wall implies exists|j: int|
        #[trigger] crate::gravity::wall_under(b, i, j) by {
        lemma_cells_map_at(b, i);
        let p = b[i].0;
        assert(ma.contains_key(p));
        assert(has_key(a, p));
        let k = choose|k: int| 0 <= k < a.len() && (#[trigger] a[k]).0 == p;
        lemma_cells_map_at(a, k);
        assert(a[k].1 != Sprite::Wall);
        let j = choose|j: int| #[trigger] crate::gravity::wall_under(a, k, j);
        lemma_cells_map_at(a, j);
        let w = a[j].0;
        assert(mb.contains_key(w));
        assert(has_key(b, w));
        let j2 = choose|j2: int| 0 <= j2 < b.len() && (#[trigger] b[j2]).0 == w;
        lemma_cells_map_at(b, j2);
        assert(crate::gravity::wall_under(b, i, j2));
    }
}

/// Popping leaves nothing that pops: once every group of four or more blobs is gone from
/// a board, no blob that is left lies in a group of four or more.
pub proof fn law_nothing_pops_after_pop(board: Board, p: BVec)
    ensures
        !pops(after_pop(board@), p),
{
    let m = board@;
    let m2 = after_pop(m);
    board.lemma_view();
    lemma_cells_map_finite(board.entries());
    if pops(m2, p) {
        let c = m2[p];
        assert(m.contains_key(p) && m[p] == c && !pops(m, p));
        let g = group(m, c, p);
        let g2 = group(m2, c, p);
        assert(g.subset_of(m.dom())) by {
            assert forall|t: BVec| g.contains(t) implies m.dom().contains(t) by {
                if t != p {
                    lemma_member_color(m, c, p, t);
                }
            }
        }
        vstd::set_lib::lemma_len_subset(g, m.dom());
        assert(g2.subset_of(g)) by {
            assert forall|t: BVec| g2.contains(t) implies g.contains(t) by {
                lemma_reach_sub(m2, m, c, p, t);
            }
        }
        vstd::set_lib::lemma_len_subset(g2, g);
    }
}

/// The group bonuses of the first entries before index `n`, in entry order.
pub open spec fn bonus_list(e: Seq<(BVec, Sprite)>, m: Map<BVec, Sprite>, n: int) -> Seq<i32>
    decreases n,
{
    if n <= 0 {
        Seq::empty()
    } else if first_big(e, m, n - 1) {
        bonus_list(e, m, n - 1).push(table_item(group_bonus_table(), group_size(e, m, n - 1) - 4))
    } else {
        bonus_list(e, m, n - 1)
    }
}

/// The number of blobs in the groups of the first entries before index `n`.
pub open spec fn popped_total(e: Seq<(BVec, Sprite)>, m: Map<BVec, Sprite>, n: int) -> int
    decreases n,
{
    if n <= 0 {
        0
    } else if first_big(e, m, n - 1) {
        popped_total(e, m, n - 1) + group_size(e, m, n - 1)
    } else {
        popped_total(e, m, n - 1)
    }
}

/// The colours of the first entries before index `n`.
pub open spec fn colors_before(e: Seq<(BVec, Sprite)>, m: Map<BVec, Sprite>, n: int) -> Set<Sprite> {
    Set::new(|s: Sprite| exists|j: int| 0 <= j < n && #[trigger] first_big(e, m, j) && e[j].1 == s)
}

/// What popping asks of a board: no cell near the ends of `i32`, fewer entries than
/// `i32::MAX`, and no group of exactly twelve blobs (the group-bonus table has no entry
/// for it).
pub open spec fn can_pop(e: Seq<(BVec, Sprite)>, m: Map<BVec, Sprite>) -> bool {
    &&& e.len() < i32::MAX
    &&& forall|k: BVec| #[trigger] m.contains_key(k) ==> coords_inner(k)
    &&& forall|i: int| 0 <= i < e.len() && (#[trigger] e[i]).1 != Sprite::Wall ==> group_size(e, m, i) != 12
}

/// Whether popping can be asked of the board (see `can_pop`).
pub fn can_pop_now(board: &Board) -> (r: bool)
    requires
        board.wf(),
    ensures
        r == can_pop(board.entries(), board@),
{
    let ghost e = board.entries();
    let ghost m = board@;
    proof {
        board.lemma_view();
    }
    let n = board.len();
    if n >= 0x7fff_ffff {
        return false;
    }
    let mut i: usize = 0;
    while i < n
        invariant
            e == board.entries(),
            m == board@,
            m == cells_map(e),
            keys_unique(e),
            n == e.len(),
            i <= n,
            forall|j: int| 0 <= j < i ==> coords_inner(#[trigger] e[j].0),
        decreases n - i,
    {
        let (p, _c) = board.entry(i);
        if !(i32::MIN < p.x && p.x < i32::MAX && i32::MIN < p.y && p.y < i32::MAX) {
            proof {
                lemma_cells_map_at(e, i as int);
            }
            return false;
        }
        i = i + 1;
    }
    assert forall|k: BVec| #[trigger] m.contains_key(k) implies coords_inner(k) by {
        let j = choose|j: int| 0 <= j < e.len() && (#[trigger] e[j]).0 == k;
        assert(coords_inner(e[j].0));
    }
    let mut i: usize = 0;
    while i < n
        invariant
            board.wf(),
            e == board.entries(),
            m == board@,
            m == cells_map(e),
            n == e.len(),
            i <= n,
            forall|k: BVec| #[trigger] m.contains_key(k) ==> coords_inner(k),
            forall|j: int| 0 <= j < i && (#[trigger] e[j]).1 != Sprite::Wall ==> group_size(e, m, j) != 12,
        decreases n - i,
    {
        let (p, c) = board.entry(i);
        if c != Sprite::Wall {
            proof {
                lemma_cells_map_at(e, i as int);
            }
            let vis = collect_group(board, p, c);
            proof {
                vis@.unique_seq_to_set();
            }
            if vis.len() == 12 {
                return false;
            }
        }
        i = i + 1;
    }
    true
}

/// Whether `v` holds `x`.
fn sprite_vec_contains(v: &Vec<Sprite>, x: Sprite) -> (r: bool)
    ensures
        r == v@.contains(x),
{
    let mut i: usize = 0;
    while i < v.len()
        invariant
            i <= v@.len(),
            forall|j: int| 0 <= j < i ==> v@[j] != x,
        decreases v@.len() - i,
    {
        if v[i] == x {
            return true;
        }
        i = i + 1;
    }
    false
}

/// Removes the blobs of every group of four or more, going through the entries in order.
/// Gives whether anything popped, how many blobs were cleared, the colours popped (each
/// once) and the group bonus of each popped group (in entry order).
pub fn pop_groups(board: &mut Board, tables: &Tables) -> (r: (bool, i32, Vec<Sprite>, Vec<i32>))
    requires
        old(board).wf(),
        tables.wf(),
        can_pop(old(board).entries(), old(board)@),
    ensures
        final(board).wf(),
        final(board)@ == after_pop(old(board)@),
        r.0 == exists|j: int| #[trigger] first_big(old(board).entries(), old(board)@, j),
        r.1 == old(board).entries().len() - final(board).entries().len(),
        r.1 == popped_total(old(board).entries(), old(board)@, old(board).entries().len() as int),
        r.2@.no_duplicates(),
        r.2@.len() == colors_before(old(board).entries(), old(board)@, old(board).entries().len() as int).len(),
        r.2@.to_set() == colors_before(old(board).entries(), old(board)@, old(board).entries().len() as int),
        r.3@ == bonus_list(old(board).entries(), old(board)@, old(board).entries().len() as int),
{
    let ghost e = board.entries();
    let ghost m = board@;
    let snap = board.copy();
    proof {
        board.lemma_view();
        assert(board_of(e, m));
        assert(board@ =~= remaining(e, m, 0));
        assert(colors_before(e, m, 0) =~= Set::<Sprite>::empty());
    }
    let n = snap.len();
    let mut popped = false;
    let mut cleared: i32 = 0;
    let mut colors: Vec<Sprite> = Vec::new();
    let mut gbs: Vec<i32> = Vec::new();
    let mut i: usize = 0;
    while i < n
        invariant
            n == e.len(),
            snap.entries() == e,
            board_of(e, m),
            can_pop(e, m),
            tables.wf(),
            i <= n,
            board.wf(),
            board@ == remaining(e, m, i as int),
            cleared == e.len() - board.entries().len(),
            cleared == popped_total(e, m, i as int),
            board.entries().len() <= e.len(),
            popped == exists|j: int| 0 <= j < i && #[trigger] first_big(e, m, j),
            colors@.no_duplicates(),
            colors@.to_set() == colors_before(e, m, i as int),
            gbs@ == bonus_list(e, m, i as int),
        decreases n - i,
    {
        let (b, c) = snap.entry(i);
        let ghost cur = board@;
        let ghost ii = i as int;
        if c == Sprite::Wall {
            proof {
                lemma_remaining_next(e, m, ii);
                assert(colors_before(e, m, ii + 1) =~= colors_before(e, m, ii));
                assert(popped == exists|j: int| 0 <= j < i + 1 && #[trigger] first_big(e, m, j)) by {
                    if exists|j: int| 0 <= j < i + 1 && #[trigger] first_big(e, m, j) {
                        let j = choose|j: int| 0 <= j < i + 1 && #[trigger] first_big(e, m, j);
                        assert(j != ii);
                    }
                }
            }
            i = i + 1;
            continue;
        }
        proof {
            lemma_cells_map_at(e, ii);
            lemma_remaining_sub(e, m, ii);
            board.lemma_view();
        }
        let vis = collect_group(board, b, c);
        proof {
            vis@.unique_seq_to_set();
            if removed_before(e, m, ii, b) {
                lemma_group_removed(e, m, ii, ii);
                assert(vis@.len() == 1) by {
                    assert(vis@.to_set().len() == Set::<BVec>::empty().insert(b).len());
                }
            } else {
                lemma_group_stable(e, m, ii, ii);
                lemma_first_big_iff(e, m, ii);
            }
        }
        let count = vis.len() as i32;
        proof {
            lemma_remaining_next(e, m, ii);
        }
        if count >= 4 {
            let ghost g = group(m, c, b);
            let ghost len0 = board.entries().len();
            proof {
                assert(!removed_before(e, m, ii, b));
                assert forall|q: int| 0 <= q < vis@.len() implies cur.contains_key(#[trigger] vis@[q]) by {
                    let t = vis@[q];
                    assert(vis@.to_set().contains(t));
                    if t != b {
                        lemma_member_color(cur, c, b, t);
                    }
                }
            }
            let mut k: usize = 0;
            while k < vis.len()
                invariant
                    board.wf(),
                    k <= vis@.len(),
                    vis@.no_duplicates(),
                    vis@.to_set() == g,
                    forall|q: int| 0 <= q < vis@.len() ==> cur.contains_key(#[trigger] vis@[q]),
                    board@ == cur.remove_keys(vis@.take(k as int).to_set()),
                    board.entries().len() == len0 - k,
                decreases vis@.len() - k,
            {
                let v = vis[k];
                proof {
                    assert(!vis@.take(k as int).to_set().contains(v)) by {
                        if vis@.take(k as int).to_set().contains(v) {
                            let q = choose|q: int| 0 <= q < k && vis@.take(k as int)[q] == v;
                            assert(vis@[q] == vis@[k as int]);
                        }
                    }
                    assert(board@.contains_key(v));
                }
                board.remove(&v);
                proof {
                    assert(vis@.take(k + 1).to_set() =~= vis@.take(k as int).to_set().insert(v)) by {
                        assert(vis@.take(k + 1) =~= vis@.take(k as int).push(v));
                        vis@.take(k as int).lemma_push_to_set_commute(v);
                    }
                    assert(board@ =~= cur.remove_keys(vis@.take(k + 1).to_set()));
                }
                k = k + 1;
            }
            proof {
                assert(vis@.take(vis@.len() as int) =~= vis@);
                assert(board@ =~= remaining(e, m, ii + 1));
            }
            cleared = cleared + count;
            let ghost old_colors = colors@;
            if !sprite_vec_contains(&colors, c) {
                colors.push(c);
                proof {
                    old_colors.lemma_push_to_set_commute(c);
                    assert(colors@.no_duplicates()) by {
                        assert forall|x: int, y: int| 0 <= x < colors@.len() && 0 <= y < colors@.len() && x != y implies colors@[x] != colors@[y] by {
                            if x < old_colors.len() && y < old_colors.len() {
                                assert(colors@[x] == old_colors[x] && colors@[y] == old_colors[y]);
                            } else if x < old_colors.len() {
                                assert(colors@[x] == old_colors[x]);
                                assert(old_colors.contains(colors@[x]));
                            } else if y < old_colors.len() {
                                assert(colors@[y] == old_colors[y]);
                                assert(old_colors.contains(colors@[y]));
                            }
                        }
                    }
                }
            } else {
                proof {
                    assert(old_colors.to_set().contains(c));
                    assert(old_colors.to_set().insert(c) =~= old_colors.to_set());
                }
            }
            let gb = tables.get_gb(count - 4);
            gbs.push(gb);
            popped = true;
            proof {
                assert(colors_before(e, m, ii + 1) =~= colors_before(e, m, ii).insert(c)) by {
                    assert forall|s: Sprite| colors_before(e, m, ii + 1).contains(s) implies colors_before(e, m, ii).insert(c).contains(s) by {
                        let j = choose|j: int| 0 <= j < ii + 1 && #[trigger] first_big(e, m, j) && e[j].1 == s;
                        if j < ii {
                            assert(colors_before(e, m, ii).contains(s));
                        }
                    }
                    assert forall|s: Sprite| colors_before(e, m, ii).insert(c).contains(s) implies colors_before(e, m, ii + 1).contains(s) by {
                        if s == c {
                            assert(first_big(e, m, ii) && e[ii].1 == s);
                        } else {
                            let j = choose|j: int| 0 <= j < ii && #[trigger] first_big(e, m, j) && e[j].1 == s;
                            assert(0 <= j < ii + 1);
                        }
                    }
                }
                assert(colors@.to_set() =~= colors_before(e, m, ii).insert(c));
                assert(first_big(e, m, ii));
            }
        } else {
            proof {
                assert(!first_big(e, m, ii));
                assert(colors_before(e, m, ii + 1) =~= colors_before(e, m, ii)) by {
                    assert forall|s: Sprite| colors_before(e, m, ii + 1).contains(s) implies colors_before(e, m, ii).contains(s) by {
                        let j = choose|j: int| 0 <= j < ii + 1 && #[trigger] first_big(e, m, j) && e[j].1 == s;
                        assert(j != ii);
                    }
                }
                assert(popped == exists|j: int| 0 <= j < i + 1 && #[trigger] first_big(e, m, j)) by {
                    if exists|j: int| 0 <= j < i + 1 && #[trigger] first_big(e, m, j) {
                        let j = choose|j: int| 0 <= j < i + 1 && #[trigger] first_big(e, m, j);
                        assert(j != ii);
                    }
                }
            }
        }
        i = i + 1;
    }
    proof {
        assert forall|p: BVec| #[trigger] m.contains_key(p) implies (removed_before(e, m, n as int, p) <==> pops(m, p)) by {
            lemma_removed_all(e, m, p);
        }
        assert(board@ =~= after_pop(m));
        assert(popped == exists|j: int| #[trigger] first_big(e, m, j));
        colors@.unique_seq_to_set();
    }
    (popped, cleared, colors, gbs)
}

} // verus!
