//! Gravity on a board: blobs fall straight down onto whatever lies below them.
use vstd::prelude::*;
use crate::vectors::BVec;
use crate::board::{Board, has_key, keys_unique};
use crate::Sprite;

verus! {

/// The cell `(x, y)`.
pub open spec fn at(x: i32, y: int) -> BVec {
    BVec { x, y: y as i32 }
}

/// The cell right below `p`.
pub open spec fn below(p: BVec) -> BVec {
    at(p.x, p.y + 1)
}

/// Every blob (every entry that is not a wall) rests on an occupied cell.
pub open spec fn settled(e: Seq<(BVec, Sprite)>) -> bool {
    forall|i: int|
        0 <= i < e.len() && (#[trigger] e[i]).1 != Sprite::Wall ==> e[i].0.y < i32::MAX && has_key(
            e,
            below(e[i].0),
        )
}

/// Entry `j` is a wall below entry `i`, in its column.
pub open spec fn wall_under(e: Seq<(BVec, Sprite)>, i: int, j: int) -> bool {
    &&& 0 <= j < e.len()
    &&& e[j].1 == Sprite::Wall
    &&& e[j].0.x == e[i].0.x
    &&& e[j].0.y > e[i].0.y
}

/// Below every blob, somewhere in its column, there is a wall.
pub open spec fn grounded(e: Seq<(BVec, Sprite)>) -> bool {
    forall|i: int|
        0 <= i < e.len() && (#[trigger] e[i]).1 != Sprite::Wall ==> exists|j: int|
            #[trigger] wall_under(e, i, j)
}

/// `b` is `a` after some blobs fell: every entry keeps its sprite and column, walls stay,
/// blobs only move down, and no blob passes another in its column.
pub open spec fn fall(a: Seq<(BVec, Sprite)>, b: Seq<(BVec, Sprite)>) -> bool {
    &&& a.len() == b.len()
    &&& forall|i: int|
        0 <= i < a.len() ==> (#[trigger] b[i]).1 == a[i].1 && b[i].0.x == a[i].0.x && b[i].0.y
            >= a[i].0.y && (a[i].1 == Sprite::Wall ==> b[i].0 == a[i].0)
    &&& forall|i: int, j: int|
        0 <= i < a.len() && 0 <= j < a.len() && (#[trigger] a[i]).0.x == (#[trigger] a[j]).0.x
            && a[i].0.y < a[j].0.y ==> b[i].0.y < b[j].0.y
}

/// How far the blobs are from the bottom of the `i32` range, summed: each fall lowers it.
pub open spec fn potential(e: Seq<(BVec, Sprite)>) -> int
    decreases e.len(),
{
    if e.len() == 0 {
        0
    } else {
        potential(e.drop_last()) + if e.last().1 != Sprite::Wall {
            i32::MAX - e.last().0.y
        } else {
            0
        }
    }
}

/// The potential is never negative.
pub proof fn lemma_potential_nonneg(e: Seq<(BVec, Sprite)>)
    ensures
        potential(e) >= 0,
    decreases e.len(),
{
    if e.len() > 0 {
        lemma_potential_nonneg(e.drop_last());
    }
}

pub proof fn lemma_fall_refl(a: Seq<(BVec, Sprite)>)
    ensures
        fall(a, a),
{
}

pub proof fn lemma_fall_trans(a: Seq<(BVec, Sprite)>, b: Seq<(BVec, Sprite)>, c: Seq<(BVec, Sprite)>)
    requires
        fall(a, b),
        fall(b, c),
    ensures
        fall(a, c),
{
    assert forall|i: int, j: int|
        0 <= i < a.len() && 0 <= j < a.len() && (#[trigger] a[i]).0.x == (#[trigger] a[j]).0.x
            && a[i].0.y < a[j].0.y implies c[i].0.y < c[j].0.y by {
        assert(b[i].0.x == b[j].0.x);
        assert(b[i].0.y < b[j].0.y);
    }
}

/// Moving blob `i` down to `p` over free cells is a fall.
pub proof fn lemma_fall_step(e: Seq<(BVec, Sprite)>, i: int, p: BVec)
    requires
        keys_unique(e),
        0 <= i < e.len(),
        e[i].1 != Sprite::Wall,
        p.x == e[i].0.x,
        p.y >= e[i].0.y,
        forall|t: int| e[i].0.y < t <= p.y ==> !has_key(e, #[trigger] at(p.x, t)),
    ensures
        fall(e, e.update(i, (p, e[i].1))),
{
    let b = e.update(i, (p, e[i].1));
    assert forall|a: int, c: int|
        0 <= a < e.len() && 0 <= c < e.len() && (#[trigger] e[a]).0.x == (#[trigger] e[c]).0.x
            && e[a].0.y < e[c].0.y implies b[a].0.y < b[c].0.y by {
        if a == i && c != i {
            if e[c].0.y <= p.y {
                assert(at(p.x, e[c].0.y as int) == e[c].0);
                assert(has_key(e, at(p.x, e[c].0.y as int)));
            }
        }
    }
}

/// Below any blob of a fall of a grounded board there is still a wall.
pub proof fn lemma_fall_grounded(a: Seq<(BVec, Sprite)>, b: Seq<(BVec, Sprite)>)
    requires
        fall(a, b),
        grounded(a),
    ensures
        grounded(b),
{
    assert forall|i: int| 0 <= i < b.len() && (#[trigger] b[i]).1 != Sprite::Wall implies exists|j: int|
        #[trigger] wall_under(b, i, j) by {
        assert(a[i].1 != Sprite::Wall);
        let j = choose|j: int| #[trigger] wall_under(a, i, j);
        assert(b[j].1 == Sprite::Wall);
        assert(b[j] == a[j]);
        assert(wall_under(b, i, j));
    }
}

/// A fall does not raise the potential, and lowers it when a blob moved.
pub proof fn lemma_fall_potential(a: Seq<(BVec, Sprite)>, b: Seq<(BVec, Sprite)>, k: int)
    requires
        fall(a, b),
    ensures
        potential(b) <= potential(a),
        0 <= k < a.len() && a[k].1 != Sprite::Wall && b[k].0.y > a[k].0.y ==> potential(b)
            < potential(a),
    decreases a.len(),
{
    if a.len() > 0 {
        let a1 = a.drop_last();
        let b1 = b.drop_last();
        assert(fall(a1, b1)) by {
            assert forall|i: int, j: int|
                0 <= i < a1.len() && 0 <= j < a1.len() && (#[trigger] a1[i]).0.x == (
                #[trigger] a1[j]).0.x && a1[i].0.y < a1[j].0.y implies b1[i].0.y < b1[j].0.y by {
                assert(a[i] == a1[i] && a[j] == a1[j]);
            }
        }
        lemma_fall_potential(a1, b1, k);
        let n = a.len() - 1;
        assert(b[n].1 == a[n].1);
    }
}

/// One pass of gravity: each blob, in entry order, falls until the cell below it is
/// occupied. Gives whether any blob moved, which is exactly when some blob did not rest on
/// an occupied cell.
pub fn gravity_pass(board: &mut Board) -> (moved: bool)
    requires
        old(board).wf(),
        grounded(old(board).entries()),
    ensures
        final(board).wf(),
        grounded(final(board).entries()),
        fall(old(board).entries(), final(board).entries()),
        moved == !settled(old(board).entries()),
        !moved ==> final(board).entries() == old(board).entries(),
        moved ==> potential(final(board).entries()) < potential(old(board).entries()),
{
    let ghost e0 = board.entries();
    let mut moved = false;
    let ghost mut mk: int = 0;
    let n = board.len();
    let mut i: usize = 0;
    proof {
        lemma_fall_refl(e0);
    }
    while i < n
        invariant
            n == e0.len(),
            i <= n,
            board.wf(),
            board.entries().len() == n,
            fall(e0, board.entries()),
            grounded(board.entries()),
            moved ==> !settled(e0),
            moved ==> 0 <= mk < n && e0[mk].1 != Sprite::Wall && board.entries()[mk].0.y > e0[mk].0.y,
            !moved ==> board.entries() == e0,
            !moved ==> forall|j: int|
                0 <= j < i && (#[trigger] e0[j]).1 != Sprite::Wall ==> e0[j].0.y < i32::MAX
                    && has_key(e0, below(e0[j].0)),
        decreases n - i,
    {
        let ghost e = board.entries();
        let (b, c) = board.entry(i);
        if c != Sprite::Wall {
            proof {
                board.lemma_view();
                assert(e[i as int].1 != Sprite::Wall);
            }
            let ghost w = choose|j: int| #[trigger] wall_under(e, i as int, j);
            let ghost yw = e[w].0.y as int;
            let mut yy: i32 = b.y + 1;
            while !board.contains_key(&BVec::new(b.x, yy))
                invariant
                    board.wf(),
                    board.entries() == e,
                    0 <= w < e.len(),
                    e[w].0 == at(b.x, yw),
                    b.y < yy <= yw,
                    yw <= i32::MAX,
                    forall|t: int| b.y < t < yy ==> !has_key(e, #[trigger] at(b.x, t)),
                decreases yw - yy,
            {
                proof {
                    board.lemma_view();
                    assert(has_key(e, e[w].0));
                    if yy == yw {
                        assert(at(b.x, yy as int) == e[w].0);
                    }
                }
                yy = yy + 1;
            }
            let p = BVec::new(b.x, yy - 1);
            proof {
                board.lemma_view();
                assert(has_key(e, at(b.x, yy as int)));
                if p != b {
                    assert(!has_key(e, at(b.x, p.y as int)));
                    assert(at(b.x, p.y as int) == p);
                }
                lemma_fall_step(e, i as int, p);
                lemma_fall_trans(e0, e, e.update(i as int, (p, c)));
                lemma_fall_grounded(e, e.update(i as int, (p, c)));
            }
            board.set_key(i, p);
            if p.y != b.y {
                proof {
                    if !moved {
                        assert(!has_key(e0, below(e0[i as int].0))) by {
                            assert(below(b) == at(b.x, b.y + 1));
                        }
                        mk = i as int;
                    }
                }
                moved = true;
            } else {
                proof {
                    assert(p == b);
                    assert(below(b) == at(b.x, yy as int));
                }
            }
        }
        i = i + 1;
    }
    proof {
        if moved {
            lemma_fall_potential(e0, board.entries(), mk);
        }
    }
    moved
}

/// Whether every blob of the board rests on an occupied cell.
pub fn is_settled(board: &Board) -> (r: bool)
    requires
        board.wf(),
    ensures
        r == settled(board.entries()),
{
    let ghost e = board.entries();
    proof {
        board.lemma_view();
    }
    let n = board.len();
    let mut i: usize = 0;
    while i < n
        invariant
            board.wf(),
            e == board.entries(),
            board@ == crate::board::cells_map(e),
            n == e.len(),
            i <= n,
            forall|j: int|
                0 <= j < i && (#[trigger] e[j]).1 != Sprite::Wall ==> e[j].0.y < i32::MAX && has_key(
                    e,
                    below(e[j].0),
                ),
        decreases n - i,
    {
        let (p, c) = board.entry(i);
        if c != Sprite::Wall {
            if p.y == i32::MAX {
                return false;
            }
            let q = BVec::new(p.x, p.y + 1);
            assert(q == below(p));
            if !board.contains_key(&q) {
                return false;
            }
        }
        i = i + 1;
    }
    true
}

/// Whether below every blob of the board, somewhere in its column, there is a wall.
pub fn is_grounded(board: &Board) -> (r: bool)
    requires
        board.wf(),
    ensures
        r == grounded(board.entries()),
{
    let ghost e = board.entries();
    let n = board.len();
    let mut i: usize = 0;
    while i < n
        invariant
            e == board.entries(),
            n == e.len(),
            i <= n,
            forall|k: int|
                0 <= k < i && (#[trigger] e[k]).1 != Sprite::Wall ==> exists|j: int|
                    #[trigger] wall_under(e, k, j),
        decreases n - i,
    {
        let (p, c) = board.entry(i);
        if c != Sprite::Wall {
            let mut found = false;
            let mut j: usize = 0;
            while j < n
                invariant
                    e == board.entries(),
                    n == e.len(),
                    i < n,
                    j <= n,
                    p == e[i as int].0,
                    found ==> exists|w: int| #[trigger] wall_under(e, i as int, w),
                    !found ==> forall|w: int| 0 <= w < j ==> !#[trigger] wall_under(e, i as int, w),
                decreases n - j,
            {
                let (q, d) = board.entry(j);
                if d == Sprite::Wall && q.x == p.x && q.y > p.y {
                    assert(wall_under(e, i as int, j as int));
                    found = true;
                }
                j = j + 1;
            }
            if !found {
                assert(!exists|w: int| #[trigger] wall_under(e, i as int, w));
                return false;
            }
        }
        i = i + 1;
    }
    true
}

} // verus!
