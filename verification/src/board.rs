//! A board: a finite map from positions to sprites, kept as a list of distinct entries.
use vstd::prelude::*;
use crate::vectors::BVec;
use crate::Sprite;

verus! {

/// Whether some entry of `cells` sits at `k`.
pub open spec fn has_key(cells: Seq<(BVec, Sprite)>, k: BVec) -> bool {
    exists|i: int| 0 <= i < cells.len() && (#[trigger] cells[i]).0 == k
}

/// No two entries share a position.
pub open spec fn keys_unique(cells: Seq<(BVec, Sprite)>) -> bool {
    forall|i: int, j: int|
        0 <= i < cells.len() && 0 <= j < cells.len() && i != j ==> (#[trigger] cells[i]).0 != (
        #[trigger] cells[j]).0
}

/// The index of the entry at `k`.
pub open spec fn index_of(cells: Seq<(BVec, Sprite)>, k: BVec) -> int {
    choose|i: int| 0 <= i < cells.len() && (#[trigger] cells[i]).0 == k
}

/// The entries read as a map from positions to sprites.
pub open spec fn cells_map(cells: Seq<(BVec, Sprite)>) -> Map<BVec, Sprite> {
    Map::new(|k: BVec| has_key(cells, k), |k: BVec| cells[index_of(cells, k)].1)
}

/// With distinct positions, the map holds each entry's sprite at its position.
pub proof fn lemma_cells_map_at(cells: Seq<(BVec, Sprite)>, i: int)
    requires
        keys_unique(cells),
        0 <= i < cells.len(),
    ensures
        cells_map(cells).contains_key(cells[i].0),
        cells_map(cells)[cells[i].0] == cells[i].1,
{
    assert(has_key(cells, cells[i].0));
    let j = index_of(cells, cells[i].0);
    assert(cells[j].0 == cells[i].0);
}

/// A board holds finitely many positions.
pub proof fn lemma_cells_map_finite(cells: Seq<(BVec, Sprite)>)
    ensures
        cells_map(cells).dom().finite(),
{
    let keys = cells.map_values(|c: (BVec, Sprite)| c.0);
    assert forall|k: BVec| cells_map(cells).dom().contains(k) implies keys.to_set().contains(k) by {
        let i = choose|i: int| 0 <= i < cells.len() && (#[trigger] cells[i]).0 == k;
        assert(keys[i] == k);
    }
    vstd::seq_lib::seq_to_set_is_finite(keys);
    vstd::set_lib::lemma_len_subset(cells_map(cells).dom(), keys.to_set());
}

/// A board of sprites.
pub struct Board {
    cells: Vec<(BVec, Sprite)>,
}

impl View for Board {
    type V = Map<BVec, Sprite>;

    closed spec fn view(&self) -> Map<BVec, Sprite> {
        cells_map(self.cells@)
    }
}

impl Board {
    /// The board's entries, in their stored order.
    pub closed spec fn entries(&self) -> Seq<(BVec, Sprite)> {
        self.cells@
    }

    /// The board's internal consistency: no two entries share a position.
    pub open spec fn wf(&self) -> bool {
        keys_unique(self.entries())
    }

    /// The view is the map of the entries.
    pub proof fn lemma_view(&self)
        ensures
            self@ == cells_map(self.entries()),
    {
    }

    /// An empty board.
    pub fn new() -> (r: Board)
        ensures
            r.wf(),
            r.entries() == Seq::<(BVec, Sprite)>::empty(),
            r@ == Map::<BVec, Sprite>::empty(),
    {
        let r = Board { cells: Vec::new() };
        assert(r@ =~= Map::<BVec, Sprite>::empty());
        r
    }

    /// The number of entries.
    pub fn len(&self) -> (r: usize)
        ensures
            r == self.entries().len(),
    {
        self.cells.len()
    }

    /// The entry at index `i`.
    pub fn entry(&self, i: usize) -> (r: (BVec, Sprite))
        requires
            i < self.entries().len(),
        ensures
            r == self.entries()[i as int],
    {
        self.cells[i]
    }

    /// The index of the entry at `k`, if there is one.
    pub fn find(&self, k: &BVec) -> (r: Option<usize>)
        ensures
            r matches Some(i) ==> i < self.entries().len() && self.entries()[i as int].0 == *k,
            r is None <==> !has_key(self.entries(), *k),
    {
        let mut i: usize = 0;
        while i < self.cells.len()
            invariant
                i <= self.cells@.len(),
                forall|j: int| 0 <= j < i ==> (#[trigger] self.cells@[j]).0 != *k,
            decreases self.cells@.len() - i,
        {
            if self.cells[i].0 == *k {
                return Some(i);
            }
            i = i + 1;
        }
        None
    }

    /// Whether some entry sits at `k`.
    pub fn contains_key(&self, k: &BVec) -> (r: bool)
        requires
            self.wf(),
        ensures
            r == self@.contains_key(*k),
    {
        self.find(k).is_some()
    }

    /// The sprite at `k`, if any.
    pub fn get(&self, k: &BVec) -> (r: Option<Sprite>)
        requires
            self.wf(),
        ensures
            r == if self@.contains_key(*k) {
                Some(self@[*k])
            } else {
                None
            },
    {
        match self.find(k) {
            Some(i) => {
                proof { lemma_cells_map_at(self.cells@, i as int); }
                Some(self.cells[i].1)
            },
            None => None,
        }
    }

    /// Puts `v` at `k`, replacing what was there.
    pub fn insert(&mut self, k: BVec, v: Sprite)
        requires
            old(self).wf(),
        ensures
            final(self).wf(),
            final(self)@ == old(self)@.insert(k, v),
    {
        match self.find(&k) {
            Some(i) => {
                let ghost old_cells = self.cells@;
                self.cells.set(i, (k, v));
                proof {
                    assert forall|q: BVec| has_key(self.cells@, q) == has_key(old_cells, q) by {
                        if has_key(old_cells, q) {
                            let j = choose|j: int| 0 <= j < old_cells.len() && (#[trigger] old_cells[j]).0 == q;
                            assert(self.cells@[j].0 == q);
                        }
                        if has_key(self.cells@, q) {
                            let j = choose|j: int| 0 <= j < self.cells@.len() && (#[trigger] self.cells@[j]).0 == q;
                            assert(old_cells[j].0 == q);
                        }
                    }
                    assert forall|q: BVec| #[trigger] self@.contains_key(q) implies self@[q]
                        == old_cells_map_insert(old_cells, k, v)[q] by {
                        let j = index_of(self.cells@, q);
                        lemma_cells_map_at(self.cells@, j);
                        if q != k {
                            lemma_cells_map_at(old_cells, j);
                        }
                    }
                    assert(self@ =~= cells_map(old_cells).insert(k, v));
                }
            },
            None => {
                let ghost old_cells = self.cells@;
                self.cells.push((k, v));
                proof {
                    let n = old_cells.len() as int;
                    assert forall|q: BVec| has_key(self.cells@, q) == (has_key(old_cells, q) || q == k) by {
                        if has_key(old_cells, q) {
                            let j = choose|j: int| 0 <= j < old_cells.len() && (#[trigger] old_cells[j]).0 == q;
                            assert(self.cells@[j].0 == q);
                        }
                        if q == k {
                            assert(self.cells@[n].0 == q);
                        }
                        if has_key(self.cells@, q) && q != k {
                            let j = choose|j: int| 0 <= j < self.cells@.len() && (#[trigger] self.cells@[j]).0 == q;
                            assert(old_cells[j].0 == q);
                        }
                    }
                    assert forall|q: BVec| #[trigger] self@.contains_key(q) implies self@[q]
                        == old_cells_map_insert(old_cells, k, v)[q] by {
                        let j = index_of(self.cells@, q);
                        lemma_cells_map_at(self.cells@, j);
                        if q != k {
                            lemma_cells_map_at(old_cells, j);
                        }
                    }
                    assert(self@ =~= cells_map(old_cells).insert(k, v));
                }
            },
        }
    }

    /// Removes the entry at `k`, if any.
    pub fn remove(&mut self, k: &BVec)
        requires
            old(self).wf(),
        ensures
            final(self).wf(),
            final(self)@ == old(self)@.remove(*k),
            final(self).entries().len() == if old(self)@.contains_key(*k) {
                old(self).entries().len() - 1
            } else {
                old(self).entries().len() as int
            },
    {
        match self.find(k) {
            Some(i) => {
                let ghost old_cells = self.cells@;
                let _ = self.cells.remove(i);
                proof {
                    let nc = self.cells@;
                    assert forall|a: int| 0 <= a < nc.len() implies #[trigger] nc[a] == old_cells[
                        if a < i { a } else { a + 1 }] by {}
                    assert forall|q: BVec| has_key(nc, q) == (has_key(old_cells, q) && q != *k) by {
                        if has_key(old_cells, q) && q != *k {
                            let j = choose|j: int| 0 <= j < old_cells.len() && (#[trigger] old_cells[j]).0 == q;
                            assert(j != i);
                            let a = if j < i { j } else { j - 1 };
                            assert(nc[a].0 == q);
                        }
                        if has_key(nc, q) {
                            let a = choose|a: int| 0 <= a < nc.len() && (#[trigger] nc[a]).0 == q;
                            let j = if a < i { a } else { a + 1 };
                            assert(old_cells[j].0 == q);
                        }
                    }
                    assert forall|q: BVec| #[trigger] self@.contains_key(q) implies self@[q]
                        == cells_map(old_cells)[q] by {
                        let a = index_of(nc, q);
                        lemma_cells_map_at(nc, a);
                        let j = if a < i { a } else { a + 1 };
                        lemma_cells_map_at(old_cells, j);
                    }
                    assert(self@ =~= cells_map(old_cells).remove(*k));
                }
            },
            None => {
                assert(self@ =~= self@.remove(*k));
            },
        }
    }

    /// Moves entry `i` to the free position `k`, keeping its sprite and its index.
    pub fn set_key(&mut self, i: usize, k: BVec)
        requires
            old(self).wf(),
            i < old(self).entries().len(),
            k == old(self).entries()[i as int].0 || !has_key(old(self).entries(), k),
        ensures
            final(self).wf(),
            final(self).entries() == old(self).entries().update(
                i as int,
                (k, old(self).entries()[i as int].1),
            ),
            final(self)@ == old(self)@.remove(old(self).entries()[i as int].0).insert(
                k,
                old(self).entries()[i as int].1,
            ),
    {
        let ghost old_cells = self.cells@;
        let v = self.cells[i].1;
        self.cells.set(i, (k, v));
        proof {
            let nc = self.cells@;
            let k0 = old_cells[i as int].0;
            assert forall|a: int, b: int|
                0 <= a < nc.len() && 0 <= b < nc.len() && a != b implies (#[trigger] nc[a]).0 != (
                #[trigger] nc[b]).0 by {
                if a == i {
                    assert(old_cells[b].0 == nc[b].0);
                    if k != k0 {
                        assert(has_key(old_cells, nc[b].0));
                    }
                } else if b == i {
                    assert(old_cells[a].0 == nc[a].0);
                    if k != k0 {
                        assert(has_key(old_cells, nc[a].0));
                    }
                }
            }
            assert forall|q: BVec| has_key(nc, q) == ((has_key(old_cells, q) && q != k0) || q == k) by {
                if has_key(old_cells, q) && q != k0 {
                    let j = choose|j: int| 0 <= j < old_cells.len() && (#[trigger] old_cells[j]).0 == q;
                    assert(nc[j].0 == q);
                }
                if q == k {
                    assert(nc[i as int].0 == q);
                }
                if has_key(nc, q) && q != k {
                    let j = choose|j: int| 0 <= j < nc.len() && (#[trigger] nc[j]).0 == q;
                    assert(old_cells[j].0 == q);
                    assert(j != i);
                }
            }
            assert forall|q: BVec| #[trigger] self@.contains_key(q) implies self@[q]
                == cells_map(old_cells).remove(k0).insert(k, v)[q] by {
                let j = index_of(nc, q);
                lemma_cells_map_at(nc, j);
                if q != k {
                    lemma_cells_map_at(old_cells, j);
                }
            }
            assert(self@ =~= cells_map(old_cells).remove(k0).insert(k, v));
        }
    }

    /// An equal copy of this board.
    pub fn copy(&self) -> (r: Board)
        ensures
            r.entries() == self.entries(),
            r@ == self@,
    {
        let mut cells: Vec<(BVec, Sprite)> = Vec::new();
        let mut i: usize = 0;
        while i < self.cells.len()
            invariant
                i <= self.cells@.len(),
                cells@ == self.cells@.take(i as int),
            decreases self.cells@.len() - i,
        {
            cells.push(self.cells[i]);
            i = i + 1;
            assert(cells@ =~= self.cells@.take(i as int));
        }
        assert(cells@ =~= self.cells@);
        Board { cells }
    }
}

/// The map of `cells` with `v` put at `k`.
pub open spec fn old_cells_map_insert(cells: Seq<(BVec, Sprite)>, k: BVec, v: Sprite) -> Map<
    BVec,
    Sprite,
> {
    cells_map(cells).insert(k, v)
}

} // verus!
