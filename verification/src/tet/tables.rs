//! The wall-kick offset tables of the falling-tetromino game.
use vstd::prelude::*;
use crate::vectors::BVec;
use super::enums::{Rotation, Shapes, rotation_index};

verus! {

/// The cell offset `(x, y)`.
pub open spec fn off(x: int, y: int) -> BVec {
    BVec { x: x as i32, y: y as i32 }
}

/// The offsets of the J, L, S, T and Z pieces: five per orientation, `Up` first.
pub open spec fn offsets_gen() -> Seq<BVec> {
    seq![
        off(0, 0), off(0, 0), off(0, 0), off(0, 0), off(0, 0),
        off(0, 0), off(1, 0), off(1, -1), off(0, 2), off(1, 2),
        off(0, 0), off(0, 0), off(0, 0), off(0, 0), off(0, 0),
        off(0, 0), off(-1, 0), off(-1, -1), off(0, 2), off(-1, 2),
    ]
}

/// The offsets of the I piece: five per orientation, `Up` first.
pub open spec fn offsets_i() -> Seq<BVec> {
    seq![
        off(0, 0), off(-1, 0), off(2, 0), off(-1, 0), off(2, 0),
        off(-1, 0), off(0, 0), off(0, 0), off(0, 1), off(0, -2),
        off(-1, 1), off(1, 1), off(-2, 1), off(1, 0), off(-2, 0),
        off(0, 1), off(0, 1), off(0, 1), off(0, -1), off(0, 2),
    ]
}

/// The offsets of the O piece: one per orientation, `Up` first.
pub open spec fn offsets_o() -> Seq<BVec> {
    seq![off(0, 0), off(0, -1), off(-1, -1), off(-1, 0)]
}

/// The offset number `k` of `shape` in orientation `r` (for the O piece only the first
/// offset is not zero).
pub open spec fn offset_of(shape: Shapes, r: Rotation, k: int) -> BVec {
    match shape {
        Shapes::I => offsets_i()[5 * rotation_index(r) + k],
        Shapes::O => if k > 0 { off(0, 0) } else { offsets_o()[rotation_index(r)] },
        _ => offsets_gen()[5 * rotation_index(r) + k],
    }
}

/// The kick number `k` for turning `shape` from `ri` to `rf`: the difference of their
/// offsets.
pub open spec fn kick_of(shape: Shapes, ri: Rotation, rf: Rotation, k: int) -> BVec {
    let a = offset_of(shape, ri, k);
    let b = offset_of(shape, rf, k);
    BVec { x: (a.x - b.x) as i32, y: (a.y - b.y) as i32 }
}

/// Every offset is small.
pub open spec fn small(v: BVec) -> bool {
    -2 <= v.x <= 2 && -2 <= v.y <= 2
}

/// The kick tables.
pub struct Tables {
    tetr_offset_data: Vec<BVec>,
    tetr_offset_data_i: Vec<BVec>,
    tetr_offset_data_o: Vec<BVec>,
}

impl Tables {
    /// The tables hold the fixed offsets.
    pub closed spec fn wf(&self) -> bool {
        &&& self.tetr_offset_data@ == offsets_gen()
        &&& self.tetr_offset_data_i@ == offsets_i()
        &&& self.tetr_offset_data_o@ == offsets_o()
    }

    pub fn new() -> (r: Tables)
        ensures
            r.wf(),
    {
        let r = Tables {
            tetr_offset_data: vec![
                BVec::new(0, 0), BVec::new(0, 0), BVec::new(0, 0), BVec::new(0, 0), BVec::new(0, 0),
                BVec::new(0, 0), BVec::new(1, 0), BVec::new(1, -1), BVec::new(0, 2), BVec::new(1, 2),
                BVec::new(0, 0), BVec::new(0, 0), BVec::new(0, 0), BVec::new(0, 0), BVec::new(0, 0),
                BVec::new(0, 0), BVec::new(-1, 0), BVec::new(-1, -1), BVec::new(0, 2), BVec::new(-1, 2),
            ],
            tetr_offset_data_i: vec![
                BVec::new(0, 0), BVec::new(-1, 0), BVec::new(2, 0), BVec::new(-1, 0), BVec::new(2, 0),
                BVec::new(-1, 0), BVec::new(0, 0), BVec::new(0, 0), BVec::new(0, 1), BVec::new(0, -2),
                BVec::new(-1, 1), BVec::new(1, 1), BVec::new(-2, 1), BVec::new(1, 0), BVec::new(-2, 0),
                BVec::new(0, 1), BVec::new(0, 1), BVec::new(0, 1), BVec::new(0, -1), BVec::new(0, 2),
            ],
            tetr_offset_data_o: vec![BVec::new(0, 0), BVec::new(0, -1), BVec::new(-1, -1), BVec::new(-1, 0)],
        };
        assert(r.tetr_offset_data@ =~= offsets_gen());
        assert(r.tetr_offset_data_i@ =~= offsets_i());
        assert(r.tetr_offset_data_o@ =~= offsets_o());
        r
    }

    fn row_start(r: Rotation) -> (n: usize)
        ensures
            n == 5 * rotation_index(r),
    {
        match r {
            Rotation::Up => 0,
            Rotation::Right => 5,
            Rotation::Down => 10,
            Rotation::Left => 15,
        }
    }

    fn get_offset_gen(&self, r: Rotation, offset: usize) -> (v: BVec)
        requires
            self.wf(),
            5 * rotation_index(r) + offset < 20,
        ensures
            v == offsets_gen()[5 * rotation_index(r) + offset],
    {
        let r_index = Self::row_start(r);
        self.tetr_offset_data[r_index + offset]
    }

    fn get_offset_i(&self, r: Rotation, offset: usize) -> (v: BVec)
        requires
            self.wf(),
            5 * rotation_index(r) + offset < 20,
        ensures
            v == offsets_i()[5 * rotation_index(r) + offset],
    {
        let r_index = Self::row_start(r);
        self.tetr_offset_data_i[r_index + offset]
    }

    fn get_offset_o(&self, r: Rotation) -> (v: BVec)
        requires
            self.wf(),
        ensures
            v == offsets_o()[rotation_index(r)],
    {
        self.tetr_offset_data_o[match r {
            Rotation::Up => 0,
            Rotation::Right => 1,
            Rotation::Down => 2,
            Rotation::Left => 3,
        }]
    }

    /// The offset number `offset` of `shape` in orientation `r`.
    pub fn get_offset(&self, shape: Shapes, r: Rotation, offset: usize) -> (v: BVec)
        requires
            self.wf(),
            shape != Shapes::O ==> 5 * rotation_index(r) + offset < 20,
        ensures
            v == offset_of(shape, r, offset as int),
    {
        match shape {
            Shapes::I => self.get_offset_i(r, offset),
            Shapes::O => {
                if offset > 0 {
                    return BVec::new(0, 0);
                }
                self.get_offset_o(r)
            },
            _ => self.get_offset_gen(r, offset),
        }
    }

    /// The five kicks for turning `shape` from `r_i` to `r_f`, in the order they are tried.
    pub fn get_kicks(&self, r_i: &Rotation, r_f: &Rotation, shape: &Shapes) -> (v: Vec<BVec>)
        requires
            self.wf(),
        ensures
            v@.len() == 5,
            forall|k: int| 0 <= k < 5 ==> #[trigger] v@[k] == kick_of(*shape, *r_i, *r_f, k),
    {
        let mut v: Vec<BVec> = Vec::new();
        let mut offset: usize = 0;
        while offset < 5
            invariant
                self.wf(),
                offset <= 5,
                v@.len() == offset,
                forall|k: int| 0 <= k < offset ==> #[trigger] v@[k] == kick_of(*shape, *r_i, *r_f, k),
            decreases 5 - offset,
        {
            let a = self.get_offset(*shape, *r_i, offset);
            let b = self.get_offset(*shape, *r_f, offset);
            proof {
                lemma_offsets_small(*shape, *r_i, offset as int);
                lemma_offsets_small(*shape, *r_f, offset as int);
            }
            v.push(a.sub(&b));
            offset = offset + 1;
        }
        v
    }
}

/// Every offset lies within two cells of the origin.
pub proof fn lemma_offsets_small(shape: Shapes, r: Rotation, k: int)
    requires
        0 <= k < 5,
    ensures
        small(offset_of(shape, r, k)),
{
    let g = offsets_gen();
    let i = offsets_i();
    let o = offsets_o();
    assert(forall|j: int| 0 <= j < 20 ==> small(#[trigger] g[j])) by {
        assert(small(g[0]) && small(g[1]) && small(g[2]) && small(g[3]) && small(g[4]));
        assert(small(g[5]) && small(g[6]) && small(g[7]) && small(g[8]) && small(g[9]));
        assert(small(g[10]) && small(g[11]) && small(g[12]) && small(g[13]) && small(g[14]));
        assert(small(g[15]) && small(g[16]) && small(g[17]) && small(g[18]) && small(g[19]));
    }
    assert(forall|j: int| 0 <= j < 20 ==> small(#[trigger] i[j])) by {
        assert(small(i[0]) && small(i[1]) && small(i[2]) && small(i[3]) && small(i[4]));
        assert(small(i[5]) && small(i[6]) && small(i[7]) && small(i[8]) && small(i[9]));
        assert(small(i[10]) && small(i[11]) && small(i[12]) && small(i[13]) && small(i[14]));
        assert(small(i[15]) && small(i[16]) && small(i[17]) && small(i[18]) && small(i[19]));
    }
    assert(small(o[0]) && small(o[1]) && small(o[2]) && small(o[3]));
}

} // verus!
