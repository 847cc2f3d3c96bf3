//! The falling-tetromino game.
pub mod enums;
pub mod tables;

use vstd::prelude::*;
use crate::vectors::{BVec, fits_i32};
use crate::board::{Board, cells_map, lemma_cells_map_at};
use crate::randomizer::Randomizer;
use crate::blockstacker::Tuning;
use crate::buyo_game::{rot_cw, turns, lemma_rot_step, unit, opposite};
use crate::Sprite;
use self::enums::{Shapes, Rotation, LoopState, rotation_index, rotation_of, rotation_number};
use self::tables::{Tables, kick_of, lemma_offsets_small};

verus! {

/// The controlled piece: its cells, sprite, shape and orientation.
#[allow(non_camel_case_types)]
pub struct C_Mino {
    pub vec: Vec<BVec>,
    pub color: Sprite,
    pub shape: Shapes,
    pub rot: Rotation,
}

impl C_Mino {
    /// A piece in its spawn orientation.
    pub fn new(vec: Vec<BVec>, color: Sprite, shape: Shapes) -> (r: C_Mino)
        ensures
            r.vec@ == vec@,
            r.color == color,
            r.shape == shape,
            r.rot == Rotation::Up,
    {
        C_Mino { vec, color, shape, rot: Rotation::Up }
    }
}

/// The cells a piece of `shape` spawns on.
pub open spec fn spawn_cells(shape: Shapes) -> Seq<BVec> {
    match shape {
        Shapes::O => seq![BVec { x: 5, y: 0 }, BVec { x: 6, y: 0 }, BVec { x: 6, y: 1 }, BVec { x: 5, y: 1 }],
        Shapes::I => seq![BVec { x: 4, y: 1 }, BVec { x: 5, y: 1 }, BVec { x: 6, y: 1 }, BVec { x: 7, y: 1 }],
        Shapes::L => seq![BVec { x: 4, y: 1 }, BVec { x: 4, y: 0 }, BVec { x: 5, y: 1 }, BVec { x: 6, y: 1 }],
        Shapes::J => seq![BVec { x: 4, y: 1 }, BVec { x: 5, y: 1 }, BVec { x: 6, y: 1 }, BVec { x: 6, y: 0 }],
        Shapes::S => seq![BVec { x: 4, y: 1 }, BVec { x: 5, y: 1 }, BVec { x: 5, y: 0 }, BVec { x: 6, y: 0 }],
        Shapes::Z => seq![BVec { x: 4, y: 0 }, BVec { x: 5, y: 0 }, BVec { x: 5, y: 1 }, BVec { x: 6, y: 1 }],
        Shapes::T => seq![BVec { x: 4, y: 1 }, BVec { x: 5, y: 1 }, BVec { x: 5, y: 0 }, BVec { x: 6, y: 1 }],
    }
}

/// The sprite of a piece of `shape`.
pub open spec fn shape_sprite(shape: Shapes) -> Sprite {
    match shape {
        Shapes::O => Sprite::TetO,
        Shapes::L => Sprite::TetL,
        Shapes::J => Sprite::TetJ,
        Shapes::T => Sprite::TetT,
        Shapes::I => Sprite::TetI,
        Shapes::Z => Sprite::TetZ,
        Shapes::S => Sprite::TetS,
    }
}

/// The shape drawn as number `i`.
pub open spec fn shape_of_draw(i: int) -> Shapes {
    if i == 0 {
        Shapes::I
    } else if i == 1 {
        Shapes::J
    } else if i == 2 {
        Shapes::L
    } else if i == 3 {
        Shapes::O
    } else if i == 4 {
        Shapes::S
    } else if i == 5 {
        Shapes::T
    } else {
        Shapes::Z
    }
}

/// The walls of a board `w` cells wide and `h` cells high: the two sides and the floor of
/// the rectangle from `(0, 0)` to `(w + 1, h + 1)`.
pub open spec fn tet_frame(w: int, h: int) -> Map<BVec, Sprite> {
    Map::new(
        |p: BVec| 0 <= p.x <= w + 1 && 0 <= p.y <= h + 1 && (p.x == 0 || p.x == w + 1 || p.y == h + 1),
        |p: BVec| Sprite::Wall,
    )
}

/// `cells` moved by `v`.
pub open spec fn cells_moved(cells: Seq<BVec>, v: BVec) -> Seq<BVec> {
    Seq::new(cells.len(), |k: int| BVec { x: (cells[k].x + v.x) as i32, y: (cells[k].y + v.y) as i32 })
}

/// The cell right below `p`.
pub open spec fn below_cell(p: BVec) -> BVec {
    BVec { x: p.x, y: (p.y + 1) as i32 }
}

/// No cell of `cells` is occupied on `m`.
pub open spec fn fits_on(m: Map<BVec, Sprite>, cells: Seq<BVec>) -> bool {
    forall|k: int| 0 <= k < cells.len() ==> !m.contains_key(#[trigger] cells[k])
}

/// Every cell of `cells` lies within `bound` of the origin.
pub open spec fn cells_within(cells: Seq<BVec>, bound: int) -> bool {
    forall|k: int| 0 <= k < cells.len() ==> -bound <= (#[trigger] cells[k]).x <= bound && -bound <= cells[k].y <= bound
}

/// Where cell `k` of `cells` lies from the first cell after `n` quarter turns clockwise.
pub open spec fn turn_offset_at(cells: Seq<BVec>, k: int, n: nat) -> BVec {
    rot_cw(BVec { x: (cells[k].x - cells[0].x) as i32, y: (cells[k].y - cells[0].y) as i32 }, n)
}

/// `cells` turned `n` quarter turns clockwise around their first cell.
pub open spec fn turned(cells: Seq<BVec>, n: nat) -> Seq<BVec> {
    Seq::new(
        cells.len(),
        |k: int| BVec {
            x: (cells[0].x + turn_offset_at(cells, k, n).x) as i32,
            y: (cells[0].y + turn_offset_at(cells, k, n).y) as i32,
        },
    )
}

/// Kick number `k` as applied on the board, whose `y` grows downwards.
pub open spec fn board_kick(shape: Shapes, ri: Rotation, rf: Rotation, k: int) -> BVec {
    let v = kick_of(shape, ri, rf, k);
    BVec { x: v.x, y: (-v.y) as i32 }
}

/// The cells after trying kicks `k`, `k + 1`, ... up to the fifth: the first kick that
/// lands on free cells, or `None` when none does.
pub open spec fn kicked(m: Map<BVec, Sprite>, t: Seq<BVec>, shape: Shapes, ri: Rotation, rf: Rotation, k: int) -> Option<Seq<BVec>>
    decreases 5 - k,
{
    if k >= 5 {
        None
    } else if fits_on(m, cells_moved(t, board_kick(shape, ri, rf, k))) {
        Some(cells_moved(t, board_kick(shape, ri, rf, k)))
    } else {
        kicked(m, t, shape, ri, rf, k + 1)
    }
}

/// The orientation `rots` quarter turns clockwise from `rot`.
pub open spec fn turned_rotation(rot: Rotation, rots: i32) -> Rotation {
    rotation_of((rotation_index(rot) + rots) % 4)
}

/// The cells and orientation of the piece `c` after turning it `rots` quarter turns on
/// `m`. The O piece does not turn. Others are turned clockwise around their first cell, and
/// the first of the five kicks from their orientation to the new one that lands on free
/// cells is applied; when none does, the piece stays as it was.
pub open spec fn turn_result(m: Map<BVec, Sprite>, cells: Seq<BVec>, color: Sprite, shape: Shapes, rot: Rotation, rots: i32) -> (Seq<BVec>, Rotation) {
    if color == Sprite::TetO {
        (cells, rot)
    } else {
        let rf = turned_rotation(rot, rots);
        match kicked(m, turned(cells, turns(rots)), shape, rot, rf, 0) {
            Some(c) => (c, rf),
            None => (cells, rot),
        }
    }
}

/// Turning cell `k` of `cells` `n` quarter turns around the first cell and kicking it
/// stays within `i32`: its differences to the first cell and their negations fit, and so
/// does the turned cell, alone and moved by each kick from `ri` to `rf`.
pub open spec fn cell_turn_fits(cells: Seq<BVec>, k: int, n: nat, shape: Shapes, ri: Rotation, rf: Rotation) -> bool {
    let d = turn_offset_at(cells, k, n);
    &&& i32::MIN < cells[k].x - cells[0].x <= i32::MAX
    &&& i32::MIN < cells[k].y - cells[0].y <= i32::MAX
    &&& fits_i32(cells[0].x + d.x)
    &&& fits_i32(cells[0].y + d.y)
    &&& forall|j: int| 0 <= j < 5 ==> fits_i32(cells[0].x + d.x + (#[trigger] board_kick(shape, ri, rf, j)).x)
        && fits_i32(cells[0].y + d.y + board_kick(shape, ri, rf, j).y)
}

/// Turning `cells` `n` quarter turns around their first cell and kicking them stays within
/// `i32` (see `cell_turn_fits`).
pub open spec fn turn_fits(cells: Seq<BVec>, n: nat, shape: Shapes, ri: Rotation, rf: Rotation) -> bool {
    forall|k: int| 0 <= k < cells.len() ==> #[trigger] cell_turn_fits(cells, k, n, shape, ri, rf)
}

/// The letter that shows a sprite of the falling-tetromino game.
pub open spec fn tet_char(s: Sprite) -> char {
    match s {
        Sprite::TetT => 'T',
        Sprite::TetI => 'I',
        Sprite::TetO => 'O',
        Sprite::TetJ => 'J',
        Sprite::TetL => 'L',
        Sprite::TetS => 'S',
        Sprite::TetZ => 'Z',
        _ => '#',
    }
}

/// A sprite the falling-tetromino game can show: a wall or a block of a piece.
pub open spec fn tet_sprite(s: Sprite) -> bool {
    s == Sprite::Wall || s == Sprite::TetT || s == Sprite::TetI || s == Sprite::TetO || s == Sprite::TetJ
        || s == Sprite::TetL || s == Sprite::TetS || s == Sprite::TetZ
}

/// `m` with `s` put at each of `cells`, in order.
pub open spec fn put_all(m: Map<BVec, Sprite>, cells: Seq<BVec>, s: Sprite) -> Map<BVec, Sprite>
    decreases cells.len(),
{
    if cells.len() == 0 {
        m
    } else {
        put_all(m, cells.drop_last(), s).insert(cells.last(), s)
    }
}

/// Turning keeps a vector within the same distance of the origin.
pub proof fn lemma_rot_bound(v: BVec, n: nat, b: int)
    requires
        0 <= b <= i32::MAX,
        -b <= v.x <= b,
        -b <= v.y <= b,
    ensures
        -b <= rot_cw(v, n).x <= b,
        -b <= rot_cw(v, n).y <= b,
    decreases n,
{
    if n > 0 {
        lemma_rot_bound(BVec { x: (-v.y) as i32, y: v.x }, (n - 1) as nat, b);
    }
}

/// The O piece never turns: whatever the board and the number of turns, its cells stay
/// where they are.
pub proof fn law_o_piece_keeps_cells(m: Map<BVec, Sprite>, cells: Seq<BVec>, shape: Shapes, rot: Rotation, rots: i32)
    ensures
        turn_result(m, cells, Sprite::TetO, shape, rot, rots) == (cells, rot),
{
}

/// The spawn cells form the shapes of the pieces. Every piece spawns on four different
/// cells of the top two rows, between the columns `4` and `7`; `lower` below counts the
/// cells in the lower row. The I piece is four cells in a row. The O piece is a square of
/// two by two. The T, L and J pieces have three cells in the lower row and one above: above
/// the middle one for T, above the left end for L, above the right end for J. The S and Z
/// pieces have two cells in each row, one column apart: in S the lower row lies to the left
/// of the upper one, in Z to the right (so each of S and Z, and of L and J, is the mirror
/// image of the other). Each piece is drawn with its own letter.
pub proof fn law_spawn_shapes(shape: Shapes)
    ensures
        ({
            let c = spawn_cells(shape);
            let lower = c[0].y + c[1].y + c[2].y + c[3].y;
            &&& c.len() == 4
            &&& forall|i: int, j: int| 0 <= i < j < 4 ==> #[trigger] c[i] != #[trigger] c[j]
            &&& forall|i: int| 0 <= i < 4 ==> 0 <= (#[trigger] c[i]).y <= 1 && 4 <= c[i].x <= 7
            &&& shape == Shapes::I ==> tet_char(shape_sprite(shape)) == 'I' && lower == 4 && forall|i: int, j: int|
                #![trigger c[i], c[j]]
                0 <= i < 4 && 0 <= j < 4 ==> -3 <= c[i].x - c[j].x <= 3
            &&& shape == Shapes::O ==> tet_char(shape_sprite(shape)) == 'O' && lower == 2 && forall|i: int, j: int|
                #![trigger c[i], c[j]]
                0 <= i < 4 && 0 <= j < 4 ==> -1 <= c[i].x - c[j].x <= 1
            &&& shape == Shapes::T ==> tet_char(shape_sprite(shape)) == 'T' && lower == 3 && forall|i: int, j: int|
                #![trigger c[i], c[j]]
                0 <= i < 4 && 0 <= j < 4 && c[i].y == 0 && c[j].y == 1 ==> -1 <= c[j].x - c[i].x <= 1
            &&& shape == Shapes::L ==> tet_char(shape_sprite(shape)) == 'L' && lower == 3 && forall|i: int, j: int|
                #![trigger c[i], c[j]]
                0 <= i < 4 && 0 <= j < 4 && c[i].y == 0 && c[j].y == 1 ==> 0 <= c[j].x - c[i].x <= 2
            &&& shape == Shapes::J ==> tet_char(shape_sprite(shape)) == 'J' && lower == 3 && forall|i: int, j: int|
                #![trigger c[i], c[j]]
                0 <= i < 4 && 0 <= j < 4 && c[i].y == 0 && c[j].y == 1 ==> 0 <= c[i].x - c[j].x <= 2
            &&& shape == Shapes::S ==> tet_char(shape_sprite(shape)) == 'S' && lower == 2 && forall|i: int, j: int|
                #![trigger c[i], c[j]]
                0 <= i < 4 && 0 <= j < 4 && c[i].y == 0 && c[j].y == 1 ==> 0 <= c[i].x - c[j].x <= 2
            &&& shape == Shapes::Z ==> tet_char(shape_sprite(shape)) == 'Z' && lower == 2 && forall|i: int, j: int|
                #![trigger c[i], c[j]]
                0 <= i < 4 && 0 <= j < 4 && c[i].y == 0 && c[j].y == 1 ==> 0 <= c[j].x - c[i].x <= 2
        }),
{
}

/// Trying the kicks from the `i`-th on gives the first of them that lands on free cells.
proof fn lemma_kicked_first(m: Map<BVec, Sprite>, t: Seq<BVec>, shape: Shapes, ri: Rotation, rf: Rotation, i: int, k: int)
    requires
        0 <= i <= k < 5,
        forall|j: int| i <= j < k ==> !fits_on(m, #[trigger] cells_moved(t, board_kick(shape, ri, rf, j))),
        fits_on(m, cells_moved(t, board_kick(shape, ri, rf, k))),
    ensures
        kicked(m, t, shape, ri, rf, i) == Some(cells_moved(t, board_kick(shape, ri, rf, k))),
    decreases k - i,
{
    if i < k {
        assert(!fits_on(m, cells_moved(t, board_kick(shape, ri, rf, i))));
        lemma_kicked_first(m, t, shape, ri, rf, i + 1, k);
    }
}

/// Trying the kicks from the `i`-th on, when none of them lands on free cells, gives none.
proof fn lemma_kicked_none(m: Map<BVec, Sprite>, t: Seq<BVec>, shape: Shapes, ri: Rotation, rf: Rotation, i: int)
    requires
        0 <= i,
        forall|j: int| i <= j < 5 ==> !fits_on(m, #[trigger] cells_moved(t, board_kick(shape, ri, rf, j))),
    ensures
        kicked(m, t, shape, ri, rf, i) is None,
    decreases 5 - i,
{
    if i < 5 {
        assert(!fits_on(m, cells_moved(t, board_kick(shape, ri, rf, i))));
        lemma_kicked_none(m, t, shape, ri, rf, i + 1);
    }
}

/// A turn takes the first kick that works. For a piece other than O, turned `rots` quarter
/// turns around its first cell: when the kicks before the `k`-th (of the five from its
/// orientation to the new one) all land on an occupied cell and the `k`-th lands on free
/// cells, the turn is made with the `k`-th kick and the piece takes the new orientation;
/// when none of the five lands on free cells, the piece stays as it was.
pub proof fn law_turn_takes_first_free_kick(m: Map<BVec, Sprite>, cells: Seq<BVec>, color: Sprite, shape: Shapes, rot: Rotation, rots: i32, k: int)
    requires
        color != Sprite::TetO,
    ensures
        ({
            let t = turned(cells, turns(rots));
            let rf = turned_rotation(rot, rots);
            &&& 0 <= k < 5 && (forall|j: int|
                0 <= j < k ==> !fits_on(m, #[trigger] cells_moved(t, board_kick(shape, rot, rf, j))))
                && fits_on(m, cells_moved(t, board_kick(shape, rot, rf, k))) ==> turn_result(
                m,
                cells,
                color,
                shape,
                rot,
                rots,
            ) == (cells_moved(t, board_kick(shape, rot, rf, k)), rf)
            &&& (forall|j: int| 0 <= j < 5 ==> !fits_on(m, #[trigger] cells_moved(t, board_kick(shape, rot, rf, j))))
                ==> turn_result(m, cells, color, shape, rot, rots) == (cells, rot)
        }),
{
    let t = turned(cells, turns(rots));
    let rf = turned_rotation(rot, rots);
    if 0 <= k < 5 && (forall|j: int| 0 <= j < k ==> !fits_on(m, #[trigger] cells_moved(t, board_kick(shape, rot, rf, j))))
        && fits_on(m, cells_moved(t, board_kick(shape, rot, rf, k))) {
        lemma_kicked_first(m, t, shape, rot, rf, 0, k);
    }
    if forall|j: int| 0 <= j < 5 ==> !fits_on(m, #[trigger] cells_moved(t, board_kick(shape, rot, rf, j))) {
        lemma_kicked_none(m, t, shape, rot, rf, 0);
    }
}

/// How a piece turns before it is kicked: each cell goes a quarter turn clockwise around
/// the first cell per turn (a cell right of the first cell goes below it, a cell below it
/// to its left), half a turn takes it to the opposite side, and no turn leaves it where it
/// is; the orientation goes round `Up`, `Right`, `Down`, `Left` one step per turn.
pub proof fn law_tet_turn_geometry(cells: Seq<BVec>, k: int, rot: Rotation)
    requires
        0 <= k < cells.len(),
        cells_within(cells, 0x1fff_ffff),
    ensures
        turned(cells, 0)[k] == cells[k],
        turned(cells, 1)[k] == (BVec {
            x: (cells[0].x - (cells[k].y - cells[0].y)) as i32,
            y: (cells[0].y + (cells[k].x - cells[0].x)) as i32,
        }),
        turned(cells, 2)[k] == (BVec { x: (2 * cells[0].x - cells[k].x) as i32, y: (2 * cells[0].y - cells[k].y) as i32 }),
        turned(cells, 3)[k] == (BVec {
            x: (cells[0].x + (cells[k].y - cells[0].y)) as i32,
            y: (cells[0].y - (cells[k].x - cells[0].x)) as i32,
        }),
        rotation_index(turned_rotation(rot, 1)) == (rotation_index(rot) + 1) % 4,
        rotation_index(turned_rotation(rot, 2)) == (rotation_index(rot) + 2) % 4,
        rotation_index(turned_rotation(rot, 3)) == (rotation_index(rot) + 3) % 4,
        turned_rotation(Rotation::Up, 1) == Rotation::Right,
        turned_rotation(Rotation::Left, 1) == Rotation::Up,
{
    reveal_with_fuel(rot_cw, 4);
    assert(cells_within(cells, 0x1fff_ffff) ==> -0x1fff_ffff <= cells[k].x <= 0x1fff_ffff);
    assert(-0x1fff_ffff <= cells[0].x <= 0x1fff_ffff && -0x1fff_ffff <= cells[0].y <= 0x1fff_ffff);
}

/// The kicks of a turn and of the opposite turn are opposite moves, and turning to the
/// same orientation kicks nowhere. For every piece but I and O the first kick is no move,
/// and the kicks from `Up` to `Right` are, on the board: none, one cell left, one left and
/// one up, two down, one left and two down.
pub proof fn law_kicks(shape: Shapes, ri: Rotation, rf: Rotation, k: int)
    requires
        0 <= k < 5,
    ensures
        board_kick(shape, ri, rf, k).x == -board_kick(shape, rf, ri, k).x,
        board_kick(shape, ri, rf, k).y == -board_kick(shape, rf, ri, k).y,
        board_kick(shape, ri, ri, k) == (BVec { x: 0, y: 0 }),
        shape != Shapes::I && shape != Shapes::O ==> board_kick(shape, ri, rf, 0) == (BVec { x: 0, y: 0 }),
        shape != Shapes::I && shape != Shapes::O ==> {
            &&& board_kick(shape, Rotation::Up, Rotation::Right, 1) == (BVec { x: -1i32, y: 0 })
            &&& board_kick(shape, Rotation::Up, Rotation::Right, 2) == (BVec { x: -1i32, y: -1i32 })
            &&& board_kick(shape, Rotation::Up, Rotation::Right, 3) == (BVec { x: 0, y: 2 })
            &&& board_kick(shape, Rotation::Up, Rotation::Right, 4) == (BVec { x: -1i32, y: 2 })
        },
{
    lemma_offsets_small(shape, ri, k);
    lemma_offsets_small(shape, rf, k);
}

/// A move of the piece can be taken back: when its cells are free and it moves by a unit
/// step, the cells it moves back to by the opposite step are its old cells, which are free.
pub proof fn law_tet_move_undone(m: Map<BVec, Sprite>, cells: Seq<BVec>, v: BVec)
    requires
        fits_on(m, cells),
        unit(v),
        cells_within(cells, i32::MAX - 1),
    ensures
        cells_moved(cells_moved(cells, v), opposite(v)) == cells,
        fits_on(m, cells_moved(cells_moved(cells, v), opposite(v))),
{
    let back = cells_moved(cells_moved(cells, v), opposite(v));
    assert forall|k: int| 0 <= k < cells.len() implies #[trigger] back[k] == cells[k] by {
        assert(-(i32::MAX - 1) <= cells[k].x <= i32::MAX - 1);
    }
    assert(back =~= cells);
}

/// Four quarter turns bring a vector whose coordinates fit, negated, in `i32` back to itself.
proof fn lemma_rot_four(v: BVec)
    requires
        -i32::MAX <= v.x <= i32::MAX,
        -i32::MAX <= v.y <= i32::MAX,
    ensures
        rot_cw(v, 4) == v,
{
    reveal_with_fuel(rot_cw, 5);
}

/// `p` moved by `v`.
pub open spec fn moved_cell(p: BVec, v: BVec) -> BVec {
    BVec { x: (p.x + v.x) as i32, y: (p.y + v.y) as i32 }
}

/// `cells` turned `r` quarter turns clockwise and moved by the first kick.
pub open spec fn first_kick_turn(cells: Seq<BVec>, shape: Shapes, rot: Rotation, r: i32) -> Seq<BVec> {
    cells_moved(turned(cells, turns(r)), board_kick(shape, rot, turned_rotation(rot, r), 0))
}

/// Cell `k` of `cells`, turned `r` quarter turns and moved by `kick`, then turned `4 - r`
/// quarter turns around the new first cell, is cell `k` moved by `kick`.
proof fn lemma_turn_back_cell(cells: Seq<BVec>, k: int, r: i32, shape: Shapes, rot: Rotation, rf: Rotation, kick: BVec)
    requires
        1 <= r <= 3,
        0 <= k < cells.len(),
        turn_fits(cells, turns(r), shape, rot, rf),
        kick == board_kick(shape, rot, rf, 0),
        turn_fits(cells_moved(turned(cells, turns(r)), kick), turns((4 - r) as i32), shape, rf, rot),
    ensures
        turned(cells_moved(turned(cells, turns(r)), kick), turns((4 - r) as i32))[k] == moved_cell(cells[k], kick),
        fits_i32(cells[k].x + kick.x),
        fits_i32(cells[k].y + kick.y),
{
    let n = turns(r);
    let n2 = turns((4 - r) as i32);
    let t1 = cells_moved(turned(cells, n), kick);
    assert(cell_turn_fits(cells, k, n, shape, rot, rf));
    assert(cell_turn_fits(cells, 0, n, shape, rot, rf));
    let d = BVec { x: (cells[k].x - cells[0].x) as i32, y: (cells[k].y - cells[0].y) as i32 };
    let e = turn_offset_at(cells, k, n);
    assert(fits_i32(cells[0].x + e.x + kick.x));
    assert(fits_i32(cells[0].y + e.y + kick.y));
    lemma_rot_bound(BVec { x: 0, y: 0 }, n, 0);
    assert(t1[0] == BVec { x: (cells[0].x + kick.x) as i32, y: (cells[0].y + kick.y) as i32 });
    assert(t1[k] == BVec { x: (cells[0].x + e.x + kick.x) as i32, y: (cells[0].y + e.y + kick.y) as i32 });
    assert(BVec { x: (t1[k].x - t1[0].x) as i32, y: (t1[k].y - t1[0].y) as i32 } == e);
    crate::buyo_game::lemma_rot_add(d, n, n2);
    assert((n + n2) as nat == 4);
    lemma_rot_four(d);
    assert(turn_offset_at(t1, k, n2) == d);
    assert(cell_turn_fits(t1, k, n2, shape, rf, rot));
}

/// A turn of a piece can be taken back: when a piece other than the O piece turns `r`
/// quarter turns (one, two or three) from free cells with its first kick, turning it back
/// `4 - r` quarter turns also takes the first kick, which lands on its old cells, and gives
/// back its orientation.
pub proof fn law_tet_turn_undone(m: Map<BVec, Sprite>, cells: Seq<BVec>, color: Sprite, shape: Shapes, rot: Rotation, r: i32)
    requires
        1 <= r <= 3,
        color != Sprite::TetO,
        cells.len() > 0,
        fits_on(m, cells),
        turn_fits(cells, turns(r), shape, rot, turned_rotation(rot, r)),
        fits_on(m, first_kick_turn(cells, shape, rot, r)),
        turn_fits(first_kick_turn(cells, shape, rot, r), turns((4 - r) as i32), shape, turned_rotation(rot, r), rot),
    ensures
        turn_result(m, cells, color, shape, rot, r) == (first_kick_turn(cells, shape, rot, r), turned_rotation(rot, r)),
        turn_result(m, first_kick_turn(cells, shape, rot, r), color, shape, turned_rotation(rot, r), (4 - r) as i32) == (cells, rot),
{
    let rf = turned_rotation(rot, r);
    let kick = board_kick(shape, rot, rf, 0);
    let t1 = cells_moved(turned(cells, turns(r)), kick);
    assert(turned_rotation(rf, (4 - r) as i32) == rot);
    lemma_offsets_small(shape, rot, 0);
    lemma_offsets_small(shape, rf, 0);
    let back = board_kick(shape, rf, rot, 0);
    assert(back.x == -kick.x && back.y == -kick.y);
    let t2 = turned(t1, turns((4 - r) as i32));
    assert forall|k: int| 0 <= k < cells.len() implies #[trigger] cells_moved(t2, back)[k] == cells[k] by {
        lemma_turn_back_cell(cells, k, r, shape, rot, rf, kick);
    }
    assert(cells_moved(t2, back) =~= cells);
    assert(kicked(m, t2, shape, rf, rot, 0) == Some(cells));
}

/// A copy of `v`.
fn copy_cells(v: &Vec<BVec>) -> (r: Vec<BVec>)
    ensures
        r@ == v@,
{
    let mut r: Vec<BVec> = Vec::new();
    let mut i: usize = 0;
    while i < v.len()
        invariant
            i <= v@.len(),
            r@ == v@.take(i as int),
        decreases v@.len() - i,
    {
        r.push(v[i]);
        i = i + 1;
        assert(r@ =~= v@.take(i as int));
    }
    assert(r@ =~= v@);
    r
}

/// `cells` moved by `v`, and whether all of them are free on `board`.
fn move_cells(board: &Board, cells: &Vec<BVec>, v: BVec) -> (r: (Vec<BVec>, bool))
    requires
        board.wf(),
        forall|k: int| 0 <= k < cells@.len() ==> crate::vectors::fits_i32((#[trigger] cells@[k]).x + v.x)
            && crate::vectors::fits_i32(cells@[k].y + v.y),
    ensures
        r.0@ == cells_moved(cells@, v),
        r.1 == fits_on(board@, cells_moved(cells@, v)),
{
    let mut out: Vec<BVec> = Vec::new();
    let mut free = true;
    let mut i: usize = 0;
    while i < cells.len()
        invariant
            board.wf(),
            i <= cells@.len(),
            forall|k: int| 0 <= k < cells@.len() ==> crate::vectors::fits_i32((#[trigger] cells@[k]).x + v.x)
                && crate::vectors::fits_i32(cells@[k].y + v.y),
            out@ == cells_moved(cells@, v).take(i as int),
            free == fits_on(board@, cells_moved(cells@, v).take(i as int)),
        decreases cells@.len() - i,
    {
        let p = cells[i].add(&v);
        if board.contains_key(&p) {
            free = false;
        }
        out.push(p);
        proof {
            let full = cells_moved(cells@, v);
            assert(full[i as int] == p);
            assert(fits_on(board@, full.take(i + 1)) == (fits_on(board@, full.take(i as int)) && !board@.contains_key(p))) by {
                if fits_on(board@, full.take(i as int)) && !board@.contains_key(p) {
                    assert forall|k: int| 0 <= k < full.take(i + 1).len() implies !board@.contains_key(#[trigger] full.take(i + 1)[k]) by {
                        if k < i {
                            assert(full.take(i + 1)[k] == full.take(i as int)[k]);
                        }
                    }
                }
                if fits_on(board@, full.take(i + 1)) {
                    assert(full.take(i + 1)[i as int] == p);
                    assert forall|k: int| 0 <= k < full.take(i as int).len() implies !board@.contains_key(#[trigger] full.take(i as int)[k]) by {
                        assert(full.take(i + 1)[k] == full.take(i as int)[k]);
                    }
                }
            }
        }
        i = i + 1;
        assert(out@ =~= cells_moved(cells@, v).take(i as int));
    }
    assert(cells_moved(cells@, v).take(cells@.len() as int) =~= cells_moved(cells@, v));
    (out, free)
}

/// `cells` moved `d` cells down.
pub open spec fn cells_down(cells: Seq<BVec>, d: int) -> Seq<BVec> {
    Seq::new(cells.len(), |k: int| BVec { x: cells[k].x, y: (cells[k].y + d) as i32 })
}

/// Every cell of `cells` can move `d` cells down and stay away from the ends of `i32`.
pub open spec fn drop_room(cells: Seq<BVec>, d: int) -> bool {
    forall|k: int|
        0 <= k < cells.len() ==> -(i32::MAX - 1) <= (#[trigger] cells[k]).x <= i32::MAX - 1 && -(i32::MAX
            - 1) <= cells[k].y && cells[k].y + d <= i32::MAX - 1
}

/// The smallest `x` that is at least zero and at least every `x` of `e`.
pub open spec fn max_x0(e: Seq<(BVec, Sprite)>) -> int
    decreases e.len(),
{
    if e.len() == 0 { 0 } else {
        let r = max_x0(e.drop_last());
        if e.last().0.x > r { e.last().0.x as int } else { r }
    }
}

/// The smallest `y` that is at least zero and at least every `y` of `e`.
pub open spec fn max_y0(e: Seq<(BVec, Sprite)>) -> int
    decreases e.len(),
{
    if e.len() == 0 { 0 } else {
        let r = max_y0(e.drop_last());
        if e.last().0.y > r { e.last().0.y as int } else { r }
    }
}

/// What the cell `p` shows on `m`: the letter of its sprite, or a space.
pub open spec fn tet_cell_char(m: Map<BVec, Sprite>, p: BVec) -> char {
    if m.contains_key(p) { tet_char(m[p]) } else { ' ' }
}

/// Row `y` of the picture of `m`, from column `0` to `x1`, then a line break.
pub open spec fn tet_row_text(m: Map<BVec, Sprite>, y: int, x1: int) -> Seq<char> {
    Seq::new((x1 + 1) as nat, |k: int| tet_cell_char(m, BVec { x: k as i32, y: y as i32 })).push('\n')
}

/// Rows `0` up to `y` (not included) of the picture of `m`.
pub open spec fn tet_rows_text(m: Map<BVec, Sprite>, y: int, x1: int) -> Seq<char>
    decreases y,
{
    if y <= 0 {
        Seq::empty()
    } else {
        tet_rows_text(m, y - 1, x1) + tet_row_text(m, y - 1, x1)
    }
}

fn tet_char_str(ch: char) -> (s: &'static str)
    requires
        ch == 'T' || ch == 'I' || ch == 'O' || ch == 'J' || ch == 'L' || ch == 'S' || ch == 'Z' || ch == '#'
            || ch == ' ' || ch == '\n',
    ensures
        s@ == seq![ch],
{
    if ch == 'T' { proof { reveal_strlit("T"); } "T" }
    else if ch == 'I' { proof { reveal_strlit("I"); } "I" }
    else if ch == 'O' { proof { reveal_strlit("O"); } "O" }
    else if ch == 'J' { proof { reveal_strlit("J"); } "J" }
    else if ch == 'L' { proof { reveal_strlit("L"); } "L" }
    else if ch == 'S' { proof { reveal_strlit("S"); } "S" }
    else if ch == 'Z' { proof { reveal_strlit("Z"); } "Z" }
    else if ch == '#' { proof { reveal_strlit("#"); } "#" }
    else if ch == ' ' { proof { reveal_strlit(" "); } " " }
    else { proof { reveal_strlit("\n"); } "\n" }
}

/// The falling-tetromino game.
pub struct Tet {
    minos: Board,
    randomizer: Randomizer,
    /// The piece being moved, if any.
    pub controlled_mino: Option<C_Mino>,
    tables: Tables,
    loop_state: LoopState,
    tuning: Tuning,
}

impl Tet {
    /// The game's internal consistency.
    pub closed spec fn wf(&self) -> bool {
        &&& self.minos.wf()
        &&& self.tables.wf()
        &&& self.randomizer.wf()
    }

    /// The settled blocks and walls.
    pub closed spec fn board(&self) -> Map<BVec, Sprite> {
        self.minos@
    }

    /// The settled blocks and walls, as stored.
    pub closed spec fn board_store(&self) -> Board {
        self.minos
    }

    /// The board is the view of its stored form.
    pub proof fn lemma_board_views(&self)
        ensures
            self.board() == self.board_store()@,
            self.board_store()@ == cells_map(self.board_store().entries()),
            self.wf() ==> self.board_store().wf(),
    {
        self.minos.lemma_view();
    }

    /// The randomizer that picks the shapes.
    pub closed spec fn rng(&self) -> Randomizer {
        self.randomizer
    }

    /// The phase of the game loop.
    pub closed spec fn state(&self) -> LoopState {
        self.loop_state
    }

    /// The timing settings.
    pub closed spec fn tuning(&self) -> Tuning {
        self.tuning
    }

    /// The piece being moved.
    pub closed spec fn piece(&self) -> Option<C_Mino> {
        self.controlled_mino
    }

    /// The cells of the piece being moved, if any.
    pub open spec fn piece_cells(&self) -> Option<Seq<BVec>> {
        match self.piece() {
            Some(c) => Some(c.vec@),
            None => None,
        }
    }

    /// What the board shows: the settled blocks and walls with the piece's blocks on them.
    pub open spec fn shown(&self) -> Map<BVec, Sprite> {
        match self.piece() {
            Some(c) => put_all(self.board(), c.vec@, c.color),
            None => self.board(),
        }
    }

    /// What the board shows lies in the quadrant of non-negative coordinates, short of
    /// `i32::MAX`, and holds only sprites of this game.
    pub open spec fn can_show(&self) -> bool {
        let m = self.shown();
        &&& forall|p: BVec| #[trigger] m.contains_key(p) ==> p.x >= 0 && p.y >= 0 && tet_sprite(m[p])
        &&& forall|p: BVec| #[trigger] m.contains_key(p) ==> p.x < i32::MAX && p.y < i32::MAX
    }

    /// The game with everything but the piece's cells as in `o`, and the piece's cells `cells`.
    pub open spec fn only_cells_changed(&self, o: Tet, cells: Seq<BVec>) -> bool {
        &&& self.board_store() == o.board_store()
        &&& self.rng() == o.rng()
        &&& self.state() == o.state()
        &&& self.tuning() == o.tuning()
        &&& self.piece() matches Some(c) && o.piece() matches Some(oc) && c.vec@ == cells && c.color
            == oc.color && c.shape == oc.shape && c.rot == oc.rot
    }

    /// The game with everything but the piece's cells and orientation as in `o`, the piece's
    /// cells `cells` and its orientation `rot`.
    pub open spec fn only_piece_changed(&self, o: Tet, cells: Seq<BVec>, rot: Rotation) -> bool {
        &&& self.board_store() == o.board_store()
        &&& self.rng() == o.rng()
        &&& self.state() == o.state()
        &&& self.tuning() == o.tuning()
        &&& self.piece() matches Some(c) && o.piece() matches Some(oc) && c.vec@ == cells && c.color
            == oc.color && c.shape == oc.shape && c.rot == rot
    }

    /// The game with nothing changed but the phase, which is `st`.
    pub open spec fn only_state_changed(&self, o: Tet, st: LoopState) -> bool {
        &&& self.board_store() == o.board_store()
        &&& self.rng() == o.rng()
        &&& self.state() == st
        &&& self.tuning() == o.tuning()
        &&& self.piece_cells() == o.piece_cells()
        &&& self.piece() == o.piece()
    }

    /// A game on a board `width` cells wide and `height` cells high, walled on both sides and
    /// below.
    pub fn new(width: i32, height: i32, randomizer: Randomizer, tuning: Tuning) -> (r: Tet)
        requires
            width + 1 < i32::MAX,
            height + 1 < i32::MAX,
            width != -1,
            randomizer.wf(),
        ensures
            r.wf(),
            r.board() == tet_frame(width as int, height as int),
            r.piece() is None,
            r.rng() == randomizer,
            r.state() == LoopState::Spawning,
            r.tuning() == tuning,
    {
        let mut minos = Board::new();
        let w1 = width + 1;
        let h1 = height + 1;
        let mut i: i32 = 0;
        while i <= w1
            invariant
                w1 == width + 1,
                h1 == height + 1,
                w1 < i32::MAX,
                h1 < i32::MAX,
                0 <= i,
                i <= w1 + 1 || w1 < 0,
                minos.wf(),
                minos@ == Map::new(
                    |p: BVec| tet_frame(width as int, height as int).contains_key(p) && p.x < i,
                    |p: BVec| Sprite::Wall,
                ),
            decreases w1 + 1 - i,
        {
            let mut j: i32 = 0;
            while j <= h1
                invariant
                    w1 == width + 1,
                    h1 == height + 1,
                    h1 < i32::MAX,
                    0 <= i <= w1,
                    0 <= j,
                    j <= h1 + 1 || h1 < 0,
                    minos.wf(),
                    minos@ == Map::new(
                        |p: BVec|
                            tet_frame(width as int, height as int).contains_key(p) && (p.x < i || (
                            p.x == i && p.y < j)),
                        |p: BVec| Sprite::Wall,
                    ),
                decreases h1 + 1 - j,
            {
                if i == 0 || i == w1 || j == h1 {
                    minos.insert(BVec::new(i, j), Sprite::Wall);
                }
                j = j + 1;
                assert(minos@ =~= Map::new(
                    |p: BVec|
                        tet_frame(width as int, height as int).contains_key(p) && (p.x < i || (p.x
                            == i && p.y < j)),
                    |p: BVec| Sprite::Wall,
                ));
            }
            i = i + 1;
            assert(minos@ =~= Map::new(
                |p: BVec| tet_frame(width as int, height as int).contains_key(p) && p.x < i,
                |p: BVec| Sprite::Wall,
            ));
        }
        assert(minos@ =~= tet_frame(width as int, height as int));
        Tet {
            minos,
            randomizer,
            controlled_mino: None,
            tables: Tables::new(),
            loop_state: LoopState::Spawning,
            tuning,
        }
    }

    /// Makes a new piece of `shape`, in its spawn cells and orientation, the piece being moved.
    pub fn spawn_c_mino(&mut self, shape: Shapes)
        ensures
            final(self).piece() matches Some(c) && c.vec@ == spawn_cells(shape) && c.color
                == shape_sprite(shape) && c.shape == shape && c.rot == Rotation::Up,
            final(self).board_store() == old(self).board_store(),
            final(self).rng() == old(self).rng(),
            final(self).state() == old(self).state(),
            final(self).tuning() == old(self).tuning(),
            final(self).wf() == old(self).wf(),
    {
        let cells = match shape {
            Shapes::O => vec![BVec::new(5, 0), BVec::new(6, 0), BVec::new(6, 1), BVec::new(5, 1)],
            Shapes::I => vec![BVec::new(4, 1), BVec::new(5, 1), BVec::new(6, 1), BVec::new(7, 1)],
            Shapes::L => vec![BVec::new(4, 1), BVec::new(4, 0), BVec::new(5, 1), BVec::new(6, 1)],
            Shapes::J => vec![BVec::new(4, 1), BVec::new(5, 1), BVec::new(6, 1), BVec::new(6, 0)],
            Shapes::S => vec![BVec::new(4, 1), BVec::new(5, 1), BVec::new(5, 0), BVec::new(6, 0)],
            Shapes::Z => vec![BVec::new(4, 0), BVec::new(5, 0), BVec::new(5, 1), BVec::new(6, 1)],
            Shapes::T => vec![BVec::new(4, 1), BVec::new(5, 1), BVec::new(5, 0), BVec::new(6, 1)],
        };
        let color = match shape {
            Shapes::O => Sprite::TetO,
            Shapes::L => Sprite::TetL,
            Shapes::J => Sprite::TetJ,
            Shapes::T => Sprite::TetT,
            Shapes::I => Sprite::TetI,
            Shapes::Z => Sprite::TetZ,
            Shapes::S => Sprite::TetS,
        };
        assert(cells@ =~= spawn_cells(shape));
        self.controlled_mino = Some(C_Mino::new(cells, color, shape));
    }

    /// Moves the piece by `v` unless a cell it would move to is occupied; false when there is
    /// no piece or it did not move.
    pub fn move_c_mino_if_no_collision(&mut self, v: BVec) -> (r: bool)
        requires
            old(self).wf(),
            old(self).piece_cells() matches Some(cells) ==> forall|k: int|
                0 <= k < cells.len() ==> crate::vectors::fits_i32((#[trigger] cells[k]).x + v.x)
                    && crate::vectors::fits_i32(cells[k].y + v.y),
        ensures
            final(self).wf(),
            match old(self).piece_cells() {
                None => !r && *final(self) == *old(self),
                Some(cells) => if fits_on(old(self).board(), cells_moved(cells, v)) {
                    r && final(self).only_cells_changed(*old(self), cells_moved(cells, v))
                } else {
                    !r && *final(self) == *old(self)
                },
            },
    {
        let (new_pos, free, color, shape, rot) = match &self.controlled_mino {
            Some(x) => {
                assert(old(self).piece_cells() == Some(x.vec@));
                let ghost cells = old(self).piece_cells().unwrap();
                assert(forall|k: int|
                    0 <= k < cells.len() ==> crate::vectors::fits_i32((#[trigger] cells[k]).x + v.x)
                        && crate::vectors::fits_i32(cells[k].y + v.y));
                assert(cells == x.vec@);
                let (p, f) = move_cells(&self.minos, &x.vec, v);
                (p, f, x.color, x.shape, x.rot)
            },
            None => return false,
        };
        if !free {
            return false;
        }
        self.controlled_mino = Some(C_Mino { vec: new_pos, color, shape, rot });
        true
    }

    /// Turning the piece is safe: it has a first cell, its cells are far from the ends of
    /// `i32`, and the orientation number plus `rots` is a number from `0` on.
    pub open spec fn can_turn(&self, rots: i32) -> bool {
        self.piece() matches Some(c) ==> c.color != Sprite::TetO ==> {
            &&& c.vec@.len() > 0
            &&& 0 <= rotation_index(c.rot) + rots <= i32::MAX
            &&& turn_fits(c.vec@, turns(rots), c.shape, c.rot, turned_rotation(c.rot, rots))
        }
    }

    /// Turns the piece `rots` quarter turns clockwise (see `turn_result`).
    pub fn rotate_c_mino(&mut self, rots: i32)
        requires
            old(self).wf(),
            old(self).can_turn(rots),
        ensures
            final(self).wf(),
            match old(self).piece() {
                None => *final(self) == *old(self),
                Some(c) => {
                    let t = turn_result(old(self).board(), c.vec@, c.color, c.shape, c.rot, rots);
                    final(self).only_piece_changed(*old(self), t.0, t.1)
                },
            },
    {
        let (cells, color, shape, rot) = match &self.controlled_mino {
            Some(x) => (copy_cells(&x.vec), x.color, x.shape, x.rot),
            None => return,
        };
        if color == Sprite::TetO {
            self.controlled_mino = Some(C_Mino { vec: cells, color, shape, rot });
            return;
        }
        let ghost n = turns(rots);
        let rf = match (rotation_number(rot) + rots) % 4 {
            0 => Rotation::Up,
            1 => Rotation::Right,
            2 => Rotation::Down,
            _ => Rotation::Left,
        };
        assert(rf == turned_rotation(rot, rots));
        let c0 = cells[0];
        let mut t: Vec<BVec> = Vec::new();
        let mut k: usize = 0;
        while k < cells.len()
            invariant
                k <= cells@.len(),
                cells@.len() > 0,
                c0 == cells@[0],
                n == turns(rots),
                turn_fits(cells@, n, shape, rot, rf),
                t@ == turned(cells@, n).take(k as int),
            decreases cells@.len() - k,
        {
            let ck = cells[k];
            assert(cell_turn_fits(cells@, k as int, n, shape, rot, rf));
            let mut v = BVec::new(ck.x - c0.x, ck.y - c0.y);
            let ghost v0 = v;
            let mut i: i32 = 0;
            while i < rots
                invariant
                    0 <= i,
                    rots > 0 ==> i <= rots,
                    rots <= 0 ==> i == 0,
                    v == rot_cw(v0, i as nat),
                    -i32::MAX <= v0.x <= i32::MAX,
                    -i32::MAX <= v0.y <= i32::MAX,
                decreases rots - i,
            {
                proof {
                    lemma_rot_step(v0, i as nat);
                    lemma_rot_bound(v0, i as nat, i32::MAX as int);
                }
                let x_old = v.x;
                v.x = -v.y;
                v.y = x_old;
                i = i + 1;
            }
            assert(i as nat == n);
            assert(v == turn_offset_at(cells@, k as int, n));
            let w = BVec::new(c0.x + v.x, c0.y + v.y);
            t.push(w);
            k = k + 1;
            assert(t@ =~= turned(cells@, n).take(k as int));
        }
        assert(t@ =~= turned(cells@, n));
        let ghost m = self.minos@;
        let kicks = self.tables.get_kicks(&rot, &rf, &shape);
        let mut j: usize = 0;
        while j < 5
            invariant
                self.wf(),
                m == self.minos@,
                j <= 5,
                kicks@.len() == 5,
                forall|q: int| 0 <= q < 5 ==> #[trigger] kicks@[q] == kick_of(shape, rot, rf, q),
                kicked(m, t@, shape, rot, rf, 0) == kicked(m, t@, shape, rot, rf, j as int),
                t@ == turned(cells@, n),
                turn_fits(cells@, n, shape, rot, rf),
                cells@.len() > 0,
                color != Sprite::TetO,
                old(self).piece() matches Some(c) && c.vec@ == cells@ && c.color == color && c.shape == shape && c.rot == rot,
                m == old(self).board(),
                rf == turned_rotation(rot, rots),
                n == turns(rots),
                self.controlled_mino == old(self).controlled_mino,
                self.minos == old(self).minos,
                self.randomizer == old(self).randomizer,
                self.loop_state == old(self).loop_state,
                self.tuning == old(self).tuning,
            decreases 5 - j,
        {
            let kk = kicks[j];
            proof {
                lemma_offsets_small(shape, rot, j as int);
                lemma_offsets_small(shape, rf, j as int);
            }
            let kick = BVec::new(kk.x, -kk.y);
            assert(board_kick(shape, rot, rf, j as int) == kick);
            proof {
                assert forall|q: int| 0 <= q < t@.len() implies fits_i32((#[trigger] t@[q]).x + kick.x)
                    && fits_i32(t@[q].y + kick.y) by {
                    assert(cell_turn_fits(cells@, q, n, shape, rot, rf));
                    assert(fits_i32(cells@[0].x + turn_offset_at(cells@, q, n).x + board_kick(shape, rot, rf, j as int).x));
                    assert(fits_i32(cells@[0].y + turn_offset_at(cells@, q, n).y + board_kick(shape, rot, rf, j as int).y));
                }
            }
            let (pos, free) = move_cells(&self.minos, &t, kick);
            if free {
                proof {
                    assert(kicked(m, t@, shape, rot, rf, j as int) == Some(cells_moved(t@, kick)));
                }
                self.controlled_mino = Some(C_Mino { vec: pos, color, shape, rot: rf });
                return;
            }
            j = j + 1;
        }
        self.controlled_mino = Some(C_Mino { vec: cells, color, shape, rot });
    }

    /// Turns the piece a quarter turn clockwise.
    pub fn input_rotation_right(&mut self)
        requires
            old(self).wf(),
            old(self).can_turn(1),
        ensures
            final(self).wf(),
            match old(self).piece() {
                None => *final(self) == *old(self),
                Some(c) => {
                    let t = turn_result(old(self).board(), c.vec@, c.color, c.shape, c.rot, 1);
                    final(self).only_piece_changed(*old(self), t.0, t.1)
                },
            },
    {
        self.rotate_c_mino(1);
    }

    /// Turns the piece a quarter turn anticlockwise (three clockwise).
    pub fn input_rotation_left(&mut self)
        requires
            old(self).wf(),
            old(self).can_turn(3),
        ensures
            final(self).wf(),
            match old(self).piece() {
                None => *final(self) == *old(self),
                Some(c) => {
                    let t = turn_result(old(self).board(), c.vec@, c.color, c.shape, c.rot, 3);
                    final(self).only_piece_changed(*old(self), t.0, t.1)
                },
            },
    {
        self.rotate_c_mino(3);
    }

    /// Turns the piece half a turn.
    pub fn input_180_rot(&mut self)
        requires
            old(self).wf(),
            old(self).can_turn(2),
        ensures
            final(self).wf(),
            match old(self).piece() {
                None => *final(self) == *old(self),
                Some(c) => {
                    let t = turn_result(old(self).board(), c.vec@, c.color, c.shape, c.rot, 2);
                    final(self).only_piece_changed(*old(self), t.0, t.1)
                },
            },
    {
        self.rotate_c_mino(2);
    }

    /// Whether the piece is on the ground: some cell right below one of its cells is
    /// occupied. Without a piece it is false.
    pub fn is_on_ground(&self) -> (r: bool)
        requires
            self.wf(),
            self.piece_cells() matches Some(cells) ==> forall|k: int| 0 <= k < cells.len() ==> (#[trigger] cells[k]).y < i32::MAX,
        ensures
            r == (self.piece_cells() matches Some(cells) && exists|k: int|
                0 <= k < cells.len() && self.board().contains_key(#[trigger] below_cell(cells[k]))),
    {
        let vectors = match &self.controlled_mino {
            Some(x) => &x.vec,
            None => return false,
        };
        let ghost cells = self.piece_cells().unwrap();
        assert(cells == vectors@);
        let mut output = false;
        let mut i: usize = 0;
        while i < vectors.len()
            invariant
                i <= vectors@.len(),
                self.wf(),
                cells == vectors@,
                self.piece_cells() == Some(cells),
                forall|k: int| 0 <= k < cells.len() ==> (#[trigger] cells[k]).y < i32::MAX,
                output == exists|k: int| 0 <= k < i && self.board().contains_key(#[trigger] below_cell(cells[k])),
            decreases vectors@.len() - i,
        {
            let u = vectors[i].add(&BVec::new(0, 1));
            assert(u == below_cell(cells[i as int]));
            if self.minos.contains_key(&u) {
                output = true;
            }
            i = i + 1;
        }
        output
    }

    /// There is an occupied cell below the piece's first cell for the piece to land on, and
    /// room in `i32` for the piece to fall that far.
    pub open spec fn can_drop(&self) -> bool {
        self.piece_cells() matches Some(cells) ==> {
            &&& cells.len() > 0
            &&& exists|y: int|
                cells[0].y < y && #[trigger] self.board().contains_key(BVec { x: cells[0].x, y: y as i32 })
                    && drop_room(cells, y - cells[0].y)
        }
    }

    /// Moves the piece down as far as it goes (it stays the piece being moved).
    pub fn hard_drop(&mut self)
        requires
            old(self).wf(),
            old(self).can_drop(),
        ensures
            final(self).wf(),
            match old(self).piece_cells() {
                None => *final(self) == *old(self),
                Some(cells) => exists|d: int|
                    d >= 0 && (forall|k: int| 1 <= k <= d ==> fits_on(old(self).board(), #[trigger] cells_down(cells, k)))
                        && !fits_on(old(self).board(), cells_down(cells, d + 1))
                        && final(self).only_cells_changed(*old(self), cells_down(cells, d)),
            },
    {
        let ghost start = *self;
        let ghost cells0 = match self.piece_cells() { Some(c) => c, None => Seq::empty() };
        if self.controlled_mino.is_none() {
            return;
        }
        let ghost floor_y: int = choose|y: int|
            cells0[0].y < y && #[trigger] start.board().contains_key(BVec { x: cells0[0].x, y: y as i32 })
                && drop_room(cells0, y - cells0[0].y);
        let ghost mut k: int = 0;
        proof {
            assert(cells_down(cells0, 0) =~= cells0);
        }
        loop
            invariant_except_break
                self.wf(),
                start.piece_cells() == Some(cells0),
                cells0.len() > 0,
                cells0[0].y < floor_y,
                start.board().contains_key(BVec { x: cells0[0].x, y: floor_y as i32 }),
                drop_room(cells0, floor_y - cells0[0].y),
                0 <= k,
                cells0[0].y + k < floor_y,
                k == 0 ==> *self == start,
                k > 0 ==> self.only_cells_changed(start, cells_down(cells0, k)),
                self.piece_cells() == Some(cells_down(cells0, k)),
                self.board() == start.board(),
                forall|j: int| 1 <= j <= k ==> fits_on(start.board(), #[trigger] cells_down(cells0, j)),
            ensures
                self.wf(),
                0 <= k,
                k == 0 ==> *self == start,
                k > 0 ==> self.only_cells_changed(start, cells_down(cells0, k)),
                forall|j: int| 1 <= j <= k ==> fits_on(start.board(), #[trigger] cells_down(cells0, j)),
                !fits_on(start.board(), cells_down(cells0, k + 1)),
            decreases floor_y - cells0[0].y - k,
        {
            proof {
                let cur = cells_down(cells0, k);
                assert(cells_moved(cur, BVec { x: 0, y: 1 }) =~= cells_down(cells0, k + 1));
                assert(cells_within(cur, i32::MAX - 1)) by {
                    assert forall|q: int| 0 <= q < cur.len() implies -(i32::MAX - 1) <= (#[trigger] cur[q]).x <= i32::MAX - 1 && -(i32::MAX - 1) <= cur[q].y <= i32::MAX - 1 by {
                        assert(cells0[q].y + (floor_y - cells0[0].y) <= i32::MAX - 1);
                    }
                }
            }
            let moved_down = self.move_c_buyo_down();
            if !moved_down {
                break;
            }
            proof {
                k = k + 1;
                if cells0[0].y + k == floor_y {
                    assert(cells_down(cells0, k)[0] == BVec { x: cells0[0].x, y: floor_y as i32 });
                }
            }
        }
        proof {
            if k == 0 {
                assert(self.only_cells_changed(start, cells_down(cells0, 0)));
            }
        }
    }

    /// The settled blocks and walls with the piece's blocks on them.
    pub fn get_board(&self) -> (r: Board)
        requires
            self.wf(),
        ensures
            r.wf(),
            r@ == self.shown(),
    {
        let mut a = self.minos.copy();
        match &self.controlled_mino {
            Some(c) => {
                let mut i: usize = 0;
                while i < c.vec.len()
                    invariant
                        a.wf(),
                        i <= c.vec@.len(),
                        a@ == put_all(self.board(), c.vec@.take(i as int), c.color),
                    decreases c.vec@.len() - i,
                {
                    a.insert(c.vec[i], c.color);
                    proof {
                        assert(c.vec@.take(i + 1).drop_last() =~= c.vec@.take(i as int));
                    }
                    i = i + 1;
                }
                assert(c.vec@.take(c.vec@.len() as int) =~= c.vec@);
            },
            None => {},
        }
        a
    }

    /// The picture of the board with the piece on it, one line per row from row `0` down to
    /// the lowest cell, each from column `0` to the rightmost cell: walls `#`, blocks by the
    /// letter of their piece.
    pub fn board_text(&self) -> (s: String)
        requires
            self.wf(),
            self.can_show(),
        ensures
            ({
                let m = self.shown();
                exists|b: Board| b@ == m && s@ == tet_rows_text(m, max_y0(b.entries()) + 1, max_x0(b.entries()))
            }),
    {
        let b = self.get_board();
        let ghost e = b.entries();
        let ghost m = b@;
        let mut hx: i32 = 0;
        let mut hy: i32 = 0;
        let n = b.len();
        let mut i: usize = 0;
        while i < n
            invariant
                n == e.len(),
                e == b.entries(),
                i <= n,
                hx == max_x0(e.take(i as int)),
                hy == max_y0(e.take(i as int)),
                0 <= hx,
                0 <= hy,
            decreases n - i,
        {
            let (v, _t) = b.entry(i);
            assert(e.take(i + 1).drop_last() =~= e.take(i as int));
            if v.x > hx { hx = v.x; }
            if v.y > hy { hy = v.y; }
            i = i + 1;
        }
        assert(e.take(n as int) =~= e);
        let mut out = String::new();
        let mut y: i64 = 0;
        while y <= hy as i64
            invariant
                0 <= y <= hy + 1,
                0 <= hx,
                b.wf(),
                m == b@,
                forall|p: BVec| #[trigger] m.contains_key(p) ==> p.x >= 0 && p.y >= 0 && tet_sprite(m[p]),
                out@ == tet_rows_text(m, y as int, hx as int),
            decreases hy + 1 - y,
        {
            let mut x: i64 = 0;
            let ghost row_start = out@;
            while x <= hx as i64
                invariant
                    0 <= x <= hx + 1,
                    0 <= y <= hy,
                    b.wf(),
                    m == b@,
                    forall|p: BVec| #[trigger] m.contains_key(p) ==> p.x >= 0 && p.y >= 0 && tet_sprite(m[p]),
                    out@ == row_start + Seq::new(x as nat, |k: int| tet_cell_char(m, BVec { x: k as i32, y: y as i32 })),
                decreases hx + 1 - x,
            {
                let p = BVec::new(x as i32, y as i32);
                let ch = match b.get(&p) {
                    Some(t) => match t {
                        Sprite::TetT => 'T',
                        Sprite::TetI => 'I',
                        Sprite::TetO => 'O',
                        Sprite::TetJ => 'J',
                        Sprite::TetL => 'L',
                        Sprite::TetS => 'S',
                        Sprite::TetZ => 'Z',
                        _ => '#',
                    },
                    None => ' ',
                };
                assert(ch == tet_cell_char(m, p));
                out.append(tet_char_str(ch));
                proof {
                    assert(out@ =~= row_start + Seq::new((x + 1) as nat, |k: int| tet_cell_char(m, BVec { x: k as i32, y: y as i32 })));
                }
                x = x + 1;
            }
            out.append(tet_char_str('\n'));
            proof {
                assert(tet_row_text(m, y as int, hx as int) =~= Seq::new((hx + 1) as nat, |k: int| tet_cell_char(m, BVec { x: k as i32, y: y as i32 })).push('\n'));
                assert(out@ =~= tet_rows_text(m, y + 1, hx as int));
            }
            y = y + 1;
        }
        out
    }

    /// What `game_loop` needs for the phase the game is in.
    pub open spec fn can_step(&self, last_update: u64, current_time: u64) -> bool {
        &&& last_update <= current_time
        &&& match self.state() {
            LoopState::Spawning => {
                &&& 1 <= self.rng().max() <= 7
                &&& self.rng().can_get(self.rng().position())
            },
            LoopState::Falling => self.piece_cells() matches Some(cells) ==> cells_within(cells, i32::MAX - 1),
            _ => true,
        }
    }

    /// Advances the game loop, given the time of the last update and the current time
    /// (milliseconds); gives whether the phase's delay had passed. A falling piece moves down
    /// a cell per step until it lands; a new piece of a randomly drawn shape spawns.
    pub fn game_loop(&mut self, last_update: u64, current_time: u64) -> (r: bool)
        requires
            old(self).wf(),
            old(self).can_step(last_update, current_time),
        ensures
            final(self).wf(),
            ({
                let delta = current_time - last_update;
                let o = *old(self);
                let f = *final(self);
                let tu = o.tuning();
                match o.state() {
                    LoopState::Falling => if delta < tu.fall_speed {
                        !r && f == o
                    } else {
                        &&& r
                        &&& match o.piece_cells() {
                            None => f.only_state_changed(o, LoopState::LockingOrClearing),
                            Some(cells) => if fits_on(o.board(), cells_moved(cells, BVec { x: 0, y: 1 })) {
                                f.only_cells_changed(o, cells_moved(cells, BVec { x: 0, y: 1 }))
                            } else {
                                f.only_state_changed(o, LoopState::LockingOrClearing)
                            },
                        }
                    },
                    LoopState::Spawning => if delta < tu.spawn_delay {
                        !r && f == o
                    } else {
                        let p = o.rng().position();
                        let shape = shape_of_draw(f.rng().draws()[p] as int);
                        &&& r
                        &&& f.rng().wf()
                        &&& f.rng().max() == o.rng().max()
                        &&& f.rng().start() == o.rng().start()
                        &&& f.rng().position() == p + 1
                        &&& f.rng().draws().len() == if o.rng().draws().len() > p {
                            o.rng().draws().len() as int
                        } else {
                            p + 1
                        }
                        &&& f.rng().draws().take(o.rng().draws().len() as int) == o.rng().draws()
                        &&& f.piece() matches Some(c) && c.vec@ == spawn_cells(shape) && c.color
                            == shape_sprite(shape) && c.shape == shape && c.rot == Rotation::Up
                        &&& f.board_store() == o.board_store()
                        &&& f.state() == LoopState::Falling
                        &&& f.tuning() == tu
                    },
                    LoopState::LockingOrClearing => r == !(delta < tu.lock_delay) && f == o,
                    LoopState::OnFloor(_) => r && f == o,
                }
            }),
    {
        let delta_time = current_time - last_update;
        match self.loop_state {
            LoopState::Falling => {
                if delta_time < self.tuning.fall_speed {
                    return false;
                }
                let on_ground = !self.move_c_buyo_down();
                if on_ground {
                    self.loop_state = LoopState::LockingOrClearing;
                }
            },
            LoopState::Spawning => {
                if delta_time < self.tuning.spawn_delay {
                    return false;
                }
                let d = self.randomizer.next();
                proof { self.randomizer.lemma_draws_valid(); }
                let shape = match d {
                    0 => Shapes::I,
                    1 => Shapes::J,
                    2 => Shapes::L,
                    3 => Shapes::O,
                    4 => Shapes::S,
                    5 => Shapes::T,
                    _ => Shapes::Z,
                };
                self.spawn_c_mino(shape);
                self.loop_state = LoopState::Falling;
            },
            LoopState::LockingOrClearing => {
                if delta_time < self.tuning.lock_delay {
                    return false;
                }
            },
            LoopState::OnFloor(_time) => {},
        }
        true
    }

    /// Moves the piece one cell left, unless blocked.
    pub fn input_left(&mut self) -> (r: bool)
        requires
            old(self).wf(),
            old(self).piece_cells() matches Some(cells) ==> cells_within(cells, i32::MAX - 1),
        ensures
            final(self).wf(),
            match old(self).piece_cells() {
                None => !r && *final(self) == *old(self),
                Some(cells) => if fits_on(old(self).board(), cells_moved(cells, BVec { x: -1i32, y: 0 })) {
                    r && final(self).only_cells_changed(*old(self), cells_moved(cells, BVec { x: -1i32, y: 0 }))
                } else {
                    !r && *final(self) == *old(self)
                },
            },
    {
        self.move_c_mino_if_no_collision(BVec::new(-1, 0))
    }

    /// Moves the piece one cell right, unless blocked.
    pub fn input_right(&mut self) -> (r: bool)
        requires
            old(self).wf(),
            old(self).piece_cells() matches Some(cells) ==> cells_within(cells, i32::MAX - 1),
        ensures
            final(self).wf(),
            match old(self).piece_cells() {
                None => !r && *final(self) == *old(self),
                Some(cells) => if fits_on(old(self).board(), cells_moved(cells, BVec { x: 1, y: 0 })) {
                    r && final(self).only_cells_changed(*old(self), cells_moved(cells, BVec { x: 1, y: 0 }))
                } else {
                    !r && *final(self) == *old(self)
                },
            },
    {
        self.move_c_mino_if_no_collision(BVec::new(1, 0))
    }

    /// Moves the piece one cell down, unless blocked.
    pub fn move_c_buyo_down(&mut self) -> (r: bool)
        requires
            old(self).wf(),
            old(self).piece_cells() matches Some(cells) ==> cells_within(cells, i32::MAX - 1),
        ensures
            final(self).wf(),
            match old(self).piece_cells() {
                None => !r && *final(self) == *old(self),
                Some(cells) => if fits_on(old(self).board(), cells_moved(cells, BVec { x: 0, y: 1 })) {
                    r && final(self).only_cells_changed(*old(self), cells_moved(cells, BVec { x: 0, y: 1 }))
                } else {
                    !r && *final(self) == *old(self)
                },
            },
    {
        self.move_c_mino_if_no_collision(BVec::new(0, 1))
    }
}

/// Whether the falling-tetromino game can show `s`.
fn is_tet_sprite(s: Sprite) -> (r: bool)
    ensures
        r == tet_sprite(s),
{
    match s {
        Sprite::Wall | Sprite::TetT | Sprite::TetI | Sprite::TetO | Sprite::TetJ | Sprite::TetL
        | Sprite::TetS | Sprite::TetZ => true,
        _ => false,
    }
}

/// Whether every cell of `cells` lies within `bound` of the origin (see `cells_within`).
fn cells_within_now(cells: &Vec<BVec>, bound: i32) -> (r: bool)
    requires
        bound >= 0,
    ensures
        r == cells_within(cells@, bound as int),
{
    let mut i: usize = 0;
    while i < cells.len()
        invariant
            bound >= 0,
            i <= cells@.len(),
            forall|k: int| 0 <= k < i ==> -bound <= (#[trigger] cells@[k]).x <= bound && -bound <= cells@[k].y <= bound,
        decreases cells@.len() - i,
    {
        let p = cells[i];
        if !(-bound <= p.x && p.x <= bound && -bound <= p.y && p.y <= bound) {
            return false;
        }
        i = i + 1;
    }
    true
}

/// Checks, at run time, of what the game's operations ask for.
impl Tet {
    /// Whether the piece can be moved by one cell: it is away from the ends of `i32`.
    pub fn can_shift_now(&self) -> (r: bool)
        ensures
            r == (self.piece_cells() matches Some(cells) ==> cells_within(cells, i32::MAX - 1)),
    {
        match &self.controlled_mino {
            None => true,
            Some(c) => cells_within_now(&c.vec, i32::MAX - 1),
        }
    }

    /// Whether the piece can be turned `rots` quarter turns (see `can_turn`).
    pub fn can_turn_now(&self, rots: i32) -> (r: bool)
        requires
            self.wf(),
        ensures
            r == self.can_turn(rots),
    {
        let c = match &self.controlled_mino {
            None => return true,
            Some(c) => c,
        };
        if c.color == Sprite::TetO {
            return true;
        }
        let ghost cells = c.vec@;
        let n = c.vec.len();
        if n == 0 {
            return false;
        }
        let ri = rotation_number(c.rot);
        if !(0 <= ri as i64 + rots as i64 && ri as i64 + rots as i64 <= 0x7fff_ffff) {
            return false;
        }
        let rf = match (ri + rots) % 4 {
            0 => Rotation::Up,
            1 => Rotation::Right,
            2 => Rotation::Down,
            _ => Rotation::Left,
        };
        assert(rf == turned_rotation(c.rot, rots));
        let ghost nt = turns(rots);
        let kicks = self.tables.get_kicks(&c.rot, &rf, &c.shape);
        let c0 = c.vec[0];
        let mut k: usize = 0;
        while k < n
            invariant
                self.wf(),
                self.piece() == Some(*c),
                cells == c.vec@,
                n == cells.len(),
                n > 0,
                c0 == cells[0],
                c.color != Sprite::TetO,
                0 <= rotation_index(c.rot) + rots <= i32::MAX,
                rf == turned_rotation(c.rot, rots),
                nt == turns(rots),
                kicks@.len() == 5,
                forall|q: int| 0 <= q < 5 ==> #[trigger] kicks@[q] == kick_of(c.shape, c.rot, rf, q),
                k <= n,
                forall|q: int| 0 <= q < k ==> #[trigger] cell_turn_fits(cells, q, nt, c.shape, c.rot, rf),
            decreases n - k,
        {
            let ck = c.vec[k];
            let dx = ck.x as i64 - c0.x as i64;
            let dy = ck.y as i64 - c0.y as i64;
            if !(-0x7fff_ffff <= dx && dx <= 0x7fff_ffff && -0x7fff_ffff <= dy && dy <= 0x7fff_ffff) {
                assert(!cell_turn_fits(cells, k as int, nt, c.shape, c.rot, rf));
                return false;
            }
            let mut v = BVec::new(dx as i32, dy as i32);
            let ghost v0 = v;
            let mut i: i32 = 0;
            while i < rots
                invariant
                    0 <= i,
                    rots > 0 ==> i <= rots,
                    rots <= 0 ==> i == 0,
                    v == rot_cw(v0, i as nat),
                    -i32::MAX <= v0.x <= i32::MAX,
                    -i32::MAX <= v0.y <= i32::MAX,
                decreases rots - i,
            {
                proof {
                    lemma_rot_step(v0, i as nat);
                    lemma_rot_bound(v0, i as nat, i32::MAX as int);
                }
                let x_old = v.x;
                v.x = -v.y;
                v.y = x_old;
                i = i + 1;
            }
            assert(v == turn_offset_at(cells, k as int, nt));
            let tx = c0.x as i64 + v.x as i64;
            let ty = c0.y as i64 + v.y as i64;
            if !(-0x8000_0000 <= tx && tx <= 0x7fff_ffff && -0x8000_0000 <= ty && ty <= 0x7fff_ffff) {
                assert(!cell_turn_fits(cells, k as int, nt, c.shape, c.rot, rf));
                return false;
            }
            let mut j: usize = 0;
            while j < 5
                invariant
                    self.piece() == Some(*c),
                    cells == c.vec@,
                    n == cells.len(),
                    k < n,
                    c.color != Sprite::TetO,
                    0 <= rotation_index(c.rot) + rots <= i32::MAX,
                    rf == turned_rotation(c.rot, rots),
                    nt == turns(rots),
                    kicks@.len() == 5,
                    forall|q: int| 0 <= q < 5 ==> #[trigger] kicks@[q] == kick_of(c.shape, c.rot, rf, q),
                    j <= 5,
                    tx == cells[0].x + turn_offset_at(cells, k as int, nt).x,
                    ty == cells[0].y + turn_offset_at(cells, k as int, nt).y,
                    forall|q: int| 0 <= q < j ==> fits_i32(tx + (#[trigger] board_kick(c.shape, c.rot, rf, q)).x)
                        && fits_i32(ty + board_kick(c.shape, c.rot, rf, q).y),
                decreases 5 - j,
            {
                let kk = kicks[j];
                proof {
                    lemma_offsets_small(c.shape, c.rot, j as int);
                    lemma_offsets_small(c.shape, rf, j as int);
                }
                assert(board_kick(c.shape, c.rot, rf, j as int) == BVec { x: kk.x, y: (-kk.y) as i32 });
                let bx = tx + kk.x as i64;
                let by = ty - kk.y as i64;
                if !(-0x8000_0000 <= bx && bx <= 0x7fff_ffff && -0x8000_0000 <= by && by <= 0x7fff_ffff) {
                    assert(!cell_turn_fits(cells, k as int, nt, c.shape, c.rot, rf));
                    return false;
                }
                j = j + 1;
            }
            assert(cell_turn_fits(cells, k as int, nt, c.shape, c.rot, rf));
            k = k + 1;
        }
        true
    }

    /// Whether the board with the piece on it can be drawn (see `can_show`).
    pub fn can_show_now(&self) -> (r: bool)
        requires
            self.wf(),
        ensures
            r == self.can_show(),
    {
        let b = self.get_board();
        let ghost e = b.entries();
        let ghost m = b@;
        proof {
            b.lemma_view();
        }
        let n = b.len();
        let mut i: usize = 0;
        while i < n
            invariant
                b.wf(),
                e == b.entries(),
                m == b@,
                m == cells_map(e),
                m == self.shown(),
                n == e.len(),
                i <= n,
                forall|j: int|
                    0 <= j < i ==> (#[trigger] e[j]).0.x >= 0 && e[j].0.y >= 0 && tet_sprite(e[j].1)
                        && e[j].0.x < i32::MAX && e[j].0.y < i32::MAX,
            decreases n - i,
        {
            let (p, t) = b.entry(i);
            if !(p.x >= 0 && p.y >= 0 && p.x < i32::MAX && p.y < i32::MAX && is_tet_sprite(t)) {
                proof {
                    lemma_cells_map_at(e, i as int);
                    assert(m.contains_key(p));
                }
                return false;
            }
            i = i + 1;
        }
        assert forall|p: BVec| #[trigger] m.contains_key(p) implies p.x >= 0 && p.y >= 0 && tet_sprite(m[p])
            && p.x < i32::MAX && p.y < i32::MAX by {
            let j = choose|j: int| 0 <= j < e.len() && (#[trigger] e[j]).0 == p;
            lemma_cells_map_at(e, j);
        }
        true
    }

    /// Whether the piece can be dropped (see `can_drop`).
    pub fn can_drop_now(&self) -> (r: bool)
        requires
            self.wf(),
        ensures
            r == self.can_drop(),
    {
        let c = match &self.controlled_mino {
            None => return true,
            Some(c) => c,
        };
        let ghost cells = c.vec@;
        assert(self.piece_cells() == Some(cells));
        let n = c.vec.len();
        if n == 0 {
            return false;
        }
        let c0 = c.vec[0];
        let mut room: i64 = (i32::MAX - 1) as i64 - c0.y as i64;
        let mut i: usize = 0;
        while i < n
            invariant
                self.piece_cells() == Some(cells),
                cells == c.vec@,
                n == cells.len(),
                n > 0,
                c0 == cells[0],
                i <= n,
                -1 <= room <= 2 * (i32::MAX as int),
                forall|k: int| 0 <= k < i ==> -(i32::MAX - 1) <= (#[trigger] cells[k]).x <= i32::MAX - 1
                    && -(i32::MAX - 1) <= cells[k].y,
                forall|k: int| 0 <= k < i ==> (#[trigger] cells[k]).y + room <= i32::MAX - 1,
                cells[0].y + room <= i32::MAX - 1,
                exists|k: int| 0 <= k < n && (#[trigger] cells[k]).y + room == i32::MAX - 1,
            decreases n - i,
        {
            let p = c.vec[i];
            if !(-(i32::MAX - 1) <= p.x && p.x <= i32::MAX - 1 && -(i32::MAX - 1) <= p.y) {
                assert forall|d: int| !drop_room(cells, d) by {
                    assert(cells[i as int] == p);
                }
                return false;
            }
            if (i32::MAX - 1) as i64 - (p.y as i64) < room {
                room = (i32::MAX - 1) as i64 - p.y as i64;
                assert(cells[i as int].y + room == i32::MAX - 1);
            }
            i = i + 1;
        }
        assert forall|d: int| #[trigger] drop_room(cells, d) <==> d <= room by {
            if d > room {
                let k = choose|k: int| 0 <= k < n && (#[trigger] cells[k]).y + room == i32::MAX - 1;
                assert(cells[k].y + d > i32::MAX - 1);
            }
        }
        assert(-(i32::MAX - 1) <= cells[0].y);
        let ghost e = self.minos.entries();
        let ghost m = self.board();
        proof {
            self.minos.lemma_view();
        }
        let bn = self.minos.len();
        let mut j: usize = 0;
        while j < bn
            invariant
                self.piece_cells() == Some(cells),
                e == self.minos.entries(),
                m == self.board(),
                m == cells_map(e),
                crate::board::keys_unique(e),
                bn == e.len(),
                j <= bn,
                cells.len() > 0,
                c0 == cells[0],
                -(i32::MAX - 1) <= c0.y,
                c0.y + room <= i32::MAX - 1,
                forall|d: int| #[trigger] drop_room(cells, d) <==> d <= room,
                forall|q: int| 0 <= q < j ==> (#[trigger] e[q]).0.x != c0.x || e[q].0.y <= c0.y || e[q].0.y - c0.y > room,
            decreases bn - j,
        {
            let (q, _t) = self.minos.entry(j);
            if q.x == c0.x && q.y > c0.y && (q.y as i64 - c0.y as i64) <= room {
                proof {
                    lemma_cells_map_at(e, j as int);
                    let y = q.y as int;
                    assert(BVec { x: cells[0].x, y: y as i32 } == q);
                    assert(drop_room(cells, y - cells[0].y));
                    assert(self.board().contains_key(BVec { x: cells[0].x, y: y as i32 }));
                    assert(cells[0].y < y);
                    assert(exists|y: int|
                        cells[0].y < y && #[trigger] self.board().contains_key(BVec { x: cells[0].x, y: y as i32 })
                            && drop_room(cells, y - cells[0].y));
                }
                return true;
            }
            j = j + 1;
        }
        assert forall|y: int|
            cells[0].y < y && #[trigger] self.board().contains_key(BVec { x: cells[0].x, y: y as i32 })
                implies !drop_room(cells, y - cells[0].y) by {
            if drop_room(cells, y - cells[0].y) {
                assert(y <= i32::MAX - 1);
                let q = choose|q: int| 0 <= q < e.len() && (#[trigger] e[q]).0 == BVec { x: cells[0].x, y: y as i32 };
                assert(e[q].0.y == y);
            }
        }
        false
    }

    /// Whether `game_loop` can be called (see `can_step`).
    pub fn can_step_now(&self, last_update: u64, current_time: u64) -> (r: bool)
        requires
            self.wf(),
        ensures
            r == self.can_step(last_update, current_time),
    {
        if last_update > current_time {
            return false;
        }
        match self.loop_state {
            LoopState::Spawning => {
                let p = self.randomizer.position_now();
                let m = self.randomizer.bound();
                1 <= m && m <= 7 && self.randomizer.can_get_now(p)
            },
            LoopState::Falling => self.can_shift_now(),
            _ => true,
        }
    }
}

} // verus!
