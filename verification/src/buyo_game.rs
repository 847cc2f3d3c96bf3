//! The falling-pairs game: pairs of coloured blobs fall onto a walled board; groups of
//! four or more connected blobs of one colour pop, and pops score in chains.
use vstd::prelude::*;
use crate::vectors::{BVec, fits_i32};
use crate::board::{Board, has_key, cells_map, lemma_cells_map_at};
use crate::randomizer::Randomizer;
use crate::blockstacker::Tuning;
use crate::text::str_eq;
use crate::Sprite;
use crate::gravity::{gravity_pass, grounded, settled, fall, potential, lemma_fall_refl, lemma_fall_trans, lemma_potential_nonneg, is_grounded, is_settled};
use crate::pop::{pop_groups, after_pop, can_pop, can_pop_now, first_big, popped_total, colors_before, bonus_list, lemma_grounded_after_pop};

verus! {

/// The colours of the falling-pairs game.
#[derive(Copy, Clone, Eq, PartialEq, Hash, Debug, Structural)]
pub enum BType {
    Red,
    Blue,
    Green,
    Purple,
    Wall,
}

/// Colours that can be read from their name.
#[allow(non_camel_case_types)]
pub trait color {
    fn from_str(color: &str) -> Option<Self> where Self: Sized;
}

/// The colour named `t`, written in lower case.
pub open spec fn btype_named(t: Seq<char>) -> Option<BType> {
    if t == "red"@ {
        Some(BType::Red)
    } else if t == "blue"@ {
        Some(BType::Blue)
    } else if t == "green"@ {
        Some(BType::Green)
    } else if t == "purple"@ {
        Some(BType::Purple)
    } else if t == "wall"@ {
        Some(BType::Wall)
    } else {
        None
    }
}

/// What `str::to_lowercase` returns for a string.
pub uninterp spec fn lowercase(s: Seq<char>) -> Seq<char>;

/// Every character of `s` is ASCII.
pub open spec fn ascii_text(s: Seq<char>) -> bool {
    forall|i: int| 0 <= i < s.len() ==> (#[trigger] s[i] as int) < 128
}

/// `c` in lower case when it is an ASCII capital letter, else `c` itself.
pub open spec fn ascii_lower(c: char) -> char {
    if 65 <= (c as int) <= 90 {
        ((c as int) + 32) as char
    } else {
        c
    }
}

/// Calls `str::to_lowercase`. Its result is named `lowercase`, a function of the text
/// alone; for ASCII text it is the text with each capital letter `A` to `Z` replaced by its
/// small letter, which is what Unicode's lower-case mapping does on ASCII. What it does to
/// other characters is left unsaid.
#[verifier::external_body]
fn to_lowercase(s: &str) -> (r: String)
    ensures
        r@ == lowercase(s@),
        ascii_text(s@) ==> r@ == s@.map_values(|c: char| ascii_lower(c)),
{
    s.to_lowercase()
}

/// The colour whose lower-case name is `t`.
pub fn btype_from_lowercase(t: &str) -> (r: Option<BType>)
    ensures
        r == btype_named(t@),
{
    if str_eq(t, "red") {
        Some(BType::Red)
    } else if str_eq(t, "blue") {
        Some(BType::Blue)
    } else if str_eq(t, "green") {
        Some(BType::Green)
    } else if str_eq(t, "purple") {
        Some(BType::Purple)
    } else if str_eq(t, "wall") {
        Some(BType::Wall)
    } else {
        None
    }
}

impl color for BType {
    /// The colour named `color`, in any letter case.
    fn from_str(color: &str) -> (r: Option<BType>)
        ensures
            r == btype_named(lowercase(color@)),
            ascii_text(color@) ==> r == btype_named(color@.map_values(|c: char| ascii_lower(c))),
    {
        let lower = to_lowercase(color);
        btype_from_lowercase(lower.as_str())
    }
}

/// The name of a colour, as its variant is written.
pub open spec fn btype_name(t: BType) -> Seq<char> {
    match t {
        BType::Red => "Red"@,
        BType::Blue => "Blue"@,
        BType::Green => "Green"@,
        BType::Purple => "Purple"@,
        BType::Wall => "Wall"@,
    }
}

impl BType {
    /// The name of this colour.
    pub fn to_string(&self) -> (r: String)
        ensures
            r@ == btype_name(*self),
    {
        match self {
            BType::Red => String::from_str("Red"),
            BType::Blue => String::from_str("Blue"),
            BType::Green => String::from_str("Green"),
            BType::Purple => String::from_str("Purple"),
            BType::Wall => String::from_str("Wall"),
        }
    }
}

/// The sprite of the colour drawn as number `i`.
pub open spec fn sprite_of_draw(i: int) -> Sprite {
    if i == 0 {
        Sprite::BuyoRed
    } else if i == 1 {
        Sprite::BuyoBlue
    } else if i == 2 {
        Sprite::BuyoGreen
    } else {
        Sprite::BuyoPurple
    }
}

/// The sprite of the colour drawn as number `i`, one of the four colours.
pub fn to_sprite(i: i32) -> (r: Sprite)
    requires
        0 <= i < 4,
    ensures
        r == sprite_of_draw(i as int),
{
    match i {
        0 => Sprite::BuyoRed,
        1 => Sprite::BuyoBlue,
        2 => Sprite::BuyoGreen,
        _ => Sprite::BuyoPurple,
    }
}

/// The bonus for the number of colours popped in one step.
pub open spec fn color_bonus_table() -> Seq<i32> {
    seq![0, 0, 3, 6, 12, 24]
}

/// The bonus for the size of a popped group, indexed by size minus four.
pub open spec fn group_bonus_table() -> Seq<i32> {
    seq![0, 2, 3, 4, 5, 6, 7, 10]
}

/// The bonus for the length of a chain.
pub open spec fn chain_power_table() -> Seq<i32> {
    seq![
        0, 0, 8, 16, 32, 64, 96, 128, 160, 192, 224, 256, 288, 320, 352, 384, 416, 448,
        480, 512, 544, 576, 608, 640, 672,
    ]
}

/// Entry `i` of a table; an index below zero or past the end reads the last entry.
/// (Index `table.len()` itself is out of bounds.)
pub open spec fn table_item(table: Seq<i32>, i: int) -> i32 {
    if i < 0 || i > table.len() {
        table.last()
    } else {
        table[i]
    }
}

/// Every chain power lies in `0..=672`.
pub proof fn lemma_chain_power_small(i: int)
    requires
        i != chain_power_table().len(),
    ensures
        0 <= table_item(chain_power_table(), i) <= 672,
{
    let t = chain_power_table();
    if i == 0 {
        assert(t[0] == 0);
    } else if i == 1 {
        assert(t[1] == 0);
    } else if i == 2 {
        assert(t[2] == 8);
    } else if i == 3 {
        assert(t[3] == 16);
    } else if i == 4 {
        assert(t[4] == 32);
    } else if i == 5 {
        assert(t[5] == 64);
    } else if i == 6 {
        assert(t[6] == 96);
    } else if i == 7 {
        assert(t[7] == 128);
    } else if i == 8 {
        assert(t[8] == 160);
    } else if i == 9 {
        assert(t[9] == 192);
    } else if i == 10 {
        assert(t[10] == 224);
    } else if i == 11 {
        assert(t[11] == 256);
    } else if i == 12 {
        assert(t[12] == 288);
    } else if i == 13 {
        assert(t[13] == 320);
    } else if i == 14 {
        assert(t[14] == 352);
    } else if i == 15 {
        assert(t[15] == 384);
    } else if i == 16 {
        assert(t[16] == 416);
    } else if i == 17 {
        assert(t[17] == 448);
    } else if i == 18 {
        assert(t[18] == 480);
    } else if i == 19 {
        assert(t[19] == 512);
    } else if i == 20 {
        assert(t[20] == 544);
    } else if i == 21 {
        assert(t[21] == 576);
    } else if i == 22 {
        assert(t[22] == 608);
    } else if i == 23 {
        assert(t[23] == 640);
    } else if i == 24 {
        assert(t[24] == 672);
    } else {
        assert(t.last() == 672);
    }
}

/// The scoring tables.
pub struct Tables {
    color_bonus_table: Vec<i32>,
    group_bonus_table: Vec<i32>,
    chain_power_table: Vec<i32>,
}

impl Tables {
    /// The tables hold the fixed bonus values.
    pub closed spec fn wf(&self) -> bool {
        &&& self.color_bonus_table@ == color_bonus_table()
        &&& self.group_bonus_table@ == group_bonus_table()
        &&& self.chain_power_table@ == chain_power_table()
    }

    pub fn new() -> (r: Tables)
        ensures
            r.wf(),
    {
        let r = Tables {
            color_bonus_table: vec![0, 0, 3, 6, 12, 24],
            group_bonus_table: vec![0, 2, 3, 4, 5, 6, 7, 10],
            chain_power_table: vec![
                0, 0, 8, 16, 32, 64, 96, 128, 160, 192, 224, 256, 288, 320, 352, 384, 416, 448,
                480, 512, 544, 576, 608, 640, 672,
            ],
        };
        assert(r.color_bonus_table@ =~= color_bonus_table());
        assert(r.group_bonus_table@ =~= group_bonus_table());
        assert(r.chain_power_table@ =~= chain_power_table());
        r
    }

    fn get_item_in_table(&self, i: i32, table: &Vec<i32>) -> (r: i32)
        requires
            table.len() > 0,
            i != table.len(),
        ensures
            r == table_item(table@, i as int),
    {
        if i < 0 || i as usize > table.len() {
            table[table.len() - 1]
        } else {
            table[i as usize]
        }
    }

    /// The colour bonus for `i` colours.
    pub fn get_cb(&self, i: i32) -> (r: i32)
        requires
            self.wf(),
            i != color_bonus_table().len(),
        ensures
            r == table_item(color_bonus_table(), i as int),
    {
        self.get_item_in_table(i, &self.color_bonus_table)
    }

    /// The group bonus for a group of `i + 4` blobs.
    pub fn get_gb(&self, i: i32) -> (r: i32)
        requires
            self.wf(),
            i != group_bonus_table().len(),
        ensures
            r == table_item(group_bonus_table(), i as int),
    {
        self.get_item_in_table(i, &self.group_bonus_table)
    }

    /// The chain power of a chain of length `i`.
    pub fn get_cp(&self, i: i32) -> (r: i32)
        requires
            self.wf(),
            i != chain_power_table().len(),
        ensures
            r == table_item(chain_power_table(), i as int),
    {
        self.get_item_in_table(i, &self.chain_power_table)
    }
}

/// The sum of a sequence.
pub open spec fn seq_sum(s: Seq<i32>) -> int
    decreases s.len(),
{
    if s.len() == 0 {
        0
    } else {
        seq_sum(s.drop_last()) + s.last()
    }
}

/// The bonus multiplier of a chain step, before clamping.
pub open spec fn raw_bonus(chain_power: int, colors: int, group_bonus: Seq<i32>) -> int {
    table_item(chain_power_table(), chain_power) + table_item(color_bonus_table(), colors)
        + seq_sum(group_bonus)
}

/// The bonus multiplier, clamped to `1..=999`.
pub open spec fn clamped_bonus(b: int) -> int {
    if b < 1 {
        1
    } else if b > 999 {
        999
    } else {
        b
    }
}

/// The score of a chain step: ten points per blob cleared, times the clamped bonus.
pub open spec fn chain_score(cleared: int, chain_power: int, colors: int, group_bonus: Seq<i32>) -> int {
    (10 * cleared) * clamped_bonus(raw_bonus(chain_power, colors, group_bonus))
}

/// Whether computing a chain step's score stays within `i32`.
pub open spec fn score_fits(cleared: int, chain_power: int, colors: int, group_bonus: Seq<i32>) -> bool {
    &&& forall|k: int| 0 <= k <= group_bonus.len() ==> fits_i32(#[trigger] seq_sum(group_bonus.take(k)))
    &&& fits_i32(table_item(chain_power_table(), chain_power) + table_item(color_bonus_table(), colors))
    &&& fits_i32(raw_bonus(chain_power, colors, group_bonus))
    &&& fits_i32(10 * cleared)
    &&& fits_i32(chain_score(cleared, chain_power, colors, group_bonus))
}

/// The sum of the entries of `v`.
fn sum_vec(v: &Vec<i32>) -> (r: i32)
    requires
        forall|k: int| 0 <= k <= v@.len() ==> fits_i32(#[trigger] seq_sum(v@.take(k))),
    ensures
        r == seq_sum(v@),
{
    let mut total: i32 = 0;
    let mut i: usize = 0;
    while i < v.len()
        invariant
            i <= v@.len(),
            total == seq_sum(v@.take(i as int)),
            forall|k: int| 0 <= k <= v@.len() ==> fits_i32(#[trigger] seq_sum(v@.take(k))),
        decreases v@.len() - i,
    {
        assert(v@.take(i + 1).drop_last() =~= v@.take(i as int));
        assert(fits_i32(seq_sum(v@.take(i + 1))));
        total = total + v[i];
        i = i + 1;
    }
    assert(v@.take(v@.len() as int) =~= v@);
    total
}

/// The score of a chain step from its parts: `cleared` blobs, a chain of length
/// `chain_power`, `colors` colours and the group bonuses `group_bonus`.
pub fn score_of(tables: &Tables, cleared: i32, chain_power: i32, colors: usize, group_bonus: &Vec<i32>) -> (r: i32)
    requires
        tables.wf(),
        chain_power != chain_power_table().len(),
        colors != color_bonus_table().len(),
        colors <= i32::MAX,
        score_fits(cleared as int, chain_power as int, colors as int, group_bonus@),
    ensures
        r == chain_score(cleared as int, chain_power as int, colors as int, group_bonus@),
{
    let gb = sum_vec(group_bonus);
    let mut bonus = tables.get_cp(chain_power) + tables.get_cb(colors as i32) + gb;
    if bonus < 1 {
        bonus = 1;
    } else if bonus > 999 {
        bonus = 999;
    }
    (10 * cleared) * bonus
}

/// A blob of the falling pair: its cell, its drawing offset and its sprite.
#[derive(Copy, Clone, Eq, PartialEq, Hash, Debug, Structural)]
pub struct Buyo {
    pub p: BVec,
    pub offset_x: i32,
    pub offset_y: i32,
    pub t: Sprite,
}

/// The phases of the game loop.
#[derive(Copy, Clone, Eq, PartialEq, Debug, Structural)]
pub enum LoopState {
    SpawnNew,
    Falling,
    Locking,
    /// The pair landed at this time stamp.
    OnFloor(u64),
    Chaining,
}

/// The walls of a board `w` cells wide and `h` cells high: the border of the rectangle
/// from `(0, 0)` to `(w + 1, h + 1)`.
pub open spec fn wall_frame(w: int, h: int) -> Map<BVec, Sprite> {
    Map::new(
        |p: BVec|
            0 <= p.x < w + 2 && 0 <= p.y < h + 2 && (p.x == 0 || p.x == w + 1 || p.y == 0 || p.y
                == h + 1),
        |p: BVec| Sprite::Wall,
    )
}

/// How far, in hundredths of a cell, a falling pair moves down at a step: `fall_skip`,
/// taken as one whole cell when it is more (a pair moves at most one cell per step).
pub open spec fn fall_step(t: Tuning) -> int {
    if t.fall_skip > 100 { 100 } else { t.fall_skip as int }
}

/// `p` moved by `v`.
pub open spec fn moved(p: BVec, v: BVec) -> BVec {
    BVec { x: (p.x + v.x) as i32, y: (p.y + v.y) as i32 }
}

/// The blob `b` moved by `v`.
pub open spec fn shifted(b: Buyo, v: BVec) -> Buyo {
    Buyo { p: moved(b.p, v), ..b }
}

/// `p` is far enough from the ends of `i32` for every step of the game.
pub open spec fn coord_ok(p: BVec) -> bool {
    &&& i32::MIN + 2 <= p.x <= i32::MAX - 2
    &&& i32::MIN + 2 <= p.y <= i32::MAX - 2
}

/// `v` is one step up, down, left or right.
pub open spec fn unit(v: BVec) -> bool {
    (v.x == 0 && (v.y == 1 || v.y == -1)) || (v.y == 0 && (v.x == 1 || v.x == -1))
}

/// `v` turned a quarter turn clockwise `n` times, on a board whose `y` grows downwards
/// (up, `(0, -1)`, turns to the right, `(1, 0)`).
pub open spec fn rot_cw(v: BVec, n: nat) -> BVec
    decreases n,
{
    if n == 0 {
        v
    } else {
        rot_cw(BVec { x: (-v.y) as i32, y: v.x }, (n - 1) as nat)
    }
}

/// The number of quarter turns asked for by `r`: none for `r <= 0`.
pub open spec fn turns(r: i32) -> nat {
    if r > 0 { r as nat } else { 0 }
}

/// Where the second blob `b` of a pair lies from the first blob `a` after `r` quarter turns.
pub open spec fn turn_offset(a: Buyo, b: Buyo, r: i32) -> BVec {
    rot_cw(BVec { x: (b.p.x - a.p.x) as i32, y: (b.p.y - a.p.y) as i32 }, turns(r))
}

/// The second blob `b` of a pair turned `r` quarter turns around the first blob `a`.
pub open spec fn turned(a: Buyo, b: Buyo, r: i32) -> Buyo {
    Buyo { p: moved(a.p, turn_offset(a, b, r)), ..b }
}

/// What rotating the pair `(a, b)` by `r` quarter turns around `a` gives on `board`:
/// the new pair, and whether the turn was made.
/// The second blob turns clockwise around the first; if it lands on an occupied cell the
/// pair is kicked away from it (up, when the blob ends up above or below the first); a
/// sideways kick that would put the first blob on an occupied cell is undone, and only then
/// is the turn not made.
pub open spec fn rotate_outcome(board: Map<BVec, Sprite>, a: Buyo, b: Buyo, r: i32) -> (Buyo, Buyo, bool) {
    let d = turn_offset(a, b, r);
    let b1 = turned(a, b, r);
    if !board.contains_key(b1.p) {
        (a, b1, true)
    } else if d.x == 0 {
        (shifted(a, BVec { x: 0, y: -1i32 }), shifted(b1, BVec { x: 0, y: -1i32 }), true)
    } else {
        let k = if d.x == -1 { BVec { x: 1, y: 0 } } else { BVec { x: -1i32, y: 0 } };
        if board.contains_key(moved(a.p, k)) {
            (a, b, false)
        } else {
            (shifted(a, k), shifted(b1, k), true)
        }
    }
}

/// `p` and `q` are next to each other, vertically or horizontally.
pub open spec fn adjacent(p: BVec, q: BVec) -> bool {
    let dx = q.x - p.x;
    let dy = q.y - p.y;
    (dx == 0 && (dy == 1 || dy == -1)) || (dy == 0 && (dx == 1 || dx == -1))
}

/// A controlled pair is two adjacent blobs with the same drawing offset.
pub open spec fn pair_ok(a: Buyo, b: Buyo) -> bool {
    &&& adjacent(a.p, b.p)
    &&& coord_ok(a.p)
    &&& coord_ok(b.p)
    &&& a.offset_y == b.offset_y
    &&& 0 <= a.offset_y <= 100
}

/// `p` moved `d` cells down.
pub open spec fn down_by(p: BVec, d: int) -> BVec {
    BVec { x: p.x, y: (p.y + d) as i32 }
}

/// The blob `b` moved `d` cells down.
pub open spec fn dropped(b: Buyo, d: int) -> Buyo {
    Buyo { p: down_by(b.p, d), ..b }
}

/// The pair lands after falling `d` cells: the cells it passes are free, the next are not.
pub open spec fn lands_after(board: Map<BVec, Sprite>, a: Buyo, b: Buyo, d: int) -> bool {
    &&& d >= 0
    &&& forall|k: int|
        1 <= k <= d ==> !board.contains_key(#[trigger] down_by(a.p, k)) && !board.contains_key(
            down_by(b.p, k),
        )
    &&& board.contains_key(down_by(a.p, d + 1)) || board.contains_key(down_by(b.p, d + 1))
}

/// What moving the falling pair by `v` does: no pair, or an occupied cell in the way,
/// leaves the game as it was and gives `false`; otherwise the pair moves and it gives `true`.
pub open spec fn moved_by(old: BuyoBuyo, new: BuyoBuyo, v: BVec, r: bool) -> bool {
    match old.controlled() {
        None => !r && new == old,
        Some((a, b)) => {
            let a2 = shifted(a, v);
            let b2 = shifted(b, v);
            if old.board().contains_key(a2.p) || old.board().contains_key(b2.p) {
                !r && new == old
            } else {
                r && new == old.with_controlled(Some((a2, b2)))
            }
        },
    }
}

/// `p` is far enough from the ends of `i32` for the pair around it to turn and be kicked.
pub open spec fn rot_ok(p: BVec) -> bool {
    &&& i32::MIN + 4 <= p.x <= i32::MAX - 4
    &&& i32::MIN + 4 <= p.y <= i32::MAX - 4
}

/// Turning a unit step keeps it a unit step.
pub proof fn lemma_rot_unit(v: BVec, n: nat)
    requires
        unit(v),
    ensures
        unit(rot_cw(v, n)),
    decreases n,
{
    if n > 0 {
        lemma_rot_unit(BVec { x: (-v.y) as i32, y: v.x }, (n - 1) as nat);
    }
}

/// One more quarter turn is a turn of the already turned vector.
pub proof fn lemma_rot_step(v: BVec, n: nat)
    ensures
        rot_cw(v, n + 1) == ({
            let w = rot_cw(v, n);
            BVec { x: (-w.y) as i32, y: w.x }
        }),
    decreases n,
{
    reveal_with_fuel(rot_cw, 2);
    if n > 0 {
        lemma_rot_step(BVec { x: (-v.y) as i32, y: v.x }, (n - 1) as nat);
    }
}

/// Turning `m` quarter turns and then `n` more is turning `m + n` quarter turns.
pub proof fn lemma_rot_add(v: BVec, m: nat, n: nat)
    ensures
        rot_cw(rot_cw(v, m), n) == rot_cw(v, m + n),
    decreases m,
{
    if m > 0 {
        lemma_rot_add(BVec { x: (-v.y) as i32, y: v.x }, (m - 1) as nat, n);
        assert((m + n - 1) as nat == (m - 1) as nat + n);
    }
}

/// Four quarter turns bring a unit step back to itself.
pub proof fn lemma_rot_full(v: BVec)
    requires
        unit(v),
    ensures
        rot_cw(v, 4) == v,
{
    reveal_with_fuel(rot_cw, 5);
}

/// The opposite of the step `v`.
pub open spec fn opposite(v: BVec) -> BVec {
    BVec { x: (-v.x) as i32, y: (-v.y) as i32 }
}

/// A move of the falling pair can be taken back: when the pair lies on free cells and a
/// move by `v` succeeds, moving it by the opposite step succeeds too and gives back the game
/// as it was.
pub proof fn law_move_undone(g0: BuyoBuyo, g1: BuyoBuyo, g2: BuyoBuyo, v: BVec, r1: bool, r2: bool)
    requires
        g0.wf(),
        g0.can_move(v),
        i32::MIN < v.x,
        i32::MIN < v.y,
        g0.controlled() matches Some((a, b)) ==> !g0.board().contains_key(a.p) && !g0.board().contains_key(b.p),
        moved_by(g0, g1, v, r1),
        r1,
        moved_by(g1, g2, opposite(v), r2),
    ensures
        r2,
        g2 == g0,
{
    let (a, b) = g0.controlled().unwrap();
    assert(g0.controlled() == Some((a, b)));
    assert(pair_ok(a, b));
    assert(i32::MIN + 2 <= a.p.x + v.x && i32::MIN + 2 <= a.p.y + v.y);
    let a2 = shifted(a, v);
    let b2 = shifted(b, v);
    assert(opposite(v).x == -v.x && opposite(v).y == -v.y);
    assert(a2.p.x == a.p.x + v.x && a2.p.y == a.p.y + v.y);
    assert(b2.p.x == b.p.x + v.x && b2.p.y == b.p.y + v.y);
    assert(shifted(a2, opposite(v)).p == a.p);
    assert(shifted(b2, opposite(v)).p == b.p);
    assert(shifted(a2, opposite(v)) == a);
    assert(shifted(b2, opposite(v)) == b);
}

/// A turn keeps the falling pair a pair: whatever the board and the number of turns, the
/// two blobs stay next to each other and keep their colours and drawing offsets.
pub proof fn law_turn_keeps_pair(board: Map<BVec, Sprite>, a: Buyo, b: Buyo, r: i32)
    requires
        pair_ok(a, b),
        rot_ok(a.p),
    ensures
        adjacent(rotate_outcome(board, a, b, r).0.p, rotate_outcome(board, a, b, r).1.p),
        rotate_outcome(board, a, b, r).0.t == a.t,
        rotate_outcome(board, a, b, r).1.t == b.t,
        rotate_outcome(board, a, b, r).0.offset_y == a.offset_y,
        rotate_outcome(board, a, b, r).1.offset_y == b.offset_y,
{
    let d0 = BVec { x: (b.p.x - a.p.x) as i32, y: (b.p.y - a.p.y) as i32 };
    assert(unit(d0));
    lemma_rot_unit(d0, turns(r));
}

/// A turn can be taken back: when the pair turns `r` quarter turns (one, two or three)
/// onto a free cell from a free cell, turning the result `4 - r` more quarter turns gives
/// back the pair, and neither turn is blocked.
pub proof fn law_turn_undone(board: Map<BVec, Sprite>, a: Buyo, b: Buyo, r: i32)
    requires
        pair_ok(a, b),
        1 <= r <= 3,
        !board.contains_key(b.p),
        !board.contains_key(turned(a, b, r).p),
    ensures
        rotate_outcome(board, a, b, r) == (a, turned(a, b, r), true),
        rotate_outcome(board, a, turned(a, b, r), (4 - r) as i32) == (a, b, true),
{
    let d0 = BVec { x: (b.p.x - a.p.x) as i32, y: (b.p.y - a.p.y) as i32 };
    assert(unit(d0));
    let d = turn_offset(a, b, r);
    lemma_rot_unit(d0, turns(r));
    let b1 = turned(a, b, r);
    assert(BVec { x: (b1.p.x - a.p.x) as i32, y: (b1.p.y - a.p.y) as i32 } == d);
    lemma_rot_add(d0, turns(r), turns((4 - r) as i32));
    lemma_rot_full(d0);
    assert(turn_offset(a, b1, (4 - r) as i32) == d0);
    assert(turned(a, b1, (4 - r) as i32) == b);
}

/// Where a turn puts the second blob: a quarter turn takes it clockwise around the first
/// blob (from above the first blob to its right, from its right to below it), half a turn
/// to the opposite side of the first blob, three quarter turns anticlockwise, and no turn
/// (or a whole one) leaves it where it was.
pub proof fn law_turn_positions(a: Buyo, b: Buyo)
    requires
        pair_ok(a, b),
    ensures
        turned(a, b, 0).p == b.p,
        turned(a, b, 1).p == (BVec { x: (a.p.x - (b.p.y - a.p.y)) as i32, y: (a.p.y + (b.p.x - a.p.x)) as i32 }),
        turned(a, b, 2).p == (BVec { x: (2 * a.p.x - b.p.x) as i32, y: (2 * a.p.y - b.p.y) as i32 }),
        turned(a, b, 3).p == (BVec { x: (a.p.x + (b.p.y - a.p.y)) as i32, y: (a.p.y - (b.p.x - a.p.x)) as i32 }),
        turned(a, b, 4).p == b.p,
        turned(a, b, 1).t == b.t && turned(a, b, 2).t == b.t && turned(a, b, 3).t == b.t,
{
    reveal_with_fuel(rot_cw, 5);
    let d0 = BVec { x: (b.p.x - a.p.x) as i32, y: (b.p.y - a.p.y) as i32 };
    assert(unit(d0));
}

/// How a turn meets an occupied cell. When the turned second blob lands on a free cell the
/// turn is made as it is. When it lands on an occupied cell above or below the first blob,
/// the turned pair is kicked one cell up. When it lands on an occupied cell beside the first
/// blob, the pair is kicked one cell the other way: if that cell is free, the first blob
/// moves there and the second takes the first blob's old cell, and the turn is made; if it
/// is occupied too, the pair stays as it was and the turn is refused. Colours and drawing
/// offsets are kept throughout.
pub proof fn law_turn_kicks(board: Map<BVec, Sprite>, a: Buyo, b: Buyo, r: i32)
    requires
        pair_ok(a, b),
        rot_ok(a.p),
    ensures
        ({
            let t = turned(a, b, r).p;
            let out = rotate_outcome(board, a, b, r);
            &&& !board.contains_key(t) ==> out == (a, Buyo { p: t, ..b }, true)
            &&& board.contains_key(t) && t.x == a.p.x ==> out == (
                Buyo { p: BVec { x: a.p.x, y: (a.p.y - 1) as i32 }, ..a },
                Buyo { p: BVec { x: t.x, y: (t.y - 1) as i32 }, ..b },
                true,
            )
            &&& board.contains_key(t) && t.y == a.p.y && t.x == a.p.x + 1 ==> out == if board.contains_key(
                BVec { x: (a.p.x - 1) as i32, y: a.p.y },
            ) {
                (a, b, false)
            } else {
                (Buyo { p: BVec { x: (a.p.x - 1) as i32, y: a.p.y }, ..a }, Buyo { p: a.p, ..b }, true)
            }
            &&& board.contains_key(t) && t.y == a.p.y && t.x == a.p.x - 1 ==> out == if board.contains_key(
                BVec { x: (a.p.x + 1) as i32, y: a.p.y },
            ) {
                (a, b, false)
            } else {
                (Buyo { p: BVec { x: (a.p.x + 1) as i32, y: a.p.y }, ..a }, Buyo { p: a.p, ..b }, true)
            }
        }),
{
    let d0 = BVec { x: (b.p.x - a.p.x) as i32, y: (b.p.y - a.p.y) as i32 };
    assert(unit(d0));
    lemma_rot_unit(d0, turns(r));
    let d = turn_offset(a, b, r);
    let t = turned(a, b, r).p;
    assert(t.x == a.p.x + d.x && t.y == a.p.y + d.y);
}

/// What one chain step does (see `pop_buyos`), from the game `old` to the game `new`,
/// giving `r`.
pub open spec fn chain_step(old: BuyoBuyo, new: BuyoBuyo, r: (bool, i32)) -> bool {
    let e = old.board_entries();
    let m = old.board();
    let n = e.len() as int;
    let popped = exists|j: int| #[trigger] first_big(e, m, j);
    let chain2 = if popped { old.chain() + 1 } else { old.chain() as int };
    if !settled(e) {
        &&& r == (true, 1i32)
        &&& settled(new.board_entries())
        &&& fall(e, new.board_entries())
        &&& new == old.with_board(new.board_store())
    } else {
        &&& r == (popped, 0i32)
        &&& new.board() == after_pop(m)
        &&& new.cleared() == popped_total(e, m, n)
        &&& new.cleared() == e.len() - new.board_entries().len()
        &&& new.colors().no_duplicates()
        &&& new.colors().to_set() == colors_before(e, m, n)
        &&& new.group_bonuses() == bonus_list(e, m, n)
        &&& new.chain() == chain2
        &&& new.total() == old.total() + chain_score(
            popped_total(e, m, n),
            chain2,
            colors_before(e, m, n).len() as int,
            bonus_list(e, m, n),
        )
        &&& new.controlled() == old.controlled()
        &&& new.rng() == old.rng()
        &&& new.state() == old.state()
        &&& new.tuning() == old.tuning()
    }
}

/// Popping never counts a negative number of blobs.
proof fn lemma_popped_total_nonneg(e: Seq<(BVec, Sprite)>, m: Map<BVec, Sprite>, n: int)
    ensures
        popped_total(e, m, n) >= 0,
    decreases n,
{
    if n > 0 {
        lemma_popped_total_nonneg(e, m, n - 1);
    }
}

/// The score never goes down: a chain step adds the score of the blobs it pops, which is
/// never negative.
pub proof fn law_score_never_decreases(old: BuyoBuyo, new: BuyoBuyo, r: (bool, i32))
    requires
        chain_step(old, new, r),
    ensures
        new.total() >= old.total(),
{
    let e = old.board_entries();
    let m = old.board();
    lemma_popped_total_nonneg(e, m, e.len() as int);
    if settled(e) {
        let popped = exists|j: int| #[trigger] first_big(e, m, j);
        let chain2 = if popped { old.chain() + 1 } else { old.chain() as int };
        let c = popped_total(e, m, e.len() as int);
        let b = clamped_bonus(raw_bonus(chain2, colors_before(e, m, e.len() as int).len() as int, bonus_list(e, m, e.len() as int)));
        assert(1 <= b <= 999);
        assert((10 * c) * b >= 0) by (nonlinear_arith)
            requires
                c >= 0,
                b >= 1,
        ;
    }
}

/// `with_state(st)` changes the loop phase to `st` and nothing else.
pub broadcast proof fn lemma_with_state(g: BuyoBuyo, st: LoopState)
    ensures
        (#[trigger] g.with_state(st)).board_store() == g.board_store(),
        g.with_state(st).board() == g.board(),
        g.with_state(st).board_entries() == g.board_entries(),
        g.with_state(st).controlled() == g.controlled(),
        g.with_state(st).rng() == g.rng(),
        g.with_state(st).state() == st,
        g.with_state(st).tuning() == g.tuning(),
        g.with_state(st).cleared() == g.cleared(),
        g.with_state(st).chain() == g.chain(),
        g.with_state(st).group_bonuses() == g.group_bonuses(),
        g.with_state(st).colors() == g.colors(),
        g.with_state(st).total() == g.total(),
{
}

/// `with_board(b)` changes the board to `b` and nothing else.
pub broadcast proof fn lemma_with_board(g: BuyoBuyo, b: Board)
    ensures
        (#[trigger] g.with_board(b)).board_store() == b,
        g.with_board(b).board() == b@,
        g.with_board(b).board_entries() == b.entries(),
        g.with_board(b).controlled() == g.controlled(),
        g.with_board(b).rng() == g.rng(),
        g.with_board(b).state() == g.state(),
        g.with_board(b).tuning() == g.tuning(),
        g.with_board(b).cleared() == g.cleared(),
        g.with_board(b).chain() == g.chain(),
        g.with_board(b).group_bonuses() == g.group_bonuses(),
        g.with_board(b).colors() == g.colors(),
        g.with_board(b).total() == g.total(),
{
}

/// `with_rng(r)` changes the randomizer to `r` and nothing else.
pub broadcast proof fn lemma_with_rng(g: BuyoBuyo, r: Randomizer)
    ensures
        (#[trigger] g.with_rng(r)).board_store() == g.board_store(),
        g.with_rng(r).board() == g.board(),
        g.with_rng(r).board_entries() == g.board_entries(),
        g.with_rng(r).controlled() == g.controlled(),
        g.with_rng(r).rng() == r,
        g.with_rng(r).state() == g.state(),
        g.with_rng(r).tuning() == g.tuning(),
        g.with_rng(r).cleared() == g.cleared(),
        g.with_rng(r).chain() == g.chain(),
        g.with_rng(r).group_bonuses() == g.group_bonuses(),
        g.with_rng(r).colors() == g.colors(),
        g.with_rng(r).total() == g.total(),
{
}

/// `with_controlled(c)` changes the falling pair to `c` and nothing else.
pub broadcast proof fn lemma_with_controlled(g: BuyoBuyo, c: Option<(Buyo, Buyo)>)
    ensures
        (#[trigger] g.with_controlled(c)).board_store() == g.board_store(),
        g.with_controlled(c).board() == g.board(),
        g.with_controlled(c).board_entries() == g.board_entries(),
        g.with_controlled(c).controlled() == c,
        g.with_controlled(c).rng() == g.rng(),
        g.with_controlled(c).state() == g.state(),
        g.with_controlled(c).tuning() == g.tuning(),
        g.with_controlled(c).cleared() == g.cleared(),
        g.with_controlled(c).chain() == g.chain(),
        g.with_controlled(c).group_bonuses() == g.group_bonuses(),
        g.with_controlled(c).colors() == g.colors(),
        g.with_controlled(c).total() == g.total(),
{
}

/// `with_frozen(b)` changes the board to `b`, removes the falling pair, and changes nothing else.
pub broadcast proof fn lemma_with_frozen(g: BuyoBuyo, b: Board)
    ensures
        (#[trigger] g.with_frozen(b)).board_store() == b,
        g.with_frozen(b).board() == b@,
        g.with_frozen(b).board_entries() == b.entries(),
        g.with_frozen(b).controlled() is None,
        g.with_frozen(b).rng() == g.rng(),
        g.with_frozen(b).state() == g.state(),
        g.with_frozen(b).tuning() == g.tuning(),
        g.with_frozen(b).cleared() == g.cleared(),
        g.with_frozen(b).chain() == g.chain(),
        g.with_frozen(b).group_bonuses() == g.group_bonuses(),
        g.with_frozen(b).colors() == g.colors(),
        g.with_frozen(b).total() == g.total(),
{
}

/// What the updates of a game change.
pub broadcast group group_game_updates {
    lemma_with_state,
    lemma_with_board,
    lemma_with_rng,
    lemma_with_controlled,
    lemma_with_frozen,
}

/// A move of the falling pair lands only on free cells. It succeeds exactly when there is
/// a pair and both cells it would move to are free; then both blobs move by `v`, keeping
/// their colours, and neither lies on an occupied cell. Otherwise the game is unchanged.
/// The board itself never changes.
pub proof fn law_move_lands_on_free_cells(old: BuyoBuyo, new: BuyoBuyo, v: BVec, r: bool)
    requires
        moved_by(old, new, v, r),
    ensures
        new.board() == old.board(),
        r <==> (old.controlled() matches Some((a, b)) && !old.board().contains_key(
            BVec { x: (a.p.x + v.x) as i32, y: (a.p.y + v.y) as i32 },
        ) && !old.board().contains_key(BVec { x: (b.p.x + v.x) as i32, y: (b.p.y + v.y) as i32 })),
        r ==> (new.controlled() matches Some((a2, b2)) && !new.board().contains_key(a2.p)
            && !new.board().contains_key(b2.p)),
        r ==> (old.controlled() matches Some((a, b)) && new.controlled() == Some(
            (
                Buyo { p: BVec { x: (a.p.x + v.x) as i32, y: (a.p.y + v.y) as i32 }, ..a },
                Buyo { p: BVec { x: (b.p.x + v.x) as i32, y: (b.p.y + v.y) as i32 }, ..b },
            ),
        )),
        !r ==> new == old,
{
    broadcast use group_game_updates;

}

/// Within a chain the chain length never goes down: a chain step keeps it or, when
/// something pops, adds one.
pub proof fn law_chain_never_decreases(old: BuyoBuyo, new: BuyoBuyo, r: (bool, i32))
    requires
        chain_step(old, new, r),
    ensures
        new.chain() == old.chain() || (r.0 && new.chain() == old.chain() + 1),
{
    if !settled(old.board_entries()) {
        lemma_with_board(old, new.board_store());
    }
}

/// The pair that is spawned from the draws `d` at position `p`: the first blob at `(3, 2)`
/// coloured by draw `p`, the second right above it coloured by draw `p + 1`.
pub open spec fn spawn_pair(d: Seq<i32>, p: int) -> (Buyo, Buyo) {
    (
        Buyo { p: BVec { x: 3, y: 2 }, offset_x: 0, offset_y: 0, t: sprite_of_draw(d[p] as int) },
        Buyo { p: BVec { x: 3, y: 1 }, offset_x: 0, offset_y: 0, t: sprite_of_draw(d[p + 1] as int) },
    )
}

/// The colours of the next pair that `next_buyo` shows at draw position `p`, upper blob
/// first: the draws at `p + 1` and `p`, or, at position `1`, two draws further on.
pub open spec fn preview_pair(d: Seq<i32>, p: int) -> (Sprite, Sprite) {
    if p == 1 {
        (sprite_of_draw(d[p + 3] as int), sprite_of_draw(d[p + 2] as int))
    } else {
        (sprite_of_draw(d[p + 1] as int), sprite_of_draw(d[p] as int))
    }
}

/// What the spawn phase of the game loop does, from the game `o` to the game `f`: a new
/// chain starts, two more draws are taken, the pair coloured by the draws at the old
/// position becomes the falling pair (unless there already is one), and the loop goes on
/// to the falling phase; the board, the total score and the settings are kept.
pub open spec fn spawn_step(o: BuyoBuyo, f: BuyoBuyo) -> bool {
    let p = o.rng().position();
    let pair = spawn_pair(f.rng().draws(), p);
    &&& f.state() == LoopState::Falling
    &&& f.cleared() == 0 && f.chain() == 0
    &&& f.colors().len() == 0 && f.group_bonuses().len() == 0
    &&& f.rng().wf()
    &&& f.rng().max() == o.rng().max()
    &&& f.rng().start() == o.rng().start()
    &&& f.rng().position() == p + 2
    &&& f.rng().draws().len() == if o.rng().draws().len() > p + 1 {
        o.rng().draws().len() as int
    } else {
        p + 2
    }
    &&& f.rng().draws().take(o.rng().draws().len() as int) == o.rng().draws()
    &&& f.controlled() == if o.controlled() is None {
        Some(pair)
    } else {
        o.controlled()
    }
    &&& f.board_store() == o.board_store()
    &&& f.board() == o.board()
    &&& f.total() == o.total()
    &&& f.tuning() == o.tuning()
}

/// The pair that spawns is the one the preview showed. Take a game `o` with no falling pair
/// at a draw position other than `1`, let `q` be the game after `next_queue` (only its
/// randomizer has drawn, up to the draw after the position), and let the spawn phase run
/// from `q` to `f`: the new pair stands upright at `(3, 2)` under `(3, 1)`, its lower blob
/// has the colour the preview showed at the bottom and its upper blob the colour shown on
/// top, and two draws were taken.
pub proof fn law_spawn_follows_preview(o: BuyoBuyo, q: BuyoBuyo, f: BuyoBuyo)
    requires
        o.controlled() is None,
        o.rng().position() != 1,
        q == o.with_rng(q.rng()),
        q.rng().extends_to(o.rng(), o.rng().position() + 1),
        spawn_step(q, f),
    ensures
        ({
            let p = o.rng().position();
            let shown = preview_pair(q.rng().draws(), p);
            &&& f.controlled() matches Some((a, b)) && a.p == (BVec { x: 3, y: 2 }) && b.p == (BVec {
                x: 3,
                y: 1,
            }) && a.t == shown.1 && b.t == shown.0
            &&& f.rng().position() == p + 2
            &&& f.board() == o.board()
        }),
{
    broadcast use group_game_updates;

    let p = o.rng().position();
    let d = f.rng().draws();
    let dq = q.rng().draws();
    q.rng().lemma_position_nonneg();
    assert(dq.len() >= p + 2);
    assert(d.take(dq.len() as int)[p] == d[p]);
    assert(d.take(dq.len() as int)[p + 1] == d[p + 1]);
}

/// The pair that spawns is the pair shown just before it: at any draw position but `1`,
/// the spawned pair stands upright at `(3, 2)` and `(3, 1)`, its lower (first) blob has the
/// colour the preview shows at the bottom, `(0, 1)`, which is the colour of the earlier draw,
/// and its upper (second) blob the colour the preview shows on top, `(0, 0)`, the colour of
/// the later draw.
pub proof fn law_spawn_matches_preview(d: Seq<i32>, p: int)
    requires
        p != 1,
    ensures
        spawn_pair(d, p).0.p == (BVec { x: 3, y: 2 }),
        spawn_pair(d, p).1.p == (BVec { x: 3, y: 1 }),
        spawn_pair(d, p).0.t == preview_pair(d, p).1,
        spawn_pair(d, p).1.t == preview_pair(d, p).0,
        spawn_pair(d, p).0.t == sprite_of_draw(d[p] as int),
        spawn_pair(d, p).1.t == sprite_of_draw(d[p + 1] as int),
{
}

/// The smallest `x` among the cells of `e` (`i32::MAX` when there is none).
pub open spec fn min_x(e: Seq<(BVec, Sprite)>) -> int
    decreases e.len(),
{
    if e.len() == 0 { i32::MAX as int } else {
        let r = min_x(e.drop_last());
        if e.last().0.x < r { e.last().0.x as int } else { r }
    }
}

/// The largest `x` among the cells of `e` (`i32::MIN` when there is none).
pub open spec fn max_x(e: Seq<(BVec, Sprite)>) -> int
    decreases e.len(),
{
    if e.len() == 0 { i32::MIN as int } else {
        let r = max_x(e.drop_last());
        if e.last().0.x > r { e.last().0.x as int } else { r }
    }
}

/// The smallest `y` among the cells of `e` (`i32::MAX` when there is none).
pub open spec fn min_y(e: Seq<(BVec, Sprite)>) -> int
    decreases e.len(),
{
    if e.len() == 0 { i32::MAX as int } else {
        let r = min_y(e.drop_last());
        if e.last().0.y < r { e.last().0.y as int } else { r }
    }
}

/// The largest `y` among the cells of `e` (`i32::MIN` when there is none).
pub open spec fn max_y(e: Seq<(BVec, Sprite)>) -> int
    decreases e.len(),
{
    if e.len() == 0 { i32::MIN as int } else {
        let r = max_y(e.drop_last());
        if e.last().0.y > r { e.last().0.y as int } else { r }
    }
}

/// Every cell of `e` lies within the bounds of `e`.
pub proof fn lemma_within_bounds(e: Seq<(BVec, Sprite)>, i: int)
    requires
        0 <= i < e.len(),
    ensures
        min_x(e) <= e[i].0.x <= max_x(e),
        min_y(e) <= e[i].0.y <= max_y(e),
    decreases e.len(),
{
    if i < e.len() - 1 {
        lemma_within_bounds(e.drop_last(), i);
        assert(e.drop_last()[i] == e[i]);
    }
}

/// The bounds of `e` are met by cells of `e`, when it has any.
pub proof fn lemma_bounds_met(e: Seq<(BVec, Sprite)>)
    requires
        e.len() > 0,
    ensures
        exists|i: int| 0 <= i < e.len() && (#[trigger] e[i]).0.x == min_x(e),
        exists|i: int| 0 <= i < e.len() && (#[trigger] e[i]).0.x == max_x(e),
        exists|i: int| 0 <= i < e.len() && (#[trigger] e[i]).0.y == min_y(e),
        exists|i: int| 0 <= i < e.len() && (#[trigger] e[i]).0.y == max_y(e),
    decreases e.len(),
{
    let l = e.len() - 1;
    if e.len() > 1 {
        lemma_bounds_met(e.drop_last());
        let d = e.drop_last();
        let i0 = choose|i: int| 0 <= i < d.len() && (#[trigger] d[i]).0.x == min_x(d);
        let i1 = choose|i: int| 0 <= i < d.len() && (#[trigger] d[i]).0.x == max_x(d);
        let i2 = choose|i: int| 0 <= i < d.len() && (#[trigger] d[i]).0.y == min_y(d);
        let i3 = choose|i: int| 0 <= i < d.len() && (#[trigger] d[i]).0.y == max_y(d);
        assert(d[i0] == e[i0] && d[i1] == e[i1] && d[i2] == e[i2] && d[i3] == e[i3]);
        assert(e[l] == e.last());
        if e.last().0.x < min_x(d) {
            assert(e[l].0.x == min_x(e));
        } else {
            assert(e[i0].0.x == min_x(e));
        }
        if e.last().0.x > max_x(d) {
            assert(e[l].0.x == max_x(e));
        } else {
            assert(e[i1].0.x == max_x(e));
        }
        if e.last().0.y < min_y(d) {
            assert(e[l].0.y == min_y(e));
        } else {
            assert(e[i2].0.y == min_y(e));
        }
        if e.last().0.y > max_y(d) {
            assert(e[l].0.y == max_y(e));
        } else {
            assert(e[i3].0.y == max_y(e));
        }
    } else {
        assert(e[0] == e.last());
        let d = e.drop_last();
        assert(d.len() == 0);
        assert(min_x(d) == i32::MAX && max_x(d) == i32::MIN && min_y(d) == i32::MAX && max_y(d) == i32::MIN);
        assert(e[0].0.x == min_x(e) && e[0].0.x == max_x(e));
        assert(e[0].0.y == min_y(e) && e[0].0.y == max_y(e));
    }
}

/// The letter that shows a sprite of the falling-pairs game.
pub open spec fn buyo_char(s: Sprite) -> char {
    match s {
        Sprite::BuyoRed => 'R',
        Sprite::BuyoBlue => 'B',
        Sprite::BuyoGreen => 'G',
        Sprite::BuyoPurple => 'P',
        Sprite::BuyoYellow => 'Y',
        _ => '#',
    }
}

/// A sprite the falling-pairs game can show: a wall or a blob.
pub open spec fn buyo_sprite(s: Sprite) -> bool {
    s == Sprite::BuyoRed || s == Sprite::BuyoBlue || s == Sprite::BuyoGreen || s == Sprite::BuyoPurple
        || s == Sprite::BuyoYellow || s == Sprite::Wall
}

/// What the cell `p` shows: `C` for the falling pair, the letter of a settled sprite, or a
/// space.
pub open spec fn cell_char(m: Map<BVec, Sprite>, c: Option<(Buyo, Buyo)>, p: BVec) -> char {
    if c matches Some((a, b)) && (a.p == p || b.p == p) {
        'C'
    } else if m.contains_key(p) {
        buyo_char(m[p])
    } else {
        ' '
    }
}

/// Row `y` of the picture, from `x0` to `x1`, then a line break.
pub open spec fn row_text(m: Map<BVec, Sprite>, c: Option<(Buyo, Buyo)>, y: int, x0: int, x1: int) -> Seq<char> {
    Seq::new((x1 - x0 + 1) as nat, |k: int| cell_char(m, c, BVec { x: (x0 + k) as i32, y: y as i32 })).push('\n')
}

/// Rows `y0` up to `y` (not included) of the picture.
pub open spec fn rows_text(m: Map<BVec, Sprite>, c: Option<(Buyo, Buyo)>, y0: int, y: int, x0: int, x1: int) -> Seq<char>
    decreases y - y0,
{
    if y <= y0 {
        Seq::empty()
    } else {
        rows_text(m, c, y0, y - 1, x0, x1) + row_text(m, c, y - 1, x0, x1)
    }
}

/// The smallest and largest `x` and `y` of the cells of `board`.
fn board_bounds(board: &Board) -> (r: (i32, i32, i32, i32))
    ensures
        r.0 == min_x(board.entries()),
        r.1 == max_x(board.entries()),
        r.2 == min_y(board.entries()),
        r.3 == max_y(board.entries()),
{
    let ghost e = board.entries();
    let mut lo_x = i32::MAX;
    let mut hi_x = i32::MIN;
    let mut lo_y = i32::MAX;
    let mut hi_y = i32::MIN;
    let n = board.len();
    let mut i: usize = 0;
    while i < n
        invariant
            n == e.len(),
            e == board.entries(),
            i <= n,
            lo_x == min_x(e.take(i as int)),
            hi_x == max_x(e.take(i as int)),
            lo_y == min_y(e.take(i as int)),
            hi_y == max_y(e.take(i as int)),
        decreases n - i,
    {
        let (v, _t) = board.entry(i);
        assert(e.take(i + 1).drop_last() =~= e.take(i as int));
        if v.x < lo_x { lo_x = v.x; }
        if v.x > hi_x { hi_x = v.x; }
        if v.y < lo_y { lo_y = v.y; }
        if v.y > hi_y { hi_y = v.y; }
        i = i + 1;
    }
    assert(e.take(n as int) =~= e);
    (lo_x, hi_x, lo_y, hi_y)
}

/// Whether the falling-pairs game can show `s`.
fn is_buyo_sprite(s: Sprite) -> (r: bool)
    ensures
        r == buyo_sprite(s),
{
    match s {
        Sprite::BuyoRed | Sprite::BuyoBlue | Sprite::BuyoGreen | Sprite::BuyoPurple | Sprite::BuyoYellow
        | Sprite::Wall => true,
        _ => false,
    }
}

/// Whether computing the score of a chain step stays within `i32` (see `score_fits`).
pub fn score_fits_now(tables: &Tables, cleared: i32, chain_power: i32, colors: usize, group_bonus: &Vec<i32>) -> (r: bool)
    requires
        tables.wf(),
        chain_power != chain_power_table().len(),
        colors != color_bonus_table().len(),
        colors <= i32::MAX,
    ensures
        r == score_fits(cleared as int, chain_power as int, colors as int, group_bonus@),
{
    let ghost g = group_bonus@;
    let mut sum: i64 = 0;
    let mut i: usize = 0;
    while i < group_bonus.len()
        invariant
            g == group_bonus@,
            i <= g.len(),
            sum == seq_sum(g.take(i as int)),
            forall|k: int| 0 <= k <= i ==> fits_i32(#[trigger] seq_sum(g.take(k))),
        decreases g.len() - i,
    {
        assert(g.take(i + 1).drop_last() =~= g.take(i as int));
        sum = sum + group_bonus[i] as i64;
        if sum < i32::MIN as i64 || sum > i32::MAX as i64 {
            assert(!fits_i32(seq_sum(g.take(i + 1))));
            return false;
        }
        i = i + 1;
    }
    assert(g.take(g.len() as int) =~= g);
    let cp = tables.get_cp(chain_power) as i64;
    let cb = tables.get_cb(colors as i32) as i64;
    if cp + cb < i32::MIN as i64 || cp + cb > i32::MAX as i64 {
        return false;
    }
    let raw = cp + cb + sum;
    if raw < i32::MIN as i64 || raw > i32::MAX as i64 {
        return false;
    }
    let c10 = 10 * (cleared as i64);
    if c10 < i32::MIN as i64 || c10 > i32::MAX as i64 {
        return false;
    }
    let bonus: i64 = if raw < 1 { 1 } else if raw > 999 { 999 } else { raw };
    assert(-0x8000_0000 * 999 <= c10 * bonus <= 0x7fff_ffff * 999) by (nonlinear_arith)
        requires
            -0x8000_0000 <= c10 <= 0x7fff_ffff,
            1 <= bonus <= 999,
    ;
    let score = c10 * bonus;
    i32::MIN as i64 <= score && score <= i32::MAX as i64
}

fn char_str(ch: char) -> (s: &'static str)
    requires
        ch == 'R' || ch == 'B' || ch == 'G' || ch == 'P' || ch == 'Y' || ch == '#' || ch == 'C' || ch == ' '
            || ch == '\n',
    ensures
        s@ == seq![ch],
{
    if ch == 'R' { proof { reveal_strlit("R"); } "R" }
    else if ch == 'B' { proof { reveal_strlit("B"); } "B" }
    else if ch == 'G' { proof { reveal_strlit("G"); } "G" }
    else if ch == 'P' { proof { reveal_strlit("P"); } "P" }
    else if ch == 'Y' { proof { reveal_strlit("Y"); } "Y" }
    else if ch == '#' { proof { reveal_strlit("#"); } "#" }
    else if ch == 'C' { proof { reveal_strlit("C"); } "C" }
    else if ch == ' ' { proof { reveal_strlit(" "); } " " }
    else { proof { reveal_strlit("\n"); } "\n" }
}

/// The falling-pairs game.
pub struct BuyoBuyo {
    buyos: Board,
    controlled_buyo: Option<(Buyo, Buyo)>,
    randomizer: Randomizer,
    /// Blobs cleared in the current chain step.
    pub puyos_cleared: i32,
    /// The length of the current chain.
    pub chain_power: i32,
    /// The group bonus of each group popped in the current chain step.
    pub group_bonus: Vec<i32>,
    /// The colours popped in the current chain step, each once.
    pub color_bonus: Vec<Sprite>,
    tables: Tables,
    total_score: i32,
    loop_state: LoopState,
    tuning: Tuning,
}

impl BuyoBuyo {
    /// The game's internal consistency.
    pub closed spec fn wf(&self) -> bool {
        &&& self.buyos.wf()
        &&& self.tables.wf()
        &&& self.randomizer.wf()
        &&& (self.controlled_buyo matches Some((a, b)) ==> pair_ok(a, b))
    }

    /// The settled blobs and walls.
    pub closed spec fn board(&self) -> Map<BVec, Sprite> {
        self.buyos@
    }

    /// The board as stored.
    pub closed spec fn board_store(&self) -> Board {
        self.buyos
    }

    /// The settled blobs and walls, as stored.
    pub closed spec fn board_entries(&self) -> Seq<(BVec, Sprite)> {
        self.buyos.entries()
    }

    /// The board, its stored form and its entries are one another's views.
    pub proof fn lemma_board_views(&self)
        ensures
            self.board() == self.board_store()@,
            self.board_entries() == self.board_store().entries(),
            self.board_store()@ == cells_map(self.board_store().entries()),
            self.wf() ==> self.board_store().wf(),
    {
        self.buyos.lemma_view();
    }

    /// The falling pair, if any.
    pub closed spec fn controlled(&self) -> Option<(Buyo, Buyo)> {
        self.controlled_buyo
    }

    /// The randomizer that colours the pairs.
    pub closed spec fn rng(&self) -> Randomizer {
        self.randomizer
    }

    /// The phase of the game loop.
    pub closed spec fn state(&self) -> LoopState {
        self.loop_state
    }

    /// The timing settings.
    pub closed spec fn tuning(&self) -> Tuning {
        self.tuning
    }

    /// Blobs cleared in the current chain step.
    pub closed spec fn cleared(&self) -> i32 {
        self.puyos_cleared
    }

    /// The length of the current chain.
    pub closed spec fn chain(&self) -> i32 {
        self.chain_power
    }

    /// The group bonuses of the current chain step.
    pub closed spec fn group_bonuses(&self) -> Seq<i32> {
        self.group_bonus@
    }

    /// The colours popped in the current chain step.
    pub closed spec fn colors(&self) -> Seq<Sprite> {
        self.color_bonus@
    }

    /// The score so far.
    pub closed spec fn total(&self) -> i32 {
        self.total_score
    }

    /// Moving the falling pair by `v` keeps it away from the ends of `i32`.
    pub open spec fn can_move(&self, v: BVec) -> bool {
        self.controlled() matches Some((a, b)) ==> {
            &&& i32::MIN + 2 <= a.p.x + v.x <= i32::MAX - 2
            &&& i32::MIN + 2 <= a.p.y + v.y <= i32::MAX - 2
            &&& i32::MIN + 2 <= b.p.x + v.x <= i32::MAX - 2
            &&& i32::MIN + 2 <= b.p.y + v.y <= i32::MAX - 2
        }
    }

    /// Below the first blob of the falling pair there is an occupied cell, far from the
    /// end of `i32`, for the pair to land on.
    pub open spec fn c_grounded(&self) -> bool {
        self.controlled() matches Some((a, b)) ==> exists|y: int|
            a.p.y < y < i32::MAX - 3 && #[trigger] self.board().contains_key(
                BVec { x: a.p.x, y: y as i32 },
            )
    }

    /// The falling pair can be turned: it is far from the ends of `i32`.
    pub open spec fn can_rotate(&self) -> bool {
        self.controlled() matches Some((a, b)) ==> rot_ok(a.p)
    }

    /// The scoring of the current chain step stays within `i32`.
    pub open spec fn can_score(&self) -> bool {
        &&& self.chain() != chain_power_table().len()
        &&& self.colors().len() != color_bonus_table().len()
        &&& self.colors().len() <= i32::MAX
        &&& score_fits(self.cleared() as int, self.chain() as int, self.colors().len() as int, self.group_bonuses())
    }

    /// This game in the loop phase `st`.
    pub closed spec fn with_state(self, st: LoopState) -> BuyoBuyo {
        BuyoBuyo { loop_state: st, ..self }
    }

    /// What `game_loop` needs for the phase the game is in.
    pub open spec fn can_step(&self, last_update_time: u64, current_time: u64) -> bool {
        &&& last_update_time <= current_time
        &&& match self.state() {
            LoopState::SpawnNew => {
                &&& 1 <= self.rng().max() <= 4
                &&& self.rng().can_get(self.rng().position())
                &&& self.rng().position() + 2 < i32::MAX
            },
            LoopState::Falling => self.can_move(BVec { x: 0, y: 1 }),
            LoopState::Locking => true,
            LoopState::OnFloor(t) => t <= current_time,
            LoopState::Chaining => self.can_pop_chain(),
        }
    }

    /// This game with the board replaced by `b`.
    pub closed spec fn with_board(self, b: Board) -> BuyoBuyo {
        BuyoBuyo { buyos: b, ..self }
    }

    /// This game with the randomizer replaced by `r`.
    pub closed spec fn with_rng(self, r: Randomizer) -> BuyoBuyo {
        BuyoBuyo { randomizer: r, ..self }
    }

    /// This game with the falling pair replaced by `c`.
    pub closed spec fn with_controlled(self, c: Option<(Buyo, Buyo)>) -> BuyoBuyo {
        BuyoBuyo { controlled_buyo: c, ..self }
    }

    /// This game with the board `b` and no falling pair.
    pub closed spec fn with_frozen(self, b: Board) -> BuyoBuyo {
        BuyoBuyo { buyos: b, controlled_buyo: None, ..self }
    }

    /// A game on a board `width` cells wide and `height` cells high, walled all round.
    pub fn new(width: i32, height: i32, randomizer: Randomizer, tuning: Tuning) -> (r: BuyoBuyo)
        requires
            width + 2 <= i32::MAX,
            height + 2 <= i32::MAX,
            randomizer.wf(),
        ensures
            r.wf(),
            r.board() == wall_frame(width as int, height as int),
            r.controlled() is None,
            r.rng() == randomizer,
            r.state() == LoopState::SpawnNew,
            r.tuning() == tuning,
            r.total() == 0,
            r.cleared() == 0,
            r.chain() == 0,
            r.group_bonuses().len() == 0,
            r.colors().len() == 0,
            width >= 0 && height >= 0 ==> {
                &&& r.can_draw()
                &&& min_x(r.board_entries()) == 0
                &&& max_x(r.board_entries()) == width + 1
                &&& min_y(r.board_entries()) == 0
                &&& max_y(r.board_entries()) == height + 1
            },
    {
        let mut buyos = Board::new();
        let w2 = width + 2;
        let h2 = height + 2;
        let mut x: i32 = 0;
        while x < w2
            invariant
                w2 == width + 2,
                h2 == height + 2,
                0 <= x,
                x < w2 ==> x <= w2,
                buyos.wf(),
                buyos@ == Map::new(
                    |p: BVec| wall_frame(width as int, height as int).contains_key(p) && p.x < x,
                    |p: BVec| Sprite::Wall,
                ),
            decreases w2 - x,
        {
            let mut y: i32 = 0;
            while y < h2
                invariant
                    w2 == width + 2,
                    h2 == height + 2,
                    0 <= x < w2,
                    0 <= y,
                    buyos.wf(),
                    buyos@ == Map::new(
                        |p: BVec|
                            wall_frame(width as int, height as int).contains_key(p) && (p.x < x || (
                            p.x == x && p.y < y)),
                        |p: BVec| Sprite::Wall,
                    ),
                decreases h2 - y,
            {
                if x == 0 || x == width + 1 || y == 0 || y == height + 1 {
                    buyos.insert(BVec::new(x, y), Sprite::Wall);
                }
                y = y + 1;
                assert(buyos@ =~= Map::new(
                    |p: BVec|
                        wall_frame(width as int, height as int).contains_key(p) && (p.x < x || (p.x
                            == x && p.y < y)),
                    |p: BVec| Sprite::Wall,
                ));
            }
            x = x + 1;
            assert(buyos@ =~= Map::new(
                |p: BVec| wall_frame(width as int, height as int).contains_key(p) && p.x < x,
                |p: BVec| Sprite::Wall,
            ));
        }
        assert(buyos@ =~= wall_frame(width as int, height as int));
        proof {
            if width >= 0 && height >= 0 {
                let e = buyos.entries();
                let m = wall_frame(width as int, height as int);
                buyos.lemma_view();
                assert forall|i: int| 0 <= i < e.len() implies 0 <= (#[trigger] e[i]).0.x <= width + 1 && 0 <= e[i].0.y
                    <= height + 1 && e[i].1 == Sprite::Wall by {
                    lemma_cells_map_at(e, i);
                }
                let lo = BVec { x: 0, y: 0 };
                let hi = BVec { x: (width + 1) as i32, y: (height + 1) as i32 };
                assert(m.contains_key(lo) && m.contains_key(hi));
                let ilo = choose|i: int| 0 <= i < e.len() && (#[trigger] e[i]).0 == lo;
                let ihi = choose|i: int| 0 <= i < e.len() && (#[trigger] e[i]).0 == hi;
                lemma_within_bounds(e, ilo);
                lemma_within_bounds(e, ihi);
                lemma_bounds_met(e);
                let a = choose|i: int| 0 <= i < e.len() && (#[trigger] e[i]).0.x == min_x(e);
                let b = choose|i: int| 0 <= i < e.len() && (#[trigger] e[i]).0.x == max_x(e);
                let c = choose|i: int| 0 <= i < e.len() && (#[trigger] e[i]).0.y == min_y(e);
                let d = choose|i: int| 0 <= i < e.len() && (#[trigger] e[i]).0.y == max_y(e);
                assert(min_x(e) == 0 && max_x(e) == width + 1 && min_y(e) == 0 && max_y(e) == height + 1);
                assert forall|i: int| 0 <= i < e.len() implies buyo_sprite(#[trigger] e[i].1) by {
                    assert(e[i].1 == Sprite::Wall);
                }
            }
        }
        BuyoBuyo {
            buyos,
            controlled_buyo: None,
            randomizer,
            puyos_cleared: 0,
            chain_power: 0,
            group_bonus: Vec::new(),
            color_bonus: Vec::new(),
            tables: Tables::new(),
            total_score: 0,
            loop_state: LoopState::SpawnNew,
            tuning,
        }
    }

    /// A copy of the settled blobs and walls.
    pub fn get_board(&self) -> (r: Board)
        requires
            self.wf(),
        ensures
            r.wf(),
            r@ == self.board(),
    {
        self.buyos.copy()
    }

    /// The cells of the falling pair, or an empty board when there is none.
    pub fn get_controlled_block(&self) -> (r: Board)
        ensures
            r.wf(),
            r@ == match self.controlled() {
                Some((a, b)) => Map::<BVec, Sprite>::empty().insert(a.p, a.t).insert(b.p, b.t),
                None => Map::<BVec, Sprite>::empty(),
            },
    {
        let mut a = Board::new();
        match self.controlled_buyo {
            Some(x) => {
                a.insert(x.0.p, x.0.t);
                a.insert(x.1.p, x.1.t);
            },
            None => {},
        }
        a
    }

    /// Makes `b` the falling pair, unless there already is one.
    pub fn spawn_c_buyo(&mut self, b: (Buyo, Buyo)) -> (r: bool)
        requires
            pair_ok(b.0, b.1),
            old(self).wf(),
        ensures
            final(self).wf(),
            r == (old(self).controlled() is None),
            *final(self) == if r { old(self).with_controlled(Some(b)) } else { *old(self) },
    {
        if self.controlled_buyo.is_some() {
            return false;
        }
        self.controlled_buyo = Some(b);
        true
    }

    /// Puts the falling pair on the board; false when there is none.
    pub fn freeze_c_buyo(&mut self) -> (r: bool)
        requires
            old(self).wf(),
        ensures
            final(self).wf(),
            r == (old(self).controlled() is Some),
            final(self).controlled() is None,
            final(self).board() == match old(self).controlled() {
                Some((a, b)) => old(self).board().insert(a.p, a.t).insert(b.p, b.t),
                None => old(self).board(),
            },
            *final(self) == old(self).with_frozen(final(self).board_store()),
    {
        let x = match &self.controlled_buyo {
            Some(x) => *x,
            None => return false,
        };
        self.buyos.insert(x.0.p, x.0.t);
        self.buyos.insert(x.1.p, x.1.t);
        self.controlled_buyo = None;
        true
    }

    /// Moves the falling pair by `v` unless a cell it would move to is occupied;
    /// false when there is no pair or it did not move.
    pub fn move_c_buyo_if_no_collision(&mut self, v: BVec) -> (r: bool)
        requires
            old(self).wf(),
            old(self).can_move(v),
        ensures
            final(self).wf(),
            moved_by(*old(self), *final(self), v, r),
    {
        let x = match self.controlled_buyo {
            Some(x) => x,
            None => return false,
        };
        let mut p0 = x.0.p;
        let mut p1 = x.1.p;
        p0.add_v(v);
        p1.add_v(v);
        if self.buyos.contains_key(&p0) || self.buyos.contains_key(&p1) {
            return false;
        }
        self.controlled_buyo = Some((Buyo { p: p0, ..x.0 }, Buyo { p: p1, ..x.1 }));
        true
    }

    /// Moves the falling pair one cell left, unless blocked.
    pub fn input_left(&mut self) -> (r: bool)
        requires
            old(self).wf(),
            old(self).can_move(BVec { x: -1i32, y: 0 }),
        ensures
            final(self).wf(),
            moved_by(*old(self), *final(self), BVec { x: -1i32, y: 0 }, r),
    {
        self.move_c_buyo_if_no_collision(BVec::new(-1, 0))
    }

    /// Moves the falling pair one cell right, unless blocked.
    pub fn input_right(&mut self) -> (r: bool)
        requires
            old(self).wf(),
            old(self).can_move(BVec { x: 1, y: 0 }),
        ensures
            final(self).wf(),
            moved_by(*old(self), *final(self), BVec { x: 1, y: 0 }, r),
    {
        self.move_c_buyo_if_no_collision(BVec::new(1, 0))
    }

    /// Moves the falling pair one cell down, unless blocked.
    pub fn move_c_buyo_down(&mut self) -> (r: bool)
        requires
            old(self).wf(),
            old(self).can_move(BVec { x: 0, y: 1 }),
        ensures
            final(self).wf(),
            moved_by(*old(self), *final(self), BVec { x: 0, y: 1 }, r),
    {
        self.move_c_buyo_if_no_collision(BVec::new(0, 1))
    }

    /// Turns the falling pair `r` quarter turns clockwise around its first blob, kicking it
    /// away from an occupied cell (see `rotate_outcome`); false when there is no pair or the
    /// turn cannot be made.
    pub fn rotate_c_buyo(&mut self, r: i32) -> (ret: bool)
        requires
            old(self).wf(),
            old(self).can_rotate(),
        ensures
            final(self).wf(),
            match old(self).controlled() {
                None => !ret && *final(self) == *old(self),
                Some((a, b)) => {
                    let out = rotate_outcome(old(self).board(), a, b, r);
                    ret == out.2 && *final(self) == old(self).with_controlled(Some((out.0, out.1)))
                },
            },
    {
        let x = match self.controlled_buyo {
            Some(x) => x,
            None => return false,
        };
        let mut b0 = x.0;
        let mut b1 = x.1;
        let v1_old = b0.p;
        let v2_old = b1.p;
        b0.p.mult_s(-1);
        b1.p.add_v(b0.p);
        b0.p.clear();
        let ghost rel0 = b1.p;
        proof {
            assert(unit(rel0));
        }
        let mut i: i32 = 0;
        while i < r
            invariant
                0 <= i,
                r > 0 ==> i <= r,
                r <= 0 ==> i == 0,
                b1.p == rot_cw(rel0, i as nat),
                unit(rel0),
                b1.t == x.1.t,
                b1.offset_x == x.1.offset_x,
                b1.offset_y == x.1.offset_y,
            decreases r - i,
        {
            proof {
                lemma_rot_unit(rel0, i as nat);
                lemma_rot_step(rel0, i as nat);
            }
            let x_old = b1.p.x;
            b1.p.x = -b1.p.y;
            b1.p.y = x_old;
            i = i + 1;
        }
        proof {
            lemma_rot_unit(rel0, i as nat);
            assert(i as nat == turns(r));
        }
        let d = b1.p;
        b0.p = v1_old;
        b1.p.add_v(v1_old);
        if self.buyos.contains_key(&b1.p) {
            let should_undo: bool;
            if d.x == 0 {
                b0.p.add_i(0, -1);
                b1.p.add_i(0, -1);
                should_undo = false;
            } else if d.x == -1 {
                b0.p.add_i(1, 0);
                should_undo = self.buyos.contains_key(&b0.p);
                b1.p.add_i(1, 0);
            } else {
                b0.p.add_i(-1, 0);
                should_undo = self.buyos.contains_key(&b0.p);
                b1.p.add_i(-1, 0);
            }
            if should_undo {
                b0.p = v1_old;
                b1.p = v2_old;
            }
            self.controlled_buyo = Some((b0, b1));
            return !should_undo;
        }
        self.controlled_buyo = Some((b0, b1));
        true
    }

    /// Turns the falling pair a quarter turn clockwise.
    pub fn input_rotation_right(&mut self)
        requires
            old(self).wf(),
            old(self).can_rotate(),
        ensures
            final(self).wf(),
            match old(self).controlled() {
                None => *final(self) == *old(self),
                Some((a, b)) => {
                    let out = rotate_outcome(old(self).board(), a, b, 1);
                    *final(self) == old(self).with_controlled(Some((out.0, out.1)))
                },
            },
    {
        self.rotate_c_buyo(1);
    }

    /// Turns the falling pair a quarter turn anticlockwise (three clockwise).
    pub fn input_rotation_left(&mut self)
        requires
            old(self).wf(),
            old(self).can_rotate(),
        ensures
            final(self).wf(),
            match old(self).controlled() {
                None => *final(self) == *old(self),
                Some((a, b)) => {
                    let out = rotate_outcome(old(self).board(), a, b, 3);
                    *final(self) == old(self).with_controlled(Some((out.0, out.1)))
                },
            },
    {
        self.rotate_c_buyo(3);
    }

    /// Turns the falling pair half a turn.
    pub fn input_180_rot(&mut self)
        requires
            old(self).wf(),
            old(self).can_rotate(),
        ensures
            final(self).wf(),
            match old(self).controlled() {
                None => *final(self) == *old(self),
                Some((a, b)) => {
                    let out = rotate_outcome(old(self).board(), a, b, 2);
                    *final(self) == old(self).with_controlled(Some((out.0, out.1)))
                },
            },
    {
        self.rotate_c_buyo(2);
    }

    /// The score of the current chain step.
    pub fn score(&self) -> (r: i32)
        requires
            self.wf(),
            self.can_score(),
        ensures
            r == chain_score(
                self.cleared() as int,
                self.chain() as int,
                self.colors().len() as int,
                self.group_bonuses(),
            ),
    {
        score_of(&self.tables, self.puyos_cleared, self.chain_power, self.color_bonus.len(), &self.group_bonus)
    }

    /// The score so far.
    pub fn total_score(&self) -> (r: i32)
        ensures
            r == self.total(),
    {
        self.total_score
    }

    /// Starts a new chain: nothing cleared, no colours or groups, chain length zero.
    fn reset_chain(&mut self)
        ensures
            final(self).cleared() == 0,
            final(self).colors().len() == 0,
            final(self).group_bonuses().len() == 0,
            final(self).chain() == 0,
            final(self).buyos == old(self).buyos,
            final(self).controlled_buyo == old(self).controlled_buyo,
            final(self).randomizer == old(self).randomizer,
            final(self).tables == old(self).tables,
            final(self).total_score == old(self).total_score,
            final(self).loop_state == old(self).loop_state,
            final(self).tuning == old(self).tuning,
    {
        self.puyos_cleared = 0;
        self.color_bonus.clear();
        self.group_bonus.clear();
        self.chain_power = 0;
    }

    /// The randomizer can preview the next pair: it draws colours, and the draws that the
    /// preview reads are not forgotten.
    pub open spec fn can_preview(&self) -> bool {
        let p = self.rng().position();
        &&& 1 <= self.rng().max() <= 4
        &&& self.rng().can_get(p)
        &&& p + 3 < i32::MAX
    }

    /// The colours of the next pair to fall, second blob first. (Right after the first pair
    /// was handed out, it reads the draws two further on.)
    pub fn next_buyo(&mut self) -> (r: (Sprite, Sprite))
        requires
            old(self).wf(),
            old(self).can_preview(),
        ensures
            final(self).wf(),
            ({
                let p = old(self).rng().position();
                let d = final(self).rng().draws();
                &&& final(self).rng().extends_to(old(self).rng(), if p == 1 { p + 3 } else { p + 1 })
                &&& *final(self) == old(self).with_rng(final(self).rng())
                &&& r == preview_pair(d, p)
            }),
    {
        let ghost r0 = self.randomizer;
        let crnt_ptr = self.randomizer.current_pointer();
        let va = self.randomizer.get(crnt_ptr + 1);
        let ghost ra = self.randomizer;
        let vb = self.randomizer.get(crnt_ptr + 2);
        proof {
            self.randomizer.lemma_draws_valid();
            assert(self.randomizer.draws().take(ra.draws().len() as int) =~= ra.draws());
            assert(self.randomizer.draws()[crnt_ptr + 1] == ra.draws()[crnt_ptr + 1]);
            assert(self.randomizer.draws().take(r0.draws().len() as int) =~= r0.draws()) by {
                assert(ra.draws().take(r0.draws().len() as int) =~= r0.draws());
            }
        }
        let type_a = to_sprite(va);
        let type_b = to_sprite(vb);
        if crnt_ptr == 0 {
            let ghost r1 = self.randomizer;
            let vc = self.randomizer.get(crnt_ptr + 3);
            let ghost r2 = self.randomizer;
            let vd = self.randomizer.get(crnt_ptr + 4);
            proof {
                self.randomizer.lemma_draws_valid();
                assert(self.randomizer.draws().take(r2.draws().len() as int) =~= r2.draws());
                assert(self.randomizer.draws()[crnt_ptr + 3] == r2.draws()[crnt_ptr + 3]);
                assert(self.randomizer.draws().take(r0.draws().len() as int) =~= r0.draws()) by {
                    assert(r2.draws().take(r1.draws().len() as int) =~= r1.draws());
                    assert(r1.draws().take(r0.draws().len() as int) =~= r0.draws());
                }
            }
            let type_c = to_sprite(vc);
            let type_d = to_sprite(vd);
            return (type_d, type_c);
        }
        (type_b, type_a)
    }

    /// The next pair, as a board: the second blob at `(0, 0)`, the first at `(0, 1)`.
    pub fn next_queue(&mut self) -> (r: Board)
        requires
            old(self).wf(),
            old(self).can_preview(),
        ensures
            final(self).wf(),
            ({
                let p = old(self).rng().position();
                let d = final(self).rng().draws();
                let pair = preview_pair(d, p);
                &&& final(self).rng().extends_to(old(self).rng(), if p == 1 { p + 3 } else { p + 1 })
                &&& *final(self) == old(self).with_rng(final(self).rng())
                &&& r@ == Map::<BVec, Sprite>::empty().insert(BVec { x: 0, y: 0 }, pair.0).insert(
                    BVec { x: 0, y: 1 },
                    pair.1,
                )
            }),
    {
        let a = self.next_buyo();
        let mut map = Board::new();
        map.insert(BVec::new(0, 0), a.0);
        map.insert(BVec::new(0, 1), a.1);
        map
    }

    /// One pass of gravity over the settled blobs (see `gravity_pass`).
    pub fn gravity(&mut self) -> (moved: bool)
        requires
            old(self).wf(),
            grounded(old(self).board_entries()),
        ensures
            final(self).wf(),
            grounded(final(self).board_entries()),
            fall(old(self).board_entries(), final(self).board_entries()),
            moved == !settled(old(self).board_entries()),
            !moved ==> final(self).board_entries() == old(self).board_entries(),
            moved ==> potential(final(self).board_entries()) < potential(old(self).board_entries()),
            *final(self) == old(self).with_board(final(self).board_store()),
    {
        gravity_pass(&mut self.buyos)
    }

    /// A chain step can run: the blobs are grounded, and when they are settled, popping
    /// and scoring stay within the tables and within `i32`.
    pub open spec fn can_pop_chain(&self) -> bool {
        let e = self.board_entries();
        let m = self.board();
        let n = e.len() as int;
        let popped = exists|j: int| #[trigger] first_big(e, m, j);
        let chain2 = if popped { self.chain() + 1 } else { self.chain() as int };
        &&& grounded(e)
        &&& settled(e) ==> {
            &&& can_pop(e, m)
            &&& self.chain() < i32::MAX
            &&& self.chain() != chain_power_table().len()
            &&& chain2 != chain_power_table().len()
            &&& colors_before(e, m, n).len() != color_bonus_table().len()
            &&& colors_before(e, m, n).len() <= i32::MAX
            &&& score_fits(popped_total(e, m, n), chain2, colors_before(e, m, n).len() as int, bonus_list(e, m, n))
            &&& fits_i32(self.total() + chain_score(popped_total(e, m, n), chain2, colors_before(e, m, n).len() as int, bonus_list(e, m, n)))
        }
    }

    /// One step of a chain. If some blob does not rest on an occupied cell, gravity runs
    /// until every blob rests, and it gives `(true, 1)`. Otherwise every group of four or
    /// more blobs pops: the chain step's counters are set from what popped, the chain grows
    /// when something popped, the step's score is added to the total, and it gives
    /// `(whether anything popped, 0)`.
    pub fn pop_buyos(&mut self) -> (r: (bool, i32))
        requires
            old(self).wf(),
            old(self).can_pop_chain(),
        ensures
            final(self).wf(),
            grounded(final(self).board_entries()),
            chain_step(*old(self), *final(self), r),
    {
        let ghost start = *self;
        let a = self.gravity();
        if a {
            proof {
                lemma_fall_refl(self.board_entries());
            }
            let mut again = true;
            while again
                invariant
                    self.wf(),
                    grounded(self.board_entries()),
                    fall(start.board_entries(), self.board_entries()),
                    *self == start.with_board(self.board_store()),
                    !again ==> settled(self.board_entries()),
                decreases (if again { potential(self.board_entries()) + 1 } else { 0 }),
            {
                let ghost before = self.board_entries();
                proof {
                    lemma_potential_nonneg(before);
                }
                again = self.gravity();
                proof {
                    lemma_fall_trans(start.board_entries(), before, self.board_entries());
                    lemma_potential_nonneg(self.board_entries());
                }
            }
            return (true, 1);
        }
        let ghost e = self.board_entries();
        let ghost m = self.board();
        proof {
            self.buyos.lemma_view();
            start.buyos.lemma_view();
            assert(settled(e));
        }
        self.color_bonus.clear();
        self.group_bonus.clear();
        self.puyos_cleared = 0;
        proof {
            lemma_chain_power_small(self.chain_power as int);
            assert(self.group_bonus@.take(0) =~= Seq::<i32>::empty());
            assert(self.group_bonus@ =~= Seq::<i32>::empty());
            assert(seq_sum(self.group_bonus@.take(0)) == 0);
            assert(self.color_bonus@.len() == 0);
            assert(self.can_score());
        }
        let mut change_in_score = self.score();
        assert(change_in_score == 0);
        let (popped, cleared, colors, gbs) = pop_groups(&mut self.buyos, &self.tables);
        self.puyos_cleared = cleared;
        self.color_bonus = colors;
        self.group_bonus = gbs;
        if popped {
            self.chain_power = self.chain_power + 1;
        }
        proof {
            self.buyos.lemma_view();
            lemma_grounded_after_pop(e, self.board_entries());
        }
        change_in_score = self.score() - change_in_score;
        self.total_score = self.total_score + change_in_score;
        (popped, 0)
    }

    /// Advances the game loop, given the time of the last update that changed something and
    /// the current time (milliseconds); gives whether something changed. Each phase waits
    /// for its delay: a new pair spawns (and a new chain starts), the pair falls `fall_skip`
    /// hundredths of a cell per step (at most one cell; it moves a cell each time the
    /// hundredths add up to a whole one) and lands, it is frozen after the freeze delay,
    /// and chain steps run until nothing pops, when the next pair spawns.
    #[verifier::spinoff_prover]
    #[verifier::rlimit(40)]
    pub fn game_loop(&mut self, last_update_time: u64, current_time: u64) -> (r: bool)
        requires
            old(self).wf(),
            old(self).can_step(last_update_time, current_time),
        ensures
            final(self).wf(),
            ({
                let delta = current_time - last_update_time;
                let o = *old(self);
                let f = *final(self);
                let tu = o.tuning();
                match o.state() {
                    LoopState::SpawnNew => if delta < tu.spawn_delay {
                        !r && f == o
                    } else {
                        r && spawn_step(o, f)
                    },
                    LoopState::Falling => match o.controlled() {
                        None => !r && f == o.with_state(LoopState::Locking),
                        Some((a, b)) => if delta < tu.fall_speed {
                            !r && f == o
                        } else if a.offset_y + fall_step(tu) >= 100 {
                            let a1 = Buyo { offset_y: 0, ..a };
                            let b1 = Buyo { offset_y: 0, ..b };
                            let down = BVec { x: 0, y: 1 };
                            &&& r
                            &&& if o.board().contains_key(moved(a.p, down)) || o.board().contains_key(
                                moved(b.p, down),
                            ) {
                                f == o.with_controlled(Some((a1, b1))).with_state(
                                    LoopState::OnFloor(current_time),
                                )
                            } else {
                                f == o.with_controlled(Some((shifted(a1, down), shifted(b1, down))))
                            }
                        } else {
                            r && f == o.with_controlled(
                                Some((
                                    Buyo { offset_y: (a.offset_y + fall_step(tu)) as i32, ..a },
                                    Buyo { offset_y: (b.offset_y + fall_step(tu)) as i32, ..b },
                                )),
                            )
                        },
                    },
                    LoopState::Locking => if tu.lock_delay < delta {
                        r && f == o.with_state(LoopState::Chaining)
                    } else {
                        !r && f == o
                    },
                    LoopState::OnFloor(t) => if current_time - t < tu.freeze_delay {
                        !r && f == o
                    } else {
                        &&& r
                        &&& f == o.with_frozen(f.board_store()).with_state(LoopState::Locking)
                        &&& f.board() == match o.controlled() {
                            Some((a, b)) => o.board().insert(a.p, a.t).insert(b.p, b.t),
                            None => o.board(),
                        }
                    },
                    LoopState::Chaining => if delta < tu.clear_delay {
                        !r && f == o
                    } else {
                        &&& r
                        &&& exists|res: (bool, i32)|
                            chain_step(o, f.with_state(LoopState::Chaining), res) && f.state() == if res.0 {
                                LoopState::Chaining
                            } else {
                                LoopState::SpawnNew
                            }
                    },
                }
            }),
    {
        let delta_time = current_time - last_update_time;
        match self.loop_state {
            LoopState::SpawnNew => {
                if delta_time < self.tuning.spawn_delay {
                    return false;
                }
                self.reset_chain();
                let ghost r0 = self.randomizer;
                let d1 = self.randomizer.next();
                proof { self.randomizer.lemma_draws_valid(); }
                let ghost r1 = self.randomizer;
                let t1 = to_sprite(d1);
                let b1 = Buyo { p: BVec::new(3, 2), t: t1, offset_x: 0, offset_y: 0 };
                let d2 = self.randomizer.next();
                proof {
                    self.randomizer.lemma_draws_valid();
                    assert(self.randomizer.draws().take(r1.draws().len() as int) =~= r1.draws());
                    assert(self.randomizer.draws()[r0.position()] == r1.draws()[r0.position()]);
                    assert(self.randomizer.draws().take(r0.draws().len() as int) =~= r0.draws()) by {
                        assert(r1.draws().take(r0.draws().len() as int) =~= r0.draws());
                    }
                }
                let t2 = to_sprite(d2);
                let b2 = Buyo { p: b1.p.add(&BVec::new(0, -1)), t: t2, offset_x: 0, offset_y: 0 };
                self.spawn_c_buyo((b1, b2));
                self.loop_state = LoopState::Falling;
            },
            LoopState::Falling => {
                if self.controlled_buyo.is_none() {
                    self.loop_state = LoopState::Locking;
                    return false;
                }
                if delta_time < self.tuning.fall_speed {
                    return false;
                }
                let (mut a, mut b) = match self.controlled_buyo {
                    Some(x) => x,
                    None => return false,
                };
                let skip: i32 = if self.tuning.fall_skip > 100 { 100 } else { self.tuning.fall_skip as i32 };
                a.offset_y = a.offset_y + skip;
                b.offset_y = b.offset_y + skip;
                if a.offset_y >= 100 {
                    a.offset_y = 0;
                    b.offset_y = 0;
                    self.controlled_buyo = Some((a, b));
                    let on_ground = !self.move_c_buyo_down();
                    if on_ground {
                        self.loop_state = LoopState::OnFloor(current_time);
                    }
                } else {
                    self.controlled_buyo = Some((a, b));
                }
            },
            LoopState::Locking => {
                if self.tuning.lock_delay < delta_time {
                    self.loop_state = LoopState::Chaining;
                } else {
                    return false;
                }
            },
            LoopState::OnFloor(time) => {
                if current_time - time < self.tuning.freeze_delay {
                    return false;
                }
                self.freeze_c_buyo();
                self.loop_state = LoopState::Locking;
            },
            LoopState::Chaining => {
                if delta_time < self.tuning.clear_delay {
                    return false;
                }
                let b = self.pop_buyos();
                if b.0 == false {
                    self.loop_state = LoopState::SpawnNew;
                }
            },
        }
        true
    }

    /// The picture of the game can be drawn: there is a cell, the board's extent fits in an
    /// `i32`, every sprite is one of this game's, and the falling pair lies within the extent.
    pub open spec fn can_draw(&self) -> bool {
        let e = self.board_entries();
        &&& e.len() > 0
        &&& max_x(e) - min_x(e) + 1 <= i32::MAX
        &&& max_y(e) - min_y(e) + 1 <= i32::MAX
        &&& forall|i: int| 0 <= i < e.len() ==> buyo_sprite(#[trigger] e[i].1)
        &&& self.controlled() matches Some((a, b)) ==> {
            &&& min_x(e) <= a.p.x <= max_x(e) && min_y(e) <= a.p.y <= max_y(e)
            &&& min_x(e) <= b.p.x <= max_x(e) && min_y(e) <= b.p.y <= max_y(e)
        }
    }

    /// The picture of the board, one line per row from the top, over the extent of the
    /// settled cells: walls `#`, blobs by colour letter, the falling pair `C`.
    pub fn grid_text(&self) -> (s: String)
        requires
            self.wf(),
            self.can_draw(),
        ensures
            s@ == rows_text(
                self.board(),
                self.controlled(),
                min_y(self.board_entries()),
                max_y(self.board_entries()) + 1,
                min_x(self.board_entries()),
                max_x(self.board_entries()),
            ),
    {
        let ghost e = self.buyos.entries();
        let (lo_x, hi_x, lo_y, hi_y) = board_bounds(&self.buyos);
        let ghost m = self.board();
        let ghost c = self.controlled();
        let mut out = String::new();
        let mut y: i64 = lo_y as i64;
        while y <= hi_y as i64
            invariant
                lo_y <= y,
                y <= hi_y + 1,
                hi_y - lo_y + 1 <= i32::MAX,
                hi_x - lo_x + 1 <= i32::MAX,
                lo_x <= hi_x,
                self.wf(),
                m == self.board(),
                c == self.controlled(),
                forall|i: int| 0 <= i < e.len() ==> buyo_sprite(#[trigger] e[i].1),
                e == self.buyos.entries(),
                out@ == rows_text(m, c, lo_y as int, y as int, lo_x as int, hi_x as int),
            decreases hi_y + 1 - y,
        {
            let mut x: i64 = lo_x as i64;
            let ghost row_start = out@;
            while x <= hi_x as i64
                invariant
                    lo_x <= x,
                    x <= hi_x + 1,
                    hi_x - lo_x + 1 <= i32::MAX,
                    lo_y <= y <= hi_y,
                    self.wf(),
                    m == self.board(),
                    c == self.controlled(),
                    forall|i: int| 0 <= i < e.len() ==> buyo_sprite(#[trigger] e[i].1),
                    e == self.buyos.entries(),
                    out@ == row_start + Seq::new((x - lo_x) as nat, |k: int| cell_char(m, c, BVec { x: (lo_x + k) as i32, y: y as i32 }),),
                decreases hi_x + 1 - x,
            {
                let p = BVec::new(x as i32, y as i32);
                let ch = match self.controlled_buyo {
                    Some((a, b)) if a.p == p || b.p == p => 'C',
                    _ => match self.buyos.get(&p) {
                        Some(t) => {
                            proof {
                                self.buyos.lemma_view();
                                assert(crate::board::has_key(e, p));
                                let j = choose|j: int| 0 <= j < e.len() && (#[trigger] e[j]).0 == p;
                                lemma_cells_map_at(e, j);
                                assert(buyo_sprite(e[j].1));
                            }
                            match t {
                                Sprite::BuyoRed => 'R',
                                Sprite::BuyoBlue => 'B',
                                Sprite::BuyoGreen => 'G',
                                Sprite::BuyoPurple => 'P',
                                Sprite::BuyoYellow => 'Y',
                                _ => '#',
                            }
                        },
                        None => ' ',
                    },
                };
                assert(ch == cell_char(m, c, p));
                out.append(char_str(ch));
                proof {
                    assert(out@ =~= row_start + Seq::new((x + 1 - lo_x) as nat, |k: int| cell_char(m, c, BVec { x: (lo_x + k) as i32, y: y as i32 }),));
                }
                x = x + 1;
            }
            out.append(char_str('\n'));
            proof {
                assert(row_text(m, c, y as int, lo_x as int, hi_x as int) =~= Seq::new((hi_x + 1 - lo_x) as nat, |k: int| cell_char(m, c, BVec { x: (lo_x + k) as i32, y: y as i32 }),).push('\n'));
                assert(out@ =~= rows_text(m, c, lo_y as int, y + 1, lo_x as int, hi_x as int));
            }
            y = y + 1;
        }
        out
    }

    /// Whether a cell right below a blob of the falling pair is occupied.
    pub fn is_on_ground(&self) -> (r: bool)
        requires
            self.wf(),
        ensures
            r == match self.controlled() {
                Some((a, b)) => self.board().contains_key(moved(a.p, BVec { x: 0, y: 1 }))
                    || self.board().contains_key(moved(b.p, BVec { x: 0, y: 1 })),
                None => false,
            },
    {
        match self.controlled_buyo {
            Some(x) => {
                let down = BVec::new(0, 1);
                let b1onfloor = self.buyos.contains_key(&x.0.p.add(&down));
                let b2onfloor = self.buyos.contains_key(&x.1.p.add(&down));
                b1onfloor || b2onfloor
            },
            None => false,
        }
    }

    /// Drops the falling pair as far as it goes and puts it on the board.
    #[verifier::spinoff_prover]
    pub fn hard_drop(&mut self)
        requires
            old(self).wf(),
            old(self).c_grounded(),
        ensures
            final(self).wf(),
            final(self).controlled() is None,
            match old(self).controlled() {
                None => *final(self) == *old(self),
                Some((a, b)) => exists|d: int|
                    lands_after(old(self).board(), a, b, d) && final(self).board() == old(
                        self,
                    ).board().insert(down_by(a.p, d), a.t).insert(down_by(b.p, d), b.t) && *final(self) == old(self).with_frozen(final(self).board_store()),
            },
    {
        let ghost start = *self;
        match self.controlled_buyo {
            None => return,
            Some(_) => {},
        }
        let ghost a0 = start.controlled_buyo.unwrap().0;
        let ghost b0 = start.controlled_buyo.unwrap().1;
        let ghost floor_y: int = choose|y: int|
            a0.p.y < y < i32::MAX - 3 && #[trigger] start.board().contains_key(
                BVec { x: a0.p.x, y: y as i32 },
            );
        let ghost mut k: int = 0;
        let down = BVec::new(0, 1);
        assert(start.board().contains_key(BVec { x: a0.p.x, y: floor_y as i32 }));
        assert(pair_ok(a0, b0));
        loop
            invariant_except_break
                self.wf(),
                down == (BVec { x: 0, y: 1 }),
                start.wf(),
                start.controlled() == Some((a0, b0)),
                pair_ok(a0, b0),
                a0.p.y < floor_y < i32::MAX - 3,
                start.board().contains_key(BVec { x: a0.p.x, y: floor_y as i32 }),
                0 <= k,
                a0.p.y + k < floor_y,
                *self == start.with_controlled(Some((dropped(a0, k), dropped(b0, k)))),
                forall|j: int|
                    1 <= j <= k ==> !start.board().contains_key(#[trigger] down_by(a0.p, j))
                        && !start.board().contains_key(down_by(b0.p, j)),
            ensures
                self.wf(),
                lands_after(start.board(), a0, b0, k),
                *self == start.with_controlled(Some((dropped(a0, k), dropped(b0, k)))),
            decreases floor_y - a0.p.y - k,
        {
            assert(shifted(dropped(a0, k), down) == dropped(a0, k + 1));
            assert(shifted(dropped(b0, k), down) == dropped(b0, k + 1));
            let moved_down = self.move_c_buyo_if_no_collision(down);
            if !moved_down {
                break;
            }
            proof {
                k = k + 1;
                if a0.p.y + k == floor_y {
                    assert(down_by(a0.p, k) == BVec { x: a0.p.x, y: floor_y as i32 });
                }
            }
        }
        self.freeze_c_buyo();
    }
}

/// Checks, at run time, of what the game's operations ask for.
impl BuyoBuyo {
    /// Whether the falling pair can be moved by `v` (see `can_move`).
    pub fn can_move_now(&self, v: BVec) -> (r: bool)
        requires
            self.wf(),
        ensures
            r == self.can_move(v),
    {
        match self.controlled_buyo {
            None => true,
            Some((a, b)) => {
                let lo: i64 = i32::MIN as i64 + 2;
                let hi: i64 = i32::MAX as i64 - 2;
                let ax = a.p.x as i64 + v.x as i64;
                let ay = a.p.y as i64 + v.y as i64;
                let bx = b.p.x as i64 + v.x as i64;
                let by = b.p.y as i64 + v.y as i64;
                lo <= ax && ax <= hi && lo <= ay && ay <= hi && lo <= bx && bx <= hi && lo <= by && by <= hi
            },
        }
    }

    /// Whether the falling pair can be turned (see `can_rotate`).
    pub fn can_rotate_now(&self) -> (r: bool)
        requires
            self.wf(),
        ensures
            r == self.can_rotate(),
    {
        match self.controlled_buyo {
            None => true,
            Some((a, _b)) => i32::MIN + 4 <= a.p.x && a.p.x <= i32::MAX - 4 && i32::MIN + 4 <= a.p.y
                && a.p.y <= i32::MAX - 4,
        }
    }

    /// Whether the falling pair has something to land on (see `c_grounded`).
    pub fn c_grounded_now(&self) -> (r: bool)
        requires
            self.wf(),
        ensures
            r == self.c_grounded(),
    {
        let (a, b) = match self.controlled_buyo {
            None => return true,
            Some(x) => x,
        };
        assert(self.controlled() == Some((a, b)));
        let ghost e = self.buyos.entries();
        let ghost m = self.board();
        proof {
            self.buyos.lemma_view();
        }
        let n = self.buyos.len();
        let mut i: usize = 0;
        while i < n
            invariant
                self.wf(),
                self.controlled() == Some((a, b)),
                e == self.buyos.entries(),
                m == self.board(),
                m == cells_map(e),
                n == e.len(),
                i <= n,
                forall|j: int|
                    0 <= j < i ==> (#[trigger] e[j]).0.x != a.p.x || e[j].0.y <= a.p.y || e[j].0.y
                        >= i32::MAX - 3,
            decreases n - i,
        {
            let (p, _t) = self.buyos.entry(i);
            if p.x == a.p.x && a.p.y < p.y && p.y < i32::MAX - 3 {
                proof {
                    lemma_cells_map_at(e, i as int);
                    let y = p.y as int;
                    assert(self.board().contains_key(BVec { x: a.p.x, y: y as i32 }));
                }
                return true;
            }
            i = i + 1;
        }
        assert forall|y: int| a.p.y < y < i32::MAX - 3 implies !#[trigger] m.contains_key(
            BVec { x: a.p.x, y: y as i32 },
        ) by {
            if m.contains_key(BVec { x: a.p.x, y: y as i32 }) {
                let j = choose|j: int| 0 <= j < e.len() && (#[trigger] e[j]).0 == BVec { x: a.p.x, y: y as i32 };
                assert(e[j].0.x == a.p.x);
            }
        }
        false
    }

    /// Whether the next pair can be previewed (see `can_preview`).
    pub fn can_preview_now(&self) -> (r: bool)
        requires
            self.wf(),
        ensures
            r == self.can_preview(),
    {
        let p = self.randomizer.position_now();
        let m = self.randomizer.bound();
        1 <= m && m <= 4 && self.randomizer.can_get_now(p) && p < i32::MAX - 3
    }

    /// Whether the score of the current chain step can be computed (see `can_score`).
    pub fn can_score_now(&self) -> (r: bool)
        requires
            self.wf(),
        ensures
            r == self.can_score(),
    {
        let nc = self.color_bonus.len();
        if self.chain_power == 25 || nc == 6 || nc > 0x7fff_ffff {
            return false;
        }
        score_fits_now(&self.tables, self.puyos_cleared, self.chain_power, nc, &self.group_bonus)
    }

    /// Whether a chain step can be taken (see `can_pop_chain`).
    pub fn can_pop_chain_now(&self) -> (r: bool)
        requires
            self.wf(),
        ensures
            r == self.can_pop_chain(),
    {
        if !is_grounded(&self.buyos) {
            return false;
        }
        if !is_settled(&self.buyos) {
            return true;
        }
        if !can_pop_now(&self.buyos) {
            return false;
        }
        let mut copy = self.buyos.copy();
        let (popped, cleared, colors, gbs) = pop_groups(&mut copy, &self.tables);
        if self.chain_power == i32::MAX {
            return false;
        }
        let chain2 = if popped { self.chain_power + 1 } else { self.chain_power };
        let nc = colors.len();
        if self.chain_power == 25 || chain2 == 25 || nc == 6 || nc > 0x7fff_ffff {
            return false;
        }
        if !score_fits_now(&self.tables, cleared, chain2, nc, &gbs) {
            return false;
        }
        let s = score_of(&self.tables, cleared, chain2, nc, &gbs);
        let t = self.total_score as i64 + s as i64;
        i32::MIN as i64 <= t && t <= i32::MAX as i64
    }

    /// Whether `game_loop` can be called (see `can_step`).
    pub fn can_step_now(&self, last_update_time: u64, current_time: u64) -> (r: bool)
        requires
            self.wf(),
        ensures
            r == self.can_step(last_update_time, current_time),
    {
        if last_update_time > current_time {
            return false;
        }
        match self.loop_state {
            LoopState::SpawnNew => {
                let p = self.randomizer.position_now();
                let m = self.randomizer.bound();
                1 <= m && m <= 4 && self.randomizer.can_get_now(p) && p < i32::MAX - 2
            },
            LoopState::Falling => self.can_move_now(BVec::new(0, 1)),
            LoopState::Locking => true,
            LoopState::OnFloor(t) => t <= current_time,
            LoopState::Chaining => self.can_pop_chain_now(),
        }
    }

    /// Whether the board can be drawn (see `can_draw`).
    pub fn can_draw_now(&self) -> (r: bool)
        requires
            self.wf(),
        ensures
            r == self.can_draw(),
    {
        let ghost e = self.buyos.entries();
        let n = self.buyos.len();
        if n == 0 {
            return false;
        }
        let (lo_x, hi_x, lo_y, hi_y) = board_bounds(&self.buyos);
        if hi_x as i64 - lo_x as i64 + 1 > 0x7fff_ffff || hi_y as i64 - lo_y as i64 + 1 > 0x7fff_ffff {
            return false;
        }
        let mut i: usize = 0;
        while i < n
            invariant
                e == self.buyos.entries(),
                n == e.len(),
                i <= n,
                forall|j: int| 0 <= j < i ==> buyo_sprite(#[trigger] e[j].1),
            decreases n - i,
        {
            let (_p, t) = self.buyos.entry(i);
            if !is_buyo_sprite(t) {
                return false;
            }
            i = i + 1;
        }
        match self.controlled_buyo {
            None => true,
            Some((a, b)) => lo_x <= a.p.x && a.p.x <= hi_x && lo_y <= a.p.y && a.p.y <= hi_y && lo_x
                <= b.p.x && b.p.x <= hi_x && lo_y <= b.p.y && b.p.y <= hi_y,
        }
    }
}

} // verus!
