//! The kinds of pieces of the falling-tetromino game, their orientations and the phases of
//! its game loop.
use vstd::prelude::*;

verus! {

/// Colours of tetromino blocks.
#[derive(Clone, Copy, Debug, PartialEq, Eq, Structural)]
pub enum Mino {
    Red,
    Blue,
    LightBlue,
    Yellow,
    Orange,
    Green,
    Purple,
    Wall,
}

/// The name of a colour, as its variant is written.
pub open spec fn mino_name(m: Mino) -> Seq<char> {
    match m {
        Mino::Red => "Red"@,
        Mino::Blue => "Blue"@,
        Mino::LightBlue => "LightBlue"@,
        Mino::Yellow => "Yellow"@,
        Mino::Orange => "Orange"@,
        Mino::Green => "Green"@,
        Mino::Purple => "Purple"@,
        Mino::Wall => "Wall"@,
    }
}

impl Mino {
    /// The name of this colour.
    pub fn to_string(&self) -> (r: String)
        ensures
            r@ == mino_name(*self),
    {
        match self {
            Mino::Red => String::from_str("Red"),
            Mino::Blue => String::from_str("Blue"),
            Mino::LightBlue => String::from_str("LightBlue"),
            Mino::Yellow => String::from_str("Yellow"),
            Mino::Orange => String::from_str("Orange"),
            Mino::Green => String::from_str("Green"),
            Mino::Purple => String::from_str("Purple"),
            Mino::Wall => String::from_str("Wall"),
        }
    }
}

/// The seven tetromino shapes.
#[derive(Clone, Copy, Debug, PartialEq, Eq, Structural)]
pub enum Shapes {
    O,
    L,
    J,
    T,
    I,
    Z,
    S,
}

/// The four orientations of a piece, clockwise from its spawn orientation.
#[derive(Eq, Hash, PartialEq, Copy, Clone, Debug, Structural)]
pub enum Rotation {
    Up,
    Right,
    Down,
    Left,
}

/// The number of an orientation: `Up` is 0, then clockwise.
pub open spec fn rotation_index(r: Rotation) -> int {
    match r {
        Rotation::Up => 0,
        Rotation::Right => 1,
        Rotation::Down => 2,
        Rotation::Left => 3,
    }
}

/// The orientation numbered `i`, for `0 <= i < 4`.
pub open spec fn rotation_of(i: int) -> Rotation {
    if i == 0 {
        Rotation::Up
    } else if i == 1 {
        Rotation::Right
    } else if i == 2 {
        Rotation::Down
    } else {
        Rotation::Left
    }
}

/// The number of an orientation.
pub fn rotation_number(r: Rotation) -> (n: i32)
    ensures
        n == rotation_index(r),
{
    match r {
        Rotation::Up => 0,
        Rotation::Right => 1,
        Rotation::Down => 2,
        Rotation::Left => 3,
    }
}

/// The phases of the game loop.
#[derive(Debug, Clone, Copy, PartialEq, Eq, Structural)]
pub enum LoopState {
    Falling,
    Spawning,
    OnFloor(u64),
    LockingOrClearing,
}

} // verus!
