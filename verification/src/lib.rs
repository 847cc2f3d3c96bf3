//! Block-stacking puzzle games: a falling-pairs colour matching game and a
//! falling-tetromino game, with the boards, randomizer and tables they share.
use vstd::prelude::*;
use crate::text::str_eq;

pub mod text;
pub mod vectors;
pub mod ring_buffer;
pub mod randomizer;
pub mod board;
pub mod gravity;
pub mod groups;
pub mod pop;
pub mod tet;
pub mod blockstacker;
pub mod buyo_game;
pub mod input;
pub mod message;

verus! {

/// What a board cell shows.
#[derive(Copy, Clone, Eq, PartialEq, Hash, Debug, Structural)]
pub enum Sprite {
    /// A blue blob.
    BuyoBlue,
    /// A green blob.
    BuyoGreen,
    /// A purple blob.
    BuyoPurple,
    /// A red blob.
    BuyoRed,
    /// A yellow blob.
    BuyoYellow,
    /// A block of the I piece.
    TetI,
    /// A block of the J piece.
    TetJ,
    /// A block of the L piece.
    TetL,
    /// A block of the O piece.
    TetO,
    /// A block of the S piece.
    TetS,
    /// A block of the T piece.
    TetT,
    /// A block of the Z piece.
    TetZ,
    /// The landing shadow of the I piece.
    TetGhostI,
    /// The landing shadow of the J piece.
    TetGhostJ,
    /// The landing shadow of the L piece.
    TetGhostL,
    /// The landing shadow of the O piece.
    TetGhostO,
    /// The landing shadow of the S piece.
    TetGhostS,
    /// The landing shadow of the T piece.
    TetGhostT,
    /// The landing shadow of the Z piece.
    TetGhostZ,
    /// A wall of the board.
    Wall,
}

/// The name of a sprite, as its variant is written.
pub open spec fn sprite_name(s: Sprite) -> Seq<char> {
    match s {
        Sprite::Wall => "Wall"@,
        Sprite::BuyoRed => "BuyoRed"@,
        Sprite::BuyoBlue => "BuyoBlue"@,
        Sprite::BuyoYellow => "BuyoYellow"@,
        Sprite::BuyoPurple => "BuyoPurple"@,
        Sprite::BuyoGreen => "BuyoGreen"@,
        Sprite::TetT => "TetT"@,
        Sprite::TetI => "TetI"@,
        Sprite::TetO => "TetO"@,
        Sprite::TetJ => "TetJ"@,
        Sprite::TetL => "TetL"@,
        Sprite::TetS => "TetS"@,
        Sprite::TetZ => "TetZ"@,
        Sprite::TetGhostT => "TetGhostT"@,
        Sprite::TetGhostI => "TetGhostI"@,
        Sprite::TetGhostO => "TetGhostO"@,
        Sprite::TetGhostJ => "TetGhostJ"@,
        Sprite::TetGhostL => "TetGhostL"@,
        Sprite::TetGhostS => "TetGhostS"@,
        Sprite::TetGhostZ => "TetGhostZ"@,
    }
}

/// The sprite whose name is `t`, if any.
pub open spec fn sprite_named(t: Seq<char>) -> Option<Sprite> {
    if t == "Wall"@ {
        Some(Sprite::Wall)
    } else if t == "BuyoRed"@ {
        Some(Sprite::BuyoRed)
    } else if t == "BuyoBlue"@ {
        Some(Sprite::BuyoBlue)
    } else if t == "BuyoYellow"@ {
        Some(Sprite::BuyoYellow)
    } else if t == "BuyoPurple"@ {
        Some(Sprite::BuyoPurple)
    } else if t == "BuyoGreen"@ {
        Some(Sprite::BuyoGreen)
    } else if t == "TetT"@ {
        Some(Sprite::TetT)
    } else if t == "TetI"@ {
        Some(Sprite::TetI)
    } else if t == "TetO"@ {
        Some(Sprite::TetO)
    } else if t == "TetJ"@ {
        Some(Sprite::TetJ)
    } else if t == "TetL"@ {
        Some(Sprite::TetL)
    } else if t == "TetS"@ {
        Some(Sprite::TetS)
    } else if t == "TetZ"@ {
        Some(Sprite::TetZ)
    } else if t == "TetGhostT"@ {
        Some(Sprite::TetGhostT)
    } else if t == "TetGhostI"@ {
        Some(Sprite::TetGhostI)
    } else if t == "TetGhostO"@ {
        Some(Sprite::TetGhostO)
    } else if t == "TetGhostJ"@ {
        Some(Sprite::TetGhostJ)
    } else if t == "TetGhostL"@ {
        Some(Sprite::TetGhostL)
    } else if t == "TetGhostS"@ {
        Some(Sprite::TetGhostS)
    } else if t == "TetGhostZ"@ {
        Some(Sprite::TetGhostZ)
    } else {
        None
    }
}

impl Sprite {
    /// The sprite named `s`, or `None` when no sprite has that name.
    pub fn from_str(s: &str) -> (r: Option<Sprite>)
        ensures
            r == sprite_named(s@),
    {
        if str_eq(s, "Wall") {
            Some(Sprite::Wall)
        } else if str_eq(s, "BuyoRed") {
            Some(Sprite::BuyoRed)
        } else if str_eq(s, "BuyoBlue") {
            Some(Sprite::BuyoBlue)
        } else if str_eq(s, "BuyoYellow") {
            Some(Sprite::BuyoYellow)
        } else if str_eq(s, "BuyoPurple") {
            Some(Sprite::BuyoPurple)
        } else if str_eq(s, "BuyoGreen") {
            Some(Sprite::BuyoGreen)
        } else if str_eq(s, "TetT") {
            Some(Sprite::TetT)
        } else if str_eq(s, "TetI") {
            Some(Sprite::TetI)
        } else if str_eq(s, "TetO") {
            Some(Sprite::TetO)
        } else if str_eq(s, "TetJ") {
            Some(Sprite::TetJ)
        } else if str_eq(s, "TetL") {
            Some(Sprite::TetL)
        } else if str_eq(s, "TetS") {
            Some(Sprite::TetS)
        } else if str_eq(s, "TetZ") {
            Some(Sprite::TetZ)
        } else if str_eq(s, "TetGhostT") {
            Some(Sprite::TetGhostT)
        } else if str_eq(s, "TetGhostI") {
            Some(Sprite::TetGhostI)
        } else if str_eq(s, "TetGhostO") {
            Some(Sprite::TetGhostO)
        } else if str_eq(s, "TetGhostJ") {
            Some(Sprite::TetGhostJ)
        } else if str_eq(s, "TetGhostL") {
            Some(Sprite::TetGhostL)
        } else if str_eq(s, "TetGhostS") {
            Some(Sprite::TetGhostS)
        } else if str_eq(s, "TetGhostZ") {
            Some(Sprite::TetGhostZ)
        } else {
            None
        }
    }

    /// The name of this sprite.
    pub fn to_string(&self) -> (r: String)
        ensures
            r@ == sprite_name(*self),
    {
        match self {
            Sprite::Wall => String::from_str("Wall"),
            Sprite::BuyoRed => String::from_str("BuyoRed"),
            Sprite::BuyoBlue => String::from_str("BuyoBlue"),
            Sprite::BuyoYellow => String::from_str("BuyoYellow"),
            Sprite::BuyoPurple => String::from_str("BuyoPurple"),
            Sprite::BuyoGreen => String::from_str("BuyoGreen"),
            Sprite::TetT => String::from_str("TetT"),
            Sprite::TetI => String::from_str("TetI"),
            Sprite::TetO => String::from_str("TetO"),
            Sprite::TetJ => String::from_str("TetJ"),
            Sprite::TetL => String::from_str("TetL"),
            Sprite::TetS => String::from_str("TetS"),
            Sprite::TetZ => String::from_str("TetZ"),
            Sprite::TetGhostT => String::from_str("TetGhostT"),
            Sprite::TetGhostI => String::from_str("TetGhostI"),
            Sprite::TetGhostO => String::from_str("TetGhostO"),
            Sprite::TetGhostJ => String::from_str("TetGhostJ"),
            Sprite::TetGhostL => String::from_str("TetGhostL"),
            Sprite::TetGhostS => String::from_str("TetGhostS"),
            Sprite::TetGhostZ => String::from_str("TetGhostZ"),
        }
    }
}

/// A sprite's name reads back as that sprite. (The names differ in their length or in
/// their last letter.)
pub proof fn lemma_sprite_name_round_trip(s: Sprite)
    ensures
        sprite_named(sprite_name(s)) == Some(s),
{
    reveal_strlit("Wall");
    assert("Wall"@.len() == 4 && "Wall"@.last() == 'l');
    reveal_strlit("BuyoRed");
    assert("BuyoRed"@.len() == 7 && "BuyoRed"@.last() == 'd');
    reveal_strlit("BuyoBlue");
    assert("BuyoBlue"@.len() == 8 && "BuyoBlue"@.last() == 'e');
    reveal_strlit("BuyoYellow");
    assert("BuyoYellow"@.len() == 10 && "BuyoYellow"@.last() == 'w');
    reveal_strlit("BuyoPurple");
    assert("BuyoPurple"@.len() == 10 && "BuyoPurple"@.last() == 'e');
    reveal_strlit("BuyoGreen");
    assert("BuyoGreen"@.len() == 9 && "BuyoGreen"@.last() == 'n');
    reveal_strlit("TetT");
    assert("TetT"@.len() == 4 && "TetT"@.last() == 'T');
    reveal_strlit("TetI");
    assert("TetI"@.len() == 4 && "TetI"@.last() == 'I');
    reveal_strlit("TetO");
    assert("TetO"@.len() == 4 && "TetO"@.last() == 'O');
    reveal_strlit("TetJ");
    assert("TetJ"@.len() == 4 && "TetJ"@.last() == 'J');
    reveal_strlit("TetL");
    assert("TetL"@.len() == 4 && "TetL"@.last() == 'L');
    reveal_strlit("TetS");
    assert("TetS"@.len() == 4 && "TetS"@.last() == 'S');
    reveal_strlit("TetZ");
    assert("TetZ"@.len() == 4 && "TetZ"@.last() == 'Z');
    reveal_strlit("TetGhostT");
    assert("TetGhostT"@.len() == 9 && "TetGhostT"@.last() == 'T');
    reveal_strlit("TetGhostI");
    assert("TetGhostI"@.len() == 9 && "TetGhostI"@.last() == 'I');
    reveal_strlit("TetGhostO");
    assert("TetGhostO"@.len() == 9 && "TetGhostO"@.last() == 'O');
    reveal_strlit("TetGhostJ");
    assert("TetGhostJ"@.len() == 9 && "TetGhostJ"@.last() == 'J');
    reveal_strlit("TetGhostL");
    assert("TetGhostL"@.len() == 9 && "TetGhostL"@.last() == 'L');
    reveal_strlit("TetGhostS");
    assert("TetGhostS"@.len() == 9 && "TetGhostS"@.last() == 'S');
    reveal_strlit("TetGhostZ");
    assert("TetGhostZ"@.len() == 9 && "TetGhostZ"@.last() == 'Z');
}

} // verus!
