use blockstackers_core::board::Board;
use blockstackers_core::buyo_game::{btype_from_lowercase, color, BType, Tables, score_of, to_sprite};
use blockstackers_core::randomizer::Randomizer;
use blockstackers_core::vectors::BVec;
use blockstackers_core::Sprite;

#[test]
fn bvec_arithmetic() {
    let mut v = BVec::new(2, -3);
    v.add_v(BVec::new(1, 1));
    assert_eq!(v, BVec::new(3, -2));
    v.add_i(-3, 5);
    assert_eq!(v, BVec::new(0, 3));
    v.mult_s(-2);
    assert_eq!(v, BVec::new(0, -6));
    v.clear();
    assert_eq!(v, BVec::new(0, 0));
    assert_eq!(BVec::new(1, 2).add(&BVec::new(3, 4)), BVec::new(4, 6));
    assert_eq!(BVec::new(1, 2).sub(&BVec::new(3, 4)), BVec::new(-2, -2));
}

#[test]
fn bvec_text() {
    assert_eq!(BVec::new(3, 12).to_string(), "[3, 12]");
    assert_eq!(BVec::new(-7, 0).to_string(), "[-7, 0]");
    assert_eq!(BVec::new(i32::MIN, i32::MAX).to_string(), "[-2147483648, 2147483647]");
}

#[test]
fn sprite_names_read_back() {
    assert_eq!(Sprite::from_str("BuyoRed"), Some(Sprite::BuyoRed));
    assert_eq!(Sprite::from_str("TetGhostZ"), Some(Sprite::TetGhostZ));
    assert_eq!(Sprite::from_str("Wall"), Some(Sprite::Wall));
    assert_eq!(Sprite::from_str("wall"), None);
    assert_eq!(Sprite::from_str(""), None);
    for s in [Sprite::Wall, Sprite::BuyoGreen, Sprite::TetO, Sprite::TetGhostT] {
        assert_eq!(Sprite::from_str(&s.to_string()), Some(s));
    }
    assert_eq!(Sprite::TetS.to_string(), "TetS");
}

#[test]
fn btype_names_any_case() {
    assert_eq!(<BType as color>::from_str("RED"), Some(BType::Red));
    assert_eq!(<BType as color>::from_str("Purple"), Some(BType::Purple));
    assert_eq!(<BType as color>::from_str("wAlL"), Some(BType::Wall));
    assert_eq!(<BType as color>::from_str("yellow"), None);
    assert_eq!(btype_from_lowercase("green"), Some(BType::Green));
    assert_eq!(btype_from_lowercase("Green"), None);
    assert_eq!(BType::Purple.to_string(), "Purple");
    assert_eq!(<BType as color>::from_str(&BType::Wall.to_string()), Some(BType::Wall));
}

#[test]
fn draws_map_to_colours() {
    assert_eq!(to_sprite(0), Sprite::BuyoRed);
    assert_eq!(to_sprite(1), Sprite::BuyoBlue);
    assert_eq!(to_sprite(2), Sprite::BuyoGreen);
    assert_eq!(to_sprite(3), Sprite::BuyoPurple);
}

#[test]
fn scoring_tables() {
    let t = Tables::new();
    assert_eq!(t.get_cb(2), 3);
    assert_eq!(t.get_cb(5), 24);
    assert_eq!(t.get_cb(-1), 24);
    assert_eq!(t.get_cb(9), 24);
    assert_eq!(t.get_gb(0), 0);
    assert_eq!(t.get_gb(7), 10);
    assert_eq!(t.get_gb(20), 10);
    assert_eq!(t.get_cp(3), 16);
    assert_eq!(t.get_cp(24), 672);
    assert_eq!(t.get_cp(100), 672);
}

#[test]
fn score_formula() {
    let t = Tables::new();
    // 4 blobs, first chain, one colour, no group bonus: bonus 0 is raised to 1
    assert_eq!(score_of(&t, 4, 1, 1, &vec![0]), 40);
    // 8 blobs in two groups of 4 of two colours in a third chain: 16 + 3 + 0 = 19
    assert_eq!(score_of(&t, 8, 3, 2, &vec![0, 0]), 8 * 10 * 19);
    // a 24-chain with many bonuses is capped at 999
    assert_eq!(score_of(&t, 4, 24, 5, &vec![10, 10, 10, 10, 10, 10, 10, 10, 10, 10, 10, 10, 10, 10, 10, 10, 10, 10, 10, 10, 10, 10, 10, 10, 10, 10, 10, 10, 10, 10, 10, 10]), 40 * 999);
}

#[test]
fn randomizer_remembers_draws() {
    let mut r = Randomizer::new(4, 12345);
    let a = r.get(5);
    assert!((0..4).contains(&a));
    assert_eq!(r.get(5), a);
    let first = r.next();
    assert_eq!(r.current_pointer(), 0);
    assert_eq!(r.get(0), first);
    let second = r.next();
    assert_eq!(r.get(1), second);
    for i in 0..50 {
        let v = r.get(i);
        assert!((0..4).contains(&v));
    }
}

#[test]
fn board_map_operations() {
    let mut b = Board::new();
    assert_eq!(b.len(), 0);
    b.insert(BVec::new(1, 1), Sprite::Wall);
    b.insert(BVec::new(2, 1), Sprite::BuyoRed);
    b.insert(BVec::new(1, 1), Sprite::BuyoBlue);
    assert_eq!(b.len(), 2);
    assert_eq!(b.get(&BVec::new(1, 1)), Some(Sprite::BuyoBlue));
    assert!(b.contains_key(&BVec::new(2, 1)));
    b.remove(&BVec::new(2, 1));
    assert!(!b.contains_key(&BVec::new(2, 1)));
    b.remove(&BVec::new(5, 5));
    assert_eq!(b.len(), 1);
    let c = b.copy();
    assert_eq!(c.get(&BVec::new(1, 1)), Some(Sprite::BuyoBlue));
}
