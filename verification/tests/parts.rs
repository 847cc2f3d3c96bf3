use blockstackers_core::blockstacker::Tuning;
use blockstackers_core::board::Board;
use blockstackers_core::buyo_game::BuyoBuyo;
use blockstackers_core::gravity::gravity_pass;
use blockstackers_core::groups::{collect_group, vec_contains};
use blockstackers_core::randomizer::Randomizer;
use blockstackers_core::tet::enums::{rotation_number, Rotation};
use blockstackers_core::text::str_eq;
use blockstackers_core::vectors::BVec;
use blockstackers_core::Sprite;

#[test]
fn strings_compare_by_characters() {
    assert!(str_eq("abc", "abc"));
    assert!(!str_eq("abc", "abd"));
    assert!(!str_eq("abc", "ab"));
    assert!(str_eq("", ""));
}

#[test]
fn rotation_numbers() {
    assert_eq!(rotation_number(Rotation::Up), 0);
    assert_eq!(rotation_number(Rotation::Right), 1);
    assert_eq!(rotation_number(Rotation::Down), 2);
    assert_eq!(rotation_number(Rotation::Left), 3);
}

#[test]
fn board_find_and_move_entries() {
    let mut b = Board::new();
    b.insert(BVec::new(1, 1), Sprite::BuyoRed);
    b.insert(BVec::new(2, 1), Sprite::BuyoBlue);
    assert_eq!(b.find(&BVec::new(2, 1)), Some(1));
    assert_eq!(b.find(&BVec::new(3, 1)), None);
    b.set_key(0, BVec::new(1, 5));
    assert_eq!(b.get(&BVec::new(1, 5)), Some(Sprite::BuyoRed));
    assert_eq!(b.get(&BVec::new(1, 1)), None);
    assert_eq!(b.len(), 2);
}

#[test]
fn groups_are_collected() {
    let mut b = Board::new();
    for p in [(1, 1), (2, 1), (2, 2), (5, 5)] {
        b.insert(BVec::new(p.0, p.1), Sprite::BuyoGreen);
    }
    b.insert(BVec::new(3, 1), Sprite::BuyoRed);
    let g = collect_group(&b, BVec::new(1, 1), Sprite::BuyoGreen);
    assert_eq!(g[0], BVec::new(1, 1));
    assert_eq!(g.len(), 3);
    assert!(vec_contains(&g, &BVec::new(2, 2)));
    assert!(!vec_contains(&g, &BVec::new(5, 5)));
    assert!(!vec_contains(&g, &BVec::new(3, 1)));
    // a cell off the board still starts a group of its neighbours of that colour
    let g = collect_group(&b, BVec::new(3, 2), Sprite::BuyoGreen);
    assert_eq!(g.len(), 4);
}

#[test]
fn gravity_settles_blobs() {
    let mut b = Board::new();
    for y in 0..6 {
        b.insert(BVec::new(0, y), Sprite::Wall);
    }
    b.insert(BVec::new(1, 5), Sprite::Wall);
    b.insert(BVec::new(1, 1), Sprite::BuyoRed);
    b.insert(BVec::new(1, 3), Sprite::BuyoBlue);
    // one pass moves each blob, in entry order, as far down as the board allows then
    assert!(gravity_pass(&mut b));
    assert_eq!(b.get(&BVec::new(1, 2)), Some(Sprite::BuyoRed));
    assert_eq!(b.get(&BVec::new(1, 4)), Some(Sprite::BuyoBlue));
    assert!(gravity_pass(&mut b));
    assert_eq!(b.get(&BVec::new(1, 3)), Some(Sprite::BuyoRed));
    assert_eq!(b.len(), 9);
    assert!(!gravity_pass(&mut b));
}

#[test]
fn pair_game_pictures_and_preview() {
    let mut g = BuyoBuyo::new(2, 2, Randomizer::new(1, 5), Tuning::new());
    assert_eq!(g.grid_text(), "####\n#  #\n#  #\n####\n");
    assert_eq!(g.total_score(), 0);
    // one colour only: every draw is red
    assert_eq!(g.next_buyo(), (Sprite::BuyoRed, Sprite::BuyoRed));
    assert!(g.game_loop(0, 0));
    // the pair spawns at (3, 2) and (3, 1), here on the right wall
    assert_eq!(g.grid_text(), "####\n#  C\n#  C\n####\n");
}
