use blockstackers_core::blockstacker::{GameKind, Tuning};
use blockstackers_core::board::Board;
use blockstackers_core::buyo_game::{score_fits_now, BuyoBuyo, Tables};
use blockstackers_core::gravity::{is_grounded, is_settled};
use blockstackers_core::pop::can_pop_now;
use blockstackers_core::randomizer::Randomizer;
use blockstackers_core::tet::enums::Shapes;
use blockstackers_core::tet::Tet;
use blockstackers_core::vectors::BVec;
use blockstackers_core::Sprite;

#[test]
fn games_by_name() {
    assert_eq!(GameKind::from_name("buyo"), Some(GameKind::Buyo));
    assert_eq!(GameKind::from_name("tet"), Some(GameKind::Tet));
    assert_eq!(GameKind::from_name("Tet"), None);
    assert_eq!(GameKind::from_name(""), None);
    assert_eq!(GameKind::Buyo.board_size(), (6, 12));
    assert_eq!(GameKind::Tet.board_size(), (10, 24));
}

#[test]
fn randomizer_checks() {
    let mut r = Randomizer::new(4, 9);
    assert_eq!(r.bound(), 4);
    assert_eq!(r.position_now(), 0);
    assert!(r.can_get_now(0));
    assert!(r.can_get_now(99));
    assert!(!r.can_get_now(-1));
    let _ = r.next();
    assert_eq!(r.position_now(), 1);
    let _ = r.get(150);
    // draws older than the last hundred are forgotten
    assert!(!r.can_get_now(40));
    assert!(r.can_get_now(60));
    assert!(!Randomizer::new(0, 9).can_get_now(0));
}

#[test]
fn board_checks() {
    let mut b = Board::new();
    b.insert(BVec::new(0, 3), Sprite::Wall);
    b.insert(BVec::new(0, 2), Sprite::BuyoRed);
    b.insert(BVec::new(0, 0), Sprite::BuyoBlue);
    assert!(is_grounded(&b));
    // the blue blob floats above an empty cell
    assert!(!is_settled(&b));
    assert!(can_pop_now(&b));
    b.insert(BVec::new(0, 1), Sprite::BuyoBlue);
    assert!(is_settled(&b));
    b.insert(BVec::new(1, 0), Sprite::BuyoGreen);
    // no wall under the green blob
    assert!(!is_grounded(&b));
    b.insert(BVec::new(5, i32::MAX), Sprite::Wall);
    assert!(!can_pop_now(&b));
}

#[test]
fn a_group_of_twelve_cannot_pop() {
    let mut b = Board::new();
    for x in 0..12 {
        b.insert(BVec::new(x, 1), Sprite::BuyoRed);
    }
    assert!(!can_pop_now(&b));
    b.insert(BVec::new(12, 1), Sprite::BuyoRed);
    assert!(can_pop_now(&b));
}

#[test]
fn score_checks() {
    let t = Tables::new();
    assert!(score_fits_now(&t, 4, 1, 1, &vec![0]));
    assert!(!score_fits_now(&t, i32::MAX, 1, 1, &vec![0]));
    assert!(!score_fits_now(&t, 4, 1, 1, &vec![i32::MAX, 1]));
    assert!(!score_fits_now(&t, 300_000_000, 24, 5, &vec![10]));
}

#[test]
fn pair_game_checks() {
    let mut g = BuyoBuyo::new(6, 12, Randomizer::new(4, 5), Tuning::new());
    assert!(g.can_move_now(BVec::new(-1, 0)));
    assert!(g.can_rotate_now());
    assert!(g.c_grounded_now());
    assert!(g.can_draw_now());
    assert!(g.can_preview_now());
    assert!(g.can_score_now());
    assert!(g.can_step_now(0, 10));
    assert!(!g.can_step_now(10, 0));
    assert!(g.can_pop_chain_now());
    assert!(g.game_loop(0, 10));
    assert!(g.c_grounded_now());
    assert!(g.can_move_now(BVec::new(0, 1)));
    assert!(g.can_step_now(10, 20));
    g.hard_drop();
    assert!(g.can_draw_now());
}

#[test]
fn tetromino_game_checks() {
    let mut g = Tet::new(10, 24, Randomizer::new(7, 5), Tuning::new());
    assert!(g.can_shift_now());
    assert!(g.can_drop_now());
    assert!(g.can_show_now());
    assert!(g.can_step_now(0, 0));
    assert!(!g.can_step_now(1, 0));
    g.spawn_c_mino(Shapes::T);
    assert!(g.can_shift_now());
    assert!(g.can_turn_now(1));
    assert!(g.can_drop_now());
    assert!(g.can_show_now());
    g.input_rotation_right();
    assert!(g.can_show_now());
    assert!(g.can_shift_now());
    // a piece moved left of the board cannot be drawn
    for _ in 0..3 {
        g.input_left();
    }
    g.controlled_mino.as_mut().unwrap().vec[0] = BVec::new(-3, 0);
    assert!(!g.can_show_now());
}
