use blockstackers_core::blockstacker::Tuning;
use blockstackers_core::board::Board;
use blockstackers_core::buyo_game::{BuyoBuyo, Tables};
use blockstackers_core::input::{auto_repeat_due, key_just_pressed, key_step, Action, Key};
use blockstackers_core::pop::pop_groups;
use blockstackers_core::randomizer::Randomizer;
use blockstackers_core::tet::enums::Shapes;
use blockstackers_core::tet::Tet;
use blockstackers_core::vectors::BVec;
use blockstackers_core::Sprite;

fn cells(b: &Board) -> Vec<(BVec, Sprite)> {
    (0..b.len()).map(|i| b.entry(i)).collect()
}

fn spawned_game() -> BuyoBuyo {
    let mut g = BuyoBuyo::new(6, 12, Randomizer::new(4, 42), Tuning::new());
    assert!(g.game_loop(0, 1000));
    assert_eq!(g.get_controlled_block().len(), 2);
    g
}

#[test]
fn nothing_pops_after_a_pop() {
    let mut b = Board::new();
    // five reds in an L, three blues, a lone green
    for p in [(1, 5), (2, 5), (3, 5), (4, 5), (4, 4)] {
        b.insert(BVec::new(p.0, p.1), Sprite::BuyoRed);
    }
    for p in [(1, 4), (2, 4), (3, 4)] {
        b.insert(BVec::new(p.0, p.1), Sprite::BuyoBlue);
    }
    b.insert(BVec::new(6, 6), Sprite::BuyoGreen);
    let t = Tables::new();
    let (popped, cleared, colors, bonuses) = pop_groups(&mut b, &t);
    assert!(popped);
    assert_eq!(cleared, 5);
    assert_eq!(colors, vec![Sprite::BuyoRed]);
    assert_eq!(bonuses, vec![2]);
    assert_eq!(b.len(), 4);
    let before = cells(&b);
    let (popped, cleared, colors, bonuses) = pop_groups(&mut b, &t);
    assert!(!popped);
    assert_eq!(cleared, 0);
    assert!(colors.is_empty());
    assert!(bonuses.is_empty());
    assert_eq!(cells(&b), before);
}

#[test]
fn a_move_is_taken_back() {
    let mut g = spawned_game();
    let start = cells(&g.get_controlled_block());
    assert!(g.input_left());
    let moved = cells(&g.get_controlled_block());
    assert_ne!(moved, start);
    assert_eq!(moved[0].0, BVec::new(start[0].0.x - 1, start[0].0.y));
    assert!(g.input_right());
    assert_eq!(cells(&g.get_controlled_block()), start);
}

#[test]
fn a_turn_is_taken_back() {
    let mut g = spawned_game();
    let start = cells(&g.get_controlled_block());
    g.input_rotation_right();
    let turned = cells(&g.get_controlled_block());
    assert_ne!(turned, start);
    g.input_rotation_left();
    assert_eq!(cells(&g.get_controlled_block()), start);
    g.input_180_rot();
    g.input_180_rot();
    assert_eq!(cells(&g.get_controlled_block()), start);
}

#[test]
fn draws_are_kept() {
    let mut r = Randomizer::new(5, 2024);
    let early: Vec<i32> = (0..10).map(|i| r.get(i)).collect();
    let _ = r.get(60);
    let again: Vec<i32> = (0..10).map(|i| r.get(i)).collect();
    assert_eq!(early, again);
}

#[test]
fn a_tetromino_move_is_taken_back() {
    let mut game = Tet::new(10, 24, Randomizer::new(7, 3), Tuning::new());
    game.spawn_c_mino(Shapes::L);
    let start = game.controlled_mino.as_ref().unwrap().vec.clone();
    assert!(game.input_right());
    assert!(game.input_left());
    assert_eq!(game.controlled_mino.as_ref().unwrap().vec, start);
}

#[test]
fn the_o_piece_does_not_turn() {
    let mut game = Tet::new(10, 24, Randomizer::new(7, 3), Tuning::new());
    game.spawn_c_mino(Shapes::O);
    let start = game.controlled_mino.as_ref().unwrap().vec.clone();
    game.input_rotation_right();
    game.input_180_rot();
    game.input_rotation_left();
    assert_eq!(game.controlled_mino.as_ref().unwrap().vec, start);
}

#[test]
fn keys_just_pressed() {
    assert!(key_just_pressed(&10, &7));
    assert!(key_just_pressed(&7, &7));
    assert!(!key_just_pressed(&11, &7));
}

#[test]
fn held_keys_repeat() {
    // the delay must pass first
    assert!(!auto_repeat_due(133, 0, 133, 1));
    assert!(auto_repeat_due(134, 0, 133, 1));
    // then a move on every multiple of the repeat rate
    assert!(auto_repeat_due(1140, 1000, 133, 5));
    assert!(!auto_repeat_due(1141, 1000, 133, 5));
    assert!(auto_repeat_due(1145, 1000, 133, 5));
}

#[test]
fn the_score_never_goes_down() {
    // one colour only: every pair is red, and two pairs dropped on one spot pop
    let mut g = BuyoBuyo::new(6, 12, Randomizer::new(1, 0), Tuning::new());
    let mut last = 0;
    for _ in 0..60 {
        g.game_loop(0, 99_999);
        if g.get_controlled_block().len() == 2 {
            g.hard_drop();
        }
        assert!(g.total_score() >= last);
        last = g.total_score();
    }
    assert!(last >= 40);
    assert_eq!(last % 40, 0);
}

#[test]
fn draws_follow_from_the_seed() {
    let mut a = Randomizer::new(4, 727);
    let mut b = Randomizer::new(4, 727);
    let from_a: Vec<i32> = (0..30).map(|i| a.get(i)).collect();
    // asked in another order, the second gives the same draws
    let _ = b.get(29);
    let from_b: Vec<i32> = (0..30).map(|i| b.get(i)).collect();
    assert_eq!(from_a, from_b);
    // every colour comes up
    for c in 0..4 {
        assert!(from_a.contains(&c));
    }
}

#[test]
fn keys_are_handled_in_rounds() {
    let pressed = vec![(Key::Left, 100), (Key::Z, 100), (Key::Other, 100)];
    let (actions, still, held) = key_step(&pressed, &vec![], 100, 133, 5);
    assert_eq!(actions, vec![Action::MoveLeft, Action::TurnRight]);
    assert_eq!(still, vec![(Key::Left, 100), (Key::Other, 100)]);
    assert_eq!(held, vec![(Key::Left, 100)]);
    // the held key repeats once the delay has passed, on multiples of the repeat rate
    let (actions, still2, held2) = key_step(&still, &held, 240, 133, 5);
    assert_eq!(actions, vec![Action::MoveLeft]);
    assert_eq!(still2, still);
    assert_eq!(held2, held);
    let (actions, _, _) = key_step(&still, &held, 241, 133, 5);
    assert!(actions.is_empty());
    let (actions, still3, _) = key_step(&vec![(Key::X, 5), (Key::Space, 5), (Key::Right, 5)], &vec![], 5, 133, 5);
    assert_eq!(actions, vec![Action::TurnLeft, Action::HardDrop, Action::MoveRight]);
    assert_eq!(still3, vec![(Key::Right, 5)]);
}

#[test]
fn a_pair_falls_one_cell_every_two_steps() {
    let mut g = BuyoBuyo::new(6, 12, Randomizer::new(4, 69), Tuning::new());
    assert!(g.game_loop(0, 0));
    let start = cells(&g.get_controlled_block());
    assert!(g.game_loop(0, 200));
    assert_eq!(cells(&g.get_controlled_block()), start);
    assert!(g.game_loop(0, 200));
    let after = cells(&g.get_controlled_block());
    assert_eq!(after[0].0, BVec::new(start[0].0.x, start[0].0.y + 1));
    assert_eq!(after[1].0, BVec::new(start[1].0.x, start[1].0.y + 1));
}

#[test]
fn a_pair_turns_clockwise() {
    let mut g = spawned_game();
    let start = cells(&g.get_controlled_block());
    // the first blob at (3, 2), the second above it at (3, 1)
    assert_eq!(start[0].0, BVec::new(3, 2));
    assert_eq!(start[1].0, BVec::new(3, 1));
    g.input_rotation_right();
    let turned = cells(&g.get_controlled_block());
    assert_eq!(turned[0].0, BVec::new(3, 2));
    assert_eq!(turned[1].0, BVec::new(4, 2));
}

#[test]
fn a_blocked_turn_is_kicked_up() {
    // the pair at (3, 2) below (3, 1) turns half a turn; with (3, 3) taken it is kicked up
    let mut g = BuyoBuyo::new(6, 2, Randomizer::new(4, 69), Tuning::new());
    assert!(g.game_loop(0, 0));
    // on a board two cells high the floor is at y = 3
    g.input_180_rot();
    let cs = cells(&g.get_controlled_block());
    assert_eq!(cs[0].0, BVec::new(3, 1));
    assert_eq!(cs[1].0, BVec::new(3, 2));
}

#[test]
fn seeded_generators_start_where_stated() {
    // the state `rand64_seeded` gives: one step from 0, plus the seed, then one more step
    let inc: u128 = 0x5FC1C2D3_FF7A0DC6_B7860F7A_9A5F029F;
    let mul: u128 = 47026247687942121848144207491837523525;
    let step = |s: u128| s.wrapping_mul(mul).wrapping_add(inc);
    for seed in [0u128, 1, 69, 727, u128::MAX, 0x1234_5678_9abc_def0_1122_3344_5566_7788] {
        let expected = (step(step(0).wrapping_add(seed)), inc);
        assert_eq!(oorandom::Rand64::new(seed).state(), expected);
    }
}
