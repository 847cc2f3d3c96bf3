use blockstackers_core::blockstacker::Tuning;
use blockstackers_core::board::Board;
use blockstackers_core::buyo_game::{BType, Buyo, BuyoBuyo};
use blockstackers_core::message::{deserialize_board, screen_message, Screen};
use blockstackers_core::randomizer::Randomizer;
use blockstackers_core::vectors::BVec;
use blockstackers_core::Sprite;

fn cells(b: &Board) -> Vec<(BVec, Sprite)> {
    (0..b.len()).map(|i| b.entry(i)).collect()
}

fn blob(t: Sprite, x: i32, y: i32) -> Buyo {
    Buyo { p: BVec::new(x, y), offset_x: 0, offset_y: 0, t }
}

fn fresh() -> BuyoBuyo {
    BuyoBuyo::new(6, 12, Randomizer::new(4, 69), Tuning::new())
}

#[test]
fn a_fresh_board_is_drawn_walled() {
    let g = fresh();
    let mut expected = String::from("########\n");
    for _ in 0..12 {
        expected.push_str("#      #\n");
    }
    expected.push_str("########\n");
    assert_eq!(g.grid_text(), expected);
    assert_eq!(g.grid_text().lines().count(), 14);
}

#[test]
fn a_spawned_pair_is_drawn() {
    let mut g = fresh();
    assert!(g.game_loop(0, 0));
    let text = g.grid_text();
    let rows: Vec<&str> = text.lines().collect();
    assert_eq!(rows[1], "#  C   #");
    assert_eq!(rows[2], "#  C   #");
    assert_eq!(rows[3], "#      #");
}

#[test]
fn a_large_fall_skip_moves_one_cell_per_step() {
    let mut t = Tuning::new();
    t.fall_skip = 250;
    let mut g = BuyoBuyo::new(6, 12, Randomizer::new(4, 69), t);
    assert!(g.game_loop(0, 0));
    let start = cells(&g.get_controlled_block());
    assert!(g.game_loop(0, 200));
    let once = cells(&g.get_controlled_block());
    assert_eq!(once[0].0, BVec::new(start[0].0.x, start[0].0.y + 1));
    assert_eq!(once[1].0, BVec::new(start[1].0.x, start[1].0.y + 1));
    assert!(g.game_loop(0, 200));
    let twice = cells(&g.get_controlled_block());
    assert_eq!(twice[0].0, BVec::new(start[0].0.x, start[0].0.y + 2));
}

#[test]
fn a_pair_is_moved_only_into_free_cells() {
    let mut g = fresh();
    assert!(!g.move_c_buyo_if_no_collision(BVec::new(1, 0)));
    assert!(g.spawn_c_buyo((
        blob(Sprite::BuyoRed, 1, 2),
        blob(Sprite::BuyoBlue, 1, 1),
    )));
    // the wall is at x = 0
    assert!(!g.move_c_buyo_if_no_collision(BVec::new(-1, 0)));
    assert!(g.move_c_buyo_if_no_collision(BVec::new(2, 3)));
    let c = cells(&g.get_controlled_block());
    assert_eq!(c[0], (BVec::new(3, 5), Sprite::BuyoRed));
    assert_eq!(c[1], (BVec::new(3, 4), Sprite::BuyoBlue));
}

#[test]
fn a_frozen_pair_joins_the_board() {
    let mut g = fresh();
    assert!(!g.freeze_c_buyo());
    assert!(g.spawn_c_buyo((
        blob(Sprite::BuyoGreen, 2, 12),
        blob(Sprite::BuyoYellow, 2, 11),
    )));
    let before = g.get_board().len();
    assert!(g.freeze_c_buyo());
    assert_eq!(g.get_board().len(), before + 2);
    assert_eq!(g.get_controlled_block().len(), 0);
    let board = cells(&g.get_board());
    assert!(board.contains(&(BVec::new(2, 12), Sprite::BuyoGreen)));
    assert!(board.contains(&(BVec::new(2, 11), Sprite::BuyoYellow)));
}

#[test]
fn turns_keep_the_pair_and_undo() {
    let mut g = fresh();
    assert!(!g.rotate_c_buyo(1));
    assert!(g.spawn_c_buyo((
        blob(Sprite::BuyoRed, 3, 6),
        blob(Sprite::BuyoBlue, 3, 5),
    )));
    let start = cells(&g.get_controlled_block());
    assert!(g.rotate_c_buyo(1));
    let turned = cells(&g.get_controlled_block());
    assert_eq!(turned[0], (BVec::new(3, 6), Sprite::BuyoRed));
    assert_eq!(turned[1], (BVec::new(4, 6), Sprite::BuyoBlue));
    assert!(g.rotate_c_buyo(3));
    assert_eq!(cells(&g.get_controlled_block()), start);
}

#[test]
fn floating_blobs_fall_then_groups_pop() {
    let mut g = fresh();
    // four reds hanging in the air in column 1, a blue and a green on the floor of column 2
    for (a, b) in [((1, 4), (1, 3)), ((1, 6), (1, 5))] {
        assert!(g.spawn_c_buyo((blob(Sprite::BuyoRed, a.0, a.1), blob(Sprite::BuyoRed, b.0, b.1))));
        assert!(g.freeze_c_buyo());
    }
    assert!(g.spawn_c_buyo((blob(Sprite::BuyoBlue, 2, 12), blob(Sprite::BuyoGreen, 2, 11))));
    assert!(g.freeze_c_buyo());
    assert_eq!(g.pop_buyos(), (true, 1));
    let board = cells(&g.get_board());
    for y in 9..13 {
        assert!(board.contains(&(BVec::new(1, y), Sprite::BuyoRed)));
    }
    assert_eq!(g.total_score(), 0);
    assert_eq!(g.chain_power, 0);
    // now settled: the four reds pop, the blue stays
    assert_eq!(g.pop_buyos(), (true, 0));
    let board = cells(&g.get_board());
    assert!(!board.iter().any(|c| c.1 == Sprite::BuyoRed));
    assert!(board.contains(&(BVec::new(2, 12), Sprite::BuyoBlue)));
    assert!(board.contains(&(BVec::new(2, 11), Sprite::BuyoGreen)));
    assert_eq!(g.chain_power, 1);
    assert_eq!(g.total_score(), 40);
    // nothing more pops
    assert_eq!(g.pop_buyos(), (false, 0));
    assert_eq!(g.total_score(), 40);
}

#[test]
fn the_last_cell_at_a_position_is_kept() {
    let cells = deserialize_board("Gaming: ([1, 2],Red)([3, 4],Blue)([1, 2],Green)");
    assert_eq!(cells.len(), 2);
    assert!(cells.contains(&(BVec::new(1, 2), BType::Green)));
    assert!(cells.contains(&(BVec::new(3, 4), BType::Blue)));
    assert_eq!(deserialize_board("Menu: "), vec![]);
}

#[test]
fn other_screens_have_their_messages() {
    assert_eq!(screen_message(Screen::Menu), "Menu: ");
    assert_eq!(screen_message(Screen::LoadingAssets), "LoadingAssets: ");
}
