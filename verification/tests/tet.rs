use blockstackers_core::blockstacker::Tuning;
use blockstackers_core::randomizer::Randomizer;
use blockstackers_core::tet::enums::{Mino, Rotation, Shapes};
use blockstackers_core::tet::tables::Tables;
use blockstackers_core::tet::Tet;
use blockstackers_core::vectors::BVec;
use blockstackers_core::Sprite;

#[test]
fn test_rotate_o() {
    let mut game = Tet::new(10, 24, Randomizer::new(7, 727), Tuning::new());
    game.spawn_c_mino(Shapes::O);
    let init_pos = game.controlled_mino.take().unwrap().vec.clone();
    game.spawn_c_mino(Shapes::O);
    game.rotate_c_mino(1);
    assert_eq!(init_pos, game.controlled_mino.unwrap().vec);
}

#[test]
fn test_grid() {
    let mut game = Tet::new(10, 24, Randomizer::new(7, 727), Tuning::new());
    game.spawn_c_mino(Shapes::O);
}

#[test]
fn tet_board_has_sides_and_floor() {
    let game = Tet::new(2, 2, Randomizer::new(7, 1), Tuning::new());
    let b = game.get_board();
    assert_eq!(b.get(&BVec::new(0, 0)), Some(Sprite::Wall));
    assert_eq!(b.get(&BVec::new(3, 1)), Some(Sprite::Wall));
    assert_eq!(b.get(&BVec::new(1, 3)), Some(Sprite::Wall));
    assert_eq!(b.get(&BVec::new(1, 0)), None);
    assert_eq!(b.get(&BVec::new(2, 2)), None);
    assert_eq!(b.len(), 10);
}

#[test]
fn tet_board_text_draws_piece_and_walls() {
    let mut game = Tet::new(3, 2, Randomizer::new(7, 1), Tuning::new());
    game.controlled_mino = None;
    assert_eq!(game.board_text(), "#   #\n#   #\n#   #\n#####\n");
    game.spawn_c_mino(Shapes::O);
    let t = game.board_text();
    assert_eq!(t, "#   #OO\n#   #OO\n#   #  \n#####  \n");
}

#[test]
fn tet_moves_and_collisions() {
    let mut game = Tet::new(10, 24, Randomizer::new(7, 5), Tuning::new());
    game.spawn_c_mino(Shapes::I);
    assert!(game.input_left());
    assert_eq!(
        game.controlled_mino.as_ref().unwrap().vec,
        vec![BVec::new(3, 1), BVec::new(4, 1), BVec::new(5, 1), BVec::new(6, 1)]
    );
    assert!(game.input_left());
    assert!(game.input_left());
    // the left wall is at x = 0
    assert!(!game.input_left());
    assert!(game.input_right());
    assert!(!game.is_on_ground());
    game.hard_drop();
    assert!(game.is_on_ground());
    assert_eq!(
        game.controlled_mino.as_ref().unwrap().vec,
        vec![BVec::new(2, 24), BVec::new(3, 24), BVec::new(4, 24), BVec::new(5, 24)]
    );
    assert!(!game.move_c_buyo_down());
}

#[test]
fn tet_rotation_turns_around_first_cell_with_kicks() {
    let mut game = Tet::new(10, 24, Randomizer::new(7, 5), Tuning::new());
    game.spawn_c_mino(Shapes::T);
    // T cells (4,1) (5,1) (5,0) (6,1), turned clockwise around (4,1); the first kick from
    // Up to Right, (0,0), lands on free cells
    game.input_rotation_right();
    assert_eq!(
        game.controlled_mino.as_ref().unwrap().vec,
        vec![BVec::new(4, 1), BVec::new(4, 2), BVec::new(5, 2), BVec::new(4, 3)]
    );
    assert_eq!(game.controlled_mino.as_ref().unwrap().rot, Rotation::Right);
    // turning back gives the piece as it spawned
    game.input_rotation_left();
    assert_eq!(
        game.controlled_mino.as_ref().unwrap().vec,
        vec![BVec::new(4, 1), BVec::new(5, 1), BVec::new(5, 0), BVec::new(6, 1)]
    );
    assert_eq!(game.controlled_mino.as_ref().unwrap().rot, Rotation::Up);
}

#[test]
fn tet_kick_table() {
    let t = Tables::new();
    assert_eq!(t.get_offset(Shapes::T, Rotation::Right, 2), BVec::new(1, -1));
    assert_eq!(t.get_offset(Shapes::I, Rotation::Down, 0), BVec::new(-1, 1));
    assert_eq!(t.get_offset(Shapes::O, Rotation::Left, 0), BVec::new(-1, 0));
    assert_eq!(t.get_offset(Shapes::O, Rotation::Left, 3), BVec::new(0, 0));
    let k = t.get_kicks(&Rotation::Up, &Rotation::Right, &Shapes::J);
    assert_eq!(
        k,
        vec![BVec::new(0, 0), BVec::new(-1, 0), BVec::new(-1, 1), BVec::new(0, -2), BVec::new(-1, -2)]
    );
    let k = t.get_kicks(&Rotation::Right, &Rotation::Up, &Shapes::I);
    assert_eq!(
        k,
        vec![BVec::new(-1, 0), BVec::new(1, 0), BVec::new(-2, 0), BVec::new(1, 1), BVec::new(-2, -2)]
    );
}

#[test]
fn tet_game_loop_spawns_then_falls() {
    let mut game = Tet::new(10, 24, Randomizer::new(7, 99), Tuning::new());
    assert!(game.game_loop(0, 0));
    let first = game.controlled_mino.as_ref().unwrap().vec.clone();
    // falling waits for the fall speed
    assert!(!game.game_loop(0, 10));
    assert!(game.game_loop(0, 200));
    let after = game.controlled_mino.as_ref().unwrap().vec.clone();
    for (a, b) in first.iter().zip(after.iter()) {
        assert_eq!(a.x, b.x);
        assert_eq!(a.y + 1, b.y);
    }
}

#[test]
fn mino_names() {
    assert_eq!(Mino::LightBlue.to_string(), "LightBlue");
    assert_eq!(Mino::Wall.to_string(), "Wall");
}
