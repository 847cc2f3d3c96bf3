use blockstackers_core::buyo_game::BType;
use blockstackers_core::message::{deserialize_game, deserialize_game_checked, serialize_game};
use blockstackers_core::vectors::BVec;

#[test]
fn boards_are_written() {
    let board = vec![(BVec::new(0, 13), BType::Wall), (BVec::new(3, 12), BType::Red)];
    let piece = vec![(BVec::new(3, 2), BType::Blue)];
    assert_eq!(
        serialize_game(&board, &piece),
        "Gaming: ([0, 13],Wall)([3, 12],Red)([3, 2],Blue)"
    );
    assert_eq!(serialize_game(&vec![], &vec![]), "Gaming: ");
}

#[test]
fn boards_are_read_back() {
    let board = vec![(BVec::new(0, 13), BType::Wall), (BVec::new(3, 12), BType::Purple)];
    let piece = vec![(BVec::new(3, 2), BType::Green)];
    let text = serialize_game(&board, &piece);
    let mut all = board.clone();
    all.extend(piece);
    assert_eq!(deserialize_game(&text), all);
}

#[test]
fn messages_are_read() {
    assert_eq!(
        deserialize_game("Gaming: ([1, 2],red)([30, 4],WALL)"),
        vec![(BVec::new(1, 2), BType::Red), (BVec::new(30, 4), BType::Wall)]
    );
    // only what follows the last `Gaming: ` counts
    assert_eq!(
        deserialize_game("Gaming: ([1, 1],Red) Gaming: ([2, 2],Blue)"),
        vec![(BVec::new(2, 2), BType::Blue)]
    );
    // text that is no cell is skipped
    assert_eq!(
        deserialize_game("Gaming: ([-1, 2],Red)x([5, 6],Blue)"),
        vec![(BVec::new(5, 6), BType::Blue)]
    );
    assert_eq!(deserialize_game("Menu: "), vec![]);
    assert_eq!(deserialize_game("LoadingAssets: ([1, 2],Red)"), vec![]);
    // numbers beyond i32 wrap round
    assert_eq!(
        deserialize_game("Gaming: ([4294967295, 0],Red)"),
        vec![(BVec::new(-1, 0), BType::Red)]
    );
}

#[test]
fn unreadable_cells_are_refused() {
    assert_eq!(deserialize_game_checked("Gaming: ([, 2],Red)"), None);
    assert_eq!(deserialize_game_checked("Gaming: ([1, 4294967296],Red)"), None);
    assert_eq!(deserialize_game_checked("Gaming: ([1, 2],Yellow)"), None);
    assert_eq!(deserialize_game_checked("Gaming: ([1, 2],Red)"), Some(vec![(BVec::new(1, 2), BType::Red)]));
}
