use blockstackers_core::blockstacker::Tuning;
use blockstackers_core::buyo_game::BuyoBuyo;
use blockstackers_core::randomizer;
use blockstackers_core::Sprite;

struct TestInit {
    bg: BuyoBuyo,
}

impl TestInit {
    pub fn init() -> TestInit {
        TestInit {
            bg: BuyoBuyo::new(6, 12, randomizer::Randomizer::new(4, 69), Tuning::new()),
        }
    }
}

#[test]
fn test_score_1chain() {
    let mut a = TestInit::init();
    a.bg.chain_power = 1;
    a.bg.color_bonus.push(Sprite::BuyoBlue);
    a.bg.puyos_cleared = 4;
    a.bg.group_bonus.push(0);
    assert_eq!(40, a.bg.score())
}

#[test]
fn test_score_2chain() {
    let mut a = TestInit::init();
    a.bg.chain_power = 2;
    a.bg.color_bonus.push(Sprite::BuyoBlue);
    a.bg.puyos_cleared = 4;
    a.bg.group_bonus.push(0);
    assert_eq!(320, a.bg.score())
}

#[test]
fn test_randomizer() {
    let mut a = TestInit::init();
    a.bg.next_queue();
    a.bg.game_loop(0, 99999);
    a.bg.hard_drop();
    a.bg.next_queue();
    a.bg.next_queue();
    a.bg.game_loop(0, 99999);
    a.bg.hard_drop();
    a.bg.next_queue();
    a.bg.game_loop(0, 99999);
    a.bg.hard_drop();
    a.bg.next_queue();
    a.bg.game_loop(0, 99999);
    a.bg.hard_drop();
}
