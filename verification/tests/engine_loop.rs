//! Tests of the fixed-timestep scheduler and the screen lifecycle.

use josengine::display::LogicCall;
use josengine::engine::Engine;
use josengine::input::InputState;
use josengine::screens::{Apple, MainMenu, Screen, Snake};
use josengine::shared::Point;

#[test]
fn tick_duration_comes_from_the_rate() {
    let e = Engine::initialize(60, Point::at(0, 0), MainMenu::init());
    assert_eq!(e.tickrate, 16_666_666);
    assert_eq!(e.accumulator, 0);
    assert!(e.display.needs_init);
}

#[test]
fn fixed_timestep_carries_leftover_time() {
    // tick rate 60 and three 0.02 s frames: each frame banks more than
    // one tick, fires exactly one, and carries the remainder over.
    let mut e = Engine::initialize(60, Point::at(0, 0), MainMenu::init());
    let idle = InputState::none();
    // first cycle only initializes the display
    assert!(!e.run_once(&idle, 123));
    assert_eq!(e.accumulator, 0);
    assert!(!e.display.needs_init);

    assert!(!e.run_once(&idle, 20_000_000));
    assert_eq!(e.accumulator, 20_000_000 - 16_666_666);
    assert!(!e.run_once(&idle, 20_000_000));
    assert_eq!(e.accumulator, 40_000_000 - 2 * 16_666_666);
    assert!(!e.run_once(&idle, 20_000_000));
    assert_eq!(e.accumulator, 60_000_000 - 3 * 16_666_666);
}

#[test]
fn short_frames_bank_until_a_tick_fits() {
    let mut e = Engine::initialize(60, Point::at(0, 0), MainMenu::init());
    let idle = InputState::none();
    assert!(!e.run_once(&idle, 0));
    // 10 ms banks no tick; the next 10 ms crosses the threshold
    assert!(!e.run_once(&idle, 10_000_000));
    assert_eq!(e.accumulator, 10_000_000);
    assert!(!e.run_once(&idle, 10_000_000));
    assert_eq!(e.accumulator, 20_000_000 - 16_666_666);
}

#[test]
fn stalls_are_clamped_to_a_quarter_second() {
    let mut e = Engine::initialize(10, Point::at(0, 0), MainMenu::init());
    let idle = InputState::none();
    assert!(!e.run_once(&idle, 0));
    // an hour-long stall contributes only 0.25 s: two 0.1 s ticks fire
    assert!(!e.run_once(&idle, 3_600_000_000_000));
    assert_eq!(e.accumulator, 250_000_000 - 2 * 100_000_000);
}

#[test]
fn select_on_the_menu_kills_the_loop() {
    let mut e = Engine::initialize(60, Point::at(0, 0), MainMenu::init());
    let idle = InputState::none();
    assert!(!e.run_once(&idle, 0));
    let select = InputState::new(
        false, false, false, false, false, true, false, false, false, false,
    );
    assert!(e.run_once(&select, 20_000_000));
}

#[test]
fn select_during_the_snake_game_does_not_kill() {
    // only the menu maps select to a kill request; the snake game never
    // kills, so the same input keeps the engine running
    let mut e = Engine::initialize(60, Point::at(0, 0), Snake::init());
    let idle = InputState::none();
    assert!(!e.run_once(&idle, 0));
    let select = InputState::new(
        false, false, false, false, false, true, false, false, false, false,
    );
    assert!(!e.run_once(&select, 20_000_000));
}

#[test]
fn start_on_the_menu_opens_the_snake_game() {
    let mut e = Engine::initialize(60, Point::at(0, 0), MainMenu::init());
    let idle = InputState::none();
    assert!(!e.run_once(&idle, 0));
    let start = InputState::new(
        false, false, false, false, true, false, false, false, false, false,
    );
    assert!(!e.run_once(&start, 20_000_000));
    assert!(e.display.needs_init);
    // the next cycle initializes the snake screen
    assert!(!e.run_once(&idle, 20_000_000));
    assert!(!e.display.needs_init);
    assert!(matches!(e.display.screen, Screen::SnakeGame(_)));
}

#[test]
fn snake_spawns_centered_with_an_apple_on_the_board() {
    let s = Snake::init();
    match s {
        Screen::SnakeGame(sn) => {
            assert_eq!(sn.coord, Point::at(10, 10));
            assert_eq!(sn.next_coord, Point::at(11, 10));
            assert_eq!(sn.segments.len(), 0);
            assert!(!sn.apple.eaten);
            // the apple always lands exactly on a board cell inside the
            // walls; this fails if the random draw were out of range
            assert!(sn.apple.coord.x % 65536 == 0 && sn.apple.coord.y % 65536 == 0);
            assert!(sn.apple.coord.x >= 65536 && sn.apple.coord.x <= 20 * 65536);
            assert!(sn.apple.coord.y >= 65536 && sn.apple.coord.y <= 20 * 65536);
            assert!(sn.apple.coord != sn.coord);
        },
        _ => panic!("snake init did not build a snake screen"),
    }
}

#[test]
fn snake_hits_the_wall_and_returns_to_the_menu() {
    // heading right from the center, the snake reaches the wall after
    // enough movement frames and the game hands back the menu screen
    let mut screen = Snake::init();
    let idle = InputState::none();
    let mut queue = Vec::new();
    let mut handed_over = None;
    for _ in 0..100 {
        let (next, kill) = screen.update(&mut queue, &idle);
        assert!(!kill);
        if next.is_some() {
            handed_over = next;
            break;
        }
    }
    match handed_over {
        Some(Screen::Menu(_)) => {},
        _ => panic!("the snake game did not end at the wall"),
    }
}

#[test]
fn snake_dies_on_its_own_body() {
    let snake = Snake {
        dir: Point::right(),
        next_dir: Point::right(),
        coord: Point::at(10, 10),
        next_coord: Point::at(11, 10),
        last_tail: Point::at(8, 10),
        segments: vec![Point::at(11, 10), Point::at(9, 10)],
        apple: Apple { coord: Point::at(1, 1), eaten: false },
        score: 0,
        frame_counter: 3,
    };
    let mut screen = Screen::SnakeGame(snake);
    let mut queue = Vec::new();
    let (next, kill) = screen.update(&mut queue, &InputState::none());
    assert!(!kill);
    assert!(matches!(next, Some(Screen::Menu(_))));
}

#[test]
fn snake_chasing_its_tail_cell_survives() {
    // the next cell coincides with the head's previous tail: exempt
    let snake = Snake {
        dir: Point::right(),
        next_dir: Point::right(),
        coord: Point::at(10, 10),
        next_coord: Point::at(11, 10),
        last_tail: Point::at(10, 10),
        segments: vec![Point::at(11, 10)],
        apple: Apple { coord: Point::at(1, 1), eaten: false },
        score: 0,
        frame_counter: 3,
    };
    let mut screen = Screen::SnakeGame(snake);
    let mut queue = Vec::new();
    let (next, kill) = screen.update(&mut queue, &InputState::none());
    assert!(!kill);
    assert!(next.is_none());
}

#[test]
fn menu_east_switches_cameras() {
    let mut screen = MainMenu::init();
    let east = InputState::new(
        false, false, false, false, false, false, false, false, false, true,
    );
    let mut queue = Vec::new();
    let (next, kill) = screen.update(&mut queue, &east);
    assert!(next.is_none());
    assert!(!kill);
    assert_eq!(queue.len(), 3);
    assert!(matches!(queue[1], LogicCall::SetOutputCamera(None)));
    assert!(matches!(queue[2], LogicCall::SetCamera(1, _, _)));
}

#[test]
fn snake_moves_one_cell_every_fourth_update() {
    let mut screen = Snake::init();
    let idle = InputState::none();
    let mut queue = Vec::new();
    for _ in 0..4 {
        let (next, kill) = screen.update(&mut queue, &idle);
        assert!(next.is_none());
        assert!(!kill);
    }
    match &screen {
        Screen::SnakeGame(sn) => {
            assert_eq!(sn.coord, Point::at(11, 10));
            assert_eq!(sn.frame_counter, 0);
        },
        _ => panic!("screen changed unexpectedly"),
    }
    // three pixel commands per update: erase tail, draw head, draw apple
    assert_eq!(queue.len(), 12);
}
