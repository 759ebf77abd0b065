use raycaster::caster::Direction;
use raycaster::fixed::Fixed;
use raycaster::fixed::ONE;
use raycaster::game_state::Difficulty;
use raycaster::game_state::GameManager;
use raycaster::game_state::GameState;
use raycaster::maze::Maze;
use raycaster::player::check_gamepad_mode_change;
use raycaster::player::check_victory;
use raycaster::player::get_gamepad_info;
use raycaster::player::is_valid_position;
use raycaster::player::process_events;
use raycaster::player::turned_heading;
use raycaster::player::Controls;
use raycaster::player::Player;
use raycaster::player::Point;
use raycaster::player::ROTATION_SPEED;
use raycaster::screens::handle_victory_input;
use raycaster::screens::handle_welcome_input;
use raycaster::screens::VictoryAction;
use raycaster::screens::VictoryInput;
use raycaster::screens::WelcomeInput;

fn fx(v: f64) -> Fixed {
    (v * 65536.0).round() as i64
}

fn grid(rows: &[&str]) -> Maze {
    rows.iter().map(|row| row.chars().collect()).collect()
}

fn room() -> Maze {
    grid(&["+++++", "+  g+", "+   +", "+++++"])
}

fn at(x: f64, y: f64) -> Player {
    Player { pos: Point { x: fx(x), y: fx(y) }, a: 0, fov: fx(1.0) }
}

fn idle() -> Controls {
    Controls {
        mouse_dx: 0,
        turn_left: false,
        turn_right: false,
        stick_turn: None,
        forward: false,
        backward: false,
        stick_forward: None,
        strafe_left: false,
        strafe_right: false,
        stick_strafe: None,
    }
}

fn east() -> Direction {
    Direction { cos: ONE, sin: 0 }
}

fn quiet() -> WelcomeInput {
    WelcomeInput { up: false, down: false, stick: None, select: false, exit: false }
}

#[test]
fn difficulties_name_their_files() {
    assert_eq!(Difficulty::Easy.get_maze_file(), "maze_easy.txt");
    assert_eq!(Difficulty::Medium.get_maze_file(), "maze_medium.txt");
    assert_eq!(Difficulty::Difficult.get_maze_file(), "maze_difficult.txt");
    assert_eq!(Difficulty::Easy.get_name(), "EASY");
    assert_eq!(Difficulty::Medium.get_name(), "MEDIUM");
    assert_eq!(Difficulty::Difficult.get_name(), "DIFFICULT");
    assert_eq!(Difficulty::from_option(0), Difficulty::Easy);
    assert_eq!(Difficulty::from_option(1), Difficulty::Medium);
    assert_eq!(Difficulty::from_option(2), Difficulty::Difficult);
    assert_eq!(Difficulty::from_option(7), Difficulty::Easy);
}

#[test]
fn game_goes_from_welcome_to_playing_to_victory_and_back() {
    let mut game = GameManager::new();
    assert_eq!(game.state, GameState::Welcome);
    assert_eq!(game.current_difficulty, Difficulty::Easy);
    assert_eq!(game.selected_option, 0);
    game.selected_option = 2;
    game.start_game(Difficulty::Difficult);
    assert_eq!(game.state, GameState::Playing);
    assert_eq!(game.current_difficulty, Difficulty::Difficult);
    assert_eq!(game.selected_option, 2);
    game.win_game();
    assert_eq!(game.state, GameState::Victory);
    game.reset_to_welcome();
    assert_eq!(game.state, GameState::Welcome);
    assert_eq!(game.selected_option, 0);
    assert_eq!(game.current_difficulty, Difficulty::Difficult);
}

#[test]
fn menu_selection_wraps_around() {
    let mut game = GameManager::new();
    let mut last: Fixed = 0;
    let up = WelcomeInput { up: true, ..quiet() };
    let down = WelcomeInput { down: true, ..quiet() };
    let outcome = handle_welcome_input(&mut game, &up, &mut last);
    assert_eq!(game.selected_option, 2);
    assert_eq!((outcome.moves, outcome.started, outcome.exit), (1, false, false));
    handle_welcome_input(&mut game, &up, &mut last);
    assert_eq!(game.selected_option, 1);
    handle_welcome_input(&mut game, &down, &mut last);
    handle_welcome_input(&mut game, &down, &mut last);
    assert_eq!(game.selected_option, 0);
    let both = WelcomeInput { up: true, down: true, ..quiet() };
    let outcome = handle_welcome_input(&mut game, &both, &mut last);
    assert_eq!(game.selected_option, 0);
    assert_eq!(outcome.moves, 2);
    assert_eq!(game.state, GameState::Welcome);
}

#[test]
fn menu_stick_moves_once_for_each_push() {
    let mut game = GameManager::new();
    let mut last: Fixed = 0;
    let pushed_down = WelcomeInput { stick: Some(fx(0.8)), ..quiet() };
    let outcome = handle_welcome_input(&mut game, &pushed_down, &mut last);
    assert_eq!((game.selected_option, outcome.moves, last), (1, 1, fx(0.8)));
    // Held down, the stick does not move the selection again.
    let outcome = handle_welcome_input(&mut game, &pushed_down, &mut last);
    assert_eq!((game.selected_option, outcome.moves), (1, 0));
    let released = WelcomeInput { stick: Some(0), ..quiet() };
    handle_welcome_input(&mut game, &released, &mut last);
    assert_eq!((game.selected_option, last), (1, 0));
    let pushed_up = WelcomeInput { stick: Some(fx(-0.8)), ..quiet() };
    handle_welcome_input(&mut game, &pushed_up, &mut last);
    assert_eq!(game.selected_option, 0);
    // Exactly one half is not beyond one half.
    last = 0;
    let half = WelcomeInput { stick: Some(fx(0.5)), ..quiet() };
    handle_welcome_input(&mut game, &half, &mut last);
    assert_eq!(game.selected_option, 0);
    // Without a gamepad the remembered value stays.
    last = 77;
    handle_welcome_input(&mut game, &quiet(), &mut last);
    assert_eq!(last, 77);
}

#[test]
fn menu_select_starts_the_selected_difficulty() {
    let mut game = GameManager::new();
    let mut last: Fixed = 0;
    let input = WelcomeInput { down: true, select: true, exit: true, ..quiet() };
    let outcome = handle_welcome_input(&mut game, &input, &mut last);
    assert_eq!(game.state, GameState::Playing);
    assert_eq!(game.current_difficulty, Difficulty::Medium);
    assert_eq!((outcome.moves, outcome.started, outcome.exit), (1, true, true));
    let mut odd = GameManager::new();
    odd.selected_option = usize::MAX;
    handle_welcome_input(&mut odd, &WelcomeInput { down: true, ..quiet() }, &mut last);
    assert_eq!(odd.selected_option, 1);
}

#[test]
fn victory_screen_goes_to_the_menu_or_starts_again() {
    let mut game = GameManager::new();
    game.start_game(Difficulty::Medium);
    game.win_game();
    game.selected_option = 1;
    let nothing = VictoryInput { menu: false, restart: false };
    assert_eq!(handle_victory_input(&mut game, &nothing), VictoryAction::NoAction);
    assert_eq!(game.state, GameState::Victory);
    let restart = VictoryInput { menu: false, restart: true };
    assert_eq!(handle_victory_input(&mut game, &restart), VictoryAction::RestartLevel);
    assert_eq!(game.state, GameState::Playing);
    assert_eq!(game.selected_option, 1);
    game.win_game();
    let both = VictoryInput { menu: true, restart: true };
    assert_eq!(handle_victory_input(&mut game, &both), VictoryAction::BackToMenu);
    assert_eq!(game.state, GameState::Welcome);
    assert_eq!(game.selected_option, 0);
    assert_eq!(game.current_difficulty, Difficulty::Medium);
}

#[test]
fn player_may_stand_in_empty_cells_and_on_the_goal() {
    let maze = room();
    assert!(is_valid_position(Point { x: fx(150.0), y: fx(150.0) }, &maze, 100));
    assert!(is_valid_position(Point { x: fx(350.0), y: fx(150.0) }, &maze, 100));
    assert!(is_valid_position(Point { x: fx(100.0), y: fx(299.99) }, &maze, 100));
    assert!(!is_valid_position(Point { x: fx(99.99), y: fx(150.0) }, &maze, 100));
    assert!(!is_valid_position(Point { x: fx(450.0), y: fx(150.0) }, &maze, 100));
    assert!(!is_valid_position(Point { x: fx(550.0), y: fx(150.0) }, &maze, 100));
    assert!(!is_valid_position(Point { x: fx(-1.0), y: fx(150.0) }, &maze, 100));
    assert!(!is_valid_position(Point { x: fx(150.0), y: fx(450.0) }, &maze, 100));
    assert!(!is_valid_position(Point { x: 0, y: 0 }, &Vec::new(), 100));
}

#[test]
fn victory_is_standing_on_the_goal() {
    let maze = room();
    assert!(check_victory(&at(350.0, 150.0), &maze, 100));
    assert!(check_victory(&at(399.9, 199.9), &maze, 100));
    assert!(!check_victory(&at(250.0, 150.0), &maze, 100));
    assert!(!check_victory(&at(350.0, 250.0), &maze, 100));
    assert!(!check_victory(&at(-350.0, 150.0), &maze, 100));
}

#[test]
fn keys_and_mouse_turn_the_player() {
    assert_eq!(turned_heading(1000, &idle()), 1000);
    assert_eq!(ROTATION_SPEED, (std::f64::consts::PI / 50.0 * 65536.0) as i64);
    let left = Controls { turn_left: true, ..idle() };
    assert_eq!(turned_heading(1000, &left), 1000 - ROTATION_SPEED);
    let right = Controls { turn_right: true, ..idle() };
    assert_eq!(turned_heading(1000, &right), 1000 + ROTATION_SPEED);
    let both = Controls { turn_left: true, turn_right: true, ..idle() };
    assert_eq!(turned_heading(1000, &both), 1000);
    // A hundred units of mouse are three tenths of a radian.
    let mouse = Controls { mouse_dx: fx(100.0), ..idle() };
    assert_eq!(turned_heading(0, &mouse), fx(100.0) * 3 / 1000);
    let back = Controls { mouse_dx: fx(-100.0), ..idle() };
    assert_eq!(turned_heading(0, &back), -19661);
    // The stick turns by a twentieth of its value, beyond the dead zone only.
    let stick = Controls { stick_turn: Some(fx(0.5)), ..idle() };
    assert_eq!(turned_heading(0, &stick), fx(0.5) * 5 / 100);
    let dead = Controls { stick_turn: Some(6553), ..idle() };
    assert_eq!(turned_heading(0, &dead), 0);
    let alive = Controls { stick_turn: Some(-6554), ..idle() };
    assert_eq!(turned_heading(0, &alive), -328);
    let edge = Controls { turn_right: true, ..idle() };
    assert_eq!(turned_heading(i64::MAX, &edge), i64::MAX);
}

#[test]
fn player_walks_five_units_where_the_way_is_free() {
    let maze = room();
    let mut player = at(150.0, 150.0);
    let forward = Controls { forward: true, ..idle() };
    process_events(&mut player, &forward, east(), &maze, 100);
    assert_eq!(player.pos, Point { x: fx(155.0), y: fx(150.0) });
    let backward = Controls { backward: true, ..idle() };
    process_events(&mut player, &backward, east(), &maze, 100);
    assert_eq!(player.pos, Point { x: fx(150.0), y: fx(150.0) });
    // Looking east, right is south and left is north.
    let right = Controls { strafe_right: true, ..idle() };
    process_events(&mut player, &right, east(), &maze, 100);
    assert_eq!(player.pos, Point { x: fx(150.0), y: fx(155.0) });
    let left = Controls { strafe_left: true, ..idle() };
    process_events(&mut player, &left, east(), &maze, 100);
    assert_eq!(player.pos, Point { x: fx(150.0), y: fx(150.0) });
    assert_eq!((player.a, player.fov), (0, fx(1.0)));
}

#[test]
fn player_does_not_walk_into_walls() {
    let maze = room();
    let mut player = at(103.0, 150.0);
    let backward = Controls { backward: true, ..idle() };
    process_events(&mut player, &backward, east(), &maze, 100);
    assert_eq!(player.pos, Point { x: fx(103.0), y: fx(150.0) });
    let left = Controls { strafe_left: true, ..idle() };
    let mut high = at(150.0, 102.0);
    process_events(&mut high, &left, east(), &maze, 100);
    assert_eq!(high.pos, Point { x: fx(150.0), y: fx(102.0) });
    // Forward and backward in one frame end where they started.
    let both = Controls { forward: true, backward: true, ..idle() };
    let mut still = at(150.0, 150.0);
    process_events(&mut still, &both, east(), &maze, 100);
    assert_eq!(still.pos, Point { x: fx(150.0), y: fx(150.0) });
    // At the wall, forward is refused and backward alone is made.
    let mut wall = at(197.0, 250.0);
    wall.pos.x = fx(397.0);
    process_events(&mut wall, &both, east(), &maze, 100);
    assert_eq!(wall.pos, Point { x: fx(392.0), y: fx(250.0) });
}

#[test]
fn sticks_move_the_player_by_their_value() {
    let maze = room();
    let mut player = at(150.0, 150.0);
    // The stick pushed up (negative) by a half walks forward at half speed.
    let up = Controls { stick_forward: Some(fx(-0.5)), ..idle() };
    process_events(&mut player, &up, east(), &maze, 100);
    assert_eq!(player.pos, Point { x: fx(152.5), y: fx(150.0) });
    let right = Controls { stick_strafe: Some(fx(1.0)), ..idle() };
    process_events(&mut player, &right, east(), &maze, 100);
    assert_eq!(player.pos, Point { x: fx(152.5), y: fx(155.0) });
    let left = Controls { stick_strafe: Some(fx(-1.0)), ..idle() };
    process_events(&mut player, &left, east(), &maze, 100);
    assert_eq!(player.pos, Point { x: fx(152.5), y: fx(150.0) });
    let dead = Controls { stick_forward: Some(fx(0.05)), stick_strafe: Some(-6553), ..idle() };
    process_events(&mut player, &dead, east(), &maze, 100);
    assert_eq!(player.pos, Point { x: fx(152.5), y: fx(150.0) });
}

#[test]
fn turning_and_walking_come_together() {
    let maze = room();
    let mut player = at(150.0, 150.0);
    let controls = Controls { turn_right: true, forward: true, ..idle() };
    let south = Direction { cos: 0, sin: ONE };
    process_events(&mut player, &controls, south, &maze, 100);
    assert_eq!(player.a, ROTATION_SPEED);
    assert_eq!(player.pos, Point { x: fx(150.0), y: fx(155.0) });
}

#[test]
fn gamepad_is_described() {
    assert_eq!(get_gamepad_info(true, Some("Pad 9")), "Gamepad: Pad 9");
    assert_eq!(get_gamepad_info(true, None), "Gamepad: Unknown");
    assert_eq!(get_gamepad_info(false, Some("Pad 9")), "No gamepad detected");
    assert_eq!(get_gamepad_info(false, None), "No gamepad detected");
    assert!(check_gamepad_mode_change(true, true));
    assert!(!check_gamepad_mode_change(false, true));
    assert!(!check_gamepad_mode_change(true, false));
}
