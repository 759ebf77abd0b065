//! The welcome menu and the victory screen: what input does to the game.

use vstd::prelude::*;
use vstd::string::*;
use crate::canvas::Layer;
use crate::canvas::draw_layers;
use crate::canvas::stacked;
use crate::color::Color;
use crate::color::black;
use crate::color::white;
use crate::color::yellow;
use crate::color::orange;
use crate::color::skyblue;
use crate::color::lightgray;
use crate::color::gold;
use crate::color::shade;
use crate::color::deep_shade;
use crate::framebuffer::Framebuffer;
use crate::fixed::Fixed;
use crate::fixed::HALF;
use crate::game_state::Difficulty;
use crate::game_state::GameManager;
use crate::game_state::GameState;
use crate::game_state::DIFFICULTIES;

verus! {

/// What the victory screen asks the game to do.
#[derive(Debug, Clone, Copy, PartialEq, Eq, Structural)]
pub enum VictoryAction {
    NoAction,
    BackToMenu,
    RestartLevel,
}

/// What the input devices say on the victory screen.
#[derive(Debug, Clone, Copy, PartialEq, Eq, Structural)]
pub struct VictoryInput {
    pub menu: bool,
    pub restart: bool,
}

/// What the input devices say on the welcome screen.  `stick` is the
/// vertical value of the stick, from minus one to one, and `None` where no
/// gamepad is connected.
#[derive(Debug, Clone, Copy, PartialEq, Eq, Structural)]
pub struct WelcomeInput {
    pub up: bool,
    pub down: bool,
    pub stick: Option<Fixed>,
    pub select: bool,
    pub exit: bool,
}

/// What the welcome screen asks the game to do besides what it does to the
/// game manager: how many times to play the sound of the selection moving,
/// whether to play the sound of a game starting, and whether to leave.
#[derive(Debug, Clone, Copy, PartialEq, Eq, Structural)]
pub struct WelcomeOutcome {
    pub moves: u8,
    pub started: bool,
    pub exit: bool,
}

/// The place of the menu above `option`; the last one above the first.
pub open spec fn option_above(option: int) -> int {
    if option > 0 {
        option - 1
    } else {
        DIFFICULTIES - 1
    }
}

/// The place of the menu below `option`; the first one below the last.
pub open spec fn option_below(option: int) -> int {
    (option + 1) % (DIFFICULTIES as int)
}

/// Whether the stick has just been pushed up: it is beyond minus one half
/// and was not before.
pub open spec fn stick_went_up(stick: Option<Fixed>, last: Fixed) -> bool {
    match stick {
        Some(value) => value < -HALF && last >= -HALF,
        None => false,
    }
}

/// Whether the stick has just been pushed down: it is beyond one half and
/// was not before, and has not just been pushed up.
pub open spec fn stick_went_down(stick: Option<Fixed>, last: Fixed) -> bool {
    match stick {
        Some(value) => !stick_went_up(stick, last) && value > HALF && last <= HALF,
        None => false,
    }
}

/// The place selected after the input of one frame: the keys first, up
/// before down, then the stick.
pub open spec fn selection_after(option: int, input: WelcomeInput, last: Fixed) -> int {
    let by_up = if input.up {
        option_above(option)
    } else {
        option
    };
    let by_down = if input.down {
        option_below(by_up)
    } else {
        by_up
    };
    if stick_went_up(input.stick, last) {
        option_above(by_down)
    } else if stick_went_down(input.stick, last) {
        option_below(by_down)
    } else {
        by_down
    }
}

/// One for true, zero for false.
pub open spec fn count_of(flag: bool) -> int {
    if flag {
        1
    } else {
        0
    }
}

/// Computes `option_above`.
fn above(option: usize) -> (place: usize)
    ensures
        place == option_above(option as int),
{
    if option > 0 {
        option - 1
    } else {
        DIFFICULTIES - 1
    }
}

/// Computes `option_below`.
fn below(option: usize) -> (place: usize)
    ensures
        place == option_below(option as int),
{
    if option == usize::MAX {
        // The last number a place can be is a multiple of three, with
        // thirty-two bits as with sixty-four.
        assert(usize::MAX == 0xffff_ffff || usize::MAX == 0xffff_ffff_ffff_ffff);
        1
    } else {
        (option + 1) % DIFFICULTIES
    }
}

/// Acts on the input of one frame on the victory screen: going back to the
/// menu comes before starting the level again.
pub fn handle_victory_input(game_manager: &mut GameManager, input: &VictoryInput) -> (action:
    VictoryAction)
    ensures
        input.menu ==> action == VictoryAction::BackToMenu && *final(game_manager) == (GameManager {
            state: GameState::Welcome,
            selected_option: 0,
            ..*old(game_manager)
        }),
        !input.menu && input.restart ==> action == VictoryAction::RestartLevel
            && *final(game_manager) == (GameManager {
            state: GameState::Playing,
            ..*old(game_manager)
        }),
        !input.menu && !input.restart ==> action == VictoryAction::NoAction && *final(game_manager)
            == *old(game_manager),
{
    if input.menu {
        game_manager.reset_to_welcome();
        VictoryAction::BackToMenu
    } else if input.restart {
        game_manager.state = GameState::Playing;
        VictoryAction::RestartLevel
    } else {
        VictoryAction::NoAction
    }
}

/// Acts on the input of one frame on the welcome screen: moves the
/// selection, and starts the game at the selected difficulty where asked.
/// `last_stick` holds the value the stick had the frame before, and is
/// brought up to date.
pub fn handle_welcome_input(
    game_manager: &mut GameManager,
    input: &WelcomeInput,
    last_stick: &mut Fixed,
) -> (outcome: WelcomeOutcome)
    ensures
        final(game_manager).selected_option == selection_after(
            old(game_manager).selected_option as int,
            *input,
            *old(last_stick),
        ),
        final(game_manager).state == if input.select {
            GameState::Playing
        } else {
            old(game_manager).state
        },
        final(game_manager).current_difficulty == if input.select {
            Difficulty::from_option(final(game_manager).selected_option)
        } else {
            old(game_manager).current_difficulty
        },
        *final(last_stick) == match input.stick {
            Some(value) => value,
            None => *old(last_stick),
        },
        outcome.moves == count_of(input.up) + count_of(input.down) + count_of(
            stick_went_up(input.stick, *old(last_stick)) || stick_went_down(
                input.stick,
                *old(last_stick),
            ),
        ),
        outcome.started == input.select,
        outcome.exit == input.exit,
{
    let mut moves: u8 = 0;
    if input.up {
        moves = moves + 1;
        game_manager.selected_option = above(game_manager.selected_option);
    }
    if input.down {
        moves = moves + 1;
        game_manager.selected_option = below(game_manager.selected_option);
    }
    match input.stick {
        Some(value) => {
            if value < -HALF && *last_stick >= -HALF {
                moves = moves + 1;
                game_manager.selected_option = above(game_manager.selected_option);
            } else if value > HALF && *last_stick <= HALF {
                moves = moves + 1;
                game_manager.selected_option = below(game_manager.selected_option);
            }
            *last_stick = value;
        },
        None => {},
    }
    if input.select {
        let difficulty: Difficulty = Difficulty::from_option(game_manager.selected_option);
        game_manager.start_game(difficulty);
    }
    WelcomeOutcome { moves, started: input.select, exit: input.exit }
}


/// The sum of two pixel coordinates, held at the largest there is.
pub open spec fn spec_plus(a: u32, b: u32) -> u32 {
    if a + b > u32::MAX {
        u32::MAX
    } else {
        (a + b) as u32
    }
}

/// The sum of two pixel coordinates, held at the largest there is.
#[verifier::when_used_as_spec(spec_plus)]
pub fn plus(a: u32, b: u32) -> (sum: u32)
    ensures
        sum == spec_plus(a, b),
{
    if a > u32::MAX - b {
        u32::MAX
    } else {
        a + b
    }
}

/// The difference of two pixel coordinates, held at zero.
pub open spec fn spec_minus(a: u32, b: u32) -> u32 {
    if a < b {
        0
    } else {
        (a - b) as u32
    }
}

/// The difference of two pixel coordinates, held at zero.
#[verifier::when_used_as_spec(spec_minus)]
pub fn minus(a: u32, b: u32) -> (difference: u32)
    ensures
        difference == spec_minus(a, b),
{
    if a < b {
        0
    } else {
        a - b
    }
}

/// A text as a layer.
pub open spec fn spec_label(text: &'static str, left: u32, top: u32, size: u32, color: Color)
    -> Layer {
    Layer::Text { text, left, top, size, color }
}

/// A text as a layer.
#[verifier::when_used_as_spec(spec_label)]
pub fn label(text: &'static str, left: u32, top: u32, size: u32, color: Color) -> (layer: Layer)
    ensures
        layer == spec_label(text, left, top, size, color),
{
    Layer::Text { text, left, top, size, color }
}

/// A filled rectangle as a layer.
pub open spec fn spec_patch(left: u32, top: u32, width: u32, height: u32, color: Color) -> Layer {
    Layer::Rect { left, top, width, height, color }
}

/// A filled rectangle as a layer.
#[verifier::when_used_as_spec(spec_patch)]
pub fn patch(left: u32, top: u32, width: u32, height: u32, color: Color) -> (layer: Layer)
    ensures
        layer == spec_patch(left, top, width, height, color),
{
    Layer::Rect { left, top, width, height, color }
}

/// What the victory screen shows on a surface of the given size, over its
/// background: a shaded box in the middle and four lines of text, each on
/// a black outline.
pub open spec fn victory_layers(width: u32, height: u32) -> Seq<Layer> {
    let cx = (width / 2) as u32;
    let cy = (height / 2) as u32;
    seq![
        patch(minus(cx, 300), minus(cy, 100), 600, 200, shade()),
        label("SUCCESS!", plus(minus(cx, 128), 2), minus(cy, 58), 32, black()),
        label("SUCCESS!", minus(minus(cx, 128), 2), minus(cy, 58), 32, black()),
        label("SUCCESS!", minus(cx, 128), minus(cy, 58), 32, black()),
        label("SUCCESS!", minus(cx, 128), minus(cy, 62), 32, black()),
        label("SUCCESS!", minus(cx, 128), minus(cy, 60), 32, white()),
        label("You reached the goal!", plus(minus(cx, 210), 1), plus(cy, 9), 20, black()),
        label("You reached the goal!", minus(minus(cx, 210), 1), plus(cy, 9), 20, black()),
        label("You reached the goal!", minus(cx, 210), plus(cy, 9), 20, black()),
        label("You reached the goal!", minus(cx, 210), plus(cy, 11), 20, black()),
        label("You reached the goal!", minus(cx, 210), plus(cy, 10), 20, white()),
        label(
            "Press M for Menu or R to restart",
            plus(minus(cx, 256), 1),
            plus(cy, 49),
            16,
            black(),
        ),
        label(
            "Press M for Menu or R to restart",
            minus(minus(cx, 256), 1),
            plus(cy, 49),
            16,
            black(),
        ),
        label("Press M for Menu or R to restart", minus(cx, 256), plus(cy, 49), 16, black()),
        label("Press M for Menu or R to restart", minus(cx, 256), plus(cy, 51), 16, black()),
        label("Press M for Menu or R to restart", minus(cx, 256), plus(cy, 50), 16, yellow()),
        label("Start/Select for Menu/Restart", plus(minus(cx, 203), 1), plus(cy, 69), 14, black()),
        label("Start/Select for Menu/Restart", minus(minus(cx, 203), 1), plus(cy, 69), 14, black()),
        label("Start/Select for Menu/Restart", minus(cx, 203), plus(cy, 69), 14, black()),
        label("Start/Select for Menu/Restart", minus(cx, 203), plus(cy, 71), 14, black()),
        label("Start/Select for Menu/Restart", minus(cx, 203), plus(cy, 70), 14, skyblue()),
    ]
}

/// Computes `victory_layers`.
fn victory_screen(width: u32, height: u32) -> (layers: Vec<Layer>)
    ensures
        layers@ == victory_layers(width, height),
{
    let cx: u32 = width / 2;
    let cy: u32 = height / 2;
    let mut layers: Vec<Layer> = Vec::new();
    layers.push(patch(minus(cx, 300), minus(cy, 100), 600, 200, shade()));
    layers.push(label("SUCCESS!", plus(minus(cx, 128), 2), minus(cy, 58), 32, black()));
    layers.push(label("SUCCESS!", minus(minus(cx, 128), 2), minus(cy, 58), 32, black()));
    layers.push(label("SUCCESS!", minus(cx, 128), minus(cy, 58), 32, black()));
    layers.push(label("SUCCESS!", minus(cx, 128), minus(cy, 62), 32, black()));
    layers.push(label("SUCCESS!", minus(cx, 128), minus(cy, 60), 32, white()));
    layers.push(label("You reached the goal!", plus(minus(cx, 210), 1), plus(cy, 9), 20, black()));
    layers.push(label("You reached the goal!", minus(minus(cx, 210), 1), plus(cy, 9), 20, black()));
    layers.push(label("You reached the goal!", minus(cx, 210), plus(cy, 9), 20, black()));
    layers.push(label("You reached the goal!", minus(cx, 210), plus(cy, 11), 20, black()));
    layers.push(label("You reached the goal!", minus(cx, 210), plus(cy, 10), 20, white()));
    layers.push(
        label(
            "Press M for Menu or R to restart",
            plus(minus(cx, 256), 1),
            plus(cy, 49),
            16,
            black(),
        ),
    );
    layers.push(
        label(
            "Press M for Menu or R to restart",
            minus(minus(cx, 256), 1),
            plus(cy, 49),
            16,
            black(),
        ),
    );
    layers.push(
        label("Press M for Menu or R to restart", minus(cx, 256), plus(cy, 49), 16, black()),
    );
    layers.push(
        label("Press M for Menu or R to restart", minus(cx, 256), plus(cy, 51), 16, black()),
    );
    layers.push(
        label("Press M for Menu or R to restart", minus(cx, 256), plus(cy, 50), 16, yellow()),
    );
    layers.push(
        label("Start/Select for Menu/Restart", plus(minus(cx, 203), 1), plus(cy, 69), 14, black()),
    );
    layers.push(
        label("Start/Select for Menu/Restart", minus(minus(cx, 203), 1), plus(cy, 69), 14, black()),
    );
    layers.push(label("Start/Select for Menu/Restart", minus(cx, 203), plus(cy, 69), 14, black()));
    layers.push(label("Start/Select for Menu/Restart", minus(cx, 203), plus(cy, 71), 14, black()));
    layers.push(
        label("Start/Select for Menu/Restart", minus(cx, 203), plus(cy, 70), 14, skyblue()),
    );
    assert(layers@ =~= victory_layers(width, height));
    layers
}

/// The line of the menu for the difficulty in place `option`, with its
/// left end at `left` and its top at `top`: the name on an outline, in
/// yellow on orange with a mark before it where it is the selected one, in
/// white on black where it is not.
pub open spec fn option_layers(option: usize, selected: bool, left: u32, top: u32) -> Seq<Layer> {
    let name = Difficulty::from_option(option).spec_name();
    if selected {
        seq![
            label(name, plus(left, 1), plus(top, 1), 24, orange()),
            label(name, minus(left, 1), plus(top, 1), 24, orange()),
            label(name, plus(left, 1), minus(top, 1), 24, orange()),
            label(name, minus(left, 1), minus(top, 1), 24, orange()),
            label(name, left, top, 24, yellow()),
            label(">", minus(left, 40), top, 24, yellow()),
        ]
    } else {
        seq![
            label(name, plus(left, 1), plus(top, 1), 24, black()),
            label(name, minus(left, 1), plus(top, 1), 24, black()),
            label(name, plus(left, 1), minus(top, 1), 24, black()),
            label(name, minus(left, 1), minus(top, 1), 24, black()),
            label(name, left, top, 24, white()),
        ]
    }
}

/// The left end of the line of the menu in place `option`: the name, in
/// characters 24 pixels wide, is centred in a box 500 pixels wide.
pub open spec fn option_left(menu_x: u32, option: usize) -> u32 {
    plus(
        menu_x,
        minus(500, (Difficulty::from_option(option).spec_name()@.len() * 24) as u32) / 2,
    )
}

/// The top of the line of the menu in place `option`.
pub open spec fn option_top(cy: u32, option: usize) -> u32 {
    plus(minus(cy, 30), (option * 40) as u32)
}

/// What the menu shows above its lines: a shaded box, the title and what
/// the menu is for.
pub open spec fn welcome_head(width: u32, height: u32) -> Seq<Layer> {
    let menu_x = (width / 6) as u32;
    let cy = (height / 2) as u32;
    seq![
        patch(menu_x, minus(cy, 200), 500, 400, deep_shade()),
        label("Naruto Maze", plus(plus(menu_x, 96), 2), minus(cy, 148), 28, gold()),
        label("Naruto Maze", minus(plus(menu_x, 96), 2), minus(cy, 148), 28, gold()),
        label("Naruto Maze", plus(menu_x, 96), minus(cy, 150), 28, gold()),
        label("Naruto Maze", plus(menu_x, 96), minus(cy, 146), 28, gold()),
        label("Naruto Maze", plus(menu_x, 96), minus(cy, 147), 28, white()),
        label("Select Difficulty", plus(plus(menu_x, 80), 1), minus(cy, 79), 20, black()),
        label("Select Difficulty", minus(plus(menu_x, 80), 1), minus(cy, 79), 20, black()),
        label("Select Difficulty", plus(menu_x, 80), minus(cy, 81), 20, black()),
        label("Select Difficulty", plus(menu_x, 80), minus(cy, 77), 20, black()),
        label("Select Difficulty", plus(menu_x, 80), minus(cy, 79), 20, lightgray()),
    ]
}

/// What the menu shows below its lines: how to use it.
pub open spec fn welcome_tail(width: u32, height: u32) -> Seq<Layer> {
    let menu_x = (width / 6) as u32;
    let cy = (height / 2) as u32;
    seq![
        label(
            "Use UP/DOWN or Joystick to navigate",
            plus(plus(menu_x, 5), 1),
            plus(cy, 151),
            14,
            black(),
        ),
        label(
            "Use UP/DOWN or Joystick to navigate",
            minus(plus(menu_x, 5), 1),
            plus(cy, 151),
            14,
            black(),
        ),
        label("Use UP/DOWN or Joystick to navigate", plus(menu_x, 5), plus(cy, 149), 14, black()),
        label("Use UP/DOWN or Joystick to navigate", plus(menu_x, 5), plus(cy, 153), 14, black()),
        label("Press ENTER or A to select", plus(plus(menu_x, 68), 1), plus(cy, 171), 14, black()),
        label("Press ENTER or A to select", minus(plus(menu_x, 68), 1), plus(cy, 171), 14, black()),
        label("Press ENTER or A to select", plus(menu_x, 68), plus(cy, 169), 14, black()),
        label("Press ENTER or A to select", plus(menu_x, 68), plus(cy, 173), 14, black()),
        label("Press ESC or Back/B to exit", plus(plus(menu_x, 61), 1), plus(cy, 191), 14, black()),
        label(
            "Press ESC or Back/B to exit",
            minus(plus(menu_x, 61), 1),
            plus(cy, 191),
            14,
            black(),
        ),
        label("Press ESC or Back/B to exit", plus(menu_x, 61), plus(cy, 189), 14, black()),
        label("Press ESC or Back/B to exit", plus(menu_x, 61), plus(cy, 193), 14, black()),
        label("Use UP/DOWN or Joystick to navigate", plus(menu_x, 5), plus(cy, 150), 14, skyblue()),
        label("Press ENTER or A to select", plus(menu_x, 68), plus(cy, 170), 14, skyblue()),
        label("Press ESC or Back/B to exit", plus(menu_x, 61), plus(cy, 190), 14, skyblue()),
    ]
}

/// What the welcome screen shows on a surface of the given size, over its
/// background, with the given place of the menu selected.
pub open spec fn welcome_layers(width: u32, height: u32, selected: usize) -> Seq<Layer> {
    let menu_x = (width / 6) as u32;
    let cy = (height / 2) as u32;
    welcome_head(width, height) + option_layers(
        0,
        selected == 0,
        option_left(menu_x, 0),
        option_top(cy, 0),
    ) + option_layers(1, selected == 1, option_left(menu_x, 1), option_top(cy, 1)) + option_layers(
        2,
        selected == 2,
        option_left(menu_x, 2),
        option_top(cy, 2),
    ) + welcome_tail(width, height)
}

/// Adds the line of the menu in place `option` to the layers.
fn push_option(layers: &mut Vec<Layer>, option: usize, selected: bool, menu_x: u32, cy: u32)
    requires
        option < DIFFICULTIES,
    ensures
        final(layers)@ == old(layers)@ + option_layers(
            option,
            selected,
            option_left(menu_x, option),
            option_top(cy, option),
        ),
{
    let name: &'static str = Difficulty::from_option(option).get_name();
    let length: usize = name.unicode_len();
    proof {
        reveal_strlit("EASY");
        reveal_strlit("MEDIUM");
        reveal_strlit("DIFFICULT");
    }
    let wide: u32 = (length as u32) * 24;
    let left: u32 = plus(menu_x, minus(500, wide) / 2);
    let top: u32 = plus(minus(cy, 30), (option as u32) * 40);
    let ghost before = layers@;
    if selected {
        layers.push(label(name, plus(left, 1), plus(top, 1), 24, orange()));
        layers.push(label(name, minus(left, 1), plus(top, 1), 24, orange()));
        layers.push(label(name, plus(left, 1), minus(top, 1), 24, orange()));
        layers.push(label(name, minus(left, 1), minus(top, 1), 24, orange()));
        layers.push(label(name, left, top, 24, yellow()));
        layers.push(label(">", minus(left, 40), top, 24, yellow()));
    } else {
        layers.push(label(name, plus(left, 1), plus(top, 1), 24, black()));
        layers.push(label(name, minus(left, 1), plus(top, 1), 24, black()));
        layers.push(label(name, plus(left, 1), minus(top, 1), 24, black()));
        layers.push(label(name, minus(left, 1), minus(top, 1), 24, black()));
        layers.push(label(name, left, top, 24, white()));
    }
    assert(layers@ =~= before + option_layers(option, selected, left, top));
}

/// Computes `welcome_layers`.
fn welcome_screen(width: u32, height: u32, selected: usize) -> (layers: Vec<Layer>)
    ensures
        layers@ == welcome_layers(width, height, selected),
{
    let menu_x: u32 = width / 6;
    let cy: u32 = height / 2;
    let mut layers: Vec<Layer> = Vec::new();
    layers.push(patch(menu_x, minus(cy, 200), 500, 400, deep_shade()));
    layers.push(label("Naruto Maze", plus(plus(menu_x, 96), 2), minus(cy, 148), 28, gold()));
    layers.push(label("Naruto Maze", minus(plus(menu_x, 96), 2), minus(cy, 148), 28, gold()));
    layers.push(label("Naruto Maze", plus(menu_x, 96), minus(cy, 150), 28, gold()));
    layers.push(label("Naruto Maze", plus(menu_x, 96), minus(cy, 146), 28, gold()));
    layers.push(label("Naruto Maze", plus(menu_x, 96), minus(cy, 147), 28, white()));
    layers.push(label("Select Difficulty", plus(plus(menu_x, 80), 1), minus(cy, 79), 20, black()));
    layers.push(label("Select Difficulty", minus(plus(menu_x, 80), 1), minus(cy, 79), 20, black()));
    layers.push(label("Select Difficulty", plus(menu_x, 80), minus(cy, 81), 20, black()));
    layers.push(label("Select Difficulty", plus(menu_x, 80), minus(cy, 77), 20, black()));
    layers.push(label("Select Difficulty", plus(menu_x, 80), minus(cy, 79), 20, lightgray()));
    assert(layers@ =~= welcome_head(width, height));
    push_option(&mut layers, 0, selected == 0, menu_x, cy);
    push_option(&mut layers, 1, selected == 1, menu_x, cy);
    push_option(&mut layers, 2, selected == 2, menu_x, cy);
    let ghost lines = layers@;
    layers.push(
        label(
            "Use UP/DOWN or Joystick to navigate",
            plus(plus(menu_x, 5), 1),
            plus(cy, 151),
            14,
            black(),
        ),
    );
    layers.push(
        label(
            "Use UP/DOWN or Joystick to navigate",
            minus(plus(menu_x, 5), 1),
            plus(cy, 151),
            14,
            black(),
        ),
    );
    layers.push(
        label("Use UP/DOWN or Joystick to navigate", plus(menu_x, 5), plus(cy, 149), 14, black()),
    );
    layers.push(
        label("Use UP/DOWN or Joystick to navigate", plus(menu_x, 5), plus(cy, 153), 14, black()),
    );
    layers.push(
        label("Press ENTER or A to select", plus(plus(menu_x, 68), 1), plus(cy, 171), 14, black()),
    );
    layers.push(
        label("Press ENTER or A to select", minus(plus(menu_x, 68), 1), plus(cy, 171), 14, black()),
    );
    layers.push(label("Press ENTER or A to select", plus(menu_x, 68), plus(cy, 169), 14, black()));
    layers.push(label("Press ENTER or A to select", plus(menu_x, 68), plus(cy, 173), 14, black()));
    layers.push(
        label("Press ESC or Back/B to exit", plus(plus(menu_x, 61), 1), plus(cy, 191), 14, black()),
    );
    layers.push(
        label("Press ESC or Back/B to exit", minus(plus(menu_x, 61), 1), plus(cy, 191), 14, black()),
    );
    layers.push(label("Press ESC or Back/B to exit", plus(menu_x, 61), plus(cy, 189), 14, black()));
    layers.push(label("Press ESC or Back/B to exit", plus(menu_x, 61), plus(cy, 193), 14, black()));
    layers.push(
        label("Use UP/DOWN or Joystick to navigate", plus(menu_x, 5), plus(cy, 150), 14, skyblue()),
    );
    layers.push(
        label("Press ENTER or A to select", plus(menu_x, 68), plus(cy, 170), 14, skyblue()),
    );
    layers.push(
        label("Press ESC or Back/B to exit", plus(menu_x, 61), plus(cy, 190), 14, skyblue()),
    );
    assert(layers@ =~= lines + welcome_tail(width, height));
    layers
}

/// Draws the victory screen over whatever the surface shows.
pub fn draw_victory_screen(framebuffer: &mut Framebuffer)
    ensures
        old(framebuffer)@.repainted(final(framebuffer)@),
        forall|x: int, y: int|
            old(framebuffer)@.holds(x, y) ==> #[trigger] final(framebuffer)@.pixel(x, y)
                == stacked(
                victory_layers(old(framebuffer).width, old(framebuffer).height),
                victory_layers(old(framebuffer).width, old(framebuffer).height).len(),
                old(framebuffer)@.pixel(x, y),
                x,
                y,
            ),
{
    let layers: Vec<Layer> = victory_screen(framebuffer.width, framebuffer.height);
    draw_layers(framebuffer, &layers);
}

/// Draws the victory screen over its background picture, where there is
/// one: the picture is laid over the surface pixel by pixel, row by row.
pub fn render_victory_screen(framebuffer: &mut Framebuffer, background: &Option<Vec<Color>>)
    ensures
        old(framebuffer)@.with_picture(picture_view(*background)).repainted(final(framebuffer)@),
        forall|x: int, y: int|
            old(framebuffer)@.holds(x, y) ==> #[trigger] final(framebuffer)@.pixel(x, y)
                == stacked(
                victory_layers(old(framebuffer).width, old(framebuffer).height),
                victory_layers(old(framebuffer).width, old(framebuffer).height).len(),
                old(framebuffer)@.with_picture(picture_view(*background)).pixel(x, y),
                x,
                y,
            ),
{
    draw_background(framebuffer, background);
    draw_victory_screen(framebuffer);
}

/// Draws the welcome screen, with the menu as the game manager has it,
/// over its background picture, where there is one.
pub fn draw_welcome_screen(
    framebuffer: &mut Framebuffer,
    game_manager: &GameManager,
    background: &Option<Vec<Color>>,
)
    ensures
        old(framebuffer)@.with_picture(picture_view(*background)).repainted(final(framebuffer)@),
        forall|x: int, y: int|
            old(framebuffer)@.holds(x, y) ==> #[trigger] final(framebuffer)@.pixel(x, y)
                == stacked(
                welcome_layers(
                    old(framebuffer).width,
                    old(framebuffer).height,
                    game_manager.selected_option,
                ),
                welcome_layers(
                    old(framebuffer).width,
                    old(framebuffer).height,
                    game_manager.selected_option,
                ).len(),
                old(framebuffer)@.with_picture(picture_view(*background)).pixel(x, y),
                x,
                y,
            ),
{
    draw_background(framebuffer, background);
    let layers: Vec<Layer> = welcome_screen(
        framebuffer.width,
        framebuffer.height,
        game_manager.selected_option,
    );
    draw_layers(framebuffer, &layers);
}

/// The pixels of a picture that may be missing; none for none.
pub open spec fn picture_view(picture: Option<Vec<Color>>) -> Seq<Color> {
    match picture {
        Some(pixels) => pixels@,
        None => Seq::empty(),
    }
}

/// Lays a background picture over the surface, where there is one.
fn draw_background(framebuffer: &mut Framebuffer, background: &Option<Vec<Color>>)
    ensures
        final(framebuffer)@ == old(framebuffer)@.with_picture(picture_view(*background)),
        final(framebuffer).width == old(framebuffer).width,
        final(framebuffer).height == old(framebuffer).height,
{
    match background {
        Some(pixels) => {
            framebuffer.draw_picture(pixels);
        },
        None => {
            assert(framebuffer@.pixels =~= framebuffer@.with_picture(
                Seq::<Color>::empty(),
            ).pixels);
        },
    }
}

} // verus!
