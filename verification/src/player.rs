//! The pose of the player in the maze, and how input moves it.

use vstd::prelude::*;
use vstd::string::*;
use crate::caster::Direction;
use crate::caster::cell_index;
use crate::caster::cell_side;
use crate::fixed::Fixed;
use crate::fixed::ONE;
use crate::fixed::clamp_int;
use crate::fixed::floor_div;
use crate::fixed::saturate;
use crate::fixed::saturated;
use crate::fixed::lemma_product_bound;
use crate::maze::Maze;
use crate::maze::EMPTY;
use crate::maze::GOAL;
use crate::maze::cell_at;
use crate::maze::cell;

verus! {

/// A point of the world, in world units.
#[derive(Clone, Copy, Debug, PartialEq, Eq, Structural)]
pub struct Point {
    pub x: Fixed,
    pub y: Fixed,
}

/// Where the player stands, where they look (`a`, in radians) and how wide
/// they see (`fov`, in radians).
#[derive(Clone, Copy, Debug, PartialEq, Eq, Structural)]
pub struct Player {
    pub pos: Point,
    pub a: Fixed,
    pub fov: Fixed,
}

/// What the input devices say in one frame.  A stick is `None` where no
/// gamepad is connected; its value runs from minus one to one, and a value
/// beyond counts as the nearer of the two.
#[derive(Clone, Copy, Debug, PartialEq, Eq, Structural)]
pub struct Controls {
    pub mouse_dx: Fixed,
    pub turn_left: bool,
    pub turn_right: bool,
    pub stick_turn: Option<Fixed>,
    pub forward: bool,
    pub backward: bool,
    pub stick_forward: Option<Fixed>,
    pub strafe_left: bool,
    pub strafe_right: bool,
    pub stick_strafe: Option<Fixed>,
}

/// How far the player moves in one frame, in world units.
pub const MOVE_SPEED: i64 = 5;

/// How far a key turns the player in one frame: a fiftieth of pi.
pub const ROTATION_SPEED: Fixed = 4117;

/// The kind of the cell that holds a point; `None` outside the grid.
pub open spec fn kind_under(grid: Seq<Seq<char>>, point: Point, block_size: int) -> Option<char> {
    cell_at(
        grid,
        cell_index(point.x as int, block_size),
        cell_index(point.y as int, block_size),
    )
}

/// Whether the player may stand at a point: in an empty cell or on the
/// goal.
pub open spec fn walkable(grid: Seq<Seq<char>>, point: Point, block_size: int) -> bool {
    kind_under(grid, point, block_size) == Some(EMPTY) || kind_under(grid, point, block_size)
        == Some(GOAL)
}

/// Whether a stick is pushed beyond its dead zone of a tenth.
pub open spec fn pushed(stick: Option<Fixed>) -> bool {
    match stick {
        Some(value) => value * 10 > ONE || value * 10 < -ONE,
        None => false,
    }
}

/// The value of a stick, between minus one and one; zero for none.
pub open spec fn stick_value(stick: Option<Fixed>) -> int {
    match stick {
        Some(value) => clamp_int(value as int, -ONE, ONE as int),
        None => 0,
    }
}

/// The heading after the turns of one frame: three thousandths of a radian
/// for each unit the mouse moved, a fiftieth of pi for each turn key, and a
/// twentieth of the stick where it is pushed; after each the heading is
/// forced into what a fixed-point number can hold.
pub open spec fn turned(angle: Fixed, controls: Controls) -> int {
    let by_mouse = saturate(angle + controls.mouse_dx * 3 / 1000);
    let by_left = if controls.turn_left {
        saturate(by_mouse - ROTATION_SPEED)
    } else {
        by_mouse
    };
    let by_right = if controls.turn_right {
        saturate(by_left + ROTATION_SPEED)
    } else {
        by_left
    };
    if pushed(controls.stick_turn) {
        saturate(by_right + stick_value(controls.stick_turn) * 5 / 100)
    } else {
        by_right
    }
}

/// How far one frame at `amount` of the full speed carries along an axis on
/// which the direction has the given component.
pub open spec fn stride(amount: int, component: int) -> int {
    MOVE_SPEED * amount * component / (ONE as int)
}

/// Where a step by `(dx, dy)` from `pos` ends: there, if the player may
/// stand there, and at `pos` if not.
pub open spec fn step(grid: Seq<Seq<char>>, block_size: int, pos: Point, dx: int, dy: int)
    -> Point {
    let target = Point { x: saturate(pos.x + dx) as Fixed, y: saturate(pos.y + dy) as Fixed };
    if walkable(grid, target, block_size) {
        target
    } else {
        pos
    }
}

/// A step taken only if asked for.
pub open spec fn step_if(
    wanted: bool,
    grid: Seq<Seq<char>>,
    block_size: int,
    pos: Point,
    dx: int,
    dy: int,
) -> Point {
    if wanted {
        step(grid, block_size, pos, dx, dy)
    } else {
        pos
    }
}

/// Where the player stands after the moves of one frame, taken one after
/// the other from where the one before ended: forward, backward, along the
/// heading by the stick, to the left, to the right, and sideways by the
/// stick.  `heading` is the direction the player looks in; the direction
/// to the left of `(cos, sin)` is `(sin, -cos)`, the one to the right
/// `(-sin, cos)`.
pub open spec fn walked(
    grid: Seq<Seq<char>>,
    block_size: int,
    pos: Point,
    controls: Controls,
    heading: Direction,
) -> Point {
    let cos = heading.cos as int;
    let sin = heading.sin as int;
    let full = ONE as int;
    let forward = step_if(
        controls.forward,
        grid,
        block_size,
        pos,
        stride(full, cos),
        stride(full, sin),
    );
    let backward = step_if(
        controls.backward,
        grid,
        block_size,
        forward,
        stride(-full, cos),
        stride(-full, sin),
    );
    let along = -stick_value(controls.stick_forward);
    let by_stick = step_if(
        pushed(controls.stick_forward),
        grid,
        block_size,
        backward,
        stride(along, cos),
        stride(along, sin),
    );
    let left = step_if(
        controls.strafe_left,
        grid,
        block_size,
        by_stick,
        stride(full, sin),
        stride(-full, cos),
    );
    let right = step_if(
        controls.strafe_right,
        grid,
        block_size,
        left,
        stride(-full, sin),
        stride(full, cos),
    );
    let sideways = stick_value(controls.stick_strafe);
    step_if(
        pushed(controls.stick_strafe),
        grid,
        block_size,
        right,
        stride(-sideways, sin),
        stride(sideways, cos),
    )
}

/// Computes `kind_under`.
fn kind_at_point(maze: &Maze, point: Point, block_size: usize) -> (kind: Option<char>)
    requires
        block_size > 0,
    ensures
        kind == kind_under(maze.deep_view(), point, block_size as int),
{
    let side: i128 = cell_side(block_size);
    cell(maze, floor_div(point.x as i128, side), floor_div(point.y as i128, side))
}

/// Tells whether the player may stand at `pos`: in an empty cell of the
/// maze or on its goal.
pub fn is_valid_position(pos: Point, maze: &Maze, block_size: usize) -> (valid: bool)
    requires
        block_size > 0,
    ensures
        valid == walkable(maze.deep_view(), pos, block_size as int),
{
    match kind_at_point(maze, pos, block_size) {
        Some(kind) => kind == EMPTY || kind == GOAL,
        None => false,
    }
}

/// Tells whether the player stands on the goal.
pub fn check_victory(player: &Player, maze: &Maze, block_size: usize) -> (won: bool)
    requires
        block_size > 0,
    ensures
        won == (kind_under(maze.deep_view(), player.pos, block_size as int) == Some(GOAL)),
{
    match kind_at_point(maze, player.pos, block_size) {
        Some(kind) => kind == GOAL,
        None => false,
    }
}

/// Computes `pushed`.
fn is_pushed(stick: Option<Fixed>) -> (beyond: bool)
    ensures
        beyond == pushed(stick),
{
    match stick {
        Some(value) => {
            let tenfold: i128 = (value as i128) * 10;
            tenfold > ONE as i128 || tenfold < -(ONE as i128)
        },
        None => false,
    }
}

/// Computes `stick_value`.
fn value_of(stick: Option<Fixed>) -> (value: Fixed)
    ensures
        value == stick_value(stick),
        -ONE <= value <= ONE,
{
    match stick {
        Some(value) => if value < -ONE {
            -ONE
        } else if value > ONE {
            ONE
        } else {
            value
        },
        None => 0,
    }
}

/// The heading the player has after the turns of one frame.
pub fn turned_heading(angle: Fixed, controls: &Controls) -> (heading: Fixed)
    ensures
        heading == turned(angle, *controls),
{
    let mouse: i128 = floor_div((controls.mouse_dx as i128) * 3, 1000);
    let mut heading: Fixed = saturated((angle as i128) + mouse);
    if controls.turn_left {
        heading = saturated((heading as i128) - (ROTATION_SPEED as i128));
    }
    if controls.turn_right {
        heading = saturated((heading as i128) + (ROTATION_SPEED as i128));
    }
    if is_pushed(controls.stick_turn) {
        let stick: i128 = floor_div((value_of(controls.stick_turn) as i128) * 5, 100);
        heading = saturated((heading as i128) + stick);
    }
    heading
}

/// Computes `stride`.
fn stride_of(amount: i128, component: Fixed) -> (length: i128)
    requires
        -ONE <= amount <= ONE,
    ensures
        length == stride(amount as int, component as int),
        -0x1_0000_0000_0000_0000_0000_0000_0000 <= length <= 0x1_0000_0000_0000_0000_0000_0000_0000,
{
    proof {
        lemma_product_bound(amount as int, component as int, 0x1_0000, 0x8000_0000_0000_0000);
        assert(MOVE_SPEED * amount * component == 5 * (amount * component)) by (nonlinear_arith)
            requires
                MOVE_SPEED == 5,
        ;
    }
    let product: i128 = 5 * (amount * (component as i128));
    floor_div(product, ONE as i128)
}

/// Computes `step`.
fn step_to(maze: &Maze, block_size: usize, pos: Point, dx: i128, dy: i128) -> (end: Point)
    requires
        block_size > 0,
        -0x1_0000_0000_0000_0000_0000_0000_0000 <= dx <= 0x1_0000_0000_0000_0000_0000_0000_0000,
        -0x1_0000_0000_0000_0000_0000_0000_0000 <= dy <= 0x1_0000_0000_0000_0000_0000_0000_0000,
    ensures
        end == step(maze.deep_view(), block_size as int, pos, dx as int, dy as int),
{
    let target: Point = Point {
        x: saturated((pos.x as i128) + dx),
        y: saturated((pos.y as i128) + dy),
    };
    if is_valid_position(target, maze, block_size) {
        target
    } else {
        pos
    }
}

/// Turns and moves the player as the input of one frame asks.
///
/// `heading` is the direction of the heading the player has after the
/// turns, `turned_heading` of the heading before.  A move that would end
/// where the player may not stand is not made.
pub fn process_events(
    player: &mut Player,
    controls: &Controls,
    heading: Direction,
    maze: &Maze,
    block_size: usize,
)
    requires
        block_size > 0,
    ensures
        final(player).fov == old(player).fov,
        final(player).a == turned(old(player).a, *controls),
        final(player).pos == walked(
            maze.deep_view(),
            block_size as int,
            old(player).pos,
            *controls,
            heading,
        ),
{
    player.a = turned_heading(player.a, controls);
    let full: i128 = ONE as i128;
    let mut pos: Point = player.pos;
    if controls.forward {
        let dx: i128 = stride_of(full, heading.cos);
        let dy: i128 = stride_of(full, heading.sin);
        pos = step_to(maze, block_size, pos, dx, dy);
    }
    if controls.backward {
        let dx: i128 = stride_of(-full, heading.cos);
        let dy: i128 = stride_of(-full, heading.sin);
        pos = step_to(maze, block_size, pos, dx, dy);
    }
    if is_pushed(controls.stick_forward) {
        let along: i128 = -(value_of(controls.stick_forward) as i128);
        let dx: i128 = stride_of(along, heading.cos);
        let dy: i128 = stride_of(along, heading.sin);
        pos = step_to(maze, block_size, pos, dx, dy);
    }
    if controls.strafe_left {
        let dx: i128 = stride_of(full, heading.sin);
        let dy: i128 = stride_of(-full, heading.cos);
        pos = step_to(maze, block_size, pos, dx, dy);
    }
    if controls.strafe_right {
        let dx: i128 = stride_of(-full, heading.sin);
        let dy: i128 = stride_of(full, heading.cos);
        pos = step_to(maze, block_size, pos, dx, dy);
    }
    if is_pushed(controls.stick_strafe) {
        let sideways: i128 = value_of(controls.stick_strafe) as i128;
        let dx: i128 = stride_of(-sideways, heading.sin);
        let dy: i128 = stride_of(sideways, heading.cos);
        pos = step_to(maze, block_size, pos, dx, dy);
    }
    player.pos = pos;
}

/// What the screen says about the gamepad.
pub open spec fn gamepad_info(available: bool, name: Option<&str>) -> Seq<char> {
    if available {
        match name {
            Some(text) => "Gamepad: "@ + text@,
            None => "Gamepad: Unknown"@,
        }
    } else {
        "No gamepad detected"@
    }
}

/// Tells what the screen says about the gamepad: its name where one is
/// connected and has a name.
pub fn get_gamepad_info(available: bool, name: Option<&str>) -> (info: String)
    ensures
        info@ == gamepad_info(available, name),
{
    if available {
        match name {
            Some(text) => String::from_str("Gamepad: ").concat(text),
            None => String::from_str("Gamepad: Unknown"),
        }
    } else {
        String::from_str("No gamepad detected")
    }
}

/// Tells whether the gamepad asks for the other view: a gamepad is
/// connected and its upper face button was pressed.
pub fn check_gamepad_mode_change(available: bool, pressed: bool) -> (change: bool)
    ensures
        change == (available && pressed),
{
    available && pressed
}

} // verus!
