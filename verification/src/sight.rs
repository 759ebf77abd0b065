//! The line of sight: whether anything in the maze stands between two
//! points.

use vstd::prelude::*;
use crate::caster::cell_index;
use crate::caster::cell_side;
use crate::fixed::ONE;
use crate::fixed::floor_div;
use crate::fixed::isqrt;
use crate::fixed::lemma_product_bound;
use crate::fixed::magnitude;
use crate::fixed::sqrt_floor;
use crate::maze::Maze;
use crate::maze::EMPTY;
use crate::maze::cell;
use crate::maze::cell_at;
use crate::player::Point;
use crate::sprites::SpriteManager;

verus! {

/// The distance between two samples of a line of sight.
pub const SIGHT_SPACING: i64 = 327680;

/// The distance between two points, rounded down.
pub open spec fn distance_between(from: Point, to: Point) -> int {
    sqrt_floor((to.x - from.x) * (to.x - from.x) + (to.y - from.y) * (to.y - from.y))
}

/// The number of parts a line of sight is cut into: one for every
/// `SIGHT_SPACING` of its length, the last one possibly shorter.
pub open spec fn sight_steps(from: Point, to: Point) -> int {
    (distance_between(from, to) + SIGHT_SPACING - 1) / (SIGHT_SPACING as int)
}

/// One coordinate of the `i`-th of `steps` cuts between `from` and `to`.
pub open spec fn sight_sample(from: int, to: int, steps: int, i: int) -> int {
    from + (to - from) * i / steps
}

/// Whether the `i`-th cut of the line of sight lies in a cell of the grid
/// that is not empty.
pub open spec fn sight_blocked_at(
    grid: Seq<Seq<char>>,
    from: Point,
    to: Point,
    block_size: int,
    i: int,
) -> bool {
    let steps = sight_steps(from, to);
    match cell_at(
        grid,
        cell_index(sight_sample(from.x as int, to.x as int, steps, i), block_size),
        cell_index(sight_sample(from.y as int, to.y as int, steps, i), block_size),
    ) {
        Some(kind) => kind != EMPTY,
        None => false,
    }
}

/// Whether something stands between two points: whether one of the cuts of
/// the line of sight, its two ends left out, lies in a cell that is not
/// empty.
pub open spec fn wall_between(grid: Seq<Seq<char>>, from: Point, to: Point, block_size: int)
    -> bool {
    exists|i: int|
        1 <= i < sight_steps(from, to) && #[trigger] sight_blocked_at(
            grid,
            from,
            to,
            block_size,
            i,
        )
}

/// Whether `to - from` can be held in a fixed-point number on both axes.
pub open spec fn displacement_fits(from: Point, to: Point) -> bool {
    &&& i64::MIN <= to.x - from.x <= i64::MAX
    &&& i64::MIN <= to.y - from.y <= i64::MAX
}

/// Computes `distance_between`.
pub fn distance(from: Point, to: Point) -> (d: i128)
    requires
        displacement_fits(from, to),
    ensures
        d == distance_between(from, to),
        0 <= d < 0x1_0000_0000_0000_0000,
{
    let dx: u128 = magnitude((to.x as i128) - (from.x as i128));
    let dy: u128 = magnitude((to.y as i128) - (from.y as i128));
    proof {
        lemma_product_bound(dx as int, dx as int, 0x8000_0000_0000_0000, 0x8000_0000_0000_0000);
        lemma_product_bound(dy as int, dy as int, 0x8000_0000_0000_0000, 0x8000_0000_0000_0000);
        assert(dx * dx == (to.x - from.x) * (to.x - from.x)) by (nonlinear_arith)
            requires
                dx == to.x - from.x || dx == -(to.x - from.x),
        ;
        assert(dy * dy == (to.y - from.y) * (to.y - from.y)) by (nonlinear_arith)
            requires
                dy == to.y - from.y || dy == -(to.y - from.y),
        ;
    }
    let squares: u128 = dx * dx + dy * dy;
    isqrt(squares) as i128
}

/// Computes `wall_between`.
pub fn line_blocked(from: Point, to: Point, maze: &Maze, block_size: usize) -> (blocked: bool)
    requires
        block_size > 0,
        displacement_fits(from, to),
    ensures
        blocked == wall_between(maze.deep_view(), from, to, block_size as int),
{
    let dx: i128 = (to.x as i128) - (from.x as i128);
    let dy: i128 = (to.y as i128) - (from.y as i128);
    let length: i128 = distance(from, to);
    let steps: i128 = (length + (SIGHT_SPACING as i128) - 1) / (SIGHT_SPACING as i128);
    let side: i128 = cell_side(block_size);
    let ghost grid = maze.deep_view();
    let mut i: i128 = 1;
    while i < steps
        invariant
            1 <= i,
            block_size > 0,
            side == block_size * ONE,
            steps == sight_steps(from, to),
            steps <= 0x4000_0000_0000,
            dx == to.x - from.x,
            dy == to.y - from.y,
            displacement_fits(from, to),
            grid == maze.deep_view(),
            forall|j: int| 1 <= j < i ==> !sight_blocked_at(grid, from, to, block_size as int, j),
        decreases steps - i,
    {
        proof {
            lemma_product_bound(dx as int, i as int, 0x8000_0000_0000_0000, 0x4000_0000_0000);
            lemma_product_bound(dy as int, i as int, 0x8000_0000_0000_0000, 0x4000_0000_0000);
        }
        let offset_x: i128 = floor_div(dx * i, steps);
        let offset_y: i128 = floor_div(dy * i, steps);
        assert(-0x2000_0000_0000_0000_0000_0000_0000 <= offset_x
            <= 0x2000_0000_0000_0000_0000_0000_0000) by (nonlinear_arith)
            requires
                offset_x == (dx * i) / (steps as int),
                steps >= 1,
                -0x2000_0000_0000_0000_0000_0000_0000 <= dx * i
                    <= 0x2000_0000_0000_0000_0000_0000_0000,
        ;
        assert(-0x2000_0000_0000_0000_0000_0000_0000 <= offset_y
            <= 0x2000_0000_0000_0000_0000_0000_0000) by (nonlinear_arith)
            requires
                offset_y == (dy * i) / (steps as int),
                steps >= 1,
                -0x2000_0000_0000_0000_0000_0000_0000 <= dy * i
                    <= 0x2000_0000_0000_0000_0000_0000_0000,
        ;
        let x: i128 = (from.x as i128) + offset_x;
        let y: i128 = (from.y as i128) + offset_y;
        match cell(maze, floor_div(x, side), floor_div(y, side)) {
            Some(kind) => {
                if kind != EMPTY {
                    assert(sight_blocked_at(grid, from, to, block_size as int, i as int));
                    return true;
                }
            },
            None => {},
        }
        i = i + 1;
    }
    false
}
impl SpriteManager {
    /// Tells whether something stands between two points of the maze: the
    /// line between them is cut every `SIGHT_SPACING`, and every cut but the
    /// two ends is looked up in the grid.
    pub fn has_wall_between(&self, from: Point, to: Point, maze: &Maze, block_size: usize) -> (blocked:
        bool)
        requires
            block_size > 0,
            displacement_fits(from, to),
        ensures
            blocked == wall_between(maze.deep_view(), from, to, block_size as int),
    {
        line_blocked(from, to, maze, block_size)
    }
}

} // verus!
