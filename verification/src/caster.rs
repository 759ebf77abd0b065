//! The ray marcher: walks a ray through the grid in fixed steps until it
//! meets something.

use vstd::prelude::*;
use vstd::arithmetic::div_mod::lemma_fundamental_div_mod;
use vstd::arithmetic::div_mod::lemma_mod_bound;
use crate::fixed::Fixed;
use crate::fixed::ONE;
use crate::fixed::floor_div;
use crate::fixed::floor_mod;
use crate::fixed::lemma_product_bound;
use crate::maze::Maze;
use crate::maze::EMPTY;
use crate::maze::DEFAULT_WALL;
use crate::maze::cell_at;
use crate::maze::is_wall;
use crate::maze::rectangular;
use crate::maze::grid_width;
use crate::maze::grid_height;
use crate::maze::cell;
use crate::player::Player;

verus! {

/// The direction of a ray: the cosine and the sine of its angle.
#[derive(Clone, Copy, Debug, PartialEq, Eq, Structural)]
pub struct Direction {
    pub cos: Fixed,
    pub sin: Fixed,
}

/// What a ray met: how far it marched, the kind of cell that stopped it,
/// and where along that cell's surface it landed.
#[derive(Clone, Copy, Debug, PartialEq, Eq, Structural)]
pub struct Intersect {
    pub distance: Fixed,
    pub impact: char,
    pub tx: Fixed,
}

/// What an `Intersect` stands for, over the integers.
pub struct Hit {
    pub distance: int,
    pub impact: char,
    pub tx: int,
}

impl View for Intersect {
    type V = Hit;

    open spec fn view(&self) -> Hit {
        Hit { distance: self.distance as int, impact: self.impact, tx: self.tx as int }
    }
}

/// The coordinate reached after marching `distance` from `origin` along a
/// direction whose component on this axis is `component`.
pub open spec fn advance(origin: int, component: int, distance: int) -> int {
    origin + distance * component / (ONE as int)
}

/// The index of the cell that holds a world coordinate, where cells are
/// `block_size` world units wide.
pub open spec fn cell_index(coord: int, block_size: int) -> int {
    coord / (block_size * ONE)
}

/// The texture coordinate of a hit: the fractional part of the sum of the
/// hit's two world coordinates measured in cells, without its sign.
pub open spec fn texture_u(sum: int, block_size: int) -> int {
    let magnitude = if sum < 0 {
        -sum
    } else {
        sum
    };
    (magnitude % (block_size * ONE)) / block_size
}

/// One march through a grid: everything `cast_ray` is given.
pub struct March {
    pub grid: Seq<Seq<char>>,
    pub x: int,
    pub y: int,
    pub cos: int,
    pub sin: int,
    pub block_size: int,
    pub max_distance: int,
    pub step: int,
}

impl March {
    /// The distance marched when the `k`-th sample is taken.
    pub open spec fn distance_at(self, k: nat) -> int {
        k * self.step
    }

    /// The world x coordinate of the `k`-th sample.
    pub open spec fn sample_x(self, k: nat) -> int {
        advance(self.x, self.cos, self.distance_at(k))
    }

    /// The world y coordinate of the `k`-th sample.
    pub open spec fn sample_y(self, k: nat) -> int {
        advance(self.y, self.sin, self.distance_at(k))
    }

    /// The kind of the cell under the `k`-th sample; `None` outside the grid.
    pub open spec fn kind_at(self, k: nat) -> Option<char> {
        cell_at(
            self.grid,
            cell_index(self.sample_x(k), self.block_size),
            cell_index(self.sample_y(k), self.block_size),
        )
    }

    /// Whether the `k`-th sample lies beyond the range of the march.
    pub open spec fn out_of_range(self, k: nat) -> bool {
        self.distance_at(k) > self.max_distance
    }

    /// Whether the march ends at the `k`-th sample: out of range, outside
    /// the grid, or in a cell that is not empty.
    pub open spec fn stops_at(self, k: nat) -> bool {
        self.out_of_range(k) || self.kind_at(k) != Some(EMPTY)
    }

    /// Whether the `k`-th sample is the first at which the march ends.
    pub open spec fn first_stop(self, k: nat) -> bool {
        self.stops_at(k) && forall|j: nat| j < k ==> !self.stops_at(j)
    }

    /// The sample at which the march ends.
    pub open spec fn stop_index(self) -> nat {
        choose|k: nat| self.first_stop(k)
    }

    /// What the march reports.
    pub open spec fn result(self) -> Hit {
        self.outcome(self.stop_index())
    }

    /// What is reported when the march ends at the `k`-th sample.
    pub open spec fn outcome(self, k: nat) -> Hit {
        if self.out_of_range(k) {
            Hit { distance: self.max_distance, impact: DEFAULT_WALL, tx: 0 }
        } else {
            match self.kind_at(k) {
                None => Hit { distance: self.distance_at(k), impact: DEFAULT_WALL, tx: 0 },
                Some(kind) => Hit {
                    distance: self.distance_at(k),
                    impact: kind,
                    tx: texture_u(self.sample_x(k) + self.sample_y(k), self.block_size),
                },
            }
        }
    }
}

/// The march that `cast_ray` performs on its arguments.
pub open spec fn march_of(
    maze: &Maze,
    player: &Player,
    dir: Direction,
    block_size: usize,
    max_distance: Fixed,
    step: Fixed,
) -> March {
    March {
        grid: maze.deep_view(),
        x: player.pos.x as int,
        y: player.pos.y as int,
        cos: dir.cos as int,
        sin: dir.sin as int,
        block_size: block_size as int,
        max_distance: max_distance as int,
        step: step as int,
    }
}

/// The march ends at one sample only: a first stop is the stop.
pub proof fn lemma_first_stop_unique(march: March, k: nat)
    requires
        march.first_stop(k),
    ensures
        march.stop_index() == k,
        march.result() == march.outcome(k),
{
    let chosen = march.stop_index();
    assert(march.first_stop(chosen));
    if chosen < k {
        assert(!march.stops_at(chosen));
    } else if k < chosen {
        assert(!march.stops_at(k));
    }
}

/// Every cell of the grid is empty.
pub open spec fn all_empty(grid: Seq<Seq<char>>) -> bool {
    forall|col: int, row: int|
        (#[trigger] cell_at(grid, col, row)) is Some ==> cell_at(grid, col, row) == Some(EMPTY)
}

/// Whether the cell in column `col` of row `row` lies on the rim of a
/// rectangular grid.
pub open spec fn on_rim(grid: Seq<Seq<char>>, col: int, row: int) -> bool {
    row == 0 || row == grid_height(grid) - 1 || col == 0 || col == grid_width(grid) - 1
}

/// A rectangular grid whose rim is all wall and whose interior is all
/// empty: a ring of walls, one cell thick.
pub open spec fn walled_ring(grid: Seq<Seq<char>>) -> bool {
    &&& rectangular(grid)
    &&& forall|col: int, row: int|
        0 <= row < grid_height(grid) && 0 <= col < grid_width(grid) ==> if on_rim(grid, col, row) {
            is_wall(#[trigger] grid[row][col])
        } else {
            grid[row][col] == EMPTY
        }
}

/// What `lemma_march_through_empty_grid` states, of any sample that is the
/// first at which the march ends.
proof fn lemma_stop_in_empty_grid(march: March, k: nat)
    requires
        all_empty(march.grid),
        march.first_stop(k),
    ensures
        march.outcome(k).impact == DEFAULT_WALL,
        march.outcome(k).tx == 0,
        march.out_of_range(k) ==> march.outcome(k).distance == march.max_distance,
        !march.out_of_range(k) ==> march.kind_at(k) is None && march.outcome(k).distance
            == march.distance_at(k),
        forall|j: nat|
            j < k ==> march.distance_at(j) <= march.max_distance && (#[trigger] march.kind_at(j))
                == Some(EMPTY),
{
    assert forall|j: nat| j < k implies march.distance_at(j) <= march.max_distance && (
    #[trigger] march.kind_at(j)) == Some(EMPTY) by {
        assert(!march.stops_at(j));
    }
}

/// Rounding two numbers down to multiples of `unit` moves them apart or
/// together by less than one unit: quotients of numbers at most `reach`
/// units apart differ by at most `reach`.
proof fn lemma_quotients_close(a: int, b: int, unit: int, reach: int)
    requires
        unit > 0,
        reach >= 0,
        -(reach * unit) <= b - a <= reach * unit,
    ensures
        -reach <= b / unit - a / unit <= reach,
{
    lemma_fundamental_div_mod(a, unit);
    lemma_fundamental_div_mod(b, unit);
    lemma_mod_bound(a, unit);
    lemma_mod_bound(b, unit);
    let qa = a / unit;
    let qb = b / unit;
    let ra = a % unit;
    let rb = b % unit;
    assert(-reach <= qb - qa <= reach) by (nonlinear_arith)
        requires
            unit > 0,
            reach >= 0,
            a == unit * qa + ra,
            b == unit * qb + rb,
            0 <= ra < unit,
            0 <= rb < unit,
            -(reach * unit) <= b - a <= reach * unit,
    ;
}

/// One step along a direction whose component is at most one in size moves
/// a sample by at most one cell on that axis, where a step is no longer
/// than a cell.
proof fn lemma_step_stays_near(origin: int, component: int, k: nat, step: int, block_size: int)
    requires
        -ONE <= component <= ONE,
        block_size > 0,
        0 < step <= block_size * ONE,
    ensures
        -1 <= cell_index(advance(origin, component, (k + 1) * step), block_size) - cell_index(
            advance(origin, component, k * step),
            block_size,
        ) <= 1,
{
    let d0 = k * step;
    let d1 = (k + 1) * step;
    assert(d1 == d0 + step) by (nonlinear_arith)
        requires
            d0 == k * step,
            d1 == (k + 1) * step,
    ;
    assert(-(step * ONE) <= d1 * component - d0 * component <= step * ONE) by (nonlinear_arith)
        requires
            d1 == d0 + step,
            step > 0,
            -65536 <= component <= 65536,
    ;
    lemma_quotients_close(d0 * component, d1 * component, ONE as int, step);
    let a0 = advance(origin, component, d0);
    let a1 = advance(origin, component, d1);
    assert(-step <= a1 - a0 <= step);
    let side = block_size * ONE;
    assert(1 * side == side) by (nonlinear_arith);
    lemma_quotients_close(a0, a1, side, 1);
}

/// What `lemma_march_inside_ring` states, of any sample that is the first
/// at which the march ends.
proof fn lemma_stop_inside_ring(march: March, k: nat)
    requires
        walled_ring(march.grid),
        march.first_stop(k),
    ensures
        is_wall(march.outcome(k).impact),
        march.outcome(k).distance <= march.distance_at(k),
        forall|j: nat| j < k ==> (#[trigger] march.kind_at(j)) == Some(EMPTY),
{
    assert forall|j: nat| j < k implies (#[trigger] march.kind_at(j)) == Some(EMPTY) by {
        assert(!march.stops_at(j));
    }
    if !march.out_of_range(k) {
        match march.kind_at(k) {
            Some(kind) => {
                let col = cell_index(march.sample_x(k), march.block_size);
                let row = cell_index(march.sample_y(k), march.block_size);
                assert(march.grid[row].len() == march.grid[0].len());
                assert(kind == march.grid[row][col]);
                assert(kind != EMPTY);
                assert(on_rim(march.grid, col, row));
            },
            None => {},
        }
    }
}

/// What `lemma_march_stops_on_ring` states, of any sample that is the
/// first at which the march ends.
proof fn lemma_stop_on_ring(march: March, k: nat)
    requires
        walled_ring(march.grid),
        march.first_stop(k),
        march.block_size > 0,
        0 < march.step <= march.block_size * ONE,
        -ONE <= march.cos <= ONE,
        -ONE <= march.sin <= ONE,
        march.kind_at(0) == Some(EMPTY),
        !march.out_of_range(k),
    ensures
        k > 0,
        march.kind_at(k) is Some,
        on_rim(
            march.grid,
            cell_index(march.sample_x(k), march.block_size),
            cell_index(march.sample_y(k), march.block_size),
        ),
{
    assert(k > 0);
    let j = (k - 1) as nat;
    assert(!march.stops_at(j));
    assert(march.kind_at(j) == Some(EMPTY));
    let col0 = cell_index(march.sample_x(j), march.block_size);
    let row0 = cell_index(march.sample_y(j), march.block_size);
    let col1 = cell_index(march.sample_x(k), march.block_size);
    let row1 = cell_index(march.sample_y(k), march.block_size);
    assert(march.grid[row0].len() == march.grid[0].len());
    assert(march.grid[row0][col0] == EMPTY);
    assert(!on_rim(march.grid, col0, row0));
    lemma_step_stays_near(march.x, march.cos, j, march.step, march.block_size);
    lemma_step_stays_near(march.y, march.sin, j, march.step, march.block_size);
    assert(0 <= row1 < grid_height(march.grid));
    assert(0 <= col1 < grid_width(march.grid));
    assert(march.grid[row1].len() == march.grid[0].len());
    assert(march.kind_at(k) == Some(march.grid[row1][col1]));
    assert(march.grid[row1][col1] != EMPTY);
    assert(on_rim(march.grid, col1, row1));
}

/// Below a sample at which a march ends there is a first such sample.
proof fn lemma_stop_below(march: March, n: nat)
    requires
        march.stops_at(n),
    ensures
        exists|k: nat| k <= n && march.first_stop(k),
    decreases n,
{
    if forall|j: nat| j < n ==> !march.stops_at(j) {
        assert(march.first_stop(n));
    } else {
        let j = choose|j: nat| j < n && march.stops_at(j);
        lemma_stop_below(march, j);
        let k = choose|k: nat| k <= j && march.first_stop(k);
        assert(k <= n && march.first_stop(k));
    }
}

/// A march whose step advances ends: there is a first sample at which it
/// ends, and that is the one `stop_index` names.
pub proof fn lemma_march_ends(march: March)
    requires
        march.step > 0,
    ensures
        march.first_stop(march.stop_index()),
{
    let beyond: nat = if march.max_distance < 0 {
        0
    } else {
        (march.max_distance / march.step + 1) as nat
    };
    if march.max_distance >= 0 {
        lemma_fundamental_div_mod(march.max_distance, march.step);
        lemma_mod_bound(march.max_distance, march.step);
        let q = march.max_distance / march.step;
        assert(q >= 0) by (nonlinear_arith)
            requires
                q == march.max_distance / march.step,
                march.max_distance >= 0,
                march.step > 0,
        ;
        assert((q + 1) * march.step == march.step * q + march.step) by (nonlinear_arith);
    } else {
        assert(0 * march.step == 0);
    }
    assert(march.out_of_range(beyond));
    lemma_stop_below(march, beyond);
}

/// In a grid of empty cells a ray meets nothing, whatever its direction.
/// Its march ends at the first sample outside the grid, at the distance of
/// that sample, or, where the range ends first, at the end of the range;
/// either way it reports the default wall.
pub proof fn lemma_march_through_empty_grid(march: March)
    requires
        all_empty(march.grid),
        march.step > 0,
    ensures
        march.result().impact == DEFAULT_WALL,
        march.result().tx == 0,
        march.out_of_range(march.stop_index()) ==> march.result().distance == march.max_distance,
        !march.out_of_range(march.stop_index()) ==> march.kind_at(march.stop_index()) is None
            && march.result().distance == march.distance_at(march.stop_index()),
        forall|j: nat|
            j < march.stop_index() ==> march.distance_at(j) <= march.max_distance && (
            #[trigger] march.kind_at(j)) == Some(EMPTY),
{
    lemma_march_ends(march);
    lemma_stop_in_empty_grid(march, march.stop_index());
}

/// In a ring of walls around an empty interior a ray stops at the ring.
/// Whatever its direction and wherever it starts, its march reports a wall,
/// and every sample before the one it reports lies in the empty interior:
/// the march ends no farther than one step past the ring.
pub proof fn lemma_march_inside_ring(march: March)
    requires
        walled_ring(march.grid),
        march.step > 0,
    ensures
        is_wall(march.result().impact),
        march.result().distance <= march.distance_at(march.stop_index()),
        forall|j: nat| j < march.stop_index() ==> (#[trigger] march.kind_at(j)) == Some(EMPTY),
{
    lemma_march_ends(march);
    lemma_stop_inside_ring(march, march.stop_index());
}

/// Inside a ring of walls a ray never escapes.  A march that starts in the
/// empty interior, along a direction whose components are at most one in
/// size and with a step no longer than a cell, and that does not run out
/// of range, ends in a cell of the ring: it does not jump across it.
pub proof fn lemma_march_stops_on_ring(march: March)
    requires
        walled_ring(march.grid),
        march.block_size > 0,
        0 < march.step <= march.block_size * ONE,
        -ONE <= march.cos <= ONE,
        -ONE <= march.sin <= ONE,
        march.kind_at(0) == Some(EMPTY),
        !march.out_of_range(march.stop_index()),
    ensures
        march.stop_index() > 0,
        march.kind_at(march.stop_index()) is Some,
        on_rim(
            march.grid,
            cell_index(march.sample_x(march.stop_index()), march.block_size),
            cell_index(march.sample_y(march.stop_index()), march.block_size),
        ),
{
    lemma_march_ends(march);
    lemma_stop_on_ring(march, march.stop_index());
}

/// The texture coordinate of a hit lies between zero (taken in) and one
/// (left out), wherever the hit is.
pub proof fn lemma_texture_u_in_range(sum: int, block_size: int)
    requires
        block_size > 0,
    ensures
        0 <= texture_u(sum, block_size) < ONE,
{
    let magnitude = if sum < 0 {
        -sum
    } else {
        sum
    };
    let side = block_size * ONE;
    assert(side > 0) by (nonlinear_arith)
        requires
            side == block_size * ONE,
            block_size > 0,
            ONE == 65536,
    ;
    lemma_mod_bound(magnitude, side);
    let rest = magnitude % side;
    assert(0 <= rest / block_size < ONE) by (nonlinear_arith)
        requires
            0 <= rest < block_size * ONE,
            block_size > 0,
            ONE == 65536,
    ;
}

/// Whatever a march reports, the texture coordinate it reports lies
/// between zero and one.
pub proof fn lemma_hit_texture_in_range(march: March)
    requires
        march.block_size > 0,
    ensures
        0 <= march.result().tx < ONE,
{
    let k = march.stop_index();
    lemma_texture_u_in_range(march.sample_x(k) + march.sample_y(k), march.block_size);
}

/// The width of a cell in fixed-point world units.
pub fn cell_side(block_size: usize) -> (side: i128)
    ensures
        side == block_size * ONE,
        block_size > 0 ==> side > 0,
        side <= 0x1_0000_0000_0000_0000_0000,
{
    assert(ONE == 65536);
    (block_size as i128) * 65536
}

/// Computes `advance` without overflow.
pub fn advance_exec(origin: Fixed, component: Fixed, distance: i128) -> (coord: i128)
    requires
        0 <= distance <= 0x7fff_ffff_ffff_ffff,
    ensures
        coord == advance(origin as int, component as int, distance as int),
        -0x1_0000_0000_0000_0000_0000_0000_0000 <= coord <= 0x1_0000_0000_0000_0000_0000_0000_0000,
        distance <= 0x1_0000_0000 ==> -0x1_0000_0000_0000_0000_0000 <= coord
            <= 0x1_0000_0000_0000_0000_0000,
{
    proof {
        lemma_product_bound(
            distance as int,
            component as int,
            0x8000_0000_0000_0000,
            0x8000_0000_0000_0000,
        );
        if distance <= 0x1_0000_0000 {
            lemma_product_bound(
                distance as int,
                component as int,
                0x1_0000_0000,
                0x8000_0000_0000_0000,
            );
        }
    }
    let product: i128 = distance * (component as i128);
    let offset: i128 = floor_div(product, ONE as i128);
    (origin as i128) + offset
}

/// Computes `texture_u`.
fn texture_u_exec(sum: i128, block_size: usize) -> (tx: Fixed)
    requires
        block_size > 0,
        -0x4_0000_0000_0000_0000_0000_0000_0000 <= sum <= 0x4_0000_0000_0000_0000_0000_0000_0000,
    ensures
        tx == texture_u(sum as int, block_size as int),
        0 <= tx < ONE,
{
    let magnitude: i128 = if sum < 0 {
        -sum
    } else {
        sum
    };
    let side: i128 = cell_side(block_size);
    let rest: i128 = floor_mod(magnitude, side);
    let tx: i128 = rest / (block_size as i128);
    assert(0 <= tx < ONE) by (nonlinear_arith)
        requires
            0 <= rest < block_size * 65536,
            block_size > 0,
            tx == (rest as int) / (block_size as int),
    ;
    tx as Fixed
}

/// Marches a ray from the player's position along `dir`, sampling the grid
/// every `step` world units, and reports the first sample that is outside
/// the grid, in a cell that is not empty, or beyond `max_distance`.
///
/// A sample outside the grid or beyond the range is reported as the default
/// wall with texture coordinate zero; a sample beyond the range is reported
/// at `max_distance`.
pub fn cast_ray(
    maze: &Maze,
    player: &Player,
    dir: Direction,
    block_size: usize,
    max_distance: Fixed,
    step: Fixed,
) -> (hit: Intersect)
    requires
        block_size > 0,
        max_distance >= 0,
        step > 0,
    ensures
        march_of(maze, player, dir, block_size, max_distance, step).first_stop(
            march_of(maze, player, dir, block_size, max_distance, step).stop_index(),
        ),
        hit@ == march_of(maze, player, dir, block_size, max_distance, step).result(),
        0 <= hit.distance <= max_distance,
        0 <= hit.tx < ONE,
{
    let ghost march = march_of(maze, player, dir, block_size, max_distance, step);
    let side: i128 = cell_side(block_size);
    let mut d: i128 = 0;
    let ghost mut k: nat = 0;
    loop
        invariant
            block_size > 0,
            max_distance >= 0,
            step > 0,
            march == march_of(maze, player, dir, block_size, max_distance, step),
            side == block_size * ONE,
            d == march.distance_at(k),
            0 <= d <= max_distance + step,
            forall|j: nat| j < k ==> !march.stops_at(j),
        decreases max_distance + step - d,
    {
        if d > max_distance as i128 {
            proof {
                lemma_first_stop_unique(march, k);
            }
            return Intersect { distance: max_distance, impact: DEFAULT_WALL, tx: 0 };
        }
        let x: i128 = advance_exec(player.pos.x, dir.cos, d);
        let y: i128 = advance_exec(player.pos.y, dir.sin, d);
        let col: i128 = floor_div(x, side);
        let row: i128 = floor_div(y, side);
        match cell(maze, col, row) {
            None => {
                proof {
                    lemma_first_stop_unique(march, k);
                }
                return Intersect { distance: d as Fixed, impact: DEFAULT_WALL, tx: 0 };
            },
            Some(kind) => {
                if kind != EMPTY {
                    proof {
                        lemma_first_stop_unique(march, k);
                    }
                    let tx: Fixed = texture_u_exec(x + y, block_size);
                    return Intersect { distance: d as Fixed, impact: kind, tx };
                }
            },
        }
        proof {
            assert((k + 1) * step == k * step + step) by (nonlinear_arith);
            assert(!march.stops_at(k));
            k = k + 1;
        }
        d = d + step as i128;
    }
}

} // verus!
