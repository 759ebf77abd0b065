//! Where sprites are put when a maze is loaded.

use vstd::prelude::*;
use crate::fixed::Fixed;
use crate::fixed::ONE;
use crate::fixed::HALF;
use crate::fixed::lemma_product_bound;
use crate::fixed::magnitude;
use crate::maze::Maze;
use crate::maze::EMPTY;
use crate::maze::GOAL;
use crate::maze::cell_at;
use crate::maze::cell;
use crate::maze::rectangular;
use crate::maze::is_rectangular;
use crate::maze::grid_width;
use crate::maze::grid_height;
use crate::player::Point;
use crate::sprites::AnimatedSprite;
use crate::sprites::SpriteManager;
use crate::sprites::SpriteType;

verus! {

/// How many sprites a maze is to hold.
pub const TARGET_SPRITES: usize = 8;

/// How many cells apart sprites are kept at first.
pub const WIDE_SPACING: u8 = 3;

/// How many cells apart sprites are kept where the first spacing leaves
/// room for too few.
pub const NARROW_SPACING: u8 = 2;

/// The frames among which a new sprite starts its animation.
pub const STARTING_FRAMES: usize = 4;

/// Whether the grid has an empty cell at `(x, y)`.
pub open spec fn is_open(grid: Seq<Seq<char>>, x: int, y: int) -> bool {
    cell_at(grid, x, y) == Some(EMPTY)
}

/// One if the grid has an empty cell at `(x, y)`, zero otherwise.
pub open spec fn open_count(grid: Seq<Seq<char>>, x: int, y: int) -> int {
    if is_open(grid, x, y) {
        1
    } else {
        0
    }
}

/// How many of the four neighbours of a cell are empty.
pub open spec fn open_neighbors(grid: Seq<Seq<char>>, x: int, y: int) -> int {
    open_count(grid, x, y - 1) + open_count(grid, x, y + 1) + open_count(grid, x - 1, y)
        + open_count(grid, x + 1, y)
}

/// Whether the goal is the cell at `(x, y)` or one of the eight around it.
pub open spec fn goal_nearby(grid: Seq<Seq<char>>, x: int, y: int) -> bool {
    exists|dx: int, dy: int|
        -1 <= dx <= 1 && -1 <= dy <= 1 && #[trigger] cell_at(grid, x + dx, y + dy) == Some(GOAL)
}

/// Whether a sprite may be put in the cell at `(x, y)` of a rectangular
/// grid: the cell is empty and not on the rim, at least three of its four
/// neighbours are empty, and the goal is not next to it.
pub open spec fn is_spawn_cell(grid: Seq<Seq<char>>, x: int, y: int) -> bool {
    &&& 1 <= y < grid_height(grid) - 1
    &&& 1 <= x < grid_width(grid) - 1
    &&& is_open(grid, x, y)
    &&& open_neighbors(grid, x, y) >= 3
    &&& !goal_nearby(grid, x, y)
}

/// The world coordinate of the middle of the cells with index `index`.
pub open spec fn cell_center(index: int, block_size: int) -> int {
    index * block_size * ONE + block_size * HALF
}

/// The middle of the cell at `(x, y)`.
pub open spec fn spawn_point(x: int, y: int, block_size: int) -> Point {
    Point {
        x: cell_center(x, block_size) as Fixed,
        y: cell_center(y, block_size) as Fixed,
    }
}

/// Whether two points are less than `cells` cells apart.
pub open spec fn closer_than(p: Point, q: Point, cells: int, block_size: int) -> bool {
    (p.x - q.x) * (p.x - q.x) + (p.y - q.y) * (p.y - q.y) < (cells * block_size * ONE) * (cells
        * block_size * ONE)
}

/// Whether every point of the maze can be held in fixed-point numbers.
pub open spec fn world_fits(grid: Seq<Seq<char>>, block_size: int) -> bool {
    &&& grid_width(grid) * block_size * ONE <= i64::MAX
    &&& grid_height(grid) * block_size * ONE <= i64::MAX
}

/// Whether `sprite` is as a sprite is when it has just been put at `point`
/// by a manager that shows a frame for `duration`.
pub open spec fn freshly_spawned(sprite: AnimatedSprite, point: Point, duration: int) -> bool {
    &&& sprite.position == point
    &&& sprite.sprite_type == SpriteType::Naruto
    &&& sprite.current_frame < STARTING_FRAMES
    &&& 0 <= sprite.frame_timer
    &&& sprite.frame_timer < duration || sprite.frame_timer == 0
    &&& sprite.scale == ONE
    &&& sprite.visible
}

/// Whether one of the first `count` sprites is less than `cells` cells from
/// `point`.
pub open spec fn crowded(
    sprites: Seq<AnimatedSprite>,
    count: int,
    point: Point,
    cells: int,
    block_size: int,
) -> bool {
    exists|i: int|
        0 <= i < count && closer_than((#[trigger] sprites[i]).position, point, cells, block_size)
}

/// Whether the first `count` sprites keep `cells` cells apart, each from
/// every other.
pub open spec fn spaced(sprites: Seq<AnimatedSprite>, count: int, cells: int, block_size: int)
    -> bool {
    forall|i: int, j: int|
        0 <= i < j < count ==> !closer_than(
            (#[trigger] sprites[i]).position,
            (#[trigger] sprites[j]).position,
            cells,
            block_size,
        )
}

/// Whether the first `count` sprites leave no room: every cell a sprite
/// may be put in is less than `cells` cells from one of them.
pub open spec fn saturated(
    grid: Seq<Seq<char>>,
    sprites: Seq<AnimatedSprite>,
    count: int,
    cells: int,
    block_size: int,
) -> bool {
    forall|x: int, y: int| #[trigger]
        is_spawn_cell(grid, x, y) ==> crowded(
            sprites,
            count,
            spawn_point(x, y, block_size),
            cells,
            block_size,
        )
}

/// Whether each sprite stands, freshly spawned, in the middle of a cell a
/// sprite may be put in.
pub open spec fn all_on_spawn_cells(
    grid: Seq<Seq<char>>,
    sprites: Seq<AnimatedSprite>,
    block_size: int,
    duration: int,
) -> bool {
    forall|i: int|
        0 <= i < sprites.len() ==> exists|x: int, y: int| #[trigger]
            is_spawn_cell(grid, x, y) && freshly_spawned(
                #[trigger] sprites[i],
                spawn_point(x, y, block_size),
                duration,
            )
}

/// What `spawn_sprites_in_maze` leaves behind in a maze it can work on:
/// at most the target number of sprites, each freshly spawned in the middle
/// of a cell a sprite may be put in; the first few of them the wide spacing
/// apart and all of them the narrow spacing apart; and, unless the target
/// was reached, no room left at either spacing.
pub open spec fn well_spawned(
    grid: Seq<Seq<char>>,
    sprites: Seq<AnimatedSprite>,
    block_size: int,
    duration: int,
) -> bool {
    &&& sprites.len() <= TARGET_SPRITES
    &&& all_on_spawn_cells(grid, sprites, block_size, duration)
    &&& spaced(sprites, sprites.len() as int, NARROW_SPACING as int, block_size)
    &&& sprites.len() < TARGET_SPRITES ==> saturated(
        grid,
        sprites,
        sprites.len() as int,
        NARROW_SPACING as int,
        block_size,
    )
    &&& exists|first: int|
        0 <= first <= sprites.len() && #[trigger] spaced(
            sprites,
            first,
            WIDE_SPACING as int,
            block_size,
        ) && (first < TARGET_SPRITES ==> saturated(
            grid,
            sprites,
            first,
            WIDE_SPACING as int,
            block_size,
        )) && (first == TARGET_SPRITES ==> sprites.len() == first)
}

/// A number drawn by `fastrand::usize` from the range from `low` up to but
/// not including `high`.  Taken on trust, not proved: that the call comes
/// back on a range that is not empty, and that what it draws lies in the
/// range.  Which number it draws is left open.
#[verifier::external_body]
fn random_index(low: usize, high: usize) -> (index: usize)
    requires
        low < high,
    ensures
        low <= index < high,
{
    fastrand::usize(low..high)
}

/// A number drawn by `fastrand::i64` from the range from zero up to but not
/// including `bound`.  Taken on trust, not proved: that the call comes back
/// on a range that is not empty, and that what it draws lies in the range.
/// Which number it draws is left open.
#[verifier::external_body]
fn random_below(bound: i64) -> (value: i64)
    requires
        bound > 0,
    ensures
        0 <= value < bound,
{
    fastrand::i64(0..bound)
}

/// Whether the cell `(x, y)` is one of `cells`.
pub open spec fn listed(cells: Seq<(usize, usize)>, x: int, y: int) -> bool {
    exists|k: int| 0 <= k < cells.len() && (#[trigger] cells[k]).0 == x && cells[k].1 == y
}

/// Whether each of `cells` is a cell a sprite may be put in.
pub open spec fn all_spawn_cells(grid: Seq<Seq<char>>, cells: Seq<(usize, usize)>) -> bool {
    forall|k: int|
        0 <= k < cells.len() ==> is_spawn_cell(
            grid,
            (#[trigger] cells[k]).0 as int,
            cells[k].1 as int,
        )
}

/// Computes `is_open`.
fn open_at(maze: &Maze, x: i128, y: i128) -> (open: bool)
    ensures
        open == is_open(maze.deep_view(), x as int, y as int),
{
    match cell(maze, x, y) {
        Some(kind) => kind == EMPTY,
        None => false,
    }
}

/// Whether the grid has the goal at `(x, y)`.
fn goal_at(maze: &Maze, x: i128, y: i128) -> (found: bool)
    ensures
        found == (cell_at(maze.deep_view(), x as int, y as int) == Some(GOAL)),
{
    match cell(maze, x, y) {
        Some(kind) => kind == GOAL,
        None => false,
    }
}

/// Computes `goal_nearby`.
fn goal_near(maze: &Maze, x: usize, y: usize) -> (found: bool)
    ensures
        found == goal_nearby(maze.deep_view(), x as int, y as int),
{
    let cx: i128 = x as i128;
    let cy: i128 = y as i128;
    let ghost grid = maze.deep_view();
    let mut found: bool = false;
    let mut dy: i128 = -1;
    while dy <= 1
        invariant
            -1 <= dy <= 2,
            cx == x,
            cy == y,
            grid == maze.deep_view(),
            found == exists|ex: int, ey: int|
                -1 <= ex <= 1 && -1 <= ey < dy && #[trigger] cell_at(grid, cx + ex, cy + ey)
                    == Some(GOAL),
        decreases 2 - dy,
    {
        let left: bool = goal_at(maze, cx - 1, cy + dy);
        let middle: bool = goal_at(maze, cx, cy + dy);
        let right: bool = goal_at(maze, cx + 1, cy + dy);
        proof {
            if left {
                assert(cell_at(grid, cx + (-1), cy + dy) == Some(GOAL));
            }
            if middle {
                assert(cell_at(grid, cx + 0, cy + dy) == Some(GOAL));
            }
            if right {
                assert(cell_at(grid, cx + 1, cy + dy) == Some(GOAL));
            }
        }
        found = found || left || middle || right;
        dy = dy + 1;
    }
    found
}

/// Computes `is_spawn_cell` for a cell that is not on the rim.
fn is_candidate(maze: &Maze, x: usize, y: usize) -> (fit: bool)
    requires
        1 <= y < grid_height(maze.deep_view()) - 1,
        1 <= x < grid_width(maze.deep_view()) - 1,
    ensures
        fit == is_spawn_cell(maze.deep_view(), x as int, y as int),
{
    let cx: i128 = x as i128;
    let cy: i128 = y as i128;
    if !open_at(maze, cx, cy) {
        return false;
    }
    let mut open: u8 = 0;
    if open_at(maze, cx, cy - 1) {
        open = open + 1;
    }
    if open_at(maze, cx, cy + 1) {
        open = open + 1;
    }
    if open_at(maze, cx - 1, cy) {
        open = open + 1;
    }
    if open_at(maze, cx + 1, cy) {
        open = open + 1;
    }
    if open < 3 {
        return false;
    }
    !goal_near(maze, x, y)
}

/// Lists, row by row, the cells a sprite may be put in.
fn spawn_cells(maze: &Maze) -> (cells: Vec<(usize, usize)>)
    requires
        rectangular(maze.deep_view()),
    ensures
        all_spawn_cells(maze.deep_view(), cells@),
        forall|x: int, y: int| #[trigger]
            is_spawn_cell(maze.deep_view(), x, y) ==> listed(cells@, x, y),
{
    let ghost grid = maze.deep_view();
    let height: usize = maze.len();
    let width: usize = maze[0].len();
    let mut cells: Vec<(usize, usize)> = Vec::new();
    let mut y: usize = 1;
    while y < height - 1
        invariant
            1 <= y,
            grid == maze.deep_view(),
            rectangular(grid),
            height == grid_height(grid),
            width == grid_width(grid),
            all_spawn_cells(grid, cells@),
            forall|cx: int, cy: int| #[trigger]
                is_spawn_cell(grid, cx, cy) && cy < y ==> listed(cells@, cx, cy),
        decreases height - y,
    {
        let mut x: usize = 1;
        while x < width - 1
            invariant
                1 <= x,
                1 <= y < height - 1,
                grid == maze.deep_view(),
                rectangular(grid),
                height == grid_height(grid),
                width == grid_width(grid),
                all_spawn_cells(grid, cells@),
                forall|cx: int, cy: int| #[trigger]
                    is_spawn_cell(grid, cx, cy) && (cy < y || (cy == y && cx < x)) ==> listed(
                        cells@,
                        cx,
                        cy,
                    ),
            decreases width - x,
        {
            let ghost before = cells@;
            if is_candidate(maze, x, y) {
                cells.push((x, y));
                proof {
                    assert(cells@[before.len() as int] == (x, y));
                    assert(listed(cells@, x as int, y as int));
                }
            }
            proof {
                assert forall|cx: int, cy: int| #[trigger]
                    is_spawn_cell(grid, cx, cy) && (cy < y || (cy == y && cx < x + 1)) implies listed(
                    cells@,
                    cx,
                    cy,
                ) by {
                    if cy < y || (cy == y && cx < x) {
                        assert(listed(before, cx, cy));
                        let k = choose|k: int|
                            0 <= k < before.len() && (#[trigger] before[k]).0 == cx && before[k].1
                                == cy;
                        assert(cells@[k] == before[k]);
                    }
                }
            }
            x = x + 1;
        }
        y = y + 1;
    }
    cells
}

/// Puts the cells in a random order: each place in turn takes a cell drawn from those left.
fn shuffle(cells: &mut Vec<(usize, usize)>, Ghost(grid): Ghost<Seq<Seq<char>>>)
    requires
        all_spawn_cells(grid, old(cells)@),
    ensures
        final(cells)@.to_multiset() == old(cells)@.to_multiset(),
        final(cells)@.len() == old(cells)@.len(),
        all_spawn_cells(grid, final(cells)@),
        forall|x: int, y: int| listed(old(cells)@, x, y) ==> listed(final(cells)@, x, y),
{
    let count: usize = cells.len();
    let mut i: usize = 0;
    while i < count
        invariant
            i <= count,
            count == cells@.len(),
            count == old(cells)@.len(),
            cells@.to_multiset() == old(cells)@.to_multiset(),
            all_spawn_cells(grid, cells@),
            forall|x: int, y: int| listed(old(cells)@, x, y) ==> listed(cells@, x, y),
        decreases count - i,
    {
        let j: usize = random_index(i, count);
        let ghost before = cells@;
        swap_cells(cells, i, j);
        proof {
            lemma_swap_keeps_cells(before, i as int, j as int);
            assert forall|x: int, y: int| listed(old(cells)@, x, y) implies listed(cells@, x, y) by {
                assert(listed(before, x, y));
                let k = choose|k: int|
                    0 <= k < before.len() && (#[trigger] before[k]).0 == x && before[k].1 == y;
                if k == i {
                    assert(cells@[j as int] == before[k]);
                } else if k == j {
                    assert(cells@[i as int] == before[k]);
                } else {
                    assert(cells@[k] == before[k]);
                }
            }
        }
        i = i + 1;
    }
}

/// A row of cells with the cells in two places changed over.
pub open spec fn swapped(cells: Seq<(usize, usize)>, i: int, j: int) -> Seq<(usize, usize)> {
    cells.update(i, cells[j]).update(j, cells[i])
}

/// Changing two cells over leaves the same cells, each as often as before.
proof fn lemma_swap_keeps_cells(cells: Seq<(usize, usize)>, i: int, j: int)
    requires
        0 <= i < cells.len(),
        0 <= j < cells.len(),
    ensures
        swapped(cells, i, j).to_multiset() == cells.to_multiset(),
        swapped(cells, i, j).len() == cells.len(),
{
    broadcast use {
        vstd::multiset::group_multiset_axioms,
        vstd::multiset::group_multiset_properties,
        vstd::seq_lib::to_multiset_contains,
    };

    let half = cells.update(i, cells[j]);
    vstd::seq_lib::to_multiset_update(cells, i, cells[j]);
    vstd::seq_lib::to_multiset_update(half, j, cells[i]);
    assert(half[j] == cells[j]);
    assert(cells.contains(cells[i]));
    assert(cells.contains(cells[j]));
    assert(swapped(cells, i, j).to_multiset() =~= cells.to_multiset());
}

/// Changes the cells in two places of the row over.
fn swap_cells(cells: &mut Vec<(usize, usize)>, i: usize, j: usize)
    requires
        i < old(cells)@.len(),
        j < old(cells)@.len(),
    ensures
        final(cells)@ == swapped(old(cells)@, i as int, j as int),
{
    let first: (usize, usize) = cells[i];
    let second: (usize, usize) = cells[j];
    cells.set(i, second);
    cells.set(j, first);
}

/// Computes `world_fits`.
fn fits_world(maze: &Maze, block_size: usize) -> (fits: bool)
    requires
        rectangular(maze.deep_view()),
    ensures
        fits == world_fits(maze.deep_view(), block_size as int),
{
    let width: u128 = maze[0].len() as u128;
    let height: u128 = maze.len() as u128;
    let side: u128 = block_size as u128;
    proof {
        lemma_product_bound(
            width as int,
            side as int,
            0xffff_ffff_ffff_ffff,
            0xffff_ffff_ffff_ffff,
        );
        lemma_product_bound(
            height as int,
            side as int,
            0xffff_ffff_ffff_ffff,
            0xffff_ffff_ffff_ffff,
        );
        assert(width * side * ONE == (width * side) * 65536) by (nonlinear_arith)
            requires
                ONE == 65536,
        ;
        assert(height * side * ONE == (height * side) * 65536) by (nonlinear_arith)
            requires
                ONE == 65536,
        ;
    }
    width * side <= 140737488355327 && height * side <= 140737488355327
}

/// Computes `cell_center` for a cell of a world that fits.
fn center_of(index: usize, block_size: usize, Ghost(extent): Ghost<int>) -> (center: Fixed)
    requires
        index < extent,
        extent * block_size * ONE <= i64::MAX,
    ensures
        center == cell_center(index as int, block_size as int),
        0 <= center,
{
    proof {
        assert(0 <= index * block_size && (index * block_size) * 65536 + block_size * 32768
            <= extent * block_size * ONE && index * block_size * ONE == (index * block_size)
            * 65536 && block_size * HALF == block_size * 32768) by (nonlinear_arith)
            requires
                0 <= index < extent,
                0 <= block_size,
                ONE == 65536,
                HALF == 32768,
        ;
    }
    let cells: u128 = (index as u128) * (block_size as u128);
    (cells * 65536 + (block_size as u128) * 32768) as Fixed
}

/// Computes `closer_than` for two points of a world that fits.
fn closer(p: Point, q: Point, cells: u8, block_size: usize) -> (near: bool)
    requires
        0 <= p.x,
        0 <= p.y,
        0 <= q.x,
        0 <= q.y,
        cells * block_size * ONE <= i64::MAX,
    ensures
        near == closer_than(p, q, cells as int, block_size as int),
{
    let dx: u128 = magnitude((p.x as i128) - (q.x as i128));
    let dy: u128 = magnitude((p.y as i128) - (q.y as i128));
    proof {
        lemma_product_bound(dx as int, dx as int, 0x8000_0000_0000_0000, 0x8000_0000_0000_0000);
        lemma_product_bound(dy as int, dy as int, 0x8000_0000_0000_0000, 0x8000_0000_0000_0000);
        assert(dx * dx == (p.x - q.x) * (p.x - q.x)) by (nonlinear_arith)
            requires
                dx == p.x - q.x || dx == -(p.x - q.x),
        ;
        assert(dy * dy == (p.y - q.y) * (p.y - q.y)) by (nonlinear_arith)
            requires
                dy == p.y - q.y || dy == -(p.y - q.y),
        ;
        assert(0 <= cells * block_size && cells * block_size * ONE == (cells * block_size) * 65536)
            by (nonlinear_arith)
            requires
                0 <= cells,
                0 <= block_size,
                ONE == 65536,
        ;
    }
    let reach: u128 = (cells as u128) * (block_size as u128) * 65536;
    proof {
        lemma_product_bound(
            reach as int,
            reach as int,
            0x8000_0000_0000_0000,
            0x8000_0000_0000_0000,
        );
    }
    dx * dx + dy * dy < reach * reach
}

/// Computes `crowded` over all the sprites, for sprites and a point of a
/// world that fits.
fn too_close(sprites: &Vec<AnimatedSprite>, point: Point, cells: u8, block_size: usize) -> (near:
    bool)
    requires
        0 <= point.x,
        0 <= point.y,
        cells * block_size * ONE <= i64::MAX,
        forall|i: int|
            0 <= i < sprites@.len() ==> 0 <= (#[trigger] sprites@[i]).position.x && 0
                <= sprites@[i].position.y,
    ensures
        near == crowded(sprites@, sprites@.len() as int, point, cells as int, block_size as int),
{
    let mut i: usize = 0;
    while i < sprites.len()
        invariant
            i <= sprites@.len(),
            0 <= point.x,
            0 <= point.y,
            cells * block_size * ONE <= i64::MAX,
            forall|k: int|
                0 <= k < sprites@.len() ==> 0 <= (#[trigger] sprites@[k]).position.x && 0
                    <= sprites@[k].position.y,
            !crowded(sprites@, i as int, point, cells as int, block_size as int),
        decreases sprites@.len() - i,
    {
        if closer(sprites[i].position, point, cells, block_size) {
            return true;
        }
        i = i + 1;
    }
    false
}

/// A sprite as it is put at `position`: of the one kind there is, visible,
/// at scale one, somewhere in its first frames and somewhere in the time of
/// one frame.
fn new_sprite(position: Point, duration: Fixed) -> (sprite: AnimatedSprite)
    ensures
        freshly_spawned(sprite, position, duration as int),
{
    let frame: usize = random_index(0, STARTING_FRAMES);
    let timer: Fixed = if duration > 0 {
        random_below(duration)
    } else {
        0
    };
    AnimatedSprite {
        position,
        sprite_type: SpriteType::Naruto,
        current_frame: frame,
        frame_timer: timer,
        scale: ONE,
        visible: true,
    }
}

/// Whether every sprite stands where neither coordinate is negative.
pub open spec fn all_in_first_quadrant(sprites: Seq<AnimatedSprite>) -> bool {
    forall|i: int|
        0 <= i < sprites.len() ==> 0 <= (#[trigger] sprites[i]).position.x && 0
            <= sprites[i].position.y
}

/// Goes through the cells in order and puts a sprite in each that is at
/// least `cells` cells from every sprite there is, until the target is
/// reached.
fn placement_pass(
    sprites: &mut Vec<AnimatedSprite>,
    candidates: &Vec<(usize, usize)>,
    cells: u8,
    maze: &Maze,
    block_size: usize,
    duration: Fixed,
)
    requires
        old(sprites)@.len() <= TARGET_SPRITES,
        block_size > 0,
        cells >= 1,
        rectangular(maze.deep_view()),
        world_fits(maze.deep_view(), block_size as int),
        cells * block_size * ONE <= i64::MAX,
        all_spawn_cells(maze.deep_view(), candidates@),
        all_on_spawn_cells(maze.deep_view(), old(sprites)@, block_size as int, duration as int),
        all_in_first_quadrant(old(sprites)@),
    ensures
        final(sprites)@.len() <= TARGET_SPRITES,
        old(sprites)@.len() <= final(sprites)@.len(),
        final(sprites)@.subrange(0, old(sprites)@.len() as int) == old(sprites)@,
        all_on_spawn_cells(maze.deep_view(), final(sprites)@, block_size as int, duration as int),
        all_in_first_quadrant(final(sprites)@),
        spaced_from(
            final(sprites)@,
            old(sprites)@.len() as int,
            cells as int,
            block_size as int,
        ),
        final(sprites)@.len() < TARGET_SPRITES ==> all_crowded(
            final(sprites)@,
            candidates@,
            cells as int,
            block_size as int,
        ),
{
    let ghost grid = maze.deep_view();
    let ghost start = sprites@;
    let mut k: usize = 0;
    while k < candidates.len() && sprites.len() < TARGET_SPRITES
        invariant
            k <= candidates@.len(),
            sprites@.len() <= TARGET_SPRITES,
            start.len() <= sprites@.len(),
            sprites@.subrange(0, start.len() as int) == start,
            grid == maze.deep_view(),
            block_size > 0,
            cells >= 1,
            rectangular(grid),
            world_fits(grid, block_size as int),
            cells * block_size * ONE <= i64::MAX,
            all_spawn_cells(grid, candidates@),
            all_on_spawn_cells(grid, sprites@, block_size as int, duration as int),
            all_in_first_quadrant(sprites@),
            forall|i: int, j: int|
                0 <= i < j < sprites@.len() && start.len() <= j ==> !closer_than(
                    (#[trigger] sprites@[i]).position,
                    (#[trigger] sprites@[j]).position,
                    cells as int,
                    block_size as int,
                ),
            forall|c: int|
                0 <= c < k ==> crowded(
                    sprites@,
                    sprites@.len() as int,
                    spawn_point(
                        (#[trigger] candidates@[c]).0 as int,
                        candidates@[c].1 as int,
                        block_size as int,
                    ),
                    cells as int,
                    block_size as int,
                ),
        decreases candidates@.len() - k,
    {
        let x: usize = candidates[k].0;
        let y: usize = candidates[k].1;
        assert(is_spawn_cell(grid, x as int, y as int));
        let px: Fixed = center_of(x, block_size, Ghost(grid_width(grid)));
        let py: Fixed = center_of(y, block_size, Ghost(grid_height(grid)));
        let point: Point = Point { x: px, y: py };
        assert(point == spawn_point(x as int, y as int, block_size as int));
        let ghost before = sprites@;
        if !too_close(sprites, point, cells, block_size) {
            let sprite: AnimatedSprite = new_sprite(point, duration);
            sprites.push(sprite);
            proof {
                let count = before.len() as int;
                assert(sprites@[count] == sprite);
                assert forall|i: int| 0 <= i < count implies sprites@[i] == before[i] by {}
                assert(sprites@.subrange(0, start.len() as int) =~= start);
                assert(closer_than(point, point, cells as int, block_size as int)) by {
                    assert(0 < (cells * block_size * ONE) * (cells * block_size * ONE))
                        by (nonlinear_arith)
                        requires
                            cells >= 1,
                            block_size >= 1,
                            ONE == 65536,
                    ;
                }
                assert(crowded(
                    sprites@,
                    sprites@.len() as int,
                    point,
                    cells as int,
                    block_size as int,
                ));
            }
        }
        proof {
            assert forall|c: int| 0 <= c < k + 1 implies crowded(
                sprites@,
                sprites@.len() as int,
                spawn_point(
                    (#[trigger] candidates@[c]).0 as int,
                    candidates@[c].1 as int,
                    block_size as int,
                ),
                cells as int,
                block_size as int,
            ) by {
                let target = spawn_point(
                    candidates@[c].0 as int,
                    candidates@[c].1 as int,
                    block_size as int,
                );
                if c < k {
                    assert(crowded(
                        before,
                        before.len() as int,
                        target,
                        cells as int,
                        block_size as int,
                    ));
                    let i = choose|i: int|
                        0 <= i < before.len() && closer_than(
                            (#[trigger] before[i]).position,
                            target,
                            cells as int,
                            block_size as int,
                        );
                    assert(sprites@[i] == before[i]);
                }
            }
        }
        k = k + 1;
    }
}

/// Points less than two cells apart are less than three cells apart.
proof fn lemma_closer_widens(p: Point, q: Point, block_size: int)
    requires
        block_size >= 0,
        closer_than(p, q, NARROW_SPACING as int, block_size),
    ensures
        closer_than(p, q, WIDE_SPACING as int, block_size),
{
    let narrow = NARROW_SPACING * block_size * ONE;
    let wide = WIDE_SPACING * block_size * ONE;
    assert(narrow * narrow <= wide * wide) by (nonlinear_arith)
        requires
            narrow == 2 * block_size * 65536,
            wide == 3 * block_size * 65536,
            block_size >= 0,
    ;
}

/// Whether the grid has a cell a sprite may be put in.
pub open spec fn has_spawn_cell(grid: Seq<Seq<char>>) -> bool {
    exists|x: int, y: int| #[trigger] is_spawn_cell(grid, x, y)
}

/// Whether every cell of `candidates` is less than `cells` cells from one
/// of the sprites.
pub open spec fn all_crowded(
    sprites: Seq<AnimatedSprite>,
    candidates: Seq<(usize, usize)>,
    cells: int,
    block_size: int,
) -> bool {
    forall|k: int|
        0 <= k < candidates.len() ==> crowded(
            sprites,
            sprites.len() as int,
            spawn_point((#[trigger] candidates[k]).0 as int, candidates[k].1 as int, block_size),
            cells,
            block_size,
        )
}

/// Whether each sprite from the `from`-th on keeps `cells` cells from
/// every sprite before it.
pub open spec fn spaced_from(
    sprites: Seq<AnimatedSprite>,
    from: int,
    cells: int,
    block_size: int,
) -> bool {
    forall|i: int, j: int|
        0 <= i < j < sprites.len() && from <= j ==> !closer_than(
            (#[trigger] sprites[i]).position,
            (#[trigger] sprites[j]).position,
            cells,
            block_size,
        )
}

/// Sprites that no listed cell has room beside leave no room in the maze,
/// where every cell a sprite may be put in is listed.
proof fn lemma_crowded_list_saturates(
    grid: Seq<Seq<char>>,
    candidates: Seq<(usize, usize)>,
    sprites: Seq<AnimatedSprite>,
    cells: int,
    block_size: int,
)
    requires
        forall|x: int, y: int| #[trigger] is_spawn_cell(grid, x, y) ==> listed(candidates, x, y),
        all_crowded(sprites, candidates, cells, block_size),
    ensures
        saturated(grid, sprites, sprites.len() as int, cells, block_size),
{
    assert forall|x: int, y: int| #[trigger] is_spawn_cell(grid, x, y) implies crowded(
        sprites,
        sprites.len() as int,
        spawn_point(x, y, block_size),
        cells,
        block_size,
    ) by {
        assert(listed(candidates, x, y));
        let k = choose|k: int|
            0 <= k < candidates.len() && (#[trigger] candidates[k]).0 == x && candidates[k].1 == y;
        assert(crowded(
            sprites,
            sprites.len() as int,
            spawn_point(candidates[k].0 as int, candidates[k].1 as int, block_size),
            cells,
            block_size,
        ));
    }
}

/// What holds of the first sprites of a longer row holds of them in the
/// row: their spacing, and that they leave no room.
proof fn lemma_prefix_keeps(
    grid: Seq<Seq<char>>,
    first: Seq<AnimatedSprite>,
    sprites: Seq<AnimatedSprite>,
    cells: int,
    block_size: int,
)
    requires
        first.len() <= sprites.len(),
        sprites.subrange(0, first.len() as int) == first,
        spaced(first, first.len() as int, cells, block_size),
    ensures
        spaced(sprites, first.len() as int, cells, block_size),
        saturated(grid, first, first.len() as int, cells, block_size) ==> saturated(
            grid,
            sprites,
            first.len() as int,
            cells,
            block_size,
        ),
{
    let count = first.len() as int;
    assert forall|i: int| 0 <= i < count implies sprites[i] == first[i] by {
        assert(sprites.subrange(0, count)[i] == first[i]);
    }
    assert forall|i: int, j: int| 0 <= i < j < count implies !closer_than(
        (#[trigger] sprites[i]).position,
        (#[trigger] sprites[j]).position,
        cells,
        block_size,
    ) by {
        assert(!closer_than(first[i].position, first[j].position, cells, block_size));
    }
    if saturated(grid, first, count, cells, block_size) {
        assert forall|x: int, y: int| #[trigger] is_spawn_cell(grid, x, y) implies crowded(
            sprites,
            count,
            spawn_point(x, y, block_size),
            cells,
            block_size,
        ) by {
            let target = spawn_point(x, y, block_size);
            assert(crowded(first, count, target, cells, block_size));
            let i = choose|i: int|
                0 <= i < count && closer_than(
                    (#[trigger] first[i]).position,
                    target,
                    cells,
                    block_size,
                );
            assert(sprites[i] == first[i]);
        }
    }
}

/// Sprites that keep the wide spacing up to the `count`-th, and the narrow
/// spacing from there on, all keep the narrow spacing.
proof fn lemma_spacing_joins(sprites: Seq<AnimatedSprite>, count: int, block_size: int)
    requires
        block_size >= 0,
        spaced(sprites, count, WIDE_SPACING as int, block_size),
        spaced_from(sprites, count, NARROW_SPACING as int, block_size),
    ensures
        spaced(sprites, sprites.len() as int, NARROW_SPACING as int, block_size),
{
    assert forall|i: int, j: int| 0 <= i < j < sprites.len() implies !closer_than(
        (#[trigger] sprites[i]).position,
        (#[trigger] sprites[j]).position,
        NARROW_SPACING as int,
        block_size,
    ) by {
        if j < count {
            if closer_than(
                sprites[i].position,
                sprites[j].position,
                NARROW_SPACING as int,
                block_size,
            ) {
                lemma_closer_widens(sprites[i].position, sprites[j].position, block_size);
            }
        }
    }
}

impl SpriteManager {
    /// Replaces the sprites of the manager by sprites put into the maze.
    ///
    /// The cells a sprite may be put in are gone through in a random order,
    /// twice at most: first a sprite is put in each cell that is at least
    /// the wide spacing from every sprite put so far, then, where that
    /// leaves the maze short of the target, in each cell that is at least
    /// the narrow spacing from every sprite.  A maze that is not a
    /// rectangle, or too large for fixed-point coordinates, gets no sprite.
    pub fn spawn_sprites_in_maze(&mut self, maze: &Maze, block_size: usize)
        requires
            block_size > 0,
        ensures
            final(self)@.frames == old(self)@.frames,
            final(self)@.frame_duration == old(self)@.frame_duration,
            final(self)@.sprites.len() > 0 <==> rectangular(maze.deep_view()) && world_fits(
                maze.deep_view(),
                block_size as int,
            ) && has_spawn_cell(maze.deep_view()),
            rectangular(maze.deep_view()) && world_fits(maze.deep_view(), block_size as int)
                ==> well_spawned(
                maze.deep_view(),
                final(self)@.sprites,
                block_size as int,
                old(self)@.frame_duration,
            ),
    {
        let duration: Fixed = self.frame_duration();
        let placed: Vec<AnimatedSprite> = if is_rectangular(maze) && fits_world(maze, block_size) {
            place_sprites(maze, block_size, duration)
        } else {
            Vec::new()
        };
        self.set_sprites(placed);
    }
}

/// Two passes over a list of every cell a sprite may be put in, the first
/// at the wide spacing and the second, where the first falls short of the
/// target, at the narrow one, leave the maze well spawned, and not empty
/// where there is such a cell.
proof fn lemma_two_passes(
    grid: Seq<Seq<char>>,
    candidates: Seq<(usize, usize)>,
    first: Seq<AnimatedSprite>,
    sprites: Seq<AnimatedSprite>,
    block_size: int,
    duration: int,
)
    requires
        block_size > 0,
        candidates.len() > 0,
        forall|x: int, y: int| #[trigger] is_spawn_cell(grid, x, y) ==> listed(candidates, x, y),
        first.len() <= TARGET_SPRITES,
        spaced_from(first, 0, WIDE_SPACING as int, block_size),
        first.len() < TARGET_SPRITES ==> all_crowded(
            first,
            candidates,
            WIDE_SPACING as int,
            block_size,
        ),
        sprites.len() <= TARGET_SPRITES,
        first.len() <= sprites.len(),
        sprites.subrange(0, first.len() as int) == first,
        all_on_spawn_cells(grid, sprites, block_size, duration),
        first.len() >= TARGET_SPRITES ==> sprites.len() == first.len(),
        first.len() < TARGET_SPRITES ==> spaced_from(
            sprites,
            first.len() as int,
            NARROW_SPACING as int,
            block_size,
        ),
        first.len() < TARGET_SPRITES && sprites.len() < TARGET_SPRITES ==> all_crowded(
            sprites,
            candidates,
            NARROW_SPACING as int,
            block_size,
        ),
    ensures
        well_spawned(grid, sprites, block_size, duration),
        sprites.len() > 0,
{
    let count = first.len() as int;
    assert(spaced(first, count, WIDE_SPACING as int, block_size));
    if count < TARGET_SPRITES {
        lemma_crowded_list_saturates(grid, candidates, first, WIDE_SPACING as int, block_size);
    }
    lemma_prefix_keeps(grid, first, sprites, WIDE_SPACING as int, block_size);
    if count >= TARGET_SPRITES {
        assert(spaced_from(sprites, count, NARROW_SPACING as int, block_size));
    }
    lemma_spacing_joins(sprites, count, block_size);
    if sprites.len() < TARGET_SPRITES {
        lemma_crowded_list_saturates(grid, candidates, sprites, NARROW_SPACING as int, block_size);
    }
    if count == 0 {
        assert(crowded(
            first,
            0,
            spawn_point(candidates[0].0 as int, candidates[0].1 as int, block_size),
            WIDE_SPACING as int,
            block_size,
        ));
    }
    assert(spaced(sprites, count, WIDE_SPACING as int, block_size) && (count < TARGET_SPRITES
        ==> saturated(grid, sprites, count, WIDE_SPACING as int, block_size)) && (count
        == TARGET_SPRITES ==> sprites.len() == count));
}

/// A maze without a cell a sprite may be put in is well spawned with no
/// sprite at all.
proof fn lemma_nothing_to_spawn(grid: Seq<Seq<char>>, block_size: int, duration: int)
    requires
        !has_spawn_cell(grid),
    ensures
        well_spawned(grid, Seq::<AnimatedSprite>::empty(), block_size, duration),
{
    let sprites = Seq::<AnimatedSprite>::empty();
    assert(spaced(sprites, 0, WIDE_SPACING as int, block_size));
    assert(saturated(grid, sprites, 0, WIDE_SPACING as int, block_size));
}

/// Puts sprites into a maze that is a rectangle and fits.
fn place_sprites(maze: &Maze, block_size: usize, duration: Fixed) -> (placed: Vec<AnimatedSprite>)
    requires
        block_size > 0,
        rectangular(maze.deep_view()),
        world_fits(maze.deep_view(), block_size as int),
    ensures
        well_spawned(maze.deep_view(), placed@, block_size as int, duration as int),
        placed@.len() > 0 <==> has_spawn_cell(maze.deep_view()),
{
    let ghost grid = maze.deep_view();
    let mut placed: Vec<AnimatedSprite> = Vec::new();
    let mut candidates: Vec<(usize, usize)> = spawn_cells(maze);
    let ghost scanned = candidates@;
    if candidates.len() == 0 {
        proof {
            assert forall|x: int, y: int| !is_spawn_cell(grid, x, y) by {
                if is_spawn_cell(grid, x, y) {
                    assert(listed(scanned, x, y));
                }
            }
            lemma_nothing_to_spawn(grid, block_size as int, duration as int);
            assert(placed@ =~= Seq::<AnimatedSprite>::empty());
        }
        return placed;
    }
    proof {
        assert(is_spawn_cell(grid, scanned[0].0 as int, scanned[0].1 as int));
        assert(has_spawn_cell(grid));
        lemma_spacings_fit(grid_width(grid), block_size as int);
    }
    shuffle(&mut candidates, Ghost(grid));
    placement_pass(&mut placed, &candidates, WIDE_SPACING, maze, block_size, duration);
    let ghost first = placed@;
    if placed.len() < TARGET_SPRITES {
        placement_pass(&mut placed, &candidates, NARROW_SPACING, maze, block_size, duration);
    } else {
        proof {
            assert(placed@.subrange(0, first.len() as int) =~= first);
        }
    }
    proof {
        lemma_shuffled_list_is_whole(grid, scanned, candidates@);
        lemma_two_passes(grid, candidates@, first, placed@, block_size as int, duration as int);
    }
    placed
}

/// In a world that fits and is three cells wide or more, three cells fit
/// too, and so do two.
proof fn lemma_spacings_fit(width: int, block_size: int)
    requires
        width >= 3,
        block_size > 0,
        width * block_size * ONE <= i64::MAX,
    ensures
        WIDE_SPACING * block_size * ONE <= i64::MAX,
        NARROW_SPACING * block_size * ONE <= i64::MAX,
{
    assert(3 * block_size * ONE <= width * block_size * ONE && 2 * block_size * ONE <= 3
        * block_size * ONE) by (nonlinear_arith)
        requires
            width >= 3,
            block_size > 0,
            ONE == 65536,
    ;
}

/// A list that holds every cell of a list that holds every cell a sprite
/// may be put in holds every such cell.
proof fn lemma_shuffled_list_is_whole(
    grid: Seq<Seq<char>>,
    scanned: Seq<(usize, usize)>,
    shuffled: Seq<(usize, usize)>,
)
    requires
        forall|x: int, y: int| #[trigger] is_spawn_cell(grid, x, y) ==> listed(scanned, x, y),
        forall|x: int, y: int| listed(scanned, x, y) ==> listed(shuffled, x, y),
    ensures
        forall|x: int, y: int| #[trigger] is_spawn_cell(grid, x, y) ==> listed(shuffled, x, y),
{
    assert forall|x: int, y: int| #[trigger] is_spawn_cell(grid, x, y) implies listed(
        shuffled,
        x,
        y,
    ) by {
        assert(listed(scanned, x, y));
    }
}

} // verus!
