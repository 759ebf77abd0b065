//! The full map of the two-dimensional view: the maze from above, the
//! player, and the rays the player sends out.

use vstd::prelude::*;
use crate::canvas::Layer;
use crate::canvas::draw_layers;
use crate::canvas::stacked;
use crate::caster::Direction;
use crate::caster::March;
use crate::caster::advance_exec;
use crate::caster::cell_side;
use crate::caster::lemma_first_stop_unique;
use crate::caster::march_of;
use crate::color::Color;
use crate::color::red;
use crate::color::whitesmoke;
use crate::color::yellow;
use crate::fixed::Fixed;
use crate::fixed::ONE;
use crate::fixed::floor_div;
use crate::fixed::lemma_product_bound;
use crate::fixed::max_int;
use crate::fixed::min_int;
use crate::framebuffer::Framebuffer;
use crate::framebuffer::overlay;
use crate::maze::Maze;
use crate::maze::EMPTY;
use crate::maze::cell;
use crate::player::Player;
use crate::tiles::MapStyle;
use crate::tiles::area;
use crate::tiles::draw_map;
use crate::tiles::map_paint;
use crate::tiles::pixel_coord;
use crate::tiles::spec_pixel_coord;
use crate::tiles::unit;
use crate::tiles::unit_of;

verus! {

/// The block size of the full map where there is no maze to fit.
pub const DEFAULT_MAP_BLOCK: usize = 100;

/// The smallest block size of the full map.
pub const SMALLEST_MAP_BLOCK: usize = 20;

/// The margin kept around the full map, both sides together.
pub const MAP_MARGIN: usize = 100;

/// The block size at which the whole maze fits a screen with a margin
/// around it, but at least the smallest block size; the default where the
/// maze has no cell.
pub open spec fn adaptive_block_size(grid: Seq<Seq<char>>, width: int, height: int) -> int {
    if grid.len() == 0 || grid[0].len() == 0 {
        DEFAULT_MAP_BLOCK as int
    } else {
        max_int(
            min_int(
                max_int(width - MAP_MARGIN, 0) / (grid[0].len() as int),
                max_int(height - MAP_MARGIN, 0) / (grid.len() as int),
            ),
            SMALLEST_MAP_BLOCK as int,
        )
    }
}

/// Computes the block size of the full map for a maze and a surface.
pub fn calculate_adaptive_block_size(maze: &Maze, framebuffer: &Framebuffer) -> (size: usize)
    ensures
        size == adaptive_block_size(
            maze.deep_view(),
            framebuffer.width as int,
            framebuffer.height as int,
        ),
        SMALLEST_MAP_BLOCK <= size <= u32::MAX,
{
    if maze.len() == 0 {
        return DEFAULT_MAP_BLOCK;
    }
    let columns: usize = maze[0].len();
    if columns == 0 {
        return DEFAULT_MAP_BLOCK;
    }
    let rows: usize = maze.len();
    let wide: u64 = if framebuffer.width as u64 >= MAP_MARGIN as u64 {
        framebuffer.width as u64 - MAP_MARGIN as u64
    } else {
        0
    };
    let tall: u64 = if framebuffer.height as u64 >= MAP_MARGIN as u64 {
        framebuffer.height as u64 - MAP_MARGIN as u64
    } else {
        0
    };
    let by_width: u64 = wide / (columns as u64);
    let by_height: u64 = tall / (rows as u64);
    assert(by_width <= wide && by_height <= tall) by (nonlinear_arith)
        requires
            by_width == wide / (columns as u64),
            by_height == tall / (rows as u64),
            columns >= 1,
            rows >= 1,
            wide >= 0,
            tall >= 0,
    ;
    let fitting: u64 = if by_width < by_height {
        by_width
    } else {
        by_height
    };
    if fitting > SMALLEST_MAP_BLOCK as u64 {
        fitting as usize
    } else {
        SMALLEST_MAP_BLOCK
    }
}

/// A world coordinate on the full map: the world is shrunk from blocks of
/// `block_size` world units to blocks of `scale` pixels and moved by
/// `offset` pixels.
pub open spec fn map_pixel(offset: int, coord: int, scale: int, block_size: int) -> int {
    offset + coord * scale / (block_size * ONE)
}

/// Computes `map_pixel`.
pub fn to_map_pixel(offset: usize, coord: i128, scale: usize, block_size: usize) -> (pixel: i128)
    requires
        block_size > 0,
        scale <= u32::MAX,
        -0x1_0000_0000_0000_0000_0000 <= coord <= 0x1_0000_0000_0000_0000_0000,
    ensures
        pixel == map_pixel(offset as int, coord as int, scale as int, block_size as int),
        -0x1_0000_0000_0000_0000_0000_0000_0000_0000 <= pixel
            <= 0x1_0000_0000_0000_0000_0000_0000_0000_0000,
{
    let side: i128 = cell_side(block_size);
    proof {
        lemma_product_bound(coord as int, scale as int, 0x1_0000_0000_0000_0000_0000, 0x1_0000_0000);
    }
    let scaled: i128 = floor_div(coord * (scale as i128), side);
    assert(-0x1_0000_0000_0000_0000_0000_0000_0000 <= scaled
        <= 0x1_0000_0000_0000_0000_0000_0000_0000) by (nonlinear_arith)
        requires
            scaled == (coord * scale) / (side as int),
            side >= 1,
            -0x1_0000_0000_0000_0000_0000_0000_0000 <= coord * scale
                <= 0x1_0000_0000_0000_0000_0000_0000_0000,
    ;
    (offset as i128) + scaled
}

/// How far the rays of the full map reach.
pub const MAP_RAY_REACH: Fixed = 13107200;

/// The march of a ray of the full map.
pub open spec fn map_march(maze: &Maze, player: &Player, dir: Direction, block_size: usize)
    -> March {
    march_of(maze, player, dir, block_size, MAP_RAY_REACH, ONE)
}

/// Whether `(x, y)` is the pixel of one of the first `count` samples of a
/// march, on a map drawn at `scale` pixels to the block from `(left, top)`.
pub open spec fn on_trace_before(
    march: March,
    left: int,
    top: int,
    scale: int,
    count: int,
    x: int,
    y: int,
) -> bool {
    exists|k: nat|
        k < count && x == #[trigger] map_pixel(left, march.sample_x(k), scale, march.block_size) && y
            == map_pixel(top, march.sample_y(k), scale, march.block_size)
}

/// Whether `(x, y)` is the pixel of a sample of a march that comes before
/// the one at which the march ends.
pub open spec fn on_trace(march: March, left: int, top: int, scale: int, x: int, y: int) -> bool {
    on_trace_before(march, left, top, scale, march.stop_index() as int, x, y)
}

/// Draws a ray on the full map, in the active colour: one pixel for each
/// sample of its march but the one at which it ends.
pub fn draw_scaled_ray(
    framebuffer: &mut Framebuffer,
    maze: &Maze,
    player: &Player,
    dir: Direction,
    block_size: usize,
    scale: usize,
    offset_x: usize,
    offset_y: usize,
)
    requires
        block_size > 0,
        scale <= u32::MAX,
    ensures
        old(framebuffer)@.repainted(final(framebuffer)@),
        final(framebuffer)@.current_color == old(framebuffer)@.current_color,
        forall|cx: int, cy: int|
            old(framebuffer)@.holds(cx, cy) ==> #[trigger] final(framebuffer)@.pixel(cx, cy)
                == if on_trace(
                map_march(maze, player, dir, block_size),
                offset_x as int,
                offset_y as int,
                scale as int,
                cx,
                cy,
            ) {
                old(framebuffer)@.current_color
            } else {
                old(framebuffer)@.pixel(cx, cy)
            },
{
    let ghost march = map_march(maze, player, dir, block_size);
    let ghost before = framebuffer@;
    let color: Color = framebuffer.current_color;
    let side: i128 = cell_side(block_size);
    let step: i128 = ONE as i128;
    let mut d: i128 = 0;
    let mut k: u64 = 0;
    loop
        invariant
            block_size > 0,
            scale <= u32::MAX,
            march == map_march(maze, player, dir, block_size),
            side == block_size * ONE,
            step == ONE,
            d == march.distance_at(k as nat),
            0 <= d <= MAP_RAY_REACH + ONE,
            d == k * ONE,
            forall|j: nat| j < k ==> !march.stops_at(j),
            before == old(framebuffer)@,
            color == before.current_color,
            before.repainted(framebuffer@),
            framebuffer@.current_color == before.current_color,
            forall|cx: int, cy: int|
                before.holds(cx, cy) ==> #[trigger] framebuffer@.pixel(cx, cy)
                    == if on_trace_before(
                    march,
                    offset_x as int,
                    offset_y as int,
                    scale as int,
                    k as int,
                    cx,
                    cy,
                ) {
                    color
                } else {
                    before.pixel(cx, cy)
                },
        decreases MAP_RAY_REACH + ONE - d,
    {
        if d > MAP_RAY_REACH as i128 {
            proof {
                lemma_first_stop_unique(march, k as nat);
            }
            return ;
        }
        let x: i128 = advance_exec(player.pos.x, dir.cos, d);
        let y: i128 = advance_exec(player.pos.y, dir.sin, d);
        let empty: bool = match cell(maze, floor_div(x, side), floor_div(y, side)) {
            Some(kind) => kind == EMPTY,
            None => false,
        };
        if !empty {
            proof {
                lemma_first_stop_unique(march, k as nat);
            }
            return ;
        }
        let px: i128 = to_map_pixel(offset_x, x, scale, block_size);
        let py: i128 = to_map_pixel(offset_y, y, scale, block_size);
        let ghost earlier = framebuffer@;
        let on_surface: bool = 0 <= px && px <= u32::MAX as i128 && 0 <= py && py <= u32::MAX as i128;
        if on_surface {
            framebuffer.paint(px as u32, py as u32, color);
        }
        proof {
            assert(!march.stops_at(k as nat));
            assert((k + 1) * ONE == k * ONE + ONE) by (nonlinear_arith);
            assert forall|cx: int, cy: int| before.holds(cx, cy) implies #[trigger] framebuffer@.pixel(
                cx,
                cy,
            ) == if on_trace_before(
                march,
                offset_x as int,
                offset_y as int,
                scale as int,
                k + 1,
                cx,
                cy,
            ) {
                color
            } else {
                before.pixel(cx, cy)
            } by {
                assert(earlier.holds(cx, cy));
                let was = on_trace_before(
                    march,
                    offset_x as int,
                    offset_y as int,
                    scale as int,
                    k as int,
                    cx,
                    cy,
                );
                let is = on_trace_before(
                    march,
                    offset_x as int,
                    offset_y as int,
                    scale as int,
                    k + 1,
                    cx,
                    cy,
                );
                let here = cx == px && cy == py;
                assert(px == map_pixel(
                    offset_x as int,
                    march.sample_x(k as nat),
                    scale as int,
                    march.block_size,
                ));
                assert(py == map_pixel(
                    offset_y as int,
                    march.sample_y(k as nat),
                    scale as int,
                    march.block_size,
                ));
                if was {
                    let j = choose|j: nat|
                        j < k && cx == #[trigger] map_pixel(
                            offset_x as int,
                            march.sample_x(j),
                            scale as int,
                            march.block_size,
                        ) && cy == map_pixel(
                            offset_y as int,
                            march.sample_y(j),
                            scale as int,
                            march.block_size,
                        );
                    assert(j < k + 1);
                    assert(is);
                }
                if here {
                    assert((k as nat) < k + 1);
                    assert(is);
                }
                if is && !was {
                    let j = choose|j: nat|
                        j < k + 1 && cx == #[trigger] map_pixel(
                            offset_x as int,
                            march.sample_x(j),
                            scale as int,
                            march.block_size,
                        ) && cy == map_pixel(
                            offset_y as int,
                            march.sample_y(j),
                            scale as int,
                            march.block_size,
                        );
                    if j < k {
                        assert(was);
                    }
                    assert(j == k as nat);
                    assert(here);
                }
            }
        }
        d = d + step;
        k = k + 1;
    }
}

/// How large the disc that shows the player on the full map is, in world
/// units, and how small in pixels at least.
pub const PLAYER_MARK: i64 = 8;

/// The smallest the disc that shows the player on the full map gets.
pub const SMALLEST_PLAYER_MARK: i64 = 6;

/// How long the line that shows the heading on the full map is, in world
/// units.
pub const HEADING_MARK: i64 = 30;

/// The left or top edge of the full map: the map is centred on a screen it
/// fits, and starts at the edge of one it does not.
pub open spec fn full_map_edge(cells: int, scale: int, extent: int) -> int {
    max_int(extent - cells * scale, 0) / 2
}

/// A point of the world the length of the heading mark from `coord` along
/// an axis on which the heading has the given component.
pub open spec fn heading_end(coord: Fixed, component: Fixed, scale: int, block_size: int) -> int {
    coord + (HEADING_MARK * ONE * scale / block_size) * unit(component) / (ONE as int)
}

/// What the full map shows over its cells: the player as a red disc, where
/// the player is on the screen, and the heading as a yellow line.
pub open spec fn full_map_marks(
    grid: Seq<Seq<char>>,
    width: int,
    height: int,
    player: Player,
    block_size: int,
    heading: Direction,
) -> Seq<Layer> {
    let scale = adaptive_block_size(grid, width, height);
    let left = full_map_edge(grid[0].len() as int, scale, width);
    let top = full_map_edge(grid.len() as int, scale, height);
    let cx = map_pixel(left, player.pos.x as int, scale, block_size);
    let cy = map_pixel(top, player.pos.y as int, scale, block_size);
    let disc = if 0 <= cx < width && 0 <= cy < height {
        seq![
            Layer::Disc {
                cx: spec_pixel_coord(cx),
                cy: spec_pixel_coord(cy),
                radius: spec_pixel_coord(
                    max_int(PLAYER_MARK * scale / block_size, SMALLEST_PLAYER_MARK as int),
                ),
                color: red(),
            },
        ]
    } else {
        Seq::<Layer>::empty()
    };
    disc + seq![
        Layer::Line {
            x0: spec_pixel_coord(cx),
            y0: spec_pixel_coord(cy),
            x1: spec_pixel_coord(
                map_pixel(
                    left,
                    heading_end(player.pos.x, heading.cos, scale, block_size),
                    scale,
                    block_size,
                ),
            ),
            y1: spec_pixel_coord(
                map_pixel(
                    top,
                    heading_end(player.pos.y, heading.sin, scale, block_size),
                    scale,
                    block_size,
                ),
            ),
            color: yellow(),
        },
    ]
}

/// Whether `(x, y)` lies on the trace of one of the first `count` rays.
pub open spec fn on_some_trace(
    maze: &Maze,
    player: &Player,
    rays: Seq<Direction>,
    block_size: usize,
    left: int,
    top: int,
    scale: int,
    count: int,
    x: int,
    y: int,
) -> bool {
    exists|r: int|
        0 <= r < count && #[trigger] on_trace(
            map_march(maze, player, rays[r], block_size),
            left,
            top,
            scale,
            x,
            y,
        )
}

/// The colour the full map gives the pixel `(x, y)` that showed `under`:
/// the cells, the marks over them, and the rays over all.
pub open spec fn full_map_pixel(
    maze: &Maze,
    width: int,
    height: int,
    player: &Player,
    block_size: usize,
    heading: Direction,
    rays: Seq<Direction>,
    under: Color,
    x: int,
    y: int,
) -> Color {
    let grid = maze.deep_view();
    if grid.len() == 0 || grid[0].len() == 0 {
        under
    } else {
        let scale = adaptive_block_size(grid, width, height);
        let left = full_map_edge(grid[0].len() as int, scale, width);
        let top = full_map_edge(grid.len() as int, scale, height);
        let marks = full_map_marks(grid, width, height, *player, block_size as int, heading);
        if on_some_trace(
            maze,
            player,
            rays,
            block_size,
            left,
            top,
            scale,
            rays.len() as int,
            x,
            y,
        ) {
            whitesmoke()
        } else {
            stacked(
                marks,
                marks.len(),
                overlay(map_paint(grid, MapStyle::Full, left, top, scale, x, y), under),
                x,
                y,
            )
        }
    }
}

/// Computes `full_map_edge`.
fn map_edge(cells: usize, scale: usize, extent: u32) -> (edge: usize)
    ensures
        edge == full_map_edge(cells as int, scale as int, extent as int),
        edge <= u32::MAX,
{
    let span: u128 = area(cells, scale);
    if span >= extent as u128 {
        0
    } else {
        (((extent as u128) - span) / 2) as usize
    }
}

/// Computes `heading_end`.
fn heading_end_of(coord: Fixed, component: Fixed, scale: usize, block_size: usize) -> (end: i128)
    requires
        block_size > 0,
        scale <= u32::MAX,
    ensures
        end == heading_end(coord, component, scale as int, block_size as int),
        -0x1_0000_0000_0000_0000_0000 <= end <= 0x1_0000_0000_0000_0000_0000,
{
    assert(HEADING_MARK == 30 && ONE == 65536);
    let scaled: i128 = 1966080 * (scale as i128);
    assert(HEADING_MARK * ONE * scale == scaled) by (nonlinear_arith)
        requires
            scaled == 1966080 * scale,
            HEADING_MARK == 30,
            ONE == 65536,
    ;
    let length: i128 = scaled / (block_size as i128);
    assert(0 <= length <= scaled) by (nonlinear_arith)
        requires
            length == (scaled as int) / (block_size as int),
            block_size >= 1,
            scaled >= 0,
    ;
    let u: Fixed = unit_of(component);
    proof {
        lemma_product_bound(length as int, u as int, 0x1_0000_0000_0000_0000, 65536);
    }
    let offset: i128 = floor_div(length * (u as i128), ONE as i128);
    (coord as i128) + offset
}

/// Computes `full_map_marks` for a maze that has a cell.
fn full_map_marks_of(
    maze: &Maze,
    framebuffer: &Framebuffer,
    player: &Player,
    block_size: usize,
    heading: Direction,
) -> (marks: Vec<Layer>)
    requires
        block_size > 0,
        maze@.len() > 0,
        maze@[0]@.len() > 0,
    ensures
        marks@ == full_map_marks(
            maze.deep_view(),
            framebuffer.width as int,
            framebuffer.height as int,
            *player,
            block_size as int,
            heading,
        ),
{
    let scale: usize = calculate_adaptive_block_size(maze, framebuffer);
    let left: usize = map_edge(maze[0].len(), scale, framebuffer.width);
    let top: usize = map_edge(maze.len(), scale, framebuffer.height);
    let cx: i128 = to_map_pixel(left, player.pos.x as i128, scale, block_size);
    let cy: i128 = to_map_pixel(top, player.pos.y as i128, scale, block_size);
    let mut marks: Vec<Layer> = Vec::new();
    if 0 <= cx && cx < framebuffer.width as i128 && 0 <= cy && cy < framebuffer.height as i128 {
        assert(PLAYER_MARK == 8 && SMALLEST_PLAYER_MARK == 6);
        let grown: i128 = 8 * (scale as i128) / (block_size as i128);
        let radius: i128 = if grown > 6 {
            grown
        } else {
            6
        };
        marks.push(
            Layer::Disc {
                cx: pixel_coord(cx),
                cy: pixel_coord(cy),
                radius: pixel_coord(radius),
                color: red(),
            },
        );
    }
    let end_x: i128 = heading_end_of(player.pos.x, heading.cos, scale, block_size);
    let end_y: i128 = heading_end_of(player.pos.y, heading.sin, scale, block_size);
    marks.push(
        Layer::Line {
            x0: pixel_coord(cx),
            y0: pixel_coord(cy),
            x1: pixel_coord(to_map_pixel(left, end_x, scale, block_size)),
            y1: pixel_coord(to_map_pixel(top, end_y, scale, block_size)),
            color: yellow(),
        },
    );
    assert(marks@ =~= full_map_marks(
        maze.deep_view(),
        framebuffer.width as int,
        framebuffer.height as int,
        *player,
        block_size as int,
        heading,
    ));
    marks
}

/// Draws the rays of the full map in the active colour.
fn draw_scaled_rays(
    framebuffer: &mut Framebuffer,
    maze: &Maze,
    player: &Player,
    rays: &Vec<Direction>,
    block_size: usize,
    scale: usize,
    left: usize,
    top: usize,
)
    requires
        block_size > 0,
        scale <= u32::MAX,
    ensures
        old(framebuffer)@.repainted(final(framebuffer)@),
        final(framebuffer)@.current_color == old(framebuffer)@.current_color,
        forall|x: int, y: int|
            old(framebuffer)@.holds(x, y) ==> #[trigger] final(framebuffer)@.pixel(x, y)
                == if on_some_trace(
                maze,
                player,
                rays@,
                block_size,
                left as int,
                top as int,
                scale as int,
                rays@.len() as int,
                x,
                y,
            ) {
                old(framebuffer)@.current_color
            } else {
                old(framebuffer)@.pixel(x, y)
            },
{
    let ghost before = framebuffer@;
    let mut r: usize = 0;
    while r < rays.len()
        invariant
            r <= rays@.len(),
            block_size > 0,
            scale <= u32::MAX,
            before.repainted(framebuffer@),
            framebuffer@.current_color == before.current_color,
            forall|x: int, y: int|
                before.holds(x, y) ==> #[trigger] framebuffer@.pixel(x, y) == if on_some_trace(
                    maze,
                    player,
                    rays@,
                    block_size,
                    left as int,
                    top as int,
                    scale as int,
                    r as int,
                    x,
                    y,
                ) {
                    before.current_color
                } else {
                    before.pixel(x, y)
                },
        decreases rays@.len() - r,
    {
        let ghost earlier = framebuffer@;
        draw_scaled_ray(framebuffer, maze, player, rays[r], block_size, scale, left, top);
        proof {
            assert forall|x: int, y: int| before.holds(x, y) implies #[trigger] framebuffer@.pixel(
                x,
                y,
            ) == if on_some_trace(
                maze,
                player,
                rays@,
                block_size,
                left as int,
                top as int,
                scale as int,
                r + 1,
                x,
                y,
            ) {
                before.current_color
            } else {
                before.pixel(x, y)
            } by {
                assert(earlier.holds(x, y));
                let was = on_some_trace(
                    maze,
                    player,
                    rays@,
                    block_size,
                    left as int,
                    top as int,
                    scale as int,
                    r as int,
                    x,
                    y,
                );
                let is = on_some_trace(
                    maze,
                    player,
                    rays@,
                    block_size,
                    left as int,
                    top as int,
                    scale as int,
                    r + 1,
                    x,
                    y,
                );
                let here = on_trace(
                    map_march(maze, player, rays@[r as int], block_size),
                    left as int,
                    top as int,
                    scale as int,
                    x,
                    y,
                );
                if was {
                    let q = choose|q: int|
                        0 <= q < r && #[trigger] on_trace(
                            map_march(maze, player, rays@[q], block_size),
                            left as int,
                            top as int,
                            scale as int,
                            x,
                            y,
                        );
                    assert(0 <= q < r + 1);
                }
                if is && !was {
                    let q = choose|q: int|
                        0 <= q < r + 1 && #[trigger] on_trace(
                            map_march(maze, player, rays@[q], block_size),
                            left as int,
                            top as int,
                            scale as int,
                            x,
                            y,
                        );
                    if q < r {
                        assert(was);
                    }
                }
            }
        }
        r = r + 1;
    }
}

/// Draws the full map: the maze from above, as large as fits the screen,
/// with the player, where the player looks, and the rays given.  `heading`
/// is the direction of the player's heading.
pub fn render_maze(
    framebuffer: &mut Framebuffer,
    maze: &Maze,
    block_size: usize,
    player: &Player,
    heading: Direction,
    rays: &Vec<Direction>,
)
    requires
        block_size > 0,
    ensures
        old(framebuffer)@.repainted(final(framebuffer)@),
        forall|x: int, y: int|
            old(framebuffer)@.holds(x, y) ==> #[trigger] final(framebuffer)@.pixel(x, y)
                == full_map_pixel(
                maze,
                old(framebuffer)@.width as int,
                old(framebuffer)@.height as int,
                player,
                block_size,
                heading,
                rays@,
                old(framebuffer)@.pixel(x, y),
                x,
                y,
            ),
{
    if maze.len() == 0 {
        return ;
    }
    if maze[0].len() == 0 {
        return ;
    }
    let ghost before = framebuffer@;
    let scale: usize = calculate_adaptive_block_size(maze, framebuffer);
    let left: usize = map_edge(maze[0].len(), scale, framebuffer.width);
    let top: usize = map_edge(maze.len(), scale, framebuffer.height);
    let marks: Vec<Layer> = full_map_marks_of(maze, framebuffer, player, block_size, heading);
    draw_map(framebuffer, maze, MapStyle::Full, left, top, scale);
    let ghost mapped = framebuffer@;
    draw_layers(framebuffer, &marks);
    let ghost marked = framebuffer@;
    framebuffer.set_current_color(whitesmoke());
    draw_scaled_rays(framebuffer, maze, player, rays, block_size, scale, left, top);
    proof {
        assert forall|x: int, y: int| before.holds(x, y) implies #[trigger] framebuffer@.pixel(x, y)
            == full_map_pixel(
            maze,
            before.width as int,
            before.height as int,
            player,
            block_size,
            heading,
            rays@,
            before.pixel(x, y),
            x,
            y,
        ) by {
            assert(mapped.holds(x, y));
            assert(marked.holds(x, y));
            assert(marked.with_current_color(whitesmoke()).holds(x, y));
            assert(marked.with_current_color(whitesmoke()).pixel(x, y) == marked.pixel(x, y));
        }
    }
}
} // verus!
