//! The small map in the corner of the three-dimensional view.

use vstd::prelude::*;
use crate::canvas::Layer;
use crate::canvas::draw_layer;
use crate::canvas::draw_layers;
use crate::canvas::stacked;
use crate::caster::Direction;
use crate::caster::cell_index;
use crate::caster::cell_side;
use crate::color::Color;
use crate::color::red;
use crate::color::veil;
use crate::color::white;
use crate::color::yellow;
use crate::fixed::Fixed;
use crate::fixed::ONE;
use crate::fixed::floor_div;
use crate::fixed::lemma_product_bound;
use crate::fixed::max_int;
use crate::fixed::min_int;
use crate::framebuffer::Framebuffer;
use crate::framebuffer::in_rect;
use crate::framebuffer::overlay;
use crate::maze::Maze;
use crate::player::Player;
use crate::tiles::MapStyle;
use crate::tiles::area;
use crate::tiles::draw_map;
use crate::tiles::map_paint;
use crate::tiles::pixel_coord;
use crate::tiles::pixel_count;
use crate::tiles::spec_pixel_coord;
use crate::tiles::spec_pixel_count;
use crate::tiles::unit;
use crate::tiles::unit_of;

verus! {

/// The widest the small map gets, in pixels.
pub const MINIMAP_WIDTH: usize = 250;

/// The tallest the small map gets, in pixels.
pub const MINIMAP_HEIGHT: usize = 200;

/// The smallest cell of the small map, in pixels.
pub const MINIMAP_SMALLEST_CELL: usize = 4;

/// How far the small map keeps from the edges of the screen.
pub const MINIMAP_MARGIN: u32 = 10;

/// How long the line that shows the heading on the small map is.
pub const MINIMAP_HEADING: i64 = 15;

/// The width of a cell of the small map of a maze that has a cell: what
/// fits the map, but at least the smallest cell.
pub open spec fn minimap_scale(grid: Seq<Seq<char>>) -> int {
    max_int(
        min_int(
            MINIMAP_WIDTH as int / (grid[0].len() as int),
            MINIMAP_HEIGHT as int / (grid.len() as int),
        ),
        MINIMAP_SMALLEST_CELL as int,
    )
}

/// The left edge of the small map on a surface `width` pixels wide: the
/// map keeps its margin from the right edge of the surface, as far as it
/// fits.
pub open spec fn minimap_left(grid: Seq<Seq<char>>, width: int) -> int {
    max_int(
        width - spec_pixel_count(grid[0].len() * minimap_scale(grid)) - MINIMAP_MARGIN,
        0,
    )
}

/// The pixel of the small map that the player stands on, along one axis:
/// the middle of the cell the player is in, or of the first cell where the
/// player is before it.
pub open spec fn minimap_player(origin: int, coord: Fixed, scale: int, block_size: int)
    -> i32 {
    spec_pixel_coord(
        origin + max_int(cell_index(coord as int, block_size), 0) * scale + scale / 2,
    )
}

/// What the small map shows over its cells: the player as a red disc, the
/// heading as a yellow line, and a white border.
pub open spec fn minimap_marks(
    grid: Seq<Seq<char>>,
    width: int,
    player: Player,
    block_size: int,
    heading: Direction,
) -> Seq<Layer> {
    let scale = minimap_scale(grid);
    let left = minimap_left(grid, width) as u32;
    let top = MINIMAP_MARGIN;
    let wide = spec_pixel_count(grid[0].len() * scale);
    let tall = spec_pixel_count(grid.len() * scale);
    let px = minimap_player(left as int, player.pos.x, scale, block_size);
    let py = minimap_player(top as int, player.pos.y, scale, block_size);
    seq![
        Layer::Disc { cx: px, cy: py, radius: max_int(scale / 3, 2) as i32, color: red() },
        Layer::Line {
            x0: px,
            y0: py,
            x1: spec_pixel_coord(px + MINIMAP_HEADING * unit(heading.cos) / (ONE as int)),
            y1: spec_pixel_coord(py + MINIMAP_HEADING * unit(heading.sin) / (ONE as int)),
            color: yellow(),
        },
        Layer::Rect { left, top, width: wide, height: 1, color: white() },
        Layer::Rect {
            left,
            top: spec_pixel_count(top + tall - 1),
            width: wide,
            height: 1,
            color: white(),
        },
        Layer::Rect { left, top, width: 1, height: tall, color: white() },
        Layer::Rect {
            left: spec_pixel_count(left + wide - 1),
            top,
            width: 1,
            height: tall,
            color: white(),
        },
    ]
}

/// The colour the small map gives the pixel `(x, y)` that showed `under`:
/// a veil over the place of the map, the cells that are not empty, and the
/// marks.
pub open spec fn minimap_pixel(
    grid: Seq<Seq<char>>,
    width: int,
    player: Player,
    block_size: int,
    heading: Direction,
    under: Color,
    x: int,
    y: int,
) -> Color {
    if grid.len() == 0 || grid[0].len() == 0 {
        under
    } else {
        let scale = minimap_scale(grid);
        let left = minimap_left(grid, width);
        let top = MINIMAP_MARGIN as int;
        let wide = spec_pixel_count(grid[0].len() * scale) as int;
        let tall = spec_pixel_count(grid.len() * scale) as int;
        let veiled = if in_rect(left, top, wide, tall, x, y) {
            veil()
        } else {
            under
        };
        stacked(
            minimap_marks(grid, width, player, block_size, heading),
            6,
            overlay(map_paint(grid, MapStyle::Small, left, top, scale, x, y), veiled),
            x,
            y,
        )
    }
}

/// Where the small map lies and how large its cells are.
pub struct MinimapLayout {
    pub scale: usize,
    pub left: u32,
    pub wide: u32,
    pub tall: u32,
}

/// Computes the layout of the small map of a maze that has a cell.
fn minimap_layout(maze: &Maze, width: u32) -> (layout: MinimapLayout)
    requires
        maze@.len() > 0,
        maze@[0]@.len() > 0,
    ensures
        layout.scale == minimap_scale(maze.deep_view()),
        MINIMAP_SMALLEST_CELL <= layout.scale <= MINIMAP_WIDTH,
        layout.left == minimap_left(maze.deep_view(), width as int),
        layout.wide == spec_pixel_count(maze.deep_view()[0].len() * layout.scale),
        layout.tall == spec_pixel_count(maze.deep_view().len() * layout.scale),
{
    let columns: usize = maze[0].len();
    let rows: usize = maze.len();
    let by_width: usize = MINIMAP_WIDTH / columns;
    let by_height: usize = MINIMAP_HEIGHT / rows;
    assert(by_width <= MINIMAP_WIDTH && by_height <= MINIMAP_HEIGHT) by (nonlinear_arith)
        requires
            by_width == MINIMAP_WIDTH / columns,
            by_height == MINIMAP_HEIGHT / rows,
            columns >= 1,
            rows >= 1,
    ;
    let fitting: usize = if by_width < by_height {
        by_width
    } else {
        by_height
    };
    let scale: usize = if fitting > MINIMAP_SMALLEST_CELL {
        fitting
    } else {
        MINIMAP_SMALLEST_CELL
    };
    let wide: u32 = pixel_count(area(columns, scale));
    let tall: u32 = pixel_count(area(rows, scale));
    let room: i128 = (width as i128) - (wide as i128) - (MINIMAP_MARGIN as i128);
    let left: u32 = if room > 0 {
        room as u32
    } else {
        0
    };
    MinimapLayout { scale, left, wide, tall }
}

/// Computes `minimap_player`.
fn minimap_player_of(origin: u32, coord: Fixed, scale: usize, block_size: usize) -> (pixel: i32)
    requires
        block_size > 0,
        scale <= MINIMAP_WIDTH,
    ensures
        pixel == minimap_player(origin as int, coord, scale as int, block_size as int),
{
    let side: i128 = cell_side(block_size);
    let index: i128 = floor_div(coord as i128, side);
    let index: i128 = if index < 0 {
        0
    } else {
        index
    };
    assert(0 <= index <= 0x8000_0000_0000_0000) by (nonlinear_arith)
        requires
            side >= 65536,
            index == max_int((coord as int) / (side as int), 0),
            -0x8000_0000_0000_0000 <= coord <= 0x7fff_ffff_ffff_ffff,
    ;
    proof {
        lemma_product_bound(index as int, scale as int, 0x8000_0000_0000_0000, 250);
    }
    pixel_coord((origin as i128) + index * (scale as i128) + (scale as i128) / 2)
}

/// How far along an axis the line that shows the heading runs.
fn heading_reach(component: Fixed) -> (reach: i128)
    ensures
        reach == MINIMAP_HEADING * unit(component) / (ONE as int),
        -16 <= reach <= 16,
{
    let u: Fixed = unit_of(component);
    assert(MINIMAP_HEADING == 15);
    let reach: i128 = floor_div(15 * (u as i128), ONE as i128);
    reach
}

/// Computes `minimap_marks` for a maze that has a cell.
fn minimap_marks_of(
    maze: &Maze,
    width: u32,
    player: &Player,
    block_size: usize,
    heading: Direction,
) -> (marks: Vec<Layer>)
    requires
        block_size > 0,
        maze@.len() > 0,
        maze@[0]@.len() > 0,
    ensures
        marks@ == minimap_marks(
            maze.deep_view(),
            width as int,
            *player,
            block_size as int,
            heading,
        ),
        marks@.len() == 6,
{
    let layout: MinimapLayout = minimap_layout(maze, width);
    let left: u32 = layout.left;
    let top: u32 = MINIMAP_MARGIN;
    let wide: u32 = layout.wide;
    let tall: u32 = layout.tall;
    let px: i32 = minimap_player_of(left, player.pos.x, layout.scale, block_size);
    let py: i32 = minimap_player_of(top, player.pos.y, layout.scale, block_size);
    let third: usize = layout.scale / 3;
    let radius: i32 = if third > 2 {
        third as i32
    } else {
        2
    };
    let x1: i32 = pixel_coord((px as i128) + heading_reach(heading.cos));
    let y1: i32 = pixel_coord((py as i128) + heading_reach(heading.sin));
    let bottom: u32 = pixel_count(((top as u64) + (tall as u64) - 1) as u128);
    let right: u32 = if (left as u64) + (wide as u64) >= 1 {
        pixel_count(((left as u64) + (wide as u64) - 1) as u128)
    } else {
        0
    };
    let mut marks: Vec<Layer> = Vec::new();
    marks.push(Layer::Disc { cx: px, cy: py, radius, color: red() });
    marks.push(Layer::Line { x0: px, y0: py, x1, y1, color: yellow() });
    marks.push(Layer::Rect { left, top, width: wide, height: 1, color: white() });
    marks.push(Layer::Rect { left, top: bottom, width: wide, height: 1, color: white() });
    marks.push(Layer::Rect { left, top, width: 1, height: tall, color: white() });
    marks.push(Layer::Rect { left: right, top, width: 1, height: tall, color: white() });
    assert(marks@ =~= minimap_marks(
        maze.deep_view(),
        width as int,
        *player,
        block_size as int,
        heading,
    ));
    marks
}

/// Draws the small map into the top right corner of the surface: the maze
/// from above, the player and where the player looks.  `heading` is the
/// direction of the player's heading.
pub fn draw_minimap(
    framebuffer: &mut Framebuffer,
    maze: &Maze,
    player: &Player,
    block_size: usize,
    heading: Direction,
)
    requires
        block_size > 0,
    ensures
        old(framebuffer)@.repainted(final(framebuffer)@),
        forall|x: int, y: int|
            old(framebuffer)@.holds(x, y) ==> #[trigger] final(framebuffer)@.pixel(x, y)
                == minimap_pixel(
                maze.deep_view(),
                old(framebuffer)@.width as int,
                *player,
                block_size as int,
                heading,
                old(framebuffer)@.pixel(x, y),
                x,
                y,
            ),
{
    if maze.len() == 0 {
        return ;
    }
    if maze[0].len() == 0 {
        return ;
    }
    let ghost grid = maze.deep_view();
    let ghost before = framebuffer@;
    let layout: MinimapLayout = minimap_layout(maze, framebuffer.width);
    let marks: Vec<Layer> = minimap_marks_of(maze, framebuffer.width, player, block_size, heading);
    draw_layer(
        framebuffer,
        &Layer::Rect {
            left: layout.left,
            top: MINIMAP_MARGIN,
            width: layout.wide,
            height: layout.tall,
            color: veil(),
        },
    );
    let ghost veiled = framebuffer@;
    draw_map(
        framebuffer,
        maze,
        MapStyle::Small,
        layout.left as usize,
        MINIMAP_MARGIN as usize,
        layout.scale,
    );
    let ghost mapped = framebuffer@;
    draw_layers(framebuffer, &marks);
    proof {
        assert forall|x: int, y: int| before.holds(x, y) implies #[trigger] framebuffer@.pixel(x, y)
            == minimap_pixel(
            grid,
            before.width as int,
            *player,
            block_size as int,
            heading,
            before.pixel(x, y),
            x,
            y,
        ) by {
            assert(veiled.holds(x, y));
            assert(mapped.holds(x, y));
            assert(mapped.pixel(x, y) == overlay(
                map_paint(
                    grid,
                    MapStyle::Small,
                    layout.left as int,
                    MINIMAP_MARGIN as int,
                    layout.scale as int,
                    x,
                    y,
                ),
                veiled.pixel(x, y),
            ));
        }
    }
}
} // verus!
