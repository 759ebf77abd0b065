//! Maps of the maze: its cells as squares of pixels.

use vstd::prelude::*;
use crate::color::Color;
use crate::color::gray;
use crate::color::green;
use crate::color::white;
use crate::fixed::Fixed;
use crate::fixed::ONE;
use crate::fixed::clamp_int;
use crate::framebuffer::Framebuffer;
use crate::framebuffer::in_rect;
use crate::framebuffer::overlay;
use crate::maze::Maze;
use crate::maze::EMPTY;
use crate::maze::GOAL;
use crate::maze::cell_at;
use crate::maze::is_wall;
use crate::maze::wall_kind;
use crate::text::block_of;
use crate::text::lemma_block_of;
use crate::world::cell_to_color;

verus! {

/// How the cells of a map are coloured.
#[derive(Clone, Copy, Debug, PartialEq, Eq, Structural)]
pub enum MapStyle {
    /// Every cell in the flat colour of its kind.
    Full,
    /// Walls in white, the goal in green, anything else that is not empty
    /// in grey, and empty cells not at all.
    Small,
}

/// The colour of a cell of a map, if it is drawn.
pub open spec fn spec_tile_color(style: MapStyle, kind: char) -> Option<Color> {
    match style {
        MapStyle::Full => Some(cell_to_color(kind)),
        MapStyle::Small => if kind == EMPTY {
            None
        } else if is_wall(kind) {
            Some(white())
        } else if kind == GOAL {
            Some(green())
        } else {
            Some(gray())
        },
    }
}

/// The colour of a cell of a map, if it is drawn.
#[verifier::when_used_as_spec(spec_tile_color)]
pub fn tile_color(style: MapStyle, kind: char) -> (color: Option<Color>)
    ensures
        color == spec_tile_color(style, kind),
{
    match style {
        MapStyle::Full => Some(cell_to_color(kind)),
        MapStyle::Small => if kind == EMPTY {
            None
        } else if wall_kind(kind) {
            Some(white())
        } else if kind == GOAL {
            Some(green())
        } else {
            Some(gray())
        },
    }
}

/// What a map paints at `(x, y)`: the colour of the cell that holds the
/// pixel, where cells are squares `scale` pixels wide and the first has its
/// top left corner at `(left, top)`.
pub open spec fn map_paint(
    grid: Seq<Seq<char>>,
    style: MapStyle,
    left: int,
    top: int,
    scale: int,
    x: int,
    y: int,
) -> Option<Color> {
    if scale > 0 && x >= left && y >= top {
        match cell_at(grid, block_of(left, scale, x), block_of(top, scale, y)) {
            Some(kind) => tile_color(style, kind),
            None => None,
        }
    } else {
        None
    }
}

/// Paints the square of a cell in the flat colour of its kind, which
/// becomes the active colour: `block_size` pixels wide, with its top left
/// corner at `(xo, yo)`.
pub fn draw_cell(framebuffer: &mut Framebuffer, xo: usize, yo: usize, block_size: usize, kind: char)
    ensures
        old(framebuffer)@.repainted(final(framebuffer)@),
        final(framebuffer)@.current_color == cell_to_color(kind),
        forall|cx: int, cy: int|
            old(framebuffer)@.holds(cx, cy) ==> #[trigger] final(framebuffer)@.pixel(cx, cy)
                == if in_rect(xo as int, yo as int, block_size as int, block_size as int, cx, cy) {
                cell_to_color(kind)
            } else {
                old(framebuffer)@.pixel(cx, cy)
            },
{
    framebuffer.set_current_color(cell_to_color(kind));
    fill_square(framebuffer, xo, yo, block_size);
}

/// Paints, in the active colour, the square `size` pixels wide with its
/// top left corner at `(left, top)`.
fn fill_square(framebuffer: &mut Framebuffer, left: usize, top: usize, size: usize)
    ensures
        old(framebuffer)@.repainted(final(framebuffer)@),
        final(framebuffer)@.current_color == old(framebuffer)@.current_color,
        forall|cx: int, cy: int|
            old(framebuffer)@.holds(cx, cy) ==> #[trigger] final(framebuffer)@.pixel(cx, cy)
                == if in_rect(left as int, top as int, size as int, size as int, cx, cy) {
                old(framebuffer)@.current_color
            } else {
                old(framebuffer)@.pixel(cx, cy)
            },
{
    if left <= u32::MAX as usize && top <= u32::MAX as usize {
        let side: u32 = if size <= u32::MAX as usize {
            size as u32
        } else {
            u32::MAX
        };
        framebuffer.fill_rect(left as u32, top as u32, side, side);
    }
}

/// The pixel at which the cell with a given index starts, if that is a
/// pixel a surface can hold.
fn cell_start(origin: usize, index: usize, scale: usize) -> (start: Option<u32>)
    ensures
        match start {
            Some(pixel) => pixel == origin + index * scale,
            None => origin + index * scale > u32::MAX,
        },
{
    assert(index * scale <= 0xffff_ffff_ffff_ffff * 0xffff_ffff_ffff_ffff) by (nonlinear_arith)
        requires
            0 <= index <= 0xffff_ffff_ffff_ffff,
            0 <= scale <= 0xffff_ffff_ffff_ffff,
    ;
    let start: u128 = (origin as u128) + (index as u128) * (scale as u128);
    if start <= u32::MAX as u128 {
        Some(start as u32)
    } else {
        None
    }
}

/// Draws one row of the cells of a map.
fn draw_map_row(
    framebuffer: &mut Framebuffer,
    maze: &Maze,
    style: MapStyle,
    left: usize,
    top: usize,
    scale: usize,
    row: usize,
)
    requires
        scale > 0,
        row < maze@.len(),
    ensures
        old(framebuffer)@.repainted(final(framebuffer)@),
        forall|cx: int, cy: int|
            old(framebuffer)@.holds(cx, cy) ==> #[trigger] final(framebuffer)@.pixel(cx, cy)
                == if cy >= top && block_of(top as int, scale as int, cy) == row {
                overlay(
                    map_paint(
                        maze.deep_view(),
                        style,
                        left as int,
                        top as int,
                        scale as int,
                        cx,
                        cy,
                    ),
                    old(framebuffer)@.pixel(cx, cy),
                )
            } else {
                old(framebuffer)@.pixel(cx, cy)
            },
{
    let ghost grid = maze.deep_view();
    let ghost before = framebuffer@;
    let side: u32 = if scale <= u32::MAX as usize {
        scale as u32
    } else {
        u32::MAX
    };
    let y: Option<u32> = cell_start(top, row, scale);
    let count: usize = maze[row].len();
    let mut col: usize = 0;
    while col < count
        invariant
            col <= count,
            scale > 0,
            row < maze@.len(),
            count == grid[row as int].len(),
            grid == maze.deep_view(),
            side == scale || (side == u32::MAX && scale > u32::MAX),
            match y {
                Some(pixel) => pixel == top + row * scale,
                None => top + row * scale > u32::MAX,
            },
            before.repainted(framebuffer@),
            forall|cx: int, cy: int|
                before.holds(cx, cy) ==> #[trigger] framebuffer@.pixel(cx, cy) == if cy >= top
                    && block_of(top as int, scale as int, cy) == row && block_of(
                    left as int,
                    scale as int,
                    cx,
                ) < col {
                    overlay(
                        map_paint(grid, style, left as int, top as int, scale as int, cx, cy),
                        before.pixel(cx, cy),
                    )
                } else {
                    before.pixel(cx, cy)
                },
        decreases count - col,
    {
        let kind: char = maze[row][col];
        let x: Option<u32> = cell_start(left, col, scale);
        let ghost earlier = framebuffer@;
        let ghost mut painted = false;
        match (tile_color(style, kind), x, y) {
            (Some(color), Some(px), Some(py)) => {
                framebuffer.set_current_color(color);
                framebuffer.fill_rect(px, py, side, side);
                proof {
                    painted = true;
                }
            },
            _ => {},
        }
        proof {
            assert forall|cx: int, cy: int| before.holds(cx, cy) implies #[trigger] framebuffer@.pixel(
                cx,
                cy,
            ) == if cy >= top && block_of(top as int, scale as int, cy) == row && block_of(
                left as int,
                scale as int,
                cx,
            ) < col + 1 {
                overlay(
                    map_paint(grid, style, left as int, top as int, scale as int, cx, cy),
                    before.pixel(cx, cy),
                )
            } else {
                before.pixel(cx, cy)
            } by {
                assert(earlier.holds(cx, cy));
                assert(earlier.pixel(cx, cy) == if cy >= top && block_of(
                    top as int,
                    scale as int,
                    cy,
                ) == row && block_of(left as int, scale as int, cx) < col {
                    overlay(
                        map_paint(grid, style, left as int, top as int, scale as int, cx, cy),
                        before.pixel(cx, cy),
                    )
                } else {
                    before.pixel(cx, cy)
                });
                assert(earlier.with_current_color(framebuffer@.current_color).pixel(cx, cy)
                    == earlier.pixel(cx, cy));
                lemma_block_of(left as int, scale as int, col as int, cx);
                lemma_block_of(top as int, scale as int, row as int, cy);
                assert(col * scale >= 0 && row * scale >= 0) by (nonlinear_arith)
                    requires
                        col >= 0,
                        row >= 0,
                        scale > 0,
                ;
                let in_column = block_of(left as int, scale as int, cx) == col;
                let in_row = block_of(top as int, scale as int, cy) == row;
                let here = in_column && in_row;
                assert(here <==> (left + col * scale <= cx < left + col * scale + scale && top + row
                    * scale <= cy < top + row * scale + scale));
                if here {
                    assert(cx >= left && cy >= top);
                    assert(x is Some && y is Some);
                    assert(cell_at(grid, col as int, row as int) == Some(kind));
                    assert(map_paint(grid, style, left as int, top as int, scale as int, cx, cy)
                        == tile_color(style, kind));
                    assert(in_rect(
                        x.unwrap() as int,
                        y.unwrap() as int,
                        side as int,
                        side as int,
                        cx,
                        cy,
                    ));
                } else if painted {
                    assert(!in_rect(
                        x.unwrap() as int,
                        y.unwrap() as int,
                        side as int,
                        side as int,
                        cx,
                        cy,
                    ));
                }
            }
        }
        col = col + 1;
    }
    proof {
        assert forall|cx: int, cy: int| before.holds(cx, cy) implies #[trigger] framebuffer@.pixel(
            cx,
            cy,
        ) == if cy >= top && block_of(top as int, scale as int, cy) == row {
            overlay(
                map_paint(grid, style, left as int, top as int, scale as int, cx, cy),
                before.pixel(cx, cy),
            )
        } else {
            before.pixel(cx, cy)
        } by {
            if cy >= top && block_of(top as int, scale as int, cy) == row && block_of(
                left as int,
                scale as int,
                cx,
            ) >= count {
                assert(map_paint(grid, style, left as int, top as int, scale as int, cx, cy)
                    is None);
            }
        }
    }
}

/// Draws the cells of a maze as squares `scale` pixels wide, the first
/// with its top left corner at `(left, top)`.
pub fn draw_map(
    framebuffer: &mut Framebuffer,
    maze: &Maze,
    style: MapStyle,
    left: usize,
    top: usize,
    scale: usize,
)
    ensures
        old(framebuffer)@.repainted(final(framebuffer)@),
        forall|cx: int, cy: int|
            old(framebuffer)@.holds(cx, cy) ==> #[trigger] final(framebuffer)@.pixel(cx, cy)
                == overlay(
                map_paint(maze.deep_view(), style, left as int, top as int, scale as int, cx, cy),
                old(framebuffer)@.pixel(cx, cy),
            ),
{
    if scale == 0 {
        return ;
    }
    let ghost grid = maze.deep_view();
    let ghost before = framebuffer@;
    let mut row: usize = 0;
    while row < maze.len()
        invariant
            row <= maze@.len(),
            scale > 0,
            grid == maze.deep_view(),
            before.repainted(framebuffer@),
            forall|cx: int, cy: int|
                before.holds(cx, cy) ==> #[trigger] framebuffer@.pixel(cx, cy) == if cy >= top
                    && block_of(top as int, scale as int, cy) < row {
                    overlay(
                        map_paint(grid, style, left as int, top as int, scale as int, cx, cy),
                        before.pixel(cx, cy),
                    )
                } else {
                    before.pixel(cx, cy)
                },
        decreases maze@.len() - row,
    {
        draw_map_row(framebuffer, maze, style, left, top, scale, row);
        row = row + 1;
    }
    proof {
        assert forall|cx: int, cy: int| before.holds(cx, cy) implies #[trigger] framebuffer@.pixel(
            cx,
            cy,
        ) == overlay(
            map_paint(grid, style, left as int, top as int, scale as int, cx, cy),
            before.pixel(cx, cy),
        ) by {
            if !(cy >= top && block_of(top as int, scale as int, cy) < maze@.len()) {
                assert(map_paint(grid, style, left as int, top as int, scale as int, cx, cy)
                    is None);
            }
        }
    }
}

/// A pixel coordinate forced into what a layer can hold.
pub open spec fn spec_pixel_coord(v: int) -> i32 {
    clamp_int(v, i32::MIN as int, i32::MAX as int) as i32
}

/// A pixel coordinate forced into what a layer can hold.
pub fn pixel_coord(v: i128) -> (p: i32)
    ensures
        p == spec_pixel_coord(v as int),
{
    if v < i32::MIN as i128 {
        i32::MIN
    } else if v > i32::MAX as i128 {
        i32::MAX
    } else {
        v as i32
    }
}

/// A pixel count forced into what a surface can hold.
pub open spec fn spec_pixel_count(v: int) -> u32 {
    clamp_int(v, 0, u32::MAX as int) as u32
}

/// A pixel count forced into what a surface can hold.
pub fn pixel_count(v: u128) -> (p: u32)
    ensures
        p == spec_pixel_count(v as int),
{
    if v > u32::MAX as u128 {
        u32::MAX
    } else {
        v as u32
    }
}

/// A component of a direction, taken as no more than one in size.
pub open spec fn unit(component: Fixed) -> int {
    clamp_int(component as int, -ONE, ONE as int)
}

/// Computes `unit`.
pub fn unit_of(component: Fixed) -> (u: Fixed)
    ensures
        u == unit(component),
        -ONE <= u <= ONE,
{
    if component < -ONE {
        -ONE
    } else if component > ONE {
        ONE
    } else {
        component
    }
}

/// The product of two sizes, without overflow.
pub fn area(a: usize, b: usize) -> (product: u128)
    ensures
        product == a * b,
{
    assert(a * b <= 0xffff_ffff_ffff_ffff * 0xffff_ffff_ffff_ffff) by (nonlinear_arith)
        requires
            0 <= a <= 0xffff_ffff_ffff_ffff,
            0 <= b <= 0xffff_ffff_ffff_ffff,
    ;
    (a as u128) * (b as u128)
}
} // verus!
