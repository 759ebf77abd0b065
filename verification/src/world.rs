//! The column projector: one ray per screen column, each turned into a
//! vertical slab of wall standing on a floor.

use vstd::prelude::*;
use crate::caster::Direction;
use crate::caster::Hit;
use crate::caster::Intersect;
use crate::caster::March;
use crate::caster::cast_ray;
use crate::caster::march_of;
use crate::color::Color;
use crate::color::rgba;
use crate::color::black;
use crate::color::white;
use crate::color::blue;
use crate::color::green;
use crate::fixed::Fixed;
use crate::fixed::ONE;
use crate::fixed::HALF;
use crate::fixed::clamp_int;
use crate::fixed::max_int;
use crate::fixed::floor_div;
use crate::fixed::saturate;
use crate::fixed::saturated;
use crate::fixed::lemma_product_bound;
use crate::framebuffer::Framebuffer;
use crate::framebuffer::FrameView;
use crate::framebuffer::TextureView;
use crate::framebuffer::overlay;
use crate::framebuffer::sample_or;
use crate::framebuffer::procedural_wall_color;
use crate::maze::Maze;
use crate::maze::is_wall;
use crate::maze::wall_kind;
use crate::player::Player;

verus! {

/// How far a ray of the world pass marches before it gives up.
pub const MAX_DISTANCE: Fixed = 65536000;

/// The distance between two samples of a ray of the world pass.
pub const RAY_STEP: Fixed = 65536;

/// The distance from the eye to the projection plane, in world units.
pub const PROJECTION_DISTANCE: i64 = 70;

/// The angle of the `i`-th of `steps` steps across the field of view of a
/// player who looks along `heading` and sees `fov` wide: the sweep starts
/// half the field of view before the heading and ends as far after it.
pub open spec fn sweep_angle(heading: Fixed, fov: Fixed, i: int, steps: int) -> int {
    saturate(
        heading - fov / 2 + if steps > 0 {
            fov * i / steps
        } else {
            0
        },
    )
}

/// The angle of the ray of one step of a sweep across the player's field
/// of view: of column `i` of a screen `steps` columns wide, for one.
pub fn ray_angle(player: &Player, i: u32, steps: u32) -> (angle: Fixed)
    ensures
        angle == sweep_angle(player.a, player.fov, i as int, steps as int),
{
    let half: i128 = floor_div(player.fov as i128, 2);
    proof {
        lemma_product_bound(player.fov as int, i as int, 0x8000_0000_0000_0000, 0x1_0000_0000);
    }
    let turned: i128 = if steps > 0 {
        floor_div((player.fov as i128) * (i as i128), steps as i128)
    } else {
        0
    };
    assert(-0x1_0000_0000_0000_0000_0000_0000 <= turned <= 0x1_0000_0000_0000_0000_0000_0000)
        by (nonlinear_arith)
        requires
            steps > 0 ==> turned == (player.fov * i) / (steps as int),
            steps == 0 ==> turned == 0,
            -0x1_0000_0000_0000_0000_0000_0000 <= player.fov * i
                <= 0x1_0000_0000_0000_0000_0000_0000,
    ;
    saturated((player.a as i128) - half + turned)
}

/// The flat colour of the floor.
pub open spec fn spec_floor_fill() -> Color {
    rgba(192, 201, 135, 255)
}

/// The flat colour of the floor.
#[verifier::when_used_as_spec(spec_floor_fill)]
pub fn floor_fill() -> (c: Color)
    ensures
        c == spec_floor_fill(),
{
    Color::new(192, 201, 135, 255)
}

/// The flat colour that stands for a kind of cell.
pub open spec fn spec_cell_to_color(kind: char) -> Color {
    if is_wall(kind) {
        blue()
    } else if kind == 'g' {
        green()
    } else if kind == ' ' {
        black()
    } else {
        white()
    }
}

/// The flat colour that stands for a kind of cell: blue for walls, green
/// for the goal, black for empty cells and white for anything else.
#[verifier::when_used_as_spec(spec_cell_to_color)]
pub fn cell_to_color(kind: char) -> (c: Color)
    ensures
        c == spec_cell_to_color(kind),
{
    if wall_kind(kind) {
        blue()
    } else if kind == 'g' {
        green()
    } else if kind == ' ' {
        black()
    } else {
        white()
    }
}

/// Half the height, in fixed-point pixels, of the slab that a wall at
/// `distance` projects onto a screen `height` pixels tall.  Distances under
/// one world unit count as one.
pub open spec fn slab_half_height(height: int, distance: int) -> int {
    height * HALF * PROJECTION_DISTANCE * ONE / max_int(distance, ONE as int) / 2
}

/// The first row of the slab.
pub open spec fn slab_top(height: int, distance: int) -> int {
    clamp_int((height * HALF - slab_half_height(height, distance)) / (ONE as int), 0, height)
}

/// The row after the last row of the slab.
pub open spec fn slab_bottom(height: int, distance: int) -> int {
    clamp_int((height * HALF + slab_half_height(height, distance)) / (ONE as int), 0, height)
}

/// The vertical texture coordinate of row `y` in a slab from `top` to
/// `bottom`.
pub open spec fn slab_v(top: int, bottom: int, y: int) -> int {
    (y - top) * ONE / (bottom - top)
}

/// The colour of the slab at row `y`: a sample of the wall texture for a
/// wall, the flat colour of the kind for anything else.
pub open spec fn slab_color(wall: Option<TextureView>, hit: Hit, top: int, bottom: int, y: int)
    -> Color {
    if is_wall(hit.impact) {
        let u = clamp_int(hit.tx, 0, ONE as int);
        let v = slab_v(top, bottom, y);
        sample_or(wall, u, v, procedural_wall_color(u, v))
    } else {
        cell_to_color(hit.impact)
    }
}

/// What the world pass paints at row `y` of a column whose ray reported
/// `hit`: the slab between its top and its bottom, the floor below, and
/// nothing above.
pub open spec fn column_paint(height: int, wall: Option<TextureView>, hit: Hit, y: int) -> Option<
    Color,
> {
    let top = slab_top(height, hit.distance);
    let bottom = slab_bottom(height, hit.distance);
    if bottom <= y < height {
        Some(floor_fill())
    } else if top <= y < bottom {
        Some(slab_color(wall, hit, top, bottom, y))
    } else {
        None
    }
}

/// The march of the ray of column `x`.
pub open spec fn column_march(
    maze: &Maze,
    player: &Player,
    rays: Seq<Direction>,
    block_size: usize,
    x: int,
) -> March {
    march_of(maze, player, rays[x], block_size, MAX_DISTANCE, RAY_STEP)
}

/// What the world pass paints at `(x, y)`: the column of the ray of `x`,
/// where there is such a ray.
pub open spec fn world_paint(
    view: FrameView,
    maze: &Maze,
    player: &Player,
    rays: Seq<Direction>,
    block_size: usize,
    x: int,
    y: int,
) -> Option<Color> {
    if 0 <= x < rays.len() {
        column_paint(
            view.height as int,
            view.wall_texture,
            column_march(maze, player, rays, block_size, x).result(),
            y,
        )
    } else {
        None
    }
}

/// The slab of a column lies on the screen, top above bottom.
pub proof fn lemma_slab_rows_ordered(height: int, distance: int)
    requires
        height >= 0,
    ensures
        0 <= slab_top(height, distance) <= slab_bottom(height, distance) <= height,
{
    let half = slab_half_height(height, distance);
    let near = max_int(distance, ONE as int);
    let scaled = height * HALF * PROJECTION_DISTANCE * ONE;
    assert(scaled >= 0) by (nonlinear_arith)
        requires
            height >= 0,
            scaled == height * HALF * PROJECTION_DISTANCE * ONE,
            HALF == 32768,
            ONE == 65536,
            PROJECTION_DISTANCE == 70,
    ;
    assert(scaled / near >= 0) by (nonlinear_arith)
        requires
            scaled >= 0,
            near >= 65536,
    ;
    assert(half >= 0);
    vstd::arithmetic::div_mod::lemma_div_is_ordered(
        height * HALF - half,
        height * HALF + half,
        ONE as int,
    );
}

/// A frame that is cleared and then rendered, with a ray for every column,
/// owes nothing to what the surface held before.  Every pixel from the top
/// of its column's slab down is painted by the world pass, with the flat
/// floor colour, a sample of the wall or the flat colour of a kind; every
/// pixel above the slab shows the background.
pub proof fn lemma_rendered_frame_is_fresh(
    before: FrameView,
    cleared: FrameView,
    after: FrameView,
    maze: &Maze,
    player: &Player,
    rays: Seq<Direction>,
    block_size: usize,
    x: int,
    y: int,
)
    requires
        cleared == (FrameView {
            pixels: Seq::new(before.pixels.len(), |i: int| before.background_color),
            ..before
        }),
        cleared.repainted(after),
        forall|cx: int, cy: int|
            cleared.holds(cx, cy) ==> #[trigger] after.pixel(cx, cy) == overlay(
                world_paint(cleared, maze, player, rays, block_size, cx, cy),
                cleared.pixel(cx, cy),
            ),
        rays.len() >= before.width,
        before.holds(x, y),
    ensures
        after.pixel(x, y) == overlay(
            world_paint(before, maze, player, rays, block_size, x, y),
            before.background_color,
        ),
        world_paint(before, maze, player, rays, block_size, x, y) is Some <==> y >= slab_top(
            before.height as int,
            column_march(maze, player, rays, block_size, x).result().distance,
        ),
{
    assert(cleared.holds(x, y));
    let hit = column_march(maze, player, rays, block_size, x).result();
    lemma_slab_rows_ordered(before.height as int, hit.distance);
}

/// Computes `slab_top` and `slab_bottom`.
fn slab_rows(height: u32, distance: Fixed) -> (rows: (u32, u32))
    ensures
        rows.0 == slab_top(height as int, distance as int),
        rows.1 == slab_bottom(height as int, distance as int),
        rows.0 <= rows.1 <= height,
{
    let near: i128 = if distance < ONE {
        ONE as i128
    } else {
        distance as i128
    };
    let middle: i128 = (height as i128) * 32768;
    assert(HALF == 32768 && ONE == 65536 && PROJECTION_DISTANCE == 70);
    let scaled: i128 = middle * 70 * 65536;
    assert(height * HALF * PROJECTION_DISTANCE * ONE == scaled) by (nonlinear_arith)
        requires
            scaled == height * 32768 * 70 * 65536,
            HALF == 32768,
            ONE == 65536,
            PROJECTION_DISTANCE == 70,
    ;
    let full: i128 = floor_div(scaled, near);
    assert(0 <= full <= scaled) by (nonlinear_arith)
        requires
            full == (scaled as int) / (near as int),
            scaled >= 0,
            near >= 65536,
    ;
    let half: i128 = full / 2;
    let above: i128 = floor_div(middle - half, ONE as i128);
    let below: i128 = floor_div(middle + half, ONE as i128);
    let top: u32 = if above < 0 {
        0
    } else if above > height as i128 {
        height
    } else {
        above as u32
    };
    let bottom: u32 = if below < 0 {
        0
    } else if below > height as i128 {
        height
    } else {
        below as u32
    };
    assert(above <= below) by {
        vstd::arithmetic::div_mod::lemma_div_is_ordered(
            (middle - half) as int,
            (middle + half) as int,
            ONE as int,
        );
    }
    (top, bottom)
}

/// Computes `slab_v`.
fn slab_v_exec(top: u32, bottom: u32, y: u32) -> (v: Fixed)
    requires
        top <= y < bottom,
    ensures
        v == slab_v(top as int, bottom as int, y as int),
{
    let num: i128 = ((y - top) as i128) * 65536;
    let den: i128 = (bottom - top) as i128;
    let v: i128 = floor_div(num, den);
    assert(0 <= v <= num) by (nonlinear_arith)
        requires
            v == (num as int) / (den as int),
            num >= 0,
            den >= 1,
    ;
    v as Fixed
}

/// Paints one column of the world pass.
fn paint_column(framebuffer: &mut Framebuffer, x: u32, hit: &Intersect)
    ensures
        old(framebuffer)@.repainted(final(framebuffer)@),
        forall|cx: int, cy: int|
            old(framebuffer)@.holds(cx, cy) ==> #[trigger] final(framebuffer)@.pixel(cx, cy)
                == if cx == x {
                overlay(
                    column_paint(
                        old(framebuffer)@.height as int,
                        old(framebuffer)@.wall_texture,
                        hit@,
                        cy,
                    ),
                    old(framebuffer)@.pixel(cx, cy),
                )
            } else {
                old(framebuffer)@.pixel(cx, cy)
            },
{
    let height: u32 = framebuffer.height;
    let rows: (u32, u32) = slab_rows(height, hit.distance);
    let top: u32 = rows.0;
    let bottom: u32 = rows.1;
    let textured: bool = wall_kind(hit.impact);
    let flat: Color = cell_to_color(hit.impact);
    let u: Fixed = if hit.tx < 0 {
        0
    } else if hit.tx > ONE {
        ONE
    } else {
        hit.tx
    };
    let ghost before = framebuffer@;
    let mut y: u32 = top;
    while y < height
        invariant
            top <= y <= height,
            top <= bottom <= height,
            height == before.height,
            top == slab_top(height as int, hit.distance as int),
            bottom == slab_bottom(height as int, hit.distance as int),
            textured == is_wall(hit.impact),
            flat == cell_to_color(hit.impact),
            u == clamp_int(hit.tx as int, 0, ONE as int),
            before.repainted(framebuffer@),
            forall|cx: int, cy: int|
                before.holds(cx, cy) ==> #[trigger] framebuffer@.pixel(cx, cy) == if cx == x
                    && cy < y {
                    overlay(
                        column_paint(before.height as int, before.wall_texture, hit@, cy),
                        before.pixel(cx, cy),
                    )
                } else {
                    before.pixel(cx, cy)
                },
        decreases height - y,
    {
        let color: Color = if y >= bottom {
            floor_fill()
        } else if textured {
            let v: Fixed = slab_v_exec(top, bottom, y);
            framebuffer.get_texture_pixel(u, v)
        } else {
            flat
        };
        assert(column_paint(before.height as int, before.wall_texture, hit@, y as int) == Some(
            color,
        ));
        framebuffer.paint(x, y, color);
        y = y + 1;
    }
}

/// Draws the walls and the floor: for every column that has a ray, the ray
/// is marched through the maze from the player's position, and the column
/// is painted with the slab of what the ray met and with the floor below
/// it.  Rows above the slab are left as they were.
pub fn render_world(
    framebuffer: &mut Framebuffer,
    maze: &Maze,
    block_size: usize,
    player: &Player,
    rays: &Vec<Direction>,
)
    requires
        block_size > 0,
    ensures
        old(framebuffer)@.repainted(final(framebuffer)@),
        forall|x: int, y: int|
            old(framebuffer)@.holds(x, y) ==> #[trigger] final(framebuffer)@.pixel(x, y) == overlay(
                world_paint(old(framebuffer)@, maze, player, rays@, block_size, x, y),
                old(framebuffer)@.pixel(x, y),
            ),
{
    let width: u32 = framebuffer.width;
    let ghost before = framebuffer@;
    let mut x: u32 = 0;
    while x < width && (x as usize) < rays.len()
        invariant
            x <= width,
            x <= rays@.len(),
            block_size > 0,
            width == before.width,
            before.repainted(framebuffer@),
            forall|cx: int, cy: int|
                before.holds(cx, cy) ==> #[trigger] framebuffer@.pixel(cx, cy) == if cx < x {
                    overlay(
                        world_paint(before, maze, player, rays@, block_size, cx, cy),
                        before.pixel(cx, cy),
                    )
                } else {
                    before.pixel(cx, cy)
                },
        decreases width - x,
    {
        let hit: Intersect = cast_ray(
            maze,
            player,
            rays[x as usize],
            block_size,
            MAX_DISTANCE,
            RAY_STEP,
        );
        paint_column(framebuffer, x, &hit);
        x = x + 1;
    }
}

} // verus!
