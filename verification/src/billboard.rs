//! The billboard pass: sprites drawn into the three-dimensional view.

use vstd::prelude::*;
use crate::color::Color;
use crate::color::orange;
use crate::fixed::Fixed;
use crate::fixed::ONE;
use crate::fixed::HALF;
use crate::fixed::PI;
use crate::fixed::TWO_PI;
use crate::fixed::clamp_int;
use crate::fixed::floor_div;
use crate::fixed::floor_mod;
use crate::fixed::lemma_product_bound;
use crate::fixed::lemma_sqrt_floor_at_least;
use crate::fixed::max_int;
use crate::framebuffer::Framebuffer;
use crate::framebuffer::FrameView;
use crate::framebuffer::TextureView;
use crate::framebuffer::overlay;
use crate::maze::Maze;
use crate::player::Player;
use crate::sight::distance;
use crate::sight::distance_between;
use crate::sight::line_blocked;
use crate::sight::wall_between;
use crate::sprites::AnimatedSprite;
use crate::sprites::SpriteManager;
use crate::sprites::SpritePixelData;
use crate::sprites::SpritesView;
use crate::sprites::frame_shown;
use crate::sprites::frame_view;

verus! {

/// The rectangle of the screen that a sprite covers: columns from
/// `start_x` up to but not including `end_x`, rows from `start_y` up to but
/// not including `end_y`.
#[derive(Clone, Copy, Debug)]
pub struct Billboard {
    pub start_x: u32,
    pub end_x: u32,
    pub start_y: u32,
    pub end_y: u32,
}

/// Pixels of a frame whose alpha is not above this are not drawn.
pub const ALPHA_THRESHOLD: u8 = 128;

/// The pixel of a frame that a billboard shows at `(x, y)`: the frame is
/// stretched over the rectangle, and pixels that are not opaque enough are
/// left out.
pub open spec fn billboard_texel(data: TextureView, b: Billboard, x: int, y: int) -> Option<Color> {
    let tex_x = (x - b.start_x) * data.width / max_int(b.end_x - b.start_x, 1);
    let tex_y = (y - b.start_y) * data.height / max_int(b.end_y - b.start_y, 1);
    let index = tex_y * data.width + tex_x;
    if tex_x < data.width && tex_y < data.height && index < data.pixels.len()
        && data.pixels[index].a > ALPHA_THRESHOLD {
        Some(data.pixels[index])
    } else {
        None
    }
}

/// What a billboard paints at `(x, y)`: inside its rectangle the stretched
/// frame, or plain orange where there is no frame; nothing outside.
pub open spec fn billboard_paint(data: Option<TextureView>, b: Billboard, x: int, y: int)
    -> Option<Color> {
    if b.start_x <= x < b.end_x && b.start_y <= y < b.end_y {
        match data {
            Some(frame) => billboard_texel(frame, b, x, y),
            None => Some(orange()),
        }
    } else {
        None
    }
}

/// Computes `billboard_paint` inside the rectangle.
fn billboard_color(data: Option<&SpritePixelData>, b: &Billboard, x: u32, y: u32) -> (color: Option<
    Color,
>)
    requires
        b.start_x <= x < b.end_x,
        b.start_y <= y < b.end_y,
    ensures
        color == billboard_paint(frame_view(data), *b, x as int, y as int),
{
    match data {
        None => Some(orange()),
        Some(frame) => {
            let span_x: u64 = (b.end_x - b.start_x) as u64;
            let span_y: u64 = (b.end_y - b.start_y) as u64;
            let off_x: u64 = (x - b.start_x) as u64;
            let off_y: u64 = (y - b.start_y) as u64;
            assert(off_x * frame.width <= 0xffff_ffff * 0xffff_ffff) by (nonlinear_arith)
                requires
                    0 <= off_x <= 0xffff_ffff,
                    0 <= frame.width <= 0xffff_ffff,
            ;
            assert(off_y * frame.height <= 0xffff_ffff * 0xffff_ffff) by (nonlinear_arith)
                requires
                    0 <= off_y <= 0xffff_ffff,
                    0 <= frame.height <= 0xffff_ffff,
            ;
            let tex_x: u64 = off_x * (frame.width as u64) / span_x;
            let tex_y: u64 = off_y * (frame.height as u64) / span_y;
            if tex_x < frame.width as u64 && tex_y < frame.height as u64 {
                assert(tex_y * frame.width <= 0xffff_ffff * 0xffff_ffff) by (nonlinear_arith)
                    requires
                        0 <= tex_y <= 0xffff_ffff,
                        0 <= frame.width <= 0xffff_ffff,
                ;
                let index: u64 = tex_y * (frame.width as u64) + tex_x;
                if index < frame.pixels.len() as u64 {
                    let color: Color = frame.pixels[index as usize];
                    if color.a > ALPHA_THRESHOLD {
                        return Some(color);
                    }
                }
            }
            None
        },
    }
}

/// Paints one row of a billboard.
fn draw_billboard_row(
    framebuffer: &mut Framebuffer,
    data: Option<&SpritePixelData>,
    b: &Billboard,
    y: u32,
)
    requires
        b.start_y <= y < b.end_y,
    ensures
        old(framebuffer)@.repainted(final(framebuffer)@),
        forall|cx: int, cy: int|
            old(framebuffer)@.holds(cx, cy) ==> #[trigger] final(framebuffer)@.pixel(cx, cy)
                == if cy == y {
                overlay(
                    billboard_paint(frame_view(data), *b, cx, cy),
                    old(framebuffer)@.pixel(cx, cy),
                )
            } else {
                old(framebuffer)@.pixel(cx, cy)
            },
{
    let ghost before = framebuffer@;
    let mut x: u32 = b.start_x;
    while x < b.end_x
        invariant
            b.start_x <= x,
            b.start_y <= y < b.end_y,
            before.repainted(framebuffer@),
            forall|cx: int, cy: int|
                before.holds(cx, cy) ==> #[trigger] framebuffer@.pixel(cx, cy) == if cy == y && cx
                    < x {
                    overlay(billboard_paint(frame_view(data), *b, cx, cy), before.pixel(cx, cy))
                } else {
                    before.pixel(cx, cy)
                },
        decreases b.end_x - x,
    {
        match billboard_color(data, b, x, y) {
            Some(color) => {
                framebuffer.paint(x, y, color);
            },
            None => {},
        }
        x = x + 1;
    }
}

/// Paints a billboard: every pixel of its rectangle that the surface holds
/// and that the frame does not leave out.
fn draw_billboard(framebuffer: &mut Framebuffer, data: Option<&SpritePixelData>, b: &Billboard)
    ensures
        old(framebuffer)@.repainted(final(framebuffer)@),
        forall|cx: int, cy: int|
            old(framebuffer)@.holds(cx, cy) ==> #[trigger] final(framebuffer)@.pixel(cx, cy)
                == overlay(
                billboard_paint(frame_view(data), *b, cx, cy),
                old(framebuffer)@.pixel(cx, cy),
            ),
{
    let ghost before = framebuffer@;
    let mut y: u32 = b.start_y;
    while y < b.end_y
        invariant
            b.start_y <= y,
            before.repainted(framebuffer@),
            forall|cx: int, cy: int|
                before.holds(cx, cy) ==> #[trigger] framebuffer@.pixel(cx, cy) == if cy < y {
                    overlay(billboard_paint(frame_view(data), *b, cx, cy), before.pixel(cx, cy))
                } else {
                    before.pixel(cx, cy)
                },
        decreases b.end_y - y,
    {
        draw_billboard_row(framebuffer, data, b, y);
        y = y + 1;
    }
}

/// Sprites farther from the player than this are not drawn.
pub const VIEW_RADIUS: Fixed = 19660800;

/// How many times taller than the screen a sprite of scale one stands at a
/// distance of one world unit.
pub const SPRITE_HEIGHT_FACTOR: i64 = 50;

/// The angle in the half-open turn from minus pi (left out) to pi (taken
/// in) that differs from `angle` by whole turns.
pub open spec fn normalize_angle(angle: int) -> int {
    PI - (PI - angle) % (TWO_PI as int)
}

/// The height and width of a billboard, in fixed-point pixels: inversely
/// proportional to the distance, which counts as at least the smallest
/// fixed-point step.
pub open spec fn billboard_size(height: int, distance: int, scale: int) -> int {
    height * SPRITE_HEIGHT_FACTOR * scale * ONE / max_int(distance, 1)
}

/// The column, in fixed-point pixels, on which a billboard is centred: the
/// middle of the screen for something straight ahead, an edge for something
/// half a field of view to the side.
pub open spec fn screen_center(angle_diff: int, fov: int, width: int) -> int {
    angle_diff * width * ONE / fov + width * HALF
}

/// The pixel that holds a fixed-point coordinate, forced onto `[0, limit]`.
pub open spec fn to_pixel(coord: int, limit: int) -> int {
    clamp_int(coord / (ONE as int), 0, limit)
}

/// The size of an angle.
pub open spec fn angle_size(angle: int) -> int {
    if angle < 0 {
        -angle
    } else {
        angle
    }
}

/// Where on a screen of `width` by `height` pixels a sprite stands, seen by
/// the player under the angle `bearing`; `None` where it is outside the
/// field of view or off the screen.
pub open spec fn billboard(width: int, height: int, player: Player, sprite: AnimatedSprite, bearing: int)
    -> Option<Billboard> {
    let angle_diff = normalize_angle(bearing - player.a);
    let half = billboard_size(
        height,
        distance_between(player.pos, sprite.position),
        sprite.scale as int,
    ) / 2;
    let center = screen_center(angle_diff, player.fov as int, width);
    if player.fov > 0 && 2 * angle_size(angle_diff) <= player.fov && center + half > 0 && center
        - half < width * ONE {
        Some(
            Billboard {
                start_x: to_pixel(center - half, width) as u32,
                end_x: to_pixel(center + half, width) as u32,
                start_y: to_pixel(height * HALF - half, height) as u32,
                end_y: to_pixel(height * HALF + half, height) as u32,
            },
        )
    } else {
        None
    }
}

/// Whether a sprite takes part in a frame at all: it is visible, within the
/// view radius, and nothing stands between it and the player.
pub open spec fn sprite_in_sight(
    grid: Seq<Seq<char>>,
    block_size: int,
    player: Player,
    sprite: AnimatedSprite,
) -> bool {
    &&& sprite.visible
    &&& distance_between(player.pos, sprite.position) <= VIEW_RADIUS
    &&& !wall_between(grid, player.pos, sprite.position, block_size)
}

/// The setting of a sprite pass: everything `render_sprites_3d` is given
/// but the pixels.
pub struct Scene {
    pub width: int,
    pub height: int,
    pub sprites: SpritesView,
    pub grid: Seq<Seq<char>>,
    pub block_size: int,
    pub player: Player,
    pub bearings: Seq<Fixed>,
}

impl Scene {
    /// What the `n`-th sprite paints at `(x, y)`: its billboard, if it is in
    /// sight and a bearing was given for it.
    pub open spec fn layer(self, n: int, x: int, y: int) -> Option<Color> {
        let sprite = self.sprites.sprites[n];
        if n < self.bearings.len() && sprite_in_sight(
            self.grid,
            self.block_size,
            self.player,
            sprite,
        ) {
            match billboard(self.width, self.height, self.player, sprite, self.bearings[n] as int) {
                Some(b) => billboard_paint(
                    frame_shown(
                        self.sprites.frames_of(sprite.sprite_type),
                        sprite.current_frame as int,
                    ),
                    b,
                    x,
                    y,
                ),
                None => None,
            }
        } else {
            None
        }
    }

    /// The colour at `(x, y)` once the first `count` sprites are drawn, one
    /// over the other, over a pixel that showed `under`.
    pub open spec fn pixel_after(self, count: nat, under: Color, x: int, y: int) -> Color
        decreases count,
    {
        if count == 0 {
            under
        } else {
            overlay(
                self.layer(count - 1, x, y),
                self.pixel_after((count - 1) as nat, under, x, y),
            )
        }
    }
}

/// A sprite that something stands in front of leaves no trace in the
/// frame; so does one that is switched off, and one beyond the view radius.
pub proof fn lemma_hidden_sprite_paints_nothing(
    scene: Scene,
    n: nat,
    under: Color,
    x: int,
    y: int,
)
    requires
        n < scene.sprites.sprites.len(),
        !scene.sprites.sprites[n as int].visible || distance_between(
            scene.player.pos,
            scene.sprites.sprites[n as int].position,
        ) > VIEW_RADIUS || wall_between(
            scene.grid,
            scene.player.pos,
            scene.sprites.sprites[n as int].position,
            scene.block_size,
        ),
    ensures
        scene.layer(n as int, x, y) is None,
        scene.pixel_after(n + 1, under, x, y) == scene.pixel_after(n, under, x, y),
{
    assert(scene.pixel_after(n + 1, under, x, y) == overlay(
        scene.layer(n as int, x, y),
        scene.pixel_after(n, under, x, y),
    ));
}

/// A sprite with nothing in front of it is back in the frame: one that is
/// visible, within the view radius and given a bearing paints its
/// billboard, where it has one on the screen, whatever else the maze holds.
pub proof fn lemma_sprite_in_sight_paints_billboard(scene: Scene, n: nat, x: int, y: int)
    requires
        n < scene.sprites.sprites.len(),
        n < scene.bearings.len(),
        scene.sprites.sprites[n as int].visible,
        distance_between(scene.player.pos, scene.sprites.sprites[n as int].position)
            <= VIEW_RADIUS,
        !wall_between(
            scene.grid,
            scene.player.pos,
            scene.sprites.sprites[n as int].position,
            scene.block_size,
        ),
    ensures
        scene.layer(n as int, x, y) == match billboard(
            scene.width,
            scene.height,
            scene.player,
            scene.sprites.sprites[n as int],
            scene.bearings[n as int] as int,
        ) {
            Some(b) => billboard_paint(
                frame_shown(
                    scene.sprites.frames_of(scene.sprites.sprites[n as int].sprite_type),
                    scene.sprites.sprites[n as int].current_frame as int,
                ),
                b,
                x,
                y,
            ),
            None => None,
        },
{
}

/// Computes `normalize_angle` on the difference of two angles.
fn angle_between(bearing: Fixed, heading: Fixed) -> (diff: Fixed)
    ensures
        diff == normalize_angle(bearing - heading),
        -PI < diff <= PI,
{
    let rest: i128 = floor_mod((PI as i128) - ((bearing as i128) - (heading as i128)), TWO_PI as i128);
    ((PI as i128) - rest) as Fixed
}

/// Computes `to_pixel`.
fn pixel_of(coord: i128, limit: u32) -> (p: u32)
    ensures
        p == to_pixel(coord as int, limit as int),
        p <= limit,
{
    let whole: i128 = floor_div(coord, ONE as i128);
    if whole < 0 {
        0
    } else if whole > limit as i128 {
        limit
    } else {
        whole as u32
    }
}

/// Computes `billboard` for a sprite within the view radius.
fn place_billboard(
    width: u32,
    height: u32,
    player: &Player,
    sprite: &AnimatedSprite,
    bearing: Fixed,
    distance: i128,
) -> (placed: Option<Billboard>)
    requires
        distance == distance_between(player.pos, sprite.position),
        0 <= distance <= VIEW_RADIUS,
    ensures
        placed == billboard(width as int, height as int, *player, *sprite, bearing as int),
{
    let fov: Fixed = player.fov;
    if fov <= 0 {
        return None;
    }
    let angle_diff: Fixed = angle_between(bearing, player.a);
    let size_of_angle: i128 = if angle_diff < 0 {
        -(angle_diff as i128)
    } else {
        angle_diff as i128
    };
    if 2 * size_of_angle > fov as i128 {
        return None;
    }
    let near: i128 = if distance < 1 {
        1
    } else {
        distance
    };
    assert(SPRITE_HEIGHT_FACTOR == 50 && ONE == 65536 && HALF == 32768);
    let tall: i128 = (height as i128) * 50;
    proof {
        lemma_product_bound(tall as int, sprite.scale as int, 0x32_0000_0000, 0x8000_0000_0000_0000);
        assert(tall * sprite.scale * 65536 == height * SPRITE_HEIGHT_FACTOR * sprite.scale * ONE)
            by (nonlinear_arith)
            requires
                tall == height * 50,
                SPRITE_HEIGHT_FACTOR == 50,
                ONE == 65536,
        ;
    }
    let scaled: i128 = tall * (sprite.scale as i128) * 65536;
    let size: i128 = floor_div(scaled, near);
    assert(-0x100_0000_0000_0000_0000_0000_0000_0000 <= size
        <= 0x100_0000_0000_0000_0000_0000_0000_0000) by (nonlinear_arith)
        requires
            size == (scaled as int) / (near as int),
            near >= 1,
            -0x100_0000_0000_0000_0000_0000_0000_0000 <= scaled
                <= 0x100_0000_0000_0000_0000_0000_0000_0000,
    ;
    let half: i128 = floor_div(size, 2);
    proof {
        lemma_product_bound(angle_diff as int, width as int, 0x4_0000, 0xffff_ffff);
        assert(angle_diff * width * 65536 == angle_diff * width * ONE);
    }
    let turned: i128 = (angle_diff as i128) * (width as i128) * 65536;
    let offset: i128 = floor_div(turned, fov as i128);
    assert(-0x1_0000_0000_0000_0000_0000 <= offset <= 0x1_0000_0000_0000_0000_0000)
        by (nonlinear_arith)
        requires
            offset == (turned as int) / (fov as int),
            fov >= 1,
            -0x1_0000_0000_0000_0000_0000 <= turned <= 0x1_0000_0000_0000_0000_0000,
    ;
    let center: i128 = offset + (width as i128) * 32768;
    let middle: i128 = (height as i128) * 32768;
    if center + half > 0 && center - half < (width as i128) * 65536 {
        Some(
            Billboard {
                start_x: pixel_of(center - half, width),
                end_x: pixel_of(center + half, width),
                start_y: pixel_of(middle - half, height),
                end_y: pixel_of(middle + half, height),
            },
        )
    } else {
        None
    }
}

/// The scene that `render_sprites_3d` draws.
pub open spec fn scene_of(
    view: FrameView,
    sprites: SpritesView,
    maze: &Maze,
    block_size: usize,
    player: &Player,
    bearings: Seq<Fixed>,
) -> Scene {
    Scene {
        width: view.width as int,
        height: view.height as int,
        sprites,
        grid: maze.deep_view(),
        block_size: block_size as int,
        player: *player,
        bearings,
    }
}

/// Computes where a sprite is drawn, if it is drawn at all.
fn visible_billboard(
    width: u32,
    height: u32,
    player: &Player,
    maze: &Maze,
    block_size: usize,
    sprite: &AnimatedSprite,
    bearing: Fixed,
) -> (placed: Option<Billboard>)
    requires
        block_size > 0,
    ensures
        placed == if sprite_in_sight(maze.deep_view(), block_size as int, *player, *sprite) {
            billboard(width as int, height as int, *player, *sprite, bearing as int)
        } else {
            None
        },
{
    if !sprite.visible {
        return None;
    }
    let dx: i128 = (sprite.position.x as i128) - (player.pos.x as i128);
    let dy: i128 = (sprite.position.y as i128) - (player.pos.y as i128);
    let radius: i128 = VIEW_RADIUS as i128;
    if dx > radius || dx < -radius || dy > radius || dy < -radius {
        proof {
            let reach: int = if dx > radius || dx < -radius {
                if dx < 0 {
                    -dx
                } else {
                    dx as int
                }
            } else {
                if dy < 0 {
                    -dy
                } else {
                    dy as int
                }
            };
            assert(reach * reach <= dx * dx + dy * dy) by (nonlinear_arith)
                requires
                    reach == dx || reach == -dx || reach == dy || reach == -dy,
            ;
            lemma_sqrt_floor_at_least(dx * dx + dy * dy, reach);
        }
        return None;
    }
    let far: i128 = distance(player.pos, sprite.position);
    if far > radius {
        return None;
    }
    if line_blocked(player.pos, sprite.position, maze, block_size) {
        return None;
    }
    place_billboard(width, height, player, sprite, bearing, far)
}

impl SpriteManager {
    /// Paints a billboard for which no frame is loaded: its rectangle, in
    /// plain orange.
    fn render_3d_fallback(&self, framebuffer: &mut Framebuffer, b: &Billboard)
        ensures
            old(framebuffer)@.repainted(final(framebuffer)@),
            forall|cx: int, cy: int|
                old(framebuffer)@.holds(cx, cy) ==> #[trigger] final(framebuffer)@.pixel(cx, cy)
                    == overlay(
                    billboard_paint(None, *b, cx, cy),
                    old(framebuffer)@.pixel(cx, cy),
                ),
    {
        draw_billboard(framebuffer, None, b);
    }

    /// Draws the sprites into the view, one over the other in the order in
    /// which the manager holds them, over whatever the surface shows.
    ///
    /// `bearings` gives, for each sprite, the angle under which the player
    /// sees it: the angle of the line from the player to the sprite.  A
    /// sprite is drawn where it is visible, within the view radius, not
    /// hidden by anything in the maze, within the field of view, and on the
    /// screen; a sprite without a bearing is not drawn.
    pub fn render_sprites_3d(
        &self,
        framebuffer: &mut Framebuffer,
        player: &Player,
        maze: &Maze,
        block_size: usize,
        bearings: &Vec<Fixed>,
    )
        requires
            block_size > 0,
        ensures
            old(framebuffer)@.repainted(final(framebuffer)@),
            forall|x: int, y: int|
                old(framebuffer)@.holds(x, y) ==> #[trigger] final(framebuffer)@.pixel(x, y)
                    == scene_of(
                    old(framebuffer)@,
                    self@,
                    maze,
                    block_size,
                    player,
                    bearings@,
                ).pixel_after(self@.sprites.len(), old(framebuffer)@.pixel(x, y), x, y),
    {
        let width: u32 = framebuffer.width;
        let height: u32 = framebuffer.height;
        let ghost before = framebuffer@;
        let ghost scene = scene_of(before, self@, maze, block_size, player, bearings@);
        let count: usize = self.sprite_count();
        let mut n: usize = 0;
        while n < count
            invariant
                n <= count,
                count == self@.sprites.len(),
                block_size > 0,
                width == before.width,
                height == before.height,
                scene == scene_of(before, self@, maze, block_size, player, bearings@),
                before.repainted(framebuffer@),
                forall|x: int, y: int|
                    before.holds(x, y) ==> #[trigger] framebuffer@.pixel(x, y) == scene.pixel_after(
                        n as nat,
                        before.pixel(x, y),
                        x,
                        y,
                    ),
            decreases count - n,
        {
            let sprite: AnimatedSprite = self.sprite(n);
            let ghost earlier = framebuffer@;
            let placed: Option<Billboard> = if n < bearings.len() {
                visible_billboard(width, height, player, maze, block_size, &sprite, bearings[n])
            } else {
                None
            };
            match placed {
                Some(b) => {
                    match self.current_frame_data(&sprite) {
                        Some(frame) => {
                            draw_billboard(framebuffer, Some(frame), &b);
                        },
                        None => {
                            self.render_3d_fallback(framebuffer, &b);
                        },
                    }
                },
                None => {},
            }
            proof {
                assert forall|x: int, y: int| before.holds(x, y) implies #[trigger] framebuffer@.pixel(
                    x,
                    y,
                ) == scene.pixel_after((n + 1) as nat, before.pixel(x, y), x, y) by {
                    assert(earlier.holds(x, y));
                    assert(earlier.pixel(x, y) == scene.pixel_after(
                        n as nat,
                        before.pixel(x, y),
                        x,
                        y,
                    ));
                    assert(framebuffer@.pixel(x, y) == overlay(
                        scene.layer(n as int, x, y),
                        earlier.pixel(x, y),
                    ));
                }
            }
            n = n + 1;
        }
    }
}

} // verus!
