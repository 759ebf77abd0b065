//! The pixel surface that every renderer paints into, and the texture
//! sampler it carries.

use vstd::prelude::*;
use crate::color::Color;
use crate::color::rgba;
use crate::color::black;
use crate::color::white;
use crate::fixed::Fixed;
use crate::fixed::ONE;
use crate::fixed::clamp_int;
use crate::fixed::min_int;
use crate::fixed::max_int;
use crate::fixed::floor_div;
use crate::fixed::lemma_product_bound;

verus! {

/// A texture held in memory: `width * height` pixels, row by row.
pub struct TextureCache {
    pub width: u32,
    pub height: u32,
    pub pixels: Vec<Color>,
}

/// What a texture is, mathematically.
pub struct TextureView {
    pub width: nat,
    pub height: nat,
    pub pixels: Seq<Color>,
}

impl View for TextureCache {
    type V = TextureView;

    open spec fn view(&self) -> TextureView {
        TextureView {
            width: self.width as nat,
            height: self.height as nat,
            pixels: self.pixels@,
        }
    }
}

/// The texel index along one axis for a texture coordinate: the coordinate
/// is clamped to `[0, 1]`, scaled by the size and rounded down, and the
/// last texel takes the coordinate `1` itself.
pub open spec fn texel_index(size: int, coord: int) -> int {
    min_int(clamp_int(coord, 0, ONE as int) * size / (ONE as int), size - 1)
}

impl TextureView {
    /// Nearest-neighbour lookup; `None` where the texture has no such texel.
    pub open spec fn sample(self, u: int, v: int) -> Option<Color> {
        let index = texel_index(self.height as int, v) * self.width + texel_index(
            self.width as int,
            u,
        );
        if self.width > 0 && self.height > 0 && index < self.pixels.len() {
            Some(self.pixels[index])
        } else {
            None
        }
    }
}

/// One colour channel from a fixed-point intensity: `coord * scale / den`
/// rounded down and clamped to a byte.
pub open spec fn channel(coord: int, scale: int, den: int) -> int {
    clamp_int(coord * scale / den, 0, 255)
}

/// The colour of a wall where no wall texture is loaded: a gradient in the
/// two texture coordinates that never gets darker than a fixed floor.
pub open spec fn procedural_wall_color(u: int, v: int) -> Color {
    rgba(
        max_int(channel(u, 255, ONE as int), 100) as u8,
        max_int(channel(v, 255, ONE as int), 80) as u8,
        max_int(channel(u + v, 255, 2 * ONE), 60) as u8,
        255,
    )
}

/// The colour of the floor where no floor texture is loaded.
pub open spec fn fallback_floor_color() -> Color {
    rgba(80, 60, 40, 255)
}

/// What a texture slot shows at `(u, v)`: the texel if there is one, the
/// fallback otherwise.
pub open spec fn sample_or(cache: Option<TextureView>, u: int, v: int, fallback: Color) -> Color {
    match cache {
        Some(texture) => match texture.sample(u, v) {
            Some(color) => color,
            None => fallback,
        },
        None => fallback,
    }
}

/// What a framebuffer is, mathematically.
pub struct FrameView {
    pub width: nat,
    pub height: nat,
    pub pixels: Seq<Color>,
    pub background_color: Color,
    pub current_color: Color,
    pub wall_texture: Option<TextureView>,
    pub floor_texture: Option<TextureView>,
}

impl FrameView {
    /// Whether `(x, y)` names a pixel that the buffer holds.
    pub open spec fn holds(self, x: int, y: int) -> bool {
        0 <= x < self.width && 0 <= y < self.height && y * self.width + x < self.pixels.len()
    }

    /// The colour at `(x, y)`.
    pub open spec fn pixel(self, x: int, y: int) -> Color {
        self.pixels[y * self.width + x]
    }

    /// The same surface with `(x, y)` painted, if it holds that pixel.
    pub open spec fn with_pixel(self, x: int, y: int, color: Color) -> FrameView {
        if self.holds(x, y) {
            FrameView { pixels: self.pixels.update(y * self.width + x, color), ..self }
        } else {
            self
        }
    }

    /// The same surface with a picture laid over it: the pixels of the
    /// picture take the place of the first pixels of the buffer, as far as
    /// either goes.
    pub open spec fn with_picture(self, picture: Seq<Color>) -> FrameView {
        FrameView {
            pixels: Seq::new(
                self.pixels.len(),
                |i: int|
                    if i < picture.len() {
                        picture[i]
                    } else {
                        self.pixels[i]
                    },
            ),
            ..self
        }
    }

    /// The same surface with another active colour.
    pub open spec fn with_current_color(self, color: Color) -> FrameView {
        FrameView { current_color: color, ..self }
    }

    /// The same surface with the active colour painted at `(x, y)`.
    pub open spec fn plot(self, x: int, y: int) -> FrameView {
        self.with_pixel(x, y, self.current_color)
    }

    /// Whether `after` is this surface with some of its pixels repainted:
    /// the size, the background and the textures are the same, and so is
    /// whatever the buffer holds beyond its `width * height` pixels.
    pub open spec fn repainted(self, after: FrameView) -> bool {
        &&& after.width == self.width
        &&& after.height == self.height
        &&& after.background_color == self.background_color
        &&& after.wall_texture == self.wall_texture
        &&& after.floor_texture == self.floor_texture
        &&& after.pixels.len() == self.pixels.len()
        &&& forall|i: int|
            self.width * self.height <= i < self.pixels.len() ==> (#[trigger] after.pixels[i])
                == self.pixels[i]
    }

    /// The colour a wall shows at texture coordinates `(u, v)`.
    pub open spec fn wall_color(self, u: int, v: int) -> Color {
        sample_or(self.wall_texture, u, v, procedural_wall_color(u, v))
    }

    /// The colour the floor shows at texture coordinates `(u, v)`.
    pub open spec fn floor_color(self, u: int, v: int) -> Color {
        sample_or(self.floor_texture, u, v, fallback_floor_color())
    }
}

/// Whether `(x, y)` lies in the rectangle `width` wide and `height` tall
/// whose top left corner is `(left, top)`.
pub open spec fn in_rect(left: int, top: int, width: int, height: int, x: int, y: int) -> bool {
    left <= x < left + width && top <= y < top + height
}

/// A pixel after a pass that may or may not have painted it.
pub open spec fn overlay(paint: Option<Color>, under: Color) -> Color {
    match paint {
        Some(color) => color,
        None => under,
    }
}

/// Two pixels of one surface that share a place in the buffer are the same
/// pixel.
pub proof fn lemma_pixel_places_differ(view: FrameView, x1: int, y1: int, x2: int, y2: int)
    requires
        view.holds(x1, y1),
        view.holds(x2, y2),
        y1 * view.width + x1 == y2 * view.width + x2,
    ensures
        x1 == x2,
        y1 == y2,
{
    let w = view.width as int;
    assert(y1 == y2) by (nonlinear_arith)
        requires
            0 <= x1 < w,
            0 <= x2 < w,
            y1 * w + x1 == y2 * w + x2,
    ;
}

/// The output surface: a pixel buffer with an active colour, a background
/// colour and two optional textures.
pub struct Framebuffer {
    pub width: u32,
    pub height: u32,
    pub color_buffer: Vec<Color>,
    pub background_color: Color,
    pub current_color: Color,
    pub wall_texture_cache: Option<TextureCache>,
    pub floor_texture_cache: Option<TextureCache>,
}

/// The view of an optional texture.
pub open spec fn texture_view(cache: Option<TextureCache>) -> Option<TextureView> {
    match cache {
        Some(texture) => Some(texture@),
        None => None,
    }
}

impl View for Framebuffer {
    type V = FrameView;

    open spec fn view(&self) -> FrameView {
        FrameView {
            width: self.width as nat,
            height: self.height as nat,
            pixels: self.color_buffer@,
            background_color: self.background_color,
            current_color: self.current_color,
            wall_texture: texture_view(self.wall_texture_cache),
            floor_texture: texture_view(self.floor_texture_cache),
        }
    }
}

/// The texture slot after loading `pixels` as a `width` by `height` image.
pub open spec fn loaded_texture(width: u32, height: u32, pixels: Seq<Color>) -> Option<
    TextureView,
> {
    if width > 0 && height > 0 && pixels.len() == width * height {
        Some(TextureView { width: width as nat, height: height as nat, pixels })
    } else {
        None
    }
}

/// The position of `(x, y)` in a row-major buffer with `width` pixels to a
/// row.
fn flat_index(x: u32, y: u32, width: u32) -> (index: u64)
    ensures
        index == y * width + x,
{
    assert(y * width <= 0xffff_ffff * 0xffff_ffff) by (nonlinear_arith)
        requires
            0 <= y <= 0xffff_ffff,
            0 <= width <= 0xffff_ffff,
    ;
    (y as u64) * (width as u64) + (x as u64)
}

/// Builds a texture from loose parts; `None` unless the parts fit together.
pub fn make_texture(width: u32, height: u32, pixels: Vec<Color>) -> (cache: Option<TextureCache>)
    ensures
        texture_view(cache) == loaded_texture(width, height, pixels@),
{
    let wanted: u64 = flat_index(0, height, width);
    assert(width * height == height * width) by (nonlinear_arith);
    if width > 0 && height > 0 && pixels.len() as u64 == wanted {
        Some(TextureCache { width, height, pixels })
    } else {
        None
    }
}

/// Computes `texel_index` for a texture side of `size > 0` texels.
fn texel(size: u32, coord: Fixed) -> (index: u32)
    requires
        size > 0,
    ensures
        index == texel_index(size as int, coord as int),
        index < size,
{
    let clamped: i128 = if coord < 0 {
        0
    } else if coord > ONE {
        ONE as i128
    } else {
        coord as i128
    };
    assert(0 <= clamped * size <= 65536 * 0xffff_ffff) by (nonlinear_arith)
        requires
            0 <= clamped <= 65536,
            0 <= size <= 0xffff_ffff,
    ;
    let scaled: i128 = floor_div(clamped * (size as i128), ONE as i128);
    if scaled >= size as i128 {
        size - 1
    } else {
        scaled as u32
    }
}

/// Computes `sample` on a texture.
fn sample_texture(texture: &TextureCache, u: Fixed, v: Fixed) -> (color: Option<Color>)
    ensures
        color == texture@.sample(u as int, v as int),
{
    if texture.width == 0 || texture.height == 0 {
        return None;
    }
    let ix: u32 = texel(texture.width, u);
    let iy: u32 = texel(texture.height, v);
    let index: u64 = flat_index(ix, iy, texture.width);
    if index < texture.pixels.len() as u64 {
        Some(texture.pixels[index as usize])
    } else {
        None
    }
}

/// Computes `channel`.
fn channel_of(coord: i128, scale: i128, den: i128) -> (c: u8)
    requires
        -0x1_0000_0000_0000_0000 <= coord <= 0x1_0000_0000_0000_0000,
        0 <= scale <= 255,
        den > 0,
    ensures
        c == channel(coord as int, scale as int, den as int),
{
    proof {
        lemma_product_bound(coord as int, scale as int, 0x1_0000_0000_0000_0000, 255);
    }
    let scaled: i128 = floor_div(coord * scale, den);
    if scaled < 0 {
        0
    } else if scaled > 255 {
        255
    } else {
        scaled as u8
    }
}

/// Computes `procedural_wall_color`.
fn procedural_color(u: Fixed, v: Fixed) -> (color: Color)
    ensures
        color == procedural_wall_color(u as int, v as int),
{
    let r: u8 = channel_of(u as i128, 255, ONE as i128);
    let g: u8 = channel_of(v as i128, 255, ONE as i128);
    let b: u8 = channel_of((u as i128) + (v as i128), 255, 2 * (ONE as i128));
    Color::new(
        if r > 100 {
            r
        } else {
            100
        },
        if g > 80 {
            g
        } else {
            80
        },
        if b > 60 {
            b
        } else {
            60
        },
        255,
    )
}

impl Framebuffer {
    /// A surface of the given size, all black, with white as the active
    /// colour and no texture loaded.
    pub fn new(width: u32, height: u32) -> (fb: Framebuffer)
        requires
            width * height <= usize::MAX,
        ensures
            fb@.width == width,
            fb@.height == height,
            fb@.pixels == Seq::new((width * height) as nat, |i: int| black()),
            fb@.background_color == black(),
            fb@.current_color == white(),
            fb@.wall_texture.is_none(),
            fb@.floor_texture.is_none(),
    {
        let n: usize = flat_index(0, height, width) as usize;
        let mut buf: Vec<Color> = Vec::new();
        let mut i: usize = 0;
        while i < n
            invariant
                i <= n,
                buf@.len() == i,
                forall|k: int| 0 <= k < i ==> buf@[k] == black(),
            decreases n - i,
        {
            buf.push(black());
            i = i + 1;
        }
        let fb = Framebuffer {
            width,
            height,
            color_buffer: buf,
            background_color: black(),
            current_color: white(),
            wall_texture_cache: None,
            floor_texture_cache: None,
        };
        assert(fb@.pixels =~= Seq::new((width * height) as nat, |i: int| black()));
        fb
    }

    /// Paints every pixel in the background colour.
    pub fn clear(&mut self)
        ensures
            final(self)@ == (FrameView {
                pixels: Seq::new(
                    old(self)@.pixels.len(),
                    |i: int| old(self)@.background_color,
                ),
                ..old(self)@
            }),
    {
        let n: usize = self.color_buffer.len();
        let background: Color = self.background_color;
        let mut i: usize = 0;
        while i < n
            invariant
                i <= n,
                n == self.color_buffer@.len(),
                n == old(self).color_buffer@.len(),
                background == old(self).background_color,
                self.width == old(self).width,
                self.height == old(self).height,
                self.background_color == old(self).background_color,
                self.current_color == old(self).current_color,
                self.wall_texture_cache == old(self).wall_texture_cache,
                self.floor_texture_cache == old(self).floor_texture_cache,
                forall|k: int| 0 <= k < i ==> self.color_buffer@[k] == background,
            decreases n - i,
        {
            self.color_buffer.set(i, background);
            i = i + 1;
        }
        assert(self@.pixels =~= Seq::new(
            old(self)@.pixels.len(),
            |i: int| old(self)@.background_color,
        ));
    }

    /// Paints the pixel at `(x, y)` in the active colour; does nothing where
    /// the surface holds no such pixel.
    pub fn set_pixel(&mut self, x: u32, y: u32)
        ensures
            final(self)@ == old(self)@.plot(x as int, y as int),
    {
        if x < self.width && y < self.height {
            let index: u64 = flat_index(x, y, self.width);
            if index < self.color_buffer.len() as u64 {
                let color: Color = self.current_color;
                self.color_buffer.set(index as usize, color);
            }
        }
    }

    /// Makes `color` the active colour and paints the pixel at `(x, y)` in
    /// it, if the surface holds that pixel.
    pub fn paint(&mut self, x: u32, y: u32, color: Color)
        ensures
            final(self)@ == old(self)@.with_current_color(color).plot(x as int, y as int),
            old(self)@.repainted(final(self)@),
            forall|cx: int, cy: int|
                old(self)@.holds(cx, cy) ==> #[trigger] final(self)@.pixel(cx, cy) == if cx == x
                    && cy == y {
                    color
                } else {
                    old(self)@.pixel(cx, cy)
                },
    {
        self.set_current_color(color);
        self.set_pixel(x, y);
        proof {
            let before = old(self)@;
            let after = self@;
            if before.holds(x as int, y as int) {
                assert(y * before.width + x < before.width * before.height) by (nonlinear_arith)
                    requires
                        0 <= x < before.width,
                        0 <= y < before.height,
                ;
            }
            assert forall|cx: int, cy: int| before.holds(cx, cy) implies #[trigger] after.pixel(
                cx,
                cy,
            ) == if cx == x && cy == y {
                color
            } else {
                before.pixel(cx, cy)
            } by {
                if before.holds(x as int, y as int) && !(cx == x && cy == y) {
                    if cy * before.width + cx == y * before.width + x {
                        lemma_pixel_places_differ(before, cx, cy, x as int, y as int);
                    }
                }
            }
        }
    }

    /// Lays a picture over the surface: its pixels, row by row, take the
    /// place of the pixels of the surface, as far as either goes.
    pub fn draw_picture(&mut self, picture: &Vec<Color>)
        ensures
            final(self)@ == old(self)@.with_picture(picture@),
            final(self).width == old(self).width,
            final(self).height == old(self).height,
    {
        let count: usize = if picture.len() < self.color_buffer.len() {
            picture.len()
        } else {
            self.color_buffer.len()
        };
        let mut i: usize = 0;
        while i < count
            invariant
                i <= count,
                count <= picture@.len(),
                count <= self.color_buffer@.len(),
                count == picture@.len() || count == self.color_buffer@.len(),
                self.color_buffer@.len() == old(self).color_buffer@.len(),
                self.width == old(self).width,
                self.height == old(self).height,
                self.background_color == old(self).background_color,
                self.current_color == old(self).current_color,
                self.wall_texture_cache == old(self).wall_texture_cache,
                self.floor_texture_cache == old(self).floor_texture_cache,
                forall|k: int| 0 <= k < i ==> self.color_buffer@[k] == picture@[k],
                forall|k: int|
                    i <= k < self.color_buffer@.len() ==> self.color_buffer@[k] == old(
                        self,
                    ).color_buffer@[k],
            decreases count - i,
        {
            self.color_buffer.set(i, picture[i]);
            i = i + 1;
        }
        assert(self@.pixels =~= old(self)@.with_picture(picture@).pixels);
    }

    /// Paints, in the active colour, the pixels of row `y` from column
    /// `from` up to but not including column `to`.
    pub fn fill_span(&mut self, from: u32, to: u32, y: u32)
        ensures
            old(self)@.repainted(final(self)@),
            final(self)@.current_color == old(self)@.current_color,
            forall|cx: int, cy: int|
                old(self)@.holds(cx, cy) ==> #[trigger] final(self)@.pixel(cx, cy) == if cy == y
                    && from <= cx < to {
                    old(self)@.current_color
                } else {
                    old(self)@.pixel(cx, cy)
                },
    {
        let color: Color = self.current_color;
        let end: u32 = if to < self.width {
            to
        } else {
            self.width
        };
        let ghost before = self@;
        let mut x: u32 = from;
        while x < end
            invariant
                from <= x,
                x <= end || x == from,
                end <= to,
                end <= before.width,
                end == to || end == before.width,
                color == before.current_color,
                before.repainted(self@),
                self@.current_color == before.current_color,
                forall|cx: int, cy: int|
                    before.holds(cx, cy) ==> #[trigger] self@.pixel(cx, cy) == if cy == y && from
                        <= cx < x {
                        color
                    } else {
                        before.pixel(cx, cy)
                    },
            decreases end - x,
        {
            self.paint(x, y, color);
            x = x + 1;
        }
    }

    /// Paints, in the active colour, the rectangle `width` wide and
    /// `height` tall whose top left corner is `(left, top)`, as far as it
    /// lies on the surface.
    pub fn fill_rect(&mut self, left: u32, top: u32, width: u32, height: u32)
        ensures
            old(self)@.repainted(final(self)@),
            final(self)@.current_color == old(self)@.current_color,
            forall|cx: int, cy: int|
                old(self)@.holds(cx, cy) ==> #[trigger] final(self)@.pixel(cx, cy) == if in_rect(
                    left as int,
                    top as int,
                    width as int,
                    height as int,
                    cx,
                    cy,
                ) {
                    old(self)@.current_color
                } else {
                    old(self)@.pixel(cx, cy)
                },
    {
        let right: u32 = if (left as u64) + (width as u64) < self.width as u64 {
            left + width
        } else {
            self.width
        };
        let bottom: u32 = if (top as u64) + (height as u64) < self.height as u64 {
            top + height
        } else {
            self.height
        };
        let ghost before = self@;
        let mut y: u32 = top;
        while y < bottom
            invariant
                top <= y,
                y <= bottom || y == top,
                right == left + width || (right == before.width && right <= left + width),
                bottom == top + height || (bottom == before.height && bottom <= top + height),
                before.repainted(self@),
                self@.current_color == before.current_color,
                forall|cx: int, cy: int|
                    before.holds(cx, cy) ==> #[trigger] self@.pixel(cx, cy) == if top <= cy < y
                        && left <= cx < left + width {
                        before.current_color
                    } else {
                        before.pixel(cx, cy)
                    },
            decreases bottom - y,
        {
            self.fill_span(left, right, y);
            y = y + 1;
        }
    }

    /// The colour at `(x, y)`, if the surface holds that pixel.
    pub fn get_pixel(&self, x: u32, y: u32) -> (color: Option<Color>)
        ensures
            color == if self@.holds(x as int, y as int) {
                Some(self@.pixel(x as int, y as int))
            } else {
                None
            },
    {
        if x < self.width && y < self.height {
            let index: u64 = flat_index(x, y, self.width);
            if index < self.color_buffer.len() as u64 {
                return Some(self.color_buffer[index as usize]);
            }
        }
        None
    }

    /// Sets the colour that `clear` paints.
    pub fn set_background_color(&mut self, color: Color)
        ensures
            final(self)@ == (FrameView { background_color: color, ..old(self)@ }),
    {
        self.background_color = color;
    }

    /// Sets the colour that `set_pixel` paints.
    pub fn set_current_color(&mut self, color: Color)
        ensures
            final(self)@ == old(self)@.with_current_color(color),
    {
        self.current_color = color;
    }

    /// Installs the wall texture made of `pixels`, `width` to a row; where
    /// the parts do not fit together the slot is left empty.
    pub fn load_texture_cache(&mut self, width: u32, height: u32, pixels: Vec<Color>)
        ensures
            final(self)@ == (FrameView {
                wall_texture: loaded_texture(width, height, pixels@),
                ..old(self)@
            }),
    {
        self.wall_texture_cache = make_texture(width, height, pixels);
    }

    /// Installs the floor texture made of `pixels`, `width` to a row; where
    /// the parts do not fit together the slot is left empty.
    pub fn load_floor_texture_cache(&mut self, width: u32, height: u32, pixels: Vec<Color>)
        ensures
            final(self)@ == (FrameView {
                floor_texture: loaded_texture(width, height, pixels@),
                ..old(self)@
            }),
    {
        self.floor_texture_cache = make_texture(width, height, pixels);
    }

    /// The wall colour at texture coordinates `(tx, ty)`.
    pub fn get_texture_pixel(&self, tx: Fixed, ty: Fixed) -> (color: Color)
        ensures
            color == self@.wall_color(tx as int, ty as int),
    {
        match &self.wall_texture_cache {
            Some(texture) => match sample_texture(texture, tx, ty) {
                Some(color) => color,
                None => procedural_color(tx, ty),
            },
            None => procedural_color(tx, ty),
        }
    }

    /// The floor colour at texture coordinates `(tx, ty)`.
    pub fn get_floor_texture_pixel(&self, tx: Fixed, ty: Fixed) -> (color: Color)
        ensures
            color == self@.floor_color(tx as int, ty as int),
    {
        match &self.floor_texture_cache {
            Some(texture) => match sample_texture(texture, tx, ty) {
                Some(color) => color,
                None => Color::new(80, 60, 40, 255),
            },
            None => Color::new(80, 60, 40, 255),
        }
    }
}

} // verus!
