//! Turning the frames of a decoded animation into pixels that the sprite
//! pass can draw.

use vstd::prelude::*;
use crate::color::Color;
use crate::color::rgba;
use crate::framebuffer::TextureView;
use crate::sprites::SpriteManager;
use crate::sprites::SpritePixelData;
use crate::sprites::SpriteType;
use crate::sprites::SpritesView;

verus! {

/// One frame of a decoded animation: a buffer of palette indices, row by
/// row, with the palette of the frame, if it has one of its own, and the
/// index that stands for a transparent pixel, if there is one.
#[derive(Debug)]
pub struct GifFrame {
    pub width: u16,
    pub height: u16,
    pub buffer: Vec<u8>,
    pub palette: Option<Vec<u8>>,
    pub transparent: Option<u8>,
}

/// What a decoded frame is, mathematically.
pub struct GifFrameView {
    pub width: nat,
    pub height: nat,
    pub buffer: Seq<u8>,
    pub palette: Option<Seq<u8>>,
    pub transparent: Option<u8>,
}

/// The bytes of a palette that may be missing.
pub open spec fn palette_view(palette: Option<Vec<u8>>) -> Option<Seq<u8>> {
    match palette {
        Some(bytes) => Some(bytes@),
        None => None,
    }
}

impl View for GifFrame {
    type V = GifFrameView;

    open spec fn view(&self) -> GifFrameView {
        GifFrameView {
            width: self.width as nat,
            height: self.height as nat,
            buffer: self.buffer@,
            palette: palette_view(self.palette),
            transparent: self.transparent,
        }
    }
}

/// How many frames of an animation are kept.
pub const MAX_FRAMES: usize = 8;

/// A pixel that lets everything behind it show.
pub open spec fn clear_pixel() -> Color {
    rgba(0, 0, 0, 0)
}

/// The colour shown for an index that the palette does not hold.
pub open spec fn missing_color() -> Color {
    rgba(255, 0, 255, 255)
}

/// The colour a palette of red, green and blue bytes gives an index.
pub open spec fn palette_color(palette: Seq<u8>, index: u8) -> Color {
    if index * 3 + 2 < palette.len() {
        rgba(palette[index * 3], palette[index * 3 + 1], palette[index * 3 + 2], 255)
    } else {
        missing_color()
    }
}

/// The palette a frame is shown with: its own, or else the one of the
/// whole animation.
pub open spec fn palette_in_use(local: Option<Seq<u8>>, global: Option<Seq<u8>>) -> Option<
    Seq<u8>,
> {
    if local is Some {
        local
    } else {
        global
    }
}

/// The colour of one index of a frame: with a palette, clear for the
/// transparent index and the colour of the palette for any other; without
/// one, the grey of that brightness.
pub open spec fn indexed_color(palette: Option<Seq<u8>>, transparent: Option<u8>, index: u8)
    -> Color {
    match palette {
        Some(bytes) => if transparent == Some(index) {
            clear_pixel()
        } else {
            palette_color(bytes, index)
        },
        None => rgba(index, index, index, 255),
    }
}

/// The pixel of a frame at position `i` of its rows laid end to end: the
/// colour of the index the buffer holds there, clear where the buffer is
/// too short.
pub open spec fn converted_pixel(frame: GifFrameView, global: Option<Seq<u8>>, i: int) -> Color {
    if 0 <= i < frame.buffer.len() {
        indexed_color(palette_in_use(frame.palette, global), frame.transparent, frame.buffer[i])
    } else {
        clear_pixel()
    }
}

/// The pixels of a frame: exactly as many as its size calls for.
pub open spec fn converted_frame(frame: GifFrameView, global: Option<Seq<u8>>) -> TextureView {
    TextureView {
        width: frame.width,
        height: frame.height,
        pixels: Seq::new(frame.width * frame.height, |i: int| converted_pixel(frame, global, i)),
    }
}

/// The frames kept of a decoded animation: the first `MAX_FRAMES`, each
/// turned into pixels.
pub open spec fn converted_frames(frames: Seq<GifFrame>, global: Option<Seq<u8>>) -> Seq<
    TextureView,
> {
    Seq::new(
        if frames.len() < MAX_FRAMES {
            frames.len()
        } else {
            MAX_FRAMES as nat
        },
        |i: int| converted_frame(frames[i]@, global),
    )
}

/// Computes `palette_color`.
fn color_from_palette(palette: &Vec<u8>, index: u8) -> (color: Color)
    ensures
        color == palette_color(palette@, index),
{
    let at: usize = (index as usize) * 3;
    if at + 2 < palette.len() {
        Color::new(palette[at], palette[at + 1], palette[at + 2], 255)
    } else {
        Color::new(255, 0, 255, 255)
    }
}

impl SpriteManager {
    /// Turns a decoded frame into pixels, with the palette of the frame
    /// or, where it has none, with `global_palette`.
    pub fn convert_gif_frame_with_palette(
        &self,
        frame: &GifFrame,
        global_palette: &Option<Vec<u8>>,
    ) -> (data: SpritePixelData)
        ensures
            data@ == converted_frame(frame@, palette_view(*global_palette)),
    {
        let width: u32 = frame.width as u32;
        let height: u32 = frame.height as u32;
        assert(width * height <= 65535 * 65535) by (nonlinear_arith)
            requires
                0 <= width <= 65535,
                0 <= height <= 65535,
        ;
        let count: usize = (width * height) as usize;
        let ghost global = palette_view(*global_palette);
        let mut pixels: Vec<Color> = Vec::new();
        let mut i: usize = 0;
        while i < count
            invariant
                i <= count,
                pixels@.len() == i,
                global == palette_view(*global_palette),
                forall|k: int| 0 <= k < i ==> pixels@[k] == converted_pixel(frame@, global, k),
            decreases count - i,
        {
            let color: Color = if i < frame.buffer.len() {
                let index: u8 = frame.buffer[i];
                match &frame.palette {
                    Some(local) => {
                        if frame.transparent == Some(index) {
                            Color::new(0, 0, 0, 0)
                        } else {
                            color_from_palette(local, index)
                        }
                    },
                    None => match global_palette {
                        Some(shared) => {
                            if frame.transparent == Some(index) {
                                Color::new(0, 0, 0, 0)
                            } else {
                                color_from_palette(shared, index)
                            }
                        },
                        None => Color::new(index, index, index, 255),
                    },
                }
            } else {
                Color::new(0, 0, 0, 0)
            };
            pixels.push(color);
            i = i + 1;
        }
        let data = SpritePixelData { width, height, pixels };
        assert(data@.pixels =~= converted_frame(frame@, global).pixels);
        data
    }

    /// Loads the frames of a decoded animation for a kind of sprite: the
    /// first `MAX_FRAMES` of them, each turned into pixels.  An animation
    /// without a frame leaves the manager as it is.
    pub fn load_gif_frames(
        &mut self,
        sprite_type: SpriteType,
        frames: &Vec<GifFrame>,
        global_palette: &Option<Vec<u8>>,
    )
        ensures
            final(self)@ == if frames@.len() == 0 {
                old(self)@
            } else {
                SpritesView {
                    frames: old(self)@.frames.insert(
                        sprite_type,
                        converted_frames(frames@, palette_view(*global_palette)),
                    ),
                    ..old(self)@
                }
            },
    {
        if frames.len() == 0 {
            return ;
        }
        let kept: usize = if frames.len() < MAX_FRAMES {
            frames.len()
        } else {
            MAX_FRAMES
        };
        let ghost global = palette_view(*global_palette);
        let mut pixel_frames: Vec<SpritePixelData> = Vec::new();
        let mut i: usize = 0;
        while i < kept
            invariant
                i <= kept <= frames@.len(),
                pixel_frames@.len() == i,
                global == palette_view(*global_palette),
                forall|k: int|
                    0 <= k < i ==> (#[trigger] pixel_frames@[k])@ == converted_frame(
                        frames@[k]@,
                        global,
                    ),
            decreases kept - i,
        {
            let data: SpritePixelData = self.convert_gif_frame_with_palette(
                &frames[i],
                global_palette,
            );
            pixel_frames.push(data);
            i = i + 1;
        }
        proof {
            assert(crate::sprites::frame_views(pixel_frames@) =~= converted_frames(
                frames@,
                global,
            ));
        }
        self.set_frames(sprite_type, pixel_frames);
    }

    /// Loads the frames of the one animation there is.
    pub fn load_sprite_textures(&mut self, frames: &Vec<GifFrame>, global_palette: &Option<Vec<u8>>)
        ensures
            final(self)@ == if frames@.len() == 0 {
                old(self)@
            } else {
                SpritesView {
                    frames: old(self)@.frames.insert(
                        SpriteType::Naruto,
                        converted_frames(frames@, palette_view(*global_palette)),
                    ),
                    ..old(self)@
                }
            },
    {
        self.load_gif_frames(SpriteType::Naruto, frames, global_palette);
    }
}

} // verus!
