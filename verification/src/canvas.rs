//! Flat drawings: rectangles and texts laid one over the other.

use vstd::prelude::*;
use crate::color::Color;
use crate::fixed::floor_div;
use crate::fixed::magnitude;
use crate::fixed::lemma_product_bound;
use crate::framebuffer::Framebuffer;
use crate::framebuffer::in_rect;
use crate::text::text_covers;

verus! {

/// One thing drawn in one colour: a filled rectangle, or a text in the
/// bitmap font.
#[derive(Clone, Copy, Debug)]
pub enum Layer {
    Rect { left: u32, top: u32, width: u32, height: u32, color: Color },
    Text { text: &'static str, left: u32, top: u32, size: u32, color: Color },
    Disc { cx: i32, cy: i32, radius: i32, color: Color },
    Line { x0: i32, y0: i32, x1: i32, y1: i32, color: Color },
}

/// Whether `(x, y)` is no farther than `radius` from `(cx, cy)`.
pub open spec fn in_disc(cx: int, cy: int, radius: int, x: int, y: int) -> bool {
    radius >= 0 && (x - cx) * (x - cx) + (y - cy) * (y - cy) <= radius * radius
}

/// The size of a number.
pub open spec fn size_of(v: int) -> int {
    if v < 0 {
        -v
    } else {
        v
    }
}

/// The number of steps in which a line is drawn: one for each pixel along
/// the axis on which it is longer.
pub open spec fn line_steps(x0: int, y0: int, x1: int, y1: int) -> int {
    if size_of(x1 - x0) > size_of(y1 - y0) {
        size_of(x1 - x0)
    } else {
        size_of(y1 - y0)
    }
}

/// One coordinate of the `k`-th of the points of a line of `steps` steps:
/// the first is its start, the last its end.
pub open spec fn line_point(from: int, to: int, steps: int, k: int) -> int {
    if steps == 0 {
        from
    } else {
        from + (to - from) * k / steps
    }
}

/// Whether `(x, y)` is one of the points of the line from `(x0, y0)` to
/// `(x1, y1)`.
pub open spec fn on_line(x0: int, y0: int, x1: int, y1: int, x: int, y: int) -> bool {
    exists|k: int|
        0 <= k <= line_steps(x0, y0, x1, y1) && x == #[trigger] line_point(
            x0,
            x1,
            line_steps(x0, y0, x1, y1),
            k,
        ) && y == line_point(y0, y1, line_steps(x0, y0, x1, y1), k)
}

impl Layer {
    /// Whether the layer covers the pixel `(x, y)`.
    pub open spec fn covers(self, x: int, y: int) -> bool {
        match self {
            Layer::Rect { left, top, width, height, color } => in_rect(
                left as int,
                top as int,
                width as int,
                height as int,
                x,
                y,
            ),
            Layer::Text { text, left, top, size, color } => text_covers(
                text@,
                left as int,
                top as int,
                size as int,
                x,
                y,
            ),
            Layer::Disc { cx, cy, radius, color } => in_disc(
                cx as int,
                cy as int,
                radius as int,
                x,
                y,
            ),
            Layer::Line { x0, y0, x1, y1, color } => on_line(
                x0 as int,
                y0 as int,
                x1 as int,
                y1 as int,
                x,
                y,
            ),
        }
    }

    /// The colour of the layer.
    pub open spec fn color(self) -> Color {
        match self {
            Layer::Rect { left, top, width, height, color } => color,
            Layer::Text { text, left, top, size, color } => color,
            Layer::Disc { cx, cy, radius, color } => color,
            Layer::Line { x0, y0, x1, y1, color } => color,
        }
    }
}

/// The colour at `(x, y)` once the first `count` layers are drawn, one over
/// the other, over a pixel that showed `under`.
pub open spec fn stacked(layers: Seq<Layer>, count: nat, under: Color, x: int, y: int) -> Color
    decreases count,
{
    if count == 0 {
        under
    } else if layers[count - 1].covers(x, y) {
        layers[count - 1].color()
    } else {
        stacked(layers, (count - 1) as nat, under, x, y)
    }
}

/// The active colour once the layers are drawn: that of the last.
pub open spec fn last_color(layers: Seq<Layer>, before: Color) -> Color {
    if layers.len() > 0 {
        layers[layers.len() - 1].color()
    } else {
        before
    }
}

/// Computes `in_disc`.
fn disc_holds(cx: i32, cy: i32, radius: i32, x: u32, y: u32) -> (inside: bool)
    ensures
        inside == in_disc(cx as int, cy as int, radius as int, x as int, y as int),
{
    if radius < 0 {
        return false;
    }
    let dx: u128 = magnitude((x as i128) - (cx as i128));
    let dy: u128 = magnitude((y as i128) - (cy as i128));
    let reach: u128 = radius as u128;
    proof {
        lemma_product_bound(dx as int, dx as int, 0x1_0000_0000_0000_0000, 0x1_0000_0000_0000_0000);
        lemma_product_bound(dy as int, dy as int, 0x1_0000_0000_0000_0000, 0x1_0000_0000_0000_0000);
        lemma_product_bound(
            reach as int,
            reach as int,
            0x1_0000_0000_0000_0000,
            0x1_0000_0000_0000_0000,
        );
        assert(dx * dx == (x - cx) * (x - cx)) by (nonlinear_arith)
            requires
                dx == x - cx || dx == -(x - cx),
        ;
        assert(dy * dy == (y - cy) * (y - cy)) by (nonlinear_arith)
            requires
                dy == y - cy || dy == -(y - cy),
        ;
    }
    if dx > reach || dy > reach {
        proof {
            let far: int = if dx > reach {
                dx as int
            } else {
                dy as int
            };
            assert(far * far > reach * reach) by (nonlinear_arith)
                requires
                    far > reach,
                    reach >= 0,
            ;
            assert(dx * dx >= 0 && dy * dy >= 0) by (nonlinear_arith);
        }
        return false;
    }
    assert(dx * dx <= 0x7fff_ffff * 0x7fff_ffff && dy * dy <= 0x7fff_ffff * 0x7fff_ffff && reach
        * reach <= 0x7fff_ffff * 0x7fff_ffff) by (nonlinear_arith)
        requires
            0 <= dx <= reach,
            0 <= dy <= reach,
            reach <= 0x7fff_ffff,
    ;
    dx * dx + dy * dy <= reach * reach
}

/// Paints, in the active colour, the pixels of one row that lie in a disc.
fn draw_disc_row(framebuffer: &mut Framebuffer, cx: i32, cy: i32, radius: i32, y: u32)
    ensures
        old(framebuffer)@.repainted(final(framebuffer)@),
        final(framebuffer)@.current_color == old(framebuffer)@.current_color,
        forall|px: int, py: int|
            old(framebuffer)@.holds(px, py) ==> #[trigger] final(framebuffer)@.pixel(px, py)
                == if py == y && in_disc(cx as int, cy as int, radius as int, px, py) {
                old(framebuffer)@.current_color
            } else {
                old(framebuffer)@.pixel(px, py)
            },
{
    let color: Color = framebuffer.current_color;
    let width: u32 = framebuffer.width;
    let ghost before = framebuffer@;
    let mut x: u32 = 0;
    while x < width
        invariant
            x <= width,
            width == before.width,
            color == before.current_color,
            before.repainted(framebuffer@),
            framebuffer@.current_color == before.current_color,
            forall|px: int, py: int|
                before.holds(px, py) ==> #[trigger] framebuffer@.pixel(px, py) == if py == y && px
                    < x && in_disc(cx as int, cy as int, radius as int, px, py) {
                    color
                } else {
                    before.pixel(px, py)
                },
        decreases width - x,
    {
        if disc_holds(cx, cy, radius, x, y) {
            framebuffer.paint(x, y, color);
        }
        x = x + 1;
    }
}

/// Paints, in the active colour, the pixels that are no farther than
/// `radius` from `(cx, cy)`.
pub fn draw_disc(framebuffer: &mut Framebuffer, cx: i32, cy: i32, radius: i32)
    ensures
        old(framebuffer)@.repainted(final(framebuffer)@),
        final(framebuffer)@.current_color == old(framebuffer)@.current_color,
        forall|px: int, py: int|
            old(framebuffer)@.holds(px, py) ==> #[trigger] final(framebuffer)@.pixel(px, py)
                == if in_disc(cx as int, cy as int, radius as int, px, py) {
                old(framebuffer)@.current_color
            } else {
                old(framebuffer)@.pixel(px, py)
            },
{
    let height: u32 = framebuffer.height;
    let ghost before = framebuffer@;
    let mut y: u32 = 0;
    while y < height
        invariant
            y <= height,
            height == before.height,
            before.repainted(framebuffer@),
            framebuffer@.current_color == before.current_color,
            forall|px: int, py: int|
                before.holds(px, py) ==> #[trigger] framebuffer@.pixel(px, py) == if py < y
                    && in_disc(cx as int, cy as int, radius as int, px, py) {
                    before.current_color
                } else {
                    before.pixel(px, py)
                },
        decreases height - y,
    {
        let near: bool = {
            let dy: i128 = (y as i128) - (cy as i128);
            -(radius as i128) <= dy && dy <= radius as i128
        };
        if near {
            draw_disc_row(framebuffer, cx, cy, radius, y);
        } else {
            proof {
                assert forall|px: int| !in_disc(
                    cx as int,
                    cy as int,
                    radius as int,
                    px,
                    y as int,
                ) by {
                    if radius >= 0 {
                        let dy = y - cy;
                        assert(dy * dy > radius * radius) by (nonlinear_arith)
                            requires
                                dy > radius || dy < -radius,
                                radius >= 0,
                        ;
                        assert((px - cx) * (px - cx) >= 0) by (nonlinear_arith);
                    }
                }
            }
        }
        y = y + 1;
    }
}

/// Computes `line_point`.
fn point_of_line(from: i32, to: i32, steps: i128, k: i128) -> (p: i128)
    requires
        0 <= k <= steps <= 0x1_0000_0000,
    ensures
        p == line_point(from as int, to as int, steps as int, k as int),
{
    if steps == 0 {
        from as i128
    } else {
        let span: i128 = (to as i128) - (from as i128);
        proof {
            lemma_product_bound(span as int, k as int, 0x1_0000_0000, 0x1_0000_0000);
        }
        let offset: i128 = floor_div(span * k, steps);
        assert(-0x1_0000_0000_0000_0000 <= offset <= 0x1_0000_0000_0000_0000) by (nonlinear_arith)
            requires
                offset == (span * k) / (steps as int),
                steps >= 1,
                -0x1_0000_0000_0000_0000 <= span * k <= 0x1_0000_0000_0000_0000,
        ;
        (from as i128) + offset
    }
}

/// Whether `(x, y)` is one of the first `count` points of a line.
pub open spec fn on_line_before(x0: int, y0: int, x1: int, y1: int, count: int, x: int, y: int)
    -> bool {
    exists|k: int|
        0 <= k < count && x == #[trigger] line_point(x0, x1, line_steps(x0, y0, x1, y1), k) && y
            == line_point(y0, y1, line_steps(x0, y0, x1, y1), k)
}

/// Paints, in the active colour, the points of the line from `(x0, y0)` to
/// `(x1, y1)`, its two ends among them.
pub fn draw_line(framebuffer: &mut Framebuffer, x0: i32, y0: i32, x1: i32, y1: i32)
    ensures
        old(framebuffer)@.repainted(final(framebuffer)@),
        final(framebuffer)@.current_color == old(framebuffer)@.current_color,
        forall|px: int, py: int|
            old(framebuffer)@.holds(px, py) ==> #[trigger] final(framebuffer)@.pixel(px, py)
                == if on_line(x0 as int, y0 as int, x1 as int, y1 as int, px, py) {
                old(framebuffer)@.current_color
            } else {
                old(framebuffer)@.pixel(px, py)
            },
{
    let color: Color = framebuffer.current_color;
    let wide: u128 = magnitude((x1 as i128) - (x0 as i128));
    let tall: u128 = magnitude((y1 as i128) - (y0 as i128));
    let steps: i128 = if wide > tall {
        wide as i128
    } else {
        tall as i128
    };
    let ghost before = framebuffer@;
    let mut k: i128 = 0;
    while k <= steps
        invariant
            0 <= k <= steps + 1,
            steps == line_steps(x0 as int, y0 as int, x1 as int, y1 as int),
            steps <= 0xffff_ffff,
            color == before.current_color,
            before.repainted(framebuffer@),
            framebuffer@.current_color == before.current_color,
            forall|px: int, py: int|
                before.holds(px, py) ==> #[trigger] framebuffer@.pixel(px, py)
                    == if on_line_before(
                    x0 as int,
                    y0 as int,
                    x1 as int,
                    y1 as int,
                    k as int,
                    px,
                    py,
                ) {
                    color
                } else {
                    before.pixel(px, py)
                },
        decreases steps + 1 - k,
    {
        let x: i128 = point_of_line(x0, x1, steps, k);
        let y: i128 = point_of_line(y0, y1, steps, k);
        let ghost earlier = framebuffer@;
        let on_surface: bool = 0 <= x && x <= u32::MAX as i128 && 0 <= y && y <= u32::MAX as i128;
        if on_surface {
            framebuffer.paint(x as u32, y as u32, color);
        }
        proof {
            assert forall|px: int, py: int| before.holds(px, py) implies #[trigger] framebuffer@.pixel(
                px,
                py,
            ) == if on_line_before(x0 as int, y0 as int, x1 as int, y1 as int, k + 1, px, py) {
                color
            } else {
                before.pixel(px, py)
            } by {
                assert(earlier.holds(px, py));
                let was = on_line_before(x0 as int, y0 as int, x1 as int, y1 as int, k as int, px, py);
                let is = on_line_before(x0 as int, y0 as int, x1 as int, y1 as int, k + 1, px, py);
                let here = px == x && py == y;
                if was {
                    let j = choose|j: int|
                        0 <= j < k && px == #[trigger] line_point(
                            x0 as int,
                            x1 as int,
                            steps as int,
                            j,
                        ) && py == line_point(y0 as int, y1 as int, steps as int, j);
                    assert(0 <= j < k + 1);
                    assert(is);
                }
                if here {
                    assert(px == line_point(x0 as int, x1 as int, steps as int, k as int));
                    assert(is);
                    assert(on_surface);
                }
                if is && !was {
                    let j = choose|j: int|
                        0 <= j < k + 1 && px == #[trigger] line_point(
                            x0 as int,
                            x1 as int,
                            steps as int,
                            j,
                        ) && py == line_point(y0 as int, y1 as int, steps as int, j);
                    if j < k {
                        assert(was);
                    }
                    assert(here);
                }
            }
        }
        k = k + 1;
    }
    proof {
        assert forall|px: int, py: int|
            on_line_before(
                x0 as int,
                y0 as int,
                x1 as int,
                y1 as int,
                steps + 1,
                px,
                py,
            ) == on_line(x0 as int, y0 as int, x1 as int, y1 as int, px, py) by {
            if on_line(x0 as int, y0 as int, x1 as int, y1 as int, px, py) {
                let j = choose|j: int|
                    0 <= j <= steps && px == #[trigger] line_point(
                        x0 as int,
                        x1 as int,
                        steps as int,
                        j,
                    ) && py == line_point(y0 as int, y1 as int, steps as int, j);
                assert(0 <= j < steps + 1);
            }
            if on_line_before(x0 as int, y0 as int, x1 as int, y1 as int, steps + 1, px, py) {
                let j = choose|j: int|
                    0 <= j < steps + 1 && px == #[trigger] line_point(
                        x0 as int,
                        x1 as int,
                        steps as int,
                        j,
                    ) && py == line_point(y0 as int, y1 as int, steps as int, j);
                assert(0 <= j <= steps);
            }
        }
    }
}

/// Draws one layer.
pub fn draw_layer(framebuffer: &mut Framebuffer, layer: &Layer)
    ensures
        old(framebuffer)@.repainted(final(framebuffer)@),
        final(framebuffer)@.current_color == layer.color(),
        forall|cx: int, cy: int|
            old(framebuffer)@.holds(cx, cy) ==> #[trigger] final(framebuffer)@.pixel(cx, cy)
                == if layer.covers(cx, cy) {
                layer.color()
            } else {
                old(framebuffer)@.pixel(cx, cy)
            },
{
    match layer {
        Layer::Rect { left, top, width, height, color } => {
            framebuffer.set_current_color(*color);
            framebuffer.fill_rect(*left, *top, *width, *height);
        },
        Layer::Text { text, left, top, size, color } => {
            framebuffer.draw_text(*text, *left, *top, *size, *color);
        },
        Layer::Disc { cx, cy, radius, color } => {
            framebuffer.set_current_color(*color);
            draw_disc(framebuffer, *cx, *cy, *radius);
        },
        Layer::Line { x0, y0, x1, y1, color } => {
            framebuffer.set_current_color(*color);
            draw_line(framebuffer, *x0, *y0, *x1, *y1);
        },
    }
}

/// Draws the layers, the first at the bottom.
pub fn draw_layers(framebuffer: &mut Framebuffer, layers: &Vec<Layer>)
    ensures
        old(framebuffer)@.repainted(final(framebuffer)@),
        final(framebuffer)@.current_color == last_color(
            layers@,
            old(framebuffer)@.current_color,
        ),
        forall|cx: int, cy: int|
            old(framebuffer)@.holds(cx, cy) ==> #[trigger] final(framebuffer)@.pixel(cx, cy)
                == stacked(layers@, layers@.len(), old(framebuffer)@.pixel(cx, cy), cx, cy),
{
    let ghost before = framebuffer@;
    let mut i: usize = 0;
    while i < layers.len()
        invariant
            i <= layers@.len(),
            before.repainted(framebuffer@),
            framebuffer@.current_color == last_color(
                layers@.subrange(0, i as int),
                before.current_color,
            ),
            forall|cx: int, cy: int|
                before.holds(cx, cy) ==> #[trigger] framebuffer@.pixel(cx, cy) == stacked(
                    layers@,
                    i as nat,
                    before.pixel(cx, cy),
                    cx,
                    cy,
                ),
        decreases layers@.len() - i,
    {
        let ghost earlier = framebuffer@;
        draw_layer(framebuffer, &layers[i]);
        proof {
            assert forall|cx: int, cy: int| before.holds(cx, cy) implies #[trigger] framebuffer@.pixel(
                cx,
                cy,
            ) == stacked(layers@, (i + 1) as nat, before.pixel(cx, cy), cx, cy) by {
                assert(earlier.holds(cx, cy));
            }
            assert(layers@.subrange(0, i + 1)[i as int] == layers@[i as int]);
        }
        i = i + 1;
    }
    proof {
        assert(layers@.subrange(0, layers@.len() as int) =~= layers@);
    }
}

} // verus!
